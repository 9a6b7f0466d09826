//! The lexer: from source text to tokens.

use crate::errors::{Error, ErrorView};
use crate::number::{
    all_digits, canonical, digits_text, lemma_trim_back, lemma_trim_front, normal_form,
    number_text, Number, NumberView,
};
use crate::text::{
    alphabetic, ascii_alphanumeric, decimal_digit, digit_char, digit_of, digit_value, is_alphabetic,
    is_ascii_alphanumeric, is_decimal_digit, is_whitespace, push_char, whitespace,
};
use crate::tokens::{tokens_view, Token, TokenView};
use vstd::prelude::*;
use vstd::std_specs::iter::IteratorSpec;

verus! {

/// The number of line breaks before position `i`: the line of that position,
/// counted from zero.
pub open spec fn line_of(s: Seq<char>, i: int) -> nat
    decreases i,
{
    if i <= 0 {
        0
    } else if s[i - 1] == '\n' {
        line_of(s, i - 1) + 1
    } else {
        line_of(s, i - 1)
    }
}

/// The number of characters between the last line break before position `i`
/// and that position: its column, counted from zero.
pub open spec fn column_of(s: Seq<char>, i: int) -> nat
    decreases i,
{
    if i <= 0 {
        0
    } else if s[i - 1] == '\n' {
        0
    } else {
        column_of(s, i - 1) + 1
    }
}

/// The error for a character that starts no token at position `i`.
pub open spec fn bad_char(s: Seq<char>, i: int) -> ErrorView {
    ErrorView::UnexpectedChar(line_of(s, i) as usize, column_of(s, i) as usize, s[i])
}

/// The error for input that ends inside a token; it carries the position of
/// the end of the input.
pub open spec fn bad_end(s: Seq<char>) -> ErrorView {
    ErrorView::UnexpectedEOF(
        line_of(s, s.len() as int) as usize,
        column_of(s, s.len() as int) as usize,
    )
}

/// The position after the `#` that closes a comment whose text starts at
/// `i`, or the end of the input if nothing closes it.
pub open spec fn comment_end(s: Seq<char>, i: int) -> int
    decreases s.len() - i,
{
    if i < 0 || i >= s.len() {
        s.len() as int
    } else if s[i] == '#' {
        i + 1
    } else {
        comment_end(s, i + 1)
    }
}

/// A character that may continue a name.
pub open spec fn name_char(c: char) -> bool {
    ascii_alphanumeric(c) || c == '_'
}

/// The first position from `i` on that holds no name character.
pub open spec fn name_end(s: Seq<char>, i: int) -> int
    decreases s.len() - i,
{
    if 0 <= i < s.len() && name_char(s[i]) {
        name_end(s, i + 1)
    } else {
        i
    }
}

/// The first position from `i` on that holds no decimal digit.
pub open spec fn digits_end(s: Seq<char>, i: int) -> int
    decreases s.len() - i,
{
    if 0 <= i < s.len() && decimal_digit(s[i]) {
        digits_end(s, i + 1)
    } else {
        i
    }
}

/// The values of a run of digit characters.
pub open spec fn digit_values(s: Seq<char>) -> Seq<u8> {
    Seq::new(s.len(), |k: int| digit_value(s[k]))
}

/// What the lexer does at one position: it passes over text, produces a
/// token, or fails. The position is the one to go on from.
pub enum Step {
    Skip(int),
    Emit(TokenView, int),
    Fail(ErrorView),
}

/// The numeric literal whose digits start at `i`: a run of digits, then
/// optionally a `.` and another run of digits.
pub open spec fn number_at(s: Seq<char>, i: int, negative: bool) -> Step {
    let e1 = digits_end(s, i);
    if e1 < s.len() && s[e1] == '.' {
        let e2 = digits_end(s, e1 + 1);
        Step::Emit(
            TokenView::Num(
                normal_form(
                    negative,
                    digit_values(s.subrange(i, e1)),
                    digit_values(s.subrange(e1 + 1, e2)),
                ),
            ),
            e2,
        )
    } else {
        Step::Emit(
            TokenView::Num(normal_form(negative, digit_values(s.subrange(i, e1)), Seq::empty())),
            e1,
        )
    }
}

/// What an escaped character stands for inside a string literal.
pub open spec fn escaped(c: char) -> Seq<char> {
    if c == '\n' {
        Seq::empty()
    } else if c == 'n' {
        seq!['\n']
    } else if c == 'u' {
        seq!['\0']
    } else {
        seq![c]
    }
}

/// The content of the string literal whose text starts at `i`, after the
/// opening quote, and the position after its closing quote; `None` if the
/// input ends before the literal is closed.
pub open spec fn string_from(s: Seq<char>, i: int) -> Option<(Seq<char>, int)>
    decreases s.len() - i,
{
    if i < 0 || i >= s.len() {
        None
    } else if s[i] == '"' {
        Some((Seq::empty(), i + 1))
    } else if s[i] == '\\' {
        if i + 1 >= s.len() {
            None
        } else {
            match string_from(s, i + 2) {
                Some((rest, e)) => Some((escaped(s[i + 1]) + rest, e)),
                None => None,
            }
        }
    } else {
        match string_from(s, i + 1) {
            Some((rest, e)) => Some((seq![s[i]] + rest, e)),
            None => None,
        }
    }
}

/// The marker that a single punctuation character stands for.
pub open spec fn punctuation(c: char) -> Option<TokenView> {
    if c == '@' {
        Some(TokenView::FunctionDecl)
    } else if c == '{' {
        Some(TokenView::OpenCurly)
    } else if c == '}' {
        Some(TokenView::CloseCurly)
    } else if c == '(' {
        Some(TokenView::OpenBracket)
    } else if c == ')' {
        Some(TokenView::CloseBracket)
    } else if c == '[' {
        Some(TokenView::OpenSquare)
    } else if c == ']' {
        Some(TokenView::CloseSquare)
    } else if c == ';' {
        Some(TokenView::EndLine)
    } else {
        None
    }
}

/// The step that the lexer takes at position `i` of `s`.
pub open spec fn next_step(s: Seq<char>, i: int) -> Step
    recommends
        0 <= i < s.len(),
{
    let c = s[i];
    if c == '#' {
        Step::Skip(comment_end(s, i + 1))
    } else if alphabetic(c) {
        Step::Emit(TokenView::Ident(s.subrange(i, name_end(s, i + 1))), name_end(s, i + 1))
    } else if decimal_digit(c) {
        number_at(s, i, false)
    } else if punctuation(c) is Some {
        Step::Emit(punctuation(c)->0, i + 1)
    } else if c == '=' {
        if i + 1 >= s.len() {
            Step::Fail(bad_end(s))
        } else if s[i + 1] == '>' {
            Step::Emit(TokenView::ForAssigner, i + 2)
        } else {
            Step::Fail(bad_char(s, i + 1))
        }
    } else if c == '-' {
        if i + 1 >= s.len() {
            Step::Fail(bad_end(s))
        } else if s[i + 1] == '>' {
            Step::Emit(TokenView::ArrowAssigner, i + 2)
        } else if decimal_digit(s[i + 1]) {
            number_at(s, i + 1, true)
        } else {
            Step::Fail(bad_char(s, i + 1))
        }
    } else if c == '"' {
        match string_from(s, i + 1) {
            Some((body, e)) => Step::Emit(TokenView::Str(body), e),
            None => Step::Fail(bad_end(s)),
        }
    } else if c == '\n' || whitespace(c) {
        Step::Skip(i + 1)
    } else {
        Step::Fail(bad_char(s, i))
    }
}

/// The position that a step goes on from.
pub open spec fn step_end(step: Step) -> int {
    match step {
        Step::Skip(j) => j,
        Step::Emit(_, j) => j,
        Step::Fail(_) => 0,
    }
}

/// A comment ends at or after the position where its text starts, inside
/// the input.
pub proof fn lemma_comment_end(s: Seq<char>, i: int)
    requires
        0 <= i <= s.len(),
    ensures
        i <= comment_end(s, i) <= s.len(),
    decreases s.len() - i,
{
    if i < s.len() && s[i] != '#' {
        lemma_comment_end(s, i + 1);
    }
}

/// A name ends inside the input: every character before its end may
/// continue a name, and the character at its end, if there is one, may not.
pub proof fn lemma_name_end(s: Seq<char>, i: int)
    requires
        0 <= i <= s.len(),
    ensures
        i <= name_end(s, i) <= s.len(),
        forall|k: int| i <= k < name_end(s, i) ==> name_char(#[trigger] s[k]),
        name_end(s, i) < s.len() ==> !name_char(s[name_end(s, i)]),
    decreases s.len() - i,
{
    if i < s.len() && name_char(s[i]) {
        lemma_name_end(s, i + 1);
    }
}

/// A run of digits ends inside the input: every character before its end is
/// a digit, and the character at its end, if there is one, is none.
pub proof fn lemma_digits_end(s: Seq<char>, i: int)
    requires
        0 <= i <= s.len(),
    ensures
        i <= digits_end(s, i) <= s.len(),
        forall|k: int| i <= k < digits_end(s, i) ==> decimal_digit(#[trigger] s[k]),
        digits_end(s, i) < s.len() ==> !decimal_digit(s[digits_end(s, i)]),
    decreases s.len() - i,
{
    if i < s.len() && decimal_digit(s[i]) {
        lemma_digits_end(s, i + 1);
    }
}

/// A string literal that is closed ends after the position where its text
/// starts, inside the input.
pub proof fn lemma_string_from(s: Seq<char>, i: int)
    requires
        0 <= i <= s.len(),
    ensures
        match string_from(s, i) {
            Some((_, e)) => i < e <= s.len(),
            None => true,
        },
    decreases s.len() - i,
{
    if i < s.len() && s[i] != '"' {
        if s[i] == '\\' {
            if i + 1 < s.len() {
                lemma_string_from(s, i + 2);
            }
        } else {
            lemma_string_from(s, i + 1);
        }
    }
}

/// Every step that does not fail moves forward and stays inside the input.
pub proof fn lemma_step_advances(s: Seq<char>, i: int)
    requires
        0 <= i < s.len(),
    ensures
        !(next_step(s, i) is Fail) ==> i < step_end(next_step(s, i)) <= s.len(),
{
    lemma_comment_end(s, i + 1);
    lemma_name_end(s, i + 1);
    lemma_digits_end(s, i);
    let e1 = digits_end(s, i);
    if e1 < s.len() {
        lemma_digits_end(s, e1 + 1);
    }
    if i + 1 < s.len() {
        lemma_digits_end(s, i + 1);
        let e = digits_end(s, i + 1);
        if e < s.len() {
            lemma_digits_end(s, e + 1);
        }
    }
    lemma_string_from(s, i + 1);
}

/// The tokens of the text from position `i` on, or the first error.
pub open spec fn lex_from(s: Seq<char>, i: int) -> Result<Seq<TokenView>, ErrorView>
    decreases s.len() - i,
{
    if i < 0 || i >= s.len() {
        Ok(Seq::empty())
    } else {
        proof {
            lemma_step_advances(s, i);
        }
        match next_step(s, i) {
            Step::Skip(j) => lex_from(s, j),
            Step::Emit(t, j) => match lex_from(s, j) {
                Ok(rest) => Ok(seq![t] + rest),
                Err(e) => Err(e),
            },
            Step::Fail(e) => Err(e),
        }
    }
}

/// The tokens of a source text, or the first lexical error.
pub open spec fn lex(s: Seq<char>) -> Result<Seq<TokenView>, ErrorView> {
    lex_from(s, 0)
}

/// The tokens found so far, followed by what the rest of the text gives.
pub open spec fn followed_by(
    found: Seq<TokenView>,
    rest: Result<Seq<TokenView>, ErrorView>,
) -> Result<Seq<TokenView>, ErrorView> {
    match rest {
        Ok(more) => Ok(found + more),
        Err(e) => Err(e),
    }
}

/// The characters of a text, in order.
pub fn chars_of(text: &str) -> (r: Vec<char>)
    ensures
        r@ == text@,
{
    let mut it = text.chars();
    let mut out: Vec<char> = Vec::new();
    loop
        invariant
            out@ + it.remaining() == text@,
            it.decrease() is Some,
        decreases it.decrease()->0,
    {
        match it.next() {
            Some(c) => {
                out.push(c);
                assert(out@ + it.remaining() =~= text@);
            },
            None => {
                assert(out@ =~= text@);
                return out;
            },
        }
    }
}

/// The line and the column of position `i`, both counted from zero. A
/// position beyond the text counts as its end.
pub fn position(chars: &Vec<char>, i: usize) -> (r: (usize, usize))
    ensures
        i <= chars.len() ==> r.0 == line_of(chars@, i as int) && r.1 == column_of(
            chars@,
            i as int,
        ),
        i > chars.len() ==> r.0 == line_of(chars@, chars.len() as int) && r.1 == column_of(
            chars@,
            chars.len() as int,
        ),
{
    let end: usize = if i <= chars.len() {
        i
    } else {
        chars.len()
    };
    let mut line: usize = 0;
    let mut column: usize = 0;
    let mut k: usize = 0;
    while k < end
        invariant
            k <= end <= chars.len(),
            line == line_of(chars@, k as int),
            column == column_of(chars@, k as int),
            line <= k,
            column <= k,
        decreases end - k,
    {
        if chars[k] == '\n' {
            line += 1;
            column = 0;
        } else {
            column += 1;
        }
        k += 1;
    }
    (line, column)
}

fn unexpected_char(chars: &Vec<char>, i: usize) -> (r: Error)
    requires
        i < chars.len(),
    ensures
        r@ == bad_char(chars@, i as int),
{
    let at = position(chars, i);
    Error::UnexpectedChar(at.0, at.1, chars[i])
}

fn unexpected_end(chars: &Vec<char>) -> (r: Error)
    ensures
        r@ == bad_end(chars@),
{
    let at = position(chars, chars.len());
    Error::UnexpectedEOF(at.0, at.1)
}

fn scan_comment(chars: &Vec<char>, start: usize) -> (r: usize)
    requires
        start <= chars.len(),
    ensures
        r == comment_end(chars@, start as int),
        start <= r <= chars.len(),
{
    let mut i: usize = start;
    while i < chars.len()
        invariant
            start <= i <= chars.len(),
            comment_end(chars@, start as int) == comment_end(chars@, i as int),
        decreases chars.len() - i,
    {
        if chars[i] == '#' {
            return i + 1;
        }
        i += 1;
    }
    i
}

fn scan_name(chars: &Vec<char>, start: usize) -> (r: usize)
    requires
        start <= chars.len(),
    ensures
        r == name_end(chars@, start as int),
        start <= r <= chars.len(),
{
    let mut i: usize = start;
    while i < chars.len()
        invariant
            start <= i <= chars.len(),
            name_end(chars@, start as int) == name_end(chars@, i as int),
        decreases chars.len() - i,
    {
        let c = chars[i];
        if !is_ascii_alphanumeric(c) && c != '_' {
            return i;
        }
        i += 1;
    }
    i
}

fn scan_digits(chars: &Vec<char>, start: usize) -> (r: usize)
    requires
        start <= chars.len(),
    ensures
        r == digits_end(chars@, start as int),
        start <= r <= chars.len(),
        forall|k: int| start <= k < r ==> decimal_digit(#[trigger] chars@[k]),
{
    let mut i: usize = start;
    while i < chars.len()
        invariant
            start <= i <= chars.len(),
            digits_end(chars@, start as int) == digits_end(chars@, i as int),
            forall|k: int| start <= k < i ==> decimal_digit(#[trigger] chars@[k]),
        decreases chars.len() - i,
    {
        if !is_decimal_digit(chars[i]) {
            return i;
        }
        i += 1;
    }
    i
}

/// The characters from position `from` up to position `to`, as a string.
pub(crate) fn text_between(chars: &Vec<char>, from: usize, to: usize) -> (r: String)
    requires
        from <= to <= chars.len(),
    ensures
        r@ == chars@.subrange(from as int, to as int),
{
    let mut out = String::new();
    let mut i: usize = from;
    while i < to
        invariant
            from <= i <= to <= chars.len(),
            out@ == chars@.subrange(from as int, i as int),
        decreases to - i,
    {
        push_char(&mut out, chars[i]);
        i += 1;
        assert(out@ =~= chars@.subrange(from as int, i as int));
    }
    out
}

fn digits_between(chars: &Vec<char>, from: usize, to: usize) -> (r: Vec<u8>)
    requires
        from <= to <= chars.len(),
        forall|k: int| from <= k < to ==> decimal_digit(#[trigger] chars@[k]),
    ensures
        r@ == digit_values(chars@.subrange(from as int, to as int)),
        all_digits(r@),
{
    let mut out: Vec<u8> = Vec::new();
    let mut i: usize = from;
    while i < to
        invariant
            from <= i <= to <= chars.len(),
            forall|k: int| from <= k < to ==> decimal_digit(#[trigger] chars@[k]),
            out@ == digit_values(chars@.subrange(from as int, i as int)),
            all_digits(out@),
        decreases to - i,
    {
        assert(decimal_digit(chars@[i as int]));
        match digit_of(chars[i]) {
            Some(d) => {
                out.push(d);
            },
            None => {},
        }
        i += 1;
        assert(out@ =~= digit_values(chars@.subrange(from as int, i as int)));
    }
    out
}

fn scan_number(chars: &Vec<char>, start: usize, negative: bool) -> (r: (Token, usize))
    requires
        start <= chars.len(),
    ensures
        number_at(chars@, start as int, negative) == Step::Emit(r.0@, r.1 as int),
        start <= r.1 <= chars.len(),
{
    let e1 = scan_digits(chars, start);
    let whole = digits_between(chars, start, e1);
    let mut e2 = e1;
    let mut frac: Vec<u8> = Vec::new();
    if e1 < chars.len() && chars[e1] == '.' {
        e2 = scan_digits(chars, e1 + 1);
        frac = digits_between(chars, e1 + 1, e2);
    } else {
        assert(frac@ =~= Seq::<u8>::empty());
    }
    match Number::from_digits(negative, whole, frac) {
        Some(n) => (Token::Num(n), e2),
        None => (Token::Num(Number::zero()), e2),
    }
}

fn escape(out: &mut String, c: char)
    ensures
        final(out)@ == old(out)@ + escaped(c),
{
    if c == '\n' {
        assert(out@ =~= out@ + escaped(c));
    } else if c == 'n' {
        push_char(out, '\n');
        assert(out@ =~= old(out)@ + escaped(c));
    } else if c == 'u' {
        push_char(out, '\0');
        assert(out@ =~= old(out)@ + escaped(c));
    } else {
        push_char(out, c);
        assert(out@ =~= old(out)@ + escaped(c));
    }
}

fn scan_string(chars: &Vec<char>, start: usize) -> (r: Option<(String, usize)>)
    requires
        start <= chars.len(),
    ensures
        match (string_from(chars@, start as int), r) {
            (Some((body, e)), Some((text, end))) => text@ == body && end == e && start < e
                <= chars.len(),
            (None, None) => true,
            _ => false,
        },
{
    let mut out = String::new();
    let mut i: usize = start;
    assert(out@ + Seq::<char>::empty() =~= Seq::<char>::empty());
    while i < chars.len()
        invariant
            start <= i <= chars.len(),
            string_from(chars@, start as int) == match string_from(chars@, i as int) {
                Some((rest, e)) => Some((out@ + rest, e)),
                None => None,
            },
        decreases chars.len() - i,
    {
        let c = chars[i];
        proof {
            lemma_string_from(chars@, i as int);
        }
        if c == '"' {
            assert(out@ + Seq::<char>::empty() =~= out@);
            return Some((out, i + 1));
        }
        if c == '\\' {
            if i + 1 >= chars.len() {
                return None;
            }
            let ghost before = out@;
            escape(&mut out, chars[i + 1]);
            proof {
                match string_from(chars@, i + 2) {
                    Some((rest, e)) => {
                        assert(before + (escaped(chars@[i + 1]) + rest) =~= out@ + rest);
                    },
                    None => {},
                }
            }
            i += 2;
        } else {
            let ghost before = out@;
            push_char(&mut out, c);
            proof {
                match string_from(chars@, i + 1) {
                    Some((rest, e)) => {
                        assert(before + (seq![c] + rest) =~= out@ + rest);
                    },
                    None => {},
                }
            }
            i += 1;
        }
    }
    None
}

/// What the lexer found at one position.
enum Scanned {
    Skip(usize),
    Emit(Token, usize),
    Fail(Error),
}

/// The scan found what [`next_step`] says stands at that position.
spec fn agrees(x: Scanned, step: Step) -> bool {
    match x {
        Scanned::Skip(j) => step == Step::Skip(j as int),
        Scanned::Emit(t, j) => step == Step::Emit(t@, j as int),
        Scanned::Fail(e) => step == Step::Fail(e@),
    }
}

fn mark(c: char) -> (r: Option<Token>)
    ensures
        match punctuation(c) {
            Some(t) => r is Some && r->0@ == t,
            None => r is None,
        },
{
    if c == '@' {
        Some(Token::FunctionDecl)
    } else if c == '{' {
        Some(Token::OpenCurly)
    } else if c == '}' {
        Some(Token::CloseCurly)
    } else if c == '(' {
        Some(Token::OpenBracket)
    } else if c == ')' {
        Some(Token::CloseBracket)
    } else if c == '[' {
        Some(Token::OpenSquare)
    } else if c == ']' {
        Some(Token::CloseSquare)
    } else if c == ';' {
        Some(Token::EndLine)
    } else {
        None
    }
}

fn scan(chars: &Vec<char>, i: usize) -> (r: Scanned)
    requires
        i < chars.len(),
    ensures
        agrees(r, next_step(chars@, i as int)),
{
    let c = chars[i];
    if c == '#' {
        return Scanned::Skip(scan_comment(chars, i + 1));
    }
    if is_alphabetic(c) {
        let end = scan_name(chars, i + 1);
        return Scanned::Emit(Token::Ident(text_between(chars, i, end)), end);
    }
    if is_decimal_digit(c) {
        let found = scan_number(chars, i, false);
        return Scanned::Emit(found.0, found.1);
    }
    match mark(c) {
        Some(t) => {
            return Scanned::Emit(t, i + 1);
        },
        None => {},
    }
    if c == '=' {
        if i + 1 >= chars.len() {
            return Scanned::Fail(unexpected_end(chars));
        }
        if chars[i + 1] == '>' {
            return Scanned::Emit(Token::ForAssigner, i + 2);
        }
        return Scanned::Fail(unexpected_char(chars, i + 1));
    }
    if c == '-' {
        if i + 1 >= chars.len() {
            return Scanned::Fail(unexpected_end(chars));
        }
        if chars[i + 1] == '>' {
            return Scanned::Emit(Token::ArrowAssigner, i + 2);
        }
        if is_decimal_digit(chars[i + 1]) {
            let found = scan_number(chars, i + 1, true);
            return Scanned::Emit(found.0, found.1);
        }
        return Scanned::Fail(unexpected_char(chars, i + 1));
    }
    if c == '"' {
        return match scan_string(chars, i + 1) {
            Some(found) => Scanned::Emit(Token::Str(found.0), found.1),
            None => Scanned::Fail(unexpected_end(chars)),
        };
    }
    if c == '\n' || is_whitespace(c) {
        return Scanned::Skip(i + 1);
    }
    Scanned::Fail(unexpected_char(chars, i))
}

/// Turns a source text into its tokens.
///
/// Text between two `#` is a comment. A name starts with an alphabetic
/// character and goes on with ASCII letters, digits and `_`. A number is a
/// run of digits with at most one `.`, and a `-` directly before a digit
/// makes it negative. A string stands between two `"`, may span lines, and
/// knows the escapes `\n`, `\u` and the escaped line break. Any other
/// character that is not white space is an error with its line and column;
/// input that ends inside a token is an error with the position of its end.
pub fn make_tokens(source: &str) -> (r: Result<Vec<Token>, Error>)
    ensures
        match lex(source@) {
            Ok(tokens) => r is Ok && tokens_view(r->Ok_0@) == tokens,
            Err(e) => r is Err && r->Err_0@ == e,
        },
{
    let chars = chars_of(source);
    let mut out: Vec<Token> = Vec::new();
    let mut i: usize = 0;
    assert(tokens_view(out@) =~= Seq::<TokenView>::empty());
    proof {
        match lex_from(chars@, 0) {
            Ok(more) => {
                assert(tokens_view(out@) + more =~= more);
            },
            Err(e) => {},
        }
    }
    while i < chars.len()
        invariant
            i <= chars.len(),
            chars@ == source@,
            lex(source@) == followed_by(tokens_view(out@), lex_from(chars@, i as int)),
        decreases chars.len() - i,
    {
        proof {
            lemma_step_advances(chars@, i as int);
        }
        match scan(&chars, i) {
            Scanned::Skip(j) => {
                i = j;
            },
            Scanned::Emit(t, j) => {
                let ghost before = tokens_view(out@);
                out.push(t);
                proof {
                    assert(tokens_view(out@) =~= before.push(t@));
                    match lex_from(chars@, j as int) {
                        Ok(more) => {
                            assert(before + (seq![t@] + more) =~= tokens_view(out@) + more);
                        },
                        Err(e) => {},
                    }
                }
                i = j;
            },
            Scanned::Fail(e) => {
                return Err(e);
            },
        }
    }
    assert(tokens_view(out@) + Seq::<TokenView>::empty() =~= tokens_view(out@));
    Ok(out)
}

/// The number that a decimal text denotes: an optional `-`, a run of digits
/// and, optionally, a `.` and another run of digits, with nothing before or
/// after. `None` for any other text.
pub open spec fn decimal(s: Seq<char>) -> Option<crate::number::NumberView> {
    let negative = s.len() > 0 && s[0] == '-';
    let start: int = if negative {
        1
    } else {
        0
    };
    if start < s.len() && decimal_digit(s[start]) {
        match number_at(s, start, negative) {
            Step::Emit(TokenView::Num(n), end) => if end == s.len() {
                Some(n)
            } else {
                None
            },
            _ => None,
        }
    } else {
        None
    }
}

/// Reads a decimal text as a number: an optional `-`, a run of digits and,
/// optionally, a `.` and another run of digits. `None` for any other text.
pub fn number_from_text(text: &str) -> (r: Option<Number>)
    ensures
        match (decimal(text@), r) {
            (Some(n), Some(m)) => m@ == n,
            (None, None) => true,
            _ => false,
        },
{
    let chars = chars_of(text);
    let negative = chars.len() > 0 && chars[0] == '-';
    let start: usize = if negative {
        1
    } else {
        0
    };
    if start < chars.len() && is_decimal_digit(chars[start]) {
        let found = scan_number(&chars, start, negative);
        if found.1 == chars.len() {
            match found.0 {
                Token::Num(n) => Some(n),
                _ => None,
            }
        } else {
            None
        }
    } else {
        None
    }
}

/// A run of digits ends where the first other character stands.
pub proof fn lemma_digits_run(s: Seq<char>, i: int, j: int)
    requires
        0 <= i <= j <= s.len(),
        forall|k: int| i <= k < j ==> decimal_digit(#[trigger] s[k]),
        j == s.len() || !decimal_digit(s[j]),
    ensures
        digits_end(s, i) == j,
    decreases j - i,
{
    if i < j {
        lemma_digits_run(s, i + 1, j);
    }
}

/// The text of a digit is a digit character with the digit as its value.
pub proof fn lemma_digit_char(d: u8)
    requires
        d < 10,
    ensures
        decimal_digit(digit_char(d)),
        digit_value(digit_char(d)) == d,
{
}

/// Reading the canonical text of a number gives the number back.
pub proof fn lemma_text_round_trip(v: NumberView)
    requires
        canonical(v),
    ensures
        decimal(number_text(v)) == Some(v),
{
    let s = number_text(v);
    let sign: int = if v.negative {
        1
    } else {
        0
    };
    let whole_text = if v.whole.len() == 0 {
        seq!['0']
    } else {
        digits_text(v.whole)
    };
    let shown: Seq<u8> = if v.whole.len() == 0 {
        seq![0u8]
    } else {
        v.whole
    };
    let point = sign + whole_text.len();
    assert forall|k: int| 0 <= k < shown.len() implies #[trigger] whole_text[k] == digit_char(
        shown[k],
    ) && decimal_digit(whole_text[k]) by {
        lemma_digit_char(shown[k]);
    }
    assert forall|k: int| sign <= k < point implies decimal_digit(#[trigger] s[k]) by {
        assert(s[k] == whole_text[k - sign]);
    }
    assert(digit_values(s.subrange(sign, point)) =~= shown) by {
        assert forall|k: int| 0 <= k < shown.len() implies digit_values(s.subrange(sign, point))[k]
            == shown[k] by {
            assert(s.subrange(sign, point)[k] == whole_text[k]);
            lemma_digit_char(shown[k]);
        }
    }
    assert(crate::number::trim_front(shown) == v.whole) by {
        if v.whole.len() == 0 {
            lemma_trim_front(shown, 1);
            assert(shown.subrange(1, 1) =~= v.whole);
        } else {
            lemma_trim_front(shown, 0);
            assert(shown.subrange(0, shown.len() as int) =~= shown);
        }
    }
    assert(crate::number::trim_back(v.frac) == v.frac) by {
        lemma_trim_back(v.frac, v.frac.len() as int);
        assert(v.frac.subrange(0, v.frac.len() as int) =~= v.frac);
    }
    assert(crate::number::trim_back(Seq::<u8>::empty()) == Seq::<u8>::empty());
    if v.negative {
        assert(s[0] == '-');
    } else {
        assert(s[0] == whole_text[0]);
        assert(s[0] != '-');
    }
    if v.frac.len() == 0 {
        assert(s.len() == point);
        lemma_digits_run(s, sign, point);
        assert(v.frac =~= Seq::<u8>::empty());
    } else {
        let frac_text = digits_text(v.frac);
        assert(s.len() == point + 1 + v.frac.len());
        assert(s[point] == '.');
        lemma_digits_run(s, sign, point);
        assert forall|k: int| point + 1 <= k < s.len() implies decimal_digit(#[trigger] s[k]) by {
            assert(s[k] == frac_text[k - point - 1]);
            lemma_digit_char(v.frac[k - point - 1]);
        }
        lemma_digits_run(s, point + 1, s.len() as int);
        assert(digit_values(s.subrange(point + 1, s.len() as int)) =~= v.frac) by {
            assert forall|k: int| 0 <= k < v.frac.len() implies digit_values(
                s.subrange(point + 1, s.len() as int),
            )[k] == v.frac[k] by {
                assert(s.subrange(point + 1, s.len() as int)[k] == frac_text[k]);
                lemma_digit_char(v.frac[k]);
            }
        }
    }
}

} // verus!
