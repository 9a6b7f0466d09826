//! The native functions that work on values alone: they need neither the
//! terminal, the disk or the network, nor arithmetic on numbers. A host
//! offers them to scripts next to its own.

use crate::data_types::{
    copy_variables, equal_values, lemma_array_view, number_example, ordered_values, variable_text,
    variables_view, Variable, VariableView,
};
use crate::errors::{Error, ErrorView};
use crate::number::{count_number, int_number, int_of, place_of, Number};
use crate::lexer::{chars_of, text_between};
use crate::std_lib::{html_names, html_natives, names_view};
use crate::text::{append_chars, push_char};
use rayon::iter::{IndexedParallelIterator, IntoParallelIterator, ParallelIterator};
use rayon::str::ParallelString;
use vstd::prelude::*;
use vstd::string::{StrSliceExecFns, StringExecFns, StringSliceAdditionalSpecFns};
use vstd::utf8::{decode_utf8, encode_utf8, is_char_boundary};

verus! {

/// The value that stands for "an array" in a message about a wrong argument.
pub open spec fn array_example() -> VariableView {
    VariableView::Array(Seq::empty())
}

/// The value that stands for "a string" in a message about a wrong argument.
pub open spec fn string_example() -> VariableView {
    VariableView::Str(Seq::empty())
}

/// The error for a call with the wrong number of arguments.
pub open spec fn wrong_count(expected: nat, found: nat) -> ErrorView {
    ErrorView::IncorrectArgCount(expected as usize, found as usize)
}

/// The result is the one that the model of the native function gives.
pub open spec fn gives(model: Result<VariableView, ErrorView>, r: Result<Variable, Error>) -> bool {
    match model {
        Ok(v) => r is Ok && r->Ok_0@ == v,
        Err(e) => r is Err && r->Err_0@ == e,
    }
}

fn an_array() -> (r: Variable)
    ensures
        r@ == array_example(),
{
    let items: Vec<Variable> = Vec::new();
    proof {
        lemma_array_view(items);
        assert(variables_view(items@) =~= Seq::<VariableView>::empty());
    }
    Variable::Array(items)
}

fn a_string() -> (r: Variable)
    ensures
        r@ == string_example(),
{
    Variable::Str(String::new())
}

fn array_of(items: Vec<Variable>) -> (r: Variable)
    ensures
        r@ == VariableView::Array(variables_view(items@)),
{
    proof {
        lemma_array_view(items);
    }
    Variable::Array(items)
}

/// The items of an array value.
fn items_of(value: &Variable) -> (r: Option<&Vec<Variable>>)
    ensures
        match r {
            Some(items) => value@ == VariableView::Array(variables_view(items@)),
            None => !(value@ is Array),
        },
{
    match value {
        Variable::Array(items) => {
            proof {
                lemma_array_view(*items);
            }
            Some(items)
        },
        _ => None,
    }
}

/// `not`: the other boolean. It takes exactly one argument, a boolean.
pub open spec fn not_model(args: Seq<VariableView>) -> Result<VariableView, ErrorView> {
    if args.len() != 1 {
        Err(wrong_count(1, args.len()))
    } else {
        match args[0] {
            VariableView::Bool(b) => Ok(VariableView::Bool(!b)),
            other => Err(ErrorView::VarTypeMismatch(VariableView::Bool(true), other)),
        }
    }
}

/// The native function `not`.
pub fn not(args: &Vec<Variable>) -> (r: Result<Variable, Error>)
    ensures
        gives(not_model(variables_view(args@)), r),
{
    if args.len() != 1 {
        return Err(Error::IncorrectArgCount(1, args.len()));
    }
    assert(variables_view(args@)[0] == args@[0]@);
    match &args[0] {
        Variable::Bool(b) => Ok(Variable::Bool(!*b)),
        other => Err(Error::VarTypeMismatch(Variable::Bool(true), other.copy())),
    }
}

/// `str`: the text of a value, as a string. It takes exactly one argument.
pub open spec fn str_model(args: Seq<VariableView>) -> Result<VariableView, ErrorView> {
    if args.len() != 1 {
        Err(wrong_count(1, args.len()))
    } else {
        Ok(VariableView::Str(variable_text(args[0])))
    }
}

/// The native function `str`.
pub fn str(args: &Vec<Variable>) -> (r: Result<Variable, Error>)
    ensures
        gives(str_model(variables_view(args@)), r),
{
    if args.len() != 1 {
        return Err(Error::IncorrectArgCount(1, args.len()));
    }
    assert(variables_view(args@)[0] == args@[0]@);
    Ok(Variable::Str(args[0].to_text()))
}

/// The texts of the values, one after the other.
pub open spec fn texts(args: Seq<VariableView>) -> Seq<char>
    decreases args.len(),
{
    if args.len() == 0 {
        Seq::empty()
    } else {
        texts(args.drop_last()) + variable_text(args.last())
    }
}

/// `con`: the texts of all arguments, joined into one string. It needs at
/// least one argument.
pub open spec fn con_model(args: Seq<VariableView>) -> Result<VariableView, ErrorView> {
    if args.len() == 0 {
        Err(ErrorView::MissingArgs("con"@))
    } else {
        Ok(VariableView::Str(texts(args)))
    }
}

/// Appends the text of every value to `out`.
fn push_texts(out: &mut String, args: &Vec<Variable>)
    ensures
        final(out)@ == old(out)@ + texts(variables_view(args@)),
{
    let ghost all = variables_view(args@);
    let mut i: usize = 0;
    assert(all.subrange(0, 0) =~= Seq::<VariableView>::empty());
    assert(out@ =~= old(out)@ + texts(all.subrange(0, 0)));
    while i < args.len()
        invariant
            i <= args.len(),
            all == variables_view(args@),
            out@ == old(out)@ + texts(all.subrange(0, i as int)),
        decreases args.len() - i,
    {
        assert(all[i as int] == args@[i as int]@);
        let ghost prefix = all.subrange(0, i + 1);
        assert(prefix.drop_last() =~= all.subrange(0, i as int));
        assert(prefix.last() == all[i as int]);
        let piece = args[i].to_text();
        append_chars(out, piece.as_str());
        i += 1;
        assert(out@ =~= old(out)@ + texts(all.subrange(0, i as int)));
    }
    assert(all.subrange(0, i as int) =~= all);
}

/// The native function `con`.
pub fn con(args: &Vec<Variable>) -> (r: Result<Variable, Error>)
    ensures
        gives(con_model(variables_view(args@)), r),
{
    if args.len() == 0 {
        return Err(Error::MissingArgs(String::from_str("con")));
    }
    let mut out = String::new();
    push_texts(&mut out, args);
    assert(out@ =~= texts(variables_view(args@)));
    Ok(Variable::Str(out))
}

/// Whether every value from position `k` on is equal to `first`; the first
/// value that is unequal or cannot be compared decides.
pub open spec fn all_equal_from(args: Seq<VariableView>, k: int, first: VariableView) -> Result<
    bool,
    ErrorView,
>
    decreases args.len() - k,
{
    if k < 0 || k >= args.len() {
        Ok(true)
    } else {
        match equal_values(args[k], first) {
            Err(e) => Err(e),
            Ok(false) => Ok(false),
            Ok(true) => all_equal_from(args, k + 1, first),
        }
    }
}

/// `eq`: whether all arguments are equal to the first. It needs at least one
/// argument; values that cannot be compared are a type mismatch.
pub open spec fn eq_model(args: Seq<VariableView>) -> Result<VariableView, ErrorView> {
    if args.len() == 0 {
        Err(ErrorView::MissingArgs("eq"@))
    } else {
        match all_equal_from(args, 1, args[0]) {
            Ok(b) => Ok(VariableView::Bool(b)),
            Err(e) => Err(e),
        }
    }
}

/// The native function `eq`.
pub fn eq(args: &Vec<Variable>) -> (r: Result<Variable, Error>)
    ensures
        gives(eq_model(variables_view(args@)), r),
{
    if args.len() == 0 {
        return Err(Error::MissingArgs(String::from_str("eq")));
    }
    let ghost all = variables_view(args@);
    assert(all[0] == args@[0]@);
    let mut i: usize = 1;
    while i < args.len()
        invariant
            1 <= i <= args.len(),
            all == variables_view(args@),
            all[0] == args@[0]@,
            all_equal_from(all, 1, all[0]) == all_equal_from(all, i as int, all[0]),
        decreases args.len() - i,
    {
        assert(all[i as int] == args@[i as int]@);
        match args[i].equals(&args[0]) {
            Err(e) => {
                return Err(e);
            },
            Ok(same) => {
                if !same {
                    return Ok(Variable::Bool(false));
                }
            },
        }
        i += 1;
    }
    Ok(Variable::Bool(true))
}

/// Whether every value from position `k` on has the same text as `first`.
pub open spec fn all_alike_from(args: Seq<VariableView>, k: int, first: VariableView) -> bool
    decreases args.len() - k,
{
    if k < 0 || k >= args.len() {
        true
    } else {
        variable_text(args[k]) == variable_text(first) && all_alike_from(args, k + 1, first)
    }
}

/// `weak_eq`: whether all arguments have the same text as the first. It
/// needs at least two arguments.
pub open spec fn weak_eq_model(args: Seq<VariableView>) -> Result<VariableView, ErrorView> {
    if args.len() < 2 {
        Err(ErrorView::MissingArgs("weak_eq"@))
    } else {
        Ok(VariableView::Bool(all_alike_from(args, 1, args[0])))
    }
}

/// The native function `weak_eq`.
pub fn weak_eq(args: &Vec<Variable>) -> (r: Result<Variable, Error>)
    ensures
        gives(weak_eq_model(variables_view(args@)), r),
{
    if args.len() < 2 {
        return Err(Error::MissingArgs(String::from_str("weak_eq")));
    }
    let ghost all = variables_view(args@);
    assert(all[0] == args@[0]@);
    let first = args[0].to_text();
    let mut i: usize = 1;
    while i < args.len()
        invariant
            1 <= i <= args.len(),
            all == variables_view(args@),
            first@ == variable_text(all[0]),
            all_alike_from(all, 1, all[0]) == all_alike_from(all, i as int, all[0]),
        decreases args.len() - i,
    {
        assert(all[i as int] == args@[i as int]@);
        let text = args[i].to_text();
        if text != first {
            return Ok(Variable::Bool(false));
        }
        i += 1;
    }
    Ok(Variable::Bool(true))
}

/// Whether `first` is below none of the values from position `k` on; a value
/// that cannot be ordered is a type mismatch.
pub open spec fn below_none_from(args: Seq<VariableView>, k: int, first: VariableView) -> Result<
    bool,
    ErrorView,
>
    decreases args.len() - k,
{
    if k < 0 || k >= args.len() {
        Ok(true)
    } else {
        match ordered_values(first, args[k]) {
            Err(e) => Err(e),
            Ok(true) => Ok(false),
            Ok(false) => below_none_from(args, k + 1, first),
        }
    }
}

/// The comparison of the first argument with all others: `true` when it is
/// below none of them. It needs at least two arguments, all numbers.
pub open spec fn compare_model(args: Seq<VariableView>) -> Result<VariableView, ErrorView> {
    if args.len() < 2 {
        Err(ErrorView::MissingArgs(compare_name()))
    } else {
        match below_none_from(args, 1, args[0]) {
            Ok(b) => Ok(VariableView::Bool(b)),
            Err(e) => Err(e),
        }
    }
}

/// The name under which scripts call the comparison.
pub open spec fn compare_name() -> Seq<char> {
    "cmp"@
}

fn comparison_name() -> (r: String)
    ensures
        r@ == compare_name(),
{
    String::from_str("cmp")
}

/// The native function that compares the first argument with all others.
pub fn compare(args: &Vec<Variable>) -> (r: Result<Variable, Error>)
    ensures
        gives(compare_model(variables_view(args@)), r),
{
    if args.len() < 2 {
        return Err(Error::MissingArgs(comparison_name()));
    }
    let ghost all = variables_view(args@);
    assert(all[0] == args@[0]@);
    let mut i: usize = 1;
    while i < args.len()
        invariant
            1 <= i <= args.len(),
            all == variables_view(args@),
            all[0] == args@[0]@,
            below_none_from(all, 1, all[0]) == below_none_from(all, i as int, all[0]),
        decreases args.len() - i,
    {
        assert(all[i as int] == args@[i as int]@);
        match args[0].less_than(&args[i]) {
            Err(e) => {
                return Err(e);
            },
            Ok(below) => {
                if below {
                    return Ok(Variable::Bool(false));
                }
            },
        }
        i += 1;
    }
    Ok(Variable::Bool(true))
}

/// How many bytes the text takes in UTF-8, as the machine counts them.
pub open spec fn byte_count(s: Seq<char>) -> usize {
    encode_utf8(s).len() as usize
}

/// The length of a collection: the number of elements of an array, or the
/// number of bytes that a string takes in UTF-8.
pub open spec fn length_of(v: VariableView) -> Option<nat> {
    match v {
        VariableView::Array(items) => Some(items.len()),
        VariableView::Str(s) => Some(byte_count(s) as nat),
        _ => None,
    }
}

/// `len`: the length of an array or of a string. It takes exactly one
/// argument.
pub open spec fn len_model(args: Seq<VariableView>) -> Result<VariableView, ErrorView> {
    if args.len() != 1 {
        Err(wrong_count(1, args.len()))
    } else {
        match length_of(args[0]) {
            Some(n) => Ok(VariableView::Num(count_number(n))),
            None => Err(ErrorView::VarTypeMismatch(array_example(), args[0])),
        }
    }
}

/// `bnd`: the last place of an array or of a string, one less than its
/// length. An empty collection has no last place.
pub open spec fn bnd_model(args: Seq<VariableView>) -> Result<VariableView, ErrorView> {
    if args.len() != 1 {
        Err(wrong_count(1, args.len()))
    } else {
        match length_of(args[0]) {
            Some(n) => if n == 0 {
                Err(ErrorView::OutOfBoundsIndex(0, 0))
            } else {
                Ok(VariableView::Num(count_number((n - 1) as nat)))
            },
            None => Err(ErrorView::VarTypeMismatch(array_example(), args[0])),
        }
    }
}

/// The length of an array or of a string.
fn length(value: &Variable) -> (r: Option<usize>)
    ensures
        match (length_of(value@), r) {
            (Some(n), Some(m)) => m == n,
            (None, None) => true,
            _ => false,
        },
{
    match value {
        Variable::Array(items) => {
            proof {
                lemma_array_view(*items);
            }
            Some(items.len())
        },
        Variable::Str(s) => Some(s.as_str().len()),
        _ => None,
    }
}

/// The native function `len`.
pub fn len(args: &Vec<Variable>) -> (r: Result<Variable, Error>)
    ensures
        gives(len_model(variables_view(args@)), r),
{
    if args.len() != 1 {
        return Err(Error::IncorrectArgCount(1, args.len()));
    }
    assert(variables_view(args@)[0] == args@[0]@);
    match length(&args[0]) {
        Some(n) => Ok(Variable::Num(Number::from_count(n))),
        None => Err(Error::VarTypeMismatch(an_array(), args[0].copy())),
    }
}

/// The native function `bnd`.
pub fn bnd(args: &Vec<Variable>) -> (r: Result<Variable, Error>)
    ensures
        gives(bnd_model(variables_view(args@)), r),
{
    if args.len() != 1 {
        return Err(Error::IncorrectArgCount(1, args.len()));
    }
    assert(variables_view(args@)[0] == args@[0]@);
    match length(&args[0]) {
        Some(n) => {
            if n == 0 {
                Err(Error::OutOfBoundsIndex(0, 0))
            } else {
                Ok(Variable::Num(Number::from_count(n - 1)))
            }
        },
        None => Err(Error::VarTypeMismatch(an_array(), args[0].copy())),
    }
}

/// `pop`: the array without its last element; an empty array stays empty. It
/// takes exactly one argument, an array.
pub open spec fn pop_model(args: Seq<VariableView>) -> Result<VariableView, ErrorView> {
    if args.len() != 1 {
        Err(wrong_count(1, args.len()))
    } else {
        match args[0] {
            VariableView::Array(items) => if items.len() == 0 {
                Ok(VariableView::Array(items))
            } else {
                Ok(VariableView::Array(items.drop_last()))
            },
            other => Err(ErrorView::VarTypeMismatch(array_example(), other)),
        }
    }
}

/// The native function `pop`.
pub fn pop(args: &Vec<Variable>) -> (r: Result<Variable, Error>)
    ensures
        gives(pop_model(variables_view(args@)), r),
{
    if args.len() != 1 {
        return Err(Error::IncorrectArgCount(1, args.len()));
    }
    assert(variables_view(args@)[0] == args@[0]@);
    match items_of(&args[0]) {
        Some(items) => {
            let mut rest = copy_variables(items);
            let ghost before = variables_view(rest@);
            if rest.len() > 0 {
                rest.pop();
                assert(variables_view(rest@) =~= before.drop_last());
            }
            Ok(array_of(rest))
        },
        None => Err(Error::VarTypeMismatch(an_array(), args[0].copy())),
    }
}

/// `push`: the array with all further arguments added at its end. It needs
/// an array and at least one more argument.
pub open spec fn push_model(args: Seq<VariableView>) -> Result<VariableView, ErrorView> {
    if args.len() < 2 {
        Err(ErrorView::MissingArgs("push"@))
    } else {
        match args[0] {
            VariableView::Array(items) => Ok(
                VariableView::Array(items + args.subrange(1, args.len() as int)),
            ),
            other => Err(ErrorView::VarTypeMismatch(array_example(), other)),
        }
    }
}

/// The native function `push`.
pub fn push(args: &Vec<Variable>) -> (r: Result<Variable, Error>)
    ensures
        gives(push_model(variables_view(args@)), r),
{
    if args.len() < 2 {
        return Err(Error::MissingArgs(String::from_str("push")));
    }
    let ghost all = variables_view(args@);
    assert(all[0] == args@[0]@);
    match items_of(&args[0]) {
        Some(items) => {
            let mut out = copy_variables(items);
            let ghost start = variables_view(out@);
            let mut i: usize = 1;
            assert(all.subrange(1, 1) =~= Seq::<VariableView>::empty());
            assert(variables_view(out@) =~= start + all.subrange(1, 1));
            while i < args.len()
                invariant
                    1 <= i <= args.len(),
                    all == variables_view(args@),
                    variables_view(out@) == start + all.subrange(1, i as int),
                decreases args.len() - i,
            {
                assert(all[i as int] == args@[i as int]@);
                let ghost before = variables_view(out@);
                let item = args[i].copy();
                out.push(item);
                assert(variables_view(out@) =~= before.push(item@));
                i += 1;
                assert(variables_view(out@) =~= start + all.subrange(1, i as int));
            }
            Ok(array_of(out))
        },
        None => Err(Error::VarTypeMismatch(an_array(), args[0].copy())),
    }
}

/// The character that starts at byte `p` of the text in UTF-8, if one starts
/// there.
pub open spec fn char_at_byte(s: Seq<char>, p: int) -> Option<char> {
    let bytes = encode_utf8(s);
    if 0 <= p < byte_count(s) && is_char_boundary(bytes, p) {
        Some(decode_utf8(bytes.subrange(p, bytes.len() as int))[0])
    } else {
        None
    }
}

/// The element of a collection at a place: an element of an array, or the
/// character of a string that starts at that byte, as a string. A place
/// beyond the collection, or inside a character, is out of bounds.
pub open spec fn element_at(collection: VariableView, place: VariableView) -> Result<
    VariableView,
    ErrorView,
> {
    match collection {
        VariableView::Array(items) => match place {
            VariableView::Num(x) => if place_of(x) < items.len() {
                Ok(items[place_of(x) as int])
            } else {
                Err(ErrorView::OutOfBoundsIndex(items.len() as usize, place_of(x)))
            },
            other => Err(ErrorView::VarTypeMismatch(number_example(), other)),
        },
        VariableView::Str(s) => match place {
            VariableView::Num(x) => match char_at_byte(s, place_of(x) as int) {
                Some(c) => Ok(VariableView::Str(seq![c])),
                None => Err(ErrorView::OutOfBoundsIndex(byte_count(s), place_of(x))),
            },
            other => Err(ErrorView::VarTypeMismatch(number_example(), other)),
        },
        other => Err(ErrorView::VarTypeMismatch(array_example(), other)),
    }
}

/// `index`: the element of an array or of a string at a place. It takes
/// exactly two arguments, the collection and the place.
pub open spec fn index_model(args: Seq<VariableView>) -> Result<VariableView, ErrorView> {
    if args.len() != 2 {
        Err(wrong_count(2, args.len()))
    } else {
        element_at(args[0], args[1])
    }
}

/// The place that a value points at, if the value is a number.
fn place(value: &Variable) -> (r: Result<usize, Error>)
    ensures
        match value@ {
            VariableView::Num(x) => r is Ok && r->Ok_0 == place_of(x),
            other => r is Err && r->Err_0@ == ErrorView::VarTypeMismatch(number_example(), other),
        },
{
    match value {
        Variable::Num(x) => Ok(x.to_place()),
        other => Err(Error::VarTypeMismatch(Variable::Num(Number::zero()), other.copy())),
    }
}

/// The character of `text` that starts at byte `p`, as a string.
fn char_at(text: &str, p: usize) -> (r: Option<String>)
    ensures
        match (char_at_byte(text@, p as int), r) {
            (Some(c), Some(s)) => s@ == seq![c],
            (None, None) => true,
            _ => false,
        },
{
    if p >= text.len() || !text.is_char_boundary(p) {
        return None;
    }
    let parts = text.split_at(p);
    let tail = parts.1;
    proof {
        vstd::utf8::encode_utf8_decode_utf8(tail@);
        if tail@.len() == 0 {
            assert(encode_utf8(tail@) =~= Seq::<u8>::empty());
        }
    }
    let c = tail.get_char(0);
    let mut out = String::new();
    push_char(&mut out, c);
    assert(out@ =~= seq![c]);
    Some(out)
}

/// The native function `index`.
pub fn index(args: &Vec<Variable>) -> (r: Result<Variable, Error>)
    ensures
        gives(index_model(variables_view(args@)), r),
{
    if args.len() != 2 {
        return Err(Error::IncorrectArgCount(2, args.len()));
    }
    assert(variables_view(args@)[0] == args@[0]@);
    assert(variables_view(args@)[1] == args@[1]@);
    match &args[0] {
        Variable::Array(items) => {
            proof {
                lemma_array_view(*items);
            }
            let p = match place(&args[1]) {
                Ok(p) => p,
                Err(e) => {
                    return Err(e);
                },
            };
            if p >= items.len() {
                return Err(Error::OutOfBoundsIndex(items.len(), p));
            }
            assert(variables_view(items@)[p as int] == items@[p as int]@);
            Ok(items[p].copy())
        },
        Variable::Str(s) => {
            let p = match place(&args[1]) {
                Ok(p) => p,
                Err(e) => {
                    return Err(e);
                },
            };
            match char_at(s.as_str(), p) {
                Some(c) => Ok(Variable::Str(c)),
                None => Err(Error::OutOfBoundsIndex(s.as_str().len(), p)),
            }
        },
        other => Err(Error::VarTypeMismatch(an_array(), other.copy())),
    }
}

/// `index_v`: the element of an array at a place, or the empty value where
/// the place is beyond the array. It takes exactly two arguments, an array
/// and a number.
pub open spec fn index_v_model(args: Seq<VariableView>) -> Result<VariableView, ErrorView> {
    if args.len() != 2 {
        Err(wrong_count(2, args.len()))
    } else {
        match args[0] {
            VariableView::Array(items) => match args[1] {
                VariableView::Num(x) => if place_of(x) < items.len() {
                    Ok(items[place_of(x) as int])
                } else {
                    Ok(VariableView::Void)
                },
                other => Err(ErrorView::VarTypeMismatch(number_example(), other)),
            },
            other => Err(ErrorView::VarTypeMismatch(array_example(), other)),
        }
    }
}

/// The native function `index_v`.
pub fn index_v(args: &Vec<Variable>) -> (r: Result<Variable, Error>)
    ensures
        gives(index_v_model(variables_view(args@)), r),
{
    if args.len() != 2 {
        return Err(Error::IncorrectArgCount(2, args.len()));
    }
    assert(variables_view(args@)[0] == args@[0]@);
    assert(variables_view(args@)[1] == args@[1]@);
    match items_of(&args[0]) {
        Some(items) => {
            let p = match place(&args[1]) {
                Ok(p) => p,
                Err(e) => {
                    return Err(e);
                },
            };
            if p >= items.len() {
                return Ok(Variable::Void);
            }
            assert(variables_view(items@)[p as int] == items@[p as int]@);
            Ok(items[p].copy())
        },
        None => Err(Error::VarTypeMismatch(an_array(), args[0].copy())),
    }
}

/// `replace`: the array with the element at a place replaced. It takes
/// exactly three arguments: the array, the place and the new element.
pub open spec fn replace_model(args: Seq<VariableView>) -> Result<VariableView, ErrorView> {
    if args.len() != 3 {
        Err(wrong_count(3, args.len()))
    } else {
        match args[0] {
            VariableView::Array(items) => match args[1] {
                VariableView::Num(x) => if place_of(x) < items.len() {
                    Ok(VariableView::Array(items.update(place_of(x) as int, args[2])))
                } else {
                    Err(ErrorView::OutOfBoundsIndex(items.len() as usize, place_of(x)))
                },
                other => Err(ErrorView::VarTypeMismatch(number_example(), other)),
            },
            other => Err(ErrorView::VarTypeMismatch(array_example(), other)),
        }
    }
}

/// The native function `replace`.
pub fn replace(args: &Vec<Variable>) -> (r: Result<Variable, Error>)
    ensures
        gives(replace_model(variables_view(args@)), r),
{
    if args.len() != 3 {
        return Err(Error::IncorrectArgCount(3, args.len()));
    }
    assert(variables_view(args@)[0] == args@[0]@);
    assert(variables_view(args@)[1] == args@[1]@);
    assert(variables_view(args@)[2] == args@[2]@);
    match items_of(&args[0]) {
        Some(items) => {
            let p = match place(&args[1]) {
                Ok(p) => p,
                Err(e) => {
                    return Err(e);
                },
            };
            if p >= items.len() {
                return Err(Error::OutOfBoundsIndex(items.len(), p));
            }
            let mut out = copy_variables(items);
            let ghost before = variables_view(out@);
            let item = args[2].copy();
            out.set(p, item);
            assert(variables_view(out@) =~= before.update(p as int, item@));
            Ok(array_of(out))
        },
        None => Err(Error::VarTypeMismatch(an_array(), args[0].copy())),
    }
}

/// An element of an array together with its place: the array of the two.
pub open spec fn numbered_item(place: nat, item: VariableView) -> VariableView {
    VariableView::Array(seq![VariableView::Num(count_number(place)), item])
}

/// `enumerate`: the array of the pairs of each place and its element. It
/// takes exactly one argument, an array.
pub open spec fn enumerate_model(args: Seq<VariableView>) -> Result<VariableView, ErrorView> {
    if args.len() != 1 {
        Err(wrong_count(1, args.len()))
    } else {
        match args[0] {
            VariableView::Array(items) => Ok(
                VariableView::Array(
                    Seq::new(items.len(), |i: int| numbered_item(i as nat, items[i])),
                ),
            ),
            other => Err(ErrorView::VarTypeMismatch(array_example(), other)),
        }
    }
}

/// The pair of a place and the element that stands there.
pub fn number_item(place: usize, item: Variable) -> (r: Variable)
    ensures
        r@ == numbered_item(place as nat, item@),
{
    let mut pair: Vec<Variable> = Vec::new();
    pair.push(Variable::Num(Number::from_count(place)));
    pair.push(item);
    proof {
        lemma_array_view(pair);
        assert(variables_view(pair@) =~= seq![
            VariableView::Num(count_number(place as nat)),
            item@,
        ]);
    }
    Variable::Array(pair)
}

/// Calls rayon's `into_par_iter` on the vector, then `enumerate`, `map` and
/// `collect`. Rayon hands each element to the closure together with its
/// index and collects the results in the order of the elements, so the
/// result holds, at each place, the pair that [`number_item`] makes of that
/// place and the element there.
#[verifier::external_body]
fn number_items(items: Vec<Variable>) -> (r: Vec<Variable>)
    ensures
        variables_view(r@) == Seq::new(
            items@.len(),
            |i: int| numbered_item(i as nat, items@[i]@),
        ),
{
    items.into_par_iter().enumerate().map(|(place, item)| number_item(place, item)).collect()
}

/// The native function `enumerate`.
pub fn enumerate(args: &Vec<Variable>) -> (r: Result<Variable, Error>)
    ensures
        gives(enumerate_model(variables_view(args@)), r),
{
    if args.len() != 1 {
        return Err(Error::IncorrectArgCount(1, args.len()));
    }
    assert(variables_view(args@)[0] == args@[0]@);
    match items_of(&args[0]) {
        Some(items) => {
            let copies = copy_variables(items);
            let pairs = number_items(copies);
            assert(variables_view(pairs@) =~= Seq::new(
                variables_view(items@).len(),
                |i: int| numbered_item(i as nat, variables_view(items@)[i]),
            )) by {
                assert forall|i: int| 0 <= i < copies@.len() implies copies@[i]@
                    == variables_view(items@)[i] by {
                    assert(variables_view(copies@)[i] == copies@[i]@);
                }
            }
            Ok(array_of(pairs))
        },
        None => Err(Error::VarTypeMismatch(an_array(), args[0].copy())),
    }
}

/// The whole numbers from `from` up to, but without, `to`.
pub open spec fn whole_numbers(from: int, to: int) -> Seq<VariableView> {
    Seq::new(
        (if to > from {
            to - from
        } else {
            0
        }) as nat,
        |i: int| VariableView::Num(int_number(from + i)),
    )
}

/// `range`: the array of the whole numbers from the first argument up to,
/// but without, the second. It takes exactly two arguments, both numbers;
/// each counts with its whole part, as far as a 32-bit integer holds it.
pub open spec fn range_model(args: Seq<VariableView>) -> Result<VariableView, ErrorView> {
    if args.len() != 2 {
        Err(wrong_count(2, args.len()))
    } else {
        match args[0] {
            VariableView::Num(x) => match args[1] {
                VariableView::Num(y) => Ok(
                    VariableView::Array(whole_numbers(int_of(x) as int, int_of(y) as int)),
                ),
                other => Err(ErrorView::VarTypeMismatch(number_example(), other)),
            },
            other => Err(ErrorView::VarTypeMismatch(number_example(), other)),
        }
    }
}

/// The whole number `x`, as a value.
pub fn whole_number(x: i32) -> (r: Variable)
    ensures
        r@ == VariableView::Num(int_number(x as int)),
{
    Variable::Num(Number::from_int(x))
}

/// Calls rayon's `into_par_iter` on the range `from..to`, then `map` and
/// `collect`. Rayon hands each integer of the range to the closure and
/// collects the results in the order of the range, so the result holds the
/// whole numbers from `from` up to, but without, `to`; none if `to` is not
/// above `from`.
#[verifier::external_body]
fn count_up(from: i32, to: i32) -> (r: Vec<Variable>)
    ensures
        variables_view(r@) == whole_numbers(from as int, to as int),
{
    (from..to).into_par_iter().map(|x| whole_number(x)).collect()
}

/// The 32-bit integer that a value counts as, if the value is a number.
fn integer(value: &Variable) -> (r: Result<i32, Error>)
    ensures
        match value@ {
            VariableView::Num(x) => r is Ok && r->Ok_0 == int_of(x),
            other => r is Err && r->Err_0@ == ErrorView::VarTypeMismatch(number_example(), other),
        },
{
    match value {
        Variable::Num(x) => Ok(x.to_int()),
        other => Err(Error::VarTypeMismatch(Variable::Num(Number::zero()), other.copy())),
    }
}

/// The native function `range`.
pub fn range(args: &Vec<Variable>) -> (r: Result<Variable, Error>)
    ensures
        gives(range_model(variables_view(args@)), r),
{
    if args.len() != 2 {
        return Err(Error::IncorrectArgCount(2, args.len()));
    }
    assert(variables_view(args@)[0] == args@[0]@);
    assert(variables_view(args@)[1] == args@[1]@);
    let from = match integer(&args[0]) {
        Ok(from) => from,
        Err(e) => {
            return Err(e);
        },
    };
    let to = match integer(&args[1]) {
        Ok(to) => to,
        Err(e) => {
            return Err(e);
        },
    };
    Ok(array_of(count_up(from, to)))
}

/// The characters of a text, each as a string of its own.
pub open spec fn letters(s: Seq<char>) -> Seq<VariableView> {
    Seq::new(s.len(), |i: int| VariableView::Str(seq![s[i]]))
}

/// `chars`: the array of the characters of a string, each as a string. It
/// takes exactly one argument, a string.
pub open spec fn chars_model(args: Seq<VariableView>) -> Result<VariableView, ErrorView> {
    if args.len() != 1 {
        Err(wrong_count(1, args.len()))
    } else {
        match args[0] {
            VariableView::Str(s) => Ok(VariableView::Array(letters(s))),
            other => Err(ErrorView::VarTypeMismatch(string_example(), other)),
        }
    }
}

/// The character `c` as a string.
pub fn letter(c: char) -> (r: Variable)
    ensures
        r@ == VariableView::Str(seq![c]),
{
    let mut text = String::new();
    push_char(&mut text, c);
    assert(text@ =~= seq![c]);
    Variable::Str(text)
}

/// Calls rayon's `par_chars` on the text, then `map` and `collect`. Rayon
/// hands each character to the closure and collects the results in the
/// order of the text, so the result holds one string for each character.
#[verifier::external_body]
fn spell(text: &str) -> (r: Vec<Variable>)
    ensures
        variables_view(r@) == letters(text@),
{
    text.par_chars().map(|c| letter(c)).collect()
}

/// The native function `chars`.
pub fn chars(args: &Vec<Variable>) -> (r: Result<Variable, Error>)
    ensures
        gives(chars_model(variables_view(args@)), r),
{
    if args.len() != 1 {
        return Err(Error::IncorrectArgCount(1, args.len()));
    }
    assert(variables_view(args@)[0] == args@[0]@);
    match &args[0] {
        Variable::Str(s) => Ok(array_of(spell(s.as_str()))),
        other => Err(Error::VarTypeMismatch(a_string(), other.copy())),
    }
}

/// The bytes that a text takes in UTF-8, each as a number.
pub open spec fn byte_numbers(s: Seq<char>) -> Seq<VariableView> {
    Seq::new(
        encode_utf8(s).len(),
        |i: int| VariableView::Num(count_number(encode_utf8(s)[i] as nat)),
    )
}

/// `bytes`: the array of the bytes that a string takes in UTF-8, each as a
/// number. It takes exactly one argument, a string.
pub open spec fn bytes_model(args: Seq<VariableView>) -> Result<VariableView, ErrorView> {
    if args.len() != 1 {
        Err(wrong_count(1, args.len()))
    } else {
        match args[0] {
            VariableView::Str(s) => Ok(VariableView::Array(byte_numbers(s))),
            other => Err(ErrorView::VarTypeMismatch(string_example(), other)),
        }
    }
}

/// The byte `b` as a number.
pub fn byte_number(b: u8) -> (r: Variable)
    ensures
        r@ == VariableView::Num(count_number(b as nat)),
{
    Variable::Num(Number::from_count(b as usize))
}

/// Calls rayon's `par_bytes` on the text, then `map` and `collect`. Rayon
/// hands each byte of the text's UTF-8 form to the closure and collects the
/// results in the order of the bytes, so the result holds one number for
/// each byte.
#[verifier::external_body]
fn byte_values(text: &str) -> (r: Vec<Variable>)
    ensures
        variables_view(r@) == byte_numbers(text@),
{
    text.par_bytes().map(|b| byte_number(b)).collect()
}

/// The native function `bytes`.
pub fn bytes(args: &Vec<Variable>) -> (r: Result<Variable, Error>)
    ensures
        gives(bytes_model(variables_view(args@)), r),
{
    if args.len() != 1 {
        return Err(Error::IncorrectArgCount(1, args.len()));
    }
    assert(variables_view(args@)[0] == args@[0]@);
    match &args[0] {
        Variable::Str(s) => Ok(array_of(byte_values(s.as_str()))),
        other => Err(Error::VarTypeMismatch(a_string(), other.copy())),
    }
}

/// The pieces that `str::split` cuts `text` into at each place where
/// `pattern` stands.
pub uninterp spec fn split_parts(text: Seq<char>, pattern: Seq<char>) -> Seq<Seq<char>>;

/// The strings as values.
pub open spec fn string_values(parts: Seq<Seq<char>>) -> Seq<VariableView> {
    Seq::new(parts.len(), |i: int| VariableView::Str(parts[i]))
}

/// `split`: the array of the pieces of a string between the places where
/// another string stands. It takes exactly two arguments, both strings.
pub open spec fn split_model(args: Seq<VariableView>) -> Result<VariableView, ErrorView> {
    if args.len() != 2 {
        Err(wrong_count(2, args.len()))
    } else {
        match args[0] {
            VariableView::Str(text) => match args[1] {
                VariableView::Str(pattern) => Ok(
                    VariableView::Array(string_values(split_parts(text, pattern))),
                ),
                other => Err(ErrorView::VarTypeMismatch(string_example(), other)),
            },
            other => Err(ErrorView::VarTypeMismatch(string_example(), other)),
        }
    }
}

/// Calls `str::split` with a string as the pattern and turns each piece into
/// a value. The pieces depend on the two texts alone; the contract only
/// gives them the name [`split_parts`].
#[verifier::external_body]
fn split_text(text: &str, pattern: &str) -> (r: Vec<Variable>)
    ensures
        variables_view(r@) == string_values(split_parts(text@, pattern@)),
{
    text.split(pattern).map(|piece| Variable::Str(piece.to_string())).collect()
}

/// The native function `split`.
pub fn split(args: &Vec<Variable>) -> (r: Result<Variable, Error>)
    ensures
        gives(split_model(variables_view(args@)), r),
{
    if args.len() != 2 {
        return Err(Error::IncorrectArgCount(2, args.len()));
    }
    assert(variables_view(args@)[0] == args@[0]@);
    assert(variables_view(args@)[1] == args@[1]@);
    match &args[0] {
        Variable::Str(text) => match &args[1] {
            Variable::Str(pattern) => Ok(array_of(split_text(text.as_str(), pattern.as_str()))),
            other => Err(Error::VarTypeMismatch(a_string(), other.copy())),
        },
        other => Err(Error::VarTypeMismatch(a_string(), other.copy())),
    }
}

/// The arguments with an empty string added where exactly `short` of them
/// were given.
pub open spec fn with_default(args: Seq<VariableView>, short: nat) -> Seq<VariableView> {
    if args.len() == short {
        args.push(VariableView::Str(Seq::empty()))
    } else {
        args
    }
}

/// The text of an element: `<name attributes>content</name>`.
pub open spec fn element_text(name: Seq<char>, attributes: Seq<char>, content: Seq<char>) -> Seq<
    char,
> {
    seq!['<'] + name + seq![' '] + attributes + seq!['>'] + content + "</"@ + name + seq!['>']
}

/// An element with a fixed tag: the first argument is its content, the
/// second its attributes, which may be left out. Any other number of
/// arguments is refused.
pub open spec fn element_model(tag: Seq<char>, args: Seq<VariableView>) -> Result<
    VariableView,
    ErrorView,
> {
    let given = with_default(args, 1);
    if given.len() != 2 {
        Err(ErrorView::MissingArgs("el_"@ + tag))
    } else {
        Ok(
            VariableView::Str(
                element_text(tag, variable_text(given[1]), variable_text(given[0])),
            ),
        )
    }
}

/// `el_custom`: an element whose tag is the first argument; the second is
/// its content, the third its attributes, which may be left out.
pub open spec fn custom_model(args: Seq<VariableView>) -> Result<VariableView, ErrorView> {
    let given = with_default(args, 2);
    if given.len() != 3 {
        Err(ErrorView::MissingArgs("el_custom"@))
    } else {
        Ok(
            VariableView::Str(
                element_text(
                    variable_text(given[0]),
                    variable_text(given[2]),
                    variable_text(given[1]),
                ),
            ),
        )
    }
}

/// `el_comment`: a comment that holds the texts of all arguments.
pub open spec fn comment_model(args: Seq<VariableView>) -> Result<VariableView, ErrorView> {
    Ok(VariableView::Str("<!-- "@ + texts(args) + " -->"@))
}

fn element_string(name: &str, attributes: &str, content: &str) -> (r: String)
    ensures
        r@ == element_text(name@, attributes@, content@),
{
    let mut out = String::new();
    push_char(&mut out, '<');
    out.append(name);
    push_char(&mut out, ' ');
    out.append(attributes);
    push_char(&mut out, '>');
    out.append(content);
    out.append("</");
    out.append(name);
    push_char(&mut out, '>');
    assert(out@ =~= element_text(name@, attributes@, content@));
    out
}

/// The native function of an element with the given tag.
pub fn element(tag: &str, args: &Vec<Variable>) -> (r: Result<Variable, Error>)
    ensures
        gives(element_model(tag@, variables_view(args@)), r),
{
    let ghost all = variables_view(args@);
    if args.len() == 1 {
        assert(all[0] == args@[0]@);
        assert(with_default(all, 1)[0] == all[0]);
        assert(with_default(all, 1)[1] == VariableView::Str(Seq::empty()));
        let content = args[0].to_text();
        let attributes = String::new();
        Ok(Variable::Str(element_string(tag, attributes.as_str(), content.as_str())))
    } else if args.len() == 2 {
        assert(all[0] == args@[0]@);
        assert(all[1] == args@[1]@);
        let content = args[0].to_text();
        let attributes = args[1].to_text();
        Ok(Variable::Str(element_string(tag, attributes.as_str(), content.as_str())))
    } else {
        let mut name = String::from_str("el_");
        name.append(tag);
        Err(Error::MissingArgs(name))
    }
}

/// The native function `el_custom`.
pub fn custom(args: &Vec<Variable>) -> (r: Result<Variable, Error>)
    ensures
        gives(custom_model(variables_view(args@)), r),
{
    let ghost all = variables_view(args@);
    if args.len() == 2 {
        assert(all[0] == args@[0]@);
        assert(all[1] == args@[1]@);
        assert(with_default(all, 2)[0] == all[0]);
        assert(with_default(all, 2)[1] == all[1]);
        assert(with_default(all, 2)[2] == VariableView::Str(Seq::empty()));
        let name = args[0].to_text();
        let content = args[1].to_text();
        let attributes = String::new();
        Ok(Variable::Str(element_string(name.as_str(), attributes.as_str(), content.as_str())))
    } else if args.len() == 3 {
        assert(all[0] == args@[0]@);
        assert(all[1] == args@[1]@);
        assert(all[2] == args@[2]@);
        let name = args[0].to_text();
        let content = args[1].to_text();
        let attributes = args[2].to_text();
        Ok(Variable::Str(element_string(name.as_str(), attributes.as_str(), content.as_str())))
    } else {
        Err(Error::MissingArgs(String::from_str("el_custom")))
    }
}

/// The native function `el_comment`.
pub fn comment(args: &Vec<Variable>) -> (r: Result<Variable, Error>)
    ensures
        gives(comment_model(variables_view(args@)), r),
{
    let mut out = String::from_str("<!-- ");
    push_texts(&mut out, args);
    out.append(" -->");
    Ok(Variable::Str(out))
}

/// Whether `tag` is one of the tags that have an element function of their
/// own: every name of the capability `html` but `custom` and `comment`.
pub open spec fn plain_tag(tag: Seq<char>) -> bool {
    html_natives().contains(tag) && tag != "custom"@ && tag != "comment"@
}

/// What the native function `name` gives on `args`, for the functions that
/// work on values alone. `None` for every other name: such a function, if it
/// exists, is the host's own.
pub open spec fn native_model(name: Seq<char>, args: Seq<VariableView>) -> Option<
    Result<VariableView, ErrorView>,
> {
    if name == "len"@ {
        Some(len_model(args))
    } else if name == "bnd"@ {
        Some(bnd_model(args))
    } else if name == "pop"@ {
        Some(pop_model(args))
    } else if name == "index"@ {
        Some(index_model(args))
    } else if name == "index_v"@ {
        Some(index_v_model(args))
    } else if name == "replace"@ {
        Some(replace_model(args))
    } else if name == "enumerate"@ {
        Some(enumerate_model(args))
    } else if name == "push"@ {
        Some(push_model(args))
    } else if name == "eq"@ {
        Some(eq_model(args))
    } else if name == compare_name() {
        Some(compare_model(args))
    } else if name == "range"@ {
        Some(range_model(args))
    } else if name == "con"@ {
        Some(con_model(args))
    } else if name == "not"@ {
        Some(not_model(args))
    } else if name == "str"@ {
        Some(str_model(args))
    } else if name == "weak_eq"@ {
        Some(weak_eq_model(args))
    } else if name == "chars"@ {
        Some(chars_model(args))
    } else if name == "bytes"@ {
        Some(bytes_model(args))
    } else if name == "split"@ {
        Some(split_model(args))
    } else if name == "el_custom"@ {
        Some(custom_model(args))
    } else if name == "el_comment"@ {
        Some(comment_model(args))
    } else if exists|tag: Seq<char>| plain_tag(tag) && name == "el_"@ + tag {
        Some(element_model(name.subrange(3, name.len() as int), args))
    } else {
        None
    }
}

/// The tag of an element function: what follows `el_` in its name, if that
/// is one of the plain tags.
fn plain_tag_of(name: &str) -> (r: Option<String>)
    ensures
        match r {
            Some(tag) => plain_tag(tag@) && name@ == "el_"@ + tag@ && tag@ == name@.subrange(
                3,
                name@.len() as int,
            ),
            None => !(exists|tag: Seq<char>| plain_tag(tag) && name@ == "el_"@ + tag),
        },
{
    proof {
        reveal_strlit("el_");
    }
    let chars = chars_of(name);
    if chars.len() < 3 || chars[0] != 'e' || chars[1] != 'l' || chars[2] != '_' {
        assert forall|tag: Seq<char>| name@ == "el_"@ + tag implies false by {
            assert(("el_"@ + tag).len() >= 3);
            assert(("el_"@ + tag)[0] == 'e');
            assert(("el_"@ + tag)[1] == 'l');
            assert(("el_"@ + tag)[2] == '_');
        }
        return None;
    }
    let tag = text_between(&chars, 3, chars.len());
    assert(name@ =~= "el_"@ + tag@);
    assert(name@.len() >= 3);
    assert forall|other: Seq<char>| name@ == "el_"@ + other implies other == tag@ by {
        assert(other =~= ("el_"@ + other).subrange(3, name@.len() as int));
    }
    if tag == String::from_str("custom") || tag == String::from_str("comment") {
        return None;
    }
    let names = html_names();
    let ghost all = names_view(names@);
    let mut i: usize = 0;
    while i < names.len()
        invariant
            i <= names.len(),
            all == names_view(names@),
            all == html_natives(),
            name@.len() >= 3,
            name@ == "el_"@ + tag@,
            tag@ == name@.subrange(3, name@.len() as int),
            tag@ != "custom"@,
            tag@ != "comment"@,
            forall|k: int| 0 <= k < i ==> all[k] != tag@,
        decreases names.len() - i,
    {
        assert(all[i as int] == names@[i as int]@);
        if tag == String::from_str(names[i]) {
            assert(html_natives().contains(tag@));
            return Some(tag);
        }
        i += 1;
    }
    assert(!html_natives().contains(tag@));
    None
}

/// Runs the native function `name` on `args`, if it is one of those that
/// work on values alone; `None` for every other name.
pub fn call_native(name: &str, args: &Vec<Variable>) -> (r: Option<Result<Variable, Error>>)
    ensures
        match native_model(name@, variables_view(args@)) {
            Some(model) => r is Some && gives(model, r->0),
            None => r is None,
        },
{
    let word = String::from_str(name);
    if word == String::from_str("len") {
        Some(len(args))
    } else if word == String::from_str("bnd") {
        Some(bnd(args))
    } else if word == String::from_str("pop") {
        Some(pop(args))
    } else if word == String::from_str("index") {
        Some(index(args))
    } else if word == String::from_str("index_v") {
        Some(index_v(args))
    } else if word == String::from_str("replace") {
        Some(replace(args))
    } else if word == String::from_str("enumerate") {
        Some(enumerate(args))
    } else if word == String::from_str("push") {
        Some(push(args))
    } else if word == String::from_str("eq") {
        Some(eq(args))
    } else if word == comparison_name() {
        Some(compare(args))
    } else if word == String::from_str("range") {
        Some(range(args))
    } else if word == String::from_str("con") {
        Some(con(args))
    } else if word == String::from_str("not") {
        Some(not(args))
    } else if word == String::from_str("str") {
        Some(str(args))
    } else if word == String::from_str("weak_eq") {
        Some(weak_eq(args))
    } else if word == String::from_str("chars") {
        Some(chars(args))
    } else if word == String::from_str("bytes") {
        Some(bytes(args))
    } else if word == String::from_str("split") {
        Some(split(args))
    } else if word == String::from_str("el_custom") {
        Some(custom(args))
    } else if word == String::from_str("el_comment") {
        Some(comment(args))
    } else {
        match plain_tag_of(name) {
            Some(tag) => Some(element(tag.as_str(), args)),
            None => None,
        }
    }
}

} // verus!
