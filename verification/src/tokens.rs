//! The lexical atoms of the language.

use crate::data_types::{Variable, VariableView};
use crate::errors::{Error, ErrorView};
use crate::number::{number_text, Number, NumberView};
use crate::text::push_char;
use vstd::prelude::*;
use vstd::string::StringExecFns;

verus! {

/// One lexical atom.
#[derive(Debug, PartialEq, Eq)]
pub enum Token {
    /// A string literal, without its quotes and with its escapes resolved.
    Str(String),
    /// A numeric literal.
    Num(Number),
    /// A name that is not inside a string.
    Ident(String),
    /// The function declaration marker `@`.
    FunctionDecl,
    /// The statement terminator `;`.
    EndLine,
    /// `{`
    OpenCurly,
    /// `}`
    CloseCurly,
    /// `(`
    OpenBracket,
    /// `)`
    CloseBracket,
    /// `[`
    OpenSquare,
    /// `]`
    CloseSquare,
    /// The arrow assigner `->`, as in `add(3 3) -> x`.
    ArrowAssigner,
    /// The for assigner `=>`, as in `for range(0 100) => count {}`.
    ForAssigner,
}

/// The mathematical content of a [`Token`].
pub enum TokenView {
    Str(Seq<char>),
    Num(NumberView),
    Ident(Seq<char>),
    FunctionDecl,
    EndLine,
    OpenCurly,
    CloseCurly,
    OpenBracket,
    CloseBracket,
    OpenSquare,
    CloseSquare,
    ArrowAssigner,
    ForAssigner,
}

impl View for Token {
    type V = TokenView;

    open spec fn view(&self) -> TokenView {
        match self {
            Token::Str(s) => TokenView::Str(s@),
            Token::Num(n) => TokenView::Num(n@),
            Token::Ident(s) => TokenView::Ident(s@),
            Token::FunctionDecl => TokenView::FunctionDecl,
            Token::EndLine => TokenView::EndLine,
            Token::OpenCurly => TokenView::OpenCurly,
            Token::CloseCurly => TokenView::CloseCurly,
            Token::OpenBracket => TokenView::OpenBracket,
            Token::CloseBracket => TokenView::CloseBracket,
            Token::OpenSquare => TokenView::OpenSquare,
            Token::CloseSquare => TokenView::CloseSquare,
            Token::ArrowAssigner => TokenView::ArrowAssigner,
            Token::ForAssigner => TokenView::ForAssigner,
        }
    }
}

/// The views of a sequence of tokens, in order.
pub open spec fn tokens_view(s: Seq<Token>) -> Seq<TokenView> {
    Seq::new(s.len(), |i: int| s[i]@)
}

/// How a token is named in a message.
pub open spec fn token_words(t: TokenView) -> Seq<char> {
    match t {
        TokenView::Str(_) => "a string"@,
        TokenView::Num(_) => "a number"@,
        TokenView::Ident(_) => "an identifier"@,
        TokenView::FunctionDecl => "a function declaration token (`@`)"@,
        TokenView::EndLine => "a line ending token (`;`)"@,
        TokenView::OpenCurly => "a curly brace (`{`)"@,
        TokenView::CloseCurly => "a curly brace (`}`)"@,
        TokenView::OpenBracket => "a bracket (`(`)"@,
        TokenView::CloseBracket => "a bracket (`)`)"@,
        TokenView::OpenSquare => "a square bracket (`[`)"@,
        TokenView::CloseSquare => "a square bracket (`]`)"@,
        TokenView::ArrowAssigner => "an arrow assigner (`->`)"@,
        TokenView::ForAssigner => "a for assigner (`=>`)"@,
    }
}

/// The source text that a token stands for; strings and names stand for
/// themselves.
pub open spec fn token_symbol(t: TokenView) -> Seq<char> {
    match t {
        TokenView::Str(s) => s,
        TokenView::Num(n) => number_text(n),
        TokenView::Ident(s) => s,
        TokenView::FunctionDecl => "@"@,
        TokenView::EndLine => ";"@,
        TokenView::OpenCurly => "{"@,
        TokenView::CloseCurly => "}"@,
        TokenView::OpenBracket => "("@,
        TokenView::CloseBracket => ")"@,
        TokenView::OpenSquare => "["@,
        TokenView::CloseSquare => "]"@,
        TokenView::ArrowAssigner => "->"@,
        TokenView::ForAssigner => "=>"@,
    }
}

/// A token as it is shown to the user: its symbol between backticks.
pub open spec fn token_text(t: TokenView) -> Seq<char> {
    seq!['`'] + token_symbol(t) + seq!['`']
}

/// The value that a literal token denotes: a string or a number. Other
/// tokens denote no value.
pub open spec fn token_value(t: TokenView) -> Option<VariableView> {
    match t {
        TokenView::Str(s) => Some(VariableView::Str(s)),
        TokenView::Num(n) => Some(VariableView::Num(n)),
        _ => None,
    }
}

impl Clone for Token {
    fn clone(&self) -> (r: Token)
        ensures
            r@ == self@,
    {
        self.copy()
    }
}

impl Token {
    /// A copy of this token.
    pub fn copy(&self) -> (r: Token)
        ensures
            r@ == self@,
    {
        match self {
            Token::Str(s) => Token::Str(s.clone()),
            Token::Num(n) => Token::Num(n.copy()),
            Token::Ident(s) => Token::Ident(s.clone()),
            Token::FunctionDecl => Token::FunctionDecl,
            Token::EndLine => Token::EndLine,
            Token::OpenCurly => Token::OpenCurly,
            Token::CloseCurly => Token::CloseCurly,
            Token::OpenBracket => Token::OpenBracket,
            Token::CloseBracket => Token::CloseBracket,
            Token::OpenSquare => Token::OpenSquare,
            Token::CloseSquare => Token::CloseSquare,
            Token::ArrowAssigner => Token::ArrowAssigner,
            Token::ForAssigner => Token::ForAssigner,
        }
    }

    /// Whether two tokens are the same.
    pub fn same(&self, other: &Token) -> (r: bool)
        ensures
            r == (self@ == other@),
    {
        match (self, other) {
            (Token::Str(a), Token::Str(b)) => *a == *b,
            (Token::Num(a), Token::Num(b)) => a.equals(b),
            (Token::Ident(a), Token::Ident(b)) => *a == *b,
            (Token::FunctionDecl, Token::FunctionDecl) => true,
            (Token::EndLine, Token::EndLine) => true,
            (Token::OpenCurly, Token::OpenCurly) => true,
            (Token::CloseCurly, Token::CloseCurly) => true,
            (Token::OpenBracket, Token::OpenBracket) => true,
            (Token::CloseBracket, Token::CloseBracket) => true,
            (Token::OpenSquare, Token::OpenSquare) => true,
            (Token::CloseSquare, Token::CloseSquare) => true,
            (Token::ArrowAssigner, Token::ArrowAssigner) => true,
            (Token::ForAssigner, Token::ForAssigner) => true,
            _ => false,
        }
    }

    /// The value of a literal token. Any token that is not a string or a
    /// number is refused as unexpected.
    pub fn as_var(self) -> (r: Result<Variable, Error>)
        ensures
            match token_value(self@) {
                Some(v) => r is Ok && r->Ok_0@ == v,
                None => r is Err && r->Err_0@ == ErrorView::UnexpectedToken(Some(self@)),
            },
    {
        match self {
            Token::Str(s) => Ok(Variable::Str(s)),
            Token::Num(n) => Ok(Variable::Num(n)),
            any => Err(Error::UnexpectedToken(Some(any))),
        }
    }

    /// How the token is named in a message.
    pub fn as_words(&self) -> (r: String)
        ensures
            r@ == token_words(self@),
    {
        let words = match self {
            Token::Str(_) => "a string",
            Token::Num(_) => "a number",
            Token::Ident(_) => "an identifier",
            Token::FunctionDecl => "a function declaration token (`@`)",
            Token::EndLine => "a line ending token (`;`)",
            Token::OpenCurly => "a curly brace (`{`)",
            Token::CloseCurly => "a curly brace (`}`)",
            Token::OpenBracket => "a bracket (`(`)",
            Token::CloseBracket => "a bracket (`)`)",
            Token::OpenSquare => "a square bracket (`[`)",
            Token::CloseSquare => "a square bracket (`]`)",
            Token::ArrowAssigner => "an arrow assigner (`->`)",
            Token::ForAssigner => "a for assigner (`=>`)",
        };
        String::from_str(words)
    }

    /// The token as it is shown to the user: its symbol between backticks.
    pub fn to_text(&self) -> (r: String)
        ensures
            r@ == token_text(self@),
    {
        let mut out = String::new();
        push_char(&mut out, '`');
        match self {
            Token::Str(s) => out.append(s.as_str()),
            Token::Num(n) => {
                let t = n.to_text();
                out.append(t.as_str());
            },
            Token::Ident(s) => out.append(s.as_str()),
            Token::FunctionDecl => out.append("@"),
            Token::EndLine => out.append(";"),
            Token::OpenCurly => out.append("{"),
            Token::CloseCurly => out.append("}"),
            Token::OpenBracket => out.append("("),
            Token::CloseBracket => out.append(")"),
            Token::OpenSquare => out.append("["),
            Token::CloseSquare => out.append("]"),
            Token::ArrowAssigner => out.append("->"),
            Token::ForAssigner => out.append("=>"),
        }
        push_char(&mut out, '`');
        assert(out@ =~= token_text(self@));
        out
    }
}

} // verus!
