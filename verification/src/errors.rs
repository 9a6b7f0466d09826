//! The errors that lexing, parsing and evaluation report.

use crate::data_types::{variable_text, variable_words, Variable, VariableView};
use crate::nodes::{node_words, Node, NodeView};
use crate::number::{count_number, number_text, Number};
use crate::text::push_char;
use crate::tokens::{token_text, Token, TokenView};
use vstd::prelude::*;
use vstd::string::StringExecFns;

verus! {

/// Everything that can go wrong with a script.
#[derive(Debug)]
pub enum Error {
    /// The input ended inside a construct that began at the given line and
    /// column.
    UnexpectedEOF(usize, usize),
    /// The input ended where more was expected.
    EOF,
    /// A character that starts no token, with its line and column.
    UnexpectedChar(usize, usize, char),
    /// A token that may not stand where it was found; `None` is the end of
    /// the input.
    UnexpectedToken(Option<Token>),
    /// A node that may not stand where it was found; `None` is the end of
    /// the input.
    UnexpectedNode(Option<Node>),
    /// An opening delimiter that is never closed.
    UnclosedDelim(Token),
    /// A node of the wrong kind: the first is an example of what was
    /// expected, the second is what was found.
    TypeMismatch(Node, Option<Node>),
    /// A call with too few arguments, by the function's name.
    MissingArgs(String),
    /// A capability that the registry does not know.
    UnknownLib(Node),
    /// A name that is bound to nothing.
    NonexistentVar(String),
    /// A statement keyword that does not exist.
    UnknownKeyword(String),
    /// A value of the wrong kind: the first is an example of what was
    /// expected, the second is what was found.
    VarTypeMismatch(Variable, Variable),
    /// A call with the wrong number of arguments: expected, then found.
    IncorrectArgCount(usize, usize),
    /// An index outside a collection: the length, then the index.
    OutOfBoundsIndex(usize, usize),
    /// A string that is no number.
    NumParserError(Variable),
    /// There is no function called `main`.
    NoMain,
    /// The evaluation ran out of its budget of nested calls or of steps.
    TooDeep,
}

/// The mathematical content of an [`Error`].
pub enum ErrorView {
    UnexpectedEOF(usize, usize),
    EOF,
    UnexpectedChar(usize, usize, char),
    UnexpectedToken(Option<TokenView>),
    UnexpectedNode(Option<NodeView>),
    UnclosedDelim(TokenView),
    TypeMismatch(NodeView, Option<NodeView>),
    MissingArgs(Seq<char>),
    UnknownLib(NodeView),
    NonexistentVar(Seq<char>),
    UnknownKeyword(Seq<char>),
    VarTypeMismatch(VariableView, VariableView),
    IncorrectArgCount(usize, usize),
    OutOfBoundsIndex(usize, usize),
    NumParserError(VariableView),
    NoMain,
    TooDeep,
}

impl View for Error {
    type V = ErrorView;

    open spec fn view(&self) -> ErrorView {
        match self {
            Error::UnexpectedEOF(l, c) => ErrorView::UnexpectedEOF(*l, *c),
            Error::EOF => ErrorView::EOF,
            Error::UnexpectedChar(l, c, ch) => ErrorView::UnexpectedChar(*l, *c, *ch),
            Error::UnexpectedToken(t) => ErrorView::UnexpectedToken(
                match t {
                    Some(t) => Some(t@),
                    None => None,
                },
            ),
            Error::UnexpectedNode(n) => ErrorView::UnexpectedNode(
                match n {
                    Some(n) => Some(n@),
                    None => None,
                },
            ),
            Error::UnclosedDelim(t) => ErrorView::UnclosedDelim(t@),
            Error::TypeMismatch(e, f) => ErrorView::TypeMismatch(
                e@,
                match f {
                    Some(n) => Some(n@),
                    None => None,
                },
            ),
            Error::MissingArgs(s) => ErrorView::MissingArgs(s@),
            Error::UnknownLib(n) => ErrorView::UnknownLib(n@),
            Error::NonexistentVar(s) => ErrorView::NonexistentVar(s@),
            Error::UnknownKeyword(s) => ErrorView::UnknownKeyword(s@),
            Error::VarTypeMismatch(e, f) => ErrorView::VarTypeMismatch(e@, f@),
            Error::IncorrectArgCount(e, f) => ErrorView::IncorrectArgCount(*e, *f),
            Error::OutOfBoundsIndex(l, i) => ErrorView::OutOfBoundsIndex(*l, *i),
            Error::NumParserError(v) => ErrorView::NumParserError(v@),
            Error::NoMain => ErrorView::NoMain,
            Error::TooDeep => ErrorView::TooDeep,
        }
    }
}

/// The decimal text of a count.
pub open spec fn count_text(n: usize) -> Seq<char> {
    number_text(count_number(n as nat))
}

/// How an unexpected token is shown: the token, or the end of the file.
pub open spec fn token_or_end(t: Option<TokenView>) -> Seq<char> {
    match t {
        Some(t) => token_text(t),
        None => "the end of file."@,
    }
}

/// How an unexpected node is shown: in words, or as the end of the file.
pub open spec fn node_or_end(n: Option<NodeView>) -> Seq<char> {
    match n {
        Some(n) => node_words(n),
        None => "the end of file."@,
    }
}

/// How a node that was found is shown: in words, or as nothing.
pub open spec fn node_or_nothing(n: Option<NodeView>) -> Seq<char> {
    match n {
        Some(n) => node_words(n),
        None => "nothing"@,
    }
}

/// How an unknown capability is shown: by its name, or in words if it is no
/// name.
pub open spec fn capability_text(n: NodeView) -> Seq<char> {
    match n {
        NodeView::Term(TokenView::Ident(name)) => name,
        other => node_words(other),
    }
}

/// The message of an error.
pub open spec fn error_text(e: ErrorView) -> Seq<char> {
    match e {
        ErrorView::UnexpectedEOF(line, column) => "Unexpected EOF in line "@ + count_text(line)
            + " at char "@ + count_text(column),
        ErrorView::EOF => "Unexpected EOF"@,
        ErrorView::UnexpectedChar(line, column, c) => "Unexpected character `"@ + seq![c]
            + "` in line "@ + count_text(line) + " at char "@ + count_text(column),
        ErrorView::UnexpectedToken(t) => "Found an unexpected token ("@ + token_or_end(t) + ")"@,
        ErrorView::UnexpectedNode(n) => "Found an unexpected token ("@ + node_or_end(n) + ")"@,
        ErrorView::UnclosedDelim(t) => "Unclosed delimiter "@ + token_text(t),
        ErrorView::TypeMismatch(expected, found) => "Mismatched types. Expected "@ + node_words(
            expected,
        ) + ", found "@ + node_or_nothing(found) + " instead."@,
        ErrorView::MissingArgs(name) => "Missing an argument in function call `"@ + name + "`"@,
        ErrorView::UnknownLib(n) => "Unknown library specified `"@ + capability_text(n) + "`"@,
        ErrorView::NonexistentVar(name) => "Nonexistent variable called `"@ + name + "`"@,
        ErrorView::UnknownKeyword(word) => "Unknown keyword `"@ + word + "`"@,
        ErrorView::VarTypeMismatch(expected, found) => "Variable type mismatch: Expected "@
            + variable_words(expected) + ", found "@ + variable_words(found),
        ErrorView::IncorrectArgCount(expected, found) =>
            "Incorrect amount of arguments. Expected "@ + count_text(expected) + ", found "@
                + count_text(found),
        ErrorView::OutOfBoundsIndex(length, place) => "Index "@ + count_text(place)
            + " is out of bounds for a length of "@ + count_text(length),
        ErrorView::NumParserError(v) => "Cannot read `"@ + variable_text(v) + "` as a number"@,
        ErrorView::NoMain => "No defined main function!"@,
        ErrorView::TooDeep => "Recursion too deep"@,
    }
}

fn push_count(out: &mut String, n: usize)
    ensures
        final(out)@ == old(out)@ + count_text(n),
{
    let text = Number::from_count(n).to_text();
    out.append(text.as_str());
}

fn push_string(out: &mut String, text: String)
    ensures
        final(out)@ == old(out)@ + text@,
{
    out.append(text.as_str());
}

fn push_token_or_end(out: &mut String, t: &Option<Token>)
    ensures
        final(out)@ == old(out)@ + token_or_end(
            match *t {
                Some(t) => Some(t@),
                None => None,
            },
        ),
{
    match t {
        Some(t) => push_string(out, t.to_text()),
        None => out.append("the end of file."),
    }
}

fn push_node_or(out: &mut String, n: &Option<Node>, otherwise: &str)
    ensures
        final(out)@ == old(out)@ + match *n {
            Some(n) => node_words(n@),
            None => otherwise@,
        },
{
    match n {
        Some(n) => push_string(out, n.as_words()),
        None => out.append(otherwise),
    }
}

fn push_capability(out: &mut String, n: &Node)
    ensures
        final(out)@ == old(out)@ + capability_text(n@),
{
    proof {
        crate::nodes::lemma_node_view(*n);
    }
    match n {
        Node::Term(Token::Ident(name)) => out.append(name.as_str()),
        other => push_string(out, other.as_words()),
    }
}

impl Error {
    /// The message of the error, as it is shown to the user.
    pub fn message(&self) -> (r: String)
        ensures
            r@ == error_text(self@),
    {
        let mut out = String::new();
        match self {
            Error::UnexpectedEOF(line, column) => {
                out.append("Unexpected EOF in line ");
                push_count(&mut out, *line);
                out.append(" at char ");
                push_count(&mut out, *column);
            },
            Error::EOF => {
                out.append("Unexpected EOF");
            },
            Error::UnexpectedChar(line, column, c) => {
                out.append("Unexpected character `");
                push_char(&mut out, *c);
                out.append("` in line ");
                push_count(&mut out, *line);
                out.append(" at char ");
                push_count(&mut out, *column);
            },
            Error::UnexpectedToken(t) => {
                out.append("Found an unexpected token (");
                push_token_or_end(&mut out, t);
                out.append(")");
            },
            Error::UnexpectedNode(n) => {
                out.append("Found an unexpected token (");
                push_node_or(&mut out, n, "the end of file.");
                out.append(")");
            },
            Error::UnclosedDelim(t) => {
                out.append("Unclosed delimiter ");
                push_string(&mut out, t.to_text());
            },
            Error::TypeMismatch(expected, found) => {
                out.append("Mismatched types. Expected ");
                push_string(&mut out, expected.as_words());
                out.append(", found ");
                push_node_or(&mut out, found, "nothing");
                out.append(" instead.");
            },
            Error::MissingArgs(name) => {
                out.append("Missing an argument in function call `");
                out.append(name.as_str());
                out.append("`");
            },
            Error::UnknownLib(n) => {
                out.append("Unknown library specified `");
                push_capability(&mut out, n);
                out.append("`");
            },
            Error::NonexistentVar(name) => {
                out.append("Nonexistent variable called `");
                out.append(name.as_str());
                out.append("`");
            },
            Error::UnknownKeyword(word) => {
                out.append("Unknown keyword `");
                out.append(word.as_str());
                out.append("`");
            },
            Error::VarTypeMismatch(expected, found) => {
                out.append("Variable type mismatch: Expected ");
                push_string(&mut out, expected.as_words());
                out.append(", found ");
                push_string(&mut out, found.as_words());
            },
            Error::IncorrectArgCount(expected, found) => {
                out.append("Incorrect amount of arguments. Expected ");
                push_count(&mut out, *expected);
                out.append(", found ");
                push_count(&mut out, *found);
            },
            Error::OutOfBoundsIndex(length, place) => {
                out.append("Index ");
                push_count(&mut out, *place);
                out.append(" is out of bounds for a length of ");
                push_count(&mut out, *length);
            },
            Error::NumParserError(v) => {
                out.append("Cannot read `");
                push_string(&mut out, v.to_text());
                out.append("` as a number");
            },
            Error::NoMain => {
                out.append("No defined main function!");
            },
            Error::TooDeep => {
                out.append("Recursion too deep");
            },
        }
        assert(out@ =~= error_text(self@));
        out
    }

    /// A copy of this error.
    pub fn copy(&self) -> (r: Error)
        ensures
            r@ == self@,
    {
        match self {
            Error::UnexpectedEOF(line, column) => Error::UnexpectedEOF(*line, *column),
            Error::EOF => Error::EOF,
            Error::UnexpectedChar(line, column, c) => Error::UnexpectedChar(*line, *column, *c),
            Error::UnexpectedToken(t) => Error::UnexpectedToken(
                match t {
                    Some(t) => Some(t.copy()),
                    None => None,
                },
            ),
            Error::UnexpectedNode(n) => Error::UnexpectedNode(
                match n {
                    Some(n) => Some(n.copy()),
                    None => None,
                },
            ),
            Error::UnclosedDelim(t) => Error::UnclosedDelim(t.copy()),
            Error::TypeMismatch(expected, found) => Error::TypeMismatch(
                expected.copy(),
                match found {
                    Some(n) => Some(n.copy()),
                    None => None,
                },
            ),
            Error::MissingArgs(name) => Error::MissingArgs(name.clone()),
            Error::UnknownLib(n) => Error::UnknownLib(n.copy()),
            Error::NonexistentVar(name) => Error::NonexistentVar(name.clone()),
            Error::UnknownKeyword(word) => Error::UnknownKeyword(word.clone()),
            Error::VarTypeMismatch(expected, found) => Error::VarTypeMismatch(
                expected.copy(),
                found.copy(),
            ),
            Error::IncorrectArgCount(expected, found) => Error::IncorrectArgCount(
                *expected,
                *found,
            ),
            Error::OutOfBoundsIndex(length, place) => Error::OutOfBoundsIndex(*length, *place),
            Error::NumParserError(v) => Error::NumParserError(v.copy()),
            Error::NoMain => Error::NoMain,
            Error::TooDeep => Error::TooDeep,
        }
    }
}

impl Clone for Error {
    fn clone(&self) -> (r: Error)
        ensures
            r@ == self@,
    {
        self.copy()
    }
}

} // verus!
