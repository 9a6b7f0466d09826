//! The registry of capabilities: the constants and the names of the native
//! functions that scripts find in their scope. The functions themselves
//! belong to the host program; the scope only holds their names.

use crate::data_types::{Variable, VariableView};
use crate::errors::{Error, ErrorView};
use crate::lexer::{decimal, number_from_text};
use crate::nodes::{Node, NodeView};
use crate::scope::Scope;
use crate::tokens::{Token, TokenView};
use vstd::prelude::*;
use vstd::string::StringExecFns;

verus! {

/// The views of a list of names.
pub open spec fn names_view(names: Seq<&str>) -> Seq<Seq<char>> {
    Seq::new(names.len(), |k: int| names[k]@)
}

/// The scope with each of the names bound, under the given prefix, to the
/// native function of that full name.
pub open spec fn with_natives(
    scope: Map<Seq<char>, VariableView>,
    prefix: Seq<char>,
    names: Seq<Seq<char>>,
) -> Map<Seq<char>, VariableView>
    decreases names.len(),
{
    if names.len() == 0 {
        scope
    } else {
        with_natives(scope, prefix, names.drop_last()).insert(
            prefix + names.last(),
            VariableView::NativeFunction(prefix + names.last()),
        )
    }
}

/// The native functions that every script can call.
pub open spec fn core_natives() -> Seq<Seq<char>> {
    seq![
        "hello_world"@,
        "len"@,
        "bnd"@,
        "pop"@,
        "index"@,
        "index_v"@,
        "replace"@,
        "enumerate"@,
        "push"@,
        "eq"@,
        "cmp"@,
        "range"@,
        "print"@,
        "println"@,
        "con"@,
        "add"@,
        "sub"@,
        "mod"@,
        "mult"@,
        "div"@,
        "xor"@,
        "pow"@,
        "not"@,
        "str"@,
        "num"@,
        "weak_eq"@,
        "chars"@,
        "bytes"@,
        "exit"@,
        "split"@,
    ]
}

/// The native functions of the capability `internet`, without their prefix.
pub open spec fn internet_natives() -> Seq<Seq<char>> {
    seq!["get"@, "post"@]
}

/// The native functions of the capability `io`, without their prefix.
pub open spec fn io_natives() -> Seq<Seq<char>> {
    seq!["read"@, "write"@, "input"@]
}

/// The native functions of the capability `html`, without their prefix.
pub open spec fn html_natives() -> Seq<Seq<char>> {
    seq![
        "custom"@,
        "comment"@,
        "p"@,
        "tag"@,
        "head"@,
        "title"@,
        "meta"@,
        "h1"@,
        "h2"@,
        "h3"@,
        "h4"@,
        "h5"@,
        "h6"@,
        "div"@,
        "span"@,
        "header"@,
        "code"@,
        "samp"@,
        "pre"@,
        "link"@,
        "a"@,
        "img"@,
        "script"@,
        "body"@,
    ]
}

/// The number that a decimal text denotes, or zero for a text that denotes
/// none.
pub open spec fn constant(text: Seq<char>) -> VariableView {
    match decimal(text) {
        Some(n) => VariableView::Num(n),
        None => VariableView::Num(crate::number::normal_form(false, Seq::empty(), Seq::empty())),
    }
}

/// The constants that every script can read.
pub open spec fn constants() -> Map<Seq<char>, VariableView> {
    Map::<Seq<char>, VariableView>::empty().insert("void"@, VariableView::Void).insert(
        "true"@,
        VariableView::Bool(true),
    ).insert("false"@, VariableView::Bool(false)).insert(
        "num_max"@,
        constant("340282350000000000000000000000000000000"@),
    ).insert("num_min"@, constant("-340282350000000000000000000000000000000"@)).insert(
        "num_pi"@,
        constant("3.1415927"@),
    )
}

/// The scope that a script starts with.
pub open spec fn initial_scope() -> Map<Seq<char>, VariableView> {
    with_natives(constants(), Seq::empty(), core_natives())
}

fn add_natives(scope: &mut Scope, prefix: &str, names: &Vec<&str>)
    ensures
        final(scope)@ == with_natives(old(scope)@, prefix@, names_view(names@)),
{
    let ghost all = names_view(names@);
    let mut i: usize = 0;
    assert(all.subrange(0, 0) =~= Seq::<Seq<char>>::empty());
    while i < names.len()
        invariant
            i <= names.len(),
            all == names_view(names@),
            scope@ == with_natives(old(scope)@, prefix@, all.subrange(0, i as int)),
        decreases names.len() - i,
    {
        let ghost next = all.subrange(0, i + 1);
        assert(next.drop_last() =~= all.subrange(0, i as int));
        assert(next.last() == names@[i as int]@);
        let mut name = String::from_str(prefix);
        name.append(names[i]);
        let native = Variable::NativeFunction(name.clone());
        scope.insert(name, native);
        i += 1;
    }
    assert(all.subrange(0, i as int) =~= all);
}

fn number(text: &str) -> (r: Variable)
    ensures
        r@ == constant(text@),
{
    match number_from_text(text) {
        Some(n) => Variable::Num(n),
        None => Variable::Num(crate::number::Number::zero()),
    }
}

/// The scope that a script starts with: the constants `void`, `true`,
/// `false`, `num_max`, `num_min` and `num_pi`, and the name of every native
/// function that needs no capability.
pub fn construct_lib() -> (r: Scope)
    ensures
        r@ == initial_scope(),
{
    let mut scope = Scope::new();
    scope.insert(String::from_str("void"), Variable::Void);
    scope.insert(String::from_str("true"), Variable::Bool(true));
    scope.insert(String::from_str("false"), Variable::Bool(false));
    scope.insert(String::from_str("num_max"), number("340282350000000000000000000000000000000"));
    scope.insert(String::from_str("num_min"), number("-340282350000000000000000000000000000000"));
    scope.insert(String::from_str("num_pi"), number("3.1415927"));
    let names: Vec<&str> = vec![
        "hello_world",
        "len",
        "bnd",
        "pop",
        "index",
        "index_v",
        "replace",
        "enumerate",
        "push",
        "eq",
        "cmp",
        "range",
        "print",
        "println",
        "con",
        "add",
        "sub",
        "mod",
        "mult",
        "div",
        "xor",
        "pow",
        "not",
        "str",
        "num",
        "weak_eq",
        "chars",
        "bytes",
        "exit",
        "split",
    ];
    assert(names_view(names@) =~= core_natives());
    proof {
        reveal_strlit("");
        assert(""@ =~= Seq::<char>::empty());
    }
    add_natives(&mut scope, "", &names);
    scope
}

/// Adds the capability `internet`: the native functions `internet_get` and
/// `internet_post`.
pub fn internet(map: &mut Scope)
    ensures
        final(map)@ == with_natives(old(map)@, "internet_"@, internet_natives()),
{
    let names: Vec<&str> = vec!["get", "post"];
    assert(names_view(names@) =~= internet_natives());
    add_natives(map, "internet_", &names);
}

/// Adds the capability `io`: the native functions `io_read`, `io_write` and
/// `io_input`.
pub fn io(map: &mut Scope)
    ensures
        final(map)@ == with_natives(old(map)@, "io_"@, io_natives()),
{
    let names: Vec<&str> = vec!["read", "write", "input"];
    assert(names_view(names@) =~= io_natives());
    add_natives(map, "io_", &names);
}

/// The names of the capability `html`, without their prefix.
pub fn html_names() -> (r: Vec<&'static str>)
    ensures
        names_view(r@) == html_natives(),
{
    let names: Vec<&str> = vec![
        "custom",
        "comment",
        "p",
        "tag",
        "head",
        "title",
        "meta",
        "h1",
        "h2",
        "h3",
        "h4",
        "h5",
        "h6",
        "div",
        "span",
        "header",
        "code",
        "samp",
        "pre",
        "link",
        "a",
        "img",
        "script",
        "body",
    ];
    assert(names_view(names@) =~= html_natives());
    names
}

/// Adds the capability `html`: one native function for each kind of element,
/// all with the prefix `el_`.
pub fn html(map: &mut Scope)
    ensures
        final(map)@ == with_natives(old(map)@, "el_"@, html_natives()),
{
    let names = html_names();
    add_natives(map, "el_", &names);
}

/// The scope after the capability `name` was loaded, or the error for a
/// capability that does not exist. `fs` is another name for `io`.
pub open spec fn loaded(scope: Map<Seq<char>, VariableView>, name: Seq<char>) -> Result<
    Map<Seq<char>, VariableView>,
    ErrorView,
> {
    if name == "internet"@ {
        Ok(with_natives(scope, "internet_"@, internet_natives()))
    } else if name == "io"@ || name == "fs"@ {
        Ok(with_natives(scope, "io_"@, io_natives()))
    } else if name == "html"@ {
        Ok(with_natives(scope, "el_"@, html_natives()))
    } else {
        Err(ErrorView::UnknownLib(NodeView::Term(TokenView::Ident(name))))
    }
}

/// Loads the capability `name` into the scope. An unknown capability is an
/// error and leaves the scope as it was.
pub fn load_capability(name: &String, scope: &mut Scope) -> (r: Result<(), Error>)
    ensures
        match loaded(old(scope)@, name@) {
            Ok(after) => r is Ok && final(scope)@ == after,
            Err(e) => r is Err && r->Err_0@ == e && final(scope)@ == old(scope)@,
        },
{
    if *name == String::from_str("internet") {
        internet(scope);
        Ok(())
    } else if *name == String::from_str("io") || *name == String::from_str("fs") {
        io(scope);
        Ok(())
    } else if *name == String::from_str("html") {
        html(scope);
        Ok(())
    } else {
        Err(Error::UnknownLib(Node::Term(Token::Ident(name.clone()))))
    }
}

} // verus!
