//! The values that a running script works with.

use crate::errors::{Error, ErrorView};
use crate::nodes::{nodes_view, Node, NodeView};
use crate::number::{normal_form, number_below, number_text, Number, NumberView};
use crate::text::{append_chars, push_char};
use crate::tokens::TokenView;
use vstd::prelude::*;
use vstd::string::StringExecFns;

verus! {

/// A runtime value.
#[derive(Debug)]
pub enum Variable {
    Str(String),
    Num(Number),
    Bool(bool),
    Array(Vec<Variable>),
    /// A declared function; the node is a function declaration.
    Function(Node),
    /// A function of the host program, known by its name.
    NativeFunction(String),
    Void,
}

/// The mathematical content of a [`Variable`].
pub enum VariableView {
    Str(Seq<char>),
    Num(NumberView),
    Bool(bool),
    Array(Seq<VariableView>),
    Function(NodeView),
    NativeFunction(Seq<char>),
    Void,
}

impl View for Variable {
    type V = VariableView;

    open spec fn view(&self) -> VariableView
        decreases self,
    {
        match self {
            Variable::Str(s) => VariableView::Str(s@),
            Variable::Num(n) => VariableView::Num(n@),
            Variable::Bool(b) => VariableView::Bool(*b),
            Variable::Array(v) => VariableView::Array(
                Seq::new(
                    v@.len(),
                    |i: int|
                        if 0 <= i < v@.len() {
                            v@[i]@
                        } else {
                            arbitrary()
                        },
                ),
            ),
            Variable::Function(n) => VariableView::Function(n@),
            Variable::NativeFunction(s) => VariableView::NativeFunction(s@),
            Variable::Void => VariableView::Void,
        }
    }
}

/// The views of a sequence of values, in order.
pub open spec fn variables_view(s: Seq<Variable>) -> Seq<VariableView> {
    Seq::new(s.len(), |i: int| s[i]@)
}

/// The view of an array value, written with [`variables_view`].
pub proof fn lemma_array_view(v: Vec<Variable>)
    ensures
        Variable::Array(v)@ == VariableView::Array(variables_view(v@)),
{
    reveal_with_fuel(<Variable as View>::view, 2);
    assert(Variable::Array(v)@->Array_0 =~= variables_view(v@));
}

/// How a value is named in a message.
pub open spec fn variable_words(v: VariableView) -> Seq<char> {
    match v {
        VariableView::Num(_) => "a number"@,
        VariableView::Str(_) => "a string"@,
        VariableView::Array(_) => "an array"@,
        VariableView::Bool(_) => "a boolean"@,
        VariableView::Function(_) => "a function"@,
        VariableView::NativeFunction(_) => "a function"@,
        VariableView::Void => "nothing"@,
    }
}

/// Whether two values are equal. Strings, numbers, booleans and the empty
/// value are compared with their own kind; arrays are equal when they have
/// the same length and equal elements. Functions cannot be compared, and
/// neither can values of two different kinds: both are a type mismatch that
/// carries the two values.
///
/// Arrays of different lengths are unequal whatever they hold. Otherwise the
/// elements are compared from the left, and the first pair that is unequal
/// or cannot be compared decides.
pub open spec fn equal_values(a: VariableView, b: VariableView) -> Result<bool, ErrorView>
    decreases a,
{
    match (a, b) {
        (VariableView::Str(x), VariableView::Str(y)) => Ok(x == y),
        (VariableView::Num(x), VariableView::Num(y)) => Ok(x == y),
        (VariableView::Bool(x), VariableView::Bool(y)) => Ok(x == y),
        (VariableView::Void, VariableView::Void) => Ok(true),
        (VariableView::Array(x), VariableView::Array(y)) => if x.len() != y.len() {
            Ok(false)
        } else {
            equal_from(x, y, 0)
        },
        _ => Err(ErrorView::VarTypeMismatch(a, b)),
    }
}

/// Whether two arrays of one length are equal from position `i` on.
pub open spec fn equal_from(x: Seq<VariableView>, y: Seq<VariableView>, i: int) -> Result<
    bool,
    ErrorView,
>
    decreases x, x.len() - i,
{
    if i < 0 || i >= x.len() || i >= y.len() {
        Ok(true)
    } else {
        match equal_values(x[i], y[i]) {
            Err(e) => Err(e),
            Ok(false) => Ok(false),
            Ok(true) => equal_from(x, y, i + 1),
        }
    }
}

/// The value that stands for "a number" in a message about a value that
/// cannot be ordered.
pub open spec fn number_example() -> VariableView {
    VariableView::Num(normal_form(false, Seq::empty(), Seq::empty()))
}

/// Whether `a` is below `b`. Only numbers are ordered: a value of any other
/// kind on either side is a type mismatch that carries the offending value,
/// the left one if both are no numbers.
pub open spec fn ordered_values(a: VariableView, b: VariableView) -> Result<bool, ErrorView> {
    match (a, b) {
        (VariableView::Num(x), VariableView::Num(y)) => Ok(number_below(x, y)),
        (VariableView::Num(_), other) => Err(ErrorView::VarTypeMismatch(number_example(), other)),
        (other, _) => Err(ErrorView::VarTypeMismatch(number_example(), other)),
    }
}

/// The text of the names in a parameter list, each followed by a space;
/// nodes that are no names leave nothing.
pub open spec fn names_text(params: Seq<NodeView>) -> Seq<char>
    decreases params.len(),
{
    if params.len() == 0 {
        Seq::empty()
    } else {
        names_text(params.drop_last()) + match params.last() {
            NodeView::Term(TokenView::Ident(name)) => name + seq![' '],
            _ => Seq::empty(),
        }
    }
}

/// The signature of a declared function: `@`, its name, and its parameters
/// between square brackets.
pub open spec fn function_text(n: NodeView) -> Seq<char> {
    match n {
        NodeView::FunctionDecl { name, args, nodes } => seq!['@'] + name + " [ "@ + names_text(
            args,
        ) + "]"@,
        _ => "@"@,
    }
}

/// The text of a value. A string is itself, a number and a boolean have
/// their usual text, an array is its elements between square brackets,
/// joined by single spaces. A declared function shows its signature, a
/// native function a placeholder, and the empty value is `()`.
pub open spec fn variable_text(v: VariableView) -> Seq<char>
    decreases v,
{
    match v {
        VariableView::Str(s) => s,
        VariableView::Num(n) => number_text(n),
        VariableView::Bool(b) => if b {
            "true"@
        } else {
            "false"@
        },
        VariableView::Array(items) => seq!['['] + joined_text(items) + seq![']'],
        VariableView::Function(n) => function_text(n),
        VariableView::NativeFunction(_) => "<[Native function representing not supported.]>"@,
        VariableView::Void => "()"@,
    }
}

/// The texts of the values, joined by single spaces.
pub open spec fn joined_text(items: Seq<VariableView>) -> Seq<char>
    decreases items,
{
    if items.len() == 0 {
        Seq::empty()
    } else if items.len() == 1 {
        variable_text(items.last())
    } else {
        joined_text(items.drop_last()) + seq![' '] + variable_text(items.last())
    }
}

/// A copy of each value, in order.
pub fn copy_variables(v: &Vec<Variable>) -> (r: Vec<Variable>)
    ensures
        variables_view(r@) == variables_view(v@),
{
    copy_within(v, Ghost(VariableView::Array(variables_view(v@))))
}

fn copy_within(v: &Vec<Variable>, Ghost(parent): Ghost<VariableView>) -> (r: Vec<Variable>)
    requires
        parent == VariableView::Array(variables_view(v@)),
    ensures
        variables_view(r@) == variables_view(v@),
    decreases parent, 0nat,
{
    let mut out: Vec<Variable> = Vec::new();
    let mut i: usize = 0;
    while i < v.len()
        invariant
            i <= v.len(),
            out@.len() == i,
            parent == VariableView::Array(variables_view(v@)),
            forall|j: int| 0 <= j < i ==> out@[j]@ == v@[j]@,
        decreases v.len() - i,
    {
        assert(parent->Array_0[i as int] == v@[i as int]@);
        let c = v[i].copy();
        out.push(c);
        i += 1;
    }
    assert(variables_view(out@) =~= variables_view(v@));
    out
}

fn equal_within(a: &Vec<Variable>, b: &Vec<Variable>, Ghost(parent): Ghost<VariableView>) -> (r:
    Result<bool, Error>)
    requires
        parent == VariableView::Array(variables_view(a@)),
        a.len() == b.len(),
    ensures
        match equal_from(variables_view(a@), variables_view(b@), 0) {
            Ok(x) => r is Ok && r->Ok_0 == x,
            Err(e) => r is Err && r->Err_0@ == e,
        },
    decreases parent, 0nat,
{
    let ghost x = variables_view(a@);
    let ghost y = variables_view(b@);
    let mut i: usize = 0;
    while i < a.len()
        invariant
            i <= a.len(),
            a.len() == b.len(),
            x == variables_view(a@),
            y == variables_view(b@),
            parent == VariableView::Array(x),
            equal_from(x, y, 0) == equal_from(x, y, i as int),
        decreases a.len() - i,
    {
        assert(parent->Array_0[i as int] == a@[i as int]@);
        assert(y[i as int] == b@[i as int]@);
        match a[i].equals(&b[i]) {
            Err(e) => {
                return Err(e);
            },
            Ok(same) => {
                if !same {
                    return Ok(false);
                }
            },
        }
        i += 1;
    }
    Ok(true)
}

fn join_within(out: &mut String, v: &Vec<Variable>, Ghost(parent): Ghost<VariableView>)
    requires
        parent == VariableView::Array(variables_view(v@)),
    ensures
        final(out)@ == old(out)@ + joined_text(variables_view(v@)),
    decreases parent, 0nat,
{
    let ghost all = variables_view(v@);
    let mut i: usize = 0;
    assert(all.subrange(0, 0) =~= Seq::<VariableView>::empty());
    assert(out@ =~= old(out)@ + joined_text(all.subrange(0, 0)));
    while i < v.len()
        invariant
            i <= v.len(),
            all == variables_view(v@),
            parent == VariableView::Array(all),
            out@ == old(out)@ + joined_text(all.subrange(0, i as int)),
        decreases v.len() - i,
    {
        assert(parent->Array_0[i as int] == v@[i as int]@);
        let ghost before = out@;
        let ghost prefix = all.subrange(0, i + 1);
        assert(prefix.drop_last() =~= all.subrange(0, i as int));
        assert(prefix.last() == all[i as int]);
        if i > 0 {
            push_char(out, ' ');
        }
        let piece = v[i].to_text();
        append_chars(out, piece.as_str());
        i += 1;
        assert(out@ =~= old(out)@ + joined_text(all.subrange(0, i as int)));
    }
    assert(all.subrange(0, i as int) =~= all);
}

fn push_names(out: &mut String, params: &Vec<Node>)
    ensures
        final(out)@ == old(out)@ + names_text(nodes_view(params@)),
{
    let ghost all = nodes_view(params@);
    let mut i: usize = 0;
    assert(all.subrange(0, 0) =~= Seq::<NodeView>::empty());
    assert(out@ =~= old(out)@ + names_text(all.subrange(0, 0)));
    while i < params.len()
        invariant
            i <= params.len(),
            all == nodes_view(params@),
            out@ == old(out)@ + names_text(all.subrange(0, i as int)),
        decreases params.len() - i,
    {
        assert(all[i as int] == params@[i as int]@);
        let ghost prefix = all.subrange(0, i + 1);
        assert(prefix.drop_last() =~= all.subrange(0, i as int));
        assert(prefix.last() == all[i as int]);
        match &params[i] {
            Node::Term(crate::tokens::Token::Ident(name)) => {
                out.append(name.as_str());
                push_char(out, ' ');
            },
            other => {
                proof {
                    crate::nodes::lemma_node_view(*other);
                }
            },
        }
        i += 1;
        assert(out@ =~= old(out)@ + names_text(all.subrange(0, i as int)));
    }
    assert(all.subrange(0, i as int) =~= all);
}

fn function_signature(n: &Node) -> (r: String)
    ensures
        r@ == function_text(n@),
{
    proof {
        crate::nodes::lemma_node_view(*n);
    }
    let mut out = String::from_str("@");
    match n {
        Node::FunctionDecl { name, args, nodes } => {
            proof {
                reveal_strlit("@");
                assert("@"@ =~= seq!['@']);
            }
            out.append(name.as_str());
            out.append(" [ ");
            push_names(&mut out, args);
            out.append("]");
            assert(out@ =~= function_text(n@));
        },
        _ => {},
    }
    out
}

impl Clone for Variable {
    fn clone(&self) -> (r: Variable)
        ensures
            r@ == self@,
    {
        self.copy()
    }
}

impl Variable {
    /// A copy of this value.
    pub fn copy(&self) -> (r: Variable)
        ensures
            r@ == self@,
        decreases self@, 1nat,
    {
        match self {
            Variable::Str(s) => Variable::Str(s.clone()),
            Variable::Num(n) => Variable::Num(n.copy()),
            Variable::Bool(b) => Variable::Bool(*b),
            Variable::Array(v) => {
                proof {
                    lemma_array_view(*v);
                }
                let w = copy_within(v, Ghost(self@));
                proof {
                    lemma_array_view(w);
                }
                Variable::Array(w)
            },
            Variable::Function(n) => Variable::Function(n.copy()),
            Variable::NativeFunction(s) => Variable::NativeFunction(s.clone()),
            Variable::Void => Variable::Void,
        }
    }

    /// Whether two values are equal, or the type mismatch where they cannot
    /// be compared.
    pub fn equals(&self, other: &Variable) -> (r: Result<bool, Error>)
        ensures
            match equal_values(self@, other@) {
                Ok(x) => r is Ok && r->Ok_0 == x,
                Err(e) => r is Err && r->Err_0@ == e,
            },
        decreases self@, 1nat,
    {
        match (self, other) {
            (Variable::Str(x), Variable::Str(y)) => Ok(*x == *y),
            (Variable::Num(x), Variable::Num(y)) => Ok(x.equals(y)),
            (Variable::Bool(x), Variable::Bool(y)) => Ok(*x == *y),
            (Variable::Void, Variable::Void) => Ok(true),
            (Variable::Array(x), Variable::Array(y)) => {
                proof {
                    lemma_array_view(*x);
                    lemma_array_view(*y);
                }
                if x.len() != y.len() {
                    Ok(false)
                } else {
                    equal_within(x, y, Ghost(self@))
                }
            },
            _ => Err(Error::VarTypeMismatch(self.copy(), other.copy())),
        }
    }

    /// Whether this value is below `other`, or the type mismatch where one
    /// of the two is no number.
    pub fn less_than(&self, other: &Variable) -> (r: Result<bool, Error>)
        ensures
            match ordered_values(self@, other@) {
                Ok(x) => r is Ok && r->Ok_0 == x,
                Err(e) => r is Err && r->Err_0@ == e,
            },
    {
        match (self, other) {
            (Variable::Num(x), Variable::Num(y)) => Ok(x.less_than(y)),
            (Variable::Num(_), found) => Err(
                Error::VarTypeMismatch(Variable::Num(Number::zero()), found.copy()),
            ),
            (found, _) => Err(Error::VarTypeMismatch(Variable::Num(Number::zero()), found.copy())),
        }
    }

    /// How the value is named in a message.
    pub fn as_words(&self) -> (r: String)
        ensures
            r@ == variable_words(self@),
    {
        let words = match self {
            Variable::Num(_) => "a number",
            Variable::Str(_) => "a string",
            Variable::Array(_) => "an array",
            Variable::Bool(_) => "a boolean",
            Variable::Function(_) => "a function",
            Variable::NativeFunction(_) => "a function",
            Variable::Void => "nothing",
        };
        String::from_str(words)
    }

    /// The text of the value, as it is printed.
    pub fn to_text(&self) -> (r: String)
        ensures
            r@ == variable_text(self@),
        decreases self@, 1nat,
    {
        match self {
            Variable::Str(s) => s.clone(),
            Variable::Num(n) => n.to_text(),
            Variable::Bool(b) => if *b {
                String::from_str("true")
            } else {
                String::from_str("false")
            },
            Variable::Array(v) => {
                proof {
                    lemma_array_view(*v);
                }
                let mut out = String::new();
                push_char(&mut out, '[');
                join_within(&mut out, v, Ghost(self@));
                push_char(&mut out, ']');
                assert(out@ =~= variable_text(self@));
                out
            },
            Variable::Function(n) => function_signature(n),
            Variable::NativeFunction(_) => String::from_str(
                "<[Native function representing not supported.]>",
            ),
            Variable::Void => String::from_str("()"),
        }
    }
}

/// Comparing a number with itself gives `true`, comparing two numbers gives
/// the same answer in both orders, and comparing a number with a value of
/// another kind is a type mismatch, never `false`.
pub proof fn lemma_number_equality(a: NumberView, b: NumberView, other: VariableView)
    requires
        !(other is Num),
    ensures
        equal_values(VariableView::Num(a), VariableView::Num(a)) == Ok::<bool, ErrorView>(true),
        equal_values(VariableView::Num(a), VariableView::Num(b)) == equal_values(
            VariableView::Num(b),
            VariableView::Num(a),
        ),
        equal_values(VariableView::Num(a), VariableView::Num(b)) is Ok,
        equal_values(VariableView::Num(a), other) == Err::<bool, ErrorView>(
            ErrorView::VarTypeMismatch(VariableView::Num(a), other),
        ),
        equal_values(other, VariableView::Num(a)) == Err::<bool, ErrorView>(
            ErrorView::VarTypeMismatch(other, VariableView::Num(a)),
        ),
{
}

/// Equality gives the same answer in both orders: where two values can be
/// compared one way they can be compared the other way, with the same
/// result.
pub proof fn lemma_equality_symmetric(a: VariableView, b: VariableView)
    ensures
        equal_values(a, b) is Ok ==> equal_values(b, a) == equal_values(a, b),
        equal_values(a, b) is Err ==> equal_values(b, a) is Err,
    decreases a,
{
    match (a, b) {
        (VariableView::Array(x), VariableView::Array(y)) => {
            if x.len() == y.len() {
                lemma_equality_symmetric_from(x, y, 0);
            }
        },
        _ => {},
    }
}

/// Comparing two arrays of one length from a place on gives the same answer
/// in both orders.
pub proof fn lemma_equality_symmetric_from(x: Seq<VariableView>, y: Seq<VariableView>, i: int)
    requires
        x.len() == y.len(),
        0 <= i <= x.len(),
    ensures
        equal_from(x, y, i) is Ok ==> equal_from(y, x, i) == equal_from(x, y, i),
        equal_from(x, y, i) is Err ==> equal_from(y, x, i) is Err,
    decreases x, x.len() - i,
{
    if i < x.len() {
        lemma_equality_symmetric(x[i], y[i]);
        lemma_equality_symmetric_from(x, y, i + 1);
    }
}

} // verus!
