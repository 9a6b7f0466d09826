//! The evaluator: it walks the body of a function statement by statement,
//! against one scope that every call and every block shares.

use crate::data_types::{lemma_array_view, variables_view, Variable, VariableView};
use crate::errors::{Error, ErrorView};
use crate::nodes::{lemma_node_view, nodes_view, opt_view, Node, NodeView};
use crate::natives::call_native;
use crate::parser::find_other;
use crate::scope::Scope;
use crate::semantics::{
    at, block_spec, bound_from, call_refusal, call_spec, entered, entry_argument, for_spec,
    function_example, left, list_spec, name_of, native_outcome, nested_spec, node_spec,
    program_scope,
    program_spec, statement_spec, stored, while_spec, FlowView, State,
};
use crate::std_lib::{construct_lib, load_capability};
use crate::tokens::{Token, TokenView};
use vstd::prelude::*;
use vstd::string::StringExecFns;

verus! {

/// The program that embeds the evaluator. It runs the native functions that
/// scripts call by name.
pub trait Host {
    /// Runs the native function `name` on `args`. The function may read and
    /// change the scope of the running script.
    fn call(&mut self, name: &str, args: Vec<Variable>, scope: &mut Scope) -> Result<
        Variable,
        Error,
    >;
}

/// A host without native functions: every call of one fails, because the
/// name stands for nothing.
pub struct NoNatives;

impl Host for NoNatives {
    fn call(&mut self, name: &str, args: Vec<Variable>, scope: &mut Scope) -> (r: Result<
        Variable,
        Error,
    >)
        ensures
            r is Err,
            r->Err_0@ == ErrorView::NonexistentVar(name@),
            final(scope)@ == old(scope)@,
    {
        Err(Error::NonexistentVar(String::from_str(name)))
    }
}

/// What an evaluation may still use up: the number of steps it may take, and
/// the number of calls and blocks that may be open at once.
#[derive(Clone, Copy, Debug)]
pub struct Budget {
    pub steps: u64,
    pub depth: usize,
}

impl Budget {
    /// A budget of the given size.
    pub fn new(steps: u64, depth: usize) -> (r: Budget)
        ensures
            r.steps == steps,
            r.depth == depth,
    {
        Budget { steps, depth }
    }

    /// Takes one step and opens one level. Fails, and changes nothing, when
    /// no step or no level is left.
    pub fn enter(&mut self) -> (r: Result<(), Error>)
        ensures
            match entered(*old(self)) {
                Some(b) => r is Ok && *final(self) == b,
                None => r is Err && r->Err_0@ == ErrorView::TooDeep && *final(self) == *old(self),
            },
    {
        if self.steps == 0 || self.depth == 0 {
            return Err(Error::TooDeep);
        }
        self.steps = self.steps - 1;
        self.depth = self.depth - 1;
        Ok(())
    }

    /// Closes one level.
    pub fn leave(&mut self)
        ensures
            *final(self) == left(*old(self)),
    {
        if self.depth < usize::MAX {
            self.depth = self.depth + 1;
        }
    }
}

/// The name that a node holds, if it is a single name.
pub fn ident_of(n: &Node) -> (r: Option<&String>)
    ensures
        match (name_of(n@), r) {
            (Some(name), Some(s)) => s@ == name,
            (None, None) => true,
            _ => false,
        },
{
    proof {
        lemma_node_view(*n);
    }
    match n {
        Node::Term(Token::Ident(name)) => Some(name),
        _ => None,
    }
}

/// Whether `s` is the word `w`.
pub fn is_word(s: &String, w: &str) -> (r: bool)
    ensures
        r == (s@ == w@),
{
    let t = String::from_str(w);
    *s == t
}

/// Decides whether a call can begin: see [`call_refusal`].
pub fn check_call(func: &Option<Variable>, given: usize) -> (r: Option<Error>)
    ensures
        match (call_refusal(callee_view(*func), given as nat), r) {
            (Some(e), Some(f)) => f@ == e,
            (None, None) => true,
            _ => false,
        },
{
    match func {
        None => Some(
            Error::NonexistentVar(String::from_str("Name unknown, originated in a function call")),
        ),
        Some(Variable::NativeFunction(_)) => None,
        Some(Variable::Function(node)) => {
            proof {
                lemma_node_view(*node);
            }
            match node {
                Node::FunctionDecl { name, args, nodes } => {
                    if args.len() != given {
                        Some(Error::IncorrectArgCount(args.len(), given))
                    } else {
                        match find_other(args) {
                            Some(bad) => Some(Error::UnexpectedNode(Some(bad))),
                            None => None,
                        }
                    }
                },
                other => Some(Error::UnexpectedNode(Some(other.copy()))),
            }
        },
        Some(other) => {
            Some(Error::VarTypeMismatch(a_function(), other.copy()))
        },
    }
}

/// The value that stands for "a function" in messages.
pub fn a_function() -> (r: Variable)
    ensures
        r@ == function_example(),
{
    let items: Vec<Node> = Vec::new();
    let node = Node::Array(items);
    proof {
        lemma_node_view(node);
        assert(nodes_view(items@) =~= Seq::<NodeView>::empty());
    }
    Variable::Function(node)
}

/// The view of an optional callee.
pub open spec fn callee_view(func: Option<Variable>) -> Option<VariableView> {
    match func {
        Some(v) => Some(v@),
        None => None,
    }
}

/// Binds the parameters to the arguments at the same positions, from left
/// to right. A parameter that is no name binds nothing.
pub fn bind_params(params: &Vec<Node>, args: &Vec<Variable>, scope: &mut Scope)
    ensures
        final(scope)@ == bound_from(old(scope)@, nodes_view(params@), variables_view(args@), 0),
{
    let ghost ps = nodes_view(params@);
    let ghost vs = variables_view(args@);
    let mut k: usize = 0;
    while k < params.len() && k < args.len()
        invariant
            ps == nodes_view(params@),
            vs == variables_view(args@),
            bound_from(old(scope)@, ps, vs, 0) == bound_from(scope@, ps, vs, k as int),
        decreases params.len() - k,
    {
        assert(ps[k as int] == params@[k as int]@);
        assert(vs[k as int] == args@[k as int]@);
        match ident_of(&params[k]) {
            Some(name) => {
                scope.insert(name.clone(), args[k].copy());
            },
            None => {},
        }
        k += 1;
    }
}

/// The view of what a host answered.
pub open spec fn answer_view(answer: Result<Variable, Error>) -> Result<VariableView, ErrorView> {
    match answer {
        Ok(v) => Ok(v@),
        Err(e) => Err(e@),
    }
}

/// Ends a call of a native function with what the host answered: a value is
/// stored under the target of the call, if it has one, and returned; an error
/// is passed on and leaves the scope as the host left it.
pub fn finish_native(scope: &mut Scope, target: &Option<String>, answer: Result<Variable, Error>) -> (r:
    Result<Variable, Error>)
    ensures
        answer_view(r) == native_outcome(old(scope)@, opt_view(*target), answer_view(answer)).0,
        final(scope)@ == native_outcome(old(scope)@, opt_view(*target), answer_view(answer)).1,
{
    match answer {
        Ok(result) => {
            store_result(scope, target, &result);
            Ok(result)
        },
        Err(e) => Err(e),
    }
}

/// Stores the result of a call under its target, if it has one.
pub fn store_result(scope: &mut Scope, target: &Option<String>, value: &Variable)
    ensures
        final(scope)@ == stored(old(scope)@, opt_view(*target), value@),
{
    match target {
        Some(name) => {
            scope.insert(name.clone(), value.copy());
        },
        None => {},
    }
}

/// How a statement ends: the next statement starts at the given position,
/// or the function returns the given value.
#[derive(Debug)]
pub enum Flow {
    Next(usize),
    Return(Variable),
}

/// The state that a scope and a budget make up.
pub open spec fn state_of(scope: Map<Seq<char>, VariableView>, budget: Budget) -> State {
    State { scope: scope, budget: budget }
}

/// A value and a state are those that the model of the evaluation gives, as
/// far as it gives any.
pub open spec fn value_agrees(
    spec: Option<Result<(VariableView, State), ErrorView>>,
    r: Result<Variable, Error>,
    scope: Map<Seq<char>, VariableView>,
    budget: Budget,
) -> bool {
    match spec {
        Some(Ok((v, s))) => r is Ok && r->Ok_0@ == v && scope == s.scope && budget == s.budget,
        Some(Err(e)) => r is Err && r->Err_0@ == e,
        None => true,
    }
}

/// A list of values and a state are those that the model of the evaluation
/// gives, as far as it gives any.
pub open spec fn values_agree(
    spec: Option<Result<(Seq<VariableView>, State), ErrorView>>,
    r: Result<Vec<Variable>, Error>,
    scope: Map<Seq<char>, VariableView>,
    budget: Budget,
) -> bool {
    match spec {
        Some(Ok((v, s))) => r is Ok && variables_view(r->Ok_0@) == v && scope == s.scope && budget
            == s.budget,
        Some(Err(e)) => r is Err && r->Err_0@ == e,
        None => true,
    }
}

/// A state is the one that the model of the evaluation gives, as far as it
/// gives one.
pub open spec fn state_agrees(
    spec: Option<Result<State, ErrorView>>,
    r: Result<(), Error>,
    scope: Map<Seq<char>, VariableView>,
    budget: Budget,
) -> bool {
    match spec {
        Some(Ok(s)) => r is Ok && scope == s.scope && budget == s.budget,
        Some(Err(e)) => r is Err && r->Err_0@ == e,
        None => true,
    }
}

/// The end of a statement and a state are those that the model of the
/// evaluation gives, as far as it gives any.
pub open spec fn flow_agrees(
    spec: Option<Result<(FlowView, State), ErrorView>>,
    r: Result<Flow, Error>,
    scope: Map<Seq<char>, VariableView>,
    budget: Budget,
) -> bool {
    match spec {
        Some(Ok((FlowView::Next(j), s))) => r is Ok && r->Ok_0 is Next && r->Ok_0->Next_0 == j
            && scope == s.scope && budget == s.budget,
        Some(Ok((FlowView::Return(v), s))) => r is Ok && r->Ok_0 is Return && r->Ok_0->Return_0@
            == v && scope == s.scope && budget == s.budget,
        Some(Err(e)) => r is Err && r->Err_0@ == e,
        None => true,
    }
}

fn copy_target(target: &Option<String>) -> (r: Option<String>)
    ensures
        opt_view(r) == opt_view(*target),
{
    match target {
        Some(name) => Some(name.clone()),
        None => None,
    }
}

/// A copy of the node at position `i`, or `None` past the end.
fn node_copy(nodes: &Vec<Node>, i: usize) -> (r: Option<Node>)
    ensures
        r is Some == (i < nodes.len()),
        r is Some ==> r->0@ == nodes@[i as int]@,
{
    if i < nodes.len() {
        Some(nodes[i].copy())
    } else {
        None
    }
}

/// The error for a node that stands where a statement needs something else:
/// the node is unexpected, and so is the end of the input.
fn unexpected(nodes: &Vec<Node>, i: usize) -> (r: Error)
    ensures
        r@ == ErrorView::UnexpectedNode(at(nodes_view(nodes@), i as int)),
{
    Error::UnexpectedNode(node_copy(nodes, i))
}

/// The content of the block at position `i`, if one stands there.
fn block_of(nodes: &Vec<Node>, i: usize) -> (r: Option<&Vec<Node>>)
    ensures
        r is Some == (i < nodes.len() && nodes@[i as int]@ is Block),
        r is Some ==> nodes@[i as int]@ == NodeView::Block(nodes_view(r->0@)),
{
    if i >= nodes.len() {
        return None;
    }
    proof {
        lemma_node_view(nodes@[i as int]);
    }
    match &nodes[i] {
        Node::Block(inner) => Some(inner),
        _ => None,
    }
}

fn is_for_assigner(n: &Node) -> (r: bool)
    ensures
        r == (n@ == NodeView::Term(TokenView::ForAssigner)),
{
    proof {
        lemma_node_view(*n);
    }
    match n {
        Node::Term(Token::ForAssigner) => true,
        _ => false,
    }
}

/// Evaluates each node of a list, from left to right.
fn eval_list<H: Host>(nodes: &Vec<Node>, scope: &mut Scope, host: &mut H, budget: &mut Budget) -> (r:
    Result<Vec<Variable>, Error>)
    ensures
        final(budget).steps <= old(budget).steps,
        values_agree(
            list_spec(nodes_view(nodes@), 0, Seq::empty(), state_of(old(scope)@, *old(budget))),
            r,
            final(scope)@,
            *final(budget),
        ),
    decreases old(budget).steps, 2nat,
{
    let ghost all = nodes_view(nodes@);
    let ghost whole = list_spec(all, 0, Seq::empty(), state_of(old(scope)@, *old(budget)));
    let mut out: Vec<Variable> = Vec::new();
    let mut i: usize = 0;
    assert(variables_view(out@) =~= Seq::<VariableView>::empty());
    while i < nodes.len()
        invariant
            i <= nodes.len(),
            all == nodes_view(nodes@),
            budget.steps <= old(budget).steps,
            whole == list_spec(all, 0, Seq::empty(), state_of(old(scope)@, *old(budget))),
            whole is Some ==> whole == list_spec(
                all,
                i as int,
                variables_view(out@),
                state_of(scope@, *budget),
            ),
        decreases nodes.len() - i,
    {
        assert(all[i as int] == nodes@[i as int]@);
        let ghost before = variables_view(out@);
        match eval_node(&nodes[i], scope, host, budget) {
            Ok(v) => {
                out.push(v);
                assert(variables_view(out@) =~= before.push(v@));
            },
            Err(e) => {
                return Err(e);
            },
        }
        i += 1;
    }
    Ok(out)
}

/// Evaluates one node to a value. A name is looked up in the scope, a
/// literal stands for itself, the elements of an array literal are
/// evaluated in turn, and a call is carried out and replaced by its result.
fn eval_node<H: Host>(node: &Node, scope: &mut Scope, host: &mut H, budget: &mut Budget) -> (r:
    Result<Variable, Error>)
    ensures
        final(budget).steps <= old(budget).steps,
        value_agrees(
            node_spec(node@, state_of(old(scope)@, *old(budget))),
            r,
            final(scope)@,
            *final(budget),
        ),
    decreases old(budget).steps, 1nat,
{
    proof {
        lemma_node_view(*node);
    }
    match node {
        Node::Term(Token::Ident(name)) => scope.lookup(name.as_str()),
        Node::Term(Token::Str(s)) => Ok(Variable::Str(s.clone())),
        Node::Term(Token::Num(n)) => Ok(Variable::Num(n.copy())),
        Node::Array(items) => {
            match budget.enter() {
                Err(e) => {
                    return Err(e);
                },
                Ok(_) => {},
            }
            let values = match eval_list(items, scope, host, budget) {
                Ok(values) => values,
                Err(e) => {
                    return Err(e);
                },
            };
            budget.leave();
            proof {
                lemma_array_view(values);
            }
            Ok(Variable::Array(values))
        },
        Node::CallExpr { name, args, assign_to } => {
            match budget.enter() {
                Err(e) => {
                    return Err(e);
                },
                Ok(_) => {},
            }
            let values = match eval_list(args, scope, host, budget) {
                Ok(values) => values,
                Err(e) => {
                    return Err(e);
                },
            };
            budget.leave();
            let callee = match scope.lookup(name.as_str()) {
                Ok(callee) => callee,
                Err(e) => {
                    return Err(e);
                },
            };
            run(Some(callee), scope, values, copy_target(assign_to), host, budget)
        },
        other => Err(Error::UnexpectedNode(Some(other.copy()))),
    }
}

/// Runs a block as a nested call without parameters, on the same scope. What
/// the block returns is dropped.
fn run_nested<H: Host>(block: &Vec<Node>, scope: &mut Scope, host: &mut H, budget: &mut Budget) -> (r:
    Result<(), Error>)
    ensures
        final(budget).steps <= old(budget).steps,
        r is Ok ==> final(budget).steps < old(budget).steps,
        state_agrees(
            nested_spec(nodes_view(block@), state_of(old(scope)@, *old(budget))),
            r,
            final(scope)@,
            *final(budget),
        ),
    decreases old(budget).steps, 0nat,
{
    match budget.enter() {
        Err(e) => {
            return Err(e);
        },
        Ok(_) => {},
    }
    match exec_block(block, scope, host, budget) {
        Err(e) => {
            return Err(e);
        },
        Ok(_) => {},
    }
    budget.leave();
    Ok(())
}

/// Runs the block once for each element, in order, with the element bound
/// to `target`.
fn run_for<H: Host>(
    items: &Vec<Variable>,
    target: &String,
    block: &Vec<Node>,
    scope: &mut Scope,
    host: &mut H,
    budget: &mut Budget,
) -> (r: Result<(), Error>)
    ensures
        final(budget).steps <= old(budget).steps,
        state_agrees(
            for_spec(
                variables_view(items@),
                0,
                target@,
                nodes_view(block@),
                state_of(old(scope)@, *old(budget)),
            ),
            r,
            final(scope)@,
            *final(budget),
        ),
    decreases old(budget).steps, 3nat,
{
    let ghost all = variables_view(items@);
    let ghost body = nodes_view(block@);
    let ghost whole = for_spec(all, 0, target@, body, state_of(old(scope)@, *old(budget)));
    let mut k: usize = 0;
    while k < items.len()
        invariant
            k <= items.len(),
            all == variables_view(items@),
            body == nodes_view(block@),
            budget.steps <= old(budget).steps,
            whole == for_spec(all, 0, target@, body, state_of(old(scope)@, *old(budget))),
            whole is Some ==> whole == for_spec(
                all,
                k as int,
                target@,
                body,
                state_of(scope@, *budget),
            ),
        decreases items.len() - k,
    {
        assert(all[k as int] == items@[k as int]@);
        scope.insert(target.clone(), items[k].copy());
        match run_nested(block, scope, host, budget) {
            Ok(_) => {},
            Err(e) => {
                return Err(e);
            },
        }
        k += 1;
    }
    Ok(())
}

/// Runs the block for as long as the condition evaluates to `true`.
fn run_while<H: Host>(
    cond: &Node,
    block: &Vec<Node>,
    scope: &mut Scope,
    host: &mut H,
    budget: &mut Budget,
) -> (r: Result<(), Error>)
    ensures
        final(budget).steps <= old(budget).steps,
        state_agrees(
            while_spec(cond@, nodes_view(block@), state_of(old(scope)@, *old(budget))),
            r,
            final(scope)@,
            *final(budget),
        ),
    decreases old(budget).steps, 3nat,
{
    let ghost body = nodes_view(block@);
    let ghost whole = while_spec(cond@, body, state_of(old(scope)@, *old(budget)));
    loop
        invariant
            body == nodes_view(block@),
            budget.steps <= old(budget).steps,
            whole == while_spec(cond@, body, state_of(old(scope)@, *old(budget))),
            whole is Some ==> whole == while_spec(cond@, body, state_of(scope@, *budget)),
        decreases budget.steps,
    {
        let value = match eval_node(cond, scope, host, budget) {
            Ok(value) => value,
            Err(e) => {
                return Err(e);
            },
        };
        match value {
            Variable::Bool(true) => {},
            Variable::Bool(false) => {
                return Ok(());
            },
            other => {
                return Err(Error::VarTypeMismatch(Variable::Bool(true), other));
            },
        }
        match run_nested(block, scope, host, budget) {
            Ok(_) => {},
            Err(e) => {
                return Err(e);
            },
        }
    }
}

/// Carries out the statement that starts at position `i`.
fn exec_statement<H: Host>(
    nodes: &Vec<Node>,
    i: usize,
    scope: &mut Scope,
    host: &mut H,
    budget: &mut Budget,
) -> (r: Result<Flow, Error>)
    requires
        i < nodes.len(),
    ensures
        final(budget).steps <= old(budget).steps,
        match r {
            Ok(Flow::Next(j)) => i < j <= nodes.len(),
            _ => true,
        },
        flow_agrees(
            statement_spec(nodes_view(nodes@), i as int, state_of(old(scope)@, *old(budget))),
            r,
            final(scope)@,
            *final(budget),
        ),
    decreases old(budget).steps, 4nat,
{
    let ghost all = nodes_view(nodes@);
    let left: usize = nodes.len() - i;
    assert(all[i as int] == nodes@[i as int]@);
    proof {
        lemma_node_view(nodes@[i as int]);
        if left >= 2 {
            assert(all[i + 1] == nodes@[i + 1]@);
            lemma_node_view(nodes@[i + 1]);
        }
        if left >= 3 {
            assert(all[i + 2] == nodes@[i + 2]@);
            lemma_node_view(nodes@[i + 2]);
        }
        if left >= 4 {
            assert(all[i + 3] == nodes@[i + 3]@);
        }
        if left >= 5 {
            assert(all[i + 4] == nodes@[i + 4]@);
        }
    }
    match &nodes[i] {
        Node::Term(Token::Ident(word)) => {
            if is_word(word, "decl") {
                if left < 2 {
                    return Err(unexpected(nodes, nodes.len()));
                }
                let target = match ident_of(&nodes[i + 1]) {
                    Some(name) => name,
                    None => {
                        return Err(unexpected(nodes, i + 1));
                    },
                };
                if left < 3 {
                    return Err(unexpected(nodes, nodes.len()));
                }
                let value = match eval_node(&nodes[i + 2], scope, host, budget) {
                    Ok(value) => value,
                    Err(e) => {
                        return Err(e);
                    },
                };
                scope.insert(target.clone(), value);
                Ok(Flow::Next(i + 3))
            } else if is_word(word, "del") {
                if left < 2 {
                    return Err(Error::EOF);
                }
                match ident_of(&nodes[i + 1]) {
                    Some(name) => {
                        scope.remove(name.as_str());
                        Ok(Flow::Next(i + 2))
                    },
                    None => Err(unexpected(nodes, i + 1)),
                }
            } else if is_word(word, "return") {
                if left < 2 {
                    return Err(unexpected(nodes, nodes.len()));
                }
                match &nodes[i + 1] {
                    Node::Term(Token::Ident(name)) => match scope.lookup(name.as_str()) {
                        Ok(v) => Ok(Flow::Return(v)),
                        Err(e) => Err(e),
                    },
                    Node::Term(token) => match token.copy().as_var() {
                        Ok(v) => Ok(Flow::Return(v)),
                        Err(e) => Err(e),
                    },
                    Node::Array(items) => match eval_list(items, scope, host, budget) {
                        Ok(values) => {
                            proof {
                                lemma_array_view(values);
                            }
                            Ok(Flow::Return(Variable::Array(values)))
                        },
                        Err(e) => Err(e),
                    },
                    _ => Err(unexpected(nodes, i + 1)),
                }
            } else if is_word(word, "use") {
                if left < 2 {
                    return Err(Error::EOF);
                }
                match ident_of(&nodes[i + 1]) {
                    Some(name) => match load_capability(name, scope) {
                        Ok(_) => Ok(Flow::Next(i + 2)),
                        Err(e) => Err(e),
                    },
                    None => Err(Error::UnknownLib(nodes[i + 1].copy())),
                }
            } else if is_word(word, "if") {
                if left < 2 {
                    return Err(Error::EOF);
                }
                let cond = match eval_node(&nodes[i + 1], scope, host, budget) {
                    Ok(cond) => cond,
                    Err(e) => {
                        return Err(e);
                    },
                };
                let taken = match cond {
                    Variable::Bool(b) => b,
                    other => {
                        return Err(Error::VarTypeMismatch(Variable::Bool(true), other));
                    },
                };
                let block = match block_of(nodes, i + 2) {
                    Some(block) => block,
                    None => {
                        return Err(unexpected(nodes, i + 2));
                    },
                };
                if taken {
                    match run_nested(block, scope, host, budget) {
                        Ok(_) => {},
                        Err(e) => {
                            return Err(e);
                        },
                    }
                }
                Ok(Flow::Next(i + 3))
            } else if is_word(word, "for") {
                if left < 2 {
                    return Err(Error::EOF);
                }
                let source = match eval_node(&nodes[i + 1], scope, host, budget) {
                    Ok(source) => source,
                    Err(e) => {
                        return Err(e);
                    },
                };
                let items = match source {
                    Variable::Array(items) => {
                        proof {
                            lemma_array_view(items);
                        }
                        items
                    },
                    other => {
                        let none: Vec<Variable> = Vec::new();
                        proof {
                            lemma_array_view(none);
                            assert(variables_view(none@) =~= Seq::<VariableView>::empty());
                        }
                        return Err(Error::VarTypeMismatch(Variable::Array(none), other));
                    },
                };
                if left < 3 {
                    return Err(Error::EOF);
                }
                if !is_for_assigner(&nodes[i + 2]) {
                    return Err(unexpected(nodes, i + 2));
                }
                if left < 4 {
                    return Err(Error::EOF);
                }
                let target = match ident_of(&nodes[i + 3]) {
                    Some(name) => name,
                    None => {
                        return Err(unexpected(nodes, i + 3));
                    },
                };
                if left < 5 {
                    return Err(Error::EOF);
                }
                let block = match block_of(nodes, i + 4) {
                    Some(block) => block,
                    None => {
                        return Err(unexpected(nodes, i + 4));
                    },
                };
                match run_for(&items, target, block, scope, host, budget) {
                    Ok(_) => Ok(Flow::Next(i + 5)),
                    Err(e) => Err(e),
                }
            } else if is_word(word, "while") {
                if left < 3 {
                    return Err(Error::EOF);
                }
                let block = match block_of(nodes, i + 2) {
                    Some(block) => block,
                    None => {
                        return Err(unexpected(nodes, i + 2));
                    },
                };
                match run_while(&nodes[i + 1], block, scope, host, budget) {
                    Ok(_) => Ok(Flow::Next(i + 3)),
                    Err(e) => Err(e),
                }
            } else {
                Err(Error::UnknownKeyword(word.clone()))
            }
        },
        Node::CallExpr { name, args, assign_to } => {
            let callee = match scope.get(name.as_str()) {
                Some(callee) => callee,
                None => {
                    return Err(Error::NonexistentVar(name.clone()));
                },
            };
            match &callee {
                Variable::Function(_) => {},
                Variable::NativeFunction(_) => {},
                _ => {
                    return Err(Error::VarTypeMismatch(a_function(), callee));
                },
            }
            let values = match eval_list(args, scope, host, budget) {
                Ok(values) => values,
                Err(e) => {
                    return Err(e);
                },
            };
            match run(Some(callee), scope, values, copy_target(assign_to), host, budget) {
                Ok(_) => Ok(Flow::Next(i + 1)),
                Err(e) => Err(e),
            }
        },
        _ => Err(unexpected(nodes, i)),
    }
}

/// Carries out the statements of a body in order. The value of the first
/// `return` that is reached is the result; a body that ends without one
/// gives the empty value.
fn exec_block<H: Host>(nodes: &Vec<Node>, scope: &mut Scope, host: &mut H, budget: &mut Budget) -> (r:
    Result<Variable, Error>)
    ensures
        final(budget).steps <= old(budget).steps,
        value_agrees(
            block_spec(nodes_view(nodes@), 0, state_of(old(scope)@, *old(budget))),
            r,
            final(scope)@,
            *final(budget),
        ),
    decreases old(budget).steps, 5nat,
{
    let ghost all = nodes_view(nodes@);
    let ghost whole = block_spec(all, 0, state_of(old(scope)@, *old(budget)));
    let mut i: usize = 0;
    while i < nodes.len()
        invariant
            i <= nodes.len(),
            all == nodes_view(nodes@),
            budget.steps <= old(budget).steps,
            whole == block_spec(all, 0, state_of(old(scope)@, *old(budget))),
            whole is Some ==> whole == block_spec(all, i as int, state_of(scope@, *budget)),
        decreases nodes.len() - i,
    {
        match exec_statement(nodes, i, scope, host, budget) {
            Ok(Flow::Next(j)) => {
                i = j;
            },
            Ok(Flow::Return(v)) => {
                return Ok(v);
            },
            Err(e) => {
                return Err(e);
            },
        }
    }
    Ok(Variable::Void)
}

/// Calls `func` with `args` on the given scope.
///
/// A native function that works on values alone is the library's own (see
/// [`call_native`]). Any other native function is handed to the host by its
/// name, with the arguments and the live scope. Either way the answer ends
/// the call as [`finish_native`] says. A declared function must get exactly as many arguments as it has
/// parameters; they are bound in the scope from left to right, and the body
/// runs against that same scope. The result is stored under `assign_to`, if
/// given, and returned.
///
/// A call that is refused (see [`call_refusal`]) leaves the scope and the
/// budget as they were. As long as no native function of the host is
/// reached, the result, the scope and the budget are those that [`call_spec`]
/// gives; from the first call of the host on, the host decides.
pub fn run<H: Host>(
    func: Option<Variable>,
    variables: &mut Scope,
    args: Vec<Variable>,
    assign_to: Option<String>,
    host: &mut H,
    budget: &mut Budget,
) -> (r: Result<Variable, Error>)
    ensures
        final(budget).steps <= old(budget).steps,
        call_refusal(callee_view(func), args@.len()) is Some ==> final(variables)@ == old(
            variables,
        )@ && *final(budget) == *old(budget),
        value_agrees(
            call_spec(
                callee_view(func),
                variables_view(args@),
                opt_view(assign_to),
                state_of(old(variables)@, *old(budget)),
            ),
            r,
            final(variables)@,
            *final(budget),
        ),
    decreases old(budget).steps, 0nat,
{
    match check_call(&func, args.len()) {
        Some(e) => {
            return Err(e);
        },
        None => {},
    }
    match func {
        Some(Variable::NativeFunction(name)) => {
            let answer = match call_native(name.as_str(), &args) {
                Some(answer) => answer,
                None => host.call(name.as_str(), args, variables),
            };
            finish_native(variables, &assign_to, answer)
        },
        Some(Variable::Function(Node::FunctionDecl { name, args: params, nodes })) => {
            proof {
                lemma_node_view(func->0->Function_0);
            }
            match budget.enter() {
                Err(e) => {
                    return Err(e);
                },
                Ok(_) => {},
            }
            bind_params(&params, &args, variables);
            let result = match exec_block(&nodes, variables, host, budget) {
                Ok(result) => result,
                Err(e) => {
                    return Err(e);
                },
            };
            budget.leave();
            store_result(variables, &assign_to, &result);
            Ok(result)
        },
        _ => Err(Error::EOF),
    }
}

/// Evaluates the nodes of an argument list, from left to right. A name is
/// looked up in the scope, a literal stands for itself, the elements of an
/// array literal are evaluated in turn, and a call is carried out and
/// replaced by its result.
///
/// As long as no native function of the host is reached, the values, the
/// scope and the budget are those that [`list_spec`] gives.
pub fn into_var<H: Host>(
    args: Vec<Node>,
    variables: &mut Scope,
    host: &mut H,
    budget: &mut Budget,
) -> (r: Result<Vec<Variable>, Error>)
    ensures
        final(budget).steps <= old(budget).steps,
        values_agree(
            list_spec(nodes_view(args@), 0, Seq::empty(), state_of(old(variables)@, *old(budget))),
            r,
            final(variables)@,
            *final(budget),
        ),
{
    eval_list(&args, variables, host, budget)
}

/// Takes the top-level nodes of a program into the scope: see
/// [`program_scope`].
pub fn load_program(nodes: &Vec<Node>, scope: &mut Scope) -> (r: Result<(), Error>)
    ensures
        match program_scope(nodes_view(nodes@), 0, old(scope)@) {
            Ok(after) => r is Ok && final(scope)@ == after,
            Err(e) => r is Err && r->Err_0@ == e,
        },
{
    let ghost all = nodes_view(nodes@);
    let mut i: usize = 0;
    while i < nodes.len()
        invariant
            i <= nodes.len(),
            all == nodes_view(nodes@),
            program_scope(all, 0, old(scope)@) == program_scope(all, i as int, scope@),
        decreases nodes.len() - i,
    {
        assert(all[i as int] == nodes@[i as int]@);
        proof {
            lemma_node_view(nodes@[i as int]);
        }
        match &nodes[i] {
            Node::FunctionDecl { name, args, nodes: body } => {
                scope.insert(name.clone(), Variable::Function(nodes[i].copy()));
                i += 1;
            },
            Node::Term(Token::Ident(word)) => {
                if !is_word(word, "use") {
                    return Err(Error::UnexpectedNode(Some(nodes[i].copy())));
                }
                if nodes.len() - i < 2 {
                    return Err(Error::EOF);
                }
                assert(all[i + 1] == nodes@[i + 1]@);
                match ident_of(&nodes[i + 1]) {
                    Some(lib) => match load_capability(lib, scope) {
                        Ok(_) => {},
                        Err(e) => {
                            return Err(e);
                        },
                    },
                    None => {
                        return Err(Error::UnknownLib(nodes[i + 1].copy()));
                    },
                }
                i += 2;
            },
            other => {
                return Err(Error::UnexpectedNode(Some(other.copy())));
            },
        }
    }
    Ok(())
}

fn entry_value(args: &Vec<String>) -> (r: Variable)
    ensures
        r@ == entry_argument(args@),
{
    let mut items: Vec<Variable> = Vec::new();
    let mut i: usize = 0;
    while i < args.len()
        invariant
            i <= args.len(),
            items@.len() == i,
            forall|k: int| 0 <= k < i ==> items@[k]@ == VariableView::Str(args@[k]@),
        decreases args.len() - i,
    {
        items.push(Variable::Str(args[i].clone()));
        i += 1;
    }
    proof {
        lemma_array_view(items);
        assert(variables_view(items@) =~= entry_argument(args@)->Array_0);
    }
    Variable::Array(items)
}

/// Runs a program: the top-level nodes are taken into the initial scope,
/// then the function called `main` is taken out of the scope and called once
/// with a single argument, the array of the arguments of the process.
///
/// A fault in the top-level nodes is reported as it is. A program without
/// `main` fails with [`Error::NoMain`]. If the call of `main` is refused,
/// that is the error; so a `main` that does not declare exactly one
/// parameter fails with the number expected and the number found.
pub fn interpret<H: Host>(
    nodes: Vec<Node>,
    args: Vec<String>,
    host: &mut H,
    budget: &mut Budget,
) -> (r: Result<(), Error>)
    ensures
        final(budget).steps <= old(budget).steps,
        match program_spec(nodes_view(nodes@), args@, *old(budget)) {
            Some(Ok(b)) => r is Ok && *final(budget) == b,
            Some(Err(e)) => r is Err && r->Err_0@ == e,
            None => true,
        },
{
    let mut variables = construct_lib();
    match load_program(&nodes, &mut variables) {
        Ok(_) => {},
        Err(e) => {
            return Err(e);
        },
    }
    let main = match variables.get("main") {
        Some(main) => main,
        None => {
            return Err(Error::NoMain);
        },
    };
    variables.remove("main");
    let mut call_args: Vec<Variable> = Vec::new();
    call_args.push(entry_value(&args));
    assert(variables_view(call_args@) =~= seq![entry_argument(args@)]);
    match run(Some(main), &mut variables, call_args, None, host, budget) {
        Ok(_) => Ok(()),
        Err(e) => Err(e),
    }
}

} // verus!
