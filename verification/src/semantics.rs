//! What evaluation means: a model of the evaluator as far as the scripts
//! and the library's own native functions decide what happens. Where a
//! script reaches a native function of the host, the host decides, and the
//! model gives nothing.

use crate::data_types::VariableView;
use crate::errors::ErrorView;
use crate::interpreter::Budget;
use crate::natives::native_model;
use crate::nodes::NodeView;
use crate::parser::first_other;
use crate::scope::bound_value;
use crate::std_lib::{initial_scope, loaded};
use crate::tokens::{token_value, TokenView};
use vstd::prelude::*;

verus! {

/// The budget after one step was taken and one level opened; `None` when no
/// step or no level is left.
pub open spec fn entered(b: Budget) -> Option<Budget> {
    if b.steps > 0 && b.depth > 0 {
        Some(Budget { steps: (b.steps - 1) as u64, depth: (b.depth - 1) as usize })
    } else {
        None
    }
}

/// The budget after one level was closed.
pub open spec fn left(b: Budget) -> Budget {
    Budget {
        steps: b.steps,
        depth: if b.depth < usize::MAX {
            (b.depth + 1) as usize
        } else {
            b.depth
        },
    }
}

/// The name that a node holds, if the node is a single name.
pub open spec fn name_of(n: NodeView) -> Option<Seq<char>> {
    match n {
        NodeView::Term(TokenView::Ident(name)) => Some(name),
        _ => None,
    }
}

/// The value that stands for "a function" in a message about a value that
/// cannot be called.
pub open spec fn function_example() -> VariableView {
    VariableView::Function(NodeView::Array(Seq::empty()))
}

/// Why a call is refused before anything is evaluated, if it is. An absent
/// callee is an unknown name. A value that is no function cannot be called.
/// A declared function takes exactly as many arguments as it has parameters:
/// any other number is refused with the number expected and the number
/// found. Its parameters must all be names.
pub open spec fn call_refusal(func: Option<VariableView>, given: nat) -> Option<ErrorView> {
    match func {
        None => Some(ErrorView::NonexistentVar("Name unknown, originated in a function call"@)),
        Some(VariableView::NativeFunction(_)) => None,
        Some(VariableView::Function(NodeView::FunctionDecl { name, args, nodes })) => if args.len()
            != given {
            Some(ErrorView::IncorrectArgCount(args.len() as usize, given as usize))
        } else if first_other(args, 0) is Some {
            Some(ErrorView::UnexpectedNode(first_other(args, 0)))
        } else {
            None
        },
        Some(VariableView::Function(other)) => Some(ErrorView::UnexpectedNode(Some(other))),
        Some(other) => Some(ErrorView::VarTypeMismatch(function_example(), other)),
    }
}

/// The scope after the parameters from position `k` on were bound to the
/// arguments at the same positions, from left to right.
pub open spec fn bound_from(
    scope: Map<Seq<char>, VariableView>,
    params: Seq<NodeView>,
    args: Seq<VariableView>,
    k: int,
) -> Map<Seq<char>, VariableView>
    decreases params.len() - k,
{
    if k < 0 || k >= params.len() || k >= args.len() {
        scope
    } else {
        match name_of(params[k]) {
            Some(name) => bound_from(scope.insert(name, args[k]), params, args, k + 1),
            None => bound_from(scope, params, args, k + 1),
        }
    }
}

/// The scope after `value` was stored under the target of a call, if the
/// call has one.
pub open spec fn stored(
    scope: Map<Seq<char>, VariableView>,
    target: Option<Seq<char>>,
    value: VariableView,
) -> Map<Seq<char>, VariableView> {
    match target {
        Some(name) => scope.insert(name, value),
        None => scope,
    }
}

/// What a call gives once the host has answered: the host's value, stored
/// under the target of the call if it has one, or the host's error.
pub open spec fn native_outcome(
    scope: Map<Seq<char>, VariableView>,
    target: Option<Seq<char>>,
    answer: Result<VariableView, ErrorView>,
) -> (Result<VariableView, ErrorView>, Map<Seq<char>, VariableView>) {
    match answer {
        Ok(v) => (Ok(v), stored(scope, target, v)),
        Err(e) => (Err(e), scope),
    }
}

/// What a running script has: its scope, and what is left of its budget.
pub struct State {
    pub scope: Map<Seq<char>, VariableView>,
    pub budget: Budget,
}

/// How a statement ends: the next statement starts at the given position,
/// or the function returns the given value.
pub enum FlowView {
    Next(int),
    Return(VariableView),
}

/// The state with another budget.
pub open spec fn with_budget(s: State, b: Budget) -> State {
    State { scope: s.scope, budget: b }
}

/// The state with another scope.
pub open spec fn with_scope(s: State, scope: Map<Seq<char>, VariableView>) -> State {
    State { scope: scope, budget: s.budget }
}

/// The value of a node, and the state after it was evaluated. `None` means
/// that the evaluation reaches a native function of the host, so that the
/// host decides how it goes on.
///
/// A name stands for the value bound to it, a string or a number for
/// itself. The elements of an array literal are evaluated from left to
/// right. A call evaluates its arguments, looks up its name and calls what
/// is bound to it. Any other node is unexpected.
pub open spec fn node_spec(n: NodeView, s: State) -> Option<
    Result<(VariableView, State), ErrorView>,
>
    decreases s.budget.steps, 1nat, 0nat,
{
    match n {
        NodeView::Term(TokenView::Ident(name)) => match bound_value(s.scope, name) {
            Ok(v) => Some(Ok((v, s))),
            Err(e) => Some(Err(e)),
        },
        NodeView::Term(TokenView::Str(x)) => Some(Ok((VariableView::Str(x), s))),
        NodeView::Term(TokenView::Num(x)) => Some(Ok((VariableView::Num(x), s))),
        NodeView::Array(items) => match entered(s.budget) {
            None => Some(Err(ErrorView::TooDeep)),
            Some(b) => match list_spec(items, 0, Seq::empty(), with_budget(s, b)) {
                None => None,
                Some(Err(e)) => Some(Err(e)),
                Some(Ok((values, s2))) => Some(
                    Ok((VariableView::Array(values), with_budget(s2, left(s2.budget)))),
                ),
            },
        },
        NodeView::CallExpr { name, args, assign_to } => match entered(s.budget) {
            None => Some(Err(ErrorView::TooDeep)),
            Some(b) => match list_spec(args, 0, Seq::empty(), with_budget(s, b)) {
                None => None,
                Some(Err(e)) => Some(Err(e)),
                Some(Ok((values, s2))) => match bound_value(s2.scope, name) {
                    Err(e) => Some(Err(e)),
                    Ok(callee) => if s2.budget.steps <= s.budget.steps {
                        call_spec(Some(callee), values, assign_to, with_budget(s2, left(s2.budget)))
                    } else {
                        None
                    },
                },
            },
        },
        other => Some(Err(ErrorView::UnexpectedNode(Some(other)))),
    }
}

/// The values of the nodes from position `k` on, after the values in
/// `found`, and the state after all of them were evaluated.
pub open spec fn list_spec(nodes: Seq<NodeView>, k: int, found: Seq<VariableView>, s: State) -> Option<
    Result<(Seq<VariableView>, State), ErrorView>,
>
    decreases s.budget.steps, 2nat, nodes.len() - k,
{
    if k < 0 || k >= nodes.len() {
        Some(Ok((found, s)))
    } else {
        match node_spec(nodes[k], s) {
            None => None,
            Some(Err(e)) => Some(Err(e)),
            Some(Ok((v, s2))) => if s2.budget.steps <= s.budget.steps {
                list_spec(nodes, k + 1, found.push(v), s2)
            } else {
                None
            },
        }
    }
}

/// The result of a call, and the state after it. A call that is refused
/// fails before anything happens. A declared function takes a step and opens
/// a level, binds its parameters and runs its body; the result is stored
/// under the target of the call, if it has one. A native function that works
/// on values alone gives what [`native_model`] says, stored in the same way.
/// Any other native function is the host's: `None`.
pub open spec fn call_spec(
    func: Option<VariableView>,
    args: Seq<VariableView>,
    target: Option<Seq<char>>,
    s: State,
) -> Option<Result<(VariableView, State), ErrorView>>
    decreases s.budget.steps, 0nat, 0nat,
{
    match call_refusal(func, args.len()) {
        Some(e) => Some(Err(e)),
        None => match func {
            Some(VariableView::Function(NodeView::FunctionDecl { name, args: params, nodes })) => match entered(
                s.budget,
            ) {
                None => Some(Err(ErrorView::TooDeep)),
                Some(b) => match block_spec(
                    nodes,
                    0,
                    State { scope: bound_from(s.scope, params, args, 0), budget: b },
                ) {
                    None => None,
                    Some(Err(e)) => Some(Err(e)),
                    Some(Ok((v, s2))) => Some(
                        Ok(
                            (
                                v,
                                State {
                                    scope: stored(s2.scope, target, v),
                                    budget: left(s2.budget),
                                },
                            ),
                        ),
                    ),
                },
            },
            Some(VariableView::NativeFunction(name)) => match native_model(name, args) {
                Some(answer) => match native_outcome(s.scope, target, answer) {
                    (Ok(v), scope) => Some(Ok((v, with_scope(s, scope)))),
                    (Err(e), scope) => Some(Err(e)),
                },
                None => None,
            },
            _ => None,
        },
    }
}

/// The state after a block ran as a nested call without parameters, on the
/// same scope. What the block returns is dropped.
pub open spec fn nested_spec(block: Seq<NodeView>, s: State) -> Option<Result<State, ErrorView>>
    decreases s.budget.steps, 0nat, 0nat,
{
    match entered(s.budget) {
        None => Some(Err(ErrorView::TooDeep)),
        Some(b) => match block_spec(block, 0, with_budget(s, b)) {
            None => None,
            Some(Err(e)) => Some(Err(e)),
            Some(Ok((v, s2))) => Some(Ok(with_budget(s2, left(s2.budget)))),
        },
    }
}

/// The result of the statements from position `i` on: the value of the
/// first `return` that is reached, or the empty value at the end.
pub open spec fn block_spec(nodes: Seq<NodeView>, i: int, s: State) -> Option<
    Result<(VariableView, State), ErrorView>,
>
    decreases s.budget.steps, 5nat, nodes.len() - i,
{
    if i < 0 || i >= nodes.len() {
        Some(Ok((VariableView::Void, s)))
    } else {
        match statement_spec(nodes, i, s) {
            None => None,
            Some(Err(e)) => Some(Err(e)),
            Some(Ok((FlowView::Return(v), s2))) => Some(Ok((v, s2))),
            Some(Ok((FlowView::Next(j), s2))) => if i < j <= nodes.len() && s2.budget.steps
                <= s.budget.steps {
                block_spec(nodes, j, s2)
            } else {
                None
            },
        }
    }
}

/// The state after the block ran once for each element from position `k`
/// on, with the element bound to `target`.
pub open spec fn for_spec(
    items: Seq<VariableView>,
    k: int,
    target: Seq<char>,
    block: Seq<NodeView>,
    s: State,
) -> Option<Result<State, ErrorView>>
    decreases s.budget.steps, 3nat, items.len() - k,
{
    if k < 0 || k >= items.len() {
        Some(Ok(s))
    } else {
        match nested_spec(block, with_scope(s, s.scope.insert(target, items[k]))) {
            None => None,
            Some(Err(e)) => Some(Err(e)),
            Some(Ok(s2)) => if s2.budget.steps <= s.budget.steps {
                for_spec(items, k + 1, target, block, s2)
            } else {
                None
            },
        }
    }
}

/// The state after the block ran for as long as the condition gave `true`.
/// A condition that gives no boolean is a type mismatch.
pub open spec fn while_spec(cond: NodeView, block: Seq<NodeView>, s: State) -> Option<
    Result<State, ErrorView>,
>
    decreases s.budget.steps, 3nat, 0nat,
{
    match node_spec(cond, s) {
        None => None,
        Some(Err(e)) => Some(Err(e)),
        Some(Ok((VariableView::Bool(false), s1))) => Some(Ok(s1)),
        Some(Ok((VariableView::Bool(true), s1))) => if s1.budget.steps <= s.budget.steps {
            match nested_spec(block, s1) {
                None => None,
                Some(Err(e)) => Some(Err(e)),
                Some(Ok(s2)) => if s2.budget.steps < s.budget.steps {
                    while_spec(cond, block, s2)
                } else {
                    None
                },
            }
        } else {
            None
        },
        Some(Ok((other, s1))) => Some(
            Err(ErrorView::VarTypeMismatch(VariableView::Bool(true), other)),
        ),
    }
}

/// The node at position `i`, or `None` past the end.
pub open spec fn at(nodes: Seq<NodeView>, i: int) -> Option<NodeView> {
    if 0 <= i < nodes.len() {
        Some(nodes[i])
    } else {
        None
    }
}

/// The statement that starts at position `i`, by its leading node:
///
/// - `decl name value` binds the name to the value;
/// - `del name` removes the binding of the name;
/// - `return value` ends the function with a name's value, a literal, or an
///   array whose elements are evaluated;
/// - `use name` loads a capability;
/// - `if cond block` runs the block if the condition is `true`; the block
///   must be there either way;
/// - `for array => name block` runs the block once for each element;
/// - `while cond block` runs the block as long as the condition is `true`;
/// - a call is carried out, and its result stored under its target.
///
/// Any other word is an unknown keyword, any other node is unexpected.
pub open spec fn statement_spec(nodes: Seq<NodeView>, i: int, s: State) -> Option<
    Result<(FlowView, State), ErrorView>,
>
    decreases s.budget.steps, 4nat, 0nat,
{
    match nodes[i] {
        NodeView::Term(TokenView::Ident(word)) => if word == "decl"@ {
            if at(nodes, i + 1) is None {
                Some(Err(ErrorView::UnexpectedNode(None)))
            } else if name_of(nodes[i + 1]) is None {
                Some(Err(ErrorView::UnexpectedNode(Some(nodes[i + 1]))))
            } else if at(nodes, i + 2) is None {
                Some(Err(ErrorView::UnexpectedNode(None)))
            } else {
                match node_spec(nodes[i + 2], s) {
                    None => None,
                    Some(Err(e)) => Some(Err(e)),
                    Some(Ok((v, s2))) => Some(
                        Ok(
                            (
                                FlowView::Next(i + 3),
                                with_scope(s2, s2.scope.insert(name_of(nodes[i + 1])->0, v)),
                            ),
                        ),
                    ),
                }
            }
        } else if word == "del"@ {
            if at(nodes, i + 1) is None {
                Some(Err(ErrorView::EOF))
            } else {
                match name_of(nodes[i + 1]) {
                    Some(name) => Some(
                        Ok((FlowView::Next(i + 2), with_scope(s, s.scope.remove(name)))),
                    ),
                    None => Some(Err(ErrorView::UnexpectedNode(Some(nodes[i + 1])))),
                }
            }
        } else if word == "return"@ {
            match at(nodes, i + 1) {
                None => Some(Err(ErrorView::UnexpectedNode(None))),
                Some(NodeView::Term(TokenView::Ident(name))) => match bound_value(s.scope, name) {
                    Ok(v) => Some(Ok((FlowView::Return(v), s))),
                    Err(e) => Some(Err(e)),
                },
                Some(NodeView::Term(token)) => match token_value(token) {
                    Some(v) => Some(Ok((FlowView::Return(v), s))),
                    None => Some(Err(ErrorView::UnexpectedToken(Some(token)))),
                },
                Some(NodeView::Array(items)) => match list_spec(items, 0, Seq::empty(), s) {
                    None => None,
                    Some(Err(e)) => Some(Err(e)),
                    Some(Ok((values, s2))) => Some(
                        Ok((FlowView::Return(VariableView::Array(values)), s2)),
                    ),
                },
                Some(other) => Some(Err(ErrorView::UnexpectedNode(Some(other)))),
            }
        } else if word == "use"@ {
            if at(nodes, i + 1) is None {
                Some(Err(ErrorView::EOF))
            } else {
                match name_of(nodes[i + 1]) {
                    Some(name) => match loaded(s.scope, name) {
                        Ok(after) => Some(Ok((FlowView::Next(i + 2), with_scope(s, after)))),
                        Err(e) => Some(Err(e)),
                    },
                    None => Some(Err(ErrorView::UnknownLib(nodes[i + 1]))),
                }
            }
        } else if word == "if"@ {
            if at(nodes, i + 1) is None {
                Some(Err(ErrorView::EOF))
            } else {
                match node_spec(nodes[i + 1], s) {
                    None => None,
                    Some(Err(e)) => Some(Err(e)),
                    Some(Ok((VariableView::Bool(taken), s1))) => match at(nodes, i + 2) {
                        Some(NodeView::Block(block)) => if !taken {
                            Some(Ok((FlowView::Next(i + 3), s1)))
                        } else if s1.budget.steps <= s.budget.steps {
                            match nested_spec(block, s1) {
                                None => None,
                                Some(Err(e)) => Some(Err(e)),
                                Some(Ok(s2)) => Some(Ok((FlowView::Next(i + 3), s2))),
                            }
                        } else {
                            None
                        },
                        other => Some(Err(ErrorView::UnexpectedNode(other))),
                    },
                    Some(Ok((other, s1))) => Some(
                        Err(ErrorView::VarTypeMismatch(VariableView::Bool(true), other)),
                    ),
                }
            }
        } else if word == "for"@ {
            if at(nodes, i + 1) is None {
                Some(Err(ErrorView::EOF))
            } else {
                match node_spec(nodes[i + 1], s) {
                    None => None,
                    Some(Err(e)) => Some(Err(e)),
                    Some(Ok((VariableView::Array(items), s1))) => if at(nodes, i + 2) is None {
                        Some(Err(ErrorView::EOF))
                    } else if nodes[i + 2] != NodeView::Term(TokenView::ForAssigner) {
                        Some(Err(ErrorView::UnexpectedNode(Some(nodes[i + 2]))))
                    } else if at(nodes, i + 3) is None {
                        Some(Err(ErrorView::EOF))
                    } else if name_of(nodes[i + 3]) is None {
                        Some(Err(ErrorView::UnexpectedNode(Some(nodes[i + 3]))))
                    } else {
                        match at(nodes, i + 4) {
                            None => Some(Err(ErrorView::EOF)),
                            Some(NodeView::Block(block)) => if s1.budget.steps <= s.budget.steps {
                                match for_spec(items, 0, name_of(nodes[i + 3])->0, block, s1) {
                                    None => None,
                                    Some(Err(e)) => Some(Err(e)),
                                    Some(Ok(s2)) => Some(Ok((FlowView::Next(i + 5), s2))),
                                }
                            } else {
                                None
                            },
                            Some(other) => Some(Err(ErrorView::UnexpectedNode(Some(other)))),
                        }
                    },
                    Some(Ok((other, s1))) => Some(
                        Err(
                            ErrorView::VarTypeMismatch(VariableView::Array(Seq::empty()), other),
                        ),
                    ),
                }
            }
        } else if word == "while"@ {
            if at(nodes, i + 1) is None {
                Some(Err(ErrorView::EOF))
            } else {
                match at(nodes, i + 2) {
                    None => Some(Err(ErrorView::EOF)),
                    Some(NodeView::Block(block)) => match while_spec(nodes[i + 1], block, s) {
                        None => None,
                        Some(Err(e)) => Some(Err(e)),
                        Some(Ok(s2)) => Some(Ok((FlowView::Next(i + 3), s2))),
                    },
                    Some(other) => Some(Err(ErrorView::UnexpectedNode(Some(other)))),
                }
            }
        } else {
            Some(Err(ErrorView::UnknownKeyword(word)))
        },
        NodeView::CallExpr { name, args, assign_to } => if !s.scope.contains_key(name) {
            Some(Err(ErrorView::NonexistentVar(name)))
        } else if !(s.scope[name] is Function || s.scope[name] is NativeFunction) {
            Some(Err(ErrorView::VarTypeMismatch(function_example(), s.scope[name])))
        } else {
            match list_spec(args, 0, Seq::empty(), s) {
                None => None,
                Some(Err(e)) => Some(Err(e)),
                Some(Ok((values, s1))) => if s1.budget.steps <= s.budget.steps {
                    match call_spec(Some(s.scope[name]), values, assign_to, s1) {
                        None => None,
                        Some(Err(e)) => Some(Err(e)),
                        Some(Ok((v, s2))) => Some(Ok((FlowView::Next(i + 1), s2))),
                    }
                } else {
                    None
                },
            }
        },
        other => Some(Err(ErrorView::UnexpectedNode(Some(other)))),
    }
}

/// The scope after the top-level nodes from position `i` on were taken in.
/// A function declaration binds its name to the function. The word `use`
/// loads the capability that is named after it. Anything else is
/// unexpected.
pub open spec fn program_scope(
    nodes: Seq<NodeView>,
    i: int,
    scope: Map<Seq<char>, VariableView>,
) -> Result<Map<Seq<char>, VariableView>, ErrorView>
    decreases nodes.len() - i,
{
    if i < 0 || i >= nodes.len() {
        Ok(scope)
    } else {
        match nodes[i] {
            NodeView::FunctionDecl { name, args, nodes: body } => program_scope(
                nodes,
                i + 1,
                scope.insert(name, VariableView::Function(nodes[i])),
            ),
            NodeView::Term(TokenView::Ident(word)) => if word == "use"@ {
                if i + 1 >= nodes.len() {
                    Err(ErrorView::EOF)
                } else {
                    match name_of(nodes[i + 1]) {
                        Some(lib) => match loaded(scope, lib) {
                            Ok(after) => program_scope(nodes, i + 2, after),
                            Err(e) => Err(e),
                        },
                        None => Err(ErrorView::UnknownLib(nodes[i + 1])),
                    }
                }
            } else {
                Err(ErrorView::UnexpectedNode(Some(nodes[i])))
            },
            other => Err(ErrorView::UnexpectedNode(Some(other))),
        }
    }
}

/// The argument that the entry point is called with: the array of the
/// arguments of the process, each as a string.
pub open spec fn entry_argument(args: Seq<String>) -> VariableView {
    VariableView::Array(Seq::new(args.len(), |k: int| VariableView::Str(args[k]@)))
}

/// What running a program gives: see [`crate::interpreter::interpret`].
/// `None` means that the program reaches a native function of the host, so
/// that the host decides how it goes on.
pub open spec fn program_spec(nodes: Seq<NodeView>, args: Seq<String>, budget: Budget) -> Option<
    Result<Budget, ErrorView>,
> {
    match program_scope(nodes, 0, initial_scope()) {
        Err(e) => Some(Err(e)),
        Ok(scope) => if !scope.contains_key("main"@) {
            Some(Err(ErrorView::NoMain))
        } else {
            match call_spec(
                Some(scope["main"@]),
                seq![entry_argument(args)],
                None,
                State { scope: scope.remove("main"@), budget: budget },
            ) {
                Some(Ok((v, s))) => Some(Ok(s.budget)),
                Some(Err(e)) => Some(Err(e)),
                None => None,
            }
        },
    }
}

/// A declared function that is called with another number of arguments than
/// it has parameters always fails, whatever its body, the scope and the
/// budget are: the error carries the number of parameters, then the number of
/// arguments.
pub proof fn lemma_arity_mismatch(
    name: Seq<char>,
    params: Seq<NodeView>,
    body: Seq<NodeView>,
    args: Seq<VariableView>,
    target: Option<Seq<char>>,
    s: State,
)
    requires
        params.len() != args.len(),
    ensures
        call_spec(
            Some(VariableView::Function(NodeView::FunctionDecl { name, args: params, nodes: body })),
            args,
            target,
            s,
        ) == Some(
            Err::<(VariableView, State), ErrorView>(
                ErrorView::IncorrectArgCount(params.len() as usize, args.len() as usize),
            ),
        ),
{
}

/// The state `after` has no more steps left than the state `before`.
pub open spec fn no_more_steps(before: State, after: State) -> bool {
    after.budget.steps <= before.budget.steps
}

/// Evaluating a node never gives steps back.
pub proof fn lemma_node_steps(n: NodeView, s: State)
    ensures
        match node_spec(n, s) {
            Some(Ok((v, after))) => no_more_steps(s, after),
            _ => true,
        },
    decreases s.budget.steps, 1nat, 0nat,
{
    match n {
        NodeView::Array(items) => {
            if let Some(b) = entered(s.budget) {
                lemma_list_steps(items, 0, Seq::empty(), with_budget(s, b));
            }
        },
        NodeView::CallExpr { name, args, assign_to } => {
            if let Some(b) = entered(s.budget) {
                lemma_list_steps(args, 0, Seq::empty(), with_budget(s, b));
                if let Some(Ok((values, s2))) = list_spec(args, 0, Seq::empty(), with_budget(s, b)) {
                    if let Ok(callee) = bound_value(s2.scope, name) {
                        if s2.budget.steps <= s.budget.steps {
                            lemma_call_steps(
                                Some(callee),
                                values,
                                assign_to,
                                with_budget(s2, left(s2.budget)),
                            );
                        }
                    }
                }
            }
        },
        _ => {},
    }
}

/// Evaluating a list of nodes never gives steps back.
pub proof fn lemma_list_steps(nodes: Seq<NodeView>, k: int, found: Seq<VariableView>, s: State)
    ensures
        match list_spec(nodes, k, found, s) {
            Some(Ok((values, after))) => no_more_steps(s, after),
            _ => true,
        },
    decreases s.budget.steps, 2nat, nodes.len() - k,
{
    if 0 <= k < nodes.len() {
        lemma_node_steps(nodes[k], s);
        if let Some(Ok((v, s2))) = node_spec(nodes[k], s) {
            if s2.budget.steps <= s.budget.steps {
                lemma_list_steps(nodes, k + 1, found.push(v), s2);
            }
        }
    }
}

/// A call never gives steps back.
pub proof fn lemma_call_steps(
    func: Option<VariableView>,
    args: Seq<VariableView>,
    target: Option<Seq<char>>,
    s: State,
)
    ensures
        match call_spec(func, args, target, s) {
            Some(Ok((v, after))) => no_more_steps(s, after),
            _ => true,
        },
    decreases s.budget.steps, 0nat, 0nat,
{
    if call_refusal(func, args.len()) is None {
        if let Some(VariableView::Function(NodeView::FunctionDecl { name, args: params, nodes })) =
            func {
            if let Some(b) = entered(s.budget) {
                lemma_block_steps(
                    nodes,
                    0,
                    State { scope: bound_from(s.scope, params, args, 0), budget: b },
                );
            }
        }
    }
}

/// A nested block takes at least one step.
pub proof fn lemma_nested_steps(block: Seq<NodeView>, s: State)
    ensures
        match nested_spec(block, s) {
            Some(Ok(after)) => after.budget.steps < s.budget.steps,
            _ => true,
        },
    decreases s.budget.steps, 0nat, 0nat,
{
    if let Some(b) = entered(s.budget) {
        lemma_block_steps(block, 0, with_budget(s, b));
    }
}

/// Carrying out statements never gives steps back.
pub proof fn lemma_block_steps(nodes: Seq<NodeView>, i: int, s: State)
    ensures
        match block_spec(nodes, i, s) {
            Some(Ok((v, after))) => no_more_steps(s, after),
            _ => true,
        },
    decreases s.budget.steps, 5nat, nodes.len() - i,
{
    if 0 <= i < nodes.len() {
        lemma_statement_steps(nodes, i, s);
        if let Some(Ok((FlowView::Next(j), s2))) = statement_spec(nodes, i, s) {
            if i < j <= nodes.len() && s2.budget.steps <= s.budget.steps {
                lemma_block_steps(nodes, j, s2);
            }
        }
    }
}

/// A loop over the elements of an array never gives steps back.
pub proof fn lemma_for_steps(
    items: Seq<VariableView>,
    k: int,
    target: Seq<char>,
    block: Seq<NodeView>,
    s: State,
)
    ensures
        match for_spec(items, k, target, block, s) {
            Some(Ok(after)) => no_more_steps(s, after),
            _ => true,
        },
    decreases s.budget.steps, 3nat, items.len() - k,
{
    if 0 <= k < items.len() {
        let start = with_scope(s, s.scope.insert(target, items[k]));
        lemma_nested_steps(block, start);
        if let Some(Ok(s2)) = nested_spec(block, start) {
            if s2.budget.steps <= s.budget.steps {
                lemma_for_steps(items, k + 1, target, block, s2);
            }
        }
    }
}

/// A loop on a condition never gives steps back.
pub proof fn lemma_while_steps(cond: NodeView, block: Seq<NodeView>, s: State)
    ensures
        match while_spec(cond, block, s) {
            Some(Ok(after)) => no_more_steps(s, after),
            _ => true,
        },
    decreases s.budget.steps, 3nat, 0nat,
{
    lemma_node_steps(cond, s);
    if let Some(Ok((VariableView::Bool(true), s1))) = node_spec(cond, s) {
        if s1.budget.steps <= s.budget.steps {
            lemma_nested_steps(block, s1);
            if let Some(Ok(s2)) = nested_spec(block, s1) {
                if s2.budget.steps < s.budget.steps {
                    lemma_while_steps(cond, block, s2);
                }
            }
        }
    }
}

/// Carrying out one statement never gives steps back, and the next
/// statement starts further on.
pub proof fn lemma_statement_steps(nodes: Seq<NodeView>, i: int, s: State)
    requires
        0 <= i < nodes.len(),
    ensures
        match statement_spec(nodes, i, s) {
            Some(Ok((FlowView::Next(j), after))) => no_more_steps(s, after) && i < j
                <= nodes.len(),
            Some(Ok((FlowView::Return(v), after))) => no_more_steps(s, after),
            _ => true,
        },
    decreases s.budget.steps, 4nat, 0nat,
{
    match nodes[i] {
        NodeView::Term(TokenView::Ident(word)) => {
            if word == "decl"@ {
                if at(nodes, i + 2) is Some {
                    lemma_node_steps(nodes[i + 2], s);
                }
            } else if word == "del"@ {
            } else if word == "return"@ {
                if let Some(NodeView::Array(items)) = at(nodes, i + 1) {
                    lemma_list_steps(items, 0, Seq::empty(), s);
                }
            } else if word == "use"@ {
            } else if word == "if"@ {
                if at(nodes, i + 1) is Some {
                    lemma_node_steps(nodes[i + 1], s);
                    if let Some(Ok((VariableView::Bool(taken), s1))) = node_spec(nodes[i + 1], s) {
                        if let Some(NodeView::Block(block)) = at(nodes, i + 2) {
                            if taken && s1.budget.steps <= s.budget.steps {
                                lemma_nested_steps(block, s1);
                            }
                        }
                    }
                }
            } else if word == "for"@ {
                if at(nodes, i + 1) is Some {
                    lemma_node_steps(nodes[i + 1], s);
                    if let Some(Ok((VariableView::Array(items), s1))) = node_spec(nodes[i + 1], s) {
                        if let Some(NodeView::Block(block)) = at(nodes, i + 4) {
                            if at(nodes, i + 3) is Some && name_of(nodes[i + 3]) is Some
                                && s1.budget.steps <= s.budget.steps {
                                lemma_for_steps(items, 0, name_of(nodes[i + 3])->0, block, s1);
                            }
                        }
                    }
                }
            } else if word == "while"@ {
                if at(nodes, i + 1) is Some {
                    if let Some(NodeView::Block(block)) = at(nodes, i + 2) {
                        lemma_while_steps(nodes[i + 1], block, s);
                    }
                }
            }
        },
        NodeView::CallExpr { name, args, assign_to } => {
            if s.scope.contains_key(name) {
                lemma_list_steps(args, 0, Seq::empty(), s);
                if let Some(Ok((values, s1))) = list_spec(args, 0, Seq::empty(), s) {
                    if s1.budget.steps <= s.budget.steps {
                        lemma_call_steps(Some(s.scope[name]), values, assign_to, s1);
                    }
                }
            }
        },
        _ => {},
    }
}

} // verus!
