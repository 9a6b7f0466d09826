use shrimp::data_types::Variable;
use shrimp::errors::Error;
use shrimp::interpreter::{
    a_function, bind_params, check_call, finish_native, ident_of, interpret, into_var, is_word,
    load_program, run, store_result, Budget, Host, NoNatives,
};
use shrimp::lexer::{make_tokens, number_from_text};
use shrimp::nodes::Node;
use shrimp::parser::{make_fn, make_fn_call, parse};
use shrimp::scope::Scope;
use shrimp::std_lib::construct_lib;
use shrimp::tokens::Token;

/// A host that records what is printed and knows a few small natives.
struct Recorder {
    out: String,
    calls: usize,
}

impl Recorder {
    fn new() -> Recorder {
        Recorder { out: String::new(), calls: 0 }
    }
}

fn small(value: &Variable) -> u64 {
    value.to_text().parse().unwrap()
}

fn count(n: u64) -> Variable {
    Variable::Num(number_from_text(&n.to_string()).unwrap())
}

impl Host for Recorder {
    fn call(
        &mut self,
        name: &str,
        args: Vec<Variable>,
        scope: &mut Scope,
    ) -> Result<Variable, Error> {
        self.calls += 1;
        match name {
            "println" => {
                for arg in &args {
                    self.out.push_str(&arg.to_text());
                }
                self.out.push('\n');
                Ok(Variable::Void)
            }
            "below" => Ok(Variable::Bool(args[0].less_than(&args[1])?)),
            "eq" => Ok(Variable::Bool(args[0].equals(&args[1])?)),
            "next" => Ok(count(small(&args[0]) + 1)),
            "sum" => Ok(count(args.iter().map(small).sum())),
            "remember" => {
                scope.insert("remembered".to_string(), args[0].copy());
                Ok(Variable::Void)
            }
            "missing" => Err(Error::MissingArgs("missing".to_string())),
            "outside" => Err(Error::OutOfBoundsIndex(2, 5)),
            "unreadable" => Err(Error::NumParserError(Variable::Str("x".to_string()))),
            other => Err(Error::NonexistentVar(other.to_string())),
        }
    }
}

fn functions_of(source: &str) -> Vec<Node> {
    let tree = parse(make_tokens(source).unwrap()).unwrap();
    make_fn_call(make_fn(tree).unwrap()).unwrap()
}

fn function_of(source: &str) -> Variable {
    Variable::Function(functions_of(source).into_iter().next().unwrap())
}

fn scope_with(natives: &[&str]) -> Scope {
    let mut scope = construct_lib();
    for native in natives {
        scope.insert(native.to_string(), Variable::NativeFunction(native.to_string()));
    }
    scope
}

fn budget() -> Budget {
    Budget::new(100_000, 200)
}

fn call(
    source: &str,
    args: Vec<Variable>,
    scope: &mut Scope,
    host: &mut Recorder,
) -> Result<Variable, Error> {
    run(Some(function_of(source)), scope, args, None, host, &mut budget())
}

#[test]
fn hello_function_prints_hi() {
    let mut host = Recorder::new();
    let mut scope = construct_lib();
    let result = call("@main(){ println(\"hi\"); }", vec![], &mut scope, &mut host).unwrap();
    assert!(matches!(result, Variable::Void));
    assert_eq!(host.out, "hi\n");
}

#[test]
fn hello_program_prints_hi() {
    let mut host = Recorder::new();
    let nodes = functions_of("@main(args){ println(\"hi\"); }");
    assert!(interpret(nodes, vec!["shrimp".to_string()], &mut host, &mut budget()).is_ok());
    assert_eq!(host.out, "hi\n");
}

#[test]
fn main_gets_the_arguments_of_the_process() {
    let mut host = Recorder::new();
    let nodes = functions_of("@main(args){ println(args); for args => a { println(a); } }");
    let args = vec!["shrimp".to_string(), "file.imp".to_string()];
    assert!(interpret(nodes, args, &mut host, &mut budget()).is_ok());
    assert_eq!(host.out, "[shrimp file.imp]\nshrimp\nfile.imp\n");
}

#[test]
fn main_without_a_parameter_is_an_arity_mismatch() {
    let mut host = Recorder::new();
    let nodes = functions_of("@main(){ println(\"hi\"); }");
    match interpret(nodes, vec![], &mut host, &mut budget()) {
        Err(Error::IncorrectArgCount(expected, found)) => assert_eq!((expected, found), (0, 1)),
        other => panic!("unexpected: {:?}", other),
    }
    assert_eq!(host.out, "");
}

#[test]
fn program_without_main_has_no_entry_point() {
    let mut host = Recorder::new();
    match interpret(functions_of("@other(a){}"), vec![], &mut host, &mut budget()) {
        Err(Error::NoMain) => {}
        other => panic!("unexpected: {:?}", other),
    }
    match interpret(vec![], vec![], &mut host, &mut budget()) {
        Err(Error::NoMain) => {}
        other => panic!("unexpected: {:?}", other),
    }
}

#[test]
fn functions_of_a_program_can_call_each_other() {
    let mut host = Recorder::new();
    let nodes = functions_of(
        "@twice(x){ sum(x x) -> y; return y; } @main(args){ twice(4) -> r; println(r); }",
    );
    let mut scope = scope_with(&["sum"]);
    load_program(&nodes, &mut scope).unwrap();
    let main = scope.get("main");
    let result = run(main, &mut scope, vec![Variable::Void], None, &mut host, &mut budget());
    assert!(result.is_ok());
    assert_eq!(host.out, "8\n");
}

#[test]
fn top_level_nodes_other_than_functions_are_unexpected() {
    let mut scope = Scope::new();
    let stray = vec![Node::Term(Token::Ident("x".to_string()))];
    match load_program(&stray, &mut scope) {
        Err(Error::UnexpectedNode(Some(found))) => assert_eq!(found, stray[0]),
        other => panic!("unexpected: {:?}", other),
    }
    let block = vec![Node::Block(vec![])];
    match load_program(&block, &mut scope) {
        Err(Error::UnexpectedNode(Some(found))) => assert_eq!(found, block[0]),
        other => panic!("unexpected: {:?}", other),
    }
}

#[test]
fn top_level_use_loads_a_capability() {
    let word = |w: &str| Node::Term(Token::Ident(w.to_string()));
    let mut scope = Scope::new();
    load_program(&vec![word("use"), word("internet")], &mut scope).unwrap();
    assert!(scope.contains("internet_post"));
    match load_program(&vec![word("use")], &mut scope) {
        Err(Error::EOF) => {}
        other => panic!("unexpected: {:?}", other),
    }
    match load_program(&vec![word("use"), Node::Group(vec![])], &mut scope) {
        Err(Error::UnknownLib(found)) => assert_eq!(found, Node::Group(vec![])),
        other => panic!("unexpected: {:?}", other),
    }
    match load_program(&vec![word("use"), word("nothing")], &mut scope) {
        Err(Error::UnknownLib(found)) => assert_eq!(found, word("nothing")),
        other => panic!("unexpected: {:?}", other),
    }
}

#[test]
fn counted_loop_rebinds_its_variable() {
    let mut host = Recorder::new();
    let mut scope = scope_with(&["below", "next"]);
    let source = "@main(){ decl x 0; while below(x 3) { println(x); next(x) -> x; } }";
    let result = call(source, vec![], &mut scope, &mut host).unwrap();
    assert!(matches!(result, Variable::Void));
    assert_eq!(host.out, "0\n1\n2\n");
    assert_eq!(scope.get("x").unwrap().to_text(), "3");
}

#[test]
fn two_parameters_and_three_arguments() {
    let mut host = Recorder::new();
    let mut scope = construct_lib();
    let args = vec![count(1), count(2), count(3)];
    match call("@pair(a b){ return a; }", args, &mut scope, &mut host) {
        Err(Error::IncorrectArgCount(expected, found)) => assert_eq!((expected, found), (2, 3)),
        other => panic!("unexpected: {:?}", other),
    }
    assert!(!scope.contains("a"));
    match call("@pair(a b){ return a; }", vec![count(1)], &mut scope, &mut host) {
        Err(Error::IncorrectArgCount(expected, found)) => assert_eq!((expected, found), (2, 1)),
        other => panic!("unexpected: {:?}", other),
    }
}

#[test]
fn arity_is_checked_before_the_budget() {
    let mut host = Recorder::new();
    let mut scope = construct_lib();
    let mut empty = Budget::new(0, 0);
    let f = function_of("@f(a){}");
    match run(Some(f), &mut scope, vec![], None, &mut host, &mut empty) {
        Err(Error::IncorrectArgCount(expected, found)) => assert_eq!((expected, found), (1, 0)),
        other => panic!("unexpected: {:?}", other),
    }
}

#[test]
fn parameters_are_bound_in_the_shared_scope() {
    let mut host = Recorder::new();
    let mut scope = construct_lib();
    let args = vec![count(1), count(2)];
    let result = call("@pair(a b){ decl c b; return a; }", args, &mut scope, &mut host).unwrap();
    assert_eq!(result.to_text(), "1");
    assert_eq!(scope.get("a").unwrap().to_text(), "1");
    assert_eq!(scope.get("b").unwrap().to_text(), "2");
    assert_eq!(scope.get("c").unwrap().to_text(), "2");
}

#[test]
fn return_skips_the_remaining_statements() {
    let mut host = Recorder::new();
    let mut scope = construct_lib();
    let result =
        call("@f(){ println(1); return \"done\"; println(2); }", vec![], &mut scope, &mut host)
            .unwrap();
    assert_eq!(result.to_text(), "done");
    assert_eq!(host.out, "1\n");
}

#[test]
fn return_takes_a_name_a_literal_or_an_array() {
    let mut host = Recorder::new();
    let mut scope = scope_with(&["next"]);
    let result = call("@f(a){ return [a 2 next(a) [a]]; }", vec![count(7)], &mut scope, &mut host);
    assert_eq!(result.unwrap().to_text(), "[7 2 8 [7]]");
    assert_eq!(call("@f(){ return 2.5; }", vec![], &mut scope, &mut host).unwrap().to_text(), "2.5");
    match call("@f(){ return => }", vec![], &mut scope, &mut host) {
        Err(Error::UnexpectedToken(Some(Token::ForAssigner))) => {}
        other => panic!("unexpected: {:?}", other),
    }
    match call("@f(){ return next(1); }", vec![], &mut scope, &mut host) {
        Err(Error::UnexpectedNode(Some(Node::CallExpr { name, .. }))) => assert_eq!(name, "next"),
        other => panic!("unexpected: {:?}", other),
    }
    match call("@f(){ return }", vec![], &mut scope, &mut host) {
        Err(Error::UnexpectedNode(None)) => {}
        other => panic!("unexpected: {:?}", other),
    }
    match call("@f(){ return nothing_here; }", vec![], &mut scope, &mut host) {
        Err(Error::NonexistentVar(name)) => assert_eq!(name, "nothing_here"),
        other => panic!("unexpected: {:?}", other),
    }
}

#[test]
fn a_function_without_return_gives_the_empty_value() {
    let mut host = Recorder::new();
    let mut scope = construct_lib();
    let result = call("@f(){ decl x 1; }", vec![], &mut scope, &mut host).unwrap();
    assert!(matches!(result, Variable::Void));
}

#[test]
fn decl_binds_and_del_removes() {
    let mut host = Recorder::new();
    let mut scope = scope_with(&["next"]);
    call("@f(){ decl x 1; decl y next(x); decl x \"again\"; decl z [x y]; del y; del never; }", vec![], &mut scope, &mut host).unwrap();
    assert_eq!(scope.get("x").unwrap().to_text(), "again");
    assert_eq!(scope.get("z").unwrap().to_text(), "[again 2]");
    assert!(!scope.contains("y"));
}

#[test]
fn statements_with_missing_operands_fail() {
    let mut host = Recorder::new();
    let mut scope = construct_lib();
    let cases: Vec<(&str, &str)> = vec![
        ("@f(){ decl }", "UnexpectedNode(None)"),
        ("@f(){ decl x }", "UnexpectedNode(None)"),
        ("@f(){ del }", "EOF"),
        ("@f(){ use }", "EOF"),
        ("@f(){ if }", "EOF"),
        ("@f(){ if true }", "UnexpectedNode(None)"),
        ("@f(){ for }", "EOF"),
        ("@f(){ for [] }", "EOF"),
        ("@f(){ for [] => }", "EOF"),
        ("@f(){ for [] => i }", "EOF"),
        ("@f(){ while }", "EOF"),
        ("@f(){ while true }", "EOF"),
    ];
    for (source, expected) in cases {
        let error = call(source, vec![], &mut scope, &mut host).unwrap_err();
        assert_eq!(format!("{:?}", error), expected, "{}", source);
    }
}

#[test]
fn statements_with_wrong_operands_fail() {
    let mut host = Recorder::new();
    let mut scope = construct_lib();
    let unexpected = |result: Result<Variable, Error>| match result {
        Err(Error::UnexpectedNode(Some(found))) => found,
        other => panic!("unexpected: {:?}", other),
    };
    let one = Node::Term(Token::Num(number_from_text("1").unwrap()));
    let name = |n: &str| Node::Term(Token::Ident(n.to_string()));
    assert_eq!(unexpected(call("@f(){ decl 1 2 }", vec![], &mut scope, &mut host)), one);
    assert_eq!(unexpected(call("@f(){ del 1 }", vec![], &mut scope, &mut host)), one);
    assert_eq!(unexpected(call("@f(){ if true 1 }", vec![], &mut scope, &mut host)), one);
    assert_eq!(unexpected(call("@f(){ if false 1 }", vec![], &mut scope, &mut host)), one);
    assert_eq!(unexpected(call("@f(){ for [] 1 i {} }", vec![], &mut scope, &mut host)), one);
    assert_eq!(unexpected(call("@f(){ for [] => 1 {} }", vec![], &mut scope, &mut host)), one);
    assert_eq!(unexpected(call("@f(){ for [] => i x }", vec![], &mut scope, &mut host)), name("x"));
    assert_eq!(unexpected(call("@f(){ while true 1 }", vec![], &mut scope, &mut host)), one);
    assert_eq!(unexpected(call("@f(){ 1 }", vec![], &mut scope, &mut host)), one);
    assert_eq!(
        unexpected(call("@f(){ {} }", vec![], &mut scope, &mut host)),
        Node::Block(vec![])
    );
    assert_eq!(
        unexpected(call("@f(){ decl x; (1) }", vec![], &mut scope, &mut host)),
        Node::Group(vec![one.copy()])
    );
    assert_eq!(
        unexpected(call("@f(){ decl x => }", vec![], &mut scope, &mut host)),
        Node::Term(Token::ForAssigner)
    );
    match unexpected(call("@f(){ decl x (1) }", vec![], &mut scope, &mut host)) {
        Node::CallExpr { name, .. } => assert_eq!(name, "x"),
        other => panic!("unexpected: {:?}", other),
    }
}

#[test]
fn unknown_keyword_is_an_error() {
    let mut host = Recorder::new();
    let mut scope = construct_lib();
    match call("@f(){ frobnicate x; }", vec![], &mut scope, &mut host) {
        Err(Error::UnknownKeyword(word)) => assert_eq!(word, "frobnicate"),
        other => panic!("unexpected: {:?}", other),
    }
}

#[test]
fn use_loads_a_capability_into_the_scope() {
    let mut host = Recorder::new();
    let mut scope = construct_lib();
    call("@f(){ use io; use html; }", vec![], &mut scope, &mut host).unwrap();
    assert!(scope.contains("io_read"));
    assert!(scope.contains("el_span"));
    match call("@f(){ use nothing; }", vec![], &mut scope, &mut host) {
        Err(Error::UnknownLib(found)) => {
            assert_eq!(found, Node::Term(Token::Ident("nothing".to_string())));
        }
        other => panic!("unexpected: {:?}", other),
    }
    match call("@f(){ use 1; }", vec![], &mut scope, &mut host) {
        Err(Error::UnknownLib(Node::Term(Token::Num(_)))) => {}
        other => panic!("unexpected: {:?}", other),
    }
}

#[test]
fn if_runs_its_block_only_when_the_condition_is_true() {
    let mut host = Recorder::new();
    let mut scope = scope_with(&["eq"]);
    let source = "@f(a){ if eq(a 1) { println(\"one\"); decl seen a; } if false { println(\"never\"); } println(\"end\"); }";
    call(source, vec![count(1)], &mut scope, &mut host).unwrap();
    assert_eq!(host.out, "one\nend\n");
    assert_eq!(scope.get("seen").unwrap().to_text(), "1");
    host.out.clear();
    call(source, vec![count(2)], &mut scope, &mut host).unwrap();
    assert_eq!(host.out, "end\n");
}

#[test]
fn return_inside_a_block_only_ends_the_block() {
    let mut host = Recorder::new();
    let mut scope = construct_lib();
    let source = "@f(){ if true { return 1; println(\"skipped\"); } println(\"after\"); return 2; }";
    let result = call(source, vec![], &mut scope, &mut host).unwrap();
    assert_eq!(result.to_text(), "2");
    assert_eq!(host.out, "after\n");
}

#[test]
fn conditions_must_be_booleans() {
    let mut host = Recorder::new();
    let mut scope = construct_lib();
    for source in ["@f(){ if 1 {} }", "@f(){ while 1 {} }"] {
        match call(source, vec![], &mut scope, &mut host) {
            Err(Error::VarTypeMismatch(expected, found)) => {
                assert_eq!((expected.to_text(), found.to_text()), ("true".into(), "1".into()));
            }
            other => panic!("unexpected: {:?}", other),
        }
    }
}

#[test]
fn for_binds_each_element_in_order() {
    let mut host = Recorder::new();
    let mut scope = construct_lib();
    let source = "@f(list){ for list => item { println(item); decl last item; } for [] => never { println(0); } }";
    let list = Variable::Array(vec![count(1), Variable::Str("two".to_string()), count(3)]);
    call(source, vec![list], &mut scope, &mut host).unwrap();
    assert_eq!(host.out, "1\ntwo\n3\n");
    assert_eq!(scope.get("item").unwrap().to_text(), "3");
    assert_eq!(scope.get("last").unwrap().to_text(), "3");
    assert!(!scope.contains("never"));
}

#[test]
fn for_needs_an_array() {
    let mut host = Recorder::new();
    let mut scope = construct_lib();
    match call("@f(){ for \"abc\" => c {} }", vec![], &mut scope, &mut host) {
        Err(Error::VarTypeMismatch(expected, found)) => {
            assert_eq!((expected.to_text(), found.to_text()), ("[]".into(), "abc".into()));
        }
        other => panic!("unexpected: {:?}", other),
    }
}

#[test]
fn while_checks_its_condition_before_every_round() {
    let mut host = Recorder::new();
    let mut scope = construct_lib();
    let source = "@f(){ decl go true; while go { println(\"once\"); decl go false; } while go { println(\"never\"); } }";
    call(source, vec![], &mut scope, &mut host).unwrap();
    assert_eq!(host.out, "once\n");
}

#[test]
fn call_statements_store_their_result() {
    let mut host = Recorder::new();
    let mut scope = scope_with(&["sum"]);
    let nodes = functions_of("@three(){ return 3; } @f(){ sum(1 2) -> a; three() -> b; three(); sum(sum(a b) three() -> c) -> d; }");
    load_program(&nodes, &mut scope).unwrap();
    let f = scope.get("f");
    run(f, &mut scope, vec![], None, &mut host, &mut budget()).unwrap();
    assert_eq!(scope.get("a").unwrap().to_text(), "3");
    assert_eq!(scope.get("b").unwrap().to_text(), "3");
    assert_eq!(scope.get("c").unwrap().to_text(), "3");
    assert_eq!(scope.get("d").unwrap().to_text(), "9");
}

#[test]
fn run_stores_the_result_under_its_target() {
    let mut host = Recorder::new();
    let mut scope = scope_with(&["sum"]);
    let target = Some("r".to_string());
    let native = Some(Variable::NativeFunction("sum".to_string()));
    let result =
        run(native, &mut scope, vec![count(2), count(5)], target, &mut host, &mut budget());
    assert_eq!(result.unwrap().to_text(), "7");
    assert_eq!(scope.get("r").unwrap().to_text(), "7");
    let f = Some(function_of("@f(a){ return a; }"));
    let target = Some("s".to_string());
    run(f, &mut scope, vec![count(4)], target, &mut host, &mut budget()).unwrap();
    assert_eq!(scope.get("s").unwrap().to_text(), "4");
}

#[test]
fn natives_get_the_arguments_and_the_live_scope() {
    let mut host = Recorder::new();
    let mut scope = scope_with(&["remember"]);
    call("@f(){ decl x [1 2]; remember(x); }", vec![], &mut scope, &mut host).unwrap();
    assert_eq!(scope.get("remembered").unwrap().to_text(), "[1 2]");
    assert_eq!(host.calls, 1);
}

#[test]
fn errors_of_the_host_are_passed_on() {
    let mut host = Recorder::new();
    let mut scope = scope_with(&["missing", "outside", "unreadable"]);
    match call("@f(){ missing(); }", vec![], &mut scope, &mut host) {
        Err(Error::MissingArgs(name)) => assert_eq!(name, "missing"),
        other => panic!("unexpected: {:?}", other),
    }
    match call("@f(){ decl x outside(); }", vec![], &mut scope, &mut host) {
        Err(Error::OutOfBoundsIndex(length, index)) => assert_eq!((length, index), (2, 5)),
        other => panic!("unexpected: {:?}", other),
    }
    match call("@f(){ return [unreadable()]; }", vec![], &mut scope, &mut host) {
        Err(Error::NumParserError(value)) => assert_eq!(value.to_text(), "x"),
        other => panic!("unexpected: {:?}", other),
    }
}

#[test]
fn calls_of_unbound_names_and_of_values_fail() {
    let mut host = Recorder::new();
    let mut scope = construct_lib();
    match call("@f(){ nowhere(); }", vec![], &mut scope, &mut host) {
        Err(Error::NonexistentVar(name)) => assert_eq!(name, "nowhere"),
        other => panic!("unexpected: {:?}", other),
    }
    match call("@f(){ decl x nowhere(); }", vec![], &mut scope, &mut host) {
        Err(Error::NonexistentVar(name)) => assert_eq!(name, "nowhere"),
        other => panic!("unexpected: {:?}", other),
    }
    match call("@f(){ decl x 1; x(); }", vec![], &mut scope, &mut host) {
        Err(Error::VarTypeMismatch(expected, found)) => {
            assert_eq!((expected.to_text(), found.to_text()), ("@".into(), "1".into()));
        }
        other => panic!("unexpected: {:?}", other),
    }
    match call("@f(){ decl x 1; decl y x(); }", vec![], &mut scope, &mut host) {
        Err(Error::VarTypeMismatch(expected, found)) => {
            assert_eq!((expected.to_text(), found.to_text()), ("@".into(), "1".into()));
        }
        other => panic!("unexpected: {:?}", other),
    }
}

#[test]
fn run_refuses_what_cannot_be_called() {
    let mut host = Recorder::new();
    let mut scope = construct_lib();
    match run(None, &mut scope, vec![], None, &mut host, &mut budget()) {
        Err(Error::NonexistentVar(name)) => {
            assert_eq!(name, "Name unknown, originated in a function call");
        }
        other => panic!("unexpected: {:?}", other),
    }
    match run(Some(count(1)), &mut scope, vec![], None, &mut host, &mut budget()) {
        Err(Error::VarTypeMismatch(expected, found)) => {
            assert_eq!((expected.to_text(), found.to_text()), ("@".into(), "1".into()));
        }
        other => panic!("unexpected: {:?}", other),
    }
    let no_declaration = Variable::Function(Node::Block(vec![]));
    match run(Some(no_declaration), &mut scope, vec![], None, &mut host, &mut budget()) {
        Err(Error::UnexpectedNode(Some(found))) => assert_eq!(found, Node::Block(vec![])),
        other => panic!("unexpected: {:?}", other),
    }
    let bad_parameter = Variable::Function(Node::FunctionDecl {
        name: "f".to_string(),
        args: vec![Node::Group(vec![])],
        nodes: vec![],
    });
    match run(Some(bad_parameter), &mut scope, vec![count(1)], None, &mut host, &mut budget()) {
        Err(Error::UnexpectedNode(Some(found))) => assert_eq!(found, Node::Group(vec![])),
        other => panic!("unexpected: {:?}", other),
    }
    assert!(check_call(&Some(Variable::NativeFunction("x".to_string())), 9).is_none());
    assert!(check_call(&Some(function_of("@f(a b){}")), 2).is_none());
}

#[test]
fn endless_recursion_runs_out_of_budget() {
    let mut host = Recorder::new();
    let mut scope = construct_lib();
    let nodes = functions_of("@f(){ f(); }");
    load_program(&nodes, &mut scope).unwrap();
    let f = scope.get("f");
    let mut limits = Budget::new(1_000_000, 50);
    match run(f, &mut scope, vec![], None, &mut host, &mut limits) {
        Err(Error::TooDeep) => {}
        other => panic!("unexpected: {:?}", other),
    }
    assert_eq!(limits.steps, 1_000_000 - 50);
}

#[test]
fn endless_loop_runs_out_of_budget() {
    let mut host = Recorder::new();
    let mut scope = construct_lib();
    let mut limits = Budget::new(1_000, 50);
    let f = function_of("@f(){ while true { } }");
    match run(Some(f), &mut scope, vec![], None, &mut host, &mut limits) {
        Err(Error::TooDeep) => {}
        other => panic!("unexpected: {:?}", other),
    }
    assert_eq!(limits.steps, 0);
}

#[test]
fn budget_counts_calls_blocks_and_nested_expressions() {
    let mut host = Recorder::new();
    let mut scope = construct_lib();
    let mut limits = Budget::new(10, 3);
    let f = function_of("@f(){ decl x [1 [2]]; if true { } }");
    run(Some(f), &mut scope, vec![], None, &mut host, &mut limits).unwrap();
    assert_eq!((limits.steps, limits.depth), (6, 3));
    let mut tight = Budget::new(10, 2);
    let g = function_of("@g(){ decl x [1 [2]]; }");
    match run(Some(g), &mut scope, vec![], None, &mut host, &mut tight) {
        Err(Error::TooDeep) => {}
        other => panic!("unexpected: {:?}", other),
    }
    let mut one = Budget::new(1, 1);
    assert!(one.enter().is_ok());
    assert_eq!((one.steps, one.depth), (0, 0));
    assert!(matches!(one.enter(), Err(Error::TooDeep)));
    one.leave();
    assert_eq!((one.steps, one.depth), (0, 1));
}

#[test]
fn argument_lists_are_evaluated_from_left_to_right() {
    let mut host = Recorder::new();
    let mut scope = scope_with(&["next", "println"]);
    scope.insert("x".to_string(), count(5));
    let tree = parse(make_tokens("x \"s\" 1.5 [x next(x)] next(x) -> y y").unwrap()).unwrap();
    let nodes = make_fn_call(tree).unwrap();
    let values = into_var(nodes, &mut scope, &mut host, &mut budget()).unwrap();
    let shown: Vec<String> = values.iter().map(|v| v.to_text()).collect();
    assert_eq!(shown, vec!["5", "s", "1.5", "[5 6]", "6", "6"]);
    let unbound = make_fn_call(parse(make_tokens("x nothing").unwrap()).unwrap()).unwrap();
    match into_var(unbound, &mut scope, &mut host, &mut budget()) {
        Err(Error::NonexistentVar(name)) => assert_eq!(name, "nothing"),
        other => panic!("unexpected: {:?}", other),
    }
}

#[test]
fn helpers_of_the_evaluator() {
    assert!(is_word(&"decl".to_string(), "decl"));
    assert!(!is_word(&"decl".to_string(), "del"));
    assert_eq!(ident_of(&Node::Term(Token::Ident("x".to_string()))), Some(&"x".to_string()));
    assert_eq!(ident_of(&Node::Term(Token::EndLine)), None);
    assert_eq!(ident_of(&Node::Group(vec![])), None);
    assert_eq!(a_function().to_text(), "@");
    let mut scope = Scope::new();
    let params = vec![
        Node::Term(Token::Ident("a".to_string())),
        Node::Term(Token::Ident("b".to_string())),
        Node::Term(Token::Ident("a".to_string())),
    ];
    bind_params(&params, &vec![count(1), count(2), count(3)], &mut scope);
    assert_eq!(scope.get("a").unwrap().to_text(), "3");
    assert_eq!(scope.get("b").unwrap().to_text(), "2");
    store_result(&mut scope, &None, &count(9));
    store_result(&mut scope, &Some("r".to_string()), &count(9));
    assert_eq!(scope.get("r").unwrap().to_text(), "9");
}

#[test]
fn a_host_without_natives_runs_what_needs_none() {
    let mut host = NoNatives;
    let mut scope = construct_lib();
    let f = function_of("@f(a){ decl b [a a]; for b => c { decl d c; } return d; }");
    let result = run(Some(f), &mut scope, vec![count(4)], None, &mut host, &mut budget());
    assert_eq!(result.unwrap().to_text(), "4");
    let g = function_of("@g(){ println(1); }");
    match run(Some(g), &mut scope, vec![], None, &mut host, &mut budget()) {
        Err(Error::NonexistentVar(name)) => assert_eq!(name, "println"),
        other => panic!("unexpected: {:?}", other),
    }
}

#[test]
fn the_answer_of_the_host_ends_a_native_call() {
    let mut scope = Scope::new();
    let target = Some("r".to_string());
    let value = finish_native(&mut scope, &target, Ok(count(3))).unwrap();
    assert_eq!(value.to_text(), "3");
    assert_eq!(scope.get("r").unwrap().to_text(), "3");
    let failed = finish_native(&mut scope, &Some("s".to_string()), Err(Error::EOF));
    assert!(matches!(failed, Err(Error::EOF)));
    assert!(!scope.contains("s"));
    let plain = finish_native(&mut scope, &None, Ok(Variable::Void));
    assert!(matches!(plain, Ok(Variable::Void)));
}

#[test]
fn natives_of_the_library_need_no_host() {
    let mut host = NoNatives;
    let mut scope = construct_lib();
    let source = "@f(){ decl list [1 2]; push(list 3 \"x\") -> list; len(list) -> n;                   index(list 3) -> last; eq(n 4) -> same; return [list n last same]; }";
    let result = run(Some(function_of(source)), &mut scope, vec![], None, &mut host, &mut budget());
    assert_eq!(result.unwrap().to_text(), "[[1 2 3 x] 4 x true]");
    let failing = function_of("@g(){ index([1] 1); }");
    match run(Some(failing), &mut scope, vec![], None, &mut host, &mut budget()) {
        Err(Error::OutOfBoundsIndex(length, place)) => assert_eq!((length, place), (1, 1)),
        other => panic!("unexpected: {:?}", other),
    }
}

#[test]
fn counted_loop_with_the_comparison_of_the_library() {
    let mut host = Recorder::new();
    let mut scope = scope_with(&["next"]);
    let source = "@main(){ decl x 0; while not(cmp(x 3)) { println(x); next(x) -> x; } }";
    call(source, vec![], &mut scope, &mut host).unwrap();
    assert_eq!(host.out, "0\n1\n2\n");
    assert_eq!(scope.get("x").unwrap().to_text(), "3");
    assert_eq!(host.calls, 6);
}

#[test]
fn natives_of_the_library_come_before_those_of_the_host() {
    let mut host = Recorder::new();
    let mut scope = construct_lib();
    let result = call("@f(){ return [eq(1 1.0)]; }", vec![], &mut scope, &mut host).unwrap();
    assert_eq!(result.to_text(), "[true]");
    assert_eq!(host.calls, 0);
}
