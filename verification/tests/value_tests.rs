use shrimp::data_types::{copy_variables, Variable};
use shrimp::errors::Error;
use shrimp::lexer::number_from_text;
use shrimp::nodes::{copy_nodes, same_nodes, values_of, Node};
use shrimp::tokens::Token;

fn number(text: &str) -> Variable {
    Variable::Num(number_from_text(text).unwrap())
}

fn string(text: &str) -> Variable {
    Variable::Str(text.to_string())
}

fn declared(name: &str, params: &[&str]) -> Variable {
    Variable::Function(Node::FunctionDecl {
        name: name.to_string(),
        args: params.iter().map(|p| Node::Term(Token::Ident(p.to_string()))).collect(),
        nodes: vec![],
    })
}

fn mismatch(result: Result<bool, Error>) -> (String, String) {
    match result {
        Err(Error::VarTypeMismatch(expected, found)) => (expected.to_text(), found.to_text()),
        other => panic!("unexpected: {:?}", other),
    }
}

#[test]
fn number_equality_is_reflexive_and_symmetric() {
    let values = [number("0"), number("1.5"), number("-1.5"), number("1.50"), number("15")];
    for a in &values {
        assert!(a.equals(a).unwrap());
        for b in &values {
            assert_eq!(a.equals(b).unwrap(), b.equals(a).unwrap());
        }
    }
    assert!(number("1.5").equals(&number("1.50")).unwrap());
    assert!(!number("1.5").equals(&number("-1.5")).unwrap());
}

#[test]
fn number_against_another_kind_is_a_type_mismatch() {
    let others = [
        string("1"),
        Variable::Bool(true),
        Variable::Array(vec![number("1")]),
        Variable::Void,
        declared("f", &[]),
        Variable::NativeFunction("len".to_string()),
    ];
    for other in &others {
        assert_eq!(mismatch(number("1").equals(other)), ("1".to_string(), other.to_text()));
        assert_eq!(mismatch(other.equals(&number("1"))), (other.to_text(), "1".to_string()));
    }
}

#[test]
fn values_of_one_kind_are_compared() {
    assert!(string("a").equals(&string("a")).unwrap());
    assert!(!string("a").equals(&string("b")).unwrap());
    assert!(Variable::Bool(false).equals(&Variable::Bool(false)).unwrap());
    assert!(!Variable::Bool(false).equals(&Variable::Bool(true)).unwrap());
    assert!(Variable::Void.equals(&Variable::Void).unwrap());
}

#[test]
fn arrays_are_compared_element_by_element() {
    let a = Variable::Array(vec![number("1"), Variable::Array(vec![string("x")])]);
    let b = Variable::Array(vec![number("1"), Variable::Array(vec![string("x")])]);
    let c = Variable::Array(vec![number("1"), Variable::Array(vec![string("y")])]);
    let shorter = Variable::Array(vec![number("1")]);
    assert!(a.equals(&b).unwrap());
    assert!(!a.equals(&c).unwrap());
    assert!(!a.equals(&shorter).unwrap());
    let unequal_first = Variable::Array(vec![number("2"), string("x")]);
    let mixed = Variable::Array(vec![number("1"), string("x")]);
    assert!(!unequal_first.equals(&a).unwrap());
    assert_eq!(mismatch(mixed.equals(&a)), ("x".to_string(), "[x]".to_string()));
    let longer_mixed = Variable::Array(vec![string("x")]);
    assert!(!longer_mixed.equals(&a).unwrap());
}

#[test]
fn functions_cannot_be_compared() {
    let f = declared("f", &[]);
    assert_eq!(mismatch(f.equals(&f)), ("@f [ ]".to_string(), "@f [ ]".to_string()));
    let native = Variable::NativeFunction("len".to_string());
    assert!(native.equals(&native).is_err());
}

#[test]
fn only_numbers_are_ordered() {
    assert!(number("1").less_than(&number("2")).unwrap());
    assert!(!number("2").less_than(&number("2")).unwrap());
    assert!(!number("2").less_than(&number("-3")).unwrap());
    assert_eq!(mismatch(number("1").less_than(&string("2"))), ("0".to_string(), "2".to_string()));
    assert_eq!(mismatch(string("1").less_than(&number("2"))), ("0".to_string(), "1".to_string()));
    assert_eq!(
        mismatch(Variable::Void.less_than(&Variable::Bool(true))),
        ("0".to_string(), "()".to_string())
    );
}

#[test]
fn values_are_shown_as_text() {
    assert_eq!(string("hi there").to_text(), "hi there");
    assert_eq!(number("-12.50").to_text(), "-12.5");
    assert_eq!(Variable::Bool(true).to_text(), "true");
    assert_eq!(Variable::Bool(false).to_text(), "false");
    assert_eq!(Variable::Void.to_text(), "()");
    assert_eq!(Variable::Array(vec![]).to_text(), "[]");
    assert_eq!(Variable::Array(vec![number("1")]).to_text(), "[1]");
    assert_eq!(
        Variable::Array(vec![
            number("1"),
            Variable::Array(vec![number("2"), number("3")]),
            string("four"),
        ])
        .to_text(),
        "[1 [2 3] four]"
    );
    assert_eq!(
        Variable::NativeFunction("len".to_string()).to_text(),
        "<[Native function representing not supported.]>"
    );
    assert_eq!(declared("add_two", &["a", "b"]).to_text(), "@add_two [ a b ]");
    assert_eq!(Variable::Function(Node::Array(vec![])).to_text(), "@");
}

#[test]
fn values_are_named_in_words() {
    assert_eq!(number("1").as_words(), "a number");
    assert_eq!(string("1").as_words(), "a string");
    assert_eq!(Variable::Array(vec![]).as_words(), "an array");
    assert_eq!(Variable::Bool(true).as_words(), "a boolean");
    assert_eq!(declared("f", &[]).as_words(), "a function");
    assert_eq!(Variable::NativeFunction("len".to_string()).as_words(), "a function");
    assert_eq!(Variable::Void.as_words(), "nothing");
}

#[test]
fn copies_of_values_are_equal_to_their_sources() {
    let a = Variable::Array(vec![number("1"), string("x"), Variable::Array(vec![Variable::Void])]);
    assert!(a.copy().equals(&a).unwrap());
    let list = vec![number("1"), string("x")];
    let copied = copy_variables(&list);
    assert_eq!(copied.len(), 2);
    assert!(copied[0].equals(&list[0]).unwrap());
    assert!(copied[1].equals(&list[1]).unwrap());
    assert_eq!(declared("f", &["a"]).copy().to_text(), "@f [ a ]");
}

#[test]
fn tokens_are_named_shown_and_valued() {
    let all = [
        (Token::Str("s".to_string()), "a string", "`s`"),
        (Token::Num(number_from_text("1.5").unwrap()), "a number", "`1.5`"),
        (Token::Ident("x".to_string()), "an identifier", "`x`"),
        (Token::FunctionDecl, "a function declaration token (`@`)", "`@`"),
        (Token::EndLine, "a line ending token (`;`)", "`;`"),
        (Token::OpenCurly, "a curly brace (`{`)", "`{`"),
        (Token::CloseCurly, "a curly brace (`}`)", "`}`"),
        (Token::OpenBracket, "a bracket (`(`)", "`(`"),
        (Token::CloseBracket, "a bracket (`)`)", "`)`"),
        (Token::OpenSquare, "a square bracket (`[`)", "`[`"),
        (Token::CloseSquare, "a square bracket (`]`)", "`]`"),
        (Token::ArrowAssigner, "an arrow assigner (`->`)", "`->`"),
        (Token::ForAssigner, "a for assigner (`=>`)", "`=>`"),
    ];
    for (token, words, shown) in &all {
        assert_eq!(token.as_words(), *words);
        assert_eq!(token.to_text(), *shown);
        assert_eq!(token.copy(), *token);
        for (other, _, _) in &all {
            assert_eq!(token.same(other), token == other);
        }
    }
    assert_eq!(Token::Str("s".to_string()).as_var().unwrap().to_text(), "s");
    assert_eq!(Token::Num(number_from_text("2").unwrap()).as_var().unwrap().to_text(), "2");
    match Token::Ident("x".to_string()).as_var() {
        Err(Error::UnexpectedToken(Some(Token::Ident(name)))) => assert_eq!(name, "x"),
        other => panic!("unexpected: {:?}", other),
    }
    match Token::EndLine.as_var() {
        Err(Error::UnexpectedToken(Some(Token::EndLine))) => {}
        other => panic!("unexpected: {:?}", other),
    }
}

#[test]
fn nodes_are_named_copied_and_valued() {
    let call = Node::CallExpr {
        name: "f".to_string(),
        args: vec![Node::Term(Token::Ident("a".to_string()))],
        assign_to: Some("r".to_string()),
    };
    let function = Node::FunctionDecl { name: "f".to_string(), args: vec![], nodes: vec![] };
    assert_eq!(Node::Term(Token::EndLine).as_words(), "a line ending token (`;`)");
    assert_eq!(Node::Array(vec![]).as_words(), "an array");
    assert_eq!(Node::Group(vec![]).as_words(), "a group");
    assert_eq!(Node::Block(vec![]).as_words(), "a codeblock");
    assert_eq!(call.as_words(), "a call expression");
    assert_eq!(function.as_words(), "a function declaration");
    let block = Node::Block(vec![call.copy(), Node::Group(vec![function.copy()])]);
    assert_eq!(block.copy(), block);
    assert!(block.same(&block.copy()));
    assert!(!block.same(&Node::Group(vec![call.copy(), Node::Group(vec![function.copy()])])));
    assert!(!call.same(&Node::CallExpr {
        name: "f".to_string(),
        args: vec![Node::Term(Token::Ident("a".to_string()))],
        assign_to: None,
    }));
    let list = vec![call.copy(), function.copy()];
    assert_eq!(copy_nodes(&list), list);
    assert!(same_nodes(&list, &copy_nodes(&list)));
    assert!(!same_nodes(&list, &vec![call.copy()]));
}

#[test]
fn literal_nodes_have_values_and_other_nodes_are_unexpected() {
    let literal = Node::Array(vec![
        Node::Term(Token::Str("a".to_string())),
        Node::Array(vec![Node::Term(Token::Num(number_from_text("2").unwrap()))]),
    ]);
    assert_eq!(literal.value().unwrap().to_text(), "[a [2]]");
    assert_eq!(literal.as_var().unwrap().to_text(), "[a [2]]");
    let with_name = Node::Array(vec![
        Node::Term(Token::Str("a".to_string())),
        Node::Term(Token::Ident("x".to_string())),
        Node::Group(vec![]),
    ]);
    match with_name.as_var() {
        Err(Error::UnexpectedNode(Some(found))) => {
            assert_eq!(found, Node::Term(Token::Ident("x".to_string())));
        }
        other => panic!("unexpected: {:?}", other),
    }
    match Node::Block(vec![]).as_var() {
        Err(Error::UnexpectedNode(Some(found))) => assert_eq!(found, Node::Block(vec![])),
        other => panic!("unexpected: {:?}", other),
    }
    let values = values_of(&vec![
        Node::Term(Token::Str("a".to_string())),
        Node::Term(Token::Num(number_from_text("2").unwrap())),
    ])
    .unwrap();
    assert_eq!(values.len(), 2);
    assert_eq!(values[1].to_text(), "2");
}
