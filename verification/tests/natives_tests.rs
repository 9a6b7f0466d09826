use shrimp::data_types::Variable;
use shrimp::errors::Error;
use shrimp::lexer::number_from_text;
use shrimp::natives::{
    bnd, byte_number, bytes, call_native, chars, comment, compare, con, custom, element,
    enumerate, eq, index, index_v, len, letter, not, number_item, pop, push, range, replace,
    split, str, weak_eq, whole_number,
};
use shrimp::number::Number;

fn n(text: &str) -> Variable {
    Variable::Num(number_from_text(text).unwrap())
}

fn s(text: &str) -> Variable {
    Variable::Str(text.to_string())
}

fn list(items: Vec<Variable>) -> Variable {
    Variable::Array(items)
}

fn shown(result: Result<Variable, Error>) -> String {
    match result {
        Ok(value) => value.to_text(),
        Err(error) => format!("{:?}", error),
    }
}

fn counts(result: Result<Variable, Error>) -> (usize, usize) {
    match result {
        Err(Error::IncorrectArgCount(expected, found)) => (expected, found),
        other => panic!("unexpected: {:?}", other),
    }
}

fn bounds(result: Result<Variable, Error>) -> (usize, usize) {
    match result {
        Err(Error::OutOfBoundsIndex(length, place)) => (length, place),
        other => panic!("unexpected: {:?}", other),
    }
}

fn mismatch(result: Result<Variable, Error>) -> (String, String) {
    match result {
        Err(Error::VarTypeMismatch(expected, found)) => (expected.as_words(), found.to_text()),
        other => panic!("unexpected: {:?}", other),
    }
}

fn missing(result: Result<Variable, Error>) -> String {
    match result {
        Err(Error::MissingArgs(name)) => name,
        other => panic!("unexpected: {:?}", other),
    }
}

#[test]
fn len_counts_elements_and_bytes() {
    assert_eq!(shown(len(&vec![list(vec![n("1"), s("a"), list(vec![])])])), "3");
    assert_eq!(shown(len(&vec![list(vec![])])), "0");
    assert_eq!(shown(len(&vec![s("hello")])), "5");
    assert_eq!(shown(len(&vec![s("h\u{e9}llo")])), "6");
    assert_eq!(counts(len(&vec![])), (1, 0));
    assert_eq!(counts(len(&vec![s("a"), s("b")])), (1, 2));
    assert_eq!(mismatch(len(&vec![n("5")])), ("an array".to_string(), "5".to_string()));
}

#[test]
fn bnd_is_the_last_place() {
    assert_eq!(shown(bnd(&vec![list(vec![n("1"), n("2")])])), "1");
    assert_eq!(shown(bnd(&vec![s("abcdefghijkl")])), "11");
    assert_eq!(bounds(bnd(&vec![list(vec![])])), (0, 0));
    assert_eq!(bounds(bnd(&vec![s("")])), (0, 0));
    assert_eq!(counts(bnd(&vec![])), (1, 0));
    assert_eq!(mismatch(bnd(&vec![Variable::Void])), ("an array".to_string(), "()".to_string()));
}

#[test]
fn pop_drops_the_last_element() {
    assert_eq!(shown(pop(&vec![list(vec![n("1"), n("2"), n("3")])])), "[1 2]");
    assert_eq!(shown(pop(&vec![list(vec![])])), "[]");
    assert_eq!(counts(pop(&vec![])), (1, 0));
    assert_eq!(mismatch(pop(&vec![s("abc")])), ("an array".to_string(), "abc".to_string()));
}

#[test]
fn push_adds_all_further_arguments() {
    assert_eq!(shown(push(&vec![list(vec![n("1")]), n("2"), s("x")])), "[1 2 x]");
    assert_eq!(shown(push(&vec![list(vec![]), list(vec![])])), "[[]]");
    assert_eq!(missing(push(&vec![list(vec![])])), "push");
    assert_eq!(missing(push(&vec![])), "push");
    assert_eq!(mismatch(push(&vec![n("1"), n("2")])), ("an array".to_string(), "1".to_string()));
}

#[test]
fn index_gives_the_element_at_a_place() {
    let array = list(vec![s("a"), s("b"), s("c")]);
    assert_eq!(shown(index(&vec![array.copy(), n("0")])), "a");
    assert_eq!(shown(index(&vec![array.copy(), n("2")])), "c");
    assert_eq!(shown(index(&vec![array.copy(), n("1.9")])), "b");
    assert_eq!(shown(index(&vec![array.copy(), n("-1")])), "a");
    assert_eq!(bounds(index(&vec![array.copy(), n("3")])), (3, 3));
    assert_eq!(
        bounds(index(&vec![array.copy(), n("99999999999999999999999999")])),
        (3, usize::MAX)
    );
    assert_eq!(counts(index(&vec![array.copy()])), (2, 1));
    assert_eq!(
        mismatch(index(&vec![array.copy(), s("0")])),
        ("a number".to_string(), "0".to_string())
    );
    assert_eq!(
        mismatch(index(&vec![Variable::Bool(true), n("0")])),
        ("an array".to_string(), "true".to_string())
    );
}

#[test]
fn index_of_a_string_counts_in_bytes() {
    let text = s("h\u{e9}llo");
    assert_eq!(shown(index(&vec![text.copy(), n("0")])), "h");
    assert_eq!(shown(index(&vec![text.copy(), n("1")])), "\u{e9}");
    assert_eq!(bounds(index(&vec![text.copy(), n("2")])), (6, 2));
    assert_eq!(shown(index(&vec![text.copy(), n("3")])), "l");
    assert_eq!(shown(index(&vec![text.copy(), n("5")])), "o");
    assert_eq!(bounds(index(&vec![text.copy(), n("6")])), (6, 6));
    assert_eq!(bounds(index(&vec![s(""), n("0")])), (0, 0));
    assert_eq!(
        mismatch(index(&vec![text.copy(), Variable::Void])),
        ("a number".to_string(), "()".to_string())
    );
}

#[test]
fn index_v_gives_the_empty_value_beyond_the_array() {
    let array = list(vec![s("a"), s("b")]);
    assert_eq!(shown(index_v(&vec![array.copy(), n("1")])), "b");
    assert_eq!(shown(index_v(&vec![array.copy(), n("2")])), "()");
    assert_eq!(counts(index_v(&vec![])), (2, 0));
    assert_eq!(
        mismatch(index_v(&vec![s("ab"), n("0")])),
        ("an array".to_string(), "ab".to_string())
    );
    assert_eq!(
        mismatch(index_v(&vec![array.copy(), s("0")])),
        ("a number".to_string(), "0".to_string())
    );
}

#[test]
fn replace_puts_an_element_at_a_place() {
    let array = list(vec![n("1"), n("2"), n("3")]);
    assert_eq!(shown(replace(&vec![array.copy(), n("1"), s("x")])), "[1 x 3]");
    assert_eq!(shown(replace(&vec![array.copy(), n("0"), list(vec![])])), "[[] 2 3]");
    assert_eq!(bounds(replace(&vec![array.copy(), n("3"), s("x")])), (3, 3));
    assert_eq!(counts(replace(&vec![array.copy(), n("1")])), (3, 2));
    assert_eq!(
        mismatch(replace(&vec![s("abc"), n("1"), s("x")])),
        ("an array".to_string(), "abc".to_string())
    );
    assert_eq!(
        mismatch(replace(&vec![array.copy(), s("1"), s("x")])),
        ("a number".to_string(), "1".to_string())
    );
}

#[test]
fn enumerate_pairs_each_element_with_its_place() {
    assert_eq!(shown(enumerate(&vec![list(vec![s("a"), s("b"), s("c")])])), "[[0 a] [1 b] [2 c]]");
    assert_eq!(shown(enumerate(&vec![list(vec![])])), "[]");
    let many: Vec<Variable> = (0..500).map(|i| n(&i.to_string())).collect();
    match enumerate(&vec![list(many)]).unwrap() {
        Variable::Array(pairs) => {
            assert_eq!(pairs.len(), 500);
            for (place, pair) in pairs.iter().enumerate() {
                assert_eq!(pair.to_text(), format!("[{} {}]", place, place));
            }
        }
        other => panic!("unexpected: {:?}", other),
    }
    assert_eq!(counts(enumerate(&vec![])), (1, 0));
    assert_eq!(mismatch(enumerate(&vec![n("1")])), ("an array".to_string(), "1".to_string()));
    assert_eq!(number_item(7, s("x")).to_text(), "[7 x]");
}

#[test]
fn eq_compares_all_arguments_with_the_first() {
    assert_eq!(shown(eq(&vec![n("1"), n("1.0"), n("01")])), "true");
    assert_eq!(shown(eq(&vec![n("1"), n("1"), n("2")])), "false");
    assert_eq!(shown(eq(&vec![s("a")])), "true");
    assert_eq!(shown(eq(&vec![list(vec![n("1")]), list(vec![n("1")])])), "true");
    assert_eq!(missing(eq(&vec![])), "eq");
    assert_eq!(mismatch(eq(&vec![n("1"), s("1")])), ("a string".to_string(), "1".to_string()));
    assert_eq!(shown(eq(&vec![n("1"), n("2"), s("1")])), "false");
}

#[test]
fn weak_eq_compares_the_texts() {
    assert_eq!(shown(weak_eq(&vec![n("1"), s("1"), n("1.0")])), "true");
    assert_eq!(shown(weak_eq(&vec![n("1"), s("1"), s("1.0")])), "false");
    assert_eq!(shown(weak_eq(&vec![Variable::Bool(true), s("true")])), "true");
    assert_eq!(missing(weak_eq(&vec![n("1")])), "weak_eq");
}

#[test]
fn comparison_is_true_when_the_first_is_below_none() {
    assert_eq!(shown(compare(&vec![n("5"), n("3"), n("5"), n("-1")])), "true");
    assert_eq!(shown(compare(&vec![n("5"), n("3"), n("5.5")])), "false");
    assert_eq!(shown(compare(&vec![n("0"), n("5")])), "false");
    assert_eq!(missing(compare(&vec![n("1")])), "cmp");
    assert_eq!(
        mismatch(compare(&vec![n("1"), s("2")])),
        ("a number".to_string(), "2".to_string())
    );
    assert_eq!(
        mismatch(compare(&vec![s("1"), n("2")])),
        ("a number".to_string(), "1".to_string())
    );
    assert_eq!(shown(compare(&vec![n("1"), n("2"), s("3")])), "false");
}

#[test]
fn range_counts_whole_numbers() {
    assert_eq!(shown(range(&vec![n("0"), n("5")])), "[0 1 2 3 4]");
    assert_eq!(shown(range(&vec![n("-2"), n("2")])), "[-2 -1 0 1]");
    assert_eq!(shown(range(&vec![n("1.9"), n("3.1")])), "[1 2]");
    assert_eq!(shown(range(&vec![n("-1.9"), n("1")])), "[-1 0]");
    assert_eq!(shown(range(&vec![n("3"), n("3")])), "[]");
    assert_eq!(shown(range(&vec![n("5"), n("0")])), "[]");
    assert_eq!(
        shown(range(&vec![n("2147483645"), n("99999999999")])),
        "[2147483645 2147483646]"
    );
    assert_eq!(
        shown(range(&vec![n("-99999999999"), n("-2147483646")])),
        "[-2147483648 -2147483647]"
    );
    assert_eq!(counts(range(&vec![n("0")])), (2, 1));
    assert_eq!(mismatch(range(&vec![s("0"), n("1")])), ("a number".to_string(), "0".to_string()));
    assert_eq!(mismatch(range(&vec![n("0"), s("1")])), ("a number".to_string(), "1".to_string()));
    assert_eq!(whole_number(-12).to_text(), "-12");
    assert_eq!(whole_number(i32::MIN).to_text(), "-2147483648");
}

#[test]
fn numbers_convert_to_places_counts_and_integers() {
    let number = |text: &str| number_from_text(text).unwrap();
    assert_eq!(Number::from_count(0).to_text(), "0");
    assert_eq!(Number::from_count(1204).to_text(), "1204");
    assert_eq!(Number::from_count(usize::MAX).to_text(), usize::MAX.to_string());
    assert_eq!(number("12.9").to_place(), 12);
    assert_eq!(number("-12.9").to_place(), 0);
    assert_eq!(number("0.5").to_place(), 0);
    assert_eq!(number(&usize::MAX.to_string()).to_place(), usize::MAX);
    assert_eq!(number("340282350000000000000000000000000000000").to_place(), usize::MAX);
    assert_eq!(Number::from_int(0).to_text(), "0");
    assert_eq!(Number::from_int(-45).to_text(), "-45");
    assert_eq!(Number::from_int(i32::MAX).to_text(), "2147483647");
    assert_eq!(number("2147483647").to_int(), i32::MAX);
    assert_eq!(number("2147483648").to_int(), i32::MAX);
    assert_eq!(number("-2147483648").to_int(), i32::MIN);
    assert_eq!(number("-2147483649").to_int(), i32::MIN);
    assert_eq!(number("-7.99").to_int(), -7);
    assert_eq!(number("7.99").to_int(), 7);
}

#[test]
fn con_joins_the_texts() {
    assert_eq!(shown(con(&vec![s("a"), n("1.50"), list(vec![n("2"), s("b")]), Variable::Void])), "a1.5[2 b]()");
    assert_eq!(shown(con(&vec![s("only")])), "only");
    assert_eq!(missing(con(&vec![])), "con");
}

#[test]
fn not_turns_a_boolean_around() {
    assert_eq!(shown(not(&vec![Variable::Bool(true)])), "false");
    assert_eq!(shown(not(&vec![Variable::Bool(false)])), "true");
    assert_eq!(counts(not(&vec![])), (1, 0));
    assert_eq!(mismatch(not(&vec![n("1")])), ("a boolean".to_string(), "1".to_string()));
}

#[test]
fn str_gives_the_text_of_a_value() {
    match str(&vec![list(vec![n("1"), s("a")])]).unwrap() {
        Variable::Str(text) => assert_eq!(text, "[1 a]"),
        other => panic!("unexpected: {:?}", other),
    }
    assert_eq!(counts(str(&vec![n("1"), n("2")])), (1, 2));
}

#[test]
fn chars_spells_a_string() {
    assert_eq!(shown(chars(&vec![s("h\u{e9}y")])), "[h \u{e9} y]");
    assert_eq!(shown(chars(&vec![s("")])), "[]");
    let long: String = (0..2000).map(|i| char::from(b'a' + (i % 26) as u8)).collect();
    match chars(&vec![s(&long)]).unwrap() {
        Variable::Array(letters) => {
            let again: String = letters.iter().map(|l| l.to_text()).collect();
            assert_eq!(again, long);
        }
        other => panic!("unexpected: {:?}", other),
    }
    assert_eq!(counts(chars(&vec![])), (1, 0));
    assert_eq!(mismatch(chars(&vec![n("1")])), ("a string".to_string(), "1".to_string()));
    assert_eq!(letter('x').to_text(), "x");
}

#[test]
fn bytes_lists_the_bytes_of_a_string() {
    assert_eq!(shown(bytes(&vec![s("A\u{e9}z")])), "[65 195 169 122]");
    assert_eq!(shown(bytes(&vec![s("")])), "[]");
    assert_eq!(counts(bytes(&vec![])), (1, 0));
    assert_eq!(mismatch(bytes(&vec![n("1")])), ("a string".to_string(), "1".to_string()));
    assert_eq!(byte_number(255).to_text(), "255");
}

#[test]
fn split_cuts_a_string_at_a_pattern() {
    assert_eq!(shown(split(&vec![s("a,b,,c"), s(",")])), "[a b  c]");
    assert_eq!(shown(split(&vec![s("one--two"), s("--")])), "[one two]");
    assert_eq!(shown(split(&vec![s("none"), s(",")])), "[none]");
    match split(&vec![s("a,b,,c"), s(",")]).unwrap() {
        Variable::Array(parts) => assert_eq!(parts.len(), 4),
        other => panic!("unexpected: {:?}", other),
    }
    assert_eq!(counts(split(&vec![s("a")])), (2, 1));
    assert_eq!(mismatch(split(&vec![n("1"), s(",")])), ("a string".to_string(), "1".to_string()));
    assert_eq!(mismatch(split(&vec![s("1"), n("2")])), ("a string".to_string(), "2".to_string()));
}

#[test]
fn elements_are_written_with_their_tag() {
    assert_eq!(shown(element("p", &vec![s("hello")])), "<p >hello</p>");
    assert_eq!(shown(element("a", &vec![s("here"), s("href=\"x\"")])), "<a href=\"x\">here</a>");
    assert_eq!(missing(element("p", &vec![])), "el_p");
    assert_eq!(missing(element("p", &vec![s("a"), s("b"), s("c")])), "el_p");
    assert_eq!(shown(custom(&vec![s("x-y"), s("inside")])), "<x-y >inside</x-y>");
    assert_eq!(
        shown(custom(&vec![s("x-y"), s("inside"), s("id=\"1\"")])),
        "<x-y id=\"1\">inside</x-y>"
    );
    assert_eq!(missing(custom(&vec![s("x-y")])), "el_custom");
    assert_eq!(shown(comment(&vec![s("a"), n("1")])), "<!-- a1 -->");
    assert_eq!(shown(comment(&vec![])), "<!--  -->");
}

#[test]
fn natives_are_found_by_name() {
    let one = vec![list(vec![n("1"), n("2")])];
    assert_eq!(shown(call_native("len", &one).unwrap()), "2");
    assert_eq!(shown(call_native("bnd", &one).unwrap()), "1");
    assert_eq!(shown(call_native("pop", &one).unwrap()), "[1]");
    assert_eq!(shown(call_native("enumerate", &one).unwrap()), "[[0 1] [1 2]]");
    assert_eq!(shown(call_native("str", &one).unwrap()), "[1 2]");
    assert_eq!(shown(call_native("con", &one).unwrap()), "[1 2]");
    assert_eq!(shown(call_native("el_comment", &one).unwrap()), "<!-- [1 2] -->");
    assert_eq!(shown(call_native("el_h1", &one).unwrap()), "<h1 >[1 2]</h1>");
    assert_eq!(shown(call_native("el_body", &one).unwrap()), "<body >[1 2]</body>");
    let two = vec![list(vec![n("1"), n("2")]), n("1")];
    assert_eq!(shown(call_native("index", &two).unwrap()), "2");
    assert_eq!(shown(call_native("index_v", &two).unwrap()), "2");
    assert_eq!(shown(call_native("push", &two).unwrap()), "[1 2 1]");
    assert_eq!(shown(call_native("el_custom", &two).unwrap()), "<[1 2] >1</[1 2]>");
    let numbers = vec![n("2"), n("4")];
    assert_eq!(shown(call_native("eq", &numbers).unwrap()), "false");
    assert_eq!(shown(call_native("weak_eq", &numbers).unwrap()), "false");
    assert_eq!(shown(call_native("cmp", &numbers).unwrap()), "false");
    assert_eq!(shown(call_native("range", &numbers).unwrap()), "[2 3]");
    let strings = vec![s("a b"), s(" ")];
    assert_eq!(shown(call_native("split", &strings).unwrap()), "[a b]");
    assert_eq!(shown(call_native("chars", &vec![s("ab")]).unwrap()), "[a b]");
    assert_eq!(shown(call_native("bytes", &vec![s("a")]).unwrap()), "[97]");
    assert_eq!(shown(call_native("not", &vec![Variable::Bool(true)]).unwrap()), "false");
    let three = vec![list(vec![n("1")]), n("0"), n("9")];
    assert_eq!(shown(call_native("replace", &three).unwrap()), "[9]");
    for other in ["println", "add", "io_read", "el_", "el_table", "el", "e", "", "el_P", "lens"] {
        assert!(call_native(other, &one).is_none(), "{}", other);
    }
}

#[test]
fn long_collections_keep_their_order() {
    match range(&vec![n("-1500"), n("1500")]).unwrap() {
        Variable::Array(numbers) => {
            assert_eq!(numbers.len(), 3000);
            for (place, number) in numbers.iter().enumerate() {
                assert_eq!(number.to_text(), (place as i64 - 1500).to_string());
            }
        }
        other => panic!("unexpected: {:?}", other),
    }
    let text: String = (0..3000).map(|i| char::from(b'0' + (i % 10) as u8)).collect();
    match bytes(&vec![s(&text)]).unwrap() {
        Variable::Array(values) => {
            assert_eq!(values.len(), 3000);
            for (place, value) in values.iter().enumerate() {
                assert_eq!(value.to_text(), (48 + place % 10).to_string());
            }
        }
        other => panic!("unexpected: {:?}", other),
    }
    let long = Variable::Array((0..3000).map(|i| n(&i.to_string())).collect());
    let shown: Vec<String> = (0..3000).map(|i| i.to_string()).collect();
    assert_eq!(long.to_text(), format!("[{}]", shown.join(" ")));
}
