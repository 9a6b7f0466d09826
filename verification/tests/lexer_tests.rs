use shrimp::errors::Error;
use shrimp::lexer::{chars_of, make_tokens, number_from_text, position};
use shrimp::number::Number;
use shrimp::tokens::Token;

fn lex_num(negative: bool, whole: &[u8], frac: &[u8]) -> Token {
    Token::Num(Number::from_digits(negative, whole.to_vec(), frac.to_vec()).unwrap())
}

fn lex_ident(name: &str) -> Token {
    Token::Ident(name.to_string())
}

#[test]
fn hello_program_lexes_to_its_markers() {
    let tokens = make_tokens("@main(){ println(\"hi\"); }").unwrap();
    let expected = vec![
        Token::FunctionDecl,
        lex_ident("main"),
        Token::OpenBracket,
        Token::CloseBracket,
        Token::OpenCurly,
        lex_ident("println"),
        Token::OpenBracket,
        Token::Str("hi".to_string()),
        Token::CloseBracket,
        Token::EndLine,
        Token::CloseCurly,
    ];
    assert_eq!(tokens, expected);
}

#[test]
fn empty_source_has_no_tokens() {
    assert_eq!(make_tokens("").unwrap(), vec![]);
    assert_eq!(make_tokens(" \n\t ").unwrap(), vec![]);
}

#[test]
fn numbers_take_one_point_and_a_sign() {
    let tokens = make_tokens("12 3.50 -7 -0.25 007 4.").unwrap();
    let expected = vec![
        lex_num(false, &[1, 2], &[]),
        lex_num(false, &[3], &[5]),
        lex_num(true, &[7], &[]),
        lex_num(true, &[], &[2, 5]),
        lex_num(false, &[7], &[]),
        lex_num(false, &[4], &[]),
    ];
    assert_eq!(tokens, expected);
}

#[test]
fn a_second_point_ends_the_number() {
    match make_tokens("1.2.3") {
        Err(Error::UnexpectedChar(line, column, c)) => {
            assert_eq!((line, column, c), (0, 3, '.'));
        }
        other => panic!("unexpected: {:?}", other),
    }
}

#[test]
fn comments_are_skipped() {
    let tokens = make_tokens("a # b c ; # d #never closed").unwrap();
    assert_eq!(tokens, vec![lex_ident("a"), lex_ident("d")]);
}

#[test]
fn names_continue_with_ascii_letters_digits_and_underscores() {
    let tokens = make_tokens("num_max x1 \u{e9}t\u{e9}").unwrap();
    assert_eq!(
        tokens,
        vec![lex_ident("num_max"), lex_ident("x1"), lex_ident("\u{e9}t"), lex_ident("\u{e9}")]
    );
}

#[test]
fn every_punctuation_mark_has_its_token() {
    let tokens = make_tokens("@{}()[];->=>").unwrap();
    let expected = vec![
        Token::FunctionDecl,
        Token::OpenCurly,
        Token::CloseCurly,
        Token::OpenBracket,
        Token::CloseBracket,
        Token::OpenSquare,
        Token::CloseSquare,
        Token::EndLine,
        Token::ArrowAssigner,
        Token::ForAssigner,
    ];
    assert_eq!(tokens, expected);
}

#[test]
fn strings_resolve_their_escapes() {
    let tokens = make_tokens("\"a\\nb\\\"c\\u\\\\d\\\ne\nf\"").unwrap();
    assert_eq!(tokens, vec![Token::Str("a\nb\"c\u{0}\\de\nf".to_string())]);
}

#[test]
fn unicode_white_space_separates_tokens() {
    let tokens = make_tokens("a\u{a0}b\u{2003}c\td").unwrap();
    assert_eq!(tokens, vec![lex_ident("a"), lex_ident("b"), lex_ident("c"), lex_ident("d")]);
}

#[test]
fn unterminated_string_reports_the_end_of_input() {
    match make_tokens("decl x\n  \"abc") {
        Err(Error::UnexpectedEOF(line, column)) => {
            assert_eq!((line, column), (1, 6));
        }
        other => panic!("unexpected: {:?}", other),
    }
}

#[test]
fn string_that_ends_in_an_escape_is_unterminated() {
    match make_tokens("\"abc\\") {
        Err(Error::UnexpectedEOF(line, column)) => {
            assert_eq!((line, column), (0, 5));
        }
        other => panic!("unexpected: {:?}", other),
    }
}

#[test]
fn a_line_break_inside_a_string_counts_as_a_line() {
    match make_tokens("\"a\nb\" $") {
        Err(Error::UnexpectedChar(line, column, c)) => {
            assert_eq!((line, column, c), (1, 3, '$'));
        }
        other => panic!("unexpected: {:?}", other),
    }
}

#[test]
fn unexpected_character_carries_line_and_column() {
    match make_tokens("ab\n  $") {
        Err(Error::UnexpectedChar(line, column, c)) => {
            assert_eq!((line, column, c), (1, 2, '$'));
        }
        other => panic!("unexpected: {:?}", other),
    }
}

#[test]
fn a_comma_starts_no_token() {
    match make_tokens("[1, 2]") {
        Err(Error::UnexpectedChar(line, column, c)) => {
            assert_eq!((line, column, c), (0, 2, ','));
        }
        other => panic!("unexpected: {:?}", other),
    }
}

#[test]
fn equals_sign_needs_its_arrow_head() {
    match make_tokens("a =x") {
        Err(Error::UnexpectedChar(line, column, c)) => {
            assert_eq!((line, column, c), (0, 3, 'x'));
        }
        other => panic!("unexpected: {:?}", other),
    }
    match make_tokens("a =") {
        Err(Error::UnexpectedEOF(line, column)) => {
            assert_eq!((line, column), (0, 3));
        }
        other => panic!("unexpected: {:?}", other),
    }
}

#[test]
fn minus_needs_a_digit_or_an_arrow_head() {
    match make_tokens("-x") {
        Err(Error::UnexpectedChar(line, column, c)) => {
            assert_eq!((line, column, c), (0, 1, 'x'));
        }
        other => panic!("unexpected: {:?}", other),
    }
    match make_tokens("\n-") {
        Err(Error::UnexpectedEOF(line, column)) => {
            assert_eq!((line, column), (1, 1));
        }
        other => panic!("unexpected: {:?}", other),
    }
}

#[test]
fn a_digit_of_another_script_starts_no_token() {
    match make_tokens("\u{663}") {
        Err(Error::UnexpectedChar(line, column, c)) => {
            assert_eq!((line, column, c), (0, 0, '\u{663}'));
        }
        other => panic!("unexpected: {:?}", other),
    }
}

#[test]
fn position_counts_lines_and_columns_from_zero() {
    let chars = chars_of("ab\ncd\n");
    assert_eq!(chars, vec!['a', 'b', '\n', 'c', 'd', '\n']);
    assert_eq!(position(&chars, 0), (0, 0));
    assert_eq!(position(&chars, 2), (0, 2));
    assert_eq!(position(&chars, 3), (1, 0));
    assert_eq!(position(&chars, 5), (1, 2));
    assert_eq!(position(&chars, 6), (2, 0));
    assert_eq!(position(&chars, 60), (2, 0));
}

#[test]
fn decimal_text_is_read_as_a_number() {
    let n = number_from_text("-012.340").unwrap();
    assert_eq!(n, Number::from_digits(true, vec![1, 2], vec![3, 4]).unwrap());
    assert_eq!(number_from_text("12.").unwrap().to_text(), "12");
    assert_eq!(number_from_text("-0").unwrap().to_text(), "0");
    assert!(number_from_text("").is_none());
    assert!(number_from_text("-").is_none());
    assert!(number_from_text(".5").is_none());
    assert!(number_from_text("1.2.3").is_none());
    assert!(number_from_text("12a").is_none());
    assert!(number_from_text(" 12").is_none());
}
