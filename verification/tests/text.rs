use jpl::ast::{BinaryOperator, ParsedExpr, ParsedStatement};
use jpl::text::{matches_keyword, push_decimal, push_signed_decimal, to_lower};

fn unsigned(n: u128) -> String {
    let mut out = String::from("n=");
    push_decimal(&mut out, n);
    out
}

fn signed(i: i64) -> String {
    let mut out = String::new();
    push_signed_decimal(&mut out, i);
    out
}

#[test]
fn decimal_notation_of_natural_numbers() {
    assert_eq!(unsigned(0), "n=0");
    assert_eq!(unsigned(7), "n=7");
    assert_eq!(unsigned(10), "n=10");
    assert_eq!(unsigned(1234567890), "n=1234567890");
    assert_eq!(unsigned(u128::MAX), format!("n={}", u128::MAX));
}

#[test]
fn decimal_notation_of_integers() {
    assert_eq!(signed(0), "0");
    assert_eq!(signed(42), "42");
    assert_eq!(signed(-1), "-1");
    assert_eq!(signed(-100), "-100");
    assert_eq!(signed(i64::MAX), "9223372036854775807");
    assert_eq!(signed(i64::MIN), "-9223372036854775808");
}

#[test]
fn decimal_notation_is_read_back() {
    for n in [0i64, 5, 19, 1000, 65535, i64::MAX] {
        let tokens = jpl::lexer::lex(signed(n).as_bytes()).unwrap();
        assert_eq!(tokens[0].contents, jpl::lexer::TokenContents::Integer(n));
        assert_eq!(tokens.len(), 2);
    }
}

#[test]
fn lower_case_of_ascii_letters_only() {
    assert_eq!(to_lower('A'), 'a');
    assert_eq!(to_lower('Z'), 'z');
    assert_eq!(to_lower('m'), 'm');
    assert_eq!(to_lower('5'), '5');
    assert_eq!(to_lower('['), '[');
    assert_eq!(to_lower('@'), '@');
    assert_eq!(to_lower('\u{c9}'), '\u{c9}');
}

#[test]
fn keywords_match_in_any_case() {
    assert!(matches_keyword(&"let".to_string(), "let"));
    assert!(matches_keyword(&"LET".to_string(), "let"));
    assert!(matches_keyword(&"lEt".to_string(), "let"));
    assert!(matches_keyword(&"Function".to_string(), "function"));
    assert!(!matches_keyword(&"le".to_string(), "let"));
    assert!(!matches_keyword(&"lets".to_string(), "let"));
    assert!(!matches_keyword(&"lat".to_string(), "let"));
    assert!(!matches_keyword(&"".to_string(), "let"));
    assert!(!matches_keyword(&"l\u{e9}t".to_string(), "let"));
}

#[test]
fn copies_are_equal_to_what_they_copy() {
    let e = ParsedExpr::BinaryOp(
        Box::new(ParsedExpr::FunctionCall(
            "f".to_string(),
            vec![ParsedExpr::Var("x".to_string()), ParsedExpr::FloatConstant("1.5".to_string())],
        )),
        BinaryOperator::Divide,
        Box::new(ParsedExpr::QuotedString("s".to_string())),
    );
    assert_eq!(e.clone(), e);
    let s = ParsedStatement::FunctionDeclaration(
        "f".to_string(),
        "a".to_string(),
        vec![
            ParsedStatement::VarDecl("v".to_string(), e.clone()),
            ParsedStatement::FunctionCall("g".to_string(), vec![e.clone(), ParsedExpr::IntegerConstant(3)]),
            ParsedStatement::ReturnStatement(e.clone()),
            ParsedStatement::FunctionDeclaration("h".to_string(), "b".to_string(), vec![]),
        ],
    );
    assert_eq!(s.clone(), s);
}

#[test]
fn items_are_reached_by_their_short_paths() {
    let e: jpl::JPLError = jpl::JPLError::new("m".to_string(), 1);
    assert_eq!(e.line(), 1);
    let op: jpl::parser::BinaryOperator = jpl::parser::BinaryOperator::Add;
    assert_eq!(op, BinaryOperator::Add);
}
