use jpl::ast::{BinaryOperator, ParsedExpr, ParsedStatement};
use jpl::lexer::{lex, Span, Token, TokenContents};
use jpl::parser::Parser;

fn parse(source: &str) -> Result<Vec<ParsedStatement>, (String, usize)> {
    let tokens = lex(source.as_bytes()).unwrap();
    Parser::new(tokens).parse().map_err(|e| (e.message().clone(), e.line()))
}

fn num(i: i64) -> ParsedExpr {
    ParsedExpr::IntegerConstant(i)
}

fn var(n: &str) -> ParsedExpr {
    ParsedExpr::Var(n.to_string())
}

fn bin(l: ParsedExpr, op: BinaryOperator, r: ParsedExpr) -> ParsedExpr {
    ParsedExpr::BinaryOp(Box::new(l), op, Box::new(r))
}

fn call(n: &str, arg: ParsedExpr) -> ParsedExpr {
    ParsedExpr::FunctionCall(n.to_string(), vec![arg])
}

fn decl(n: &str, e: ParsedExpr) -> ParsedStatement {
    ParsedStatement::VarDecl(n.to_string(), e)
}

fn value_of(source: &str) -> ParsedExpr {
    let mut stmts = parse(&format!("let r = {}", source)).unwrap();
    assert_eq!(stmts.len(), 1);
    match stmts.pop().unwrap() {
        ParsedStatement::VarDecl(name, e) => {
            assert_eq!(name, "r");
            e
        }
        other => panic!("no declaration: {:?}", other),
    }
}

fn syntax_error(source: &str) -> (String, usize) {
    parse(source).unwrap_err()
}

#[test]
fn multiplication_binds_tighter_than_addition() {
    assert_eq!(
        value_of("2 + 3 * 4"),
        bin(num(2), BinaryOperator::Add, bin(num(3), BinaryOperator::Multiply, num(4)))
    );
    assert_ne!(
        value_of("2 + 3 * 4"),
        bin(bin(num(2), BinaryOperator::Add, num(3)), BinaryOperator::Multiply, num(4))
    );
    assert_eq!(
        value_of("2 * 3 + 4"),
        bin(bin(num(2), BinaryOperator::Multiply, num(3)), BinaryOperator::Add, num(4))
    );
    assert_eq!(
        value_of("8 - 6 / 2"),
        bin(num(8), BinaryOperator::Subtract, bin(num(6), BinaryOperator::Divide, num(2)))
    );
}

#[test]
fn chains_group_from_the_left() {
    assert_eq!(
        value_of("8 - 3 - 2"),
        bin(bin(num(8), BinaryOperator::Subtract, num(3)), BinaryOperator::Subtract, num(2))
    );
    assert_eq!(
        value_of("8 / 4 / 2"),
        bin(bin(num(8), BinaryOperator::Divide, num(4)), BinaryOperator::Divide, num(2))
    );
    assert_eq!(
        value_of("1 + 2 - 3 + 4"),
        bin(
            bin(bin(num(1), BinaryOperator::Add, num(2)), BinaryOperator::Subtract, num(3)),
            BinaryOperator::Add,
            num(4)
        )
    );
}

#[test]
fn parentheses_group() {
    assert_eq!(
        value_of("(2 + 3) * 4"),
        bin(bin(num(2), BinaryOperator::Add, num(3)), BinaryOperator::Multiply, num(4))
    );
    assert_eq!(
        value_of("8 - (3 - 2)"),
        bin(num(8), BinaryOperator::Subtract, bin(num(3), BinaryOperator::Subtract, num(2)))
    );
    assert_eq!(value_of("((7))"), num(7));
}

#[test]
fn factors() {
    assert_eq!(value_of("42"), num(42));
    assert_eq!(value_of("x"), var("x"));
    assert_eq!(value_of("2.5"), ParsedExpr::FloatConstant("2.5".to_string()));
    assert_eq!(value_of("f(1)"), call("f", num(1)));
}

#[test]
fn name_before_a_parenthesis_is_a_call() {
    assert_eq!(
        value_of("f(1) + g"),
        bin(call("f", num(1)), BinaryOperator::Add, var("g"))
    );
    assert_eq!(value_of("f(g(x + 1))"), call("f", call("g", bin(var("x"), BinaryOperator::Add, num(1)))));
    assert_eq!(
        value_of("f(\"text\")"),
        call("f", ParsedExpr::QuotedString("text".to_string()))
    );
}

#[test]
fn declaration_may_hold_a_string() {
    assert_eq!(
        parse("let s = \"hi there\"").unwrap(),
        vec![decl("s", ParsedExpr::QuotedString("hi there".to_string()))]
    );
}

#[test]
fn string_is_no_operand() {
    assert_eq!(syntax_error("let s = 1 + \"a\""), ("Expected parenthesis or number.".to_string(), 1));
    assert_eq!(syntax_error("let s = \"a\" + 1"), ("expected variable or literal".to_string(), 1));
}

#[test]
fn call_statement() {
    assert_eq!(
        parse("print(x + y)").unwrap(),
        vec![ParsedStatement::FunctionCall(
            "print".to_string(),
            vec![bin(var("x"), BinaryOperator::Add, var("y"))]
        )]
    );
    assert_eq!(
        parse("print(\"hello\")").unwrap(),
        vec![ParsedStatement::FunctionCall(
            "print".to_string(),
            vec![ParsedExpr::QuotedString("hello".to_string())]
        )]
    );
}

#[test]
fn statements_come_in_their_order() {
    assert_eq!(
        parse("let x = 10\nlet y = 20\nprint(x + y)").unwrap(),
        vec![
            decl("x", num(10)),
            decl("y", num(20)),
            ParsedStatement::FunctionCall(
                "print".to_string(),
                vec![bin(var("x"), BinaryOperator::Add, var("y"))]
            ),
        ]
    );
}

#[test]
fn function_declaration() {
    assert_eq!(
        parse("function double(n) {\n  let two = 2\n  print(n)\n  return n * two\n}\nprint(double(4))")
            .unwrap(),
        vec![
            ParsedStatement::FunctionDeclaration(
                "double".to_string(),
                "n".to_string(),
                vec![
                    decl("two", num(2)),
                    ParsedStatement::FunctionCall("print".to_string(), vec![var("n")]),
                    ParsedStatement::ReturnStatement(bin(
                        var("n"),
                        BinaryOperator::Multiply,
                        var("two")
                    )),
                ]
            ),
            ParsedStatement::FunctionCall("print".to_string(), vec![call("double", num(4))]),
        ]
    );
    assert_eq!(
        parse("function f(a) { }").unwrap(),
        vec![ParsedStatement::FunctionDeclaration("f".to_string(), "a".to_string(), vec![])]
    );
}

#[test]
fn function_inside_a_function_is_parsed() {
    assert_eq!(
        parse("function f(a) { function g(b) { return b } }").unwrap(),
        vec![ParsedStatement::FunctionDeclaration(
            "f".to_string(),
            "a".to_string(),
            vec![ParsedStatement::FunctionDeclaration(
                "g".to_string(),
                "b".to_string(),
                vec![ParsedStatement::ReturnStatement(var("b"))]
            )]
        )]
    );
}

#[test]
fn keywords_in_any_case() {
    assert_eq!(parse("LET x = 1").unwrap(), vec![decl("x", num(1))]);
    assert_eq!(parse("Let x = 1").unwrap(), vec![decl("x", num(1))]);
    assert_eq!(
        parse("FUNCTION f(a) { RETURN a }").unwrap(),
        vec![ParsedStatement::FunctionDeclaration(
            "f".to_string(),
            "a".to_string(),
            vec![ParsedStatement::ReturnStatement(var("a"))]
        )]
    );
}

#[test]
fn return_is_a_keyword_only_inside_a_body() {
    assert_eq!(
        parse("return(1)").unwrap(),
        vec![ParsedStatement::FunctionCall("return".to_string(), vec![num(1)])]
    );
    assert_eq!(syntax_error("return 1"), ("expected variable or literal".to_string(), 1));
}

#[test]
fn empty_program() {
    assert_eq!(parse("").unwrap(), vec![]);
    assert_eq!(parse("  // nothing\n\n").unwrap(), vec![]);
}

#[test]
fn statement_errors() {
    assert_eq!(syntax_error("5"), ("expected variable or literal".to_string(), 1));
    assert_eq!(syntax_error("x"), ("expected variable or literal".to_string(), 1));
    assert_eq!(syntax_error("let a = 1\n\nx = 2"), ("expected variable or literal".to_string(), 3));
    assert_eq!(syntax_error("let a = 1 2"), ("expected variable or literal".to_string(), 1));
}

#[test]
fn declaration_errors() {
    assert_eq!(syntax_error("let 5"), ("Expected variable name.".to_string(), 1));
    assert_eq!(syntax_error("let"), ("Expected variable name.".to_string(), 1));
    assert_eq!(syntax_error("let x 5"), ("Expected equals sign.".to_string(), 1));
    assert_eq!(syntax_error("let x = +"), ("Expected parenthesis or number.".to_string(), 1));
    assert_eq!(syntax_error("let x = (1 + 2"), ("Expected closing parenthesis.".to_string(), 1));
    assert_eq!(syntax_error("let x = 1 +\n\n"), ("Expected parenthesis or number.".to_string(), 3));
    assert_eq!(syntax_error("let x =\n  1 *\n  )"), ("Expected parenthesis or number.".to_string(), 3));
}

#[test]
fn call_errors() {
    assert_eq!(syntax_error("print()"), ("Expected expression.".to_string(), 1));
    assert_eq!(syntax_error("print(1 +\n)"), ("Expected expression.".to_string(), 2));
    assert_eq!(syntax_error("print(1"), ("Expected right parenthesis.".to_string(), 1));
    assert_eq!(syntax_error("print(1 2)"), ("Expected right parenthesis.".to_string(), 1));
    assert_eq!(syntax_error("print(\"a\" \"b\")"), ("Expected right parenthesis.".to_string(), 1));
    assert_eq!(syntax_error("let x = f(1\n2)"), ("Expected right parenthesis.".to_string(), 2));
}

#[test]
fn function_declaration_errors() {
    assert_eq!(syntax_error("function (a) { }"), ("Expected function name.".to_string(), 1));
    assert_eq!(syntax_error("function f { }"), ("Expected left parenthesis.".to_string(), 1));
    assert_eq!(syntax_error("function f(1) { }"), ("Expected argument name.".to_string(), 1));
    assert_eq!(syntax_error("function f(a { }"), ("Expected right parenthesis.".to_string(), 1));
    assert_eq!(syntax_error("function f(a)\nx"), ("Expected left curly brace.".to_string(), 2));
    assert_eq!(syntax_error("function f(a) {\n return a\n"), ("expected variable or literal".to_string(), 3));
    assert_eq!(syntax_error("function f(a) { return }"), ("Expected parenthesis or number.".to_string(), 1));
}

#[test]
fn parsing_stops_at_the_first_error() {
    assert_eq!(syntax_error("let = 1\nlet = 2"), ("Expected variable name.".to_string(), 1));
}

#[test]
fn tokens_without_a_marker_are_closed() {
    assert_eq!(Parser::new(vec![]).parse().unwrap(), vec![]);
    let tokens = vec![
        Token::on_line(TokenContents::Name("let".to_string()), Span::new(0, 2), 4),
        Token::on_line(TokenContents::Name("x".to_string()), Span::new(4, 4), 4),
        Token::on_line(TokenContents::Equal, Span::new(6, 6), 4),
        Token::on_line(TokenContents::Integer(1), Span::new(8, 8), 4),
    ];
    assert_eq!(Parser::new(tokens).parse().unwrap(), vec![decl("x", num(1))]);
    let tokens = vec![
        Token::on_line(TokenContents::Name("let".to_string()), Span::new(0, 2), 4),
        Token::on_line(TokenContents::Name("x".to_string()), Span::new(4, 4), 5),
    ];
    let e = Parser::new(tokens).parse().unwrap_err();
    assert_eq!((e.message().as_str(), e.line()), ("Expected equals sign.", 5));
}

#[test]
fn parsing_ends_at_the_first_marker() {
    let tokens = vec![
        Token::new(TokenContents::Eof, Span::new(0, 0)),
        Token::new(TokenContents::Integer(1), Span::new(0, 0)),
        Token::new(TokenContents::Eof, Span::new(0, 0)),
    ];
    assert_eq!(Parser::new(tokens).parse().unwrap(), vec![]);
}

#[test]
fn parse_again_after_the_end_gives_nothing() {
    let mut parser = Parser::new(lex(b"let x = 1").unwrap());
    assert_eq!(parser.parse().unwrap(), vec![decl("x", num(1))]);
    assert_eq!(parser.parse().unwrap(), vec![]);
}

#[test]
fn fully_parenthesised_notation_is_read_back() {
    let product = bin(
        bin(num(1), BinaryOperator::Add, var("x")),
        BinaryOperator::Multiply,
        call("f", bin(num(2), BinaryOperator::Subtract, ParsedExpr::FloatConstant("0.5".to_string()))),
    );
    assert_eq!(value_of("((1 + x) * f((2 - 0.5)))"), product);
    let quotient = bin(
        call("g", ParsedExpr::QuotedString("s".to_string())),
        BinaryOperator::Divide,
        bin(var("a"), BinaryOperator::Divide, var("b")),
    );
    assert_eq!(value_of("(g(\"s\") / (a / b))"), quotient);
}
