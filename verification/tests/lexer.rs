use jpl::error::JPLError;
use jpl::lexer::{lex, Span, Token, TokenContents};

fn kinds(source: &str) -> Vec<TokenContents> {
    lex(source.as_bytes()).unwrap().into_iter().map(|t| t.contents).collect()
}

fn lexical_error(source: &[u8]) -> (String, usize) {
    let e: JPLError = lex(source).unwrap_err();
    (e.message().clone(), e.line())
}

fn name(s: &str) -> TokenContents {
    TokenContents::Name(s.to_string())
}

#[test]
fn empty_source_is_one_marker() {
    let tokens = lex(b"").unwrap();
    assert_eq!(tokens, vec![Token { contents: TokenContents::Eof, span: Span::new(0, 0), line: 1 }]);
}

#[test]
fn integer_literal_has_its_value() {
    let tokens = lex(b"12345").unwrap();
    assert_eq!(
        tokens,
        vec![
            Token { contents: TokenContents::Integer(12345), span: Span::new(0, 4), line: 1 },
            Token { contents: TokenContents::Eof, span: Span::new(5, 5), line: 1 },
        ]
    );
}

#[test]
fn integer_literals_of_many_sizes() {
    for n in [0i64, 7, 10, 99, 100, 4096, 1_000_000_007, i64::MAX] {
        let source = n.to_string();
        assert_eq!(kinds(&source), vec![TokenContents::Integer(n), TokenContents::Eof]);
    }
}

#[test]
fn leading_zeros_do_not_change_the_value() {
    assert_eq!(kinds("0042"), vec![TokenContents::Integer(42), TokenContents::Eof]);
}

#[test]
fn integer_one_above_the_largest_is_bad() {
    assert_eq!(lexical_error(b"9223372036854775808"), ("Bad integer".to_string(), 1));
    assert_eq!(lexical_error(b"\n99999999999999999999999"), ("Bad integer".to_string(), 2));
}

#[test]
fn one_decimal_point_makes_a_float() {
    let tokens = lex(b"3.14").unwrap();
    assert_eq!(tokens[0].contents, TokenContents::Float("3.14".to_string()));
    assert_eq!(tokens[0].span, Span::new(0, 3));
    assert_eq!(kinds("1. x"), vec![TokenContents::Float("1.".to_string()), name("x"), TokenContents::Eof]);
}

#[test]
fn two_decimal_points_are_an_error() {
    assert_eq!(
        lexical_error(b"let x = 1\nlet y = 1.2.3"),
        ("Bad floating point number, found two decimal points".to_string(), 2)
    );
    assert_eq!(
        lexical_error(b"1.."),
        ("Bad floating point number, found two decimal points".to_string(), 1)
    );
}

#[test]
fn keywords_are_names() {
    assert_eq!(
        kinds("let function return print x1 Abc"),
        vec![
            name("let"),
            name("function"),
            name("return"),
            name("print"),
            name("x1"),
            name("Abc"),
            TokenContents::Eof
        ]
    );
}

#[test]
fn digits_then_letters_are_two_tokens() {
    assert_eq!(kinds("12ab"), vec![TokenContents::Integer(12), name("ab"), TokenContents::Eof]);
}

#[test]
fn string_literal_holds_the_text_between_the_quotes() {
    let tokens = lex(b"\"hello\"").unwrap();
    assert_eq!(
        tokens,
        vec![
            Token {
                contents: TokenContents::QuotedString("hello".to_string()),
                span: Span::new(1, 5),
                line: 1
            },
            Token { contents: TokenContents::Eof, span: Span::new(7, 7), line: 1 },
        ]
    );
}

#[test]
fn empty_string_literal() {
    let tokens = lex(b"\"\"").unwrap();
    assert_eq!(tokens[0].contents, TokenContents::QuotedString(String::new()));
    assert_eq!(tokens[0].span, Span::new(1, 0));
    assert_eq!(tokens[1].contents, TokenContents::Eof);
}

#[test]
fn string_literal_is_decoded_as_utf8() {
    assert_eq!(
        kinds("\"h\u{e9}llo \u{4e16}\""),
        vec![TokenContents::QuotedString("h\u{e9}llo \u{4e16}".to_string()), TokenContents::Eof]
    );
}

#[test]
fn invalid_utf8_in_a_string_is_replaced() {
    let tokens = lex(b"\"a\xffb\"").unwrap();
    assert_eq!(tokens[0].contents, TokenContents::QuotedString("a\u{fffd}b".to_string()));
    assert_eq!(tokens[0].span, Span::new(1, 3));
}

#[test]
fn string_may_hold_what_is_no_token_elsewhere() {
    assert_eq!(
        kinds("\"a // b @ 1.2.3\""),
        vec![TokenContents::QuotedString("a // b @ 1.2.3".to_string()), TokenContents::Eof]
    );
}

#[test]
fn unterminated_string_is_an_error() {
    assert_eq!(lexical_error(b"\"abc"), ("Unterminated string".to_string(), 1));
    assert_eq!(lexical_error(b"\""), ("Unterminated string".to_string(), 1));
    assert_eq!(lexical_error(b"let s = \"abc\nlet t = 1"), ("Unterminated string".to_string(), 1));
}

#[test]
fn unterminated_string_is_reported_on_the_line_of_its_quote() {
    assert_eq!(lexical_error(b"let a = 1\n\nprint(\"abc\n)"), ("Unterminated string".to_string(), 3));
}

#[test]
fn unterminated_string_after_a_closed_one() {
    assert_eq!(lexical_error(b"\"a\" \"b"), ("Unterminated string".to_string(), 1));
}

#[test]
fn single_character_tokens() {
    assert_eq!(
        kinds("+-*/=(){}"),
        vec![
            TokenContents::Plus,
            TokenContents::Minus,
            TokenContents::Star,
            TokenContents::Slash,
            TokenContents::Equal,
            TokenContents::LParen,
            TokenContents::RParen,
            TokenContents::LCurly,
            TokenContents::RCurly,
            TokenContents::Eof,
        ]
    );
    let tokens = lex(b" +").unwrap();
    assert_eq!(tokens[0].span, Span::new(1, 1));
}

#[test]
fn comment_runs_to_the_end_of_its_line() {
    assert_eq!(
        kinds("a // b c \"\nd"),
        vec![name("a"), name("d"), TokenContents::Eof]
    );
    assert_eq!(kinds("// only"), vec![TokenContents::Eof]);
    let tokens = lex(b"// one\n// two\nx").unwrap();
    assert_eq!(tokens[0].line, 3);
}

#[test]
fn single_slash_is_the_divide_token() {
    assert_eq!(
        kinds("a / b"),
        vec![name("a"), TokenContents::Slash, name("b"), TokenContents::Eof]
    );
    assert_eq!(kinds("/"), vec![TokenContents::Slash, TokenContents::Eof]);
    assert_eq!(kinds("/ /"), vec![TokenContents::Slash, TokenContents::Slash, TokenContents::Eof]);
}

#[test]
fn blank_space_is_skipped_and_newlines_are_counted() {
    let tokens = lex(b" a\t\r\n\n  b\n").unwrap();
    assert_eq!(
        tokens,
        vec![
            Token { contents: name("a"), span: Span::new(1, 1), line: 1 },
            Token { contents: name("b"), span: Span::new(8, 8), line: 3 },
            Token { contents: TokenContents::Eof, span: Span::new(10, 10), line: 4 },
        ]
    );
}

#[test]
fn newlines_inside_a_string_are_counted() {
    let tokens = lex(b"\"a\nb\" c").unwrap();
    assert_eq!(tokens[0].contents, TokenContents::QuotedString("a\nb".to_string()));
    assert_eq!(tokens[0].line, 1);
    assert_eq!(tokens[1].line, 2);
}

#[test]
fn any_other_byte_is_unexpected() {
    assert_eq!(lexical_error(b"a @ b"), ("unexpected token '@'".to_string(), 1));
    assert_eq!(lexical_error(b"a\nb\n;"), ("unexpected token ';'".to_string(), 3));
    assert_eq!(lexical_error(b"x\x0cy"), ("unexpected token '\u{c}'".to_string(), 1));
    assert_eq!(lexical_error(b"_a"), ("unexpected token '_'".to_string(), 1));
    assert_eq!(lexical_error(b"\xe9"), ("unexpected token '\u{e9}'".to_string(), 1));
}

#[test]
fn nothing_is_lexed_after_a_failure() {
    assert!(lex(b"a b c @ d e f").is_err());
    assert!(lex(b"@").is_err());
}

#[test]
fn tokens_end_with_the_one_marker() {
    for source in ["", "a", "let x = 1", "print(\"s\") // c", "\n\n"] {
        let tokens = lex(source.as_bytes()).unwrap();
        let markers = tokens.iter().filter(|t| t.contents == TokenContents::Eof).count();
        assert_eq!(markers, 1);
        assert_eq!(tokens.last().unwrap().contents, TokenContents::Eof);
        assert_eq!(tokens.last().unwrap().span, Span::new(source.len(), source.len()));
    }
}

#[test]
fn token_new_is_on_the_first_line() {
    let token = Token::new(TokenContents::Plus, Span::new(3, 3));
    assert_eq!(token, Token { contents: TokenContents::Plus, span: Span { start: 3, end: 3 }, line: 1 });
    assert_eq!(Token::on_line(TokenContents::Plus, Span::new(3, 3), 7).line, 7);
}

#[test]
fn diagnostic_report_names_line_and_message() {
    let e = lex(b"\n\n\"abc").unwrap_err();
    assert_eq!(e.report(), "Error on line 3: Unterminated string");
    let made = JPLError::new("m".to_string(), 120);
    assert_eq!(made.message(), "m");
    assert_eq!(made.line(), 120);
    assert_eq!(made.report(), "Error on line 120: m");
}

#[test]
fn default_span_is_at_the_start() {
    assert_eq!(Span::default(), Span { start: 0, end: 0 });
    assert_eq!(Span::new(2, 9), Span { start: 2, end: 9 });
}
