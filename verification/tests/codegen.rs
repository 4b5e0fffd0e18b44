use jpl::ast::{BinaryOperator, ParsedExpr, ParsedStatement};
use jpl::codegen::{compile, CompileError, EmitLocation, Emitter, Unsupported};
use jpl::lexer::lex;
use jpl::parser::Parser;

const DATA: &str = "SECTION .data\n";
const TEXT: &str = "SECTION .text\n\textern print_int\n\textern print_char\n\textern print_string\n\tglobal _start\n";
const MAIN: &str = "\n\t_start:\n";
const EXIT: &str = "\tmov rax, 60\n\tmov rdi, 0\n\tsyscall\n";
const PRINT_INT: &str = "\tpop rdi\n\tcall print_int\n\tmov rdi, 10\n\tcall print_char\n";
const ENTER: &str = "\tpush rbp\n\tmov rbp, rsp\n\tpush rdi\n";
const LEAVE: &str = "\tmov rsp, rbp\n\tpop rbp\n\tret\n";

fn build(source: &str) -> Result<String, CompileError> {
    let tokens = lex(source.as_bytes()).unwrap();
    compile(Parser::new(tokens).parse().unwrap())
}

fn program(data: &str, text: &str, main: &str) -> String {
    format!("{}{}{}{}{}{}{}", DATA, data, TEXT, text, MAIN, main, EXIT)
}

fn unsupported(source: &str) -> Unsupported {
    match build(source).unwrap_err() {
        CompileError::UnsupportedConstruct(why) => why,
        other => panic!("another failure: {:?}", other),
    }
}

fn constant(i: i64) -> ParsedExpr {
    ParsedExpr::IntegerConstant(i)
}

fn print_of(e: ParsedExpr) -> ParsedStatement {
    ParsedStatement::FunctionCall("print".to_string(), vec![e])
}

#[test]
fn empty_program_only_exits() {
    assert_eq!(build("").unwrap(), program("", "", ""));
    assert_eq!(
        compile(vec![]).unwrap(),
        "SECTION .data\nSECTION .text\n\textern print_int\n\textern print_char\n\textern print_string\n\tglobal _start\n\n\t_start:\n\tmov rax, 60\n\tmov rdi, 0\n\tsyscall\n"
    );
}

#[test]
fn sum_of_two_variables_is_printed() {
    assert_eq!(
        build("let x = 10\nlet y = 20\nprint(x + y)").unwrap(),
        program(
            "\tx dq 10\n\ty dq 20\n",
            "",
            &format!(
                "\tpush QWORD [x]\n\tpush QWORD [y]\n\tpop rax\n\tpop rbx\n\tadd rax, rbx\n\tpush rax\n{}",
                PRINT_INT
            )
        )
    );
}

#[test]
fn printed_literal_becomes_a_string_constant() {
    let text = build("print(\"hello\")").unwrap();
    assert_eq!(
        text,
        program(
            "\tstr_0 db \"hello\", 10\n",
            "",
            "\tmov rdi, str_0\n\tmov rsi, 6\n\tcall print_string\n"
        )
    );
    let data_end = text.find("SECTION .text").unwrap();
    assert!(text[..data_end].contains("\"hello\""));
    assert!(text[data_end..].contains("mov rsi, 6\n\tcall print_string"));
}

#[test]
fn printed_literals_are_numbered() {
    assert_eq!(
        build("print(\"a\")\nprint(\"\")\nprint(\"h\u{e9}\")").unwrap(),
        program(
            "\tstr_0 db \"a\", 10\n\tstr_1 db 10\n\tstr_2 db \"h\u{e9}\", 10\n",
            "",
            "\tmov rdi, str_0\n\tmov rsi, 2\n\tcall print_string\n\tmov rdi, str_1\n\tmov rsi, 1\n\tcall print_string\n\tmov rdi, str_2\n\tmov rsi, 4\n\tcall print_string\n"
        )
    );
}

#[test]
fn string_variable_is_printed_from_its_constant() {
    assert_eq!(
        build("let s = \"hi there\"\nprint(s)").unwrap(),
        program(
            "\ts db \"hi there\", 10\n",
            "",
            "\tmov rdi, s\n\tmov rsi, 9\n\tcall print_string\n"
        )
    );
}

#[test]
fn division_takes_the_divisor_from_the_top() {
    assert_eq!(
        build("print(10 / 2)").unwrap(),
        program(
            "",
            "",
            &format!(
                "\tpush 10\n\tpush 2\n\tpop rbx\n\tpop rax\n\txor rdx, rdx\n\tidiv rbx\n\tpush rax\n{}",
                PRINT_INT
            )
        )
    );
}

#[test]
fn subtraction_takes_the_subtrahend_from_the_top() {
    assert_eq!(
        build("print(8 - 3)").unwrap(),
        program(
            "",
            "",
            &format!(
                "\tpush 8\n\tpush 3\n\tpop rax\n\tpop rbx\n\tsub rbx, rax\n\tpush rbx\n{}",
                PRINT_INT
            )
        )
    );
}

#[test]
fn multiplication_and_nesting() {
    assert_eq!(
        build("print(2 + 3 * 4)").unwrap(),
        program(
            "",
            "",
            &format!(
                "\tpush 2\n\tpush 3\n\tpush 4\n\tpop rax\n\tpop rbx\n\timul rax, rbx\n\tpush rax\n\tpop rax\n\tpop rbx\n\tadd rax, rbx\n\tpush rax\n{}",
                PRINT_INT
            )
        )
    );
}

#[test]
fn computed_declaration_fills_a_zero_slot() {
    assert_eq!(
        build("let a = 7\nlet b = a * 2").unwrap(),
        program(
            "\ta dq 7\n\tb dq 0\n",
            "",
            "\tpush QWORD [a]\n\tpush 2\n\tpop rax\n\tpop rbx\n\timul rax, rbx\n\tpush rax\n\tpop rdi\n\tmov [b], rdi\n"
        )
    );
}

#[test]
fn large_constants_go_through_a_register() {
    assert_eq!(
        build("print(2147483647)").unwrap(),
        program("", "", &format!("\tpush 2147483647\n{}", PRINT_INT))
    );
    assert_eq!(
        build("print(2147483648)").unwrap(),
        program("", "", &format!("\tmov rax, 2147483648\n\tpush rax\n{}", PRINT_INT))
    );
    assert_eq!(
        compile(vec![print_of(constant(-2147483648))]).unwrap(),
        program("", "", &format!("\tpush -2147483648\n{}", PRINT_INT))
    );
    assert_eq!(
        compile(vec![print_of(constant(i64::MIN))]).unwrap(),
        program("", "", &format!("\tmov rax, -9223372036854775808\n\tpush rax\n{}", PRINT_INT))
    );
    assert_eq!(
        compile(vec![ParsedStatement::VarDecl("m".to_string(), constant(i64::MIN))]).unwrap(),
        program("\tm dq -9223372036854775808\n", "", "")
    );
    assert_eq!(
        build("let m = 9223372036854775807").unwrap(),
        program("\tm dq 9223372036854775807\n", "", "")
    );
}

#[test]
fn function_has_a_frame_and_returns_in_rax() {
    assert_eq!(
        build("function double(n) {\n return n * 2\n}\nprint(double(21))").unwrap(),
        program(
            "",
            &format!(
                "\tdouble:\n{}\tpush QWORD [rbp-8]\n\tpush 2\n\tpop rax\n\tpop rbx\n\timul rax, rbx\n\tpush rax\n\tpop rax\n{}{}",
                ENTER, LEAVE, LEAVE
            ),
            &format!("\tpush 21\n\tpop rdi\n\tcall double\n\tpush rax\n{}", PRINT_INT)
        )
    );
}

#[test]
fn statements_in_a_function_go_to_the_function() {
    assert_eq!(
        build("let g = 5\nfunction f(a) {\n let t = a + g\n print(t)\n print(\"in f\")\n}\nf(1)").unwrap(),
        program(
            "\tg dq 5\n\tt dq 0\n\tstr_0 db \"in f\", 10\n",
            &format!(
                "\tf:\n{}\tpush QWORD [rbp-8]\n\tpush QWORD [g]\n\tpop rax\n\tpop rbx\n\tadd rax, rbx\n\tpush rax\n\tpop rdi\n\tmov [t], rdi\n\tpush QWORD [t]\n{}\tmov rdi, str_0\n\tmov rsi, 5\n\tcall print_string\n{}",
                ENTER, PRINT_INT, LEAVE
            ),
            "\tpush 1\n\tpop rdi\n\tcall f\n"
        )
    );
}

#[test]
fn call_in_a_declaration_is_computed() {
    assert_eq!(
        build("let r = f(3)").unwrap(),
        program(
            "\tr dq 0\n",
            "",
            "\tpush 3\n\tpop rdi\n\tcall f\n\tpush rax\n\tpop rdi\n\tmov [r], rdi\n"
        )
    );
}

#[test]
fn undeclared_variable_is_unknown() {
    assert_eq!(build("print(x)").unwrap_err(), CompileError::UnknownVariable("x".to_string()));
    assert_eq!(
        build("let a = 1\nlet b = a + c * 2").unwrap_err(),
        CompileError::UnknownVariable("c".to_string())
    );
    assert_eq!(build("let a = a + 1").unwrap_err(), CompileError::UnknownVariable("a".to_string()));
    assert_eq!(build("print(y)\nlet y = 1").unwrap_err(), CompileError::UnknownVariable("y".to_string()));
    assert_eq!(build("f(q)").unwrap_err(), CompileError::UnknownVariable("q".to_string()));
    assert_eq!(
        build("function f(a) { return b }").unwrap_err(),
        CompileError::UnknownVariable("b".to_string())
    );
    assert_eq!(
        build("function f(a) { return a }\nprint(a)").unwrap_err(),
        CompileError::UnknownVariable("a".to_string())
    );
    assert_eq!(
        build("print(x)").unwrap_err().message(),
        "unknown variable 'x'"
    );
}

#[test]
fn the_leftmost_failure_is_reported() {
    assert_eq!(build("print(u + 1.5)").unwrap_err(), CompileError::UnknownVariable("u".to_string()));
    assert_eq!(unsupported("print(1.5 + u)"), Unsupported::FloatingPoint);
}

#[test]
fn unsupported_constructs() {
    assert_eq!(unsupported("let f = 1.5"), Unsupported::FloatingPoint);
    assert_eq!(unsupported("print(1 + 2.0)"), Unsupported::FloatingPoint);
    assert_eq!(unsupported("let a = 1\nlet b = a"), Unsupported::VariableAlias);
    assert_eq!(unsupported("let s = \"a\"\nprint(s + 1)"), Unsupported::StringOperand);
    assert_eq!(unsupported("f(\"a\")"), Unsupported::StringOperand);
    assert_eq!(unsupported("let v = print(1)"), Unsupported::PrintValue);
    assert_eq!(unsupported("let a = 1\nlet a = 2"), Unsupported::Redeclaration);
    assert_eq!(unsupported("function f(a) { let a = 2 }"), Unsupported::Redeclaration);
    assert_eq!(unsupported("print(\"a\nb\")"), Unsupported::StringText);
    assert_eq!(unsupported("let s = \"tab\there\""), Unsupported::StringText);
    assert_eq!(unsupported("function f(a) { function g(b) { } }"), Unsupported::NestedFunction);
}

#[test]
fn unsupported_constructs_of_trees_made_by_hand() {
    let fails = |stmt: ParsedStatement| match compile(vec![stmt]).unwrap_err() {
        CompileError::UnsupportedConstruct(why) => why,
        other => panic!("another failure: {:?}", other),
    };
    assert_eq!(fails(ParsedStatement::ReturnStatement(constant(1))), Unsupported::ReturnOutsideFunction);
    assert_eq!(
        fails(ParsedStatement::FunctionCall("f".to_string(), vec![constant(1), constant(2)])),
        Unsupported::ArgumentCount
    );
    assert_eq!(
        fails(ParsedStatement::FunctionCall("print".to_string(), vec![])),
        Unsupported::ArgumentCount
    );
    assert_eq!(
        fails(print_of(ParsedExpr::FunctionCall("f".to_string(), vec![]))),
        Unsupported::ArgumentCount
    );
    for name in ["", "1a", "a b", "a_b", "x\n", "\u{e9}t\u{e9}"] {
        assert_eq!(
            fails(ParsedStatement::VarDecl(name.to_string(), constant(1))),
            Unsupported::InvalidName
        );
        assert_eq!(
            fails(ParsedStatement::FunctionCall(name.to_string(), vec![constant(1)])),
            Unsupported::InvalidName
        );
        assert_eq!(
            fails(ParsedStatement::FunctionDeclaration(name.to_string(), "a".to_string(), vec![])),
            Unsupported::InvalidName
        );
        assert_eq!(
            fails(ParsedStatement::FunctionDeclaration("f".to_string(), name.to_string(), vec![])),
            Unsupported::InvalidName
        );
    }
    assert_eq!(
        fails(print_of(ParsedExpr::QuotedString("say \"hi\"".to_string()))),
        Unsupported::StringText
    );
    assert_eq!(
        fails(print_of(ParsedExpr::QuotedString("del\u{7f}".to_string()))),
        Unsupported::StringText
    );
    assert_eq!(
        fails(ParsedStatement::VarDecl(
            "s".to_string(),
            ParsedExpr::QuotedString("nul\u{0}".to_string())
        )),
        Unsupported::StringText
    );
    assert_eq!(
        fails(ParsedStatement::VarDecl(
            "v".to_string(),
            ParsedExpr::BinaryOp(
                Box::new(ParsedExpr::QuotedString("a".to_string())),
                BinaryOperator::Add,
                Box::new(constant(1))
            )
        )),
        Unsupported::StringOperand
    );
}

#[test]
fn strings_keep_what_a_quoted_assembly_string_can_hold() {
    assert_eq!(
        compile(vec![print_of(ParsedExpr::QuotedString("a 'b' \\ `c` % ~".to_string()))]).unwrap(),
        program(
            "\tstr_0 db \"a 'b' \\ `c` % ~\", 10\n",
            "",
            "\tmov rdi, str_0\n\tmov rsi, 16\n\tcall print_string\n"
        )
    );
}

#[test]
fn failure_messages() {
    assert_eq!(
        CompileError::UnsupportedConstruct(Unsupported::FloatingPoint).message(),
        "unsupported construct: floating-point number"
    );
    assert_eq!(
        CompileError::UnsupportedConstruct(Unsupported::ReturnOutsideFunction).message(),
        "unsupported construct: return outside a function"
    );
    assert_eq!(
        CompileError::UnknownVariable("total".to_string()).message(),
        "unknown variable 'total'"
    );
}

#[test]
fn emitter_starts_with_the_headers() {
    let emitter = Emitter::new();
    assert_eq!(emitter.section(EmitLocation::Data), DATA);
    assert_eq!(emitter.section(EmitLocation::Text), TEXT);
    assert_eq!(emitter.section(EmitLocation::Main), MAIN);
    assert_eq!(emitter.into_text(), format!("{}{}{}", DATA, TEXT, MAIN));
}

#[test]
fn emit_adds_one_line_to_one_buffer() {
    let mut emitter = Emitter::new();
    emitter.emit(EmitLocation::Data, "x dq 1");
    emitter.emit(EmitLocation::Main, "push 1");
    emitter.emit(EmitLocation::Text, "f:");
    emitter.emit(EmitLocation::Main, "pop rax");
    assert_eq!(emitter.section(EmitLocation::Data), &format!("{}\tx dq 1\n", DATA));
    assert_eq!(emitter.section(EmitLocation::Text), &format!("{}\tf:\n", TEXT));
    assert_eq!(emitter.section(EmitLocation::Main), &format!("{}\tpush 1\n\tpop rax\n", MAIN));
}
