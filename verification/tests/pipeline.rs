use jpl::assembly::Unsupported;
use jpl::codegen::CompileError;
use jpl::pipeline::{exit_status, compile_source, Ending, Stop};

#[test]
fn empty_source_gives_the_minimal_program() {
    assert_eq!(
        compile_source(b"").unwrap(),
        "SECTION .data\nSECTION .text\n\textern print_int\n\textern print_char\n\textern print_string\n\tglobal _start\n\n\t_start:\n\tmov rax, 60\n\tmov rdi, 0\n\tsyscall\n"
    );
}

#[test]
fn source_goes_through_the_three_stages() {
    let text = compile_source(b"let x = 10\nlet y = 20\nprint(x + y) // thirty\n").unwrap();
    assert!(text.starts_with("SECTION .data\n\tx dq 10\n\ty dq 20\nSECTION .text\n"));
    assert!(text.ends_with(
        "\t_start:\n\tpush QWORD [x]\n\tpush QWORD [y]\n\tpop rax\n\tpop rbx\n\tadd rax, rbx\n\tpush rax\n\tpop rdi\n\tcall print_int\n\tmov rdi, 10\n\tcall print_char\n\tmov rax, 60\n\tmov rdi, 0\n\tsyscall\n"
    ));
}

#[test]
fn each_stage_stops_the_compilation() {
    match compile_source(b"let x = 1\nlet y = \"oops").unwrap_err() {
        Stop::Lexical(e) => {
            assert_eq!(e.message(), "Unterminated string");
            assert_eq!(e.line(), 2);
        }
        other => panic!("another stage: {:?}", other),
    }
    match compile_source(b"let x = 1\nlet = 2").unwrap_err() {
        Stop::Syntax(e) => {
            assert_eq!(e.message(), "Expected variable name.");
            assert_eq!(e.line(), 2);
        }
        other => panic!("another stage: {:?}", other),
    }
    assert_eq!(
        compile_source(b"print(x)").unwrap_err(),
        Stop::Generation(CompileError::UnknownVariable("x".to_string()))
    );
    assert_eq!(
        compile_source(b"let f = 1.5").unwrap_err(),
        Stop::Generation(CompileError::UnsupportedConstruct(Unsupported::FloatingPoint))
    );
}

#[test]
fn lexing_fails_before_parsing() {
    assert!(matches!(compile_source(b"let = @").unwrap_err(), Stop::Lexical(_)));
}

#[test]
fn exit_statuses() {
    assert_eq!(exit_status(&Ending::Input), 1);
    let lexical = compile_source(b"@").unwrap_err();
    let syntax = compile_source(b"let").unwrap_err();
    let generation = compile_source(b"print(x)").unwrap_err();
    assert_eq!(exit_status(&Ending::Stopped(lexical)), 2);
    assert_eq!(exit_status(&Ending::Stopped(syntax)), 2);
    assert_eq!(exit_status(&Ending::Stopped(generation)), 3);
}

#[test]
fn build_compiles_what_can_be_read() {
    assert_eq!(jpl::pipeline::build(b"print(1)").unwrap(), compile_source(b"print(1)").unwrap());
    assert_eq!(
        jpl::pipeline::build(b"print(x)").unwrap_err(),
        Ending::Stopped(compile_source(b"print(x)").unwrap_err())
    );
    assert_eq!(exit_status(&jpl::pipeline::build(b"let").unwrap_err()), 2);
}
