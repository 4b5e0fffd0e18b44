//! The three stages in a row, and what a driver does with their failures.

use crate::assembly::{assembled, compile_spec, initial_program, statements, Failure, Scope};
use crate::ast::Stmt;
use crate::codegen::{compile, CompileError};
use crate::error::{Diagnostic, JPLError};
use crate::grammar::program;
use crate::lexer::{lemma_empty_source, lemma_one_eof, lex, lex_spec};
use crate::parser::Parser;
use vstd::prelude::*;

verus! {

/// The stage that stopped a compilation, with what it reported.
#[derive(Debug, Clone, PartialEq, Eq)]
pub enum Stop {
    /// The source holds something that is no token.
    Lexical(JPLError),
    /// The tokens break a rule of the grammar.
    Syntax(JPLError),
    /// The program cannot be turned into code.
    Generation(CompileError),
}

/// The mathematical value of a `Stop`.
pub enum StopModel {
    Lexical(Diagnostic),
    Syntax(Diagnostic),
    Generation(Failure),
}

impl View for Stop {
    type V = StopModel;

    open spec fn view(&self) -> StopModel {
        match self {
            Stop::Lexical(e) => StopModel::Lexical(e@),
            Stop::Syntax(e) => StopModel::Syntax(e@),
            Stop::Generation(e) => StopModel::Generation(e@),
        }
    }
}

/// Why a run of the compiler ended before the assembler was started.
#[derive(Debug, Clone, PartialEq, Eq)]
pub enum Ending {
    /// No source was named, or it could not be read.
    Input,
    /// A stage of the compilation stopped it.
    Stopped(Stop),
}

/// The exit status for an ending: 1 where there is no input, 2 for a
/// lexical or a syntax error, 3 for a program that there is no code for.
pub open spec fn status_of(ending: Ending) -> i32 {
    match ending {
        Ending::Input => 1,
        Ending::Stopped(Stop::Lexical(_)) => 2,
        Ending::Stopped(Stop::Syntax(_)) => 2,
        Ending::Stopped(Stop::Generation(_)) => 3,
    }
}

/// The exit status that a driver ends the process with.
pub fn exit_status(ending: &Ending) -> (status: i32)
    ensures
        status == status_of(*ending),
        status != 0,
{
    match ending {
        Ending::Input => 1,
        Ending::Stopped(Stop::Lexical(_)) => 2,
        Ending::Stopped(Stop::Syntax(_)) => 2,
        Ending::Stopped(Stop::Generation(_)) => 3,
    }
}

/// The assembly text of a source, or the first stage that stops and what
/// it reports: lexing, then parsing, then code generation.
pub open spec fn compile_source_spec(source: Seq<u8>) -> Result<Seq<char>, StopModel> {
    match lex_spec(source) {
        Err(d) => Err(StopModel::Lexical(d)),
        Ok(tokens) => match program(tokens, 0) {
            Err(d) => Err(StopModel::Syntax(d)),
            Ok(stmts) => match compile_spec(stmts) {
                Err(f) => Err(StopModel::Generation(f)),
                Ok(text) => Ok(text),
            },
        },
    }
}

/// Compiles source bytes to assembly text.
pub fn compile_source(source: &[u8]) -> (result: Result<String, Stop>)
    requires
        source.len() < usize::MAX,
    ensures
        match (result, compile_source_spec(source@)) {
            (Ok(text), Ok(model)) => text@ == model,
            (Err(stop), Err(model)) => stop@ == model,
            _ => false,
        },
{
    let tokens = match lex(source) {
        Ok(tokens) => tokens,
        Err(e) => {
            return Err(Stop::Lexical(e));
        },
    };
    proof {
        lemma_one_eof(source@, 0);
    }
    let mut parser = Parser::new(tokens);
    let parsed = match parser.parse() {
        Ok(parsed) => parsed,
        Err(e) => {
            return Err(Stop::Syntax(e));
        },
    };
    match compile(parsed) {
        Ok(text) => Ok(text),
        Err(e) => Err(Stop::Generation(e)),
    }
}

/// Compiles source bytes of any length to assembly text. A source of as
/// many bytes as the largest index, whose lines could not be counted, is
/// taken as one that could not be read; any other is compiled.
pub fn build(source: &[u8]) -> (result: Result<String, Ending>)
    ensures
        match result {
            Ok(text) => source.len() < usize::MAX && compile_source_spec(source@) == Ok::<
                Seq<char>,
                StopModel,
            >(text@),
            Err(Ending::Input) => source.len() >= usize::MAX,
            Err(Ending::Stopped(stop)) => source.len() < usize::MAX && compile_source_spec(source@)
                == Err::<Seq<char>, StopModel>(stop@),
        },
{
    if source.len() == usize::MAX {
        return Err(Ending::Input);
    }
    match compile_source(source) {
        Ok(text) => Ok(text),
        Err(stop) => Err(Ending::Stopped(stop)),
    }
}

/// The empty source compiles to the program that only exits: the headers
/// of the two sections, the entry label, and the exit with status 0.
pub proof fn lemma_empty_program()
    ensures
        compile_source_spec(Seq::<u8>::empty()) == Ok::<Seq<char>, StopModel>(
            assembled(initial_program()),
        ),
{
    lemma_empty_source();
    assert(statements(initial_program(), Scope::Global, Seq::<Stmt>::empty()) == Ok::<
        crate::assembly::Program,
        Failure,
    >(initial_program()));
}

} // verus!
