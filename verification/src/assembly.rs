//! The assembly text that a program is compiled to, as functions of its
//! statements.
//!
//! The target is x86-64 in NASM syntax. Values are 64-bit integers on the
//! machine stack: an expression pushes its value, an operator pops its two
//! operands and pushes the result. A function receives its argument in
//! `rdi`, keeps it at `[rbp-8]`, and returns its value in `rax`.

use crate::ast::{BinaryOperator, Expr, Stmt};
use crate::text::{decimal, signed_decimal};
use vstd::prelude::*;
use vstd::utf8::encode_utf8;

verus! {

/// The three buffers that code generation fills: the data section, the
/// functions of the text section, and the entry code of the text section.
#[derive(Debug, Clone, Copy, PartialEq, Eq, Structural)]
pub enum EmitLocation {
    /// The data section.
    Data,
    /// The text section up to the entry label: the functions.
    Text,
    /// The text section from the entry label on: the entry code.
    Main,
}

/// The text of the three buffers.
pub struct Sections {
    pub data: Seq<char>,
    pub text: Seq<char>,
    pub main: Seq<char>,
}

/// Why a construct cannot be compiled.
#[derive(Debug, Clone, Copy, PartialEq, Eq, Structural)]
pub enum Unsupported {
    /// A floating-point constant.
    FloatingPoint,
    /// A variable whose initial value is another variable.
    VariableAlias,
    /// A string where a number is computed.
    StringOperand,
    /// A call with no argument, or with more than one.
    ArgumentCount,
    /// The result of `print` used as a value.
    PrintValue,
    /// A second declaration of a name.
    Redeclaration,
    /// A name that is no letter followed by letters and digits.
    InvalidName,
    /// A string with a character that a quoted assembly string cannot hold.
    StringText,
    /// A function declared inside a function.
    NestedFunction,
    /// A return statement outside a function.
    ReturnOutsideFunction,
}

/// Why compiling a program fails.
pub enum Failure {
    /// The program holds a construct that there is no code for.
    Unsupported(Unsupported),
    /// An expression reads the variable of this name, which no declaration
    /// before it made.
    UnknownVariable(Seq<char>),
}

/// One instruction or directive on a line of its own.
pub open spec fn line(instruction: Seq<char>) -> Seq<char> {
    "\t"@ + instruction + "\n"@
}

/// The sections with `code` added at the end of one of them.
pub open spec fn emitted(sections: Sections, loc: EmitLocation, code: Seq<char>) -> Sections {
    match loc {
        EmitLocation::Data => Sections { data: sections.data + code, ..sections },
        EmitLocation::Text => Sections { text: sections.text + code, ..sections },
        EmitLocation::Main => Sections { main: sections.main + code, ..sections },
    }
}

/// Adding code to a buffer twice adds the two pieces joined.
pub broadcast proof fn lemma_emitted_twice(
    sections: Sections,
    loc: EmitLocation,
    first: Seq<char>,
    second: Seq<char>,
)
    ensures
        #[trigger] emitted(emitted(sections, loc, first), loc, second) == emitted(
            sections,
            loc,
            first + second,
        ),
{
    assert((sections.data + first) + second =~= sections.data + (first + second));
    assert((sections.text + first) + second =~= sections.text + (first + second));
    assert((sections.main + first) + second =~= sections.main + (first + second));
}

/// The sections of a program before its first statement: the section
/// headers, the three routines that printing relies on, and the entry
/// label.
pub open spec fn initial_sections() -> Sections {
    Sections {
        data: "SECTION .data\n"@,
        text: "SECTION .text\n"@ + line("extern print_int"@) + line("extern print_char"@) + line(
            "extern print_string"@,
        ) + line("global _start"@),
        main: "\n"@ + line("_start:"@),
    }
}

/// The end of the entry code: the process exits with status 0.
pub open spec fn exit_code() -> Seq<char> {
    line("mov rax, 60"@) + line("mov rdi, 0"@) + line("syscall"@)
}

/// Where the statements that are compiled stand.
pub enum Scope {
    /// At the top of the program.
    Global,
    /// In the body of a function with the given parameter.
    Function { parameter: Seq<char> },
}

/// The buffer that the code of a scope goes to.
pub open spec fn code_location(scope: Scope) -> EmitLocation {
    match scope {
        Scope::Global => EmitLocation::Main,
        Scope::Function { parameter } => EmitLocation::Text,
    }
}

/// A declared variable and the expression it was declared with.
pub struct Symbol {
    pub name: Seq<char>,
    pub value: Expr,
}

/// The expression that `name` was declared with, if it was declared.
pub open spec fn lookup(symbols: Seq<Symbol>, name: Seq<char>) -> Option<Expr>
    decreases symbols.len(),
{
    if symbols.len() == 0 {
        None
    } else if symbols.last().name == name {
        Some(symbols.last().value)
    } else {
        lookup(symbols.drop_last(), name)
    }
}

/// A letter followed by letters and digits.
pub open spec fn valid_name(name: Seq<char>) -> bool {
    &&& name.len() > 0
    &&& letter(name[0])
    &&& forall|i: int| 0 <= i < name.len() ==> name_char(#[trigger] name[i])
}

/// An ASCII letter.
pub open spec fn letter(c: char) -> bool {
    ('A' <= c <= 'Z') || ('a' <= c <= 'z')
}

/// An ASCII letter or digit.
pub open spec fn name_char(c: char) -> bool {
    letter(c) || ('0' <= c <= '9')
}

/// A character that can stand between the double quotes of an assembly
/// string: no control character and no double quote.
pub open spec fn quotable(c: char) -> bool {
    ' ' <= c && c != '\u{7f}' && c != '"'
}

/// Whether every character of a text can stand in an assembly string.
pub open spec fn quotable_text(text: Seq<char>) -> bool {
    forall|i: int| 0 <= i < text.len() ==> quotable(#[trigger] text[i])
}

/// The number of bytes of a text in UTF-8.
pub open spec fn utf8_len(text: Seq<char>) -> nat {
    encode_utf8(text).len()
}

/// The data directive for a string constant: its bytes, then a newline.
pub open spec fn string_constant(label: Seq<char>, text: Seq<char>) -> Seq<char> {
    if text.len() == 0 {
        line(label + " db 10"@)
    } else {
        line(label + " db \""@ + text + "\", 10"@)
    }
}

/// The label of the string constant that is made for the `index`-th
/// literal printed.
pub open spec fn literal_label(index: nat) -> Seq<char> {
    "str_"@ + decimal(index)
}

/// The instructions that hand a string constant of `text` at `label` to
/// the routine that prints strings: its address, then its length with the
/// newline counted.
pub open spec fn print_string_code(label: Seq<char>, text: Seq<char>) -> Seq<char> {
    line("mov rdi, "@ + label) + line("mov rsi, "@ + decimal(utf8_len(text) + 1)) + line(
        "call print_string"@,
    )
}

/// The instructions that print the number on top of the stack, and a
/// newline after it.
pub open spec fn print_int_code() -> Seq<char> {
    line("pop rdi"@) + line("call print_int"@) + line("mov rdi, 10"@) + line("call print_char"@)
}

/// The instructions that push an integer constant. An immediate operand of
/// `push` has 32 bits; a larger constant goes through `rax`.
pub open spec fn push_constant(i: i64) -> Seq<char> {
    if -0x8000_0000 <= i <= 0x7fff_ffff {
        line("push "@ + signed_decimal(i as int))
    } else {
        line("mov rax, "@ + signed_decimal(i as int)) + line("push rax"@)
    }
}

/// The instructions that replace the two values on top of the stack by the
/// result of the operator. The right operand is on top. Subtraction and
/// division keep the order of their operands: the left one is the minuend
/// and the dividend.
pub open spec fn operator_code(op: BinaryOperator) -> Seq<char> {
    match op {
        BinaryOperator::Add => line("pop rax"@) + line("pop rbx"@) + line("add rax, rbx"@) + line(
            "push rax"@,
        ),
        BinaryOperator::Subtract => line("pop rax"@) + line("pop rbx"@) + line("sub rbx, rax"@)
            + line("push rbx"@),
        BinaryOperator::Multiply => line("pop rax"@) + line("pop rbx"@) + line("imul rax, rbx"@)
            + line("push rax"@),
        BinaryOperator::Divide => line("pop rbx"@) + line("pop rax"@) + line("xor rdx, rdx"@)
            + line("idiv rbx"@) + line("push rax"@),
    }
}

/// The instructions that push the value of a variable, or why there are
/// none: the parameter of the function around it, a declared number, a
/// declared string, or a name that was never declared.
pub open spec fn variable_code(scope: Scope, symbols: Seq<Symbol>, name: Seq<char>) -> Result<
    Seq<char>,
    Failure,
> {
    if scope matches Scope::Function { parameter } && parameter == name {
        Ok(line("push QWORD [rbp-8]"@))
    } else {
        match lookup(symbols, name) {
            Some(Expr::Str(_)) => Err(Failure::Unsupported(Unsupported::StringOperand)),
            Some(_) => Ok(line("push QWORD ["@ + name + "]"@)),
            None => Err(Failure::UnknownVariable(name)),
        }
    }
}

/// The instructions that call `name` with the value on top of the stack as
/// its argument.
pub open spec fn call_code(name: Seq<char>) -> Seq<char> {
    line("pop rdi"@) + line("call "@ + name)
}

/// The instructions that push the value of an expression, or the first
/// reason, from left to right, why it has none.
pub open spec fn expr_code(scope: Scope, symbols: Seq<Symbol>, e: Expr) -> Result<
    Seq<char>,
    Failure,
>
    decreases e,
{
    match e {
        Expr::Int(i) => Ok(push_constant(i)),
        Expr::Float(_) => Err(Failure::Unsupported(Unsupported::FloatingPoint)),
        Expr::Str(_) => Err(Failure::Unsupported(Unsupported::StringOperand)),
        Expr::Var(name) => variable_code(scope, symbols, name),
        Expr::Binary(lhs, op, rhs) => match expr_code(scope, symbols, *lhs) {
            Ok(left) => match expr_code(scope, symbols, *rhs) {
                Ok(right) => Ok(left + right + operator_code(op)),
                Err(f) => Err(f),
            },
            Err(f) => Err(f),
        },
        Expr::Call(name, args) => if name == "print"@ {
            Err(Failure::Unsupported(Unsupported::PrintValue))
        } else if !valid_name(name) {
            Err(Failure::Unsupported(Unsupported::InvalidName))
        } else if args.len() != 1 {
            Err(Failure::Unsupported(Unsupported::ArgumentCount))
        } else {
            match expr_code(scope, symbols, args[0]) {
                Ok(argument) => Ok(argument + call_code(name) + line("push rax"@)),
                Err(f) => Err(f),
            }
        },
    }
}

/// What code generation has brought together after some statements.
pub struct Program {
    /// The text emitted so far.
    pub sections: Sections,
    /// The variables declared so far, in the order of their declarations.
    pub symbols: Seq<Symbol>,
    /// How many string constants were made for printed literals.
    pub literals: nat,
}

/// The program before its first statement.
pub open spec fn initial_program() -> Program {
    Program { sections: initial_sections(), symbols: Seq::empty(), literals: 0 }
}

/// The program with `code` added to the buffer that the scope's code goes
/// to.
pub open spec fn with_code(p: Program, scope: Scope, code: Seq<char>) -> Program {
    Program { sections: emitted(p.sections, code_location(scope), code), ..p }
}

/// The program with `code` added to the data section.
pub open spec fn with_data(p: Program, code: Seq<char>) -> Program {
    Program { sections: emitted(p.sections, EmitLocation::Data, code), ..p }
}

/// Whether a name can be read in a scope: it is the parameter of the
/// function around, or it was declared.
pub open spec fn known(scope: Scope, symbols: Seq<Symbol>, name: Seq<char>) -> bool {
    ||| scope matches Scope::Function { parameter } && parameter == name
    ||| lookup(symbols, name) is Some
}

/// The instructions that store the value on top of the stack in the slot
/// of a variable.
pub open spec fn store_code(name: Seq<char>) -> Seq<char> {
    line("pop rdi"@) + line("mov ["@ + name + "], rdi"@)
}

/// The first instructions of a function: a frame, with the argument in it.
pub open spec fn enter_code() -> Seq<char> {
    line("push rbp"@) + line("mov rbp, rsp"@) + line("push rdi"@)
}

/// The last instructions of a function: the frame is left, and control
/// goes back to the caller.
pub open spec fn leave_code() -> Seq<char> {
    line("mov rsp, rbp"@) + line("pop rbp"@) + line("ret"@)
}

/// A variable declaration. An integer constant becomes an initialized
/// slot; a computed value becomes a zero slot and the code that fills it;
/// a string becomes a string constant. The declaration is recorded.
pub open spec fn declaration(p: Program, scope: Scope, name: Seq<char>, init: Expr) -> Result<
    Program,
    Failure,
> {
    let recorded = Program { symbols: p.symbols.push(Symbol { name, value: init }), ..p };
    if !valid_name(name) {
        Err(Failure::Unsupported(Unsupported::InvalidName))
    } else if known(scope, p.symbols, name) {
        Err(Failure::Unsupported(Unsupported::Redeclaration))
    } else {
        match init {
            Expr::Int(i) => Ok(
                with_data(recorded, line(name + " dq "@ + signed_decimal(i as int))),
            ),
            Expr::Float(_) => Err(Failure::Unsupported(Unsupported::FloatingPoint)),
            Expr::Var(_) => Err(Failure::Unsupported(Unsupported::VariableAlias)),
            Expr::Str(text) => if quotable_text(text) {
                Ok(with_data(recorded, string_constant(name, text)))
            } else {
                Err(Failure::Unsupported(Unsupported::StringText))
            },
            _ => match expr_code(scope, p.symbols, init) {
                Ok(code) => Ok(
                    with_code(
                        with_data(recorded, line(name + " dq 0"@)),
                        scope,
                        code + store_code(name),
                    ),
                ),
                Err(f) => Err(f),
            },
        }
    }
}

/// The statement `print(argument)`. A string literal becomes a string
/// constant of its own and is printed from there; a variable that holds a
/// string is printed from its constant; any other argument is computed and
/// printed as a number.
pub open spec fn print(p: Program, scope: Scope, args: Seq<Expr>) -> Result<Program, Failure> {
    if args.len() != 1 {
        Err(Failure::Unsupported(Unsupported::ArgumentCount))
    } else {
        match args[0] {
            Expr::Str(text) => if quotable_text(text) {
                let label = literal_label(p.literals);
                Ok(
                    with_code(
                        with_data(
                            Program { literals: p.literals + 1, ..p },
                            string_constant(label, text),
                        ),
                        scope,
                        print_string_code(label, text),
                    ),
                )
            } else {
                Err(Failure::Unsupported(Unsupported::StringText))
            },
            argument => match string_variable(p.symbols, scope, argument) {
                Some((name, text)) => Ok(with_code(p, scope, print_string_code(name, text))),
                None => match expr_code(scope, p.symbols, argument) {
                    Ok(code) => Ok(with_code(p, scope, code + print_int_code())),
                    Err(f) => Err(f),
                },
            },
        }
    }
}

/// The name and the text of the string that an expression stands for,
/// where it is a variable declared with a string.
pub open spec fn string_variable(symbols: Seq<Symbol>, scope: Scope, e: Expr) -> Option<
    (Seq<char>, Seq<char>),
> {
    match e {
        Expr::Var(name) => if scope matches Scope::Function { parameter } && parameter == name {
            None
        } else {
            match lookup(symbols, name) {
                Some(Expr::Str(text)) => Some((name, text)),
                _ => None,
            }
        },
        _ => None,
    }
}

/// A call as a statement: the one argument goes to `rdi`, and what the
/// function returns is left alone.
pub open spec fn call_statement(
    p: Program,
    scope: Scope,
    name: Seq<char>,
    args: Seq<Expr>,
) -> Result<Program, Failure> {
    if name == "print"@ {
        print(p, scope, args)
    } else if !valid_name(name) {
        Err(Failure::Unsupported(Unsupported::InvalidName))
    } else if args.len() != 1 {
        Err(Failure::Unsupported(Unsupported::ArgumentCount))
    } else {
        match expr_code(scope, p.symbols, args[0]) {
            Ok(argument) => Ok(with_code(p, scope, argument + call_code(name))),
            Err(f) => Err(f),
        }
    }
}

/// A return statement: the value goes to `rax`, and the function is left.
pub open spec fn return_statement(p: Program, scope: Scope, value: Expr) -> Result<
    Program,
    Failure,
> {
    match scope {
        Scope::Global => Err(Failure::Unsupported(Unsupported::ReturnOutsideFunction)),
        Scope::Function { parameter } => match expr_code(scope, p.symbols, value) {
            Ok(code) => Ok(with_code(p, scope, code + line("pop rax"@) + leave_code())),
            Err(f) => Err(f),
        },
    }
}

/// The program after one more statement, or why the statement cannot be
/// compiled. A function is a label, its first instructions, its
/// statements and its last instructions.
pub open spec fn statement(p: Program, scope: Scope, s: Stmt) -> Result<Program, Failure>
    decreases s, 0int,
{
    match s {
        Stmt::VarDecl(name, init) => declaration(p, scope, name, init),
        Stmt::Call(name, args) => call_statement(p, scope, name, args),
        Stmt::Return(value) => return_statement(p, scope, value),
        Stmt::Function(name, parameter, body) => match scope {
            Scope::Function { parameter: _ } => Err(
                Failure::Unsupported(Unsupported::NestedFunction),
            ),
            Scope::Global => if !valid_name(name) || !valid_name(parameter) {
                Err(Failure::Unsupported(Unsupported::InvalidName))
            } else {
                let inside = Scope::Function { parameter };
                let entered = with_code(p, inside, line(name + ":"@) + enter_code());
                match statements(entered, inside, body) {
                    Ok(done) => Ok(with_code(done, inside, leave_code())),
                    Err(f) => Err(f),
                }
            },
        },
    }
}

/// The program after a run of statements, or why the first of them that
/// cannot be compiled cannot.
pub open spec fn statements(p: Program, scope: Scope, ss: Seq<Stmt>) -> Result<Program, Failure>
    decreases ss, 1int,
{
    if ss.len() == 0 {
        Ok(p)
    } else {
        match statement(p, scope, ss[0]) {
            Ok(next) => statements(next, scope, ss.drop_first()),
            Err(f) => Err(f),
        }
    }
}

/// The whole text of a compiled program: the data section, the functions,
/// the entry code, and the exit.
pub open spec fn assembled(p: Program) -> Seq<char> {
    p.sections.data + p.sections.text + p.sections.main + exit_code()
}

/// The assembly text of a program, or why it cannot be compiled.
pub open spec fn compile_spec(ss: Seq<Stmt>) -> Result<Seq<char>, Failure> {
    match statements(initial_program(), Scope::Global, ss) {
        Ok(p) => Ok(assembled(p)),
        Err(f) => Err(f),
    }
}

/// The text of one of the three buffers.
pub open spec fn section(sections: Sections, loc: EmitLocation) -> Seq<char> {
    match loc {
        EmitLocation::Data => sections.data,
        EmitLocation::Text => sections.text,
        EmitLocation::Main => sections.main,
    }
}

/// What a construct that cannot be compiled is called in a message.
pub open spec fn reason_text(why: Unsupported) -> Seq<char> {
    match why {
        Unsupported::FloatingPoint => "floating-point number"@,
        Unsupported::VariableAlias => "variable declared as another variable"@,
        Unsupported::StringOperand => "string used as a number"@,
        Unsupported::ArgumentCount => "call without exactly one argument"@,
        Unsupported::PrintValue => "value of print"@,
        Unsupported::Redeclaration => "second declaration of a name"@,
        Unsupported::InvalidName => "name that is no letter followed by letters and digits"@,
        Unsupported::StringText => "string with a control character or a double quote"@,
        Unsupported::NestedFunction => "function inside a function"@,
        Unsupported::ReturnOutsideFunction => "return outside a function"@,
    }
}

/// The message for a failure of code generation.
pub open spec fn failure_message(f: Failure) -> Seq<char> {
    match f {
        Failure::Unsupported(why) => "unsupported construct: "@ + reason_text(why),
        Failure::UnknownVariable(name) => "unknown variable '"@ + name + "'"@,
    }
}

/// Whether an expression reads the variable `name`.
pub open spec fn reads(e: Expr, name: Seq<char>) -> bool
    decreases e,
{
    match e {
        Expr::Var(n) => n == name,
        Expr::Binary(lhs, _, rhs) => reads(*lhs, name) || reads(*rhs, name),
        Expr::Call(_, args) => reads_any(args, name),
        _ => false,
    }
}

/// Whether one of the expressions reads the variable `name`.
pub open spec fn reads_any(es: Seq<Expr>, name: Seq<char>) -> bool
    decreases es,
{
    if es.len() == 0 {
        false
    } else {
        reads(es.last(), name) || reads_any(es.drop_last(), name)
    }
}

/// An expression made of integer constants, operators and variables that
/// hold no string.
pub open spec fn arithmetic(symbols: Seq<Symbol>, e: Expr) -> bool
    decreases e,
{
    match e {
        Expr::Int(_) => true,
        Expr::Var(n) => !(lookup(symbols, n) matches Some(Expr::Str(_))),
        Expr::Binary(lhs, _, rhs) => arithmetic(symbols, *lhs) && arithmetic(symbols, *rhs),
        _ => false,
    }
}

/// Among the arguments of a call with one argument, it is the argument
/// that reads.
pub proof fn lemma_reads_single(args: Seq<Expr>, name: Seq<char>)
    requires
        args.len() == 1,
    ensures
        reads_any(args, name) == reads(args[0], name),
{
    assert(!reads_any(args.drop_last(), name));
}

/// An expression that reads a variable that was not declared has no code:
/// no instruction refers to a slot that was never reserved.
pub proof fn lemma_undeclared_read_fails(
    scope: Scope,
    symbols: Seq<Symbol>,
    e: Expr,
    name: Seq<char>,
)
    requires
        reads(e, name),
        !known(scope, symbols, name),
    ensures
        expr_code(scope, symbols, e) is Err,
    decreases e,
{
    match e {
        Expr::Binary(lhs, _, rhs) => {
            if reads(*lhs, name) {
                lemma_undeclared_read_fails(scope, symbols, *lhs, name);
            } else {
                lemma_undeclared_read_fails(scope, symbols, *rhs, name);
            }
        },
        Expr::Call(_, args) => {
            if args.len() == 1 {
                lemma_reads_single(args, name);
                lemma_undeclared_read_fails(scope, symbols, args[0], name);
            }
        },
        _ => {},
    }
}

/// Where code generation reports an unknown variable, the expression
/// reads a variable of that name, and no declaration made it.
pub proof fn lemma_unknown_variable_is_read(scope: Scope, symbols: Seq<Symbol>, e: Expr)
    requires
        expr_code(scope, symbols, e) matches Err(Failure::UnknownVariable(_)),
    ensures
        expr_code(scope, symbols, e) matches Err(Failure::UnknownVariable(name)) && reads(e, name)
            && !known(scope, symbols, name),
    decreases e,
{
    match e {
        Expr::Binary(lhs, _, rhs) => {
            if expr_code(scope, symbols, *lhs) is Err {
                lemma_unknown_variable_is_read(scope, symbols, *lhs);
            } else {
                lemma_unknown_variable_is_read(scope, symbols, *rhs);
            }
        },
        Expr::Call(_, args) => {
            lemma_unknown_variable_is_read(scope, symbols, args[0]);
            lemma_reads_single(args, expr_code(scope, symbols, args[0])->Err_0->UnknownVariable_0);
        },
        _ => {},
    }
}

/// Where an arithmetic expression has no code, the report is that of an
/// unknown variable, and no other.
pub proof fn lemma_arithmetic_failure_is_unknown_variable(
    scope: Scope,
    symbols: Seq<Symbol>,
    e: Expr,
)
    requires
        arithmetic(symbols, e),
    ensures
        expr_code(scope, symbols, e) matches Err(f) ==> f is UnknownVariable,
    decreases e,
{
    match e {
        Expr::Binary(lhs, _, rhs) => {
            lemma_arithmetic_failure_is_unknown_variable(scope, symbols, *lhs);
            lemma_arithmetic_failure_is_unknown_variable(scope, symbols, *rhs);
        },
        _ => {},
    }
}

/// The quotient of two expressions is computed from the code of the
/// dividend, then the code of the divisor, then a division that takes the
/// divisor from the top of the stack and the dividend from below it.
pub proof fn lemma_division_keeps_operand_order(
    scope: Scope,
    symbols: Seq<Symbol>,
    dividend: Expr,
    divisor: Expr,
)
    requires
        expr_code(scope, symbols, dividend) is Ok,
        expr_code(scope, symbols, divisor) is Ok,
    ensures
        expr_code(
            scope,
            symbols,
            Expr::Binary(Box::new(dividend), BinaryOperator::Divide, Box::new(divisor)),
        ) == Ok::<Seq<char>, Failure>(
            expr_code(scope, symbols, dividend)->Ok_0 + expr_code(scope, symbols, divisor)->Ok_0
                + (line("pop rbx"@) + line("pop rax"@) + line("xor rdx, rdx"@) + line("idiv rbx"@)
                + line("push rax"@)),
        ),
{
}

/// Whether a statement that is no function declaration reads the variable
/// `name` in the expression it computes.
pub open spec fn statement_reads(s: Stmt, name: Seq<char>) -> bool {
    match s {
        Stmt::VarDecl(_, init) => reads(init, name),
        Stmt::Call(_, args) => reads_any(args, name),
        Stmt::Return(value) => reads(value, name),
        Stmt::Function(_, _, _) => false,
    }
}

/// A statement that reads a variable that was not declared cannot be
/// compiled.
pub proof fn lemma_statement_reading_undeclared_fails(
    p: Program,
    scope: Scope,
    s: Stmt,
    name: Seq<char>,
)
    requires
        statement_reads(s, name),
        !known(scope, p.symbols, name),
    ensures
        statement(p, scope, s) is Err,
{
    match s {
        Stmt::VarDecl(_, init) => {
            lemma_undeclared_read_fails(scope, p.symbols, init, name);
        },
        Stmt::Call(_, args) => {
            if args.len() == 1 {
                lemma_reads_single(args, name);
                lemma_undeclared_read_fails(scope, p.symbols, args[0], name);
            }
        },
        Stmt::Return(value) => {
            lemma_undeclared_read_fails(scope, p.symbols, value, name);
        },
        Stmt::Function(_, _, _) => {},
    }
}

/// Compiling a run of statements is compiling its first `k`, and then the
/// others from where those ended.
pub proof fn lemma_statements_split(p: Program, scope: Scope, ss: Seq<Stmt>, k: int)
    requires
        0 <= k <= ss.len(),
    ensures
        statements(p, scope, ss) == match statements(p, scope, ss.take(k)) {
            Ok(middle) => statements(middle, scope, ss.skip(k)),
            Err(f) => Err(f),
        },
    decreases k,
{
    if k == 0 {
        assert(ss.skip(0) =~= ss);
    } else {
        assert(ss.take(k).drop_first() =~= ss.drop_first().take(k - 1));
        assert(ss.drop_first().skip(k - 1) =~= ss.skip(k));
        match statement(p, scope, ss[0]) {
            Ok(next) => {
                lemma_statements_split(next, scope, ss.drop_first(), k - 1);
            },
            Err(_) => {},
        }
    }
}

/// A program cannot be compiled where one of its top-level statements
/// reads a variable that no statement before it declared.
pub proof fn lemma_program_reading_undeclared_fails(ss: Seq<Stmt>, k: int, name: Seq<char>)
    requires
        0 <= k < ss.len(),
        statement_reads(ss[k], name),
        statements(initial_program(), Scope::Global, ss.take(k)) matches Ok(before) && !known(
            Scope::Global,
            before.symbols,
            name,
        ),
    ensures
        compile_spec(ss) is Err,
{
    lemma_statements_split(initial_program(), Scope::Global, ss, k);
    let before = statements(initial_program(), Scope::Global, ss.take(k))->Ok_0;
    lemma_statement_reading_undeclared_fails(before, Scope::Global, ss[k], name);
}

/// Whether `after` holds all of `before` and, behind it, what came later:
/// each buffer and the symbol table start with what they held, and no
/// printed literal is forgotten.
pub open spec fn extends(before: Program, after: Program) -> bool {
    &&& before.sections.data.is_prefix_of(after.sections.data)
    &&& before.sections.text.is_prefix_of(after.sections.text)
    &&& before.sections.main.is_prefix_of(after.sections.main)
    &&& before.symbols.is_prefix_of(after.symbols)
    &&& before.literals <= after.literals
}

/// Adding code to a buffer keeps what every buffer held.
pub proof fn lemma_emitted_extends(sections: Sections, loc: EmitLocation, code: Seq<char>)
    ensures
        sections.data.is_prefix_of(emitted(sections, loc, code).data),
        sections.text.is_prefix_of(emitted(sections, loc, code).text),
        sections.main.is_prefix_of(emitted(sections, loc, code).main),
{
    assert(sections.data.is_prefix_of(sections.data + code));
    assert(sections.text.is_prefix_of(sections.text + code));
    assert(sections.main.is_prefix_of(sections.main + code));
    assert(sections.data.is_prefix_of(sections.data));
    assert(sections.text.is_prefix_of(sections.text));
    assert(sections.main.is_prefix_of(sections.main));
}

/// A prefix of a prefix is a prefix.
pub proof fn lemma_extends_transitive(a: Program, b: Program, c: Program)
    requires
        extends(a, b),
        extends(b, c),
    ensures
        extends(a, c),
{
    assert(a.sections.data.is_prefix_of(c.sections.data));
    assert(a.sections.text.is_prefix_of(c.sections.text));
    assert(a.sections.main.is_prefix_of(c.sections.main));
    assert(a.symbols.is_prefix_of(c.symbols));
}

/// Code generation only appends: a statement leaves what the buffers held
/// where it was, and the symbol table keeps its entries in the order of
/// their declarations.
pub proof fn lemma_statement_appends(p: Program, scope: Scope, s: Stmt)
    requires
        statement(p, scope, s) is Ok,
    ensures
        extends(p, statement(p, scope, s)->Ok_0),
    decreases s, 0int,
{
    let after = statement(p, scope, s)->Ok_0;
    assert(p.symbols.is_prefix_of(p.symbols));
    match s {
        Stmt::VarDecl(name, init) => {
            assert(p.symbols.is_prefix_of(p.symbols.push(Symbol { name, value: init })));
            match init {
                Expr::Int(i) => {
                    lemma_emitted_extends(
                        p.sections,
                        EmitLocation::Data,
                        line(name + " dq "@ + signed_decimal(i as int)),
                    );
                },
                Expr::Str(text) => {
                    lemma_emitted_extends(
                        p.sections,
                        EmitLocation::Data,
                        string_constant(name, text),
                    );
                },
                _ => {
                    let code = expr_code(scope, p.symbols, init)->Ok_0;
                    let slot = emitted(p.sections, EmitLocation::Data, line(name + " dq 0"@));
                    lemma_emitted_extends(p.sections, EmitLocation::Data, line(name + " dq 0"@));
                    lemma_emitted_extends(slot, code_location(scope), code + store_code(name));
                },
            }
        },
        Stmt::Call(name, args) => {
            if name == "print"@ {
                match args[0] {
                    Expr::Str(text) => {
                        let label = literal_label(p.literals);
                        let constant = emitted(
                            p.sections,
                            EmitLocation::Data,
                            string_constant(label, text),
                        );
                        lemma_emitted_extends(
                            p.sections,
                            EmitLocation::Data,
                            string_constant(label, text),
                        );
                        lemma_emitted_extends(
                            constant,
                            code_location(scope),
                            print_string_code(label, text),
                        );
                    },
                    argument => {
                        match string_variable(p.symbols, scope, argument) {
                            Some((variable, text)) => {
                                lemma_emitted_extends(
                                    p.sections,
                                    code_location(scope),
                                    print_string_code(variable, text),
                                );
                            },
                            None => {
                                lemma_emitted_extends(
                                    p.sections,
                                    code_location(scope),
                                    expr_code(scope, p.symbols, argument)->Ok_0 + print_int_code(),
                                );
                            },
                        }
                    },
                }
            } else {
                lemma_emitted_extends(
                    p.sections,
                    code_location(scope),
                    expr_code(scope, p.symbols, args[0])->Ok_0 + call_code(name),
                );
            }
        },
        Stmt::Return(value) => {
            lemma_emitted_extends(
                p.sections,
                code_location(scope),
                expr_code(scope, p.symbols, value)->Ok_0 + line("pop rax"@) + leave_code(),
            );
        },
        Stmt::Function(name, parameter, body) => {
            let inside = Scope::Function { parameter };
            let entered = with_code(p, inside, line(name + ":"@) + enter_code());
            lemma_emitted_extends(p.sections, EmitLocation::Text, line(name + ":"@) + enter_code());
            lemma_statements_append(entered, inside, body);
            let done = statements(entered, inside, body)->Ok_0;
            lemma_emitted_extends(done.sections, EmitLocation::Text, leave_code());
            lemma_extends_transitive(p, entered, done);
            lemma_extends_transitive(p, done, after);
        },
    }
}

/// A run of statements leaves what the buffers and the symbol table held
/// where it was.
pub proof fn lemma_statements_append(p: Program, scope: Scope, ss: Seq<Stmt>)
    requires
        statements(p, scope, ss) is Ok,
    ensures
        extends(p, statements(p, scope, ss)->Ok_0),
    decreases ss, 1int,
{
    if ss.len() == 0 {
        assert(p.sections.data.is_prefix_of(p.sections.data));
        assert(p.sections.text.is_prefix_of(p.sections.text));
        assert(p.sections.main.is_prefix_of(p.sections.main));
        assert(p.symbols.is_prefix_of(p.symbols));
    } else {
        lemma_statement_appends(p, scope, ss[0]);
        let next = statement(p, scope, ss[0])->Ok_0;
        lemma_statements_append(next, scope, ss.drop_first());
        lemma_extends_transitive(p, next, statements(p, scope, ss)->Ok_0);
    }
}

/// Whether no name stands twice in a symbol table.
pub open spec fn distinct_names(symbols: Seq<Symbol>) -> bool {
    forall|i: int, j: int|
        0 <= i < j < symbols.len() ==> (#[trigger] symbols[i]).name != (#[trigger] symbols[j]).name
}

/// A name that is looked up and not found stands nowhere in the table.
pub proof fn lemma_lookup_none(symbols: Seq<Symbol>, name: Seq<char>)
    requires
        lookup(symbols, name) is None,
    ensures
        forall|i: int| 0 <= i < symbols.len() ==> (#[trigger] symbols[i]).name != name,
    decreases symbols.len(),
{
    if symbols.len() > 0 {
        lemma_lookup_none(symbols.drop_last(), name);
        assert forall|i: int| 0 <= i < symbols.len() implies (#[trigger] symbols[i]).name
            != name by {
            if i < symbols.len() - 1 {
                assert(symbols.drop_last()[i] == symbols[i]);
            }
        }
    }
}

/// A statement declares no name a second time.
pub proof fn lemma_statement_keeps_names_distinct(p: Program, scope: Scope, s: Stmt)
    requires
        distinct_names(p.symbols),
        statement(p, scope, s) is Ok,
    ensures
        distinct_names(statement(p, scope, s)->Ok_0.symbols),
    decreases s, 0int,
{
    match s {
        Stmt::VarDecl(name, init) => {
            lemma_lookup_none(p.symbols, name);
        },
        Stmt::Function(name, parameter, body) => {
            let inside = Scope::Function { parameter };
            let entered = with_code(p, inside, line(name + ":"@) + enter_code());
            lemma_statements_keep_names_distinct(entered, inside, body);
        },
        _ => {},
    }
}

/// A run of statements declares no name a second time.
pub proof fn lemma_statements_keep_names_distinct(p: Program, scope: Scope, ss: Seq<Stmt>)
    requires
        distinct_names(p.symbols),
        statements(p, scope, ss) is Ok,
    ensures
        distinct_names(statements(p, scope, ss)->Ok_0.symbols),
    decreases ss, 1int,
{
    if ss.len() > 0 {
        lemma_statement_keeps_names_distinct(p, scope, ss[0]);
        lemma_statements_keep_names_distinct(
            statement(p, scope, ss[0])->Ok_0,
            scope,
            ss.drop_first(),
        );
    }
}

} // verus!
