//! Code generation: a walk over the statements that fills the three
//! buffers of the assembly text.

use crate::assembly;
use crate::assembly::{
    call_code, code_location, emitted, enter_code, expr_code, initial_sections, leave_code,
    lemma_emitted_twice, letter, line, lookup, name_char, operator_code, print_int_code,
    print_string_code, push_constant, quotable, quotable_text, store_code, string_constant,
    valid_name, variable_code, Failure, Sections, Symbol,
};
use crate::ast::{
    expr_models, lemma_expr_models, lemma_stmt_models, stmt_models, BinaryOperator, ParsedExpr,
    ParsedStatement,
};
use crate::text::{push_decimal, push_signed_decimal};
use vstd::prelude::*;
use vstd::string::*;

pub use crate::assembly::{EmitLocation, Unsupported};

verus! {

/// Why compiling a program failed.
#[derive(Debug, Clone, PartialEq, Eq)]
pub enum CompileError {
    /// The program holds a construct that there is no code for.
    UnsupportedConstruct(Unsupported),
    /// An expression reads a variable that no declaration before it made.
    UnknownVariable(String),
}

impl View for CompileError {
    type V = Failure;

    open spec fn view(&self) -> Failure {
        match self {
            CompileError::UnsupportedConstruct(why) => Failure::Unsupported(*why),
            CompileError::UnknownVariable(name) => Failure::UnknownVariable(name@),
        }
    }
}

/// What a construct that cannot be compiled is called in a message.
fn reason(why: Unsupported) -> (text: &'static str)
    ensures
        text@ == assembly::reason_text(why),
{
    match why {
        Unsupported::FloatingPoint => "floating-point number",
        Unsupported::VariableAlias => "variable declared as another variable",
        Unsupported::StringOperand => "string used as a number",
        Unsupported::ArgumentCount => "call without exactly one argument",
        Unsupported::PrintValue => "value of print",
        Unsupported::Redeclaration => "second declaration of a name",
        Unsupported::InvalidName => "name that is no letter followed by letters and digits",
        Unsupported::StringText => "string with a control character or a double quote",
        Unsupported::NestedFunction => "function inside a function",
        Unsupported::ReturnOutsideFunction => "return outside a function",
    }
}

impl CompileError {
    /// The message that a driver prints for this failure.
    pub fn message(&self) -> (text: String)
        ensures
            text@ == assembly::failure_message(self@),
    {
        match self {
            CompileError::UnsupportedConstruct(why) => {
                let mut text = String::from_str("unsupported construct: ");
                text.append(reason(*why));
                text
            },
            CompileError::UnknownVariable(name) => {
                let mut text = String::from_str("unknown variable '");
                text.append(name.as_str());
                text.append("'");
                text
            },
        }
    }
}

/// The three buffers of the assembly text.
#[derive(Debug)]
pub struct Emitter {
    output_data: String,
    output_text: String,
    output_main: String,
}

impl View for Emitter {
    type V = Sections;

    closed spec fn view(&self) -> Sections {
        Sections { data: self.output_data@, text: self.output_text@, main: self.output_main@ }
    }
}

/// A declared variable: its name and the expression it was declared with.
struct Entry<'a> {
    name: &'a String,
    value: &'a ParsedExpr,
}

/// The mathematical value of the declared variables.
spec fn symbol_models(entries: Seq<Entry<'_>>) -> Seq<Symbol> {
    Seq::new(entries.len(), |i: int| Symbol { name: entries[i].name@, value: entries[i].value@ })
}

/// The declared variables and the string literals that were printed.
struct Table<'a> {
    entries: Vec<Entry<'a>>,
    literals: Vec<&'a String>,
}

/// The mathematical value of what code generation has brought together.
spec fn program_of(sections: Sections, table: Table<'_>) -> assembly::Program {
    assembly::Program {
        sections,
        symbols: symbol_models(table.entries@),
        literals: table.literals@.len(),
    }
}

/// Where the statements that are compiled stand.
enum Scope<'a> {
    Global,
    Function(&'a String),
}

impl<'a> View for Scope<'a> {
    type V = assembly::Scope;

    closed spec fn view(&self) -> assembly::Scope {
        match self {
            Scope::Global => assembly::Scope::Global,
            Scope::Function(parameter) => assembly::Scope::Function { parameter: parameter@ },
        }
    }
}

/// Whether `name` is a letter followed by letters and digits.
fn is_valid_name(name: &String) -> (valid: bool)
    ensures
        valid == valid_name(name@),
{
    broadcast use vstd::string::group_string_axioms;

    let text = name.as_str();
    let mut valid = true;
    let mut first = true;
    for c in it: text.chars()
        invariant
            it.seq() == name@,
            first == (it.index() == 0),
            valid == ((forall|i: int| 0 <= i < it.index() ==> name_char(#[trigger] name@[i])) && (
            it.index() > 0 ==> letter(name@[0]))),
    {
        let digit = '0' <= c && c <= '9';
        let alphabetic = ('A' <= c && c <= 'Z') || ('a' <= c && c <= 'z');
        if !(digit || alphabetic) || (first && !alphabetic) {
            valid = false;
        }
        first = false;
    }
    valid && !first
}

/// Whether every character of `text` can stand in an assembly string.
fn is_quotable(text: &String) -> (yes: bool)
    ensures
        yes == quotable_text(text@),
{
    broadcast use vstd::string::group_string_axioms;

    let slice = text.as_str();
    let mut yes = true;
    for c in it: slice.chars()
        invariant
            it.seq() == text@,
            yes == (forall|i: int| 0 <= i < it.index() ==> quotable(#[trigger] text@[i])),
    {
        if !(' ' <= c && c != '\u{7f}' && c != '"') {
            yes = false;
        }
    }
    yes
}

/// The expression that `name` was declared with, if it was declared.
fn find<'a>(entries: &Vec<Entry<'a>>, name: &String) -> (found: Option<&'a ParsedExpr>)
    ensures
        match found {
            Some(value) => lookup(symbol_models(entries@), name@) == Some(value@),
            None => lookup(symbol_models(entries@), name@) is None,
        },
{
    let ghost all = symbol_models(entries@);
    let mut i = entries.len();
    assert(all.take(i as int) =~= all);
    while i > 0
        invariant
            i <= entries.len(),
            all == symbol_models(entries@),
            lookup(all, name@) == lookup(all.take(i as int), name@),
        decreases i,
    {
        i -= 1;
        assert(all.take(i + 1).drop_last() =~= all.take(i as int));
        if *entries[i].name == *name {
            return Some(entries[i].value);
        }
    }
    None
}

impl Emitter {
    /// The buffers of a program before its first statement.
    pub fn new() -> (emitter: Self)
        ensures
            emitter@ == initial_sections(),
    {
        broadcast use lemma_emitted_twice;

        let mut emitter = Self {
            output_data: String::from_str("SECTION .data\n"),
            output_text: String::from_str("SECTION .text\n"),
            output_main: String::from_str("\n"),
        };
        let ghost start = emitter@;
        emitter.emit(EmitLocation::Text, "extern print_int");
        emitter.emit(EmitLocation::Text, "extern print_char");
        emitter.emit(EmitLocation::Text, "extern print_string");
        emitter.emit(EmitLocation::Text, "global _start");
        emitter.emit(EmitLocation::Main, "_start:");
        proof {
            let externs = line("extern print_int"@) + line("extern print_char"@) + line(
                "extern print_string"@,
            ) + line("global _start"@);
            assert(emitter@ == emitted(
                emitted(start, EmitLocation::Text, externs),
                EmitLocation::Main,
                line("_start:"@),
            ));
        }
        emitter
    }

    /// Adds one instruction or directive, on a line of its own, to a
    /// buffer.
    pub fn emit(&mut self, loc: EmitLocation, instruction: &str)
        ensures
            final(self)@ == emitted(old(self)@, loc, line(instruction@)),
    {
        match loc {
            EmitLocation::Data => {
                self.output_data.append("\t");
                self.output_data.append(instruction);
                self.output_data.append("\n");
                assert(self.output_data@ =~= old(self).output_data@ + line(instruction@));
            },
            EmitLocation::Text => {
                self.output_text.append("\t");
                self.output_text.append(instruction);
                self.output_text.append("\n");
                assert(self.output_text@ =~= old(self).output_text@ + line(instruction@));
            },
            EmitLocation::Main => {
                self.output_main.append("\t");
                self.output_main.append(instruction);
                self.output_main.append("\n");
                assert(self.output_main@ =~= old(self).output_main@ + line(instruction@));
            },
        }
    }

    /// The text of one of the buffers.
    pub fn section(&self, loc: EmitLocation) -> (text: &String)
        ensures
            text@ == assembly::section(self@, loc),
    {
        match loc {
            EmitLocation::Data => &self.output_data,
            EmitLocation::Text => &self.output_text,
            EmitLocation::Main => &self.output_main,
        }
    }

    /// The three buffers in one text: the data section, the functions, the
    /// entry code.
    pub fn into_text(self) -> (text: String)
        ensures
            text@ == self@.data + self@.text + self@.main,
    {
        let Emitter { output_data, output_text, output_main } = self;
        let mut text = output_data;
        text.append(output_text.as_str());
        text.append(output_main.as_str());
        text
    }

    /// Pushes an integer constant.
    fn emit_constant(&mut self, loc: EmitLocation, i: i64)
        ensures
            final(self)@ == emitted(old(self)@, loc, push_constant(i)),
    {
        broadcast use lemma_emitted_twice;

        if -0x8000_0000 <= i && i <= 0x7fff_ffff {
            let mut text = String::from_str("push ");
            push_signed_decimal(&mut text, i);
            self.emit(loc, text.as_str());
        } else {
            let mut text = String::from_str("mov rax, ");
            push_signed_decimal(&mut text, i);
            self.emit(loc, text.as_str());
            self.emit(loc, "push rax");
        }
    }

    /// Replaces the two values on top of the stack by the result of an
    /// operator.
    fn emit_operator(&mut self, loc: EmitLocation, op: &BinaryOperator)
        ensures
            final(self)@ == emitted(old(self)@, loc, operator_code(*op)),
    {
        broadcast use lemma_emitted_twice;

        match op {
            BinaryOperator::Add => {
                self.emit(loc, "pop rax");
                self.emit(loc, "pop rbx");
                self.emit(loc, "add rax, rbx");
                self.emit(loc, "push rax");
            },
            BinaryOperator::Subtract => {
                self.emit(loc, "pop rax");
                self.emit(loc, "pop rbx");
                self.emit(loc, "sub rbx, rax");
                self.emit(loc, "push rbx");
            },
            BinaryOperator::Multiply => {
                self.emit(loc, "pop rax");
                self.emit(loc, "pop rbx");
                self.emit(loc, "imul rax, rbx");
                self.emit(loc, "push rax");
            },
            BinaryOperator::Divide => {
                self.emit(loc, "pop rbx");
                self.emit(loc, "pop rax");
                self.emit(loc, "xor rdx, rdx");
                self.emit(loc, "idiv rbx");
                self.emit(loc, "push rax");
            },
        }
    }
    /// Pushes the value of a variable.
    fn emit_variable<'a>(
        &mut self,
        scope: &Scope<'a>,
        entries: &Vec<Entry<'a>>,
        name: &String,
    ) -> (result: Result<(), CompileError>)
        ensures
            match (result, variable_code(scope@, symbol_models(entries@), name@)) {
                (Ok(_), Ok(code)) => final(self)@ == emitted(
                    old(self)@,
                    code_location(scope@),
                    code,
                ),
                (Err(e), Err(f)) => e@ == f,
                _ => false,
            },
    {
        let loc = location(scope);
        if is_parameter(scope, name) {
            self.emit(loc, "push QWORD [rbp-8]");
            return Ok(());
        }
        match find(entries, name) {
            Some(ParsedExpr::QuotedString(_)) => Err(
                CompileError::UnsupportedConstruct(Unsupported::StringOperand),
            ),
            Some(_) => {
                let mut text = String::from_str("push QWORD [");
                text.append(name.as_str());
                text.append("]");
                self.emit(loc, text.as_str());
                Ok(())
            },
            None => Err(CompileError::UnknownVariable(name.clone())),
        }
    }

    /// Calls `name` with the value on top of the stack as its argument.
    fn emit_call(&mut self, loc: EmitLocation, name: &String)
        ensures
            final(self)@ == emitted(old(self)@, loc, call_code(name@)),
    {
        broadcast use lemma_emitted_twice;

        self.emit(loc, "pop rdi");
        let mut text = String::from_str("call ");
        text.append(name.as_str());
        self.emit(loc, text.as_str());
    }

    /// Pushes the value of an expression.
    fn emit_expr<'a>(
        &mut self,
        scope: &Scope<'a>,
        entries: &Vec<Entry<'a>>,
        expr: &ParsedExpr,
    ) -> (result: Result<(), CompileError>)
        ensures
            match (result, expr_code(scope@, symbol_models(entries@), expr@)) {
                (Ok(_), Ok(code)) => final(self)@ == emitted(
                    old(self)@,
                    code_location(scope@),
                    code,
                ),
                (Err(e), Err(f)) => e@ == f,
                _ => false,
            },
        decreases expr,
    {
        broadcast use lemma_emitted_twice;

        let loc = location(scope);
        match expr {
            ParsedExpr::IntegerConstant(i) => {
                self.emit_constant(loc, *i);
                Ok(())
            },
            ParsedExpr::FloatConstant(_) => Err(
                CompileError::UnsupportedConstruct(Unsupported::FloatingPoint),
            ),
            ParsedExpr::QuotedString(_) => Err(
                CompileError::UnsupportedConstruct(Unsupported::StringOperand),
            ),
            ParsedExpr::Var(name) => self.emit_variable(scope, entries, name),
            ParsedExpr::BinaryOp(lhs, op, rhs) => {
                self.emit_expr(scope, entries, lhs)?;
                self.emit_expr(scope, entries, rhs)?;
                self.emit_operator(loc, op);
                Ok(())
            },
            ParsedExpr::FunctionCall(name, args) => {
                proof {
                    lemma_expr_models(args@);
                }
                if is_word(name, "print") {
                    Err(CompileError::UnsupportedConstruct(Unsupported::PrintValue))
                } else if !is_valid_name(name) {
                    Err(CompileError::UnsupportedConstruct(Unsupported::InvalidName))
                } else if args.len() != 1 {
                    Err(CompileError::UnsupportedConstruct(Unsupported::ArgumentCount))
                } else {
                    self.emit_expr(scope, entries, &args[0])?;
                    self.emit_call(loc, name);
                    self.emit(loc, "push rax");
                    Ok(())
                }
            },
        }
    }

    /// Adds a string constant to the data section.
    fn emit_string_constant(&mut self, label: &String, text: &String)
        ensures
            final(self)@ == emitted(old(self)@, EmitLocation::Data, string_constant(label@, text@)),
    {
        let mut directive = label.clone();
        if text.as_str().is_empty() {
            directive.append(" db 10");
        } else {
            directive.append(" db \"");
            directive.append(text.as_str());
            directive.append("\", 10");
        }
        self.emit(EmitLocation::Data, directive.as_str());
    }

    /// Hands the string constant of `text` at `label` to the routine that
    /// prints strings.
    fn emit_print_string(&mut self, loc: EmitLocation, label: &String, text: &String)
        ensures
            final(self)@ == emitted(old(self)@, loc, print_string_code(label@, text@)),
    {
        broadcast use lemma_emitted_twice;

        let mut address = String::from_str("mov rdi, ");
        address.append(label.as_str());
        self.emit(loc, address.as_str());
        let bytes = text.as_str().as_bytes().len();
        let mut length = String::from_str("mov rsi, ");
        push_decimal(&mut length, bytes as u128 + 1);
        self.emit(loc, length.as_str());
        self.emit(loc, "call print_string");
    }

    /// Prints the number on top of the stack, and a newline after it.
    fn emit_print_int(&mut self, loc: EmitLocation)
        ensures
            final(self)@ == emitted(old(self)@, loc, print_int_code()),
    {
        broadcast use lemma_emitted_twice;

        self.emit(loc, "pop rdi");
        self.emit(loc, "call print_int");
        self.emit(loc, "mov rdi, 10");
        self.emit(loc, "call print_char");
    }

    /// Sets up the frame of a function.
    fn emit_enter(&mut self, loc: EmitLocation)
        ensures
            final(self)@ == emitted(old(self)@, loc, enter_code()),
    {
        broadcast use lemma_emitted_twice;

        self.emit(loc, "push rbp");
        self.emit(loc, "mov rbp, rsp");
        self.emit(loc, "push rdi");
    }

    /// Leaves the frame of a function and goes back to the caller.
    fn emit_leave(&mut self, loc: EmitLocation)
        ensures
            final(self)@ == emitted(old(self)@, loc, leave_code()),
    {
        broadcast use lemma_emitted_twice;

        self.emit(loc, "mov rsp, rbp");
        self.emit(loc, "pop rbp");
        self.emit(loc, "ret");
    }

    /// Declares a variable whose value is computed: a zero slot in the
    /// data section, and the code that computes the value and stores it.
    fn emit_binary_operation_declaration<'a>(
        &mut self,
        scope: &Scope<'a>,
        entries: &Vec<Entry<'a>>,
        var_name: &String,
        var_expr: &ParsedExpr,
    ) -> (result: Result<(), CompileError>)
        ensures
            match (result, expr_code(scope@, symbol_models(entries@), var_expr@)) {
                (Ok(_), Ok(code)) => final(self)@ == emitted(
                    emitted(old(self)@, EmitLocation::Data, line(var_name@ + " dq 0"@)),
                    code_location(scope@),
                    code + store_code(var_name@),
                ),
                (Err(e), Err(f)) => e@ == f,
                _ => false,
            },
    {
        broadcast use lemma_emitted_twice;

        let loc = location(scope);
        let mut slot = var_name.clone();
        slot.append(" dq 0");
        self.emit(EmitLocation::Data, slot.as_str());
        self.emit_expr(scope, entries, var_expr)?;
        self.emit(loc, "pop rdi");
        let mut store = String::from_str("mov [");
        store.append(var_name.as_str());
        store.append("], rdi");
        self.emit(loc, store.as_str());
        assert(final(self)@ == emitted(
            emitted(
                emitted(old(self)@, EmitLocation::Data, line(var_name@ + " dq 0"@)),
                code_location(scope@),
                expr_code(scope@, symbol_models(entries@), var_expr@)->Ok_0,
            ),
            code_location(scope@),
            store_code(var_name@),
        ));
        Ok(())
    }

    /// Compiles a variable declaration and records it.
    fn emit_declaration<'a>(
        &mut self,
        table: &mut Table<'a>,
        scope: &Scope<'a>,
        name: &'a String,
        init: &'a ParsedExpr,
    ) -> (result: Result<(), CompileError>)
        ensures
            match (
                result,
                assembly::declaration(program_of(old(self)@, *old(table)), scope@, name@, init@),
            ) {
                (Ok(_), Ok(after)) => program_of(final(self)@, *final(table)) == after,
                (Err(e), Err(f)) => e@ == f,
                _ => false,
            },
    {
        if !is_valid_name(name) {
            return Err(CompileError::UnsupportedConstruct(Unsupported::InvalidName));
        }
        if is_parameter(scope, name) || find(&table.entries, name).is_some() {
            return Err(CompileError::UnsupportedConstruct(Unsupported::Redeclaration));
        }
        match init {
            ParsedExpr::IntegerConstant(i) => {
                let mut slot = name.clone();
                slot.append(" dq ");
                push_signed_decimal(&mut slot, *i);
                self.emit(EmitLocation::Data, slot.as_str());
            },
            ParsedExpr::FloatConstant(_) => {
                return Err(CompileError::UnsupportedConstruct(Unsupported::FloatingPoint));
            },
            ParsedExpr::Var(_) => {
                return Err(CompileError::UnsupportedConstruct(Unsupported::VariableAlias));
            },
            ParsedExpr::QuotedString(text) => {
                if !is_quotable(text) {
                    return Err(CompileError::UnsupportedConstruct(Unsupported::StringText));
                }
                self.emit_string_constant(name, text);
            },
            ParsedExpr::BinaryOp(_, _, _) | ParsedExpr::FunctionCall(_, _) => {
                self.emit_binary_operation_declaration(scope, &table.entries, name, init)?;
            },
        }
        let ghost before = symbol_models(table.entries@);
        table.entries.push(Entry { name, value: init });
        assert(symbol_models(table.entries@) =~= before.push(
            Symbol { name: name@, value: init@ },
        ));
        Ok(())
    }

    /// Compiles the statement `print(argument)`.
    fn emit_print<'a>(
        &mut self,
        table: &mut Table<'a>,
        scope: &Scope<'a>,
        args: &'a Vec<ParsedExpr>,
    ) -> (result: Result<(), CompileError>)
        ensures
            match (
                result,
                assembly::print(program_of(old(self)@, *old(table)), scope@, expr_models(args@)),
            ) {
                (Ok(_), Ok(after)) => program_of(final(self)@, *final(table)) == after,
                (Err(e), Err(f)) => e@ == f,
                _ => false,
            },
    {
        broadcast use lemma_emitted_twice;

        proof {
            lemma_expr_models(args@);
        }
        let loc = location(scope);
        if args.len() != 1 {
            return Err(CompileError::UnsupportedConstruct(Unsupported::ArgumentCount));
        }
        match &args[0] {
            ParsedExpr::QuotedString(text) => {
                if !is_quotable(text) {
                    return Err(CompileError::UnsupportedConstruct(Unsupported::StringText));
                }
                let mut label = String::from_str("str_");
                push_decimal(&mut label, table.literals.len() as u128);
                self.emit_string_constant(&label, text);
                self.emit_print_string(loc, &label, text);
                table.literals.push(text);
                Ok(())
            },
            argument => {
                match string_variable(&table.entries, scope, argument) {
                    Some((name, text)) => {
                        self.emit_print_string(loc, name, text);
                        Ok(())
                    },
                    None => {
                        self.emit_expr(scope, &table.entries, argument)?;
                        self.emit_print_int(loc);
                        Ok(())
                    },
                }
            },
        }
    }

    /// Compiles a call that stands as a statement.
    fn emit_function_call<'a>(
        &mut self,
        table: &mut Table<'a>,
        scope: &Scope<'a>,
        function_name: &String,
        args: &'a Vec<ParsedExpr>,
    ) -> (result: Result<(), CompileError>)
        ensures
            match (
                result,
                assembly::call_statement(
                    program_of(old(self)@, *old(table)),
                    scope@,
                    function_name@,
                    expr_models(args@),
                ),
            ) {
                (Ok(_), Ok(after)) => program_of(final(self)@, *final(table)) == after,
                (Err(e), Err(f)) => e@ == f,
                _ => false,
            },
    {
        broadcast use lemma_emitted_twice;

        proof {
            lemma_expr_models(args@);
        }
        let loc = location(scope);
        if is_word(function_name, "print") {
            self.emit_print(table, scope, args)
        } else if !is_valid_name(function_name) {
            Err(CompileError::UnsupportedConstruct(Unsupported::InvalidName))
        } else if args.len() != 1 {
            Err(CompileError::UnsupportedConstruct(Unsupported::ArgumentCount))
        } else {
            self.emit_expr(scope, &table.entries, &args[0])?;
            self.emit_call(loc, function_name);
            Ok(())
        }
    }

    /// Compiles a return statement.
    fn emit_return<'a>(
        &mut self,
        table: &Table<'a>,
        scope: &Scope<'a>,
        value: &ParsedExpr,
    ) -> (result: Result<(), CompileError>)
        ensures
            match (
                result,
                assembly::return_statement(program_of(old(self)@, *table), scope@, value@),
            ) {
                (Ok(_), Ok(after)) => program_of(final(self)@, *table) == after,
                (Err(e), Err(f)) => e@ == f,
                _ => false,
            },
    {
        broadcast use lemma_emitted_twice;

        match scope {
            Scope::Global => Err(
                CompileError::UnsupportedConstruct(Unsupported::ReturnOutsideFunction),
            ),
            Scope::Function(_) => {
                let loc = location(scope);
                self.emit_expr(scope, &table.entries, value)?;
                self.emit(loc, "pop rax");
                self.emit_leave(loc);
                Ok(())
            },
        }
    }

    /// Compiles one statement.
    fn emit_statement<'a>(
        &mut self,
        table: &mut Table<'a>,
        scope: &Scope<'a>,
        stmt: &'a ParsedStatement,
    ) -> (result: Result<(), CompileError>)
        ensures
            match (
                result,
                assembly::statement(program_of(old(self)@, *old(table)), scope@, stmt@),
            ) {
                (Ok(_), Ok(after)) => program_of(final(self)@, *final(table)) == after,
                (Err(e), Err(f)) => e@ == f,
                _ => false,
            },
        decreases stmt,
    {
        broadcast use lemma_emitted_twice;

        match stmt {
            ParsedStatement::VarDecl(name, init) => self.emit_declaration(table, scope, name, init),
            ParsedStatement::FunctionCall(name, args) => self.emit_function_call(
                table,
                scope,
                name,
                args,
            ),
            ParsedStatement::ReturnStatement(value) => self.emit_return(table, scope, value),
            ParsedStatement::FunctionDeclaration(name, parameter, body) => {
                match scope {
                    Scope::Function(_) => Err(
                        CompileError::UnsupportedConstruct(Unsupported::NestedFunction),
                    ),
                    Scope::Global => {
                        if !is_valid_name(name) || !is_valid_name(parameter) {
                            return Err(
                                CompileError::UnsupportedConstruct(Unsupported::InvalidName),
                            );
                        }
                        let inside = Scope::Function(parameter);
                        let mut label = name.clone();
                        label.append(":");
                        self.emit(EmitLocation::Text, label.as_str());
                        self.emit_enter(EmitLocation::Text);
                        self.emit_statements(table, &inside, body)?;
                        self.emit_leave(EmitLocation::Text);
                        Ok(())
                    },
                }
            },
        }
    }

    /// Compiles a run of statements, one after the other.
    fn emit_statements<'a>(
        &mut self,
        table: &mut Table<'a>,
        scope: &Scope<'a>,
        stmts: &'a Vec<ParsedStatement>,
    ) -> (result: Result<(), CompileError>)
        ensures
            match (
                result,
                assembly::statements(
                    program_of(old(self)@, *old(table)),
                    scope@,
                    stmt_models(stmts@),
                ),
            ) {
                (Ok(_), Ok(after)) => program_of(final(self)@, *final(table)) == after,
                (Err(e), Err(f)) => e@ == f,
                _ => false,
            },
        decreases stmts,
    {
        let ghost all = stmt_models(stmts@);
        let ghost start = program_of(self@, *table);
        proof {
            lemma_stmt_models(stmts@);
            assert(all.skip(0) =~= all);
        }
        let mut i: usize = 0;
        while i < stmts.len()
            invariant
                i <= stmts.len(),
                all == stmt_models(stmts@),
                all.len() == stmts.len(),
                forall|k: int| 0 <= k < stmts.len() ==> (#[trigger] all[k]) == stmts@[k]@,
                start == program_of(old(self)@, *old(table)),
                assembly::statements(start, scope@, all) == assembly::statements(
                    program_of(self@, *table),
                    scope@,
                    all.skip(i as int),
                ),
            decreases stmts.len() - i,
        {
            proof {
                assert(all.skip(i as int).drop_first() =~= all.skip(i + 1));
            }
            self.emit_statement(table, scope, &stmts[i])?;
            i += 1;
        }
        Ok(())
    }
}

/// The buffer that the code of a scope goes to.
fn location(scope: &Scope<'_>) -> (loc: EmitLocation)
    ensures
        loc == code_location(scope@),
{
    match scope {
        Scope::Global => EmitLocation::Main,
        Scope::Function(_) => EmitLocation::Text,
    }
}

/// Whether `name` is the parameter of the function around.
fn is_parameter(scope: &Scope<'_>, name: &String) -> (yes: bool)
    ensures
        yes == (scope@ matches assembly::Scope::Function { parameter } && parameter == name@),
{
    match scope {
        Scope::Global => false,
        Scope::Function(parameter) => **parameter == *name,
    }
}

/// Whether `name` is the given word, letter for letter.
fn is_word(name: &String, word: &str) -> (yes: bool)
    ensures
        yes == (name@ == word@),
{
    *name == String::from_str(word)
}

/// The name and the text of the string that an expression stands for,
/// where it is a variable declared with a string.
fn string_variable<'a, 'b>(
    entries: &Vec<Entry<'a>>,
    scope: &Scope<'a>,
    e: &'b ParsedExpr,
) -> (found: Option<(&'b String, &'a String)>)
    ensures
        match (found, assembly::string_variable(symbol_models(entries@), scope@, e@)) {
            (Some(pair), Some(model)) => pair.0@ == model.0 && pair.1@ == model.1,
            (None, None) => true,
            _ => false,
        },
{
    match e {
        ParsedExpr::Var(name) => {
            if is_parameter(scope, name) {
                None
            } else {
                match find(entries, name) {
                    Some(ParsedExpr::QuotedString(text)) => Some((name, text)),
                    _ => None,
                }
            }
        },
        _ => None,
    }
}

/// Compiles a program to assembly text: the data section, the functions,
/// the entry code with the top-level statements in their order, and the
/// exit with status 0. The first construct that there is no code for, or
/// the first variable that is read and was not declared, ends compilation.
pub fn compile(statements: Vec<ParsedStatement>) -> (result: Result<String, CompileError>)
    ensures
        match (result, assembly::compile_spec(stmt_models(statements@))) {
            (Ok(text), Ok(model)) => text@ == model,
            (Err(e), Err(f)) => e@ == f,
            _ => false,
        },
{
    broadcast use lemma_emitted_twice;

    let mut emitter = Emitter::new();
    let mut table = Table { entries: Vec::new(), literals: Vec::new() };
    assert(program_of(emitter@, table) == assembly::initial_program()) by {
        assert(symbol_models(table.entries@) =~= Seq::<Symbol>::empty());
    }
    emitter.emit_statements(&mut table, &Scope::Global, &statements)?;
    emitter.emit(EmitLocation::Main, "mov rax, 60");
    emitter.emit(EmitLocation::Main, "mov rdi, 0");
    emitter.emit(EmitLocation::Main, "syscall");
    Ok(emitter.into_text())
}

} // verus!
