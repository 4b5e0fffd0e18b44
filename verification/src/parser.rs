//! Recursive-descent parsing of a token sequence into statements.

use crate::ast::{expr_models, stmt_models, Stmt};
use crate::error::{Diagnostic, JPLError};
use crate::grammar;
use crate::grammar::{kind_at, line_of};
use crate::lexer::{token_models, Span, Token, TokenContents, TokenKind, TokenModel};
use crate::text::matches_keyword;
use vstd::prelude::*;
use vstd::string::*;

pub use crate::ast::{BinaryOperator, ParsedExpr, ParsedStatement};

verus! {

/// A token sequence and the position of the token that is read next.
#[derive(Debug)]
pub struct Parser {
    tokens: Vec<Token>,
    idx: usize,
}

/// The end-of-input marker that stands for a missing one: on the line of
/// the last token, or on the first line where there is no token.
pub open spec fn closing_marker(tokens: Seq<TokenModel>) -> TokenModel {
    TokenModel {
        kind: TokenKind::Eof,
        span: Span { start: 0, end: 0 },
        line: line_of(tokens, tokens.len() as int),
    }
}

/// The tokens as the parser holds them: with an end-of-input marker added
/// where the last token is none.
pub open spec fn terminated(tokens: Seq<TokenModel>) -> Seq<TokenModel> {
    if tokens.len() > 0 && tokens.last().kind is Eof {
        tokens
    } else {
        tokens.push(closing_marker(tokens))
    }
}

impl Parser {
    /// The position is inside the tokens, and the last token is the
    /// end-of-input marker.
    #[verifier::type_invariant]
    spec fn well_formed(self) -> bool {
        &&& self.idx < self.tokens.len()
        &&& self.tokens@.last().contents is Eof
    }

    /// The tokens that the parser holds.
    pub closed spec fn tokens(&self) -> Seq<TokenModel> {
        token_models(self.tokens@)
    }

    /// The position of the token that is read next.
    pub closed spec fn position(&self) -> int {
        self.idx as int
    }

    /// A parser at the first of the tokens.
    pub fn new(tokens: Vec<Token>) -> (parser: Self)
        ensures
            parser.tokens() == terminated(token_models(tokens@)),
            parser.position() == 0,
    {
        let mut tokens = tokens;
        let n = tokens.len();
        let closed = n > 0 && matches!(tokens[n - 1].contents, TokenContents::Eof);
        if !closed {
            let line = if n > 0 {
                tokens[n - 1].line
            } else {
                1
            };
            let marker = Token::on_line(TokenContents::Eof, Span::new(0, 0), line);
            tokens.push(marker);
        }
        Parser { tokens, idx: 0 }
    }

    /// The token that is read next.
    fn current(&self) -> (token: &Token)
        ensures
            token@ == self.tokens()[self.position()],
            token@.kind == kind_at(self.tokens(), self.position()),
            token@.line == line_of(self.tokens(), self.position()),
            0 <= self.position() < self.tokens().len(),
    {
        proof {
            use_type_invariant(self);
        }
        &self.tokens[self.idx]
    }

    /// Whether the token that is read next is the end-of-input marker.
    fn is_at_end(&self) -> (end: bool)
        ensures
            end == (kind_at(self.tokens(), self.position()) is Eof),
    {
        matches!(self.current().contents, TokenContents::Eof)
    }

    /// The token after the one that is read next; at the end-of-input
    /// marker, the marker.
    fn peek(&self) -> (token: &Token)
        ensures
            token@.kind == if kind_at(self.tokens(), self.position()) is Eof {
                TokenKind::Eof
            } else {
                kind_at(self.tokens(), self.position() + 1)
            },
    {
        proof {
            use_type_invariant(self);
        }
        if self.is_at_end() {
            self.current()
        } else {
            &self.tokens[self.idx + 1]
        }
    }

    /// The token before the one that is read next.
    fn previous(&self) -> (token: &Token)
        requires
            self.position() > 0,
        ensures
            token@ == self.tokens()[self.position() - 1],
    {
        proof {
            use_type_invariant(self);
        }
        &self.tokens[self.idx - 1]
    }

    /// Moves past the token that is read next, and returns it. The
    /// end-of-input marker stays the token that is read next.
    fn advance(&mut self) -> (token: &Token)
        ensures
            final(self).tokens == old(self).tokens,
            final(self).idx == if kind_at(old(self).tokens(), old(self).position()) is Eof {
                old(self).idx as int
            } else {
                old(self).idx + 1
            },
            token@ == old(self).tokens()[old(self).position()],
    {
        proof {
            use_type_invariant(&*self);
        }
        if self.is_at_end() {
            self.current()
        } else {
            self.idx += 1;
            self.previous()
        }
    }

    /// The diagnostic with `message` for the token that is read next.
    fn fail<T>(&self, message: &str) -> (result: Result<T, JPLError>)
        ensures
            result matches Err(e) && e@ == (Diagnostic {
                message: message@,
                line: line_of(self.tokens(), self.position()),
            }),
    {
        Err(JPLError::new(String::from_str(message), self.current().line))
    }

    /// Whether the token that is read next is `symbol`, which is one of
    /// the tokens without a value.
    fn at(&self, symbol: &TokenContents) -> (yes: bool)
        requires
            !(symbol@ is Integer || symbol@ is Float || symbol@ is QuotedString || symbol@ is Name),
        ensures
            yes == (kind_at(self.tokens(), self.position()) == symbol@),
    {
        match (&self.current().contents, symbol) {
            (TokenContents::Plus, TokenContents::Plus) => true,
            (TokenContents::Minus, TokenContents::Minus) => true,
            (TokenContents::Star, TokenContents::Star) => true,
            (TokenContents::Slash, TokenContents::Slash) => true,
            (TokenContents::Equal, TokenContents::Equal) => true,
            (TokenContents::LParen, TokenContents::LParen) => true,
            (TokenContents::RParen, TokenContents::RParen) => true,
            (TokenContents::LCurly, TokenContents::LCurly) => true,
            (TokenContents::RCurly, TokenContents::RCurly) => true,
            (TokenContents::Eof, TokenContents::Eof) => true,
            _ => false,
        }
    }

    /// Moves past the token that is read next where it is `expected`, and
    /// fails with `message` where it is not.
    fn expect(&mut self, expected: &TokenContents, message: &str) -> (result: Result<(), JPLError>)
        requires
            !(expected@ is Integer || expected@ is Float || expected@ is QuotedString
                || expected@ is Name || expected@ is Eof),
        ensures
            final(self).tokens == old(self).tokens,
            match result {
                Ok(_) => kind_at(old(self).tokens(), old(self).position()) == expected@
                    && final(self).idx == old(self).idx + 1,
                Err(e) => kind_at(old(self).tokens(), old(self).position()) != expected@ && e@ == (
                Diagnostic {
                    message: message@,
                    line: line_of(old(self).tokens(), old(self).position()),
                }),
            },
    {
        if self.at(expected) {
            self.advance();
            Ok(())
        } else {
            self.fail(message)
        }
    }

    /// The name of the token that is read next, where it is a name.
    fn name(&self) -> (name: Option<String>)
        ensures
            match name {
                Some(n) => kind_at(self.tokens(), self.position()) == TokenKind::Name(n@),
                None => !(kind_at(self.tokens(), self.position()) is Name),
            },
    {
        match &self.current().contents {
            TokenContents::Name(n) => Some(n.clone()),
            _ => None,
        }
    }

    /// The text of the token that is read next, where it is a quoted
    /// string.
    fn quoted(&self) -> (text: Option<String>)
        ensures
            match text {
                Some(s) => kind_at(self.tokens(), self.position()) == TokenKind::QuotedString(s@),
                None => !(kind_at(self.tokens(), self.position()) is QuotedString),
            },
    {
        match &self.current().contents {
            TokenContents::QuotedString(s) => Some(s.clone()),
            _ => None,
        }
    }

    /// A call: a name, and one argument in parentheses.
    fn function_call(&mut self) -> (result: Result<(String, Vec<ParsedExpr>), JPLError>)
        ensures
            final(self).tokens == old(self).tokens,
            match (result, grammar::call(old(self).tokens(), old(self).position())) {
                (Ok(found), Ok((model, after))) => found.0@ == model.0 && expr_models(found.1@)
                    == model.1 && final(self).idx == after,
                (Err(e), Err(d)) => e@ == d,
                _ => false,
            },
        decreases old(self).tokens.len() - old(self).idx, 0int,
    {
        proof {
            use_type_invariant(&*self);
        }
        let name = match self.name() {
            Some(n) => n,
            None => {
                return self.fail("Expected function name.");
            },
        };
        self.advance();
        self.expect(&TokenContents::LParen, "Expected left parenthesis.")?;
        let argument = match self.quoted() {
            Some(text) => {
                self.advance();
                ParsedExpr::QuotedString(text)
            },
            None => match self.expression() {
                Ok(e) => e,
                Err(e) => {
                    return Err(JPLError::new(String::from_str("Expected expression."), e.line()));
                },
            },
        };
        self.expect(&TokenContents::RParen, "Expected right parenthesis.")?;
        let mut args = Vec::new();
        args.push(argument);
        proof {
            reveal_with_fuel(expr_models, 2);
        }
        Ok((name, args))
    }

    /// An operand: a number, a variable, a call, or an expression in
    /// parentheses.
    fn factor(&mut self) -> (result: Result<ParsedExpr, JPLError>)
        ensures
            final(self).tokens == old(self).tokens,
            match (result, grammar::factor(old(self).tokens(), old(self).position())) {
                (Ok(tree), Ok((model, after))) => tree@ == model && final(self).idx == after,
                (Err(e), Err(d)) => e@ == d,
                _ => false,
            },
        decreases old(self).tokens.len() - old(self).idx, 1int,
    {
        proof {
            use_type_invariant(&*self);
        }
        let token = self.current();
        match &token.contents {
            TokenContents::Integer(i) => {
                let value = *i;
                self.advance();
                Ok(ParsedExpr::IntegerConstant(value))
            },
            TokenContents::Float(f) => {
                let digits = f.clone();
                self.advance();
                Ok(ParsedExpr::FloatConstant(digits))
            },
            TokenContents::Name(n) => {
                if matches!(self.peek().contents, TokenContents::LParen) {
                    let (callee, args) = self.function_call()?;
                    Ok(ParsedExpr::FunctionCall(callee, args))
                } else {
                    let name = n.clone();
                    self.advance();
                    Ok(ParsedExpr::Var(name))
                }
            },
            TokenContents::LParen => {
                self.advance();
                let inner = self.expression()?;
                if self.at(&TokenContents::RParen) {
                    self.advance();
                    Ok(inner)
                } else {
                    self.fail("Expected closing parenthesis.")
                }
            },
            _ => self.fail("Expected parenthesis or number."),
        }
    }

    /// A product or quotient of operands, grouped from the left.
    fn term(&mut self) -> (result: Result<ParsedExpr, JPLError>)
        ensures
            final(self).tokens == old(self).tokens,
            match (result, grammar::term(old(self).tokens(), old(self).position())) {
                (Ok(tree), Ok((model, after))) => tree@ == model && final(self).idx == after,
                (Err(e), Err(d)) => e@ == d,
                _ => false,
            },
        decreases old(self).tokens.len() - old(self).idx, 3int,
    {
        let ghost given = self.tokens;
        let ghost ts = self.tokens();
        let ghost start = self.position();
        proof {
            grammar::lemma_factor_advances(ts, start);
        }
        let mut lhs = self.factor()?;
        loop
            invariant
                self.tokens == given,
                given == old(self).tokens,
                start == old(self).idx,
                ts == token_models(given@),
                start < self.idx <= given.len(),
                grammar::term(ts, start) == grammar::term_rest(ts, self.idx as int, lhs@),
            decreases given.len() - self.idx,
        {
            let op = match &self.current().contents {
                TokenContents::Star => BinaryOperator::Multiply,
                TokenContents::Slash => BinaryOperator::Divide,
                _ => {
                    return Ok(lhs);
                },
            };
            proof {
                grammar::lemma_factor_advances(ts, self.idx + 1);
            }
            self.advance();
            let rhs = self.factor()?;
            lhs = ParsedExpr::BinaryOp(Box::new(lhs), op, Box::new(rhs));
        }
    }

    /// A sum or difference of terms, grouped from the left.
    fn expression(&mut self) -> (result: Result<ParsedExpr, JPLError>)
        ensures
            final(self).tokens == old(self).tokens,
            match (result, grammar::expression(old(self).tokens(), old(self).position())) {
                (Ok(tree), Ok((model, after))) => tree@ == model && final(self).idx == after,
                (Err(e), Err(d)) => e@ == d,
                _ => false,
            },
        decreases old(self).tokens.len() - old(self).idx, 5int,
    {
        let ghost given = self.tokens;
        let ghost ts = self.tokens();
        let ghost start = self.position();
        proof {
            grammar::lemma_term_advances(ts, start);
        }
        let mut lhs = self.term()?;
        loop
            invariant
                self.tokens == given,
                given == old(self).tokens,
                start == old(self).idx,
                ts == token_models(given@),
                start < self.idx <= given.len(),
                grammar::expression(ts, start) == grammar::expression_rest(
                    ts,
                    self.idx as int,
                    lhs@,
                ),
            decreases given.len() - self.idx,
        {
            let op = match &self.current().contents {
                TokenContents::Plus => BinaryOperator::Add,
                TokenContents::Minus => BinaryOperator::Subtract,
                _ => {
                    return Ok(lhs);
                },
            };
            proof {
                grammar::lemma_term_advances(ts, self.idx + 1);
            }
            self.advance();
            let rhs = self.term()?;
            lhs = ParsedExpr::BinaryOp(Box::new(lhs), op, Box::new(rhs));
        }
    }
    /// A variable declaration, after the keyword `let`.
    fn var_declaration(&mut self) -> (result: Result<ParsedStatement, JPLError>)
        ensures
            final(self).tokens == old(self).tokens,
            match (result, grammar::var_declaration(old(self).tokens(), old(self).position())) {
                (Ok(tree), Ok((model, after))) => tree@ == model && final(self).idx == after,
                (Err(e), Err(d)) => e@ == d,
                _ => false,
            },
    {
        let name = match self.name() {
            Some(n) => n,
            None => {
                return self.fail("Expected variable name.");
            },
        };
        self.advance();
        self.expect(&TokenContents::Equal, "Expected equals sign.")?;
        let value = match self.quoted() {
            Some(text) => {
                self.advance();
                ParsedExpr::QuotedString(text)
            },
            None => self.expression()?,
        };
        Ok(ParsedStatement::VarDecl(name, value))
    }

    /// One statement.
    fn statement(&mut self) -> (result: Result<ParsedStatement, JPLError>)
        ensures
            final(self).tokens == old(self).tokens,
            match (result, grammar::statement(old(self).tokens(), old(self).position())) {
                (Ok(tree), Ok((model, after))) => tree@ == model && final(self).idx == after,
                (Err(e), Err(d)) => e@ == d,
                _ => false,
            },
        decreases old(self).tokens.len() - old(self).idx, 1int,
    {
        proof {
            use_type_invariant(&*self);
        }
        match self.name() {
            Some(n) => {
                if matches_keyword(&n, "let") {
                    self.advance();
                    self.var_declaration()
                } else if matches_keyword(&n, "function") {
                    self.advance();
                    self.function_declaration()
                } else if matches!(self.peek().contents, TokenContents::LParen) {
                    let (callee, args) = self.function_call()?;
                    Ok(ParsedStatement::FunctionCall(callee, args))
                } else {
                    self.fail("expected variable or literal")
                }
            },
            None => self.fail("expected variable or literal"),
        }
    }

    /// A function declaration, after the keyword `function`.
    fn function_declaration(&mut self) -> (result: Result<ParsedStatement, JPLError>)
        ensures
            final(self).tokens == old(self).tokens,
            match (
                result,
                grammar::function_declaration(old(self).tokens(), old(self).position()),
            ) {
                (Ok(tree), Ok((model, after))) => tree@ == model && final(self).idx == after,
                (Err(e), Err(d)) => e@ == d,
                _ => false,
            },
        decreases old(self).tokens.len() - old(self).idx, 0int,
    {
        proof {
            use_type_invariant(&*self);
        }
        let function_name = match self.name() {
            Some(n) => n,
            None => {
                return self.fail("Expected function name.");
            },
        };
        self.advance();
        self.expect(&TokenContents::LParen, "Expected left parenthesis.")?;
        let argument_name = match self.name() {
            Some(n) => n,
            None => {
                return self.fail("Expected argument name.");
            },
        };
        self.advance();
        self.expect(&TokenContents::RParen, "Expected right parenthesis.")?;
        self.expect(&TokenContents::LCurly, "Expected left curly brace.")?;

        let ghost given = self.tokens;
        let ghost ts = self.tokens();
        let ghost start = self.position();
        let mut function_body: Vec<ParsedStatement> = Vec::new();
        proof {
            assert(grammar::function_declaration(ts, old(self).position()) == declared(
                function_name@,
                argument_name@,
                grammar::body(ts, start),
            ));
            match grammar::body(ts, start) {
                Ok((all, end)) => assert(Seq::<Stmt>::empty() + all =~= all),
                Err(_) => {},
            }
        }
        while !self.at(&TokenContents::RCurly)
            invariant
                self.tokens == given,
                given == old(self).tokens,
                old(self).idx + 5 == start,
                ts == token_models(given@),
                grammar::function_declaration(ts, old(self).position()) == declared(
                    function_name@,
                    argument_name@,
                    grammar::body(ts, start),
                ),
                start <= self.idx < given.len(),
                grammar::body(ts, start) == after_statements(
                    stmt_models(function_body@),
                    grammar::body(ts, self.idx as int),
                ),
            decreases given.len() - self.idx,
        {
            let ghost here = self.position();
            let ghost done = stmt_models(function_body@);
            let is_return = match self.name() {
                Some(n) => matches_keyword(&n, "return"),
                None => false,
            };
            proof {
                grammar::lemma_expression_advances(ts, here + 1);
                grammar::lemma_statement_advances(ts, here);
            }
            let stmt = if is_return {
                self.advance();
                ParsedStatement::ReturnStatement(self.expression()?)
            } else {
                self.statement()?
            };
            proof {
                use_type_invariant(&*self);
                assert(stmt_models(function_body@.push(stmt)) =~= done.push(stmt@)) by {
                    assert(function_body@.push(stmt).drop_last() =~= function_body@);
                }
                match grammar::body(ts, self.position()) {
                    Ok((more, end)) => assert(done + (seq![stmt@] + more) =~= done.push(stmt@)
                        + more),
                    Err(_) => {},
                }
            }
            function_body.push(stmt);
        }
        self.advance();
        proof {
            assert(stmt_models(function_body@) + Seq::<Stmt>::empty() =~= stmt_models(
                function_body@,
            ));
        }
        Ok(ParsedStatement::FunctionDeclaration(function_name, argument_name, function_body))
    }

    /// Parses the statements from the token that is read next to the
    /// end-of-input marker. The first token that breaks a rule of the
    /// grammar ends parsing with a diagnostic for its line.
    pub fn parse(&mut self) -> (result: Result<Vec<ParsedStatement>, JPLError>)
        ensures
            final(self).tokens() == old(self).tokens(),
            match result {
                Ok(statements) => grammar::program(old(self).tokens(), old(self).position())
                    == Ok::<Seq<Stmt>, Diagnostic>(stmt_models(statements@)) && kind_at(
                    final(self).tokens(),
                    final(self).position(),
                ) is Eof,
                Err(e) => grammar::program(old(self).tokens(), old(self).position()) == Err::<
                    Seq<Stmt>,
                    Diagnostic,
                >(e@),
            },
    {
        proof {
            use_type_invariant(&*self);
        }
        let ghost given = self.tokens;
        let ghost ts = self.tokens();
        let ghost start = self.position();
        let mut statements: Vec<ParsedStatement> = Vec::new();
        proof {
            match grammar::program(ts, start) {
                Ok(all) => assert(Seq::<Stmt>::empty() + all =~= all),
                Err(_) => {},
            }
        }
        while !self.is_at_end()
            invariant
                self.tokens == given,
                given == old(self).tokens,
                start == old(self).idx,
                ts == token_models(given@),
                start <= self.idx < given.len(),
                grammar::program(ts, start) == after_program(
                    stmt_models(statements@),
                    grammar::program(ts, self.idx as int),
                ),
            decreases given.len() - self.idx,
        {
            let ghost done = stmt_models(statements@);
            proof {
                grammar::lemma_statement_advances(ts, self.position());
            }
            let stmt = self.statement()?;
            proof {
                use_type_invariant(&*self);
                assert(stmt_models(statements@.push(stmt)) =~= done.push(stmt@)) by {
                    assert(statements@.push(stmt).drop_last() =~= statements@);
                }
                match grammar::program(ts, self.position()) {
                    Ok(more) => assert(done + (seq![stmt@] + more) =~= done.push(stmt@) + more),
                    Err(_) => {},
                }
            }
            statements.push(stmt);
        }
        Ok(statements)
    }
}

/// The declaration of a function with the given name, parameter and body.
pub open spec fn declared(
    name: Seq<char>,
    parameter: Seq<char>,
    body: grammar::Parsed<Seq<Stmt>>,
) -> grammar::Parsed<Stmt> {
    match body {
        Ok((stmts, after)) => Ok((Stmt::Function(name, parameter, stmts), after)),
        Err(e) => Err(e),
    }
}

/// The statements `done`, followed by what `rest` gives.
pub open spec fn after_statements(
    done: Seq<Stmt>,
    rest: grammar::Parsed<Seq<Stmt>>,
) -> grammar::Parsed<Seq<Stmt>> {
    match rest {
        Ok((more, end)) => Ok((done + more, end)),
        Err(e) => Err(e),
    }
}

/// The statements `done`, followed by what `rest` gives.
pub open spec fn after_program(done: Seq<Stmt>, rest: Result<Seq<Stmt>, Diagnostic>) -> Result<
    Seq<Stmt>,
    Diagnostic,
> {
    match rest {
        Ok(more) => Ok(done + more),
        Err(e) => Err(e),
    }
}

} // verus!
