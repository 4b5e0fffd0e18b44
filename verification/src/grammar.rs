//! The grammar of the language, as functions from a run of tokens and a
//! position to what stands there.
//!
//! Every function reads the token at a position and says what tree the
//! tokens from there on form and where the next construct begins, or which
//! token breaks the rule. A diagnostic carries the line of that token.

use crate::ast::{BinaryOperator, Expr, Stmt};
use crate::error::Diagnostic;
use crate::lexer::{TokenKind, TokenModel};
use crate::text::same_ignoring_case;
use vstd::prelude::*;

verus! {

/// A tree and the position after it, or the diagnostic for the token that
/// broke a rule.
pub type Parsed<T> = Result<(T, int), Diagnostic>;

/// The kind of the token at `pos`; past the last token, the end-of-input
/// marker.
pub open spec fn kind_at(tokens: Seq<TokenModel>, pos: int) -> TokenKind {
    if 0 <= pos < tokens.len() {
        tokens[pos].kind
    } else {
        TokenKind::Eof
    }
}

/// The line of the token at `pos`; past the last token, the line of the
/// last one.
pub open spec fn line_of(tokens: Seq<TokenModel>, pos: int) -> nat {
    if 0 <= pos < tokens.len() {
        tokens[pos].line
    } else if tokens.len() > 0 {
        tokens.last().line
    } else {
        1
    }
}

/// The diagnostic with `message` for the token at `pos`.
pub open spec fn fail<T>(tokens: Seq<TokenModel>, pos: int, message: Seq<char>) -> Parsed<T> {
    Err(Diagnostic { message, line: line_of(tokens, pos) })
}

/// The operator of an additive token.
pub open spec fn additive(kind: TokenKind) -> Option<BinaryOperator> {
    match kind {
        TokenKind::Plus => Some(BinaryOperator::Add),
        TokenKind::Minus => Some(BinaryOperator::Subtract),
        _ => None,
    }
}

/// The operator of a multiplicative token.
pub open spec fn multiplicative(kind: TokenKind) -> Option<BinaryOperator> {
    match kind {
        TokenKind::Star => Some(BinaryOperator::Multiply),
        TokenKind::Slash => Some(BinaryOperator::Divide),
        _ => None,
    }
}

/// `name '(' argument ')'`, the name at `pos`. The one argument is a quoted
/// string, taken as it is, or an expression.
pub open spec fn call(tokens: Seq<TokenModel>, pos: int) -> Parsed<(Seq<char>, Seq<Expr>)>
    decreases tokens.len() - pos, 0int,
{
    match kind_at(tokens, pos) {
        TokenKind::Name(name) => if !(kind_at(tokens, pos + 1) is LParen) {
            fail(tokens, pos + 1, "Expected left parenthesis."@)
        } else {
            let argument: Parsed<Expr> = match kind_at(tokens, pos + 2) {
                TokenKind::QuotedString(s) => Ok((Expr::Str(s), pos + 3)),
                _ => match expression(tokens, pos + 2) {
                    Ok(found) => Ok(found),
                    Err(e) => Err(Diagnostic { message: "Expected expression."@, line: e.line }),
                },
            };
            match argument {
                Ok((arg, after)) => if kind_at(tokens, after) is RParen {
                    Ok(((name, seq![arg]), after + 1))
                } else {
                    fail(tokens, after, "Expected right parenthesis."@)
                },
                Err(e) => Err(e),
            }
        },
        _ => fail(tokens, pos, "Expected function name."@),
    }
}

/// `integer | float | name | name '(' argument ')' | '(' expression ')'`.
/// A name that a left parenthesis follows is a call, never a variable.
pub open spec fn factor(tokens: Seq<TokenModel>, pos: int) -> Parsed<Expr>
    decreases tokens.len() - pos, 1int,
{
    match kind_at(tokens, pos) {
        TokenKind::Integer(i) => Ok((Expr::Int(i), pos + 1)),
        TokenKind::Float(f) => Ok((Expr::Float(f), pos + 1)),
        TokenKind::Name(name) => if kind_at(tokens, pos + 1) is LParen {
            match call(tokens, pos) {
                Ok(((callee, args), after)) => Ok((Expr::Call(callee, args), after)),
                Err(e) => Err(e),
            }
        } else {
            Ok((Expr::Var(name), pos + 1))
        },
        TokenKind::LParen => match expression(tokens, pos + 1) {
            Ok((inner, after)) => if kind_at(tokens, after) is RParen {
                Ok((inner, after + 1))
            } else {
                fail(tokens, after, "Expected closing parenthesis."@)
            },
            Err(e) => Err(e),
        },
        _ => fail(tokens, pos, "Expected parenthesis or number."@),
    }
}

/// `(('*' | '/') factor)*` after the operand `lhs`: each operator takes all
/// that stands to its left as its left operand.
///
/// An operand ends after the token it starts with, and within the tokens
/// (`lemma_factor_advances`). The test on its end, here and in the rules
/// below, therefore always holds; it is what shows that the definition
/// terminates.
pub open spec fn term_rest(tokens: Seq<TokenModel>, pos: int, lhs: Expr) -> Parsed<Expr>
    decreases tokens.len() - pos, 2int,
{
    match multiplicative(kind_at(tokens, pos)) {
        Some(op) => match factor(tokens, pos + 1) {
            Ok((rhs, after)) => if pos < after <= tokens.len() {
                term_rest(tokens, after, Expr::Binary(Box::new(lhs), op, Box::new(rhs)))
            } else {
                fail(tokens, after, Seq::empty())
            },
            Err(e) => Err(e),
        },
        None => Ok((lhs, pos)),
    }
}

/// `factor (('*' | '/') factor)*`.
pub open spec fn term(tokens: Seq<TokenModel>, pos: int) -> Parsed<Expr>
    decreases tokens.len() - pos, 3int,
{
    match factor(tokens, pos) {
        Ok((lhs, after)) => if pos < after <= tokens.len() {
            term_rest(tokens, after, lhs)
        } else {
            fail(tokens, after, Seq::empty())
        },
        Err(e) => Err(e),
    }
}

/// `(('+' | '-') term)*` after the operand `lhs`.
pub open spec fn expression_rest(tokens: Seq<TokenModel>, pos: int, lhs: Expr) -> Parsed<Expr>
    decreases tokens.len() - pos, 4int,
{
    match additive(kind_at(tokens, pos)) {
        Some(op) => match term(tokens, pos + 1) {
            Ok((rhs, after)) => if pos < after <= tokens.len() {
                expression_rest(tokens, after, Expr::Binary(Box::new(lhs), op, Box::new(rhs)))
            } else {
                fail(tokens, after, Seq::empty())
            },
            Err(e) => Err(e),
        },
        None => Ok((lhs, pos)),
    }
}

/// `term (('+' | '-') term)*`.
pub open spec fn expression(tokens: Seq<TokenModel>, pos: int) -> Parsed<Expr>
    decreases tokens.len() - pos, 5int,
{
    match term(tokens, pos) {
        Ok((lhs, after)) => if pos < after <= tokens.len() {
            expression_rest(tokens, after, lhs)
        } else {
            fail(tokens, after, Seq::empty())
        },
        Err(e) => Err(e),
    }
}

/// `name '=' value`, the name at `pos`, after the keyword `let`. The value
/// is a quoted string, taken as it is, or an expression.
pub open spec fn var_declaration(tokens: Seq<TokenModel>, pos: int) -> Parsed<Stmt> {
    match kind_at(tokens, pos) {
        TokenKind::Name(name) => if !(kind_at(tokens, pos + 1) is Equal) {
            fail(tokens, pos + 1, "Expected equals sign."@)
        } else {
            match kind_at(tokens, pos + 2) {
                TokenKind::QuotedString(s) => Ok((Stmt::VarDecl(name, Expr::Str(s)), pos + 3)),
                _ => match expression(tokens, pos + 2) {
                    Ok((value, after)) => Ok((Stmt::VarDecl(name, value), after)),
                    Err(e) => Err(e),
                },
            }
        },
        _ => fail(tokens, pos, "Expected variable name."@),
    }
}

/// Whether a token is the keyword `word`, in any mix of upper and lower
/// case.
pub open spec fn is_keyword(kind: TokenKind, word: Seq<char>) -> bool {
    kind matches TokenKind::Name(name) && same_ignoring_case(name, word)
}

/// One statement: a variable declaration after `let`, a function
/// declaration after `function`, or a call.
pub open spec fn statement(tokens: Seq<TokenModel>, pos: int) -> Parsed<Stmt>
    decreases tokens.len() - pos, 1int,
{
    if is_keyword(kind_at(tokens, pos), "let"@) {
        var_declaration(tokens, pos + 1)
    } else if is_keyword(kind_at(tokens, pos), "function"@) {
        function_declaration(tokens, pos + 1)
    } else if kind_at(tokens, pos) is Name && kind_at(tokens, pos + 1) is LParen {
        match call(tokens, pos) {
            Ok(((callee, args), after)) => Ok((Stmt::Call(callee, args), after)),
            Err(e) => Err(e),
        }
    } else {
        fail(tokens, pos, "expected variable or literal"@)
    }
}

/// The statements of a function body up to its closing brace, and the
/// position after the brace. After the keyword `return` stands one
/// expression.
pub open spec fn body(tokens: Seq<TokenModel>, pos: int) -> Parsed<Seq<Stmt>>
    decreases tokens.len() - pos, 2int,
{
    if kind_at(tokens, pos) is RCurly {
        Ok((Seq::empty(), pos + 1))
    } else {
        let first: Parsed<Stmt> = if is_keyword(kind_at(tokens, pos), "return"@) {
            match expression(tokens, pos + 1) {
                Ok((value, after)) => Ok((Stmt::Return(value), after)),
                Err(e) => Err(e),
            }
        } else {
            statement(tokens, pos)
        };
        match first {
            Ok((stmt, after)) => if pos < after <= tokens.len() {
                match body(tokens, after) {
                    Ok((rest, end)) => Ok((seq![stmt] + rest, end)),
                    Err(e) => Err(e),
                }
            } else {
                fail(tokens, after, Seq::empty())
            },
            Err(e) => Err(e),
        }
    }
}

/// `name '(' parameter ')' '{' body '}'`, the name at `pos`, after the
/// keyword `function`.
pub open spec fn function_declaration(tokens: Seq<TokenModel>, pos: int) -> Parsed<Stmt>
    decreases tokens.len() - pos, 0int,
{
    match kind_at(tokens, pos) {
        TokenKind::Name(name) => if !(kind_at(tokens, pos + 1) is LParen) {
            fail(tokens, pos + 1, "Expected left parenthesis."@)
        } else {
            match kind_at(tokens, pos + 2) {
                TokenKind::Name(parameter) => if !(kind_at(tokens, pos + 3) is RParen) {
                    fail(tokens, pos + 3, "Expected right parenthesis."@)
                } else if !(kind_at(tokens, pos + 4) is LCurly) {
                    fail(tokens, pos + 4, "Expected left curly brace."@)
                } else {
                    match body(tokens, pos + 5) {
                        Ok((stmts, after)) => Ok((Stmt::Function(name, parameter, stmts), after)),
                        Err(e) => Err(e),
                    }
                },
                _ => fail(tokens, pos + 2, "Expected argument name."@),
            }
        },
        _ => fail(tokens, pos, "Expected function name."@),
    }
}

/// The statements from `pos` to the end-of-input marker, or the first
/// diagnostic.
pub open spec fn program(tokens: Seq<TokenModel>, pos: int) -> Result<Seq<Stmt>, Diagnostic>
    decreases tokens.len() - pos,
{
    if kind_at(tokens, pos) is Eof {
        Ok(Seq::empty())
    } else {
        match statement(tokens, pos) {
            Ok((stmt, after)) => if pos < after <= tokens.len() {
                match program(tokens, after) {
                    Ok(rest) => Ok(seq![stmt] + rest),
                    Err(e) => Err(e),
                }
            } else {
                Err(Diagnostic { message: Seq::empty(), line: line_of(tokens, after) })
            },
            Err(e) => Err(e),
        }
    }
}

/// Whether a result, where it is a tree, ends after `pos` and at or before
/// the end of the tokens.
pub open spec fn advances<T>(tokens: Seq<TokenModel>, pos: int, found: Parsed<T>) -> bool {
    found matches Ok((_, after)) ==> pos < after <= tokens.len()
}

/// A call takes at least one token and none past the last.
pub proof fn lemma_call_advances(tokens: Seq<TokenModel>, pos: int)
    ensures
        advances(tokens, pos, call(tokens, pos)),
    decreases tokens.len() - pos, 0int,
{
    if kind_at(tokens, pos) is Name && kind_at(tokens, pos + 1) is LParen {
        if !(kind_at(tokens, pos + 2) is QuotedString) {
            lemma_expression_advances(tokens, pos + 2);
        }
    }
}

/// A factor takes at least one token and none past the last.
pub proof fn lemma_factor_advances(tokens: Seq<TokenModel>, pos: int)
    ensures
        advances(tokens, pos, factor(tokens, pos)),
    decreases tokens.len() - pos, 1int,
{
    match kind_at(tokens, pos) {
        TokenKind::Name(name) => {
            if kind_at(tokens, pos + 1) is LParen {
                lemma_call_advances(tokens, pos);
            }
        },
        TokenKind::LParen => {
            lemma_expression_advances(tokens, pos + 1);
        },
        _ => {},
    }
}

/// What follows an operand ends at or after the operand's end.
pub proof fn lemma_term_rest_advances(tokens: Seq<TokenModel>, pos: int, lhs: Expr)
    requires
        pos <= tokens.len(),
    ensures
        term_rest(tokens, pos, lhs) matches Ok((_, after)) ==> pos <= after <= tokens.len(),
    decreases tokens.len() - pos, 2int,
{
    match multiplicative(kind_at(tokens, pos)) {
        Some(op) => {
            lemma_factor_advances(tokens, pos + 1);
            match factor(tokens, pos + 1) {
                Ok((rhs, after)) => {
                    lemma_term_rest_advances(
                        tokens,
                        after,
                        Expr::Binary(Box::new(lhs), op, Box::new(rhs)),
                    );
                },
                Err(e) => {},
            }
        },
        None => {},
    }
}

/// A term takes at least one token and none past the last.
pub proof fn lemma_term_advances(tokens: Seq<TokenModel>, pos: int)
    ensures
        advances(tokens, pos, term(tokens, pos)),
    decreases tokens.len() - pos, 3int,
{
    lemma_factor_advances(tokens, pos);
    match factor(tokens, pos) {
        Ok((lhs, after)) => lemma_term_rest_advances(tokens, after, lhs),
        Err(e) => {},
    }
}

/// What follows an operand ends at or after the operand's end.
pub proof fn lemma_expression_rest_advances(tokens: Seq<TokenModel>, pos: int, lhs: Expr)
    requires
        pos <= tokens.len(),
    ensures
        expression_rest(tokens, pos, lhs) matches Ok((_, after)) ==> pos <= after <= tokens.len(),
    decreases tokens.len() - pos, 4int,
{
    match additive(kind_at(tokens, pos)) {
        Some(op) => {
            lemma_term_advances(tokens, pos + 1);
            match term(tokens, pos + 1) {
                Ok((rhs, after)) => {
                    lemma_expression_rest_advances(
                        tokens,
                        after,
                        Expr::Binary(Box::new(lhs), op, Box::new(rhs)),
                    );
                },
                Err(e) => {},
            }
        },
        None => {},
    }
}

/// An expression takes at least one token and none past the last.
pub proof fn lemma_expression_advances(tokens: Seq<TokenModel>, pos: int)
    ensures
        advances(tokens, pos, expression(tokens, pos)),
    decreases tokens.len() - pos, 5int,
{
    lemma_term_advances(tokens, pos);
    match term(tokens, pos) {
        Ok((lhs, after)) => lemma_expression_rest_advances(tokens, after, lhs),
        Err(e) => {},
    }
}

/// A variable declaration takes at least one token and none past the last.
pub proof fn lemma_var_declaration_advances(tokens: Seq<TokenModel>, pos: int)
    ensures
        advances(tokens, pos, var_declaration(tokens, pos)),
{
    if kind_at(tokens, pos) is Name && kind_at(tokens, pos + 1) is Equal {
        if !(kind_at(tokens, pos + 2) is QuotedString) {
            lemma_expression_advances(tokens, pos + 2);
        }
    }
}

/// A statement takes at least one token and none past the last.
pub proof fn lemma_statement_advances(tokens: Seq<TokenModel>, pos: int)
    ensures
        advances(tokens, pos, statement(tokens, pos)),
    decreases tokens.len() - pos, 1int,
{
    if is_keyword(kind_at(tokens, pos), "let"@) {
        lemma_var_declaration_advances(tokens, pos + 1);
    } else if is_keyword(kind_at(tokens, pos), "function"@) {
        lemma_function_declaration_advances(tokens, pos + 1);
    } else if kind_at(tokens, pos) is Name && kind_at(tokens, pos + 1) is LParen {
        lemma_call_advances(tokens, pos);
    }
}

/// A function body takes at least its closing brace and no token past the
/// last.
pub proof fn lemma_body_advances(tokens: Seq<TokenModel>, pos: int)
    ensures
        advances(tokens, pos, body(tokens, pos)),
    decreases tokens.len() - pos, 2int,
{
    if !(kind_at(tokens, pos) is RCurly) {
        let first: Parsed<Stmt> = if is_keyword(kind_at(tokens, pos), "return"@) {
            lemma_expression_advances(tokens, pos + 1);
            match expression(tokens, pos + 1) {
                Ok((value, after)) => Ok((Stmt::Return(value), after)),
                Err(e) => Err(e),
            }
        } else {
            lemma_statement_advances(tokens, pos);
            statement(tokens, pos)
        };
        match first {
            Ok((stmt, after)) => {
                lemma_body_advances(tokens, after);
            },
            Err(e) => {},
        }
    }
}

/// A function declaration takes at least one token and none past the last.
pub proof fn lemma_function_declaration_advances(tokens: Seq<TokenModel>, pos: int)
    ensures
        advances(tokens, pos, function_declaration(tokens, pos)),
    decreases tokens.len() - pos, 0int,
{
    if kind_at(tokens, pos) is Name && kind_at(tokens, pos + 1) is LParen && kind_at(
        tokens,
        pos + 2,
    ) is Name && kind_at(tokens, pos + 3) is RParen && kind_at(tokens, pos + 4) is LCurly {
        lemma_body_advances(tokens, pos + 5);
    }
}

/// Operators of one rank group from the left: in `a - b - c` the first
/// operator has `a` and `b`, and the second has their difference and `c`.
pub proof fn lemma_left_associative(
    tokens: Seq<TokenModel>,
    pos: int,
    a: Expr,
    first: BinaryOperator,
    b: Expr,
    second: BinaryOperator,
    c: Expr,
    p1: int,
    p2: int,
    p3: int,
)
    requires
        term(tokens, pos) == Ok::<(Expr, int), Diagnostic>((a, p1)),
        additive(kind_at(tokens, p1)) == Some(first),
        term(tokens, p1 + 1) == Ok::<(Expr, int), Diagnostic>((b, p2)),
        additive(kind_at(tokens, p2)) == Some(second),
        term(tokens, p2 + 1) == Ok::<(Expr, int), Diagnostic>((c, p3)),
        additive(kind_at(tokens, p3)) is None,
    ensures
        expression(tokens, pos) == Ok::<(Expr, int), Diagnostic>(
            (
                Expr::Binary(
                    Box::new(Expr::Binary(Box::new(a), first, Box::new(b))),
                    second,
                    Box::new(c),
                ),
                p3,
            ),
        ),
{
    lemma_term_advances(tokens, pos);
    lemma_term_advances(tokens, p1 + 1);
    lemma_term_advances(tokens, p2 + 1);
    let inner = Expr::Binary(Box::new(a), first, Box::new(b));
    let outer = Expr::Binary(Box::new(inner), second, Box::new(c));
    assert(expression_rest(tokens, p2, inner) == expression_rest(tokens, p3, outer));
}

/// Multiplication and division bind tighter than addition and
/// subtraction: in `a + b * c` the product is the right operand of the
/// sum.
pub proof fn lemma_precedence(
    tokens: Seq<TokenModel>,
    pos: int,
    a: Expr,
    low: BinaryOperator,
    b: Expr,
    high: BinaryOperator,
    c: Expr,
    p1: int,
    p2: int,
    p3: int,
)
    requires
        term(tokens, pos) == Ok::<(Expr, int), Diagnostic>((a, p1)),
        additive(kind_at(tokens, p1)) == Some(low),
        factor(tokens, p1 + 1) == Ok::<(Expr, int), Diagnostic>((b, p2)),
        multiplicative(kind_at(tokens, p2)) == Some(high),
        factor(tokens, p2 + 1) == Ok::<(Expr, int), Diagnostic>((c, p3)),
        multiplicative(kind_at(tokens, p3)) is None,
        additive(kind_at(tokens, p3)) is None,
    ensures
        expression(tokens, pos) == Ok::<(Expr, int), Diagnostic>(
            (
                Expr::Binary(
                    Box::new(a),
                    low,
                    Box::new(Expr::Binary(Box::new(b), high, Box::new(c))),
                ),
                p3,
            ),
        ),
{
    lemma_term_advances(tokens, pos);
    lemma_factor_advances(tokens, p1 + 1);
    lemma_factor_advances(tokens, p2 + 1);
    let product = Expr::Binary(Box::new(b), high, Box::new(c));
    assert(term(tokens, p1 + 1) == Ok::<(Expr, int), Diagnostic>((product, p3)));
}

} // verus!
