//! The tokens that write an expression down, and the law that parsing them
//! gives the expression back.

use crate::ast::{BinaryOperator, Expr};
use crate::error::Diagnostic;
use crate::grammar::{
    additive, call, expression, expression_rest, factor, kind_at, multiplicative, term_rest,
};
use crate::lexer::{TokenKind, TokenModel};
use vstd::prelude::*;

verus! {

/// The token of an operator.
pub open spec fn operator_token(op: BinaryOperator) -> TokenKind {
    match op {
        BinaryOperator::Add => TokenKind::Plus,
        BinaryOperator::Subtract => TokenKind::Minus,
        BinaryOperator::Multiply => TokenKind::Star,
        BinaryOperator::Divide => TokenKind::Slash,
    }
}

/// An expression that the grammar has a notation for: every call in it has
/// one argument, and a string stands only as the argument of a call.
pub open spec fn writable(e: Expr) -> bool
    decreases e,
{
    match e {
        Expr::Int(_) => true,
        Expr::Float(_) => true,
        Expr::Var(_) => true,
        Expr::Str(_) => false,
        Expr::Binary(lhs, _, rhs) => writable(*lhs) && writable(*rhs),
        Expr::Call(_, args) => args.len() == 1 && (args[0] is Str || writable(args[0])),
    }
}

/// The tokens of an expression with every operation in parentheses.
pub open spec fn spelled(e: Expr) -> Seq<TokenKind>
    decreases e,
{
    match e {
        Expr::Int(i) => seq![TokenKind::Integer(i)],
        Expr::Float(f) => seq![TokenKind::Float(f)],
        Expr::Var(name) => seq![TokenKind::Name(name)],
        Expr::Str(text) => seq![TokenKind::QuotedString(text)],
        Expr::Binary(lhs, op, rhs) => seq![TokenKind::LParen] + spelled(*lhs) + seq![
            operator_token(op),
        ] + spelled(*rhs) + seq![TokenKind::RParen],
        Expr::Call(name, args) => if args.len() == 1 {
            seq![TokenKind::Name(name), TokenKind::LParen] + spelled(args[0]) + seq![
                TokenKind::RParen,
            ]
        } else {
            seq![TokenKind::Name(name)]
        },
    }
}

/// Whether the tokens from `pos` on are of the given kinds, one after the
/// other.
pub open spec fn stands_at(tokens: Seq<TokenModel>, pos: int, kinds: Seq<TokenKind>) -> bool {
    &&& 0 <= pos
    &&& pos + kinds.len() <= tokens.len()
    &&& forall|i: int| 0 <= i < kinds.len() ==> (#[trigger] tokens[pos + i]).kind == kinds[i]
}

/// The notation of an expression begins with a number, a name or a left
/// parenthesis.
pub proof fn lemma_spelled_start(e: Expr)
    requires
        writable(e),
    ensures
        spelled(e).len() > 0,
        !(spelled(e)[0] is QuotedString),
    decreases e,
{
}

/// Tokens that stand in a row stand there piece by piece.
pub proof fn lemma_stands_at_parts(
    tokens: Seq<TokenModel>,
    pos: int,
    first: Seq<TokenKind>,
    second: Seq<TokenKind>,
)
    requires
        stands_at(tokens, pos, first + second),
    ensures
        stands_at(tokens, pos, first),
        stands_at(tokens, pos + first.len(), second),
{
    let both = first + second;
    assert forall|i: int| 0 <= i < second.len() implies (#[trigger] tokens[pos + first.len()
        + i]).kind == second[i] by {
        assert(tokens[pos + (first.len() + i)].kind == both[first.len() + i]);
    }
}

/// The tokens that write an expression down are an operand, and the
/// operand is the expression. A name must not stand before a left
/// parenthesis, where it would be read as a call.
pub proof fn lemma_spelled_factor(tokens: Seq<TokenModel>, pos: int, e: Expr)
    requires
        writable(e),
        stands_at(tokens, pos, spelled(e)),
        e is Var ==> !(kind_at(tokens, pos + 1) is LParen),
    ensures
        factor(tokens, pos) == Ok::<(Expr, int), Diagnostic>((e, pos + spelled(e).len())),
    decreases e, 0int,
{
    match e {
        Expr::Binary(lhs, op, rhs) => {
            let l = spelled(*lhs);
            let r = spelled(*rhs);
            let open = seq![TokenKind::LParen];
            let sign = seq![operator_token(op)];
            let close = seq![TokenKind::RParen];
            lemma_stands_at_parts(tokens, pos, open + l + sign + r, close);
            lemma_stands_at_parts(tokens, pos, open + l + sign, r);
            lemma_stands_at_parts(tokens, pos, open + l, sign);
            lemma_stands_at_parts(tokens, pos, open, l);
            let p1 = pos + 1 + l.len();
            let p2 = p1 + 1 + r.len();
            lemma_spelled_start(*lhs);
            lemma_spelled_start(*rhs);
            lemma_spelled_factor(tokens, pos + 1, *lhs);
            lemma_spelled_factor(tokens, p1 + 1, *rhs);
            let whole = Expr::Binary(lhs, op, rhs);
            match op {
                BinaryOperator::Multiply | BinaryOperator::Divide => {
                    assert(term_rest(tokens, p2, whole) == Ok::<(Expr, int), Diagnostic>(
                        (whole, p2),
                    ));
                    assert(expression_rest(tokens, p2, whole) == Ok::<(Expr, int), Diagnostic>(
                        (whole, p2),
                    ));
                },
                BinaryOperator::Add | BinaryOperator::Subtract => {
                    assert(term_rest(tokens, p1, *lhs) == Ok::<(Expr, int), Diagnostic>(
                        (*lhs, p1),
                    ));
                    assert(term_rest(tokens, p2, *rhs) == Ok::<(Expr, int), Diagnostic>(
                        (*rhs, p2),
                    ));
                    assert(expression_rest(tokens, p2, whole) == Ok::<(Expr, int), Diagnostic>(
                        (whole, p2),
                    ));
                    assert(expression_rest(tokens, p1, *lhs) == expression_rest(
                        tokens,
                        p2,
                        whole,
                    ));
                },
            }
            assert(expression(tokens, pos + 1) == Ok::<(Expr, int), Diagnostic>((whole, p2)));
        },
        Expr::Call(name, args) => {
            let a = spelled(args[0]);
            let head = seq![TokenKind::Name(name), TokenKind::LParen];
            let close = seq![TokenKind::RParen];
            lemma_stands_at_parts(tokens, pos, head + a, close);
            lemma_stands_at_parts(tokens, pos, head, a);
            let p = pos + 2 + a.len();
            assert(tokens[pos + 0].kind == head[0]);
            if !(args[0] is Str) {
                lemma_spelled_start(args[0]);
                lemma_spelled_expression(tokens, pos + 2, args[0]);
            }
            assert(args =~= seq![args[0]]);
            assert(call(tokens, pos) == Ok::<((Seq<char>, Seq<Expr>), int), Diagnostic>(
                ((name, args), p + 1),
            ));
        },
        _ => {},
    }
}

/// The tokens that write an expression down are parsed as that
/// expression, where no operator follows them that would take it as an
/// operand.
pub proof fn lemma_spelled_expression(tokens: Seq<TokenModel>, pos: int, e: Expr)
    requires
        writable(e),
        stands_at(tokens, pos, spelled(e)),
        e is Var ==> !(kind_at(tokens, pos + 1) is LParen),
        additive(kind_at(tokens, pos + spelled(e).len())) is None,
        multiplicative(kind_at(tokens, pos + spelled(e).len())) is None,
    ensures
        expression(tokens, pos) == Ok::<(Expr, int), Diagnostic>((e, pos + spelled(e).len())),
    decreases e, 1int,
{
    lemma_spelled_factor(tokens, pos, e);
}

} // verus!
