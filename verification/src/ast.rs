//! The statement and expression trees that parsing produces and code
//! generation reads.

use vstd::prelude::*;

verus! {

/// The four binary operators of the language.
#[derive(Debug, Clone, Copy, PartialEq, Eq, Structural)]
pub enum BinaryOperator {
    Add,
    Subtract,
    Multiply,
    Divide,
}

/// An expression. A floating-point constant holds its digits and its
/// decimal point as written.
#[derive(Debug, PartialEq)]
pub enum ParsedExpr {
    IntegerConstant(i64),
    FloatConstant(String),
    BinaryOp(Box<ParsedExpr>, BinaryOperator, Box<ParsedExpr>),
    QuotedString(String),
    Var(String),
    FunctionCall(String, Vec<ParsedExpr>),
}

/// A statement of a program or of a function body.
#[derive(Debug, PartialEq)]
pub enum ParsedStatement {
    VarDecl(String, ParsedExpr),
    FunctionCall(String, Vec<ParsedExpr>),
    FunctionDeclaration(String, String, Vec<ParsedStatement>),
    ReturnStatement(ParsedExpr),
}

/// The mathematical value of a `ParsedExpr`.
pub enum Expr {
    Int(i64),
    Float(Seq<char>),
    Binary(Box<Expr>, BinaryOperator, Box<Expr>),
    Str(Seq<char>),
    Var(Seq<char>),
    Call(Seq<char>, Seq<Expr>),
}

/// The mathematical value of a `ParsedStatement`.
pub enum Stmt {
    VarDecl(Seq<char>, Expr),
    Call(Seq<char>, Seq<Expr>),
    Function(Seq<char>, Seq<char>, Seq<Stmt>),
    Return(Expr),
}

/// The value of an expression tree.
pub open spec fn expr_model(e: ParsedExpr) -> Expr
    decreases e,
{
    match e {
        ParsedExpr::IntegerConstant(i) => Expr::Int(i),
        ParsedExpr::FloatConstant(f) => Expr::Float(f@),
        ParsedExpr::BinaryOp(l, op, r) => Expr::Binary(
            Box::new(expr_model(*l)),
            op,
            Box::new(expr_model(*r)),
        ),
        ParsedExpr::QuotedString(s) => Expr::Str(s@),
        ParsedExpr::Var(n) => Expr::Var(n@),
        ParsedExpr::FunctionCall(n, args) => Expr::Call(n@, expr_models(args@)),
    }
}

/// The values of a run of expression trees, in order.
pub open spec fn expr_models(es: Seq<ParsedExpr>) -> Seq<Expr>
    decreases es,
{
    if es.len() == 0 {
        Seq::empty()
    } else {
        expr_models(es.drop_last()).push(expr_model(es.last()))
    }
}

/// The value of a statement tree.
pub open spec fn stmt_model(s: ParsedStatement) -> Stmt
    decreases s,
{
    match s {
        ParsedStatement::VarDecl(n, e) => Stmt::VarDecl(n@, expr_model(e)),
        ParsedStatement::FunctionCall(n, args) => Stmt::Call(n@, expr_models(args@)),
        ParsedStatement::FunctionDeclaration(n, a, body) => Stmt::Function(
            n@,
            a@,
            stmt_models(body@),
        ),
        ParsedStatement::ReturnStatement(e) => Stmt::Return(expr_model(e)),
    }
}

/// The values of a run of statement trees, in order.
pub open spec fn stmt_models(ss: Seq<ParsedStatement>) -> Seq<Stmt>
    decreases ss,
{
    if ss.len() == 0 {
        Seq::empty()
    } else {
        stmt_models(ss.drop_last()).push(stmt_model(ss.last()))
    }
}

impl View for ParsedExpr {
    type V = Expr;

    open spec fn view(&self) -> Expr {
        expr_model(*self)
    }
}

impl View for ParsedStatement {
    type V = Stmt;

    open spec fn view(&self) -> Stmt {
        stmt_model(*self)
    }
}

/// A copy of each expression, in order.
fn clone_exprs(args: &Vec<ParsedExpr>) -> (copies: Vec<ParsedExpr>)
    ensures
        expr_models(copies@) == expr_models(args@),
    decreases args,
{
    let mut copies: Vec<ParsedExpr> = Vec::new();
    let mut i: usize = 0;
    #[verifier::loop_isolation(false)]
    while i < args.len()
        invariant
            i <= args.len(),
            expr_models(copies@) == expr_models(args@.take(i as int)),
        decreases args.len() - i,
    {
        let copy = args[i].clone();
        proof {
            assert(args@.take(i + 1).drop_last() =~= args@.take(i as int));
            assert(copies@.push(copy).drop_last() =~= copies@);
        }
        copies.push(copy);
        i += 1;
    }
    assert(args@.take(i as int) =~= args@);
    copies
}

impl Clone for ParsedExpr {
    fn clone(&self) -> (copy: Self)
        ensures
            copy@ == self@,
        decreases self,
    {
        match self {
            ParsedExpr::IntegerConstant(i) => ParsedExpr::IntegerConstant(*i),
            ParsedExpr::FloatConstant(f) => ParsedExpr::FloatConstant(f.clone()),
            ParsedExpr::BinaryOp(l, op, r) => {
                let left = (**l).clone();
                let right = (**r).clone();
                ParsedExpr::BinaryOp(Box::new(left), *op, Box::new(right))
            },
            ParsedExpr::QuotedString(s) => ParsedExpr::QuotedString(s.clone()),
            ParsedExpr::Var(n) => ParsedExpr::Var(n.clone()),
            ParsedExpr::FunctionCall(n, args) => ParsedExpr::FunctionCall(
                n.clone(),
                clone_exprs(args),
            ),
        }
    }
}

/// A copy of each statement, in order.
fn clone_stmts(body: &Vec<ParsedStatement>) -> (copies: Vec<ParsedStatement>)
    ensures
        stmt_models(copies@) == stmt_models(body@),
    decreases body,
{
    let mut copies: Vec<ParsedStatement> = Vec::new();
    let mut i: usize = 0;
    #[verifier::loop_isolation(false)]
    while i < body.len()
        invariant
            i <= body.len(),
            stmt_models(copies@) == stmt_models(body@.take(i as int)),
        decreases body.len() - i,
    {
        let copy = body[i].clone();
        proof {
            assert(body@.take(i + 1).drop_last() =~= body@.take(i as int));
            assert(copies@.push(copy).drop_last() =~= copies@);
        }
        copies.push(copy);
        i += 1;
    }
    assert(body@.take(i as int) =~= body@);
    copies
}

impl Clone for ParsedStatement {
    fn clone(&self) -> (copy: Self)
        ensures
            copy@ == self@,
        decreases self,
    {
        match self {
            ParsedStatement::VarDecl(n, e) => ParsedStatement::VarDecl(n.clone(), e.clone()),
            ParsedStatement::FunctionCall(n, args) => ParsedStatement::FunctionCall(
                n.clone(),
                clone_exprs(args),
            ),
            ParsedStatement::FunctionDeclaration(n, a, body) => {
                ParsedStatement::FunctionDeclaration(n.clone(), a.clone(), clone_stmts(body))
            },
            ParsedStatement::ReturnStatement(e) => ParsedStatement::ReturnStatement(e.clone()),
        }
    }
}

/// The values of a run of trees are as many as the trees, each the value of
/// the tree in its place.
pub proof fn lemma_expr_models(es: Seq<ParsedExpr>)
    ensures
        expr_models(es).len() == es.len(),
        forall|i: int| 0 <= i < es.len() ==> (#[trigger] expr_models(es)[i]) == expr_model(es[i]),
    decreases es.len(),
{
    if es.len() > 0 {
        lemma_expr_models(es.drop_last());
    }
}

/// The values of a run of statements are as many as the statements, each
/// the value of the statement in its place.
pub proof fn lemma_stmt_models(ss: Seq<ParsedStatement>)
    ensures
        stmt_models(ss).len() == ss.len(),
        forall|i: int| 0 <= i < ss.len() ==> (#[trigger] stmt_models(ss)[i]) == stmt_model(ss[i]),
    decreases ss.len(),
{
    if ss.len() > 0 {
        lemma_stmt_models(ss.drop_last());
    }
}

} // verus!
