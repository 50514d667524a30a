//! The syntax tree: expressions, statements, programs.

use crate::types::{IntView, IntegerValue};
use vstd::prelude::*;

verus! {

/// A binary operator.
#[derive(Debug, Clone, Copy, PartialEq, Eq, Structural, Hash)]
pub enum BinOpType {
    Plus,
    Minus,
    Mul,
    Mod,
    Le,
    Lt,
    Gt,
    Ge,
    Eq,
}

/// An expression.
#[derive(Debug, PartialEq, Eq)]
pub enum Expr {
    /// A literal without a width suffix.
    Number(IntegerValue),
    /// A literal with a width suffix.
    TypedNumber(IntegerValue),
    /// A reference to a variable, or to a function without arguments.
    Ident(String),
    /// Two operands and their operator.
    BinOp(Box<Expr>, BinOpType, Box<Expr>),
    /// A function applied to arguments.
    Call(String, Vec<Expr>),
}

/// A statement.
#[derive(Debug, PartialEq, Eq)]
pub enum Stmt {
    /// `name = expr`.
    Assign(String, Expr),
    /// `if cond body end`.
    If(Expr, Vec<Stmt>),
    /// `while cond body end`.
    While(Expr, Vec<Stmt>),
    /// `return expr`.
    Return(Expr),
    /// `out expr`.
    Out(Expr),
    /// `def name params body end`.
    FuncDef(String, Vec<String>, Vec<Stmt>),
}

/// A program: its top-level statements in source order.
#[derive(Debug, PartialEq, Eq)]
pub struct Program {
    pub statements: Vec<Stmt>,
}

/// The mathematical content of an expression.
pub enum ExprView {
    Number(IntView),
    TypedNumber(IntView),
    Ident(Seq<char>),
    BinOp(Box<ExprView>, BinOpType, Box<ExprView>),
    Call(Seq<char>, Seq<ExprView>),
}

/// The mathematical content of a statement.
pub enum StmtView {
    Assign(Seq<char>, ExprView),
    If(ExprView, Seq<StmtView>),
    While(ExprView, Seq<StmtView>),
    Return(ExprView),
    Out(ExprView),
    FuncDef(Seq<char>, Seq<Seq<char>>, Seq<StmtView>),
}

/// The mathematical content of a program.
pub struct ProgramView {
    pub statements: Seq<StmtView>,
}

/// The content of an expression.
pub open spec fn expr_view(e: Expr) -> ExprView
    decreases e,
{
    match e {
        Expr::Number(n) => ExprView::Number(n@),
        Expr::TypedNumber(n) => ExprView::TypedNumber(n@),
        Expr::Ident(name) => ExprView::Ident(name@),
        Expr::BinOp(left, op, right) => ExprView::BinOp(
            Box::new(expr_view(*left)),
            op,
            Box::new(expr_view(*right)),
        ),
        Expr::Call(name, args) => ExprView::Call(
            name@,
            Seq::new(
                args@.len(),
                |i: int|
                    if 0 <= i < args@.len() {
                        expr_view(args@[i])
                    } else {
                        ExprView::Ident(Seq::empty())
                    },
            ),
        ),
    }
}

/// The content of a statement.
pub open spec fn stmt_view(s: Stmt) -> StmtView
    decreases s,
{
    match s {
        Stmt::Assign(name, e) => StmtView::Assign(name@, expr_view(e)),
        Stmt::If(cond, body) => StmtView::If(
            expr_view(cond),
            Seq::new(
                body@.len(),
                |i: int|
                    if 0 <= i < body@.len() {
                        stmt_view(body@[i])
                    } else {
                        StmtView::Out(ExprView::Ident(Seq::empty()))
                    },
            ),
        ),
        Stmt::While(cond, body) => StmtView::While(
            expr_view(cond),
            Seq::new(
                body@.len(),
                |i: int|
                    if 0 <= i < body@.len() {
                        stmt_view(body@[i])
                    } else {
                        StmtView::Out(ExprView::Ident(Seq::empty()))
                    },
            ),
        ),
        Stmt::Return(e) => StmtView::Return(expr_view(e)),
        Stmt::Out(e) => StmtView::Out(expr_view(e)),
        Stmt::FuncDef(name, params, body) => StmtView::FuncDef(
            name@,
            params.deep_view(),
            Seq::new(
                body@.len(),
                |i: int|
                    if 0 <= i < body@.len() {
                        stmt_view(body@[i])
                    } else {
                        StmtView::Out(ExprView::Ident(Seq::empty()))
                    },
            ),
        ),
    }
}

impl DeepView for Expr {
    type V = ExprView;

    open spec fn deep_view(&self) -> ExprView {
        expr_view(*self)
    }
}

impl DeepView for Stmt {
    type V = StmtView;

    open spec fn deep_view(&self) -> StmtView {
        stmt_view(*self)
    }
}

impl DeepView for Program {
    type V = ProgramView;

    open spec fn deep_view(&self) -> ProgramView {
        ProgramView { statements: self.statements.deep_view() }
    }
}

/// The view of a list of arguments is the list of their views.
pub proof fn lemma_call_view(name: String, args: Vec<Expr>)
    ensures
        Expr::Call(name, args).deep_view() == ExprView::Call(name@, args.deep_view()),
{
    assert(Expr::Call(name, args).deep_view()->Call_1 =~= args.deep_view());
}

/// The view of a block is the list of the views of its statements.
pub proof fn lemma_block_view(cond: Expr, body: Vec<Stmt>)
    ensures
        Stmt::If(cond, body).deep_view() == StmtView::If(cond.deep_view(), body.deep_view()),
        Stmt::While(cond, body).deep_view() == StmtView::While(cond.deep_view(), body.deep_view()),
{
    assert(Stmt::If(cond, body).deep_view()->If_1 =~= body.deep_view());
    assert(Stmt::While(cond, body).deep_view()->While_1 =~= body.deep_view());
}

/// The view of a function's body is the list of the views of its
/// statements.
pub proof fn lemma_func_def_view(name: String, params: Vec<String>, body: Vec<Stmt>)
    ensures
        Stmt::FuncDef(name, params, body).deep_view() == StmtView::FuncDef(
            name@,
            params.deep_view(),
            body.deep_view(),
        ),
{
    assert(Stmt::FuncDef(name, params, body).deep_view()->FuncDef_2 =~= body.deep_view());
}

} // verus!
