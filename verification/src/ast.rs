//! The syntax tree: expressions and statements.
//!
//! Every place of the grammar that takes an expression accepts an assignment
//! too, so such places hold a statement: an expression statement or an
//! assignment. Executing any statement yields a value.

use vstd::prelude::*;
use crate::token::Token;
use crate::token::TokenView;

verus! {

/// An expression.
#[derive(Debug, PartialEq, Eq)]
pub enum Expr {
    /// Left operand, operator token, right operand.
    Binary(Box<Expr>, Token, Box<Expr>),
    /// A literal or an identifier, by its token.
    Literal(Token),
    /// Operator token and operand.
    Unary(Token, Box<Expr>),
    /// A parenthesised expression or assignment.
    Group(Box<Stmt>),
}

/// A statement.
#[derive(Debug, PartialEq, Eq)]
pub enum Stmt {
    /// The statements between braces, run in a scope of their own.
    Block(Vec<Stmt>),
    /// Writes the value of its operand and a line feed.
    Print(Box<Stmt>),
    /// Condition, what runs when it holds, what runs otherwise.
    If(Box<Stmt>, Box<Stmt>, Option<Box<Stmt>>),
    /// Condition and body.
    While(Box<Stmt>, Box<Stmt>),
    /// Initializer, condition, increment, body.
    For(Option<Box<Stmt>>, Option<Box<Stmt>>, Option<Box<Stmt>>, Box<Stmt>),
    /// Binds a new name in the current scope, to `nil` without an initializer.
    Declare(String, Option<Box<Stmt>>),
    /// Rebinds an existing name.
    Assign(String, Box<Stmt>),
    /// An expression, evaluated for its value.
    Expr(Expr),
}

/// What [`Expr`] stands for in contracts.
pub enum ExprView {
    Binary(Box<ExprView>, TokenView, Box<ExprView>),
    Literal(TokenView),
    Unary(TokenView, Box<ExprView>),
    Group(Box<StmtView>),
}

/// What [`Stmt`] stands for in contracts.
pub enum StmtView {
    Block(Seq<StmtView>),
    Print(Box<StmtView>),
    If(Box<StmtView>, Box<StmtView>, Option<Box<StmtView>>),
    While(Box<StmtView>, Box<StmtView>),
    For(Option<Box<StmtView>>, Option<Box<StmtView>>, Option<Box<StmtView>>, Box<StmtView>),
    Declare(Seq<char>, Option<Box<StmtView>>),
    Assign(Seq<char>, Box<StmtView>),
    Expr(ExprView),
}

/// The view of an optional statement.
pub open spec fn optional_view(s: Option<Box<Stmt>>) -> Option<Box<StmtView>>
    decreases s,
{
    match s {
        Some(inner) => Some(Box::new(stmt_view(*inner))),
        None => None,
    }
}

/// The views of a sequence of statements.
pub open spec fn stmts_view(items: Seq<Stmt>) -> Seq<StmtView>
    decreases items,
{
    if items.len() == 0 {
        Seq::empty()
    } else {
        stmts_view(items.drop_last()).push(stmt_view(items.last()))
    }
}

/// The view of an expression.
pub open spec fn expr_view(e: Expr) -> ExprView
    decreases e,
{
    match e {
        Expr::Binary(left, op, right) => ExprView::Binary(
            Box::new(expr_view(*left)),
            op@,
            Box::new(expr_view(*right)),
        ),
        Expr::Literal(token) => ExprView::Literal(token@),
        Expr::Unary(op, operand) => ExprView::Unary(op@, Box::new(expr_view(*operand))),
        Expr::Group(inner) => ExprView::Group(Box::new(stmt_view(*inner))),
    }
}

/// The view of a statement.
pub open spec fn stmt_view(s: Stmt) -> StmtView
    decreases s,
{
    match s {
        Stmt::Block(items) => StmtView::Block(stmts_view(items@)),
        Stmt::Print(operand) => StmtView::Print(Box::new(stmt_view(*operand))),
        Stmt::If(condition, consequent, alternative) => StmtView::If(
            Box::new(stmt_view(*condition)),
            Box::new(stmt_view(*consequent)),
            optional_view(alternative),
        ),
        Stmt::While(condition, body) => StmtView::While(
            Box::new(stmt_view(*condition)),
            Box::new(stmt_view(*body)),
        ),
        Stmt::For(initializer, condition, increment, body) => StmtView::For(
            optional_view(initializer),
            optional_view(condition),
            optional_view(increment),
            Box::new(stmt_view(*body)),
        ),
        Stmt::Declare(name, initializer) => StmtView::Declare(name@, optional_view(initializer)),
        Stmt::Assign(name, operand) => StmtView::Assign(name@, Box::new(stmt_view(*operand))),
        Stmt::Expr(e) => StmtView::Expr(expr_view(e)),
    }
}

/// Appending a statement appends its view.
pub proof fn lemma_stmts_view_push(items: Seq<Stmt>, s: Stmt)
    ensures
        stmts_view(items.push(s)) == stmts_view(items).push(s@),
{
    assert(items.push(s).drop_last() =~= items);
}

/// The views of a sequence of statements, one for one.
pub proof fn lemma_stmts_view_index(items: Seq<Stmt>)
    ensures
        stmts_view(items).len() == items.len(),
        forall|i: int| 0 <= i < items.len() ==> (#[trigger] stmts_view(items)[i]) == items[i]@,
    decreases items.len(),
{
    if items.len() > 0 {
        lemma_stmts_view_index(items.drop_last());
    }
}

impl View for Expr {
    type V = ExprView;

    open spec fn view(&self) -> ExprView {
        expr_view(*self)
    }
}

impl View for Stmt {
    type V = StmtView;

    open spec fn view(&self) -> StmtView {
        stmt_view(*self)
    }
}

} // verus!
