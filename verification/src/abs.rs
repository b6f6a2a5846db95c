//! The abstract syntax: statements and expressions, with their mathematical
//! views over sequences of characters and unbounded integers.

use vstd::prelude::*;

verus! {

/// A declared type name. It is stored and never interpreted.
#[derive(Debug, PartialEq, Eq)]
pub struct Type(pub String);

/// A statement: one source line.
#[derive(Debug, PartialEq, Eq)]
pub enum Stm {
    /// A declaration `target :: declared_type`; well formed when the target is an `Id`.
    Vardef(Expr, Type),
    /// An assignment `target = value`; well formed when the target is an `Id`.
    Assign(Expr, Expr),
}

/// An integer-valued expression tree.
///
/// `Divide` and `Multiply` are part of the model and are evaluated, but no
/// source text parses to them.
#[derive(Debug, PartialEq, Eq)]
pub enum Expr {
    Id(String),
    LitInt(i64),
    Neg(Box<Expr>),
    Plus(Box<Expr>, Box<Expr>),
    Minus(Box<Expr>, Box<Expr>),
    Divide(Box<Expr>, Box<Expr>),
    Multiply(Box<Expr>, Box<Expr>),
}

/// The mathematical value of an [`Expr`].
pub enum ExprView {
    Id(Seq<char>),
    LitInt(int),
    Neg(Box<ExprView>),
    Plus(Box<ExprView>, Box<ExprView>),
    Minus(Box<ExprView>, Box<ExprView>),
    Divide(Box<ExprView>, Box<ExprView>),
    Multiply(Box<ExprView>, Box<ExprView>),
}

/// The mathematical value of a [`Stm`]; the declared type is its name.
pub enum StmView {
    Vardef(ExprView, Seq<char>),
    Assign(ExprView, ExprView),
}

/// The view of an expression, by recursion on the tree.
pub open spec fn expr_view(e: Expr) -> ExprView
    decreases e,
{
    match e {
        Expr::Id(s) => ExprView::Id(s@),
        Expr::LitInt(i) => ExprView::LitInt(i as int),
        Expr::Neg(a) => ExprView::Neg(Box::new(expr_view(*a))),
        Expr::Plus(a, b) => ExprView::Plus(Box::new(expr_view(*a)), Box::new(expr_view(*b))),
        Expr::Minus(a, b) => ExprView::Minus(Box::new(expr_view(*a)), Box::new(expr_view(*b))),
        Expr::Divide(a, b) => ExprView::Divide(Box::new(expr_view(*a)), Box::new(expr_view(*b))),
        Expr::Multiply(a, b) => ExprView::Multiply(
            Box::new(expr_view(*a)),
            Box::new(expr_view(*b)),
        ),
    }
}

/// A copy of an expression tree.
pub fn clone_expr(e: &Expr) -> (r: Expr)
    ensures
        r@ == e@,
    decreases *e,
{
    match e {
        Expr::Id(s) => Expr::Id(s.clone()),
        Expr::LitInt(i) => Expr::LitInt(*i),
        Expr::Neg(a) => Expr::Neg(Box::new(clone_expr(a))),
        Expr::Plus(a, b) => Expr::Plus(Box::new(clone_expr(a)), Box::new(clone_expr(b))),
        Expr::Minus(a, b) => Expr::Minus(Box::new(clone_expr(a)), Box::new(clone_expr(b))),
        Expr::Divide(a, b) => Expr::Divide(Box::new(clone_expr(a)), Box::new(clone_expr(b))),
        Expr::Multiply(a, b) => Expr::Multiply(Box::new(clone_expr(a)), Box::new(clone_expr(b))),
    }
}

impl Clone for Expr {
    /// A copy of the whole tree.
    fn clone(&self) -> (r: Self)
        ensures
            r@ == self@,
    {
        clone_expr(self)
    }
}

impl Clone for Type {
    /// A copy with the same name.
    fn clone(&self) -> (r: Self)
        ensures
            r@ == self@,
    {
        Type(self.0.clone())
    }
}

impl Clone for Stm {
    /// A copy with the same target and the same type or value.
    fn clone(&self) -> (r: Self)
        ensures
            r@ == self@,
    {
        match self {
            Stm::Vardef(e, t) => Stm::Vardef(clone_expr(e), t.clone()),
            Stm::Assign(e1, e2) => Stm::Assign(clone_expr(e1), clone_expr(e2)),
        }
    }
}

impl View for Type {
    type V = Seq<char>;

    open spec fn view(&self) -> Seq<char> {
        self.0@
    }
}

impl View for Expr {
    type V = ExprView;

    open spec fn view(&self) -> ExprView {
        expr_view(*self)
    }
}

impl View for Stm {
    type V = StmView;

    open spec fn view(&self) -> StmView {
        match *self {
            Stm::Vardef(e, t) => StmView::Vardef(e@, t@),
            Stm::Assign(e1, e2) => StmView::Assign(e1@, e2@),
        }
    }
}

} // verus!
