//! The expression tree that the parser builds.
use crate::token::{Token, TokenView};
use vstd::prelude::*;

verus! {

/// An expression tree as a mathematical value.
pub enum ExprView {
    Binary { left: Box<ExprView>, operator: TokenView, right: Box<ExprView> },
    Grouping { inner: Box<ExprView> },
    Literal { value: Seq<char> },
    Unary { operator: TokenView, right: Box<ExprView> },
}

/// An expression. A node owns its operands.
#[derive(Debug, PartialEq, Eq)]
pub enum Expr {
    Binary(Box<Binary>),
    Grouping(Box<Grouping>),
    Literal(Box<Literal>),
    Unary(Box<Unary>),
}

/// An operator between two operands.
#[derive(Debug, PartialEq, Eq)]
pub struct Binary {
    pub left: Expr,
    pub operator: Token,
    pub right: Expr,
}

/// An expression in parentheses.
#[derive(Debug, PartialEq, Eq)]
pub struct Grouping {
    pub expression: Expr,
}

/// A literal, held as the text in which its value is printed.
#[derive(Debug, PartialEq, Eq)]
pub struct Literal {
    pub value: String,
}

/// An operator before its operand.
#[derive(Debug, PartialEq, Eq)]
pub struct Unary {
    pub operator: Token,
    pub right: Expr,
}

impl Expr {
    /// The tree as a mathematical value.
    pub open spec fn model(&self) -> ExprView
        decreases self,
    {
        match self {
            Expr::Binary(binary) => binary.model(),
            Expr::Grouping(grouping) => grouping.model(),
            Expr::Literal(literal) => literal.model(),
            Expr::Unary(unary) => unary.model(),
        }
    }
}

impl Binary {
    /// The node as a mathematical value.
    pub open spec fn model(&self) -> ExprView
        decreases self,
    {
        ExprView::Binary {
            left: Box::new(self.left.model()),
            operator: self.operator@,
            right: Box::new(self.right.model()),
        }
    }
}

impl Grouping {
    /// The node as a mathematical value.
    pub open spec fn model(&self) -> ExprView
        decreases self,
    {
        ExprView::Grouping { inner: Box::new(self.expression.model()) }
    }
}

impl Literal {
    /// The node as a mathematical value.
    pub open spec fn model(&self) -> ExprView {
        ExprView::Literal { value: self.value@ }
    }
}

impl Unary {
    /// The node as a mathematical value.
    pub open spec fn model(&self) -> ExprView
        decreases self,
    {
        ExprView::Unary { operator: self.operator@, right: Box::new(self.right.model()) }
    }
}

impl View for Expr {
    type V = ExprView;

    open spec fn view(&self) -> ExprView {
        self.model()
    }
}

impl View for Binary {
    type V = ExprView;

    open spec fn view(&self) -> ExprView {
        self.model()
    }
}

impl View for Grouping {
    type V = ExprView;

    open spec fn view(&self) -> ExprView {
        self.model()
    }
}

impl View for Literal {
    type V = ExprView;

    open spec fn view(&self) -> ExprView {
        self.model()
    }
}

impl View for Unary {
    type V = ExprView;

    open spec fn view(&self) -> ExprView {
        self.model()
    }
}

/// A consumer of expression trees that is handed one node at a time.
///
/// An implementation says what its visits may do by the five relations below. In
/// each, `self` is the visitor before the visit, `after` the visitor after it, and
/// `out` what the visit returns. A relation that is left as it is allows anything.
pub trait Visitor<T>: Sized {
    /// What a visit of a binary node may do.
    open spec fn binary_visited(&self, binary: &Binary, after: &Self, out: T) -> bool {
        true
    }

    /// What a visit of a grouping may do.
    open spec fn grouping_visited(&self, grouping: &Grouping, after: &Self, out: T) -> bool {
        true
    }

    /// What a visit of a literal may do.
    open spec fn literal_visited(&self, literal: &Literal, after: &Self, out: T) -> bool {
        true
    }

    /// What a visit of a unary node may do.
    open spec fn unary_visited(&self, unary: &Unary, after: &Self, out: T) -> bool {
        true
    }

    /// What the visitor may make of a whole tree.
    open spec fn printed(&self, expr: &Expr, after: &Self, out: T) -> bool {
        true
    }

    /// Visits a binary node.
    fn visit_binary(&mut self, binary: &Binary) -> (out: T)
        ensures
            old(self).binary_visited(binary, final(self), out),
    ;

    /// Visits a grouping.
    fn visit_grouping(&mut self, grouping: &Grouping) -> (out: T)
        ensures
            old(self).grouping_visited(grouping, final(self), out),
    ;

    /// Visits a literal.
    fn visit_literal(&mut self, literal: &Literal) -> (out: T)
        ensures
            old(self).literal_visited(literal, final(self), out),
    ;

    /// Visits a unary node.
    fn visit_unary(&mut self, unary: &Unary) -> (out: T)
        ensures
            old(self).unary_visited(unary, final(self), out),
    ;

    /// Consumes a whole tree.
    fn print(&mut self, expr: Expr) -> (out: T)
        ensures
            old(self).printed(&expr, final(self), out),
    ;
}

impl Expr {
    /// What [`Expr::accept`] may do: what the visit of the node's own shape may do.
    pub open spec fn accepted<T, V: Visitor<T>>(&self, before: &V, after: &V, out: T) -> bool {
        match self {
            Expr::Binary(binary) => before.binary_visited(binary, after, out),
            Expr::Grouping(grouping) => before.grouping_visited(grouping, after, out),
            Expr::Literal(literal) => before.literal_visited(literal, after, out),
            Expr::Unary(unary) => before.unary_visited(unary, after, out),
        }
    }

    /// Hands the node to the method of `visitor` that is meant for its shape.
    pub fn accept<T, V: Visitor<T>>(&self, visitor: &mut V) -> (out: T)
        ensures
            self.accepted(old(visitor), final(visitor), out),
    {
        match self {
            Expr::Binary(binary) => visitor.visit_binary(binary),
            Expr::Grouping(grouping) => visitor.visit_grouping(grouping),
            Expr::Literal(literal) => visitor.visit_literal(literal),
            Expr::Unary(unary) => visitor.visit_unary(unary),
        }
    }
}

} // verus!
