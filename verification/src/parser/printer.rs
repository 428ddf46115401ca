//! The printer: from an expression tree to its parenthesized form.
use crate::parser::expr::{Binary, Expr, ExprView, Grouping, Literal, Unary, Visitor};
use vstd::prelude::*;
use vstd::string::*;

verus! {

/// The parenthesized form of a tree: the operator first, then the operands, with
/// one pair of parentheses for each node that is not a literal.
pub open spec fn render(expr: ExprView) -> Seq<char>
    decreases expr,
{
    match expr {
        ExprView::Binary { left, operator, right } => "("@ + operator.lexeme() + " "@ + render(
            *left,
        ) + " "@ + render(*right) + ")"@,
        ExprView::Grouping { inner } => "(group "@ + render(*inner) + ")"@,
        ExprView::Literal { value } => value,
        ExprView::Unary { operator, right } => "("@ + operator.lexeme() + " "@ + render(*right)
            + ")"@,
    }
}

/// Prints expression trees.
pub struct AstPrinter;

impl AstPrinter {
    /// The parenthesized form of `expr`.
    fn text_of(&mut self, expr: &Expr) -> (out: String)
        ensures
            out@ == render(expr@),
        decreases expr,
    {
        match expr {
            Expr::Binary(binary) => self.visit_binary(binary),
            Expr::Grouping(grouping) => self.visit_grouping(grouping),
            Expr::Literal(literal) => self.visit_literal(literal),
            Expr::Unary(unary) => self.visit_unary(unary),
        }
    }
}

impl Visitor<String> for AstPrinter {
    open spec fn binary_visited(&self, binary: &Binary, after: &Self, out: String) -> bool {
        out@ == render(binary@)
    }

    open spec fn grouping_visited(&self, grouping: &Grouping, after: &Self, out: String) -> bool {
        out@ == render(grouping@)
    }

    open spec fn literal_visited(&self, literal: &Literal, after: &Self, out: String) -> bool {
        out@ == render(literal@)
    }

    open spec fn unary_visited(&self, unary: &Unary, after: &Self, out: String) -> bool {
        out@ == render(unary@)
    }

    open spec fn printed(&self, expr: &Expr, after: &Self, out: String) -> bool {
        out@ == render(expr@)
    }

    fn visit_binary(&mut self, binary: &Binary) -> (out: String)
        decreases binary,
    {
        let mut out = String::from_str("(");
        out.append(binary.operator.lexeme().as_str());
        out.append(" ");
        out.append(self.text_of(&binary.left).as_str());
        out.append(" ");
        out.append(self.text_of(&binary.right).as_str());
        out.append(")");
        out
    }

    fn visit_grouping(&mut self, grouping: &Grouping) -> (out: String)
        decreases grouping,
    {
        let mut out = String::from_str("(group ");
        out.append(self.text_of(&grouping.expression).as_str());
        out.append(")");
        out
    }

    fn visit_literal(&mut self, literal: &Literal) -> (out: String) {
        literal.value.clone()
    }

    fn visit_unary(&mut self, unary: &Unary) -> (out: String)
        decreases unary,
    {
        let mut out = String::from_str("(");
        out.append(unary.operator.lexeme().as_str());
        out.append(" ");
        out.append(self.text_of(&unary.right).as_str());
        out.append(")");
        out
    }

    /// The parenthesized form of `expr`.
    fn print(&mut self, expr: Expr) -> (out: String) {
        self.text_of(&expr)
    }
}

} // verus!
