use lox_frontend::parser::expr::{Binary, Expr, Grouping, Literal, Unary, Visitor};
use lox_frontend::parser::printer::AstPrinter;
use lox_frontend::token::Token;

fn literal(text: &str) -> Expr {
    Expr::Literal(Box::new(Literal { value: text.to_string() }))
}

fn sample() -> Expr {
    Expr::Binary(Box::new(Binary {
        left: Expr::Unary(Box::new(Unary { operator: Token::Minus, right: literal("123.0") })),
        operator: Token::Star,
        right: Expr::Grouping(Box::new(Grouping { expression: literal("45.67") })),
    }))
}

#[test]
fn prints_the_operator_before_the_operands() {
    let mut printer = AstPrinter;
    assert_eq!(printer.print(sample()), "(* (- 123.0) (group 45.67))");
}

#[test]
fn prints_a_literal_as_it_is() {
    let mut printer = AstPrinter;
    assert_eq!(printer.print(literal("null")), "null");
    assert_eq!(printer.print(literal("hello world")), "hello world");
    assert_eq!(printer.print(literal("")), "");
}

#[test]
fn prints_each_shape() {
    let mut printer = AstPrinter;
    let binary = Binary { left: literal("1.0"), operator: Token::BangEqual, right: literal("2.0") };
    assert_eq!(printer.visit_binary(&binary), "(!= 1.0 2.0)");
    let grouping = Grouping { expression: literal("true") };
    assert_eq!(printer.visit_grouping(&grouping), "(group true)");
    let unary = Unary { operator: Token::Bang, right: literal("false") };
    assert_eq!(printer.visit_unary(&unary), "(! false)");
    let value = Literal { value: "x".to_string() };
    assert_eq!(printer.visit_literal(&value), "x");
}

#[test]
fn prints_the_lexeme_of_whatever_token_is_the_operator() {
    let mut printer = AstPrinter;
    let odd = Expr::Unary(Box::new(Unary {
        operator: Token::Identifier("f".to_string()),
        right: literal("1.0"),
    }));
    assert_eq!(printer.print(odd), "(f 1.0)");
}

#[test]
fn printing_twice_gives_the_same_text() {
    let mut printer = AstPrinter;
    let tree = sample();
    let first = tree.accept(&mut printer);
    let second = tree.accept(&mut printer);
    assert_eq!(first, second);
    assert_eq!(first, "(* (- 123.0) (group 45.67))");
    let mut other = AstPrinter;
    assert_eq!(other.print(sample()), first);
}

#[test]
fn accept_hands_each_shape_to_its_own_method() {
    let mut printer = AstPrinter;
    assert_eq!(literal("7.0").accept(&mut printer), "7.0");
    let group = Expr::Grouping(Box::new(Grouping { expression: literal("7.0") }));
    assert_eq!(group.accept(&mut printer), "(group 7.0)");
    let not = Expr::Unary(Box::new(Unary { operator: Token::Bang, right: literal("true") }));
    assert_eq!(not.accept(&mut printer), "(! true)");
    let sum = Expr::Binary(Box::new(Binary {
        left: literal("1.0"),
        operator: Token::Plus,
        right: literal("2.0"),
    }));
    assert_eq!(sum.accept(&mut printer), "(+ 1.0 2.0)");
}

struct Depth;

impl Visitor<usize> for Depth {
    fn visit_binary(&mut self, binary: &Binary) -> usize {
        1 + binary.left.accept(self).max(binary.right.accept(self))
    }

    fn visit_grouping(&mut self, grouping: &Grouping) -> usize {
        1 + grouping.expression.accept(self)
    }

    fn visit_literal(&mut self, _literal: &Literal) -> usize {
        1
    }

    fn visit_unary(&mut self, unary: &Unary) -> usize {
        1 + unary.right.accept(self)
    }

    fn print(&mut self, expr: Expr) -> usize {
        expr.accept(self)
    }
}

#[test]
fn a_visitor_of_ones_own_walks_the_tree() {
    let mut depth = Depth;
    assert_eq!(depth.print(sample()), 3);
    assert_eq!(depth.print(literal("1.0")), 1);
}
