use lox_frontend::lexer::Lexer;
use lox_frontend::parser::expr::{Binary, Expr, Grouping, Literal, Unary, Visitor};
use lox_frontend::parser::grammar::ParseErrorKind;
use lox_frontend::parser::printer::AstPrinter;
use lox_frontend::parser::{ParseError, Parser};
use lox_frontend::token::Token;

fn tokens(source: &str) -> Vec<Token> {
    let mut lexer = Lexer::new(source.to_string());
    lexer.tokenize();
    lexer.into_tokens()
}

fn parse(source: &str) -> Result<Expr, ParseError> {
    let mut parser = Parser::new(tokens(source));
    parser.parse()
}

fn render(source: &str) -> String {
    let mut printer = AstPrinter;
    printer.print(parse(source).unwrap())
}

fn literal(text: &str) -> Expr {
    Expr::Literal(Box::new(Literal { value: text.to_string() }))
}

fn binary(left: Expr, operator: Token, right: Expr) -> Expr {
    Expr::Binary(Box::new(Binary { left, operator, right }))
}

fn unary(operator: Token, right: Expr) -> Expr {
    Expr::Unary(Box::new(Unary { operator, right }))
}

fn grouping(expression: Expr) -> Expr {
    Expr::Grouping(Box::new(Grouping { expression }))
}

#[test]
fn subtraction_is_left_associative() {
    assert_eq!(render("1 - 2 - 3"), "(- (- 1.0 2.0) 3.0)");
    assert_eq!(
        parse("1 - 2 - 3"),
        Ok(binary(
            binary(literal("1.0"), Token::Minus, literal("2.0")),
            Token::Minus,
            literal("3.0")
        ))
    );
}

#[test]
fn multiplication_binds_tighter_than_addition() {
    assert_eq!(render("1 + 2 * 3"), "(+ 1.0 (* 2.0 3.0))");
    assert_eq!(render("1 * 2 + 3"), "(+ (* 1.0 2.0) 3.0)");
}

#[test]
fn grouping_is_printed_as_a_group() {
    assert_eq!(render("(1 + 2)"), "(group (+ 1.0 2.0))");
    assert_eq!(
        parse("(1 + 2)"),
        Ok(grouping(binary(literal("1.0"), Token::Plus, literal("2.0"))))
    );
}

#[test]
fn every_binary_rule_is_left_associative() {
    assert_eq!(render("1 == 2 != 3"), "(!= (== 1.0 2.0) 3.0)");
    assert_eq!(render("1 < 2 <= 3 > 4 >= 5"), "(>= (> (<= (< 1.0 2.0) 3.0) 4.0) 5.0)");
    assert_eq!(render("1 + 2 - 3 + 4"), "(+ (- (+ 1.0 2.0) 3.0) 4.0)");
    assert_eq!(render("8 / 4 * 2 / 1"), "(/ (* (/ 8.0 4.0) 2.0) 1.0)");
}

#[test]
fn the_rules_bind_in_their_order() {
    assert_eq!(
        render("1 == 2 < 3 + 4 * -5"),
        "(== 1.0 (< 2.0 (+ 3.0 (* 4.0 (- 5.0)))))"
    );
    assert_eq!(
        render("-1 * 2 + 3 < 4 == true"),
        "(== (< (+ (* (- 1.0) 2.0) 3.0) 4.0) true)"
    );
}

#[test]
fn parentheses_override_the_rules() {
    assert_eq!(render("(1 + 2) * 3"), "(* (group (+ 1.0 2.0)) 3.0)");
    assert_eq!(render("1 - (2 - 3)"), "(- 1.0 (group (- 2.0 3.0)))");
    assert_eq!(render("((1))"), "(group (group 1.0))");
}

#[test]
fn unary_operators_nest_to_the_right() {
    assert_eq!(render("!true"), "(! true)");
    assert_eq!(render("--1"), "(- (- 1.0))");
    assert_eq!(render("!-!nil"), "(! (- (! null)))");
    assert_eq!(parse("-1"), Ok(unary(Token::Minus, literal("1.0"))));
    assert_eq!(render("1 - -2"), "(- 1.0 (- 2.0))");
}

#[test]
fn literals_are_held_as_their_printed_value() {
    assert_eq!(parse("true"), Ok(literal("true")));
    assert_eq!(parse("false"), Ok(literal("false")));
    assert_eq!(parse("nil"), Ok(literal("null")));
    assert_eq!(parse("\"hello world\""), Ok(literal("hello world")));
    assert_eq!(parse("\"\""), Ok(literal("")));
    assert_eq!(parse("12"), Ok(literal("12.0")));
    assert_eq!(parse("012.500"), Ok(literal("12.5")));
}

#[test]
fn strings_and_booleans_take_part_in_expressions() {
    assert_eq!(render("\"a\" + \"b\" == \"ab\""), "(== (+ a b) ab)");
    assert_eq!(render("!(1 > 2) != false"), "(!= (! (group (> 1.0 2.0))) false)");
}

#[test]
fn the_parser_stops_behind_the_expression() {
    let mut parser = Parser::new(tokens("1 + 2 3"));
    assert_eq!(parser.position(), 0);
    assert_eq!(parser.parse(), Ok(binary(literal("1.0"), Token::Plus, literal("2.0"))));
    assert_eq!(parser.position(), 3);
    assert_eq!(parser.parse(), Ok(literal("3.0")));
    assert_eq!(parser.position(), 4);
}

#[test]
fn missing_expression_is_an_error() {
    assert_eq!(
        parse("1 +"),
        Err(ParseError { kind: ParseErrorKind::ExpectExpression, token: Token::EOF, position: 2 })
    );
    assert_eq!(
        parse(""),
        Err(ParseError { kind: ParseErrorKind::ExpectExpression, token: Token::EOF, position: 0 })
    );
    assert_eq!(
        parse(")"),
        Err(ParseError {
            kind: ParseErrorKind::ExpectExpression,
            token: Token::RightParen,
            position: 0
        })
    );
    assert_eq!(
        parse("1 * / 2"),
        Err(ParseError { kind: ParseErrorKind::ExpectExpression, token: Token::Slash, position: 2 })
    );
    assert_eq!(
        parse("foo"),
        Err(ParseError {
            kind: ParseErrorKind::ExpectExpression,
            token: Token::Identifier("foo".to_string()),
            position: 0
        })
    );
    assert_eq!(ParseErrorKind::ExpectExpression.message(), "Expect expression.");
}

#[test]
fn missing_right_paren_is_an_error() {
    assert_eq!(
        parse("(1 + 2"),
        Err(ParseError { kind: ParseErrorKind::ExpectRightParen, token: Token::EOF, position: 4 })
    );
    assert_eq!(
        parse("(1 2)"),
        Err(ParseError {
            kind: ParseErrorKind::ExpectRightParen,
            token: Token::Number("2".to_string()),
            position: 2
        })
    );
    assert_eq!(ParseErrorKind::ExpectRightParen.message(), "Expect ')' after expression.");
}

#[test]
fn a_number_that_is_no_decimal_text_is_an_error() {
    let bad = Token::Number("12a".to_string());
    let mut parser = Parser::new(vec![Token::Minus, bad.clone(), Token::EOF]);
    assert_eq!(
        parser.parse(),
        Err(ParseError { kind: ParseErrorKind::InvalidNumber, token: bad, position: 1 })
    );
    assert_eq!(parser.position(), 1);
    assert_eq!(ParseErrorKind::InvalidNumber.message(), "Invalid number.");
}

#[test]
fn the_cursor_stays_on_the_token_that_failed() {
    let mut parser = Parser::new(tokens("(1 + ; 2"));
    assert!(parser.parse().is_err());
    assert_eq!(parser.position(), 3);
}

#[test]
fn synchronize_moves_behind_a_semicolon() {
    let mut parser = Parser::new(tokens("+ 1 2 ; 3 4"));
    parser.synchronize();
    assert_eq!(parser.position(), 4);
    assert_eq!(parser.parse(), Ok(literal("3.0")));
}

#[test]
fn synchronize_stops_before_a_statement() {
    for keyword in ["class", "fun", "var", "for", "if", "while", "print", "return"] {
        let mut parser = Parser::new(tokens(&format!("+ 1 2 {} 3 ;", keyword)));
        parser.synchronize();
        assert_eq!(parser.position(), 3, "{}", keyword);
    }
}

#[test]
fn synchronize_skips_the_token_it_stands_on() {
    let mut parser = Parser::new(tokens("print 1 print 2"));
    parser.synchronize();
    assert_eq!(parser.position(), 2);
    let mut parser = Parser::new(tokens("; 1 ; 2"));
    parser.synchronize();
    assert_eq!(parser.position(), 1);
}

#[test]
fn synchronize_stops_at_the_end() {
    let mut parser = Parser::new(tokens("1 + 2"));
    parser.synchronize();
    assert_eq!(parser.position(), 3);
    parser.synchronize();
    assert_eq!(parser.position(), 3);
    let mut parser = Parser::new(tokens(""));
    parser.synchronize();
    assert_eq!(parser.position(), 0);
}

#[test]
fn a_driver_can_go_on_after_an_error() {
    let mut parser = Parser::new(tokens("1 + ; 2 * 3"));
    assert!(parser.parse().is_err());
    parser.synchronize();
    assert_eq!(parser.parse(), Ok(binary(literal("2.0"), Token::Star, literal("3.0"))));
}

#[test]
fn token_sequences_that_a_parser_takes() {
    assert!(Parser::accepts(&vec![Token::EOF]));
    assert!(Parser::accepts(&vec![Token::Plus, Token::EOF]));
    assert!(Parser::accepts(&tokens("1 + 2")));
    assert!(!Parser::accepts(&vec![]));
    assert!(!Parser::accepts(&vec![Token::EOF, Token::Plus]));
}

#[test]
fn parse_and_print_in_one() {
    assert_eq!(lox_frontend::parser::test(tokens("(1 + 2)")), Ok("(group (+ 1.0 2.0))".to_string()));
    assert_eq!(
        lox_frontend::parser::test(tokens("1 +")),
        Err(ParseError { kind: ParseErrorKind::ExpectExpression, token: Token::EOF, position: 2 })
    );
}

#[test]
fn the_tree_of_a_token_sequence_is_parsed_back_from_it() {
    // 1 * (2 - 3) >= -4
    let tree = || {
        binary(
            binary(
                literal("1.0"),
                Token::Star,
                grouping(binary(literal("2.0"), Token::Minus, literal("3.0"))),
            ),
            Token::GreaterEqual,
            unary(Token::Minus, literal("4.0")),
        )
    };
    let number = |text: &str| Token::Number(text.to_string());
    let given = vec![
        number("1"),
        Token::Star,
        Token::LeftParen,
        number("2"),
        Token::Minus,
        number("3"),
        Token::RightParen,
        Token::GreaterEqual,
        Token::Minus,
        number("4"),
        Token::EOF,
    ];
    let mut parser = Parser::new(given);
    assert_eq!(parser.parse(), Ok(tree()));
    assert_eq!(parser.position(), 10);
    let mut printer = AstPrinter;
    assert_eq!(printer.print(tree()), "(>= (* 1.0 (group (- 2.0 3.0))) (- 4.0))");
    assert_eq!(render("1 * (2 - 3) >= -4"), "(>= (* 1.0 (group (- 2.0 3.0))) (- 4.0))");
}

#[test]
fn a_number_of_fifteen_digits_is_parsed() {
    assert_eq!(parse("123456789012345"), Ok(literal("123456789012345.0")));
    assert_eq!(parse("0.00000000000001"), Ok(literal("0.00000000000001")));
    assert_eq!(render("1234567.12345678 + 2"), "(+ 1234567.12345678 2.0)");
}

#[test]
fn a_number_of_more_digits_is_handed_back() {
    let long = Token::Number("9007199254740993".to_string());
    assert_eq!(
        parse("1 + 9007199254740993"),
        Err(ParseError { kind: ParseErrorKind::LongNumber, token: long, position: 2 })
    );
    let mut parser = Parser::new(tokens("0.1234567890123456789"));
    let error = parser.parse().unwrap_err();
    assert_eq!(error.kind, ParseErrorKind::LongNumber);
    assert_eq!(error.token, Token::Number("0.1234567890123456789".to_string()));
    assert_eq!(parser.position(), 0);
    assert_eq!(ParseErrorKind::LongNumber.message(), "Number too long to render.");
}

#[test]
fn a_string_token_stands_for_a_number_that_the_caller_has_rendered() {
    let value: f64 = "9007199254740993".parse().unwrap();
    let rendered = format!("{}.0", value);
    assert_eq!(rendered, "9007199254740992.0");
    let mut given = tokens("1 + 9007199254740993");
    assert_eq!(given[2], Token::Number("9007199254740993".to_string()));
    given[2] = Token::String(rendered);
    assert_eq!(
        lox_frontend::parser::test(given),
        Ok("(+ 1.0 9007199254740992.0)".to_string())
    );
}
