use lox_frontend::number::{canonical_text, is_decimal_text, render, renders_text, MAX_DIGITS};
use lox_frontend::token::{Token, TokenKind};

fn number(text: &str) -> Token {
    Token::Number(text.to_string())
}

#[test]
fn listing_of_fixed_tokens() {
    assert_eq!(Token::LeftParen.stringify(), "LEFT_PAREN ( null");
    assert_eq!(Token::RightParen.stringify(), "RIGHT_PAREN ) null");
    assert_eq!(Token::LeftBrace.stringify(), "LEFT_BRACE { null");
    assert_eq!(Token::RightBrace.stringify(), "RIGHT_BRACE } null");
    assert_eq!(Token::Comma.stringify(), "COMMA , null");
    assert_eq!(Token::Dot.stringify(), "DOT . null");
    assert_eq!(Token::Minus.stringify(), "MINUS - null");
    assert_eq!(Token::Plus.stringify(), "PLUS + null");
    assert_eq!(Token::Semicolon.stringify(), "SEMICOLON ; null");
    assert_eq!(Token::Slash.stringify(), "SLASH / null");
    assert_eq!(Token::Star.stringify(), "STAR * null");
    assert_eq!(Token::Bang.stringify(), "BANG ! null");
    assert_eq!(Token::BangEqual.stringify(), "BANG_EQUAL != null");
    assert_eq!(Token::Equal.stringify(), "EQUAL = null");
    assert_eq!(Token::EqualEqual.stringify(), "EQUAL_EQUAL == null");
    assert_eq!(Token::Greater.stringify(), "GREATER > null");
    assert_eq!(Token::GreaterEqual.stringify(), "GREATER_EQUAL >= null");
    assert_eq!(Token::Less.stringify(), "LESS < null");
    assert_eq!(Token::LessEqual.stringify(), "LESS_EQUAL <= null");
    assert_eq!(Token::EOF.stringify(), "EOF  null");
}

#[test]
fn listing_of_keywords() {
    assert_eq!(Token::And.stringify(), "AND and null");
    assert_eq!(Token::Class.stringify(), "CLASS class null");
    assert_eq!(Token::Else.stringify(), "ELSE else null");
    assert_eq!(Token::False.stringify(), "FALSE false null");
    assert_eq!(Token::Fun.stringify(), "FUN fun null");
    assert_eq!(Token::For.stringify(), "FOR for null");
    assert_eq!(Token::If.stringify(), "IF if null");
    assert_eq!(Token::Nil.stringify(), "NIL nil null");
    assert_eq!(Token::Or.stringify(), "OR or null");
    assert_eq!(Token::Print.stringify(), "PRINT print null");
    assert_eq!(Token::Return.stringify(), "RETURN return null");
    assert_eq!(Token::Super.stringify(), "SUPER super null");
    assert_eq!(Token::This.stringify(), "THIS this null");
    assert_eq!(Token::True.stringify(), "TRUE true null");
    assert_eq!(Token::Var.stringify(), "VAR var null");
    assert_eq!(Token::While.stringify(), "WHILE while null");
}

#[test]
fn listing_of_tokens_with_text() {
    assert_eq!(Token::String("abc".to_string()).stringify(), "STRING \"abc\" abc");
    assert_eq!(Token::String("a b".to_string()).stringify(), "STRING \"a b\" a b");
    assert_eq!(number("123").stringify(), "NUMBER 123 123.0");
    assert_eq!(number("1.50").stringify(), "NUMBER 1.50 1.5");
    assert_eq!(Token::Identifier("foo".to_string()).stringify(), "IDENTIFIER foo null");
}

#[test]
fn lexemes() {
    assert_eq!(Token::BangEqual.lexeme(), "!=");
    assert_eq!(Token::Minus.lexeme(), "-");
    assert_eq!(Token::While.lexeme(), "while");
    assert_eq!(Token::EOF.lexeme(), "");
    assert_eq!(number("12.0").lexeme(), "12.0");
    assert_eq!(Token::Identifier("x_y".to_string()).lexeme(), "x_y");
    assert_eq!(Token::String("a b".to_string()).lexeme(), "\"a b\"");
}

#[test]
fn literals() {
    assert_eq!(Token::String("a b".to_string()).literal(), "a b");
    assert_eq!(number("12").literal(), "12.0");
    assert_eq!(Token::True.literal(), "null");
    assert_eq!(Token::Plus.literal(), "null");
    assert_eq!(Token::Identifier("x".to_string()).literal(), "null");
    assert_eq!(Token::EOF.literal(), "null");
}

#[test]
fn kinds_and_their_names() {
    assert_eq!(Token::LeftParen.kind(), TokenKind::LeftParen);
    assert_eq!(number("1").kind(), TokenKind::Number);
    assert_eq!(Token::String(String::new()).kind(), TokenKind::String);
    assert_eq!(Token::Identifier("a".to_string()).kind(), TokenKind::Identifier);
    assert_eq!(TokenKind::GreaterEqual.name(), "GREATER_EQUAL");
    assert_eq!(TokenKind::GreaterEqual.lexeme(), ">=");
    assert_eq!(TokenKind::Number.lexeme(), "");
    assert_eq!(TokenKind::EOF.name(), "EOF");
}

#[test]
fn numbers_and_strings_match_whatever_they_carry() {
    assert!(number("1").is_same_type(&number("0")));
    assert!(Token::String("a".to_string()).is_same_type(&Token::String(String::new())));
    assert!(!number("1").is_same_type(&Token::String("1".to_string())));
}

#[test]
fn identifiers_match_by_their_text() {
    let a = Token::Identifier("a".to_string());
    assert!(a.is_same_type(&Token::Identifier("a".to_string())));
    assert!(!a.is_same_type(&Token::Identifier("b".to_string())));
    assert!(!a.is_same_type(&Token::String("a".to_string())));
}

#[test]
fn fixed_tokens_match_their_own_kind() {
    assert!(Token::Plus.is_same_type(&Token::Plus));
    assert!(!Token::Plus.is_same_type(&Token::Minus));
    assert!(Token::EOF.is_same_type(&Token::EOF));
    assert!(!Token::True.is_same_type(&Token::False));
}

#[test]
fn clone_keeps_the_token() {
    for token in [number("1.5"), Token::String("s".to_string()), Token::Identifier("i".to_string()), Token::Var, Token::EOF] {
        assert_eq!(token.clone(), token);
    }
}

#[test]
fn decimal_text() {
    for text in ["0", "1", "007", "123.456", "0.0", "10.010"] {
        assert!(is_decimal_text(text), "{:?}", text);
        assert!(number(text).is_well_formed());
    }
    for text in ["", ".", "1.", ".5", "1.2.3", "1e5", "-1", "+1", " 1", "1 ", "abc", "1a", "1.a", "\u{661}", "inf", "NaN"] {
        assert!(!is_decimal_text(text), "{:?}", text);
        assert!(!number(text).is_well_formed());
    }
    assert!(Token::String("1a".to_string()).is_well_formed());
    assert!(Token::Identifier(String::new()).is_well_formed());
}

#[test]
fn canonical_form_of_numbers() {
    assert_eq!(canonical_text("123"), "123.0");
    assert_eq!(canonical_text("1"), "1.0");
    assert_eq!(canonical_text("0"), "0.0");
    assert_eq!(canonical_text("000"), "0.0");
    assert_eq!(canonical_text("007"), "7.0");
    assert_eq!(canonical_text("0.0"), "0.0");
    assert_eq!(canonical_text("00.00"), "0.0");
    assert_eq!(canonical_text("1.5"), "1.5");
    assert_eq!(canonical_text("1.50"), "1.5");
    assert_eq!(canonical_text("007.50"), "7.5");
    assert_eq!(canonical_text("10.010"), "10.01");
    assert_eq!(canonical_text("100"), "100.0");
    assert_eq!(canonical_text("0.25"), "0.25");
    assert_eq!(canonical_text("123.456"), "123.456");
}

/// What the double nearest to `text` reads, in plain decimal with a fractional part.
fn double(text: &str) -> String {
    let value: f64 = text.parse().unwrap();
    let plain = format!("{}", value);
    if plain.contains('.') {
        plain
    } else {
        format!("{}.0", plain)
    }
}

#[test]
fn rendering_is_that_of_the_double() {
    for text in [
        "0",
        "1",
        "123",
        "007.50",
        "0.1",
        "0.3",
        "0.5",
        "1.25",
        "4.35",
        "2.675",
        "1.005",
        "0.00001",
        "123456789012345",
        "999999999999999",
        "99999.9999999999",
        "0.00000000000001",
        "0.10000000000000",
        "9007199254740.99",
        "100000000000000",
    ] {
        assert!(renders_text(text), "{:?}", text);
        assert_eq!(canonical_text(text), double(text), "{:?}", text);
        assert_eq!(render(text), Some(double(text)), "{:?}", text);
    }
}

#[test]
fn rendering_is_that_of_the_double_for_numerals_of_every_shape() {
    let mut state: u64 = 0x2545_f491_4f6c_dd1d;
    let mut next = move |bound: u64| {
        state ^= state << 13;
        state ^= state >> 7;
        state ^= state << 17;
        state % bound
    };
    for _ in 0..20000 {
        let whole = 1 + next(MAX_DIGITS as u64 - 1) as usize;
        let fraction = next((MAX_DIGITS - whole) as u64 + 1) as usize;
        let mut text = String::new();
        for _ in 0..whole {
            text.push(char::from(b'0' + next(10) as u8));
        }
        if fraction > 0 {
            text.push('.');
            for _ in 0..fraction {
                text.push(char::from(b'0' + next(10) as u8));
            }
        }
        assert!(renders_text(&text), "{:?}", text);
        assert_eq!(canonical_text(&text), double(&text), "{:?}", text);
    }
}

#[test]
fn a_numeral_of_more_than_fifteen_digits_is_not_rendered() {
    assert_eq!(MAX_DIGITS, 15);
    for text in [
        "9007199254740993",
        "1234567890123456",
        "0.1234567890123456789",
        "12345678.12345678",
        "0000000000000001",
        "10000000000000000",
        "0.000000000000001",
    ] {
        assert!(is_decimal_text(text), "{:?}", text);
        assert!(!renders_text(text), "{:?}", text);
        assert_eq!(render(text), None, "{:?}", text);
        assert!(number(text).is_well_formed());
        assert!(!number(text).renders());
        assert_eq!(number(text).try_stringify(), None);
    }
    assert!(!renders_text("12a"));
    assert_eq!(render(""), None);
    assert!(!number("12a").renders());
}

#[test]
fn every_token_but_a_long_or_ill_formed_number_has_a_literal_value() {
    assert!(number("123456789012345").renders());
    assert!(number("1234567.12345678").renders());
    assert!(Token::String("9007199254740993".to_string()).renders());
    assert!(Token::Identifier("x".to_string()).renders());
    assert!(Token::Plus.renders());
    assert!(Token::EOF.renders());
    assert_eq!(number("1.50").try_stringify(), Some("NUMBER 1.50 1.5".to_string()));
    assert_eq!(Token::EOF.try_stringify(), Some("EOF  null".to_string()));
}

#[test]
fn a_long_number_is_listed_with_the_rendering_that_the_caller_gives() {
    let long = number("9007199254740993");
    assert_eq!(double("9007199254740993"), "9007199254740992.0");
    assert_eq!(
        long.stringify_as(&double("9007199254740993")),
        "NUMBER 9007199254740993 9007199254740992.0"
    );
    let fraction = number("0.1234567890123456789");
    assert_eq!(
        fraction.stringify_as(&double("0.1234567890123456789")),
        "NUMBER 0.1234567890123456789 0.12345678901234568"
    );
    assert_eq!(Token::Plus.stringify_as("null"), Token::Plus.stringify());
    assert_eq!(number("12").stringify_as("12.0"), number("12").stringify());
}
