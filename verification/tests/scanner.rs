use lox_frontend::lexer::diagnostic::{Diagnostic, LexError};
use lox_frontend::lexer::Lexer;
use lox_frontend::token::Token;

fn scan(source: &str) -> Lexer {
    let mut lexer = Lexer::new(source.to_string());
    lexer.tokenize();
    lexer
}

fn tokens(source: &str) -> Vec<Token> {
    scan(source).into_tokens()
}

fn identifier(text: &str) -> Token {
    Token::Identifier(text.to_string())
}

fn number(text: &str) -> Token {
    Token::Number(text.to_string())
}

fn string(text: &str) -> Token {
    Token::String(text.to_string())
}

#[test]
fn parenthesized_sum_scans_to_six_tokens() {
    let mut lexer = Lexer::new("(1 + 2)".to_string());
    let lines = lexer.print_tokens();
    let expected: Vec<Option<String>> = [
        "LEFT_PAREN ( null",
        "NUMBER 1 1.0",
        "PLUS + null",
        "NUMBER 2 2.0",
        "RIGHT_PAREN ) null",
        "EOF  null",
    ]
    .iter()
    .map(|line| Some(line.to_string()))
    .collect();
    assert_eq!(lines, expected);
    assert_eq!(lexer.error_code(), 0);
    assert!(lexer.diagnostics().is_empty());
}

#[test]
fn unterminated_string_gives_code_80_and_no_string_token() {
    let lexer = scan("\"abc");
    assert_eq!(lexer.error_code(), 80);
    assert_eq!(lexer.tokens(), &vec![Token::EOF]);
    assert_eq!(
        lexer.diagnostics(),
        &vec![Diagnostic { line: 1, error: LexError::UnterminatedString }]
    );
    assert_eq!(lexer.diagnostics()[0].message(), "[line 1] Error: Unterminated String");
}

#[test]
fn unexpected_character_gives_code_65_and_the_sentinel() {
    let lexer = scan("@");
    assert_eq!(lexer.error_code(), 65);
    assert_eq!(lexer.tokens(), &vec![Token::EOF]);
    assert_eq!(
        lexer.diagnostics(),
        &vec![Diagnostic { line: 1, error: LexError::UnexpectedCharacter('@') }]
    );
    assert_eq!(lexer.diagnostics()[0].message(), "[line 1] Error: Unexpected character: @");
}

#[test]
fn every_scan_ends_in_exactly_one_sentinel() {
    for source in ["", " ", "\n\n", "1 + 2", "\"open", "@#$", "// only a comment", "a.b(c);", "\0"] {
        let scanned = tokens(source);
        assert_eq!(scanned.last(), Some(&Token::EOF), "source {:?}", source);
        let sentinels = scanned.iter().filter(|t| **t == Token::EOF).count();
        assert_eq!(sentinels, 1, "source {:?}", source);
    }
}

#[test]
fn empty_text_scans_to_the_sentinel_alone() {
    let lexer = scan("");
    assert_eq!(lexer.tokens(), &vec![Token::EOF]);
    assert_eq!(lexer.error_code(), 0);
}

#[test]
fn single_character_tokens() {
    assert_eq!(
        tokens("(){},.-+;*/"),
        vec![
            Token::LeftParen,
            Token::RightParen,
            Token::LeftBrace,
            Token::RightBrace,
            Token::Comma,
            Token::Dot,
            Token::Minus,
            Token::Plus,
            Token::Semicolon,
            Token::Star,
            Token::Slash,
            Token::EOF,
        ]
    );
}

#[test]
fn operators_of_one_or_two_characters() {
    assert_eq!(
        tokens("! != = == < <= > >="),
        vec![
            Token::Bang,
            Token::BangEqual,
            Token::Equal,
            Token::EqualEqual,
            Token::Less,
            Token::LessEqual,
            Token::Greater,
            Token::GreaterEqual,
            Token::EOF,
        ]
    );
    assert_eq!(tokens("==="), vec![Token::EqualEqual, Token::Equal, Token::EOF]);
    assert_eq!(tokens("!"), vec![Token::Bang, Token::EOF]);
}

#[test]
fn comment_runs_to_the_end_of_the_line() {
    assert_eq!(tokens("1 // two three\n4"), vec![number("1"), number("4"), Token::EOF]);
    assert_eq!(tokens("// nothing else"), vec![Token::EOF]);
    assert_eq!(tokens("/ /"), vec![Token::Slash, Token::Slash, Token::EOF]);
}

#[test]
fn a_comment_does_not_swallow_the_line_feed() {
    let lexer = scan("// one\n@");
    assert_eq!(
        lexer.diagnostics(),
        &vec![Diagnostic { line: 2, error: LexError::UnexpectedCharacter('@') }]
    );
}

#[test]
fn blanks_are_dropped() {
    assert_eq!(tokens(" \t\r\n(\t)\r\n"), vec![Token::LeftParen, Token::RightParen, Token::EOF]);
}

#[test]
fn string_carries_the_text_between_the_quotes() {
    assert_eq!(tokens("\"abc\""), vec![string("abc"), Token::EOF]);
    assert_eq!(tokens("\"\""), vec![string(""), Token::EOF]);
    assert_eq!(tokens("\"a\\n b\""), vec![string("a\\n b"), Token::EOF]);
    assert_eq!(tokens("\"a\"\"b\""), vec![string("a"), string("b"), Token::EOF]);
}

#[test]
fn string_bytes_become_one_character_each() {
    let scanned = tokens("\"\u{e9}\"");
    assert_eq!(scanned, vec![string("\u{c3}\u{a9}"), Token::EOF]);
}

#[test]
fn line_feeds_inside_a_string_count() {
    let lexer = scan("\"a\nb\n\" @");
    assert_eq!(lexer.tokens(), &vec![string("a\nb\n"), Token::EOF]);
    assert_eq!(
        lexer.diagnostics(),
        &vec![Diagnostic { line: 3, error: LexError::UnexpectedCharacter('@') }]
    );
}

#[test]
fn unterminated_string_is_reported_on_its_first_line() {
    let lexer = scan("\n\n\"abc\ndef\n");
    assert_eq!(lexer.tokens(), &vec![Token::EOF]);
    assert_eq!(
        lexer.diagnostics(),
        &vec![Diagnostic { line: 3, error: LexError::UnterminatedString }]
    );
    assert_eq!(lexer.error_code(), 80);
}

#[test]
fn numbers_take_the_longest_match() {
    assert_eq!(tokens("123"), vec![number("123"), Token::EOF]);
    assert_eq!(tokens("123.456"), vec![number("123.456"), Token::EOF]);
    assert_eq!(tokens("007"), vec![number("007"), Token::EOF]);
}

#[test]
fn a_point_without_a_digit_behind_it_is_no_part_of_the_number() {
    assert_eq!(tokens("1."), vec![number("1"), Token::Dot, Token::EOF]);
    assert_eq!(tokens("1.a"), vec![number("1"), Token::Dot, identifier("a"), Token::EOF]);
    assert_eq!(tokens(".5"), vec![Token::Dot, number("5"), Token::EOF]);
    assert_eq!(
        tokens("1.2.3"),
        vec![number("1.2"), Token::Dot, number("3"), Token::EOF]
    );
}

#[test]
fn identifiers_are_letters_and_underscores() {
    assert_eq!(tokens("foo _bar Baz_"), vec![identifier("foo"), identifier("_bar"), identifier("Baz_"), Token::EOF]);
    assert_eq!(tokens("abc123"), vec![identifier("abc"), number("123"), Token::EOF]);
    assert_eq!(tokens("1abc"), vec![number("1"), identifier("abc"), Token::EOF]);
}

#[test]
fn reserved_words_have_their_own_tokens() {
    assert_eq!(
        tokens("and class else false for fun if nil or print return super this true var while"),
        vec![
            Token::And,
            Token::Class,
            Token::Else,
            Token::False,
            Token::For,
            Token::Fun,
            Token::If,
            Token::Nil,
            Token::Or,
            Token::Print,
            Token::Return,
            Token::Super,
            Token::This,
            Token::True,
            Token::Var,
            Token::While,
            Token::EOF,
        ]
    );
}

#[test]
fn a_word_that_only_holds_a_reserved_word_is_an_identifier() {
    assert_eq!(
        tokens("andy And classes _if"),
        vec![identifier("andy"), identifier("And"), identifier("classes"), identifier("_if"), Token::EOF]
    );
}

#[test]
fn scanning_goes_on_after_an_error() {
    let lexer = scan("@(#)");
    assert_eq!(lexer.tokens(), &vec![Token::LeftParen, Token::RightParen, Token::EOF]);
    assert_eq!(
        lexer.diagnostics(),
        &vec![
            Diagnostic { line: 1, error: LexError::UnexpectedCharacter('@') },
            Diagnostic { line: 1, error: LexError::UnexpectedCharacter('#') },
        ]
    );
    assert_eq!(lexer.error_code(), 65);
}

#[test]
fn the_last_error_gives_the_code() {
    let lexer = scan("@ \"abc");
    assert_eq!(lexer.error_code(), 80);
    assert_eq!(lexer.diagnostics().len(), 2);
    let lexer = scan("\"abc\" @");
    assert_eq!(lexer.error_code(), 65);
}

#[test]
fn the_zero_byte_is_an_unexpected_character() {
    let lexer = scan("\0");
    assert_eq!(
        lexer.diagnostics(),
        &vec![Diagnostic { line: 1, error: LexError::UnexpectedCharacter('\0') }]
    );
}

#[test]
fn report_names_the_line_in_decimal() {
    let source = format!("{}@", "\n".repeat(119));
    let lexer = scan(&source);
    assert_eq!(lexer.diagnostics()[0].line, 120);
    assert_eq!(lexer.diagnostics()[0].message(), "[line 120] Error: Unexpected character: @");
    let report = Diagnostic { line: 7, error: LexError::UnterminatedString };
    assert_eq!(report.message(), "[line 7] Error: Unterminated String");
    let report = Diagnostic { line: 0, error: LexError::UnterminatedString };
    assert_eq!(report.message(), "[line 0] Error: Unterminated String");
}

#[test]
fn error_codes() {
    assert_eq!(LexError::UnexpectedCharacter('x').code(), 65);
    assert_eq!(LexError::UnterminatedString.code(), 80);
}

#[test]
fn a_fresh_scanner_has_nothing_scanned() {
    let lexer = Lexer::new("1 + 2".to_string());
    assert!(lexer.tokens().is_empty());
    assert!(lexer.diagnostics().is_empty());
    assert_eq!(lexer.error_code(), 0);
}

#[test]
fn scanned_numbers_are_well_formed() {
    for token in tokens("1 22.5 007 3.") {
        assert!(token.is_well_formed());
    }
}

#[test]
fn tokens_are_read_back_from_their_lexemes() {
    let written = vec![
        Token::LeftParen,
        number("12.50"),
        Token::Star,
        identifier("rate_"),
        Token::RightParen,
        Token::GreaterEqual,
        Token::Minus,
        string("a b\nc"),
        Token::Bang,
        Token::Equal,
        Token::While,
        Token::Slash,
        identifier("whiles"),
        Token::Nil,
    ];
    let mut source = String::new();
    for token in written.iter() {
        source.push_str(&token.lexeme());
        source.push(' ');
    }
    let lexer = scan(&source);
    let mut expected = written;
    expected.push(Token::EOF);
    assert_eq!(lexer.tokens(), &expected);
    assert!(lexer.diagnostics().is_empty());
    assert_eq!(lexer.error_code(), 0);
}

#[test]
fn lexemes_are_what_stands_in_the_source() {
    for source in ["(1+2.50)*-x", "\"a b\"==nil", "while(true)print!x;", "a<=b>=c!=d"] {
        let mut written = String::new();
        for token in tokens(source) {
            written.push_str(&token.lexeme());
        }
        assert_eq!(written, source);
    }
}

#[test]
fn the_line_of_a_long_number_is_left_to_the_caller() {
    let mut lexer = Lexer::new("1 + 9007199254740993;".to_string());
    let lines = lexer.print_tokens();
    assert_eq!(
        lines,
        vec![
            Some("NUMBER 1 1.0".to_string()),
            Some("PLUS + null".to_string()),
            None,
            Some("SEMICOLON ; null".to_string()),
            Some("EOF  null".to_string()),
        ]
    );
    assert_eq!(lexer.tokens()[2], number("9007199254740993"));
    assert_eq!(
        lexer.tokens()[2].stringify_as("9007199254740992.0"),
        "NUMBER 9007199254740993 9007199254740992.0"
    );
}
