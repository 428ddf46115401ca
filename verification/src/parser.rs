//! The parser: from tokens to an expression tree.
pub mod expr;
pub mod grammar;
pub mod laws;
pub mod printer;

use crate::parser::expr::{Binary, Expr, Grouping, Literal, Unary, Visitor};
use crate::parser::printer::{render, AstPrinter};
use crate::parser::grammar::{
    lemma_operator_tokens, lemma_parse_advances, next_boundary, parse, parse_primary, parse_rest,
    parse_unary, stop, synchronized, terminated, token_at, ParseErrorKind, Parsed, Rule,
};
use crate::token::{lemma_matches_one, lemma_matches_two, views, Token, TokenKind, TokenView};
use vstd::prelude::*;
use vstd::string::*;

verus! {

/// A failed parse: why it failed, and the token at which it failed, with its index
/// in the token sequence.
#[derive(Debug, PartialEq, Eq)]
pub struct ParseError {
    pub kind: ParseErrorKind,
    pub token: Token,
    pub position: usize,
}

impl ParseErrorKind {
    /// What the diagnostic says.
    pub open spec fn message_spec(self) -> Seq<char> {
        match self {
            ParseErrorKind::ExpectExpression => "Expect expression."@,
            ParseErrorKind::ExpectRightParen => "Expect ')' after expression."@,
            ParseErrorKind::InvalidNumber => "Invalid number."@,
            ParseErrorKind::LongNumber => "Number too long to render."@,
        }
    }

    /// What the diagnostic says.
    pub fn message(self) -> (out: &'static str)
        ensures
            out@ == self.message_spec(),
    {
        match self {
            ParseErrorKind::ExpectExpression => "Expect expression.",
            ParseErrorKind::ExpectRightParen => "Expect ')' after expression.",
            ParseErrorKind::InvalidNumber => "Invalid number.",
            ParseErrorKind::LongNumber => "Number too long to render.",
        }
    }
}

/// Whether what a parser function returned is what the grammar gives: the same
/// tree, or the same failure at the same token.
pub open spec fn agrees(
    result: Result<Expr, ParseError>,
    parsed: Parsed,
    tokens: Seq<TokenView>,
) -> bool {
    match parsed {
        Parsed::Done { expr, next } => result matches Ok(tree) && tree@ == expr,
        Parsed::Failed { kind, at } => result matches Err(error) && error.kind == kind
            && error.position == at && error.token@ == token_at(tokens, at),
    }
}

/// The operators of a rule, as tokens to match.
fn operators(rule: Rule) -> (types: Vec<Token>)
    ensures
        views(types@) == rule.operator_tokens(),
{
    let types = match rule {
        Rule::Equality => vec![Token::BangEqual, Token::EqualEqual],
        Rule::Comparison => vec![
            Token::Greater,
            Token::GreaterEqual,
            Token::Less,
            Token::LessEqual,
        ],
        Rule::Term => vec![Token::Minus, Token::Plus],
        Rule::Factor => vec![Token::Slash, Token::Star],
        Rule::Unary => vec![Token::Bang, Token::Minus],
        Rule::Primary => vec![],
    };
    assert(views(types@) =~= rule.operator_tokens());
    types
}

/// One token to match.
fn only(t: Token) -> (types: Vec<Token>)
    ensures
        views(types@) == seq![t@],
{
    let types = vec![t];
    assert(views(types@) =~= seq![t@]);
    types
}

/// Two tokens to match.
fn either(a: Token, b: Token) -> (types: Vec<Token>)
    ensures
        views(types@) == seq![a@, b@],
{
    let types = vec![a, b];
    assert(views(types@) =~= seq![a@, b@]);
    types
}

/// Parses one expression from the start of `tokens` and prints it.
pub fn test(tokens: Vec<Token>) -> (result: Result<String, ParseError>)
    requires
        terminated(views(tokens@)),
    ensures
        match parse(views(tokens@), 0, Rule::Equality) {
            Parsed::Done { expr, next } => result matches Ok(text) && text@ == render(expr),
            Parsed::Failed { kind, at } => result matches Err(error) && error.kind == kind
                && error.position == at && error.token@ == token_at(views(tokens@), at),
        },
{
    let mut parser = Parser::new(tokens);
    let expr = match parser.parse() {
        Ok(expr) => expr,
        Err(error) => {
            return Err(error);
        },
    };
    let mut printer = AstPrinter;
    Ok(printer.print(expr))
}

/// A recursive-descent parser over one token sequence.
///
/// The value of a number literal is its rendering, so the parser takes a number
/// token only where the library renders it. At a longer number the parse fails with
/// [`ParseErrorKind::LongNumber`] and hands the token back. The caller renders such
/// a number in double precision and puts a string token that carries the rendering
/// in its place: the grammar takes a string as it takes a number.
pub struct Parser {
    tokens: Vec<Token>,
    current: usize,
}

impl Parser {
    /// The token sequence.
    pub closed spec fn stream(&self) -> Seq<TokenView> {
        views(self.tokens@)
    }

    /// The index of the next token to read.
    pub closed spec fn cursor(&self) -> int {
        self.current as int
    }

    /// The sequence is terminated, and the cursor stands on one of its tokens.
    pub closed spec fn wf(&self) -> bool {
        &&& terminated(views(self.tokens@))
        &&& self.current < self.tokens.len() == self.tokens@.len()
    }

    /// What a well-formed parser holds: a terminated token sequence, and a cursor
    /// that stands on one of its tokens.
    pub proof fn lemma_wf(&self)
        requires
            self.wf(),
        ensures
            terminated(self.stream()),
            0 <= self.cursor() < self.stream().len(),
    {
    }

    /// What a parser function leaves behind: the sequence as it was, the cursor
    /// where the grammar stops, and the result that the grammar gives.
    pub open spec fn follows(
        &self,
        before: &Parser,
        result: Result<Expr, ParseError>,
        parsed: Parsed,
    ) -> bool {
        &&& self.wf()
        &&& self.stream() == before.stream()
        &&& self.cursor() == stop(parsed)
        &&& agrees(result, parsed, before.stream())
    }

    /// Tells whether `tokens` is a sequence that a parser takes: one whose last
    /// token is the end-of-input token.
    pub fn accepts(tokens: &Vec<Token>) -> (ok: bool)
        ensures
            ok == terminated(views(tokens@)),
    {
        let len: usize = tokens.len();
        len > 0 && tokens[len - 1].kind() == TokenKind::EOF
    }

    /// A parser at the start of `tokens`.
    pub fn new(tokens: Vec<Token>) -> (parser: Parser)
        requires
            terminated(views(tokens@)),
        ensures
            parser.wf(),
            parser.stream() == views(tokens@),
            parser.cursor() == 0,
    {
        Parser { tokens, current: 0 }
    }

    /// The index of the next token to read.
    pub fn position(&self) -> (position: usize)
        ensures
            position == self.cursor(),
    {
        self.current
    }

    /// Parses one expression from the cursor on.
    pub fn parse(&mut self) -> (result: Result<Expr, ParseError>)
        requires
            old(self).wf(),
        ensures
            final(self).follows(
                old(self),
                result,
                parse(old(self).stream(), old(self).cursor(), Rule::Equality),
            ),
    {
        return self.expression();
    }

    /// `expression → equality`
    fn expression(&mut self) -> (result: Result<Expr, ParseError>)
        requires
            old(self).wf(),
        ensures
            final(self).follows(
                old(self),
                result,
                parse(old(self).stream(), old(self).cursor(), Rule::Equality),
            ),
        decreases old(self).tokens.len() - old(self).current, 14nat,
    {
        return self.equality();
    }

    /// `equality → comparison ( ( "!=" | "==" ) comparison )*`
    fn equality(&mut self) -> (result: Result<Expr, ParseError>)
        requires
            old(self).wf(),
        ensures
            final(self).follows(
                old(self),
                result,
                parse(old(self).stream(), old(self).cursor(), Rule::Equality),
            ),
        decreases old(self).tokens.len() - old(self).current, 13nat,
    {
        self.left_associative(Rule::Equality)
    }

    /// `comparison → term ( ( ">" | ">=" | "<" | "<=" ) term )*`
    fn comparison(&mut self) -> (result: Result<Expr, ParseError>)
        requires
            old(self).wf(),
        ensures
            final(self).follows(
                old(self),
                result,
                parse(old(self).stream(), old(self).cursor(), Rule::Comparison),
            ),
        decreases old(self).tokens.len() - old(self).current, 10nat,
    {
        self.left_associative(Rule::Comparison)
    }

    /// `term → factor ( ( "-" | "+" ) factor )*`
    fn term(&mut self) -> (result: Result<Expr, ParseError>)
        requires
            old(self).wf(),
        ensures
            final(self).follows(
                old(self),
                result,
                parse(old(self).stream(), old(self).cursor(), Rule::Term),
            ),
        decreases old(self).tokens.len() - old(self).current, 7nat,
    {
        self.left_associative(Rule::Term)
    }

    /// `factor → unary ( ( "/" | "*" ) unary )*`
    fn factor(&mut self) -> (result: Result<Expr, ParseError>)
        requires
            old(self).wf(),
        ensures
            final(self).follows(
                old(self),
                result,
                parse(old(self).stream(), old(self).cursor(), Rule::Factor),
            ),
        decreases old(self).tokens.len() - old(self).current, 4nat,
    {
        self.left_associative(Rule::Factor)
    }

    /// An operand of the binary rule `rule`: an expression of the next tighter rule.
    fn operand(&mut self, rule: Rule) -> (result: Result<Expr, ParseError>)
        requires
            old(self).wf(),
            rule.is_binary(),
        ensures
            final(self).follows(
                old(self),
                result,
                parse(old(self).stream(), old(self).cursor(), rule.tighter()),
            ),
        decreases old(self).tokens.len() - old(self).current, 11 - 3 * rule.level(),
    {
        match rule {
            Rule::Equality => self.comparison(),
            Rule::Comparison => self.term(),
            Rule::Term => self.factor(),
            _ => self.unary(),
        }
    }

    /// A binary rule: one operand, then operators and operands as long as an
    /// operator of the rule follows. Each operator takes what was parsed before it
    /// as its left operand.
    fn left_associative(&mut self, rule: Rule) -> (result: Result<Expr, ParseError>)
        requires
            old(self).wf(),
            rule.is_binary(),
        ensures
            final(self).follows(
                old(self),
                result,
                parse(old(self).stream(), old(self).cursor(), rule),
            ),
        decreases old(self).tokens.len() - old(self).current, 12 - 3 * rule.level(),
    {
        let ghost tokens = self.stream();
        let ghost start = self.cursor();
        proof {
            lemma_parse_advances(tokens, start, rule.tighter());
        }
        let mut expr = match self.operand(rule) {
            Ok(expr) => expr,
            Err(error) => {
                return Err(error);
            },
        };
        loop
            invariant
                self.wf(),
                rule.is_binary(),
                self.stream() == tokens,
                tokens == old(self).stream(),
                start == old(self).cursor(),
                start < self.cursor(),
                tokens.len() == old(self).tokens.len(),
                parse(tokens, start, rule) == parse_rest(tokens, self.cursor(), rule, expr@),
            ensures
                parse(tokens, start, rule) == (Parsed::Done { expr: expr@, next: self.cursor() }),
            decreases tokens.len() - self.cursor(),
        {
            let ghost at = self.cursor();
            let ghost left = expr@;
            proof {
                lemma_operator_tokens(rule, token_at(tokens, at));
                lemma_parse_advances(tokens, at + 1, rule.tighter());
            }
            if !self.match_tokens(operators(rule)) {
                assert(parse_rest(tokens, at, rule, left) == (Parsed::Done { expr: left, next: at }));
                break;
            }
            let operator = self.previous();
            let right = match self.operand(rule) {
                Ok(right) => right,
                Err(error) => {
                    return Err(error);
                },
            };
            expr = Expr::Binary(Box::new(Binary { left: expr, operator, right }));
        }
        Ok(expr)
    }

    /// `unary → ( "!" | "-" ) unary | primary`
    fn unary(&mut self) -> (result: Result<Expr, ParseError>)
        requires
            old(self).wf(),
        ensures
            final(self).follows(
                old(self),
                result,
                parse(old(self).stream(), old(self).cursor(), Rule::Unary),
            ),
        decreases old(self).tokens.len() - old(self).current, 1nat,
    {
        let ghost tokens = self.stream();
        let ghost start = self.cursor();
        proof {
            lemma_operator_tokens(Rule::Unary, token_at(tokens, start));
            assert(parse(tokens, start, Rule::Unary) == parse_unary(tokens, start));
        }
        if self.match_tokens(operators(Rule::Unary)) {
            let operator = self.previous();
            let right = match self.unary() {
                Ok(right) => right,
                Err(error) => {
                    return Err(error);
                },
            };
            return Ok(Expr::Unary(Box::new(Unary { operator, right })));
        }
        return self.primary();
    }

    /// `primary → NUMBER | STRING | "true" | "false" | "nil" | "(" expression ")"`
    fn primary(&mut self) -> (result: Result<Expr, ParseError>)
        requires
            old(self).wf(),
        ensures
            final(self).follows(
                old(self),
                result,
                parse(old(self).stream(), old(self).cursor(), Rule::Primary),
            ),
        decreases old(self).tokens.len() - old(self).current, 0nat,
    {
        let ghost tokens = self.stream();
        let ghost start = self.cursor();
        let ghost token = token_at(tokens, start);
        proof {
            lemma_matches_one(token, TokenView::plain(TokenKind::False));
            lemma_matches_one(token, TokenView::plain(TokenKind::True));
            lemma_matches_one(token, TokenView::plain(TokenKind::Nil));
            lemma_matches_one(token, TokenView::plain(TokenKind::LeftParen));
            assert(parse(tokens, start, Rule::Primary) == parse_primary(tokens, start));
        }
        if self.match_tokens(only(Token::False)) {
            return Ok(Expr::Literal(Box::new(Literal { value: String::from_str("false") })));
        }
        if self.match_tokens(only(Token::True)) {
            return Ok(Expr::Literal(Box::new(Literal { value: String::from_str("true") })));
        }
        if self.match_tokens(only(Token::Nil)) {
            return Ok(Expr::Literal(Box::new(Literal { value: String::from_str("null") })));
        }
        if !self.peek().renders() {
            if self.peek().is_well_formed() {
                return Err(self.error(ParseErrorKind::LongNumber));
            }
            return Err(self.error(ParseErrorKind::InvalidNumber));
        }
        let number = Token::Number(String::from_str("0"));
        let string = Token::String(String::from_str(""));
        proof {
            lemma_matches_two(token, number@, string@);
        }
        if self.match_tokens(either(number, string)) {
            return Ok(Expr::Literal(Box::new(Literal { value: self.previous().literal() })));
        }
        if self.match_tokens(only(Token::LeftParen)) {
            proof {
                lemma_parse_advances(tokens, start + 1, Rule::Equality);
            }
            let expr = match self.expression() {
                Ok(expr) => expr,
                Err(error) => {
                    return Err(error);
                },
            };
            match self.consume(Token::RightParen, ParseErrorKind::ExpectRightParen) {
                Ok(_) => {},
                Err(error) => {
                    return Err(error);
                },
            }
            return Ok(Expr::Grouping(Box::new(Grouping { expression: expr })));
        }
        Err(self.error(ParseErrorKind::ExpectExpression))
    }

    /// Moves the cursor to where parsing can start again after an error: behind the
    /// token at the cursor, and on to the first position that is the end of the
    /// input, follows a `;`, or holds a token that starts a statement.
    pub fn synchronize(&mut self)
        requires
            old(self).wf(),
        ensures
            final(self).wf(),
            final(self).stream() == old(self).stream(),
            final(self).cursor() == synchronized(old(self).stream(), old(self).cursor()),
    {
        let ghost tokens = self.stream();
        let ghost start = self.cursor();
        self.advance();
        while !self.is_at_end()
            invariant
                self.wf(),
                self.stream() == tokens,
                tokens == old(self).stream(),
                start == old(self).cursor(),
                token_at(tokens, start).kind == TokenKind::EOF ==> self.cursor() == start,
                token_at(tokens, start).kind != TokenKind::EOF ==> self.cursor() > start
                    && synchronized(tokens, start) == next_boundary(tokens, self.cursor()),
            decreases tokens.len() - self.cursor(),
        {
            if self.previous_kind() == TokenKind::Semicolon {
                return ;
            }
            match self.peek().kind() {
                TokenKind::Class
                | TokenKind::Fun
                | TokenKind::Var
                | TokenKind::For
                | TokenKind::If
                | TokenKind::While
                | TokenKind::Print
                | TokenKind::Return => return ,
                _ => {
                    self.advance();
                },
            }
        }
    }

    /// Whether the token at `pos` can be consumed as `t`: it is not the end-of-input
    /// token, and it matches `t`.
    pub open spec fn consumable(tokens: Seq<TokenView>, pos: int, t: TokenView) -> bool {
        token_at(tokens, pos).kind != TokenKind::EOF && token_at(tokens, pos).same_type(t)
    }

    /// Reads the token at the cursor if it is not the end-of-input token and matches
    /// `t`, and returns it. Fails with `kind` otherwise, and leaves the cursor where
    /// it stands.
    fn consume(&mut self, t: Token, kind: ParseErrorKind) -> (result: Result<Token, ParseError>)
        requires
            old(self).wf(),
        ensures
            final(self).wf(),
            final(self).stream() == old(self).stream(),
            match result {
                Ok(token) => {
                    &&& Parser::consumable(old(self).stream(), old(self).cursor(), t@)
                    &&& token@ == token_at(old(self).stream(), old(self).cursor())
                    &&& final(self).cursor() == old(self).cursor() + 1
                },
                Err(error) => {
                    &&& !Parser::consumable(old(self).stream(), old(self).cursor(), t@)
                    &&& error.kind == kind
                    &&& error.position == old(self).cursor()
                    &&& error.token@ == token_at(old(self).stream(), old(self).cursor())
                    &&& final(self).cursor() == old(self).cursor()
                },
            },
    {
        if self.check(&t) {
            return Ok(self.advance());
        }
        Err(self.error(kind))
    }

    /// The failure of kind `kind` at the cursor.
    fn error(&self, kind: ParseErrorKind) -> (error: ParseError)
        requires
            self.wf(),
        ensures
            error.kind == kind,
            error.position == self.cursor(),
            error.token@ == token_at(self.stream(), self.cursor()),
    {
        ParseError { kind, token: self.peek().clone(), position: self.current }
    }

    /// Reads the token at the cursor if it matches one of `types`, and tells whether
    /// it did. The end-of-input token is never read.
    fn match_tokens(&mut self, types: Vec<Token>) -> (matched: bool)
        requires
            old(self).wf(),
        ensures
            final(self).wf(),
            final(self).tokens == old(self).tokens,
            matched == (token_at(old(self).stream(), old(self).cursor()).kind != TokenKind::EOF
                && token_at(old(self).stream(), old(self).cursor()).matches_any(views(types@))),
            final(self).cursor() == if matched {
                old(self).cursor() + 1
            } else {
                old(self).cursor()
            },
    {
        let ghost token = token_at(self.stream(), self.cursor());
        let mut i: usize = 0;
        while i < types.len()
            invariant
                self.wf(),
                self.tokens == old(self).tokens,
                self.current == old(self).current,
                i <= types.len(),
                token == token_at(self.stream(), self.cursor()),
                forall|j: int|
                    0 <= j < i ==> !(token.kind != TokenKind::EOF && token.same_type(
                        #[trigger] views(types@)[j],
                    )),
            decreases types.len() - i,
        {
            if self.check(&types[i]) {
                assert(token.same_type(views(types@)[i as int]));
                self.advance();
                return true;
            }
            i += 1;
        }
        return false;
    }

    /// Whether the token at the cursor matches `t`. The end-of-input token matches
    /// nothing.
    fn check(&self, t: &Token) -> (matched: bool)
        requires
            self.wf(),
        ensures
            matched == (token_at(self.stream(), self.cursor()).kind != TokenKind::EOF && token_at(
                self.stream(),
                self.cursor(),
            ).same_type(t@)),
    {
        if self.is_at_end() {
            return false;
        }
        self.peek().is_same_type(t)
    }

    /// Moves the cursor behind the token on which it stands, unless that is the
    /// end-of-input token, and returns the token before the cursor.
    fn advance(&mut self) -> (token: Token)
        requires
            old(self).wf(),
        ensures
            final(self).wf(),
            final(self).tokens == old(self).tokens,
            final(self).cursor() == if token_at(old(self).stream(), old(self).cursor()).kind
                == TokenKind::EOF {
                old(self).cursor()
            } else {
                old(self).cursor() + 1
            },
            final(self).cursor() > 0 ==> token@ == token_at(
                old(self).stream(),
                final(self).cursor() - 1,
            ),
    {
        if !self.is_at_end() {
            self.current += 1;
        }
        if self.current == 0 {
            return Token::EOF;
        }
        return self.previous();
    }

    /// Whether the cursor stands on the end-of-input token.
    fn is_at_end(&self) -> (at_end: bool)
        requires
            self.wf(),
        ensures
            at_end == (token_at(self.stream(), self.cursor()).kind == TokenKind::EOF),
    {
        match self.tokens[self.current] {
            Token::EOF => return true,
            _ => return false,
        }
    }

    /// The token at the cursor.
    fn peek(&self) -> (token: &Token)
        requires
            self.wf(),
        ensures
            token@ == token_at(self.stream(), self.cursor()),
    {
        return &self.tokens[self.current];
    }

    /// The token before the cursor.
    fn previous(&self) -> (token: Token)
        requires
            self.wf(),
            self.cursor() > 0,
        ensures
            token@ == token_at(self.stream(), self.cursor() - 1),
    {
        return self.tokens[self.current - 1].clone();
    }

    /// The kind of the token before the cursor.
    fn previous_kind(&self) -> (kind: TokenKind)
        requires
            self.wf(),
            self.cursor() > 0,
        ensures
            kind == token_at(self.stream(), self.cursor() - 1).kind,
    {
        self.tokens[self.current - 1].kind()
    }
}

} // verus!
