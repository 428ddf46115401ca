//! The grammar of expressions, as functions of the token sequence.
//!
//! ```text
//! expression → equality
//! equality   → comparison ( ( "!=" | "==" ) comparison )*
//! comparison → term ( ( ">" | ">=" | "<" | "<=" ) term )*
//! term       → factor ( ( "-" | "+" ) factor )*
//! factor     → unary ( ( "/" | "*" ) unary )*
//! unary      → ( "!" | "-" ) unary | primary
//! primary    → NUMBER | STRING | "true" | "false" | "nil" | "(" expression ")"
//! ```
//!
//! [`parse`] says what the parser returns for each rule and each position;
//! [`produces`] says which trees the grammar gives to which tokens.
use crate::number::{is_decimal, rendering};
use crate::parser::expr::ExprView;
use crate::token::{TokenKind, TokenView};
use vstd::prelude::*;

verus! {

/// The rules of the grammar, from the loosest to the tightest.
#[derive(Debug, Clone, Copy, PartialEq, Eq, Structural)]
pub enum Rule {
    Equality,
    Comparison,
    Term,
    Factor,
    Unary,
    Primary,
}

/// Why a parse failed.
#[derive(Debug, Clone, Copy, PartialEq, Eq, Structural)]
pub enum ParseErrorKind {
    /// A token that starts no expression stands where an expression is due.
    ExpectExpression,
    /// The `)` that closes a group is missing.
    ExpectRightParen,
    /// A number token whose text is no decimal text.
    InvalidNumber,
    /// A number token with more digits than the library renders. Such a number is
    /// for the caller to render in double precision; a string token that carries
    /// the rendering stands for it in the token sequence.
    LongNumber,
}

/// What a parse yields: a tree and the position behind its last token, or a failure
/// and the position of the token that caused it.
pub enum Parsed {
    Done { expr: ExprView, next: int },
    Failed { kind: ParseErrorKind, at: int },
}

impl Rule {
    /// The rule that binds next tighter. The operands of a rule are parsed by it.
    pub open spec fn tighter(self) -> Rule {
        match self {
            Rule::Equality => Rule::Comparison,
            Rule::Comparison => Rule::Term,
            Rule::Term => Rule::Factor,
            Rule::Factor => Rule::Unary,
            Rule::Unary => Rule::Primary,
            Rule::Primary => Rule::Primary,
        }
    }

    /// How tightly the rule binds: 0 for equality, 5 for primary.
    pub open spec fn level(self) -> nat {
        match self {
            Rule::Equality => 0,
            Rule::Comparison => 1,
            Rule::Term => 2,
            Rule::Factor => 3,
            Rule::Unary => 4,
            Rule::Primary => 5,
        }
    }

    /// The four rules of the form `operand ( operator operand )*`.
    pub open spec fn is_binary(self) -> bool {
        self.level() <= 3
    }

    /// The operators of the rule: those that stand between the operands of a binary
    /// rule, and those that stand before the operand of the unary rule.
    pub open spec fn has_operator(self, kind: TokenKind) -> bool {
        match self {
            Rule::Equality => kind == TokenKind::BangEqual || kind == TokenKind::EqualEqual,
            Rule::Comparison => kind == TokenKind::Greater || kind == TokenKind::GreaterEqual
                || kind == TokenKind::Less || kind == TokenKind::LessEqual,
            Rule::Term => kind == TokenKind::Minus || kind == TokenKind::Plus,
            Rule::Factor => kind == TokenKind::Slash || kind == TokenKind::Star,
            Rule::Unary => kind == TokenKind::Bang || kind == TokenKind::Minus,
            Rule::Primary => false,
        }
    }
}

impl Rule {
    /// The operators of the rule as tokens, in the order in which the parser tries
    /// them.
    pub open spec fn operator_tokens(self) -> Seq<TokenView> {
        match self {
            Rule::Equality => seq![
                TokenView::plain(TokenKind::BangEqual),
                TokenView::plain(TokenKind::EqualEqual),
            ],
            Rule::Comparison => seq![
                TokenView::plain(TokenKind::Greater),
                TokenView::plain(TokenKind::GreaterEqual),
                TokenView::plain(TokenKind::Less),
                TokenView::plain(TokenKind::LessEqual),
            ],
            Rule::Term => seq![
                TokenView::plain(TokenKind::Minus),
                TokenView::plain(TokenKind::Plus),
            ],
            Rule::Factor => seq![
                TokenView::plain(TokenKind::Slash),
                TokenView::plain(TokenKind::Star),
            ],
            Rule::Unary => seq![
                TokenView::plain(TokenKind::Bang),
                TokenView::plain(TokenKind::Minus),
            ],
            Rule::Primary => Seq::empty(),
        }
    }
}

/// A token matches one of the operator tokens of a rule exactly when its kind is
/// that of an operator of the rule.
pub(crate) proof fn lemma_operator_tokens(rule: Rule, token: TokenView)
    ensures
        token.matches_any(rule.operator_tokens()) <==> rule.has_operator(token.kind),
{
    let types = rule.operator_tokens();
    if rule.has_operator(token.kind) {
        let i = if rule == Rule::Comparison {
            if token.kind == TokenKind::Greater {
                0int
            } else if token.kind == TokenKind::GreaterEqual {
                1int
            } else if token.kind == TokenKind::Less {
                2int
            } else {
                3int
            }
        } else if token.kind == types[0].kind {
            0int
        } else {
            1int
        };
        assert(token.same_type(types[i]));
    }
}

/// The token at `pos`, or the end-of-input token where `pos` is outside the sequence.
pub open spec fn token_at(tokens: Seq<TokenView>, pos: int) -> TokenView {
    if 0 <= pos < tokens.len() {
        tokens[pos]
    } else {
        TokenView::plain(TokenKind::EOF)
    }
}

/// The tree of a literal.
pub open spec fn literal(value: Seq<char>) -> ExprView {
    ExprView::Literal { value }
}

/// A primary expression at `pos`: a literal, or an expression in parentheses.
pub open spec fn parse_primary(tokens: Seq<TokenView>, pos: int) -> Parsed
    decreases tokens.len() - pos, 0nat,
{
    let token = token_at(tokens, pos);
    match token.kind {
        TokenKind::False => Parsed::Done { expr: literal("false"@), next: pos + 1 },
        TokenKind::True => Parsed::Done { expr: literal("true"@), next: pos + 1 },
        TokenKind::Nil => Parsed::Done { expr: literal("null"@), next: pos + 1 },
        TokenKind::String => Parsed::Done { expr: literal(token.text), next: pos + 1 },
        TokenKind::Number => match rendering(token.text) {
            Some(value) => Parsed::Done { expr: literal(value), next: pos + 1 },
            None => Parsed::Failed {
                kind: if is_decimal(token.text) {
                    ParseErrorKind::LongNumber
                } else {
                    ParseErrorKind::InvalidNumber
                },
                at: pos,
            },
        },
        TokenKind::LeftParen => match parse(tokens, pos + 1, Rule::Equality) {
            Parsed::Done { expr, next } => if token_at(tokens, next).kind
                == TokenKind::RightParen {
                Parsed::Done { expr: ExprView::Grouping { inner: Box::new(expr) }, next: next + 1 }
            } else {
                Parsed::Failed { kind: ParseErrorKind::ExpectRightParen, at: next }
            },
            failed => failed,
        },
        _ => Parsed::Failed { kind: ParseErrorKind::ExpectExpression, at: pos },
    }
}

/// A unary expression at `pos`: any number of `!` and `-`, then a primary expression.
pub open spec fn parse_unary(tokens: Seq<TokenView>, pos: int) -> Parsed
    decreases tokens.len() - pos, 1nat,
{
    let operator = token_at(tokens, pos);
    if Rule::Unary.has_operator(operator.kind) {
        match parse_unary(tokens, pos + 1) {
            Parsed::Done { expr, next } => Parsed::Done {
                expr: ExprView::Unary { operator, right: Box::new(expr) },
                next,
            },
            failed => failed,
        }
    } else {
        parse_primary(tokens, pos)
    }
}

/// What the parser returns for `rule` at `pos`.
///
/// A binary rule parses one operand by the next tighter rule and goes on with
/// [`parse_rest`]. (It goes on only where the operand ends behind `pos` and inside
/// the sequence. That is always so, see [`lemma_parse_advances`]; the test serves
/// the termination argument.)
pub open spec fn parse(tokens: Seq<TokenView>, pos: int, rule: Rule) -> Parsed
    decreases tokens.len() - pos, 7 - rule.level(),
{
    match rule {
        Rule::Primary => parse_primary(tokens, pos),
        Rule::Unary => parse_unary(tokens, pos),
        _ => match parse(tokens, pos, rule.tighter()) {
            Parsed::Done { expr, next } => if pos < next <= tokens.len() {
                parse_rest(tokens, next, rule, expr)
            } else {
                Parsed::Done { expr, next }
            },
            failed => failed,
        },
    }
}

/// The rest of a binary rule at `pos`, with `left` parsed so far: while an operator
/// of the rule stands at the position, it and the operand behind it are folded into
/// `left`, which so becomes the left operand of the new node.
pub open spec fn parse_rest(tokens: Seq<TokenView>, pos: int, rule: Rule, left: ExprView) -> Parsed
    decreases tokens.len() - pos, 0nat,
{
    let operator = token_at(tokens, pos);
    if rule.is_binary() && rule.has_operator(operator.kind) && 0 <= pos < tokens.len() {
        match parse(tokens, pos + 1, rule.tighter()) {
            Parsed::Done { expr, next } => if pos < next <= tokens.len() {
                parse_rest(
                    tokens,
                    next,
                    rule,
                    ExprView::Binary { left: Box::new(left), operator, right: Box::new(expr) },
                )
            } else {
                Parsed::Done { expr, next }
            },
            failed => failed,
        }
    } else {
        Parsed::Done { expr: left, next: pos }
    }
}

/// An expression at `pos`.
pub open spec fn parse_expression(tokens: Seq<TokenView>, pos: int) -> Parsed {
    parse(tokens, pos, Rule::Equality)
}

} // verus!

verus! {

/// The position at which a parse stopped: behind the tree, or at the token that
/// caused the failure.
pub open spec fn stop(parsed: Parsed) -> int {
    match parsed {
        Parsed::Done { next, .. } => next,
        Parsed::Failed { at, .. } => at,
    }
}

/// A token sequence that the parser takes: its last token is the end-of-input token.
pub open spec fn terminated(tokens: Seq<TokenView>) -> bool {
    tokens.len() > 0 && tokens.last().kind == TokenKind::EOF
}

/// A parse stops behind its start and inside the sequence where it succeeds, and at
/// or behind its start where it fails. In a terminated sequence it stops before the
/// end: the last token is never consumed.
pub proof fn lemma_parse_advances(tokens: Seq<TokenView>, pos: int, rule: Rule)
    requires
        0 <= pos,
    ensures
        parse(tokens, pos, rule) is Done ==> pos < stop(parse(tokens, pos, rule)) <= tokens.len(),
        parse(tokens, pos, rule) is Failed ==> pos <= stop(parse(tokens, pos, rule)),
        terminated(tokens) && pos < tokens.len() ==> stop(parse(tokens, pos, rule))
            < tokens.len(),
    decreases tokens.len() - pos, 7 - rule.level(),
{
    match rule {
        Rule::Primary => {
            lemma_primary_advances(tokens, pos);
        },
        Rule::Unary => {
            lemma_unary_advances(tokens, pos);
        },
        _ => {
            lemma_parse_advances(tokens, pos, rule.tighter());
            match parse(tokens, pos, rule.tighter()) {
                Parsed::Done { expr, next } => {
                    lemma_rest_advances(tokens, next, rule, expr);
                },
                _ => {},
            }
        },
    }
}

/// The same of a primary expression.
proof fn lemma_primary_advances(tokens: Seq<TokenView>, pos: int)
    requires
        0 <= pos,
    ensures
        parse_primary(tokens, pos) is Done ==> pos < stop(parse_primary(tokens, pos))
            <= tokens.len(),
        parse_primary(tokens, pos) is Failed ==> pos <= stop(parse_primary(tokens, pos)),
        terminated(tokens) && pos < tokens.len() ==> stop(parse_primary(tokens, pos))
            < tokens.len(),
    decreases tokens.len() - pos, 0nat,
{
    if token_at(tokens, pos).kind == TokenKind::LeftParen {
        lemma_parse_advances(tokens, pos + 1, Rule::Equality);
    }
}

/// The same of a unary expression.
proof fn lemma_unary_advances(tokens: Seq<TokenView>, pos: int)
    requires
        0 <= pos,
    ensures
        parse_unary(tokens, pos) is Done ==> pos < stop(parse_unary(tokens, pos)) <= tokens.len(),
        parse_unary(tokens, pos) is Failed ==> pos <= stop(parse_unary(tokens, pos)),
        terminated(tokens) && pos < tokens.len() ==> stop(parse_unary(tokens, pos))
            < tokens.len(),
    decreases tokens.len() - pos, 1nat,
{
    if Rule::Unary.has_operator(token_at(tokens, pos).kind) {
        lemma_unary_advances(tokens, pos + 1);
    } else {
        lemma_primary_advances(tokens, pos);
    }
}

/// The rest of a binary rule stops at or behind its start and inside the sequence.
proof fn lemma_rest_advances(tokens: Seq<TokenView>, pos: int, rule: Rule, left: ExprView)
    requires
        0 <= pos <= tokens.len(),
    ensures
        pos <= stop(parse_rest(tokens, pos, rule, left)),
        parse_rest(tokens, pos, rule, left) is Done ==> stop(parse_rest(tokens, pos, rule, left))
            <= tokens.len(),
        terminated(tokens) && pos < tokens.len() ==> stop(parse_rest(tokens, pos, rule, left))
            < tokens.len(),
    decreases tokens.len() - pos, 0nat,
{
    let operator = token_at(tokens, pos);
    if rule.is_binary() && rule.has_operator(operator.kind) && 0 <= pos < tokens.len() {
        lemma_parse_advances(tokens, pos + 1, rule.tighter());
        match parse(tokens, pos + 1, rule.tighter()) {
            Parsed::Done { expr, next } => {
                lemma_rest_advances(
                    tokens,
                    next,
                    rule,
                    ExprView::Binary { left: Box::new(left), operator, right: Box::new(expr) },
                );
            },
            _ => {},
        }
    }
}

/// The kinds of token with which a statement starts.
pub open spec fn starts_statement(kind: TokenKind) -> bool {
    ||| kind == TokenKind::Class
    ||| kind == TokenKind::Fun
    ||| kind == TokenKind::Var
    ||| kind == TokenKind::For
    ||| kind == TokenKind::If
    ||| kind == TokenKind::While
    ||| kind == TokenKind::Print
    ||| kind == TokenKind::Return
}

/// A position at which parsing can start again after an error: the end of the
/// input, the position behind a `;`, or a token that starts a statement.
pub open spec fn is_boundary(tokens: Seq<TokenView>, pos: int) -> bool {
    ||| token_at(tokens, pos).kind == TokenKind::EOF
    ||| token_at(tokens, pos - 1).kind == TokenKind::Semicolon
    ||| starts_statement(token_at(tokens, pos).kind)
}

/// The first boundary at or behind `pos`.
pub open spec fn next_boundary(tokens: Seq<TokenView>, pos: int) -> int
    decreases tokens.len() - pos,
{
    if 0 <= pos < tokens.len() && !is_boundary(tokens, pos) {
        next_boundary(tokens, pos + 1)
    } else {
        pos
    }
}

/// Where the parser stands after it has synchronized at `pos`: where it stood, at
/// the end of the input; else at the first boundary behind `pos`.
pub open spec fn synchronized(tokens: Seq<TokenView>, pos: int) -> int {
    if token_at(tokens, pos).kind == TokenKind::EOF {
        pos
    } else {
        next_boundary(tokens, pos + 1)
    }
}

} // verus!

verus! {

/// The value of the literal that `token` is, as it is held in the tree: `false`,
/// `true` and `null` for the three keywords, the text of a string, and the
/// rendering of a number. No value for any other token, nor for a number that has
/// no rendering here.
pub open spec fn literal_value(token: TokenView) -> Option<Seq<char>> {
    match token.kind {
        TokenKind::False => Some("false"@),
        TokenKind::True => Some("true"@),
        TokenKind::Nil => Some("null"@),
        TokenKind::String => Some(token.text),
        TokenKind::Number => rendering(token.text),
        _ => None,
    }
}

/// The grammar itself: whether `rule` gives the tree `expr` to exactly the tokens
/// `tokens`.
///
/// A binary rule gives a binary node whose operator is one of its own, whose left
/// operand it gives itself and whose right operand the next tighter rule gives; and
/// it gives whatever the next tighter rule gives. So the operands of an operator
/// never hold a looser operator outside parentheses, and a chain of operators of one
/// rule leans to the left.
pub open spec fn produces(rule: Rule, expr: ExprView, tokens: Seq<TokenView>) -> bool
    decreases expr, 6 - rule.level(),
{
    match rule {
        Rule::Primary => match expr {
            ExprView::Literal { value } => tokens.len() == 1 && literal_value(tokens[0]) == Some(
                value,
            ),
            ExprView::Grouping { inner } => {
                &&& tokens.len() >= 2
                &&& tokens[0].kind == TokenKind::LeftParen
                &&& tokens.last().kind == TokenKind::RightParen
                &&& produces(Rule::Equality, *inner, tokens.subrange(1, tokens.len() - 1))
            },
            _ => false,
        },
        Rule::Unary => {
            ||| match expr {
                ExprView::Unary { operator, right } => {
                    &&& tokens.len() >= 1
                    &&& tokens[0] == operator
                    &&& Rule::Unary.has_operator(operator.kind)
                    &&& produces(Rule::Unary, *right, tokens.skip(1))
                },
                _ => false,
            }
            ||| produces(Rule::Primary, expr, tokens)
        },
        _ => {
            ||| match expr {
                ExprView::Binary { left, operator, right } => {
                    &&& rule.has_operator(operator.kind)
                    &&& exists|i: int|
                        {
                            &&& 0 <= i < tokens.len()
                            &&& tokens[i] == operator
                            &&& produces(rule, *left, #[trigger] tokens.take(i))
                            &&& produces(rule.tighter(), *right, tokens.skip(i + 1))
                        }
                },
                _ => false,
            }
            ||| produces(rule.tighter(), expr, tokens)
        },
    }
}

/// How tightly a binary operator binds: the level of the binary rule that has it.
pub open spec fn binary_level(kind: TokenKind) -> Option<nat> {
    if Rule::Equality.has_operator(kind) {
        Some(0nat)
    } else if Rule::Comparison.has_operator(kind) {
        Some(1nat)
    } else if Rule::Term.has_operator(kind) {
        Some(2nat)
    } else if Rule::Factor.has_operator(kind) {
        Some(3nat)
    } else {
        None
    }
}

/// Whether a parse by `rule` goes on at a token of kind `kind`: the token is a
/// binary operator of the rule or of a tighter one.
pub open spec fn extends(rule: Rule, kind: TokenKind) -> bool {
    binary_level(kind) matches Some(level) && level >= rule.level()
}

} // verus!
