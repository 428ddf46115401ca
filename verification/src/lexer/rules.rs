//! The lexical rules, as functions of the source bytes.
//!
//! [`step`] says what the scanner does with the bytes at one offset; [`tokens_from`]
//! and [`diagnostics_from`] chain the steps to the end of the text.
use crate::lexer::diagnostic::{Diagnostic, LexError};
use crate::text::chars_of;
use crate::token::{TokenKind, TokenView};
use vstd::prelude::*;

verus! {

/// An ASCII decimal digit.
pub open spec fn is_digit_byte(b: u8) -> bool {
    '0' as u8 <= b <= '9' as u8
}

/// An ASCII letter or an underscore.
pub open spec fn is_word_byte(b: u8) -> bool {
    ||| 'a' as u8 <= b <= 'z' as u8
    ||| 'A' as u8 <= b <= 'Z' as u8
    ||| b == '_' as u8
}

/// The runs of bytes that the scanner consumes as a whole.
#[derive(Debug, Clone, Copy, PartialEq, Eq, Structural)]
pub enum Run {
    /// Decimal digits.
    Digits,
    /// Letters and underscores.
    Word,
    /// The rest of the line: everything up to a line feed.
    Comment,
    /// The body of a string: everything up to a double quote.
    Text,
}

impl Run {
    /// Whether `b` belongs to the run.
    pub open spec fn holds(self, b: u8) -> bool {
        match self {
            Run::Digits => is_digit_byte(b),
            Run::Word => is_word_byte(b),
            Run::Comment => b != '\n' as u8,
            Run::Text => b != '"' as u8,
        }
    }
}

/// The length of the longest run that starts at `from`.
pub open spec fn run_len(src: Seq<u8>, from: int, run: Run) -> nat
    decreases src.len() - from,
{
    if 0 <= from < src.len() && run.holds(src[from]) {
        1 + run_len(src, from + 1, run)
    } else {
        0
    }
}

/// The number of line feeds among the first `upto` bytes.
pub open spec fn line_breaks(src: Seq<u8>, upto: int) -> nat
    decreases upto,
{
    if upto <= 0 {
        0
    } else {
        line_breaks(src, upto - 1) + if upto <= src.len() && src[upto - 1] == '\n' as u8 {
            1nat
        } else {
            0nat
        }
    }
}

/// The line on which the byte at `at` stands. Lines are counted from 1.
pub open spec fn line_at(src: Seq<u8>, at: int) -> nat {
    1 + line_breaks(src, at)
}

/// The reserved word that `text` is, if it is one.
pub open spec fn keyword(text: Seq<char>) -> Option<TokenKind> {
    if text == "and"@ {
        Some(TokenKind::And)
    } else if text == "class"@ {
        Some(TokenKind::Class)
    } else if text == "else"@ {
        Some(TokenKind::Else)
    } else if text == "false"@ {
        Some(TokenKind::False)
    } else if text == "for"@ {
        Some(TokenKind::For)
    } else if text == "fun"@ {
        Some(TokenKind::Fun)
    } else if text == "if"@ {
        Some(TokenKind::If)
    } else if text == "nil"@ {
        Some(TokenKind::Nil)
    } else if text == "or"@ {
        Some(TokenKind::Or)
    } else if text == "print"@ {
        Some(TokenKind::Print)
    } else if text == "return"@ {
        Some(TokenKind::Return)
    } else if text == "super"@ {
        Some(TokenKind::Super)
    } else if text == "this"@ {
        Some(TokenKind::This)
    } else if text == "true"@ {
        Some(TokenKind::True)
    } else if text == "var"@ {
        Some(TokenKind::Var)
    } else if text == "while"@ {
        Some(TokenKind::While)
    } else {
        None
    }
}

/// What one step of the scanner does: where it stops, the token it emits, and the
/// error it reports.
pub struct Step {
    pub next: int,
    pub token: Option<TokenView>,
    pub error: Option<LexError>,
}

/// A step that emits a token without text.
pub open spec fn emit(next: int, kind: TokenKind) -> Step {
    Step { next, token: Some(TokenView::plain(kind)), error: None }
}

/// A step that emits nothing.
pub open spec fn skip(next: int) -> Step {
    Step { next, token: None, error: None }
}

/// Whether the byte at `at` exists and is the character `c`.
pub open spec fn follows(src: Seq<u8>, at: int, c: char) -> bool {
    0 <= at < src.len() && src[at] == c as u8
}

/// An operator of one character that becomes another operator when `=` follows it.
pub open spec fn one_or_two(src: Seq<u8>, at: int, two: TokenKind, one: TokenKind) -> Step {
    if follows(src, at + 1, '=') {
        emit(at + 2, two)
    } else {
        emit(at + 1, one)
    }
}

/// A string literal: from the opening quote at `at` through the next quote. The
/// token carries what stands between the two, as it is. Where no quote follows,
/// the rest of the text is consumed and the string is reported as unterminated.
pub open spec fn string_step(src: Seq<u8>, at: int) -> Step {
    let close = at + 1 + run_len(src, at + 1, Run::Text);
    if close < src.len() {
        Step {
            next: close + 1,
            token: Some(
                TokenView { kind: TokenKind::String, text: chars_of(src.subrange(at + 1, close)) },
            ),
            error: None,
        }
    } else {
        Step { next: close, token: None, error: Some(LexError::UnterminatedString) }
    }
}

/// Where the number that starts at `at` ends: after the longest run of digits, and,
/// where a point and a digit follow it, after the longest run of digits behind that
/// point.
pub open spec fn number_end(src: Seq<u8>, at: int) -> int {
    let whole = at + 1 + run_len(src, at + 1, Run::Digits);
    if follows(src, whole, '.') && whole + 1 < src.len() && is_digit_byte(src[whole + 1]) {
        whole + 1 + run_len(src, whole + 1, Run::Digits)
    } else {
        whole
    }
}

/// A number literal. The token carries the matched text.
pub open spec fn number_step(src: Seq<u8>, at: int) -> Step {
    let end = number_end(src, at);
    Step {
        next: end,
        token: Some(TokenView { kind: TokenKind::Number, text: chars_of(src.subrange(at, end)) }),
        error: None,
    }
}

/// The token for a word: the keyword that it is, or else an identifier that carries
/// it.
pub open spec fn word_token(text: Seq<char>) -> TokenView {
    match keyword(text) {
        Some(kind) => TokenView::plain(kind),
        None => TokenView { kind: TokenKind::Identifier, text },
    }
}

/// A keyword or an identifier: the longest run of letters and underscores.
pub open spec fn word_step(src: Seq<u8>, at: int) -> Step {
    let end = at + 1 + run_len(src, at + 1, Run::Word);
    Step { next: end, token: Some(word_token(chars_of(src.subrange(at, end)))), error: None }
}

/// One step of the scanner, on the byte at `at`.
pub open spec fn step(src: Seq<u8>, at: int) -> Step
    recommends
        0 <= at < src.len(),
{
    let c = src[at];
    match c as char {
        '(' => emit(at + 1, TokenKind::LeftParen),
        ')' => emit(at + 1, TokenKind::RightParen),
        '{' => emit(at + 1, TokenKind::LeftBrace),
        '}' => emit(at + 1, TokenKind::RightBrace),
        ',' => emit(at + 1, TokenKind::Comma),
        '.' => emit(at + 1, TokenKind::Dot),
        '-' => emit(at + 1, TokenKind::Minus),
        '+' => emit(at + 1, TokenKind::Plus),
        ';' => emit(at + 1, TokenKind::Semicolon),
        '*' => emit(at + 1, TokenKind::Star),
        '"' => string_step(src, at),
        '!' => one_or_two(src, at, TokenKind::BangEqual, TokenKind::Bang),
        '=' => one_or_two(src, at, TokenKind::EqualEqual, TokenKind::Equal),
        '<' => one_or_two(src, at, TokenKind::LessEqual, TokenKind::Less),
        '>' => one_or_two(src, at, TokenKind::GreaterEqual, TokenKind::Greater),
        '/' => if follows(src, at + 1, '/') {
            skip(at + 2 + run_len(src, at + 2, Run::Comment))
        } else {
            emit(at + 1, TokenKind::Slash)
        },
        ' ' | '\r' | '\t' | '\n' => skip(at + 1),
        _ => if is_digit_byte(c) {
            number_step(src, at)
        } else if is_word_byte(c) {
            word_step(src, at)
        } else {
            Step {
                next: at + 1,
                token: None,
                error: Some(LexError::UnexpectedCharacter(c as char)),
            }
        },
    }
}

/// A run ends inside the text, every byte of it belongs to it, and the byte behind
/// it, if there is one, does not.
pub proof fn lemma_run_len(src: Seq<u8>, from: int, run: Run)
    requires
        0 <= from <= src.len(),
    ensures
        from + run_len(src, from, run) <= src.len(),
        forall|i: int| from <= i < from + run_len(src, from, run) ==> run.holds(#[trigger] src[i]),
        from + run_len(src, from, run) < src.len() ==> !run.holds(
            src[from + run_len(src, from, run)],
        ),
    decreases src.len() - from,
{
    if from < src.len() && run.holds(src[from]) {
        lemma_run_len(src, from + 1, run);
    }
}

/// The length of a run is the only `n` for which the `n` bytes from `from` on belong
/// to the run and the byte behind them, if there is one, does not.
pub proof fn lemma_run_len_unique(src: Seq<u8>, from: int, run: Run, n: nat)
    requires
        0 <= from,
        from + n <= src.len(),
        forall|i: int| from <= i < from + n ==> run.holds(#[trigger] src[i]),
        from + n < src.len() ==> !run.holds(src[from + n]),
    ensures
        run_len(src, from, run) == n,
    decreases n,
{
    if n > 0 {
        assert(run.holds(src[from]));
        lemma_run_len_unique(src, from + 1, run, (n - 1) as nat);
    }
}

/// A step consumes at least one byte and stops inside the text.
pub proof fn lemma_step_advances(src: Seq<u8>, at: int)
    requires
        0 <= at < src.len(),
    ensures
        at < step(src, at).next <= src.len(),
{
    lemma_run_len(src, at + 1, Run::Text);
    lemma_run_len(src, at + 1, Run::Digits);
    lemma_run_len(src, at + 1, Run::Word);
    if at + 2 <= src.len() {
        lemma_run_len(src, at + 2, Run::Comment);
    }
    let whole = at + 1 + run_len(src, at + 1, Run::Digits);
    if whole + 1 <= src.len() {
        lemma_run_len(src, whole + 1, Run::Digits);
    }
}

/// The tokens that the scanner emits from offset `at` to the end of the text, with
/// the end-of-input token as the last.
pub open spec fn tokens_from(src: Seq<u8>, at: int) -> Seq<TokenView>
    decreases src.len() - at,
{
    if 0 <= at < src.len() {
        let s = step(src, at);
        proof {
            lemma_step_advances(src, at);
        }
        match s.token {
            Some(token) => seq![token] + tokens_from(src, s.next),
            None => tokens_from(src, s.next),
        }
    } else {
        seq![TokenView::plain(TokenKind::EOF)]
    }
}

/// The reports that the scanner makes from offset `at` to the end of the text, in
/// the order of the text.
pub open spec fn diagnostics_from(src: Seq<u8>, at: int) -> Seq<Diagnostic>
    decreases src.len() - at,
{
    if 0 <= at < src.len() {
        let s = step(src, at);
        proof {
            lemma_step_advances(src, at);
        }
        match s.error {
            Some(error) => seq![Diagnostic { line: line_at(src, at) as usize, error }]
                + diagnostics_from(src, s.next),
            None => diagnostics_from(src, s.next),
        }
    } else {
        Seq::empty()
    }
}

/// The tokens of a whole text.
pub open spec fn scan(src: Seq<u8>) -> Seq<TokenView> {
    tokens_from(src, 0)
}

/// The reports on a whole text.
pub open spec fn scan_diagnostics(src: Seq<u8>) -> Seq<Diagnostic> {
    diagnostics_from(src, 0)
}

/// A token sequence ends the input when it is not empty, its last token is the
/// end-of-input token, and no other token of it is.
pub open spec fn ends_input(tokens: Seq<TokenView>) -> bool {
    &&& tokens.len() > 0
    &&& tokens.last().kind == TokenKind::EOF
    &&& forall|i: int| 0 <= i < tokens.len() - 1 ==> (#[trigger] tokens[i]).kind != TokenKind::EOF
}

/// Every token of a sequence is well formed.
pub open spec fn all_well_formed(tokens: Seq<TokenView>) -> bool {
    forall|i: int| 0 <= i < tokens.len() ==> (#[trigger] tokens[i]).well_formed()
}

} // verus!
