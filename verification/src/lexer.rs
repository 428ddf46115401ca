//! The scanner: from source text to tokens.
pub mod diagnostic;
pub mod laws;
pub mod rules;

use crate::lexer::diagnostic::{last_code, Diagnostic, LexError};
use crate::lexer::laws::{law_scan_ends_input, lemma_step_token};
use crate::lexer::rules::{
    all_well_formed, diagnostics_from, ends_input, lemma_run_len, lemma_run_len_unique,
    lemma_step_advances, line_at, line_breaks, number_end, run_len, step, tokens_from, word_token,
    Run,
};
use crate::text::{chars_of, push_bytes};
use crate::token::{views, Token, TokenKind, TokenView};
use vstd::prelude::*;
use vstd::string::*;

verus! {

/// A scanner over one source text.
///
/// The text is read as bytes: each byte is one character, whatever the encoding.
/// [`Lexer::tokenize`] scans from the cursor to the end of the text; the tokens and
/// the reports gather in the scanner.
pub struct Lexer {
    input: Vec<u8>,
    tokens: Vec<Token>,
    /// Where the token that is being scanned starts.
    position: usize,
    /// The next byte to read.
    read_position: usize,
    /// The line feeds read so far: the cursor stands on the line after them.
    line_breaks: usize,
    diagnostics: Vec<Diagnostic>,
    /// The code of the last error reported, or 0 where none was.
    error_code: i32,
}

/// The tokens of a step: one or none.
spec fn emitted(token: Option<TokenView>) -> Seq<TokenView> {
    match token {
        Some(token) => seq![token],
        None => Seq::empty(),
    }
}

/// The reports of a step that starts at `at`: one or none.
spec fn reported_at(src: Seq<u8>, at: int, error: Option<LexError>) -> Seq<Diagnostic> {
    match error {
        Some(error) => seq![Diagnostic { line: line_at(src, at) as usize, error }],
        None => Seq::empty(),
    }
}

/// A line of a listing as text, where there is one.
pub open spec fn listed(line: Option<String>) -> Option<Seq<char>> {
    match line {
        Some(line) => Some(line@),
        None => None,
    }
}

/// No more line feeds than bytes.
proof fn lemma_line_breaks_bound(src: Seq<u8>, upto: int)
    requires
        0 <= upto,
    ensures
        line_breaks(src, upto) <= upto,
    decreases upto,
{
    if upto > 0 {
        lemma_line_breaks_bound(src, upto - 1);
    }
}

/// Bytes that are no line feeds leave the line as it is.
proof fn lemma_same_line(src: Seq<u8>, from: int, to: int)
    requires
        0 <= from <= to <= src.len(),
        forall|i: int| from <= i < to ==> #[trigger] src[i] != '\n' as u8,
    ensures
        line_breaks(src, to) == line_breaks(src, from),
    decreases to - from,
{
    if from < to {
        lemma_same_line(src, from, to - 1);
    }
}

/// Tells whether `text` is `word`.
fn is_word(text: &String, word: &str) -> (same: bool)
    ensures
        same == (text@ == word@),
{
    *text == String::from_str(word)
}

/// The token for a word: the keyword that it is, or else an identifier.
fn word(text: String) -> (token: Token)
    ensures
        token@ == word_token(text@),
{
    if is_word(&text, "and") {
        Token::And
    } else if is_word(&text, "class") {
        Token::Class
    } else if is_word(&text, "else") {
        Token::Else
    } else if is_word(&text, "false") {
        Token::False
    } else if is_word(&text, "for") {
        Token::For
    } else if is_word(&text, "fun") {
        Token::Fun
    } else if is_word(&text, "if") {
        Token::If
    } else if is_word(&text, "nil") {
        Token::Nil
    } else if is_word(&text, "or") {
        Token::Or
    } else if is_word(&text, "print") {
        Token::Print
    } else if is_word(&text, "return") {
        Token::Return
    } else if is_word(&text, "super") {
        Token::Super
    } else if is_word(&text, "this") {
        Token::This
    } else if is_word(&text, "true") {
        Token::True
    } else if is_word(&text, "var") {
        Token::Var
    } else if is_word(&text, "while") {
        Token::While
    } else {
        Token::Identifier(text)
    }
}

/// Tells whether `b` belongs to `run`.
fn belongs(run: Run, b: u8) -> (yes: bool)
    ensures
        yes == run.holds(b),
{
    match run {
        Run::Digits => '0' as u8 <= b && b <= '9' as u8,
        Run::Word => ('a' as u8 <= b && b <= 'z' as u8) || ('A' as u8 <= b && b <= 'Z' as u8) || b
            == '_' as u8,
        Run::Comment => b != '\n' as u8,
        Run::Text => b != '"' as u8,
    }
}

impl Lexer {
    /// The source text, as bytes.
    pub closed spec fn source(&self) -> Seq<u8> {
        self.input@
    }

    /// The offset of the next byte to read.
    pub closed spec fn offset(&self) -> int {
        self.read_position as int
    }

    /// The tokens scanned so far.
    pub closed spec fn scanned(&self) -> Seq<TokenView> {
        views(self.tokens@)
    }

    /// The reports made so far.
    pub closed spec fn reported(&self) -> Seq<Diagnostic> {
        self.diagnostics@
    }

    /// The code of the last error reported, or 0 where none was.
    pub closed spec fn code(&self) -> i32 {
        self.error_code
    }

    /// The cursor stands inside the text.
    spec fn in_bounds(&self) -> bool {
        self.position <= self.read_position <= self.input.len() == self.input@.len()
    }

    /// The cursor stands inside the text, and the line count is that of the bytes
    /// before the cursor.
    pub closed spec fn wf(&self) -> bool {
        &&& self.in_bounds()
        &&& self.line_breaks == line_breaks(self.input@, self.read_position as int)
        &&& all_well_formed(views(self.tokens@))
    }

    /// What a well-formed scanner holds: a cursor that stands inside the text or at
    /// its end, and tokens of which every number is decimal text.
    pub proof fn lemma_wf(&self)
        requires
            self.wf(),
        ensures
            0 <= self.offset() <= self.source().len(),
            all_well_formed(self.scanned()),
    {
    }

    /// A scanner at the start of `input`, with nothing scanned and nothing reported.
    pub fn new(input: String) -> (lexer: Lexer)
        ensures
            lexer.wf(),
            lexer.source() == vstd::utf8::encode_utf8(input@),
            lexer.offset() == 0,
            lexer.scanned() == Seq::<TokenView>::empty(),
            lexer.reported() == Seq::<Diagnostic>::empty(),
            lexer.code() == 0,
    {
        let lex = Lexer {
            input: input.as_str().as_bytes_vec(),
            tokens: Vec::new(),
            position: 0,
            read_position: 0,
            line_breaks: 0,
            diagnostics: Vec::new(),
            error_code: 0,
        };
        assert(lex.scanned() =~= Seq::<TokenView>::empty());
        lex
    }

    /// The tokens scanned so far.
    pub fn tokens(&self) -> (tokens: &Vec<Token>)
        ensures
            views(tokens@) == self.scanned(),
            self.wf() ==> all_well_formed(views(tokens@)),
    {
        &self.tokens
    }

    /// The reports made so far, in the order of the text.
    pub fn diagnostics(&self) -> (reports: &Vec<Diagnostic>)
        ensures
            reports@ == self.reported(),
    {
        &self.diagnostics
    }

    /// The code of the last error reported, or 0 where none was: 65 for an unexpected
    /// character, 80 for an unterminated string.
    pub fn error_code(&self) -> (code: i32)
        ensures
            code == self.code(),
    {
        self.error_code
    }

    /// Gives up the scanner for its tokens.
    pub fn into_tokens(self) -> (tokens: Vec<Token>)
        ensures
            views(tokens@) == self.scanned(),
            self.wf() ==> all_well_formed(views(tokens@)),
    {
        self.tokens
    }

    /// What a scan from the cursor of `before` to the end of the text leaves behind:
    /// the tokens of the rest of the text behind those scanned before, with the
    /// end-of-input token as the last; the reports on the rest of the text behind
    /// those made before; and the code of the last report.
    pub open spec fn scanned_on(&self, before: &Lexer) -> bool {
        &&& self.wf()
        &&& self.source() == before.source()
        &&& self.offset() == self.source().len()
        &&& self.scanned() == before.scanned() + tokens_from(before.source(), before.offset())
        &&& self.reported() == before.reported() + diagnostics_from(
            before.source(),
            before.offset(),
        )
        &&& self.code() == last_code(
            before.code(),
            diagnostics_from(before.source(), before.offset()),
        )
    }

    /// Scans from the cursor to the end of the text, and appends the end-of-input
    /// token. On a fresh scanner this yields the tokens of the whole text, of which
    /// the last, and no other, is the end-of-input token.
    pub fn tokenize(&mut self)
        requires
            old(self).wf(),
        ensures
            final(self).scanned_on(old(self)),
            old(self).scanned().len() == 0 ==> ends_input(final(self).scanned()),
    {
        let ghost src = self.input@;
        let ghost all_tokens = views(self.tokens@) + tokens_from(src, self.read_position as int);
        let ghost all_reports = self.diagnostics@ + diagnostics_from(
            src,
            self.read_position as int,
        );
        let ghost code = last_code(
            self.error_code,
            diagnostics_from(src, self.read_position as int),
        );
        while !self.is_at_end()
            invariant
                self.wf(),
                self.input@ == src,
                views(self.tokens@) + tokens_from(src, self.read_position as int) == all_tokens,
                self.diagnostics@ + diagnostics_from(src, self.read_position as int)
                    == all_reports,
                last_code(self.error_code, diagnostics_from(src, self.read_position as int))
                    == code,
            decreases self.input@.len() - self.read_position,
        {
            self.position = self.read_position;
            let ghost at = self.read_position as int;
            let ghost before = views(self.tokens@);
            let ghost reports = self.diagnostics@;
            proof {
                lemma_step_advances(src, at);
            }
            self.scan_token();
            proof {
                let s = step(src, at);
                let rest = tokens_from(src, s.next);
                assert((before + emitted(s.token)) + rest =~= before + (emitted(s.token) + rest));
                assert(emitted(s.token) + rest =~= tokens_from(src, at));
                let later = diagnostics_from(src, s.next);
                let now = reported_at(src, at, s.error);
                assert((reports + now) + later =~= reports + (now + later));
                assert(now + later =~= diagnostics_from(src, at));
            }
        }
        self.add_token(Token::EOF);
        proof {
            law_scan_ends_input(src, old(self).read_position as int);
            let sentinel = seq![TokenView::plain(TokenKind::EOF)];
            assert(tokens_from(src, self.read_position as int) =~= sentinel);
            assert(diagnostics_from(src, self.read_position as int) =~= Seq::<Diagnostic>::empty());
            assert(all_reports =~= self.diagnostics@);
            assert(views(self.tokens@) =~= all_tokens);
            assert(all_well_formed(views(self.tokens@)));
        }
    }

    /// Scans as [`Lexer::tokenize`] does, and lists all the tokens scanned, one line
    /// for each. The line of a number that has no literal value here is left out,
    /// for the caller to list it with [`Token::stringify_as`].
    pub fn print_tokens(&mut self) -> (lines: Vec<Option<String>>)
        requires
            old(self).wf(),
        ensures
            final(self).scanned_on(old(self)),
            old(self).scanned().len() == 0 ==> ends_input(final(self).scanned()),
            lines@.len() == final(self).scanned().len(),
            forall|i: int|
                0 <= i < lines@.len() ==> listed(#[trigger] lines@[i])
                    == final(self).scanned()[i].stringify(),
    {
        self.tokenize();
        let mut lines: Vec<Option<String>> = Vec::new();
        let mut i: usize = 0;
        while i < self.tokens.len()
            invariant
                self.wf(),
                i <= self.tokens.len(),
                lines@.len() == i,
                forall|j: int|
                    0 <= j < i ==> listed(#[trigger] lines@[j]) == views(
                        self.tokens@,
                    )[j].stringify(),
            decreases self.tokens.len() - i,
        {
            lines.push(self.tokens[i].try_stringify());
            i += 1;
        }
        lines
    }

    /// One step of the scanner: reads the token, the blank, the comment or the
    /// unexpected character that starts at the cursor.
    fn scan_token(&mut self)
        requires
            old(self).wf(),
            old(self).position == old(self).read_position,
            old(self).read_position < old(self).input@.len(),
        ensures
            final(self).wf(),
            final(self).input@ == old(self).input@,
            final(self).read_position == step(old(self).input@, old(self).read_position as int).next,
            views(final(self).tokens@) == views(old(self).tokens@) + emitted(
                step(old(self).input@, old(self).read_position as int).token,
            ),
            final(self).diagnostics@ == old(self).diagnostics@ + reported_at(
                old(self).input@,
                old(self).read_position as int,
                step(old(self).input@, old(self).read_position as int).error,
            ),
            final(self).error_code == last_code(
                old(self).error_code,
                reported_at(
                    old(self).input@,
                    old(self).read_position as int,
                    step(old(self).input@, old(self).read_position as int).error,
                ),
            ),
    {
        let ghost src = self.input@;
        let ghost at = self.read_position as int;
        proof {
            lemma_line_breaks_bound(src, at);
        }
        let c = self.next_char();
        match c as char {
            '(' => self.add_token(Token::LeftParen),
            ')' => self.add_token(Token::RightParen),
            '{' => self.add_token(Token::LeftBrace),
            '}' => self.add_token(Token::RightBrace),
            ',' => self.add_token(Token::Comma),
            '.' => self.add_token(Token::Dot),
            '-' => self.add_token(Token::Minus),
            '+' => self.add_token(Token::Plus),
            ';' => self.add_token(Token::Semicolon),
            '*' => self.add_token(Token::Star),
            '"' => self.string(),
            '!' => match self.match_next('=' as u8) {
                true => self.add_token(Token::BangEqual),
                false => self.add_token(Token::Bang),
            },
            '=' => match self.match_next('=' as u8) {
                true => self.add_token(Token::EqualEqual),
                false => self.add_token(Token::Equal),
            },
            '<' => match self.match_next('=' as u8) {
                true => self.add_token(Token::LessEqual),
                false => self.add_token(Token::Less),
            },
            '>' => match self.match_next('=' as u8) {
                true => self.add_token(Token::GreaterEqual),
                false => self.add_token(Token::Greater),
            },
            '/' => match self.match_next('/' as u8) {
                true => {
                    self.advance_run(Run::Comment);
                    proof {
                        lemma_run_len(src, at + 2, Run::Comment);
                    }
                },
                false => {
                    self.add_token(Token::Slash);
                },
            },
            ' ' | '\r' | '\t' => (),
            '\n' => {
                self.line_breaks += 1;
            },
            _ => if belongs(Run::Digits, c) {
                self.number()
            } else if belongs(Run::Word, c) {
                self.identifier()
            } else {
                let line: usize = self.line_breaks + 1;
                self.report(line, LexError::UnexpectedCharacter(c as char))
            },
        };
        proof {
            let s = step(src, at);
            lemma_step_token(src, at);
            assert(all_well_formed(views(old(self).tokens@) + emitted(s.token)));
            if c != '\n' as u8 && c != '"' as u8 {
                assert forall|i: int| at <= i < s.next implies #[trigger] src[i] != '\n' as u8 by {
                    lemma_run_len(src, at + 1, Run::Digits);
                    lemma_run_len(src, at + 1, Run::Word);
                    if at + 2 <= src.len() {
                        lemma_run_len(src, at + 2, Run::Comment);
                    }
                    let whole = at + 1 + run_len(src, at + 1, Run::Digits);
                    if whole + 1 <= src.len() {
                        lemma_run_len(src, whole + 1, Run::Digits);
                    }
                }
                lemma_step_advances(src, at);
                lemma_same_line(src, at, s.next);
            }
        }
    }

    /// A string literal, whose opening quote has just been read.
    fn string(&mut self)
        requires
            old(self).in_bounds(),
            old(self).position + 1 == old(self).read_position,
            old(self).input@[old(self).position as int] == '"' as u8,
            old(self).line_breaks == line_breaks(old(self).input@, old(self).position as int),
            all_well_formed(views(old(self).tokens@)),
        ensures
            final(self).wf(),
            final(self).input@ == old(self).input@,
            final(self).read_position == step(old(self).input@, old(self).position as int).next,
            views(final(self).tokens@) == views(old(self).tokens@) + emitted(
                step(old(self).input@, old(self).position as int).token,
            ),
            final(self).diagnostics@ == old(self).diagnostics@ + reported_at(
                old(self).input@,
                old(self).position as int,
                step(old(self).input@, old(self).position as int).error,
            ),
            final(self).error_code == last_code(
                old(self).error_code,
                reported_at(
                    old(self).input@,
                    old(self).position as int,
                    step(old(self).input@, old(self).position as int).error,
                ),
            ),
    {
        let ghost src = self.input@;
        let ghost at = self.position as int;
        proof {
            lemma_line_breaks_bound(src, at);
        }
        let starting_line: usize = self.line_breaks + 1;
        while self.peek() != '"' as u8 && !self.is_at_end()
            invariant
                self.in_bounds(),
                self.input@ == src,
                self.position == at,
                at < self.read_position,
                self.tokens == old(self).tokens,
                self.diagnostics == old(self).diagnostics,
                self.error_code == old(self).error_code,
                self.line_breaks == line_breaks(src, self.read_position as int),
                forall|i: int| at < i < self.read_position ==> Run::Text.holds(#[trigger] src[i]),
            decreases src.len() - self.read_position,
        {
            proof {
                lemma_line_breaks_bound(src, self.read_position as int);
            }
            if self.peek() == '\n' as u8 {
                self.line_breaks += 1;
            }
            self.next_char();
        }
        proof {
            lemma_run_len_unique(src, at + 1, Run::Text, (self.read_position - at - 1) as nat);
        }
        if self.is_at_end() {
            self.report(starting_line, LexError::UnterminatedString);
            return ;
        }
        self.next_char();
        let mut value = String::new();
        push_bytes(&mut value, &self.input, self.position + 1, self.read_position - 1);
        self.add_token(Token::String(value));
        assert(all_well_formed(views(self.tokens@)));
    }

    /// A number literal, whose first digit has just been read.
    fn number(&mut self)
        requires
            old(self).in_bounds(),
            old(self).position + 1 == old(self).read_position,
        ensures
            final(self).in_bounds(),
            final(self).input@ == old(self).input@,
            final(self).line_breaks == old(self).line_breaks,
            final(self).diagnostics == old(self).diagnostics,
            final(self).error_code == old(self).error_code,
            final(self).read_position == number_end(old(self).input@, old(self).position as int),
            views(final(self).tokens@) == views(old(self).tokens@).push(
                TokenView {
                    kind: TokenKind::Number,
                    text: chars_of(
                        old(self).input@.subrange(
                            old(self).position as int,
                            number_end(old(self).input@, old(self).position as int),
                        ),
                    ),
                },
            ),
    {
        self.advance_run(Run::Digits);
        proof {
            lemma_run_len(self.input@, self.position + 1, Run::Digits);
        }
        if self.peek() == '.' as u8 && belongs(Run::Digits, self.peek_next()) {
            self.next_char();
            self.advance_run(Run::Digits);
            proof {
                lemma_run_len(self.input@, self.read_position as int, Run::Digits);
            }
        }
        let mut value = String::new();
        push_bytes(&mut value, &self.input, self.position, self.read_position);
        self.add_token(Token::Number(value))
    }

    /// A keyword or an identifier, whose first character has just been read.
    fn identifier(&mut self)
        requires
            old(self).in_bounds(),
            old(self).position + 1 == old(self).read_position,
        ensures
            final(self).in_bounds(),
            final(self).input@ == old(self).input@,
            final(self).line_breaks == old(self).line_breaks,
            final(self).diagnostics == old(self).diagnostics,
            final(self).error_code == old(self).error_code,
            final(self).read_position == old(self).read_position + run_len(
                old(self).input@,
                old(self).read_position as int,
                Run::Word,
            ),
            views(final(self).tokens@) == views(old(self).tokens@).push(
                word_token(
                    chars_of(
                        old(self).input@.subrange(
                            old(self).position as int,
                            old(self).read_position + run_len(
                                old(self).input@,
                                old(self).read_position as int,
                                Run::Word,
                            ),
                        ),
                    ),
                ),
            ),
    {
        self.advance_run(Run::Word);
        proof {
            lemma_run_len(self.input@, self.position + 1, Run::Word);
        }
        let mut value = String::new();
        push_bytes(&mut value, &self.input, self.position, self.read_position);
        self.add_token(word(value))
    }

    /// Reads on to the end of the run that starts at the cursor.
    fn advance_run(&mut self, run: Run)
        requires
            old(self).in_bounds(),
        ensures
            final(self).in_bounds(),
            final(self).input@ == old(self).input@,
            final(self).position == old(self).position,
            final(self).line_breaks == old(self).line_breaks,
            final(self).tokens == old(self).tokens,
            final(self).diagnostics == old(self).diagnostics,
            final(self).error_code == old(self).error_code,
            final(self).read_position == old(self).read_position + run_len(
                old(self).input@,
                old(self).read_position as int,
                run,
            ),
    {
        let ghost from = self.read_position as int;
        while !self.is_at_end() && belongs(run, self.peek())
            invariant
                self.in_bounds(),
                self.input@ == old(self).input@,
                self.position == old(self).position,
                self.line_breaks == old(self).line_breaks,
                self.tokens == old(self).tokens,
                self.diagnostics == old(self).diagnostics,
                self.error_code == old(self).error_code,
                from <= self.read_position,
                forall|i: int| from <= i < self.read_position ==> run.holds(#[trigger] self.input@[i]),
            decreases self.input@.len() - self.read_position,
        {
            self.next_char();
        }
        proof {
            lemma_run_len_unique(self.input@, from, run, (self.read_position - from) as nat);
        }
    }

    /// The byte at the cursor, or 0 at the end of the text.
    fn peek(&self) -> (b: u8)
        requires
            self.in_bounds(),
        ensures
            b == if self.read_position < self.input@.len() {
                self.input@[self.read_position as int]
            } else {
                0u8
            },
    {
        if self.is_at_end() {
            return 0;
        }
        self.input[self.read_position]
    }

    /// The byte behind the cursor, or 0 where the text ends before it.
    fn peek_next(&self) -> (b: u8)
        requires
            self.in_bounds(),
        ensures
            b == if self.read_position + 1 < self.input@.len() {
                self.input@[self.read_position + 1]
            } else {
                0u8
            },
    {
        if self.input.len() - self.read_position <= 1 {
            return 0;
        }
        return self.input[self.read_position + 1];
    }

    /// Appends a token.
    fn add_token(&mut self, tok: Token)
        ensures
            final(self).input == old(self).input,
            final(self).position == old(self).position,
            final(self).read_position == old(self).read_position,
            final(self).line_breaks == old(self).line_breaks,
            final(self).diagnostics == old(self).diagnostics,
            final(self).error_code == old(self).error_code,
            final(self).tokens@ == old(self).tokens@.push(tok),
            views(final(self).tokens@) == views(old(self).tokens@).push(tok@),
    {
        self.tokens.push(tok);
        assert(views(self.tokens@) =~= views(old(self).tokens@).push(tok@));
    }

    /// Whether the cursor stands at the end of the text.
    fn is_at_end(&self) -> (at_end: bool)
        ensures
            at_end == (self.read_position >= self.input@.len()),
    {
        self.read_position >= self.input.len()
    }

    /// Reads the byte at the cursor.
    fn next_char(&mut self) -> (b: u8)
        requires
            old(self).in_bounds(),
            old(self).read_position < old(self).input@.len(),
        ensures
            b == old(self).input@[old(self).read_position as int],
            final(self).in_bounds(),
            final(self).input == old(self).input,
            final(self).position == old(self).position,
            final(self).read_position == old(self).read_position + 1,
            final(self).line_breaks == old(self).line_breaks,
            final(self).tokens == old(self).tokens,
            final(self).diagnostics == old(self).diagnostics,
            final(self).error_code == old(self).error_code,
    {
        let temp = self.input[self.read_position];
        self.read_position += 1;
        temp
    }

    /// Reads the byte at the cursor if it is `expected`, and tells whether it was.
    fn match_next(&mut self, expected: u8) -> (matched: bool)
        requires
            old(self).in_bounds(),
        ensures
            matched == (old(self).read_position < old(self).input@.len() && old(self).input@[old(
                self,
            ).read_position as int] == expected),
            final(self).in_bounds(),
            final(self).input == old(self).input,
            final(self).position == old(self).position,
            final(self).read_position == if matched {
                old(self).read_position + 1
            } else {
                old(self).read_position as int
            },
            final(self).line_breaks == old(self).line_breaks,
            final(self).tokens == old(self).tokens,
            final(self).diagnostics == old(self).diagnostics,
            final(self).error_code == old(self).error_code,
    {
        if self.is_at_end() {
            return false;
        }
        if self.input[self.read_position] != expected {
            return false;
        }
        self.read_position += 1;
        return true;
    }

    /// Records an error found on `line`.
    fn report(&mut self, line: usize, error: LexError)
        ensures
            final(self).input == old(self).input,
            final(self).position == old(self).position,
            final(self).read_position == old(self).read_position,
            final(self).line_breaks == old(self).line_breaks,
            final(self).tokens == old(self).tokens,
            final(self).diagnostics@ == old(self).diagnostics@.push(Diagnostic { line, error }),
            final(self).error_code == error.code_spec(),
    {
        self.diagnostics.push(Diagnostic { line, error });
        self.error_code = error.code();
    }
}

} // verus!
