//! The token vocabulary: what the scanner produces and the parser consumes.
use crate::number::{canonical_text, is_decimal, is_decimal_text, rendering, renders, renders_text};
use vstd::prelude::*;
use vstd::string::*;

verus! {

/// The type tag of a token.
#[derive(Debug, Clone, Copy, PartialEq, Eq, Structural)]
pub enum TokenKind {
    // Single-character tokens.
    LeftParen,
    RightParen,
    LeftBrace,
    RightBrace,
    Comma,
    Dot,
    Minus,
    Plus,
    Semicolon,
    Slash,
    Star,
    // One or two character tokens.
    Bang,
    BangEqual,
    Equal,
    EqualEqual,
    Greater,
    GreaterEqual,
    Less,
    LessEqual,
    // Literals.
    Identifier,
    String,
    Number,
    // Keywords.
    And,
    Class,
    Else,
    False,
    Fun,
    For,
    If,
    Nil,
    Or,
    Print,
    Return,
    Super,
    This,
    True,
    Var,
    While,
    // End of input.
    EOF,
}

/// What a token is, as a mathematical value: its kind, and the text it carries.
/// Identifiers, strings and numbers carry text; every other token carries none.
pub struct TokenView {
    pub kind: TokenKind,
    pub text: Seq<char>,
}

/// One lexical unit.
#[derive(Debug, PartialEq, Eq)]
pub enum Token {
    // Single-character tokens.
    LeftParen,
    RightParen,
    LeftBrace,
    RightBrace,
    Comma,
    Dot,
    Minus,
    Plus,
    Semicolon,
    Slash,
    Star,
    // One or two character tokens.
    Bang,
    BangEqual,
    Equal,
    EqualEqual,
    Greater,
    GreaterEqual,
    Less,
    LessEqual,
    // Literals.
    Identifier(String),
    String(String),
    Number(String),
    // Keywords.
    And,
    Class,
    Else,
    False,
    Fun,
    For,
    If,
    Nil,
    Or,
    Print,
    Return,
    Super,
    This,
    True,
    Var,
    While,
    // End of input.
    EOF,
}

impl TokenKind {
    /// True of the three kinds whose tokens carry text.
    pub open spec fn carries_text(self) -> bool {
        self == TokenKind::Identifier || self == TokenKind::String || self == TokenKind::Number
    }

    /// The upper-case name under which a token of this kind is listed.
    pub open spec fn name_spec(self) -> Seq<char> {
        match self {
            TokenKind::LeftParen => "LEFT_PAREN"@,
            TokenKind::RightParen => "RIGHT_PAREN"@,
            TokenKind::LeftBrace => "LEFT_BRACE"@,
            TokenKind::RightBrace => "RIGHT_BRACE"@,
            TokenKind::Comma => "COMMA"@,
            TokenKind::Dot => "DOT"@,
            TokenKind::Minus => "MINUS"@,
            TokenKind::Plus => "PLUS"@,
            TokenKind::Semicolon => "SEMICOLON"@,
            TokenKind::Slash => "SLASH"@,
            TokenKind::Star => "STAR"@,
            TokenKind::Bang => "BANG"@,
            TokenKind::BangEqual => "BANG_EQUAL"@,
            TokenKind::Equal => "EQUAL"@,
            TokenKind::EqualEqual => "EQUAL_EQUAL"@,
            TokenKind::Greater => "GREATER"@,
            TokenKind::GreaterEqual => "GREATER_EQUAL"@,
            TokenKind::Less => "LESS"@,
            TokenKind::LessEqual => "LESS_EQUAL"@,
            TokenKind::Identifier => "IDENTIFIER"@,
            TokenKind::String => "STRING"@,
            TokenKind::Number => "NUMBER"@,
            TokenKind::And => "AND"@,
            TokenKind::Class => "CLASS"@,
            TokenKind::Else => "ELSE"@,
            TokenKind::False => "FALSE"@,
            TokenKind::Fun => "FUN"@,
            TokenKind::For => "FOR"@,
            TokenKind::If => "IF"@,
            TokenKind::Nil => "NIL"@,
            TokenKind::Or => "OR"@,
            TokenKind::Print => "PRINT"@,
            TokenKind::Return => "RETURN"@,
            TokenKind::Super => "SUPER"@,
            TokenKind::This => "THIS"@,
            TokenKind::True => "TRUE"@,
            TokenKind::Var => "VAR"@,
            TokenKind::While => "WHILE"@,
            TokenKind::EOF => "EOF"@,
        }
    }

    /// The source text of a token of this kind, for the kinds that have a fixed one.
    /// A token that carries text has no fixed lexeme, and the end of input has an
    /// empty one.
    pub open spec fn lexeme_spec(self) -> Seq<char> {
        match self {
            TokenKind::LeftParen => "("@,
            TokenKind::RightParen => ")"@,
            TokenKind::LeftBrace => "{"@,
            TokenKind::RightBrace => "}"@,
            TokenKind::Comma => ","@,
            TokenKind::Dot => "."@,
            TokenKind::Minus => "-"@,
            TokenKind::Plus => "+"@,
            TokenKind::Semicolon => ";"@,
            TokenKind::Slash => "/"@,
            TokenKind::Star => "*"@,
            TokenKind::Bang => "!"@,
            TokenKind::BangEqual => "!="@,
            TokenKind::Equal => "="@,
            TokenKind::EqualEqual => "=="@,
            TokenKind::Greater => ">"@,
            TokenKind::GreaterEqual => ">="@,
            TokenKind::Less => "<"@,
            TokenKind::LessEqual => "<="@,
            TokenKind::Identifier => ""@,
            TokenKind::String => ""@,
            TokenKind::Number => ""@,
            TokenKind::And => "and"@,
            TokenKind::Class => "class"@,
            TokenKind::Else => "else"@,
            TokenKind::False => "false"@,
            TokenKind::Fun => "fun"@,
            TokenKind::For => "for"@,
            TokenKind::If => "if"@,
            TokenKind::Nil => "nil"@,
            TokenKind::Or => "or"@,
            TokenKind::Print => "print"@,
            TokenKind::Return => "return"@,
            TokenKind::Super => "super"@,
            TokenKind::This => "this"@,
            TokenKind::True => "true"@,
            TokenKind::Var => "var"@,
            TokenKind::While => "while"@,
            TokenKind::EOF => ""@,
        }
    }

    /// The upper-case name under which a token of this kind is listed.
    pub fn name(self) -> (out: &'static str)
        ensures
            out@ == self.name_spec(),
    {
        match self {
            TokenKind::LeftParen => "LEFT_PAREN",
            TokenKind::RightParen => "RIGHT_PAREN",
            TokenKind::LeftBrace => "LEFT_BRACE",
            TokenKind::RightBrace => "RIGHT_BRACE",
            TokenKind::Comma => "COMMA",
            TokenKind::Dot => "DOT",
            TokenKind::Minus => "MINUS",
            TokenKind::Plus => "PLUS",
            TokenKind::Semicolon => "SEMICOLON",
            TokenKind::Slash => "SLASH",
            TokenKind::Star => "STAR",
            TokenKind::Bang => "BANG",
            TokenKind::BangEqual => "BANG_EQUAL",
            TokenKind::Equal => "EQUAL",
            TokenKind::EqualEqual => "EQUAL_EQUAL",
            TokenKind::Greater => "GREATER",
            TokenKind::GreaterEqual => "GREATER_EQUAL",
            TokenKind::Less => "LESS",
            TokenKind::LessEqual => "LESS_EQUAL",
            TokenKind::Identifier => "IDENTIFIER",
            TokenKind::String => "STRING",
            TokenKind::Number => "NUMBER",
            TokenKind::And => "AND",
            TokenKind::Class => "CLASS",
            TokenKind::Else => "ELSE",
            TokenKind::False => "FALSE",
            TokenKind::Fun => "FUN",
            TokenKind::For => "FOR",
            TokenKind::If => "IF",
            TokenKind::Nil => "NIL",
            TokenKind::Or => "OR",
            TokenKind::Print => "PRINT",
            TokenKind::Return => "RETURN",
            TokenKind::Super => "SUPER",
            TokenKind::This => "THIS",
            TokenKind::True => "TRUE",
            TokenKind::Var => "VAR",
            TokenKind::While => "WHILE",
            TokenKind::EOF => "EOF",
        }
    }

    /// The fixed source text of a token of this kind.
    pub fn lexeme(self) -> (out: &'static str)
        ensures
            out@ == self.lexeme_spec(),
    {
        match self {
            TokenKind::LeftParen => "(",
            TokenKind::RightParen => ")",
            TokenKind::LeftBrace => "{",
            TokenKind::RightBrace => "}",
            TokenKind::Comma => ",",
            TokenKind::Dot => ".",
            TokenKind::Minus => "-",
            TokenKind::Plus => "+",
            TokenKind::Semicolon => ";",
            TokenKind::Slash => "/",
            TokenKind::Star => "*",
            TokenKind::Bang => "!",
            TokenKind::BangEqual => "!=",
            TokenKind::Equal => "=",
            TokenKind::EqualEqual => "==",
            TokenKind::Greater => ">",
            TokenKind::GreaterEqual => ">=",
            TokenKind::Less => "<",
            TokenKind::LessEqual => "<=",
            TokenKind::Identifier => "",
            TokenKind::String => "",
            TokenKind::Number => "",
            TokenKind::And => "and",
            TokenKind::Class => "class",
            TokenKind::Else => "else",
            TokenKind::False => "false",
            TokenKind::Fun => "fun",
            TokenKind::For => "for",
            TokenKind::If => "if",
            TokenKind::Nil => "nil",
            TokenKind::Or => "or",
            TokenKind::Print => "print",
            TokenKind::Return => "return",
            TokenKind::Super => "super",
            TokenKind::This => "this",
            TokenKind::True => "true",
            TokenKind::Var => "var",
            TokenKind::While => "while",
            TokenKind::EOF => "",
        }
    }
}

impl TokenView {
    /// A token that carries no text.
    pub open spec fn plain(kind: TokenKind) -> TokenView {
        TokenView { kind, text: Seq::empty() }
    }

    /// The source text that the token stands for: the carried text of an identifier
    /// or a number, the carried text between double quotes for a string, and the
    /// fixed lexeme of the kind for every other token.
    pub open spec fn lexeme(self) -> Seq<char> {
        match self.kind {
            TokenKind::Identifier | TokenKind::Number => self.text,
            TokenKind::String => seq!['"'] + self.text + seq!['"'],
            _ => self.kind.lexeme_spec(),
        }
    }

    /// The literal value of the token as text: the carried text of a string, the
    /// rendering of a number, and `null` for every other token. A number that has
    /// no rendering here has no literal value here.
    pub open spec fn literal(self) -> Option<Seq<char>> {
        match self.kind {
            TokenKind::String => Some(self.text),
            TokenKind::Number => rendering(self.text),
            _ => Some("null"@),
        }
    }

    /// The line that lists the token with `literal` as its literal value: the name
    /// of its kind, its lexeme and the literal value, separated by single spaces.
    pub open spec fn line(self, literal: Seq<char>) -> Seq<char> {
        self.kind.name_spec() + seq![' '] + self.lexeme() + seq![' '] + literal
    }

    /// The line that lists the token, where the token has a literal value here.
    pub open spec fn stringify(self) -> Option<Seq<char>> {
        match self.literal() {
            Some(literal) => Some(self.line(literal)),
            None => None,
        }
    }

    /// Whether the token has a literal value here: every token has, but a number
    /// whose text is not decimal text of at most 15 digits. A longer number is for
    /// the caller to render in double precision.
    pub open spec fn renders(self) -> bool {
        self.kind == TokenKind::Number ==> renders(self.text)
    }

    /// A number token is well formed when its text is decimal text. Every other
    /// token is well formed.
    pub open spec fn well_formed(self) -> bool {
        self.kind == TokenKind::Number ==> is_decimal(self.text)
    }

    /// Whether two tokens match for the purposes of the grammar: they are of the
    /// same kind, and two identifiers also carry the same text. The text of a
    /// number or a string plays no part.
    pub open spec fn same_type(self, other: TokenView) -> bool {
        &&& self.kind == other.kind
        &&& self.kind == TokenKind::Identifier ==> self.text == other.text
    }

    /// Whether the token matches one of `types`.
    pub open spec fn matches_any(self, types: Seq<TokenView>) -> bool {
        exists|i: int| 0 <= i < types.len() && self.same_type(#[trigger] types[i])
    }
}

/// The tokens of a sequence as mathematical values.
pub open spec fn views(tokens: Seq<Token>) -> Seq<TokenView> {
    Seq::new(tokens.len(), |i: int| tokens[i]@)
}

/// To match one of one is to match it.
pub(crate) proof fn lemma_matches_one(token: TokenView, a: TokenView)
    ensures
        token.matches_any(seq![a]) <==> token.same_type(a),
{
    if token.same_type(a) {
        assert(token.same_type(seq![a][0]));
    }
}

/// To match one of two is to match the one or the other.
pub(crate) proof fn lemma_matches_two(token: TokenView, a: TokenView, b: TokenView)
    ensures
        token.matches_any(seq![a, b]) <==> token.same_type(a) || token.same_type(b),
{
    if token.same_type(a) {
        assert(token.same_type(seq![a, b][0]));
    }
    if token.same_type(b) {
        assert(token.same_type(seq![a, b][1]));
    }
}

impl View for Token {
    type V = TokenView;

    open spec fn view(&self) -> TokenView {
        TokenView { kind: self.kind_spec(), text: self.text_spec() }
    }
}

impl Clone for Token {
    fn clone(&self) -> (out: Token)
        ensures
            out == *self,
    {
        match self {
            Token::LeftParen => Token::LeftParen,
            Token::RightParen => Token::RightParen,
            Token::LeftBrace => Token::LeftBrace,
            Token::RightBrace => Token::RightBrace,
            Token::Comma => Token::Comma,
            Token::Dot => Token::Dot,
            Token::Minus => Token::Minus,
            Token::Plus => Token::Plus,
            Token::Semicolon => Token::Semicolon,
            Token::Slash => Token::Slash,
            Token::Star => Token::Star,
            Token::Bang => Token::Bang,
            Token::BangEqual => Token::BangEqual,
            Token::Equal => Token::Equal,
            Token::EqualEqual => Token::EqualEqual,
            Token::Greater => Token::Greater,
            Token::GreaterEqual => Token::GreaterEqual,
            Token::Less => Token::Less,
            Token::LessEqual => Token::LessEqual,
            Token::Identifier(text) => Token::Identifier(text.clone()),
            Token::String(text) => Token::String(text.clone()),
            Token::Number(text) => Token::Number(text.clone()),
            Token::And => Token::And,
            Token::Class => Token::Class,
            Token::Else => Token::Else,
            Token::False => Token::False,
            Token::Fun => Token::Fun,
            Token::For => Token::For,
            Token::If => Token::If,
            Token::Nil => Token::Nil,
            Token::Or => Token::Or,
            Token::Print => Token::Print,
            Token::Return => Token::Return,
            Token::Super => Token::Super,
            Token::This => Token::This,
            Token::True => Token::True,
            Token::Var => Token::Var,
            Token::While => Token::While,
            Token::EOF => Token::EOF,
        }
    }
}

impl Token {
    /// The kind of the token.
    pub open spec fn kind_spec(&self) -> TokenKind {
        match self {
            Token::LeftParen => TokenKind::LeftParen,
            Token::RightParen => TokenKind::RightParen,
            Token::LeftBrace => TokenKind::LeftBrace,
            Token::RightBrace => TokenKind::RightBrace,
            Token::Comma => TokenKind::Comma,
            Token::Dot => TokenKind::Dot,
            Token::Minus => TokenKind::Minus,
            Token::Plus => TokenKind::Plus,
            Token::Semicolon => TokenKind::Semicolon,
            Token::Slash => TokenKind::Slash,
            Token::Star => TokenKind::Star,
            Token::Bang => TokenKind::Bang,
            Token::BangEqual => TokenKind::BangEqual,
            Token::Equal => TokenKind::Equal,
            Token::EqualEqual => TokenKind::EqualEqual,
            Token::Greater => TokenKind::Greater,
            Token::GreaterEqual => TokenKind::GreaterEqual,
            Token::Less => TokenKind::Less,
            Token::LessEqual => TokenKind::LessEqual,
            Token::Identifier(_) => TokenKind::Identifier,
            Token::String(_) => TokenKind::String,
            Token::Number(_) => TokenKind::Number,
            Token::And => TokenKind::And,
            Token::Class => TokenKind::Class,
            Token::Else => TokenKind::Else,
            Token::False => TokenKind::False,
            Token::Fun => TokenKind::Fun,
            Token::For => TokenKind::For,
            Token::If => TokenKind::If,
            Token::Nil => TokenKind::Nil,
            Token::Or => TokenKind::Or,
            Token::Print => TokenKind::Print,
            Token::Return => TokenKind::Return,
            Token::Super => TokenKind::Super,
            Token::This => TokenKind::This,
            Token::True => TokenKind::True,
            Token::Var => TokenKind::Var,
            Token::While => TokenKind::While,
            Token::EOF => TokenKind::EOF,
        }
    }

    /// The text that the token carries.
    pub open spec fn text_spec(&self) -> Seq<char> {
        match self {
            Token::Identifier(text) | Token::String(text) | Token::Number(text) => text@,
            _ => Seq::empty(),
        }
    }

    /// See [`TokenView::well_formed`].
    pub open spec fn well_formed(&self) -> bool {
        self@.well_formed()
    }

    /// The kind of the token.
    pub fn kind(&self) -> (kind: TokenKind)
        ensures
            kind == self@.kind,
    {
        match self {
            Token::LeftParen => TokenKind::LeftParen,
            Token::RightParen => TokenKind::RightParen,
            Token::LeftBrace => TokenKind::LeftBrace,
            Token::RightBrace => TokenKind::RightBrace,
            Token::Comma => TokenKind::Comma,
            Token::Dot => TokenKind::Dot,
            Token::Minus => TokenKind::Minus,
            Token::Plus => TokenKind::Plus,
            Token::Semicolon => TokenKind::Semicolon,
            Token::Slash => TokenKind::Slash,
            Token::Star => TokenKind::Star,
            Token::Bang => TokenKind::Bang,
            Token::BangEqual => TokenKind::BangEqual,
            Token::Equal => TokenKind::Equal,
            Token::EqualEqual => TokenKind::EqualEqual,
            Token::Greater => TokenKind::Greater,
            Token::GreaterEqual => TokenKind::GreaterEqual,
            Token::Less => TokenKind::Less,
            Token::LessEqual => TokenKind::LessEqual,
            Token::Identifier(_) => TokenKind::Identifier,
            Token::String(_) => TokenKind::String,
            Token::Number(_) => TokenKind::Number,
            Token::And => TokenKind::And,
            Token::Class => TokenKind::Class,
            Token::Else => TokenKind::Else,
            Token::False => TokenKind::False,
            Token::Fun => TokenKind::Fun,
            Token::For => TokenKind::For,
            Token::If => TokenKind::If,
            Token::Nil => TokenKind::Nil,
            Token::Or => TokenKind::Or,
            Token::Print => TokenKind::Print,
            Token::Return => TokenKind::Return,
            Token::Super => TokenKind::Super,
            Token::This => TokenKind::This,
            Token::True => TokenKind::True,
            Token::Var => TokenKind::Var,
            Token::While => TokenKind::While,
            Token::EOF => TokenKind::EOF,
        }
    }

    /// Tells whether the token is well formed.
    pub fn is_well_formed(&self) -> (ok: bool)
        ensures
            ok == self.well_formed(),
    {
        match self {
            Token::Number(text) => is_decimal_text(text.as_str()),
            _ => true,
        }
    }

    /// Tells whether the token has a literal value here.
    pub fn renders(&self) -> (ok: bool)
        ensures
            ok == self@.renders(),
    {
        match self {
            Token::Number(text) => renders_text(text.as_str()),
            _ => true,
        }
    }

    /// The line that lists the token: `<KIND> <lexeme> <literal>`.
    pub fn stringify(&self) -> (out: String)
        requires
            self@.renders(),
        ensures
            self@.stringify() == Some(out@),
    {
        let literal = self.literal();
        self.stringify_as(literal.as_str())
    }

    /// The line that lists the token, or nothing where the token is a number that
    /// has no literal value here.
    pub fn try_stringify(&self) -> (out: Option<String>)
        ensures
            match out {
                Some(line) => self@.stringify() == Some(line@),
                None => self@.stringify() is None,
            },
    {
        if self.renders() {
            Some(self.stringify())
        } else {
            None
        }
    }

    /// The line that lists the token with `literal` as its literal value. This is
    /// for a number that the caller has rendered in double precision.
    pub fn stringify_as(&self, literal: &str) -> (out: String)
        ensures
            out@ == self@.line(literal@),
    {
        let mut out = String::from_str(self.kind().name());
        out.append(" ");
        let lexeme = self.lexeme();
        out.append(lexeme.as_str());
        out.append(" ");
        out.append(literal);
        proof {
            reveal_strlit(" ");
            assert(" "@ =~= seq![' ']);
        }
        out
    }

    /// The source text that the token stands for.
    pub fn lexeme(&self) -> (out: String)
        ensures
            out@ == self@.lexeme(),
    {
        match self {
            Token::Identifier(text) | Token::Number(text) => text.clone(),
            Token::String(text) => {
                let mut out = String::from_str("\"");
                out.append(text.as_str());
                out.append("\"");
                proof {
                    reveal_strlit("\"");
                    assert("\""@ =~= seq!['"']);
                }
                out
            },
            _ => String::from_str(self.kind().lexeme()),
        }
    }

    /// The literal value of the token as text.
    pub fn literal(&self) -> (out: String)
        requires
            self@.renders(),
        ensures
            self@.literal() == Some(out@),
    {
        match self {
            Token::String(text) => text.clone(),
            Token::Number(text) => canonical_text(text.as_str()),
            _ => String::from_str("null"),
        }
    }

    /// Tells whether two tokens match for the purposes of the grammar.
    pub fn is_same_type(&self, other: &Token) -> (same: bool)
        ensures
            same == self@.same_type(other@),
    {
        match (self, other) {
            (Token::Identifier(mine), Token::Identifier(theirs)) => *mine == *theirs,
            _ => self.kind() == other.kind(),
        }
    }
}

} // verus!
