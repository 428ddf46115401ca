//! What the scanner reports when the source text breaks a lexical rule.
use crate::text::{decimal, push_decimal};
use vstd::prelude::*;
use vstd::string::*;

verus! {

/// The two lexical errors.
#[derive(Debug, Clone, Copy, PartialEq, Eq, Structural)]
pub enum LexError {
    /// A character that starts no token.
    UnexpectedCharacter(char),
    /// A string literal whose closing quote is missing.
    UnterminatedString,
}

/// One report of the scanner: an error, and the line on which it was found.
#[derive(Debug, Clone, Copy, PartialEq, Eq, Structural)]
pub struct Diagnostic {
    pub line: usize,
    pub error: LexError,
}

impl LexError {
    /// The code that tells the two errors apart.
    pub open spec fn code_spec(self) -> i32 {
        match self {
            LexError::UnexpectedCharacter(_) => 65,
            LexError::UnterminatedString => 80,
        }
    }

    /// What the report says after the line.
    pub open spec fn describe(self) -> Seq<char> {
        match self {
            LexError::UnexpectedCharacter(c) => "Unexpected character: "@.push(c),
            LexError::UnterminatedString => "Unterminated String"@,
        }
    }

    /// The code that tells the two errors apart: 65 for an unexpected character,
    /// 80 for an unterminated string.
    pub fn code(self) -> (code: i32)
        ensures
            code == self.code_spec(),
    {
        match self {
            LexError::UnexpectedCharacter(_) => 65,
            LexError::UnterminatedString => 80,
        }
    }
}

/// The code of the last of `reports`, or `before` where there is none.
pub open spec fn last_code(before: i32, reports: Seq<Diagnostic>) -> i32 {
    if reports.len() == 0 {
        before
    } else {
        reports.last().error.code_spec()
    }
}

impl Diagnostic {
    /// The text of the report: `[line <n>] Error: <what>`.
    pub open spec fn message_spec(self) -> Seq<char> {
        "[line "@ + decimal(self.line as nat) + "] Error: "@ + self.error.describe()
    }

    /// The text of the report.
    pub fn message(&self) -> (out: String)
        ensures
            out@ == self.message_spec(),
    {
        let mut out = String::from_str("[line ");
        push_decimal(&mut out, self.line);
        out.append("] Error: ");
        match self.error {
            LexError::UnexpectedCharacter(c) => {
                out.append("Unexpected character: ");
                out.push(c);
            },
            LexError::UnterminatedString => {
                out.append("Unterminated String");
            },
        }
        out
    }
}

} // verus!
