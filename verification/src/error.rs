//! Lexical errors: what the scanner records, without stopping, when the
//! source text is not well formed.

use vstd::prelude::*;
use vstd::string::StringExecFns;
use crate::text::{decimal, push_decimal};

verus! {

/// What was wrong.
#[derive(Debug, Clone, Copy, PartialEq, Eq, Structural)]
pub enum LexErrorKind {
    /// The character starts no token and is no white space.
    UnexpectedChar(char),
    /// A numeral holds a second decimal point.
    MalformedNumber,
}

/// A lexical error and the line on which the offending character stands.
#[derive(Debug, Clone, Copy, PartialEq, Eq, Structural)]
pub struct LexError {
    pub kind: LexErrorKind,
    pub line: u64,
}

/// The mathematical value of a [`LexError`].
pub ghost struct LexErrorView {
    pub kind: LexErrorKind,
    pub line: nat,
}

impl View for LexError {
    type V = LexErrorView;

    open spec fn view(&self) -> LexErrorView {
        LexErrorView { kind: self.kind, line: self.line as nat }
    }
}

/// The values of the errors in `errors`.
pub open spec fn error_views(errors: Seq<LexError>) -> Seq<LexErrorView> {
    Seq::new(errors.len(), |i: int| errors[i]@)
}

impl LexErrorView {
    /// The error for the character `c`, which starts no token, on line `line`.
    pub open spec fn unexpected_char(c: char, line: nat) -> LexErrorView {
        LexErrorView { kind: LexErrorKind::UnexpectedChar(c), line }
    }

    /// The error for a decimal point too many on line `line`.
    pub open spec fn malformed_number(line: nat) -> LexErrorView {
        LexErrorView { kind: LexErrorKind::MalformedNumber, line }
    }

    /// The error in words.
    pub open spec fn message(self) -> Seq<char> {
        match self.kind {
            LexErrorKind::UnexpectedChar(c) => "unexpected char '"@.push(c) + "' at line "@
                + decimal(self.line),
            LexErrorKind::MalformedNumber => "multiple '.' in number"@,
        }
    }
}

impl LexError {
    /// The error in words: `unexpected char 'c' at line n` with the character
    /// and the line filled in, or `multiple '.' in number`.
    pub fn message(&self) -> (text: String)
        ensures
            text@ == self@.message(),
    {
        match self.kind {
            LexErrorKind::UnexpectedChar(c) => {
                let mut text = "unexpected char '".to_owned();
                text.push(c);
                text.append("' at line ");
                push_decimal(&mut text, self.line);
                text
            },
            LexErrorKind::MalformedNumber => "multiple '.' in number".to_owned(),
        }
    }
}

} // verus!
