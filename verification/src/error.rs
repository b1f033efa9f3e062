//! Why a text is not an expression.

use vstd::prelude::*;

verus! {

/// The reason for which a text was rejected.
#[derive(Clone, Copy, Debug, PartialEq, Eq, Structural)]
pub enum ParseErrorKind {
    /// A character that starts no token.
    UnknownCharacter,
    /// The text ends where an operand is expected.
    UnexpectedEnd,
    /// A parenthesis without its partner.
    UnmatchedParen,
    /// A token where an operand or an operator is expected.
    UnexpectedToken,
}

/// A rejected text: the reason, and the offset, in characters, at which the
/// text stops being an expression.
#[derive(Clone, Copy, Debug, PartialEq, Eq, Structural)]
pub struct ParseError {
    pub kind: ParseErrorKind,
    pub position: usize,
}

impl ParseError {
    /// A short description of the reason.
    pub fn reason(&self) -> (out: &'static str)
        ensures
            out@ == match self.kind {
                ParseErrorKind::UnknownCharacter => "unknown character"@,
                ParseErrorKind::UnexpectedEnd => "unexpected end of input"@,
                ParseErrorKind::UnmatchedParen => "unmatched parenthesis"@,
                ParseErrorKind::UnexpectedToken => "unexpected token"@,
            },
    {
        match self.kind {
            ParseErrorKind::UnknownCharacter => "unknown character",
            ParseErrorKind::UnexpectedEnd => "unexpected end of input",
            ParseErrorKind::UnmatchedParen => "unmatched parenthesis",
            ParseErrorKind::UnexpectedToken => "unexpected token",
        }
    }
}

} // verus!
