use vstd::prelude::*;
use vstd::slice::{slice_subrange, slice_to_vec};
use crate::syntax::errors::{ErrorModel, ParsingError};

verus! {

/// The closed set of lexical categories.
#[derive(Clone, Copy, Debug, PartialEq, Eq, Structural)]
pub enum TokenTypes {
    /// The end of the buffer.
    EOF,
    /// `;`
    LineEnd,
    /// `{`
    CodeStart,
    /// `}`
    CodeEnd,
    /// `(`
    ParenOpen,
    /// `)`
    ParenClose,
    /// `,`
    ArgumentEnd,
    /// An identifier.
    Variable,
    /// A run of digits.
    Integer,
    /// A run of digits with one decimal point.
    Float,
    /// `"`
    StringStart,
    Return,
    Break,
    Switch,
    For,
    While,
    If,
    Else,
    Let,
    New,
    /// `.` and the identifier that follows it.
    CallingType,
    /// Any other printable character, alone.
    Operator,
    /// A byte that belongs to no category.
    InvalidCharacters,
}

/// A token: a category and the half-open span `[start, end)` of its lexeme in
/// the source buffer. The text itself is never stored.
#[derive(Clone, Copy, Debug, PartialEq, Eq, Structural)]
pub struct Token {
    pub token_type: TokenTypes,
    pub start: usize,
    pub end: usize,
}

impl Token {
    /// The bytes of `buffer` that the span covers; empty where the span does
    /// not lie inside `buffer`.
    pub open spec fn spec_text(self, buffer: Seq<u8>) -> Seq<u8> {
        if self.start <= self.end <= buffer.len() {
            buffer.subrange(self.start as int, self.end as int)
        } else {
            Seq::empty()
        }
    }

    /// The error that blames this token.
    pub open spec fn spec_error(self, file: Seq<u8>, message: Seq<u8>) -> ErrorModel {
        ErrorModel { file, start: self.start as int, end: self.end as int, message }
    }

    pub fn new(token_type: TokenTypes, start: usize, end: usize) -> (token: Token)
        ensures
            token == (Token { token_type, start, end }),
    {
        Token { token_type, start, end }
    }

    /// Copies the token's lexeme out of `buffer`.
    pub fn text(&self, buffer: &[u8]) -> (text: Vec<u8>)
        ensures
            text@ == self.spec_text(buffer@),
    {
        if self.start <= self.end && self.end <= buffer.len() {
            slice_to_vec(slice_subrange(buffer, self.start, self.end))
        } else {
            Vec::new()
        }
    }

    /// Builds the error that blames this token.
    pub fn make_error(&self, file: Vec<u8>, message: Vec<u8>) -> (error: ParsingError)
        ensures
            error@ == self.spec_error(file@, message@),
    {
        ParsingError::new(file, self.start, self.end, message)
    }
}

} // verus!
