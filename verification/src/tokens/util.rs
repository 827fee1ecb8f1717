use vstd::prelude::*;
use crate::tokens::tokenizer::Tokenizer;
use crate::tokens::tokens::{Token, TokenTypes};

verus! {

/// A class of bytes that a lexeme is made of.
#[derive(Clone, Copy, Debug, PartialEq, Eq, Structural)]
pub enum ByteClass {
    /// Space, tab, line feed, carriage return.
    Whitespace,
    /// `0` to `9`.
    Digit,
    /// ASCII letters, digits and `_`.
    Identifier,
}

pub open spec fn is_whitespace(byte: u8) -> bool {
    byte == ' ' as u8 || byte == '\t' as u8 || byte == '\n' as u8 || byte == '\r' as u8
}

pub open spec fn is_digit(byte: u8) -> bool {
    '0' as u8 <= byte <= '9' as u8
}

pub open spec fn is_alphabetic(byte: u8) -> bool {
    'a' as u8 <= byte <= 'z' as u8 || 'A' as u8 <= byte <= 'Z' as u8
}

pub open spec fn is_identifier_start(byte: u8) -> bool {
    is_alphabetic(byte) || byte == '_' as u8
}

pub open spec fn is_identifier_byte(byte: u8) -> bool {
    is_identifier_start(byte) || is_digit(byte)
}

/// Visible ASCII: what may stand alone as an operator.
pub open spec fn is_printable(byte: u8) -> bool {
    '!' as u8 <= byte <= '~' as u8
}

impl ByteClass {
    pub open spec fn contains(self, byte: u8) -> bool {
        match self {
            ByteClass::Whitespace => is_whitespace(byte),
            ByteClass::Digit => is_digit(byte),
            ByteClass::Identifier => is_identifier_byte(byte),
        }
    }

    pub fn has(&self, byte: u8) -> (r: bool)
        ensures
            r == self.contains(byte),
    {
        match self {
            ByteClass::Whitespace => byte == ' ' as u8 || byte == '\t' as u8 || byte == '\n' as u8
                || byte == '\r' as u8,
            ByteClass::Digit => '0' as u8 <= byte && byte <= '9' as u8,
            ByteClass::Identifier => ('a' as u8 <= byte && byte <= 'z' as u8) || ('A' as u8
                <= byte && byte <= 'Z' as u8) || byte == '_' as u8 || ('0' as u8 <= byte && byte
                <= '9' as u8),
        }
    }
}

/// The end of the longest run of bytes of `class` that starts at `from`:
/// the first position at or after `from` whose byte is not in `class`, or
/// the length of `s`.
pub open spec fn run_end(s: Seq<u8>, from: int, class: ByteClass) -> int
    decreases s.len() - from,
{
    if 0 <= from < s.len() && class.contains(s[from]) {
        run_end(s, from + 1, class)
    } else {
        from
    }
}

/// A run ends inside the buffer, holds only bytes of its class, and cannot
/// be extended.
pub proof fn lemma_run_end(s: Seq<u8>, from: int, class: ByteClass)
    requires
        0 <= from <= s.len(),
    ensures
        from <= run_end(s, from, class) <= s.len(),
        forall|i: int| from <= i < run_end(s, from, class) ==> class.contains(#[trigger] s[i]),
        run_end(s, from, class) < s.len() ==> !class.contains(s[run_end(s, from, class)]),
    decreases s.len() - from,
{
    if from < s.len() && class.contains(s[from]) {
        lemma_run_end(s, from + 1, class);
    }
}

/// Walks over the run of `class` that starts at `from`.
pub fn scan_run(buffer: &[u8], from: usize, class: ByteClass) -> (end: usize)
    requires
        from <= buffer@.len(),
    ensures
        end == run_end(buffer@, from as int, class),
        from <= end <= buffer@.len(),
{
    let mut end = from;
    while end < buffer.len() && class.has(buffer[end])
        invariant
            from <= end <= buffer@.len(),
            run_end(buffer@, from as int, class) == run_end(buffer@, end as int, class),
        decreases buffer@.len() - end,
    {
        end += 1;
    }
    end
}

/// The token that a numeric literal forms: it begins at `start`, and what is
/// left of it to read begins at `from`. Digits, then at most one decimal
/// point that a digit follows, then digits. With the point it is a float.
pub open spec fn number_token(s: Seq<u8>, start: int, from: int) -> Token {
    let digits = run_end(s, from, ByteClass::Digit);
    if digits + 1 < s.len() && s[digits] == '.' as u8 && is_digit(s[digits + 1]) {
        Token {
            token_type: TokenTypes::Float,
            start: start as usize,
            end: run_end(s, digits + 1, ByteClass::Digit) as usize,
        }
    } else {
        Token { token_type: TokenTypes::Integer, start: start as usize, end: digits as usize }
    }
}

/// The token that an identifier forms: it begins at `start` and runs on from
/// `from` while identifier bytes follow.
pub open spec fn identifier_token(s: Seq<u8>, start: int, from: int, token_type: TokenTypes) -> Token {
    Token {
        token_type,
        start: start as usize,
        end: run_end(s, from, ByteClass::Identifier) as usize,
    }
}

/// The token that a `.` at `start` forms with the identifier behind it, read
/// from `from`: `token_type` where there is one, an invalid character where
/// there is none.
pub open spec fn member_token(s: Seq<u8>, start: int, from: int, token_type: TokenTypes) -> Token {
    let end = run_end(s, from, ByteClass::Identifier);
    Token {
        token_type: if end > from {
            token_type
        } else {
            TokenTypes::InvalidCharacters
        },
        start: start as usize,
        end: end as usize,
    }
}

/// Reads the rest of a numeric literal.
pub fn parse_numbers(tokenizer: &mut Tokenizer) -> (token: Token)
    requires
        old(tokenizer).wf(),
    ensures
        token == number_token(
            old(tokenizer).buffer@,
            old(tokenizer).start as int,
            old(tokenizer).index as int,
        ),
        final(tokenizer).index == token.end,
        final(tokenizer).wf(),
        final(tokenizer).same_but_index(*old(tokenizer)),
{
    let digits = scan_run(tokenizer.buffer, tokenizer.index, ByteClass::Digit);
    if digits < tokenizer.len && tokenizer.len - digits > 1 && tokenizer.buffer[digits] == '.' as u8
        && ByteClass::Digit.has(tokenizer.buffer[digits + 1]) {
        tokenizer.index = scan_run(tokenizer.buffer, digits + 1, ByteClass::Digit);
        tokenizer.make_token(TokenTypes::Float)
    } else {
        tokenizer.index = digits;
        tokenizer.make_token(TokenTypes::Integer)
    }
}

/// Reads the rest of an identifier.
pub fn parse_acceptable(tokenizer: &mut Tokenizer, token_type: TokenTypes) -> (token: Token)
    requires
        old(tokenizer).wf(),
    ensures
        token == identifier_token(
            old(tokenizer).buffer@,
            old(tokenizer).start as int,
            old(tokenizer).index as int,
            token_type,
        ),
        final(tokenizer).index == token.end,
        final(tokenizer).wf(),
        final(tokenizer).same_but_index(*old(tokenizer)),
{
    tokenizer.index = scan_run(tokenizer.buffer, tokenizer.index, ByteClass::Identifier);
    tokenizer.make_token(token_type)
}

/// Reads the identifier behind a `.`.
pub fn parse_ident(tokenizer: &mut Tokenizer, token_type: TokenTypes) -> (token: Token)
    requires
        old(tokenizer).wf(),
    ensures
        token == member_token(
            old(tokenizer).buffer@,
            old(tokenizer).start as int,
            old(tokenizer).index as int,
            token_type,
        ),
        final(tokenizer).index == token.end,
        final(tokenizer).wf(),
        final(tokenizer).same_but_index(*old(tokenizer)),
{
    let from = tokenizer.index;
    tokenizer.index = scan_run(tokenizer.buffer, from, ByteClass::Identifier);
    if tokenizer.index > from {
        tokenizer.make_token(token_type)
    } else {
        tokenizer.make_token(TokenTypes::InvalidCharacters)
    }
}

} // verus!
