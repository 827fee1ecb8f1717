use vstd::prelude::*;
use vstd::string::StringSliceAdditionalSpecFns;
use crate::tokens::tokenizer::{
    close_register, line_end_register, matches_at, open_register, register_after, Tokenizer,
    NESTING_OFFSET,
};
use crate::tokens::tokens::{Token, TokenTypes};
use crate::tokens::util::{
    identifier_token, is_digit, is_identifier_start, is_printable, lemma_run_end, member_token,
    number_token, parse_acceptable, parse_ident, parse_numbers, run_end, ByteClass,
};

verus! {

/// What reading one token of code yields: the token, the cursor behind it and
/// the mode register after it.
pub struct CodeStep {
    pub token: Token,
    pub index: int,
    pub state: u64,
}

/// The step that takes the fixed text of `length` bytes at `at`.
pub open spec fn fixed_step(token_type: TokenTypes, at: int, length: int, state: u64) -> CodeStep {
    CodeStep {
        token: Token { token_type, start: at as usize, end: (at + length) as usize },
        index: at + length,
        state,
    }
}

/// The step that takes a token which a scan has delimited.
pub open spec fn scanned_step(token: Token, state: u64) -> CodeStep {
    CodeStep { token, index: token.end as int, state }
}

/// The step at the end of the buffer.
pub open spec fn end_step(s: Seq<u8>, state: u64) -> CodeStep {
    fixed_step(TokenTypes::EOF, s.len() as int, 0, state)
}

/// The step for the keyword that stands at `at` as a whole token, if one
/// does.
pub open spec fn keyword_step(s: Seq<u8>, at: int, state: u64) -> Option<CodeStep> {
    if matches_at(s, at, "return".spec_bytes()) {
        Some(fixed_step(TokenTypes::Return, at, "return".spec_bytes().len() as int, state))
    } else if matches_at(s, at, "break".spec_bytes()) {
        Some(fixed_step(TokenTypes::Break, at, "break".spec_bytes().len() as int, state))
    } else if matches_at(s, at, "switch".spec_bytes()) {
        Some(fixed_step(TokenTypes::Switch, at, "switch".spec_bytes().len() as int, state))
    } else if matches_at(s, at, "for".spec_bytes()) {
        Some(fixed_step(TokenTypes::For, at, "for".spec_bytes().len() as int, state))
    } else if matches_at(s, at, "while".spec_bytes()) {
        Some(fixed_step(TokenTypes::While, at, "while".spec_bytes().len() as int, state))
    } else if matches_at(s, at, "if".spec_bytes()) {
        Some(fixed_step(TokenTypes::If, at, "if".spec_bytes().len() as int, state))
    } else if matches_at(s, at, "else".spec_bytes()) {
        Some(fixed_step(TokenTypes::Else, at, "else".spec_bytes().len() as int, state))
    } else if matches_at(s, at, "let".spec_bytes()) {
        Some(fixed_step(TokenTypes::Let, at, "let".spec_bytes().len() as int, state))
    } else if matches_at(s, at, "new".spec_bytes()) {
        Some(fixed_step(TokenTypes::New, at, "new".spec_bytes().len() as int, state))
    } else {
        None
    }
}

/// The step for the structural punctuation that stands at `at`, if any does.
pub open spec fn punctuation_step(s: Seq<u8>, at: int, state: u64, bracket_depth: u64) -> Option<
    CodeStep,
> {
    if matches_at(s, at, ";".spec_bytes()) {
        Some(
            fixed_step(
                TokenTypes::LineEnd,
                at,
                ";".spec_bytes().len() as int,
                line_end_register(state),
            ),
        )
    } else if matches_at(s, at, "{".spec_bytes()) {
        Some(
            fixed_step(
                TokenTypes::CodeStart,
                at,
                "{".spec_bytes().len() as int,
                open_register(state),
            ),
        )
    } else if matches_at(s, at, "}".spec_bytes()) {
        Some(
            fixed_step(
                TokenTypes::CodeEnd,
                at,
                "}".spec_bytes().len() as int,
                close_register(state, bracket_depth),
            ),
        )
    } else if matches_at(s, at, ",".spec_bytes()) {
        Some(fixed_step(TokenTypes::ArgumentEnd, at, ",".spec_bytes().len() as int, state))
    } else if matches_at(s, at, "(".spec_bytes()) {
        Some(fixed_step(TokenTypes::ParenOpen, at, "(".spec_bytes().len() as int, state))
    } else if matches_at(s, at, ")".spec_bytes()) {
        Some(fixed_step(TokenTypes::ParenClose, at, ")".spec_bytes().len() as int, state))
    } else {
        None
    }
}

/// The step for a `.` at `at`, with `behind` the position after it. At the
/// end of the buffer the file ends. Before a digit the `.` is a decimal point
/// and begins a float. Otherwise it calls what is named behind it.
pub open spec fn dot_step(s: Seq<u8>, at: int, behind: int, state: u64) -> CodeStep {
    if behind >= s.len() {
        end_step(s, state)
    } else if is_digit(s[behind]) {
        scanned_step(number_token(s, at, at), state)
    } else {
        scanned_step(member_token(s, at, behind, TokenTypes::CallingType), state)
    }
}

/// The step for a lexeme that no fixed text begins, by its first byte at
/// `at`: an identifier, a number, an operator of one character, or a byte
/// that cannot be classified.
pub open spec fn generic_step(s: Seq<u8>, at: int, state: u64) -> CodeStep {
    if at >= s.len() {
        end_step(s, state)
    } else if is_identifier_start(s[at]) {
        scanned_step(identifier_token(s, at, at + 1, TokenTypes::Variable), state)
    } else if is_digit(s[at]) {
        scanned_step(number_token(s, at, at + 1), state)
    } else if is_printable(s[at]) {
        fixed_step(TokenTypes::Operator, at, 1, state)
    } else {
        fixed_step(TokenTypes::InvalidCharacters, at, 1, state)
    }
}

/// The step for the lexeme that begins at `at`, where no whitespace stands.
/// The first class that fits decides: punctuation, then keywords, then the
/// string quote, then the generic classes.
pub open spec fn classify(s: Seq<u8>, at: int, state: u64, bracket_depth: u64) -> CodeStep {
    if let Some(step) = punctuation_step(s, at, state, bracket_depth) {
        step
    } else if matches_at(s, at, ".".spec_bytes()) {
        dot_step(s, at, at + ".".spec_bytes().len(), state)
    } else if let Some(step) = keyword_step(s, at, state) {
        step
    } else if matches_at(s, at, "\"".spec_bytes()) {
        fixed_step(TokenTypes::StringStart, at, "\"".spec_bytes().len() as int, state)
    } else {
        generic_step(s, at, state)
    }
}

/// Reading one token of code from `index`: whitespace is skipped, then the
/// lexeme behind it is classified.
pub open spec fn code_step(s: Seq<u8>, index: int, state: u64, bracket_depth: u64) -> CodeStep {
    classify(s, run_end(s, index, ByteClass::Whitespace), state, bracket_depth)
}

/// A step never moves the cursor back nor out of the buffer; its token lies
/// between the old cursor and the new one; every token but the end of file
/// holds at least one byte, and the end of file holds none and is only handed
/// out with the cursor at the end of the buffer; the register changes as the
/// token's category says.
pub proof fn lemma_code_step(s: Seq<u8>, index: int, state: u64, bracket_depth: u64)
    requires
        0 <= index <= s.len(),
        s.len() <= usize::MAX,
    ensures
        ({
            let step = code_step(s, index, state, bracket_depth);
            &&& index <= step.token.start <= step.token.end == step.index <= s.len()
            &&& step.token.token_type != TokenTypes::EOF ==> step.token.start < step.token.end
            &&& step.token.token_type == TokenTypes::EOF ==> step.token.start == s.len()
            &&& step.state == register_after(state, bracket_depth, step.token.token_type)
        }),
{
    let at = run_end(s, index, ByteClass::Whitespace);
    lemma_run_end(s, index, ByteClass::Whitespace);
    reveal_strlit(".");
    assert(".".is_ascii());
    assert(".".spec_bytes() =~= seq!['.' as u8]);
    if at < s.len() {
        lemma_run_end(s, at, ByteClass::Digit);
        lemma_run_end(s, at + 1, ByteClass::Digit);
        lemma_run_end(s, at + 1, ByteClass::Identifier);
        let digits = run_end(s, at, ByteClass::Digit);
        if digits + 1 < s.len() {
            lemma_run_end(s, digits + 1, ByteClass::Digit);
        }
        let more = run_end(s, at + 1, ByteClass::Digit);
        if more + 1 < s.len() {
            lemma_run_end(s, more + 1, ByteClass::Digit);
        }
        if matches_at(s, at, ".".spec_bytes()) {
            assert(s.subrange(at, at + 1)[0] == '.' as u8);
        }
    }
}

/// The end of file repeats: once a step has handed it out, every further
/// step hands out the same token and changes nothing.
pub proof fn lemma_end_of_file_repeats(s: Seq<u8>, index: int, state: u64, bracket_depth: u64)
    requires
        0 <= index <= s.len(),
        s.len() <= usize::MAX,
        code_step(s, index, state, bracket_depth).token.token_type == TokenTypes::EOF,
    ensures
        ({
            let step = code_step(s, index, state, bracket_depth);
            &&& step.index == s.len()
            &&& step.state == state
            &&& code_step(s, step.index, step.state, bracket_depth) == step
        }),
{
    lemma_code_step(s, index, state, bracket_depth);
    lemma_run_end(s, s.len() as int, ByteClass::Whitespace);
}

/// What a reader of one class of tokens leaves behind: the step that the
/// class yields, or nothing changed where the class does not fit.
pub open spec fn took_step(
    before: Tokenizer,
    after: Tokenizer,
    token: Option<Token>,
    step: Option<CodeStep>,
) -> bool {
    match step {
        Some(step) => {
            &&& token == Some(step.token)
            &&& after.index == step.index
            &&& after.state == step.state
            &&& after.wf()
            &&& after.buffer == before.buffer
            &&& after.len == before.len
            &&& after.bracket_depth == before.bracket_depth
            &&& after.last == before.last
        },
        None => token is None && after == before,
    }
}

/// Where the lexeme behind the cursor begins.
pub open spec fn lexeme_start(tokenizer: Tokenizer) -> int {
    run_end(tokenizer.buffer@, tokenizer.index as int, ByteClass::Whitespace)
}

/// Reads a token of structural punctuation, if one is next.
fn next_punctuation(tokenizer: &mut Tokenizer, bracket_depth: u64) -> (token: Option<Token>)
    requires
        old(tokenizer).wf(),
    ensures
        took_step(
            *old(tokenizer),
            *final(tokenizer),
            token,
            punctuation_step(
                old(tokenizer).buffer@,
                lexeme_start(*old(tokenizer)),
                old(tokenizer).state,
                bracket_depth,
            ),
        ),
{
    let ghost before = *tokenizer;
    if tokenizer.matches(";") {
        tokenizer.end_line();
        Some(tokenizer.make_token(TokenTypes::LineEnd))
    } else if tokenizer.matches("{") {
        assert(NESTING_OFFSET * (before.len - before.index) >= NESTING_OFFSET * (before.len
            - tokenizer.index + 1));
        tokenizer.enter_block();
        Some(tokenizer.make_token(TokenTypes::CodeStart))
    } else if tokenizer.matches("}") {
        tokenizer.leave_block(bracket_depth);
        Some(tokenizer.make_token(TokenTypes::CodeEnd))
    } else if tokenizer.matches(",") {
        Some(tokenizer.make_token(TokenTypes::ArgumentEnd))
    } else if tokenizer.matches("(") {
        Some(tokenizer.make_token(TokenTypes::ParenOpen))
    } else if tokenizer.matches(")") {
        Some(tokenizer.make_token(TokenTypes::ParenClose))
    } else {
        None
    }
}

/// Reads a keyword, if one is next.
fn next_keyword(tokenizer: &mut Tokenizer) -> (token: Option<Token>)
    requires
        old(tokenizer).wf(),
    ensures
        took_step(
            *old(tokenizer),
            *final(tokenizer),
            token,
            keyword_step(
                old(tokenizer).buffer@,
                lexeme_start(*old(tokenizer)),
                old(tokenizer).state,
            ),
        ),
{
    if tokenizer.matches("return") {
        Some(tokenizer.make_token(TokenTypes::Return))
    } else if tokenizer.matches("break") {
        Some(tokenizer.make_token(TokenTypes::Break))
    } else if tokenizer.matches("switch") {
        Some(tokenizer.make_token(TokenTypes::Switch))
    } else if tokenizer.matches("for") {
        Some(tokenizer.make_token(TokenTypes::For))
    } else if tokenizer.matches("while") {
        Some(tokenizer.make_token(TokenTypes::While))
    } else if tokenizer.matches("if") {
        Some(tokenizer.make_token(TokenTypes::If))
    } else if tokenizer.matches("else") {
        Some(tokenizer.make_token(TokenTypes::Else))
    } else if tokenizer.matches("let") {
        Some(tokenizer.make_token(TokenTypes::Let))
    } else if tokenizer.matches("new") {
        Some(tokenizer.make_token(TokenTypes::New))
    } else {
        None
    }
}

/// Reads what a `.` begins, if a `.` is next.
fn next_dot(tokenizer: &mut Tokenizer) -> (token: Option<Token>)
    requires
        old(tokenizer).wf(),
    ensures
        took_step(
            *old(tokenizer),
            *final(tokenizer),
            token,
            if matches_at(old(tokenizer).buffer@, lexeme_start(*old(tokenizer)), ".".spec_bytes()) {
                Some(
                    dot_step(
                        old(tokenizer).buffer@,
                        lexeme_start(*old(tokenizer)),
                        lexeme_start(*old(tokenizer)) + ".".spec_bytes().len(),
                        old(tokenizer).state,
                    ),
                )
            } else {
                None
            },
        ),
{
    let ghost before = *tokenizer;
    if !tokenizer.matches(".") {
        return None;
    }
    if tokenizer.len == tokenizer.index {
        tokenizer.start = tokenizer.index;
        return Some(tokenizer.make_token(TokenTypes::EOF));
    }
    if ByteClass::Digit.has(tokenizer.buffer[tokenizer.index]) {
        tokenizer.index = tokenizer.start;
        assert(NESTING_OFFSET * (before.len - tokenizer.index) <= NESTING_OFFSET * (before.len
            - before.index));
        Some(parse_numbers(tokenizer))
    } else {
        Some(parse_ident(tokenizer, TokenTypes::CallingType))
    }
}

/// Reads a lexeme that no fixed text begins.
fn next_generic(tokenizer: &mut Tokenizer) -> (token: Token)
    requires
        old(tokenizer).wf(),
    ensures
        took_step(
            *old(tokenizer),
            *final(tokenizer),
            Some(token),
            Some(
                generic_step(
                    old(tokenizer).buffer@,
                    lexeme_start(*old(tokenizer)),
                    old(tokenizer).state,
                ),
            ),
        ),
{
    let found = match tokenizer.next_included() {
        Ok(found) => found,
        Err(end) => {
            return end;
        },
    };
    if ByteClass::Identifier.has(found) && !ByteClass::Digit.has(found) {
        parse_acceptable(tokenizer, TokenTypes::Variable)
    } else if ByteClass::Digit.has(found) {
        parse_numbers(tokenizer)
    } else if '!' as u8 <= found && found <= '~' as u8 {
        tokenizer.make_token(TokenTypes::Operator)
    } else {
        tokenizer.make_token(TokenTypes::InvalidCharacters)
    }
}

/// Reads the next token of a code body and moves the mode register as the
/// token asks: `{` enters a block, `}` leaves one or, with `bracket_depth` at
/// zero, the code body itself, and `;` ends a line.
pub fn next_code_token(tokenizer: &mut Tokenizer, bracket_depth: u64) -> (token: Token)
    requires
        old(tokenizer).wf(),
    ensures
        final(tokenizer).wf(),
        final(tokenizer).buffer == old(tokenizer).buffer,
        final(tokenizer).len == old(tokenizer).len,
        final(tokenizer).bracket_depth == old(tokenizer).bracket_depth,
        final(tokenizer).last == old(tokenizer).last,
        token == code_step(
            old(tokenizer).buffer@,
            old(tokenizer).index as int,
            old(tokenizer).state,
            bracket_depth,
        ).token,
        final(tokenizer).index == code_step(
            old(tokenizer).buffer@,
            old(tokenizer).index as int,
            old(tokenizer).state,
            bracket_depth,
        ).index,
        final(tokenizer).state == code_step(
            old(tokenizer).buffer@,
            old(tokenizer).index as int,
            old(tokenizer).state,
            bracket_depth,
        ).state,
{
    if let Some(token) = next_punctuation(tokenizer, bracket_depth) {
        return token;
    }
    if let Some(token) = next_dot(tokenizer) {
        return token;
    }
    if let Some(token) = next_keyword(tokenizer) {
        return token;
    }
    if tokenizer.matches("\"") {
        return tokenizer.make_token(TokenTypes::StringStart);
    }
    next_generic(tokenizer)
}

} // verus!
