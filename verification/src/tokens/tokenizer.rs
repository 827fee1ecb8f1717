use vstd::prelude::*;
use vstd::string::StringSliceAdditionalSpecFns;
use crate::tokens::code_tokenizer::{code_step, lemma_code_step, next_code_token};
use crate::tokens::tokens::{Token, TokenTypes};
use crate::tokens::util::{is_identifier_byte, run_end, scan_run, ByteClass};

verus! {

/// What one level of nesting adds to the mode register.
pub const NESTING_OFFSET: u64 = 0x1FF;

/// The longest buffer whose nesting the mode register can always hold.
pub const MAX_SOURCE_LENGTH: u64 = 0x7F_FFFF_FFFF_FFFF;

/// The lexical contexts. Each is a set of bit flags below `NESTING_OFFSET`.
#[derive(Clone, Copy, Debug, PartialEq, Eq, Structural)]
pub enum TokenizerState {
    /// Top-level declarations.
    TopElement,
    /// The declarations of a struct body.
    TopElementToStruct,
    /// The statements of a code body.
    Code,
    /// The statements of a code body that stands in a struct body.
    CodeToStructTop,
}

impl TokenizerState {
    /// The flags of this context.
    pub open spec fn spec_flags(self) -> u64 {
        match self {
            TokenizerState::TopElement => 0x1,
            TokenizerState::TopElementToStruct => 0x2,
            TokenizerState::Code => 0x4,
            TokenizerState::CodeToStructTop => 0xC,
        }
    }

    #[verifier::when_used_as_spec(spec_flags)]
    pub fn flags(self) -> (flags: u64)
        ensures
            flags == self.spec_flags(),
    {
        match self {
            TokenizerState::TopElement => 0x1,
            TokenizerState::TopElementToStruct => 0x2,
            TokenizerState::Code => 0x4,
            TokenizerState::CodeToStructTop => 0xC,
        }
    }
}

/// The flags of the context that a register stands in, whatever its nesting.
pub open spec fn register_flags(state: u64) -> u64 {
    state % NESTING_OFFSET
}

/// A register is valid when it is the flags of a context plus a whole number
/// of nesting offsets.
pub open spec fn valid_register(state: u64) -> bool {
    ||| register_flags(state) == TokenizerState::TopElement.spec_flags()
    ||| register_flags(state) == TokenizerState::TopElementToStruct.spec_flags()
    ||| register_flags(state) == TokenizerState::Code.spec_flags()
    ||| register_flags(state) == TokenizerState::CodeToStructTop.spec_flags()
}

/// The register after a `;`: a code line that stands directly in a struct body
/// ends there, and the struct body goes on.
pub open spec fn line_end_register(state: u64) -> u64 {
    if state == TokenizerState::CodeToStructTop.spec_flags() {
        TokenizerState::TopElementToStruct.spec_flags()
    } else {
        state
    }
}

/// The register after a `{`: one level deeper, as far as it can count.
pub open spec fn open_register(state: u64) -> u64 {
    if state + NESTING_OFFSET <= u64::MAX {
        (state + NESTING_OFFSET) as u64
    } else {
        state
    }
}

/// The register after a `}`. Inside a nested block it gives back the offset
/// that the block's `{` added. With no block open it leaves the code body for
/// the context around it; it never goes below the flags of a context.
pub open spec fn close_register(state: u64, bracket_depth: u64) -> u64 {
    if bracket_depth == 0 || state < NESTING_OFFSET {
        if register_flags(state) == TokenizerState::CodeToStructTop.spec_flags() {
            TokenizerState::TopElementToStruct.spec_flags()
        } else {
            TokenizerState::TopElement.spec_flags()
        }
    } else {
        (state - NESTING_OFFSET) as u64
    }
}

/// The register after a token of the given category.
pub open spec fn register_after(state: u64, bracket_depth: u64, token_type: TokenTypes) -> u64 {
    match token_type {
        TokenTypes::LineEnd => line_end_register(state),
        TokenTypes::CodeStart => open_register(state),
        TokenTypes::CodeEnd => close_register(state, bracket_depth),
        _ => state,
    }
}

/// The number of open blocks after a token of the given category.
pub open spec fn depth_after(bracket_depth: u64, token_type: TokenTypes) -> u64 {
    match token_type {
        TokenTypes::CodeStart => if bracket_depth < u64::MAX {
            (bracket_depth + 1) as u64
        } else {
            bracket_depth
        },
        TokenTypes::CodeEnd => if bracket_depth > 0 {
            (bracket_depth - 1) as u64
        } else {
            0
        },
        _ => bracket_depth,
    }
}

/// The tokens that reading `s` hands out from the given position on, up to and
/// including the first end of file.
pub open spec fn token_stream(s: Seq<u8>, index: int, state: u64, bracket_depth: u64) -> Seq<Token>
    decreases s.len() - index,
{
    let step = code_step(s, index, state, bracket_depth);
    if 0 <= index <= s.len() <= usize::MAX && step.token.token_type != TokenTypes::EOF {
        proof {
            lemma_code_step(s, index, state, bracket_depth);
        }
        seq![step.token] + token_stream(
            s,
            step.index,
            step.state,
            depth_after(bracket_depth, step.token.token_type),
        )
    } else {
        seq![step.token]
    }
}

/// The spans of a token stream lie in the buffer, do not overlap and strictly
/// increase: each token ends before the next begins, and every token but the
/// closing end of file holds at least one byte.
pub proof fn lemma_token_spans_increase(s: Seq<u8>, index: int, state: u64, bracket_depth: u64)
    requires
        0 <= index <= s.len() <= usize::MAX,
    ensures
        ({
            let tokens = token_stream(s, index, state, bracket_depth);
            &&& tokens.len() > 0
            &&& tokens.last().token_type == TokenTypes::EOF
            &&& forall|i: int|
                0 <= i < tokens.len() ==> index <= (#[trigger] tokens[i]).start <= tokens[i].end
                    <= s.len()
            &&& forall|i: int|
                0 <= i < tokens.len() - 1 ==> (#[trigger] tokens[i]).token_type != TokenTypes::EOF
                    && tokens[i].start < tokens[i].end
            &&& forall|i: int, j: int|
                0 <= i < j < tokens.len() ==> (#[trigger] tokens[i]).end <= (
                #[trigger] tokens[j]).start
        }),
    decreases s.len() - index,
{
    let step = code_step(s, index, state, bracket_depth);
    lemma_code_step(s, index, state, bracket_depth);
    if step.token.token_type != TokenTypes::EOF {
        let depth = depth_after(bracket_depth, step.token.token_type);
        lemma_token_spans_increase(s, step.index, step.state, depth);
        let rest = token_stream(s, step.index, step.state, depth);
        let tokens = token_stream(s, index, state, bracket_depth);
        assert(tokens == seq![step.token] + rest);
        assert(tokens[0] == step.token);
        assert forall|i: int| 1 <= i < tokens.len() implies #[trigger] tokens[i] == rest[i - 1] by {}
        assert(tokens.last() == rest.last());
    }
}

/// Reading is a function of the buffer and the position: two tokenizers that
/// stand at the same place of equal buffers hand out the same tokens.
pub proof fn lemma_tokenizing_is_deterministic(first: Tokenizer, second: Tokenizer)
    requires
        first.buffer@ == second.buffer@,
        first.index == second.index,
        first.state == second.state,
        first.bracket_depth == second.bracket_depth,
    ensures
        code_step(first.buffer@, first.index as int, first.state, first.bracket_depth)
            == code_step(second.buffer@, second.index as int, second.state, second.bracket_depth),
        token_stream(first.buffer@, first.index as int, first.state, first.bracket_depth)
            == token_stream(second.buffer@, second.index as int, second.state, second.bracket_depth),
{
}

/// How a token of the given category changes the nesting.
pub open spec fn nesting_change(token_type: TokenTypes) -> int {
    match token_type {
        TokenTypes::CodeStart => 1,
        TokenTypes::CodeEnd => -1,
        _ => 0,
    }
}

/// The blocks that tokens of the given categories open, less those they close.
pub open spec fn nesting_of(kinds: Seq<TokenTypes>) -> int
    decreases kinds.len(),
{
    if kinds.len() == 0 {
        0
    } else {
        nesting_change(kinds[0]) + nesting_of(kinds.drop_first())
    }
}

/// The categories of one whole block: a `{`, what stands inside it, and the
/// `}` that matches the `{`. Nothing before the last token closes the block.
pub open spec fn is_block(kinds: Seq<TokenTypes>) -> bool {
    &&& nesting_of(kinds) == 0
    &&& forall|n: int| 0 < n < kinds.len() ==> nesting_of(#[trigger] kinds.take(n)) > 0
    &&& kinds.len() >= 2
}

/// The mode register and the count of open blocks after tokens of the given
/// categories, in their order.
pub open spec fn register_after_all(state: u64, bracket_depth: u64, kinds: Seq<TokenTypes>) -> (
    u64,
    u64,
)
    decreases kinds.len(),
{
    if kinds.len() == 0 {
        (state, bracket_depth)
    } else {
        register_after_all(
            register_after(state, bracket_depth, kinds[0]),
            depth_after(bracket_depth, kinds[0]),
            kinds.drop_first(),
        )
    }
}

/// Whatever token comes, a valid register stays valid: a `}` too many leaves
/// the code body for the context around it and never goes below it.
pub proof fn lemma_register_stays_valid(state: u64, bracket_depth: u64, token_type: TokenTypes)
    requires
        valid_register(state),
    ensures
        valid_register(register_after(state, bracket_depth, token_type)),
{
}

/// The nesting of a prefix is that of its first token and of the rest.
proof fn lemma_nesting_of_prefix(kinds: Seq<TokenTypes>, n: int)
    requires
        0 <= n < kinds.len(),
    ensures
        nesting_of(kinds.take(n + 1)) == nesting_change(kinds[0]) + nesting_of(
            kinds.drop_first().take(n),
        ),
{
    assert(kinds.take(n + 1).drop_first() =~= kinds.drop_first().take(n));
}

/// Inside a block every `{` adds the offset and every `}` gives it back:
/// from `level` blocks deep, the tokens leave the register at the level that
/// their nesting makes.
proof fn lemma_inside_block(
    base: u64,
    depth: u64,
    level: int,
    kinds: Seq<TokenTypes>,
)
    requires
        valid_register(base),
        level >= 0,
        base + NESTING_OFFSET * (level + kinds.len()) <= u64::MAX,
        depth + level + kinds.len() <= u64::MAX,
        forall|n: int| 0 <= n < kinds.len() ==> level + nesting_of(#[trigger] kinds.take(n)) >= 1,
        level + nesting_of(kinds) >= 0,
    ensures
        register_after_all(
            (base + NESTING_OFFSET * level) as u64,
            (depth + level) as u64,
            kinds,
        ) == (
            (base + NESTING_OFFSET * (level + nesting_of(kinds))) as u64,
            (depth + level + nesting_of(kinds)) as u64,
        ),
    decreases kinds.len(),
{
    if kinds.len() > 0 {
        let rest = kinds.drop_first();
        let change = nesting_change(kinds[0]);
        assert(kinds.take(0) =~= Seq::<TokenTypes>::empty());
        assert(level >= 1);
        assert forall|n: int| 0 <= n < rest.len() implies level + change + nesting_of(
            #[trigger] rest.take(n),
        ) >= 1 by {
            lemma_nesting_of_prefix(kinds, n);
            assert(level + nesting_of(kinds.take(n + 1)) >= 1);
        }
        assert(NESTING_OFFSET * (level + change) == NESTING_OFFSET * level + NESTING_OFFSET
            * change);
        assert(NESTING_OFFSET * (level + kinds.len()) >= NESTING_OFFSET * (level + 1));
        if rest.len() == 0 {
            assert(rest.take(0) =~= rest);
        } else {
            assert(rest.take(0) =~= Seq::<TokenTypes>::empty());
            assert(level + change + nesting_of(rest.take(0)) >= 1);
        }
        lemma_inside_block(base, depth, level + change, rest);
    }
}

/// Push and pop are symmetric: after the tokens of a whole block the mode
/// register and the count of open blocks are what they were before its `{`.
pub proof fn lemma_block_restores_register(state: u64, bracket_depth: u64, kinds: Seq<TokenTypes>)
    requires
        valid_register(state),
        is_block(kinds),
        state + NESTING_OFFSET * kinds.len() <= u64::MAX,
        bracket_depth + kinds.len() <= u64::MAX,
    ensures
        register_after_all(state, bracket_depth, kinds) == (state, bracket_depth),
{
    let rest = kinds.drop_first();
    let first = kinds.take(1);
    assert(first.drop_first() =~= Seq::<TokenTypes>::empty());
    assert(nesting_of(first.drop_first()) == 0);
    assert(nesting_of(first) == nesting_change(kinds[0]));
    assert(kinds[0] == TokenTypes::CodeStart);
    assert forall|n: int| 0 <= n < rest.len() implies 1 + nesting_of(#[trigger] rest.take(n))
        >= 1 by {
        lemma_nesting_of_prefix(kinds, n);
        if n > 0 {
            assert(nesting_of(kinds.take(n + 1)) > 0);
        } else {
            assert(rest.take(0) =~= Seq::<TokenTypes>::empty());
        }
    }
    assert(NESTING_OFFSET * (1 + rest.len()) == NESTING_OFFSET * kinds.len());
    lemma_inside_block(state, bracket_depth, 1, rest);
}

/// Where a tokenizer stands: its cursor, its mode register and its count of
/// open blocks.
pub struct Position {
    pub index: int,
    pub state: u64,
    pub bracket_depth: u64,
}

/// Where a tokenizer stands after it has handed out `count` tokens.
pub open spec fn position_after(
    s: Seq<u8>,
    index: int,
    state: u64,
    bracket_depth: u64,
    count: nat,
) -> Position
    decreases count,
{
    if count == 0 {
        Position { index, state, bracket_depth }
    } else {
        let step = code_step(s, index, state, bracket_depth);
        position_after(
            s,
            step.index,
            step.state,
            depth_after(bracket_depth, step.token.token_type),
            (count - 1) as nat,
        )
    }
}

/// The categories of a list of tokens.
pub open spec fn kinds_of(tokens: Seq<Token>) -> Seq<TokenTypes> {
    Seq::new(tokens.len(), |i: int| tokens[i].token_type)
}

/// After `count` tokens, none of them the end of file, the cursor has moved
/// by at least `count` bytes, and the register and the count of open blocks
/// are what the categories of the tokens make of them.
proof fn lemma_position_after(s: Seq<u8>, index: int, state: u64, bracket_depth: u64, count: nat)
    requires
        0 <= index <= s.len() <= usize::MAX,
        count < token_stream(s, index, state, bracket_depth).len(),
    ensures
        index + count <= position_after(s, index, state, bracket_depth, count).index <= s.len(),
        register_after_all(
            state,
            bracket_depth,
            kinds_of(token_stream(s, index, state, bracket_depth).take(count as int)),
        ) == (
            position_after(s, index, state, bracket_depth, count).state,
            position_after(s, index, state, bracket_depth, count).bracket_depth,
        ),
    decreases count,
{
    let tokens = token_stream(s, index, state, bracket_depth);
    let kinds = kinds_of(tokens.take(count as int));
    if count == 0 {
        assert(kinds =~= Seq::<TokenTypes>::empty());
    } else {
        let step = code_step(s, index, state, bracket_depth);
        let depth = depth_after(bracket_depth, step.token.token_type);
        lemma_code_step(s, index, state, bracket_depth);
        let rest = token_stream(s, step.index, step.state, depth);
        assert(tokens == seq![step.token] + rest);
        lemma_position_after(s, step.index, step.state, depth, (count - 1) as nat);
        assert(kinds[0] == step.token.token_type);
        assert(kinds.drop_first() =~= kinds_of(rest.take(count - 1)));
    }
}

/// Push and pop are symmetric for the tokenizer: when the next tokens of a
/// buffer are one whole block, the mode register and the count of open
/// blocks are, after the block, what they were before it.
pub proof fn lemma_block_restores_mode(tokenizer: Tokenizer, count: nat)
    requires
        tokenizer.wf(),
        count < token_stream(
            tokenizer.buffer@,
            tokenizer.index as int,
            tokenizer.state,
            tokenizer.bracket_depth,
        ).len(),
        is_block(
            kinds_of(
                token_stream(
                    tokenizer.buffer@,
                    tokenizer.index as int,
                    tokenizer.state,
                    tokenizer.bracket_depth,
                ).take(count as int),
            ),
        ),
    ensures
        position_after(
            tokenizer.buffer@,
            tokenizer.index as int,
            tokenizer.state,
            tokenizer.bracket_depth,
            count,
        ).state == tokenizer.state,
        position_after(
            tokenizer.buffer@,
            tokenizer.index as int,
            tokenizer.state,
            tokenizer.bracket_depth,
            count,
        ).bracket_depth == tokenizer.bracket_depth,
{
    let s = tokenizer.buffer@;
    let kinds = kinds_of(
        token_stream(s, tokenizer.index as int, tokenizer.state, tokenizer.bracket_depth).take(
            count as int,
        ),
    );
    lemma_position_after(s, tokenizer.index as int, tokenizer.state, tokenizer.bracket_depth, count);
    assert(NESTING_OFFSET * kinds.len() <= NESTING_OFFSET * (tokenizer.len - tokenizer.index));
    lemma_block_restores_register(tokenizer.state, tokenizer.bracket_depth, kinds);
}

/// Whether `pattern` stands in `s` at `at`.
pub open spec fn starts_with(s: Seq<u8>, at: int, pattern: Seq<u8>) -> bool {
    &&& 0 <= at
    &&& at + pattern.len() <= s.len()
    &&& s.subrange(at, at + pattern.len()) == pattern
}

/// Whether `pattern` stands in `s` at `at` as a whole token: it is not empty,
/// and where it ends in an identifier byte, no identifier byte follows it.
pub open spec fn matches_at(s: Seq<u8>, at: int, pattern: Seq<u8>) -> bool {
    &&& pattern.len() > 0
    &&& starts_with(s, at, pattern)
    &&& !(is_identifier_byte(pattern.last()) && at + pattern.len() < s.len()
        && is_identifier_byte(s[at + pattern.len()]))
}

/// The cursor of one pass over a source buffer.
pub struct Tokenizer<'a> {
    /// The source.
    pub buffer: &'a [u8],
    /// The length of the source.
    pub len: usize,
    /// The next byte to read.
    pub index: usize,
    /// Where the lexeme that is being read began.
    pub start: usize,
    /// The mode register.
    pub state: u64,
    /// How many blocks the tokens handed out so far have opened and not closed.
    pub bracket_depth: u64,
    /// The token handed out last.
    pub last: Token,
}

impl<'a> Tokenizer<'a> {
    /// The cursor lies inside the buffer, the register is valid and has room
    /// for every block that the rest of the buffer could open.
    pub open spec fn wf(&self) -> bool {
        &&& self.len == self.buffer@.len()
        &&& self.start <= self.index <= self.len
        &&& valid_register(self.state)
        &&& self.state + NESTING_OFFSET * (self.len - self.index) <= u64::MAX
        &&& self.bracket_depth <= self.index
    }

    /// Nothing but the cursor differs from `other`.
    pub open spec fn same_but_index(&self, other: Tokenizer<'a>) -> bool {
        &&& self.buffer == other.buffer
        &&& self.len == other.len
        &&& self.start == other.start
        &&& self.state == other.state
        &&& self.bracket_depth == other.bracket_depth
        &&& self.last == other.last
    }

    /// Nothing but the mode register differs from `other`.
    pub open spec fn same_but_state(&self, other: Tokenizer<'a>) -> bool {
        &&& self.buffer == other.buffer
        &&& self.len == other.len
        &&& self.index == other.index
        &&& self.start == other.start
        &&& self.bracket_depth == other.bracket_depth
        &&& self.last == other.last
    }

    /// Nothing but the cursor and the start of the lexeme differs from `other`.
    pub open spec fn same_but_position(&self, other: Tokenizer<'a>) -> bool {
        &&& self.buffer == other.buffer
        &&& self.len == other.len
        &&& self.state == other.state
        &&& self.bracket_depth == other.bracket_depth
        &&& self.last == other.last
    }

    /// A tokenizer at the start of `buffer`, in the given context.
    pub fn new(buffer: &'a [u8], state: TokenizerState) -> (tokenizer: Tokenizer<'a>)
        requires
            buffer@.len() <= MAX_SOURCE_LENGTH,
        ensures
            tokenizer.wf(),
            tokenizer.buffer == buffer,
            tokenizer.index == 0,
            tokenizer.start == 0,
            tokenizer.state == state.spec_flags(),
            tokenizer.bracket_depth == 0,
            tokenizer.last == (Token { token_type: TokenTypes::EOF, start: 0, end: 0 }),
    {
        let flags = state.flags();
        Tokenizer {
            buffer,
            len: buffer.len(),
            index: 0,
            start: 0,
            state: flags,
            bracket_depth: 0,
            last: Token::new(TokenTypes::EOF, 0, 0),
        }
    }

    /// The token that spans the lexeme read last.
    pub fn make_token(&self, token_type: TokenTypes) -> (token: Token)
        ensures
            token == (Token { token_type, start: self.start, end: self.index }),
    {
        Token::new(token_type, self.start, self.index)
    }

    /// Skips whitespace and takes the byte behind it. At the end of the buffer
    /// it hands back the end-of-file token instead.
    pub fn next_included(&mut self) -> (found: Result<u8, Token>)
        requires
            old(self).wf(),
        ensures
            final(self).wf(),
            final(self).same_but_position(*old(self)),
            final(self).start == run_end(
                old(self).buffer@,
                old(self).index as int,
                ByteClass::Whitespace,
            ),
            match found {
                Ok(byte) => {
                    &&& final(self).start < old(self).len
                    &&& byte == old(self).buffer@[final(self).start as int]
                    &&& final(self).index == final(self).start + 1
                },
                Err(token) => {
                    &&& final(self).start == old(self).len
                    &&& final(self).index == old(self).len
                    &&& token == (Token {
                        token_type: TokenTypes::EOF,
                        start: old(self).len,
                        end: old(self).len,
                    })
                },
            },
    {
        let at = scan_run(self.buffer, self.index, ByteClass::Whitespace);
        assert(NESTING_OFFSET * (self.len - at) <= NESTING_OFFSET * (self.len - self.index));
        self.start = at;
        if at == self.len {
            self.index = at;
            Err(self.make_token(TokenTypes::EOF))
        } else {
            self.index = at + 1;
            Ok(self.buffer[at])
        }
    }

    /// Skips whitespace and takes `input` if it stands there as a whole token.
    /// Where it does not, the cursor stays where it was.
    #[verifier::loop_isolation(false)]
    pub fn matches(&mut self, input: &str) -> (found: bool)
        requires
            old(self).wf(),
        ensures
            final(self).wf(),
            final(self).same_but_position(*old(self)),
            found == matches_at(
                old(self).buffer@,
                run_end(old(self).buffer@, old(self).index as int, ByteClass::Whitespace),
                input.spec_bytes(),
            ),
            found ==> final(self).start == run_end(
                old(self).buffer@,
                old(self).index as int,
                ByteClass::Whitespace,
            ) && final(self).index == final(self).start + input.spec_bytes().len(),
            !found ==> *final(self) == *old(self),
            found ==> old(self).index <= final(self).start,
    {
        let pattern = input.as_bytes();
        let count = pattern.len();
        let at = scan_run(self.buffer, self.index, ByteClass::Whitespace);
        if count == 0 || count > self.len - at {
            return false;
        }
        let mut i: usize = 0;
        while i < count
            invariant
                i <= count,
                count == pattern@.len(),
                at + count <= self.buffer@.len(),
                self.buffer@.len() <= usize::MAX,
                self.buffer@.subrange(at as int, at + i) == pattern@.subrange(0, i as int),
            decreases count - i,
        {
            if self.buffer[at + i] != pattern[i] {
                assert(self.buffer@.subrange(at as int, at + count)[i as int] != pattern@[i as int]);
                return false;
            }
            assert(self.buffer@.subrange(at as int, at + i + 1) =~= self.buffer@.subrange(
                at as int,
                at + i,
            ).push(self.buffer@[at + i]));
            assert(pattern@.subrange(0, i + 1) =~= pattern@.subrange(0, i as int).push(
                pattern@[i as int],
            ));
            i += 1;
        }
        assert(pattern@.subrange(0, count as int) =~= pattern@);
        if ByteClass::Identifier.has(pattern[count - 1]) && at + count < self.len
            && ByteClass::Identifier.has(self.buffer[at + count]) {
            return false;
        }
        assert(NESTING_OFFSET * (self.len - (at + count)) <= NESTING_OFFSET * (self.len
            - self.index));
        self.start = at;
        self.index = at + count;
        true
    }

    /// Moves the register as the `;` that was just read asks.
    pub fn end_line(&mut self)
        requires
            old(self).wf(),
        ensures
            final(self).wf(),
            final(self).state == line_end_register(old(self).state),
            final(self).same_but_state(*old(self)),
    {
        if self.state == TokenizerState::CodeToStructTop.flags() {
            self.state = TokenizerState::TopElementToStruct.flags();
        }
    }

    /// Moves the register as the `{` that was just read asks.
    pub fn enter_block(&mut self)
        requires
            old(self).wf(),
            old(self).state + NESTING_OFFSET * (old(self).len - old(self).index + 1) <= u64::MAX,
        ensures
            final(self).wf(),
            final(self).state == open_register(old(self).state),
            final(self).state == old(self).state + NESTING_OFFSET,
            final(self).same_but_state(*old(self)),
    {
        self.state = self.state + NESTING_OFFSET;
    }

    /// Moves the register as the `}` that was just read asks.
    pub fn leave_block(&mut self, bracket_depth: u64)
        requires
            old(self).wf(),
        ensures
            final(self).wf(),
            final(self).state == close_register(old(self).state, bracket_depth),
            final(self).same_but_state(*old(self)),
    {
        if bracket_depth == 0 || self.state < NESTING_OFFSET {
            if self.state % NESTING_OFFSET == TokenizerState::CodeToStructTop.flags() {
                self.state = TokenizerState::TopElementToStruct.flags();
            } else {
                self.state = TokenizerState::TopElement.flags();
            }
        } else {
            self.state = self.state - NESTING_OFFSET;
        }
    }

    /// The next token. It reads one token of code and counts the blocks that
    /// the tokens open and close.
    pub fn next(&mut self) -> (token: Token)
        requires
            old(self).wf(),
        ensures
            final(self).wf(),
            final(self).buffer == old(self).buffer,
            token == code_step(
                old(self).buffer@,
                old(self).index as int,
                old(self).state,
                old(self).bracket_depth,
            ).token,
            final(self).index == code_step(
                old(self).buffer@,
                old(self).index as int,
                old(self).state,
                old(self).bracket_depth,
            ).index,
            final(self).state == register_after(
                old(self).state,
                old(self).bracket_depth,
                token.token_type,
            ),
            final(self).bracket_depth == depth_after(old(self).bracket_depth, token.token_type),
            final(self).last == token,
    {
        let depth = self.bracket_depth;
        proof {
            lemma_code_step(self.buffer@, self.index as int, self.state, depth);
        }
        let token = next_code_token(self, depth);
        match token.token_type {
            TokenTypes::CodeStart => {
                self.bracket_depth = depth + 1;
            },
            TokenTypes::CodeEnd => {
                if depth > 0 {
                    self.bracket_depth = depth - 1;
                }
            },
            _ => {},
        }
        self.last = token;
        token
    }
}

} // verus!
