use vstd::prelude::*;
use vstd::slice::slice_to_vec;
use vstd::string::StringSliceAdditionalSpecFns;
use crate::syntax::errors::{ErrorModel, ParsingError};
use crate::syntax::types::{Types, TypesModel};
use crate::tokens::tokens::{Token, TokenTypes};
use crate::tokens::util::is_digit;
use crate::{types_model, ImportNameResolver};

verus! {

/// What a parse reads: the tokens of a file, the buffer that their spans
/// point into, and the name of the file.
pub struct SourceModel {
    pub tokens: Seq<Token>,
    pub buffer: Seq<u8>,
    pub file: Seq<u8>,
}

/// What a step of the parse yields: a value, the index of the token to read
/// next, and the label counter.
pub struct Parsed<T> {
    pub value: T,
    pub index: int,
    pub last_id: int,
}

/// A token of a category that the grammar has no place for where it stands:
/// tokenizer and parser disagree, and the compilation cannot go on.
#[derive(Clone, Copy, Debug, PartialEq, Eq, Structural)]
pub struct ParserDefect {
    pub token: Token,
}

/// The per-file state of a parse: the buffer, its tokens, the cursor among
/// them, the name of the file and its name resolver.
pub struct ParserUtils<'a> {
    pub buffer: &'a [u8],
    pub index: usize,
    pub tokens: Vec<Token>,
    pub file: Vec<u8>,
    pub imports: ImportNameResolver,
}

impl<'a> ParserUtils<'a> {
    /// What this context reads.
    pub open spec fn source(&self) -> SourceModel {
        SourceModel { tokens: self.tokens@, buffer: self.buffer@, file: self.file@ }
    }

    /// How many labels are left over once every token still to be read has
    /// been given one.
    pub open spec fn room(&self) -> int {
        u32::MAX - self.imports.last_id - (self.tokens.len() - self.index)
    }

    /// The cursor lies among the tokens or just behind them.
    pub open spec fn wf(&self) -> bool {
        self.index <= self.tokens.len()
    }

    /// Nothing but the cursor and the label counter differs from `other`, and
    /// neither has gone back.
    pub open spec fn advanced_from(&self, other: ParserUtils<'a>) -> bool {
        &&& self.buffer == other.buffer
        &&& self.tokens == other.tokens
        &&& self.file == other.file
        &&& self.imports.imports == other.imports.imports
        &&& self.imports.generics == other.imports.generics
        &&& self.imports.parent == other.imports.parent
        &&& other.index <= self.index <= self.tokens.len()
        &&& other.imports.last_id <= self.imports.last_id
    }

    /// The token at the cursor, or the end of file behind the last token.
    pub fn current(&self) -> (token: Token)
        ensures
            token == token_at(self.source(), self.index as int),
    {
        if self.index < self.tokens.len() {
            self.tokens[self.index]
        } else {
            Token::new(TokenTypes::EOF, self.buffer.len(), self.buffer.len())
        }
    }

    /// The token behind the one at the cursor, or the end of file.
    pub fn following(&self) -> (token: Token)
        ensures
            token == token_at(self.source(), self.index + 1),
    {
        if self.index < self.tokens.len() && self.index + 1 < self.tokens.len() {
            self.tokens[self.index + 1]
        } else {
            Token::new(TokenTypes::EOF, self.buffer.len(), self.buffer.len())
        }
    }

    /// A type that is known by `name` only, which `token` wrote: the lookup
    /// of the struct is left for later.
    pub fn get_struct(&self, token: &Token, name: Vec<u8>) -> (types: Types)
        ensures
            types@ == TypesModel::Unresolved(name@, *token),
    {
        Types::Unresolved(name, *token)
    }

    /// The error that blames `token` in this file.
    pub fn error(&self, token: &Token, text: &str) -> (error: ParsingError)
        ensures
            error@ == error_at(self.source(), *token, text.spec_bytes()),
    {
        token.make_error(slice_to_vec(self.file.as_slice()), message(text))
    }
}

/// The bytes of a message.
pub fn message(text: &str) -> (bytes: Vec<u8>)
    ensures
        bytes@ == text.spec_bytes(),
{
    slice_to_vec(text.as_bytes())
}

/// The token at `index`, or the end of file where no token stands there.
pub open spec fn token_at(source: SourceModel, index: int) -> Token {
    if 0 <= index < source.tokens.len() {
        source.tokens[index]
    } else {
        Token {
            token_type: TokenTypes::EOF,
            start: source.buffer.len() as usize,
            end: source.buffer.len() as usize,
        }
    }
}

/// The error that blames `token` of this source.
pub open spec fn error_at(source: SourceModel, token: Token, message: Seq<u8>) -> ErrorModel {
    token.spec_error(source.file, message)
}

/// Where a loop goes on after a nested parse that began behind `index` and
/// ended at `next`.
pub open spec fn advance(source: SourceModel, index: int, next: int) -> int {
    if index < next <= source.tokens.len() {
        next
    } else {
        index + 1
    }
}

/// Whether the lexeme of `token` is the one character `byte`.
pub open spec fn is_character(source: SourceModel, token: Token, byte: u8) -> bool {
    token.spec_text(source.buffer) == seq![byte]
}

/// Whether the lexeme of `token` is the one character `byte`.
pub fn token_is(buffer: &[u8], token: &Token, byte: u8) -> (is: bool)
    ensures
        is == (token.spec_text(buffer@) == seq![byte]),
{
    if token.start < token.end && token.end <= buffer.len() && token.end - token.start == 1 {
        assert(token.spec_text(buffer@).len() == 1);
        assert(token.spec_text(buffer@)[0] == buffer@[token.start as int]);
        if buffer[token.start] == byte {
            assert(token.spec_text(buffer@) =~= seq![byte]);
            true
        } else {
            false
        }
    } else {
        assert(token.spec_text(buffer@).len() != 1);
        false
    }
}

/// The number that a string of decimal digits writes.
pub open spec fn decimal_value(digits: Seq<u8>) -> nat
    decreases digits.len(),
{
    if digits.len() == 0 {
        0
    } else {
        (decimal_value(digits.drop_last()) * 10 + (digits.last() - '0' as u8)) as nat
    }
}

/// The value of an integer literal: that of its digits, where it is made of
/// digits, holds at least one, and fits.
pub open spec fn integer_value(text: Seq<u8>) -> Option<i64> {
    if text.len() > 0 && (forall|i: int| 0 <= i < text.len() ==> is_digit(#[trigger] text[i]))
        && decimal_value(text) <= i64::MAX {
        Some(decimal_value(text) as i64)
    } else {
        None
    }
}

/// The value of a digit string grows with each digit.
pub proof fn lemma_decimal_value_grows(digits: Seq<u8>, count: int)
    requires
        0 <= count <= digits.len(),
        forall|i: int| 0 <= i < digits.len() ==> is_digit(#[trigger] digits[i]),
    ensures
        decimal_value(digits.take(count)) <= decimal_value(digits),
    decreases digits.len() - count,
{
    if count < digits.len() {
        lemma_decimal_value_grows(digits, count + 1);
        assert(digits.take(count + 1).drop_last() =~= digits.take(count));
        assert(digits.take(count + 1).last() == digits[count]);
    } else {
        assert(digits.take(count) =~= digits);
    }
}

/// Reads an integer literal.
pub fn parse_integer(text: &[u8]) -> (value: Option<i64>)
    ensures
        value == integer_value(text@),
{
    if text.len() == 0 {
        return None;
    }
    let mut value: i64 = 0;
    let mut i: usize = 0;
    while i < text.len()
        invariant
            i <= text.len(),
            0 <= value,
            value == decimal_value(text@.take(i as int)),
            forall|j: int| 0 <= j < i ==> is_digit(#[trigger] text@[j]),
        decreases text.len() - i,
    {
        let byte = text[i];
        if byte < '0' as u8 || byte > '9' as u8 {
            return None;
        }
        let digit = (byte - '0' as u8) as i64;
        assert(text@.take(i + 1).drop_last() =~= text@.take(i as int));
        assert(text@.take(i + 1).last() == byte);
        if value > (i64::MAX - digit) / 10 {
            proof {
                let ghost rest = text@;
                if forall|j: int| 0 <= j < rest.len() ==> is_digit(#[trigger] rest[j]) {
                    lemma_decimal_value_grows(rest, i + 1);
                }
            }
            return None;
        }
        value = value * 10 + digit;
        i += 1;
    }
    assert(text@.take(text.len() as int) =~= text@);
    Some(value)
}

/// The decimal digits that write `number`.
pub open spec fn decimal_text(number: int) -> Seq<u8>
    decreases number,
{
    if number < 10 {
        seq![('0' as u8 + number) as u8]
    } else {
        decimal_text(number / 10).push(('0' as u8 + number % 10) as u8)
    }
}

/// Writes a label counter as a label.
pub fn render_label(id: u32) -> (label: Vec<u8>)
    ensures
        label@ == decimal_text(id as int),
{
    let mut digits: Vec<u8> = Vec::new();
    let mut rest = id;
    assert(decimal_text(id as int) =~= decimal_text(id as int) + reversed(digits@));
    while rest >= 10
        invariant
            decimal_text(id as int) == decimal_text(rest as int) + reversed(digits@),
        decreases rest,
    {
        let ghost before = digits@;
        digits.push('0' as u8 + (rest % 10) as u8);
        proof {
            assert(reversed(digits@) =~= seq![digits@.last()] + reversed(before)) by {
                assert(digits@.drop_last() =~= before);
            }
            assert(decimal_text(rest as int) == decimal_text(rest as int / 10).push(
                digits@.last(),
            ));
            assert(decimal_text(rest as int / 10).push(digits@.last()) + reversed(before)
                =~= decimal_text(rest as int / 10) + (seq![digits@.last()] + reversed(before)));
        }
        rest = rest / 10;
    }
    let mut label: Vec<u8> = Vec::new();
    label.push('0' as u8 + rest as u8);
    let mut i = digits.len();
    proof {
        assert(digits@.take(i as int) =~= digits@);
        assert(label@ =~= decimal_text(rest as int));
    }
    while i > 0
        invariant
            i <= digits.len(),
            label@ + reversed(digits@.take(i as int)) == decimal_text(rest as int) + reversed(
                digits@,
            ),
        decreases i,
    {
        i -= 1;
        let ghost before = label@;
        label.push(digits[i]);
        proof {
            let taken = digits@.take(i + 1);
            assert(taken.drop_last() =~= digits@.take(i as int));
            assert(reversed(taken) =~= seq![digits@[i as int]] + reversed(digits@.take(i as int)));
            assert(label@ + reversed(digits@.take(i as int)) =~= before + reversed(taken));
        }
    }
    proof {
        assert(digits@.take(0) =~= Seq::<u8>::empty());
        assert(label@ + reversed(digits@.take(0)) =~= label@);
    }
    label
}

/// A string of bytes, last byte first.
pub open spec fn reversed(bytes: Seq<u8>) -> Seq<u8>
    decreases bytes.len(),
{
    if bytes.len() == 0 {
        Seq::empty()
    } else {
        seq![bytes.last()] + reversed(bytes.drop_last())
    }
}

/// What a type with generic arguments reads, and the index behind it.
pub struct ParsedType {
    pub value: TypesModel,
    pub index: int,
}

/// The generic arguments of `base`, read from behind their `<`: names
/// between commas, each with arguments of its own where a `<` follows it, up
/// to the `>`. A token that cannot stand among them ends them and is left for
/// the caller.
pub open spec fn generics_from(
    source: SourceModel,
    index: int,
    base: TypesModel,
    arguments: Seq<TypesModel>,
) -> ParsedType
    decreases source.tokens.len() - index,
{
    if index < 0 || index >= source.tokens.len() {
        ParsedType { value: TypesModel::Generic(Box::new(base), arguments), index }
    } else {
        let token = source.tokens[index];
        match token.token_type {
            TokenTypes::Variable => generics_from(
                source,
                index + 1,
                base,
                arguments.push(TypesModel::Unresolved(token.spec_text(source.buffer), token)),
            ),
            TokenTypes::ArgumentEnd | TokenTypes::InvalidCharacters => generics_from(
                source,
                index + 1,
                base,
                arguments,
            ),
            TokenTypes::Operator => if is_character(source, token, '>' as u8) {
                ParsedType {
                    value: TypesModel::Generic(Box::new(base), arguments),
                    index: index + 1,
                }
            } else if is_character(source, token, '<' as u8) && arguments.len() > 0 {
                let inner = generics_from(source, index + 1, arguments.last(), Seq::empty());
                generics_from(
                    source,
                    advance(source, index, inner.index),
                    base,
                    arguments.drop_last().push(inner.value),
                )
            } else {
                ParsedType { value: TypesModel::Generic(Box::new(base), arguments), index }
            },
            _ => ParsedType { value: TypesModel::Generic(Box::new(base), arguments), index },
        }
    }
}


/// Parses the generic arguments of `base` from behind their `<`.
#[verifier::loop_isolation(false)]
pub fn add_generics(base: Types, parser_utils: &mut ParserUtils) -> (made: Types)
    requires
        old(parser_utils).wf(),
    ensures
        final(parser_utils).advanced_from(*old(parser_utils)),
        final(parser_utils).imports.last_id == old(parser_utils).imports.last_id,
        made@ == generics_from(
            old(parser_utils).source(),
            old(parser_utils).index as int,
            base@,
            Seq::empty(),
        ).value,
        final(parser_utils).index == generics_from(
            old(parser_utils).source(),
            old(parser_utils).index as int,
            base@,
            Seq::empty(),
        ).index,
    decreases old(parser_utils).tokens.len() - old(parser_utils).index,
{
    let mut arguments: Vec<Types> = Vec::new();
    let ghost start = *parser_utils;
    let ghost goal = generics_from(start.source(), start.index as int, base@, Seq::empty());
    assert(types_model(arguments@) =~= Seq::empty());
    loop
        invariant
            start.wf(),
            parser_utils.advanced_from(start),
            parser_utils.imports.last_id == start.imports.last_id,
            generics_from(
                parser_utils.source(),
                parser_utils.index as int,
                base@,
                types_model(arguments@),
            ) == goal,
        decreases parser_utils.tokens.len() - parser_utils.index,
    {
        let ghost before = arguments@;
        if parser_utils.index >= parser_utils.tokens.len() {
            return generic_type(base, arguments);
        }
        let token = parser_utils.tokens[parser_utils.index];
        match token.token_type {
            TokenTypes::Variable => {
                parser_utils.index += 1;
                arguments.push(parser_utils.get_struct(&token, token.text(parser_utils.buffer)));
                assert(types_model(arguments@) =~= types_model(before).push(arguments@.last()@));
            },
            TokenTypes::ArgumentEnd | TokenTypes::InvalidCharacters => {
                parser_utils.index += 1;
            },
            TokenTypes::Operator => {
                if token_is(parser_utils.buffer, &token, '>' as u8) {
                    parser_utils.index += 1;
                    return generic_type(base, arguments);
                } else if token_is(parser_utils.buffer, &token, '<' as u8) && arguments.len() > 0 {
                    parser_utils.index += 1;
                    let last = arguments.pop().unwrap();
                    assert(types_model(arguments@) =~= types_model(before).drop_last());
                    let ghost popped = arguments@;
                    arguments.push(add_generics(last, parser_utils));
                    assert(types_model(arguments@) =~= types_model(popped).push(
                        arguments@.last()@,
                    ));
                } else {
                    return generic_type(base, arguments);
                }
            },
            _ => {
                return generic_type(base, arguments);
            },
        }
    }
}

/// The generic type of `base` with `arguments`.
pub fn generic_type(base: Types, arguments: Vec<Types>) -> (made: Types)
    ensures
        made@ == TypesModel::Generic(Box::new(base@), types_model(arguments@)),
{
    let made = Types::Generic(Box::new(base), arguments);
    assert(made@->Generic_1 =~= types_model(arguments@));
    made
}

} // verus!
