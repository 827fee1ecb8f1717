use vstd::prelude::*;
use vstd::string::StringSliceAdditionalSpecFns;
use crate::parser::control_parser::parse_for;
use crate::parser::operator_parser::parse_operator;
use crate::parser::util::{
    add_generics, advance, decimal_text, error_at, generics_from, integer_value, is_character,
    parse_integer, render_label, token_at, token_is, Parsed,
    ParserDefect, ParserUtils, SourceModel,
};
use crate::syntax::code::{
    arguments_model, lemma_arguments_model, lines_model, optional_model, CodeBody, CodeBodyModel, Effects,
    EffectsModel, Expression, ExpressionModel, ExpressionType, FieldSlot, FieldSlotModel,
};
use crate::syntax::errors::{ErrorModel, ParsingError};
use crate::syntax::types::{Types, TypesModel};
use crate::tokens::tokens::{Token, TokenTypes};

verus! {

/// What a line is worth when it ends: the effect read so far, or nothing.
pub open spec fn line_value(role: ExpressionType, effect: Option<EffectsModel>) -> Option<
    (ExpressionType, EffectsModel),
> {
    Some(
        (
            role,
            match effect {
                Some(effect) => effect,
                None => EffectsModel::NOP,
            },
        ),
    )
}

/// What a line is worth where the body ends before the line does: the line
/// as far as it was read, or nothing where nothing of it was read.
pub open spec fn unfinished_line(role: ExpressionType, effect: Option<EffectsModel>) -> Option<
    (ExpressionType, EffectsModel),
> {
    if effect is Some || role == ExpressionType::Return {
        line_value(role, effect)
    } else {
        None
    }
}

/// The effect of a line that may be missing.
pub open spec fn line_effect(line: Option<(ExpressionType, EffectsModel)>) -> Option<
    EffectsModel,
> {
    match line {
        Some(line) => Some(line.1),
        None => None,
    }
}

/// The effect of a line, or the given failure where the line is missing.
pub open spec fn effect_or(
    line: Option<(ExpressionType, EffectsModel)>,
    source: SourceModel,
    blamed: Token,
    message: Seq<u8>,
) -> EffectsModel {
    match line {
        Some(line) => line.1,
        None => EffectsModel::Error(error_at(source, blamed, message)),
    }
}

/// The constant that an integer token writes, or a failure where its digits
/// do not fit.
pub open spec fn integer_effect(source: SourceModel, token: Token) -> EffectsModel {
    match integer_value(token.spec_text(source.buffer)) {
        Some(value) => EffectsModel::Int(value),
        None => EffectsModel::Error(
            error_at(source, token, "Integer literal out of range!".spec_bytes()),
        ),
    }
}

/// Whether the `=` at `index` assigns: something stands before it, and no
/// operator follows it.
pub open spec fn assigns(source: SourceModel, index: int, effect: Option<EffectsModel>) -> bool {
    &&& is_character(source, token_at(source, index), '=' as u8)
    &&& effect is Some
    &&& token_at(source, index + 1).token_type != TokenTypes::Operator
}

/// The slot that the parser gives an argument: the name as written, the
/// position left open.
pub open spec fn open_slot(name: Seq<u8>) -> FieldSlotModel {
    FieldSlotModel { name, index: 0 }
}

/// The arguments of a struct construction at its end: a name that is still
/// pending stands for the variable of that name.
pub open spec fn closed_arguments(
    values: Seq<(FieldSlotModel, EffectsModel)>,
    name: Seq<u8>,
) -> Seq<(FieldSlotModel, EffectsModel)> {
    if name.len() > 0 {
        values.push((open_slot(name), EffectsModel::LoadVariable(name)))
    } else {
        values
    }
}

/// Where the operator that begins before `index` ends: behind the last of
/// the operator tokens that follow one another without a gap.
pub open spec fn operator_end(source: SourceModel, index: int) -> int
    decreases source.tokens.len() - index,
{
    if 1 <= index < source.tokens.len() && source.tokens[index].token_type
        == TokenTypes::Operator && source.tokens[index].start == source.tokens[index - 1].end {
        operator_end(source, index + 1)
    } else {
        index
    }
}

/// An operator ends at or behind the token after its first, among the tokens.
pub proof fn lemma_operator_end(source: SourceModel, index: int)
    requires
        1 <= index <= source.tokens.len(),
    ensures
        index <= operator_end(source, index) <= source.tokens.len(),
    decreases source.tokens.len() - index,
{
    if index < source.tokens.len() && source.tokens[index].token_type == TokenTypes::Operator
        && source.tokens[index].start == source.tokens[index - 1].end {
        lemma_operator_end(source, index + 1);
    }
}

/// The text of the operator whose first token stands before `index`.
pub open spec fn operator_text(source: SourceModel, index: int) -> Seq<u8> {
    (Token {
        token_type: TokenTypes::Operator,
        start: token_at(source, index - 1).start,
        end: token_at(source, operator_end(source, index) - 1).end,
    }).spec_text(source.buffer)
}

/// What reading one token of a line yields: the line goes on with the
/// effect and the role that it has then, or it is done.
pub enum LineStep {
    Continue { index: int, last_id: int, effect: Option<EffectsModel>, role: ExpressionType },
    Done(Parsed<Option<(ExpressionType, EffectsModel)>>),
}

/// The step of a line that goes on.
pub open spec fn goes_on(
    index: int,
    last_id: int,
    effect: Option<EffectsModel>,
    role: ExpressionType,
) -> Result<LineStep, Token> {
    Ok(LineStep::Continue { index, last_id, effect, role })
}

/// The step of a line that is done.
pub open spec fn done(
    value: Option<(ExpressionType, EffectsModel)>,
    index: int,
    last_id: int,
) -> Result<LineStep, Token> {
    Ok(LineStep::Done(Parsed { value, index, last_id }))
}

/// What the token at `index` makes of a line that has read `effect` and has
/// the role `role` so far. A struct construction that is malformed ends the
/// line where it failed; a line that the end of the body cuts short ends
/// before the `}`, which is left for the next line to find. `Err` holds the
/// token that the grammar has no place for.
pub open spec fn line_step(
    source: SourceModel,
    index: int,
    last_id: int,
    effect: Option<EffectsModel>,
    role: ExpressionType,
    break_at_body: bool,
    deep: bool,
) -> Result<LineStep, Token>
    decreases source.tokens.len() - index, 1int,
{
    if index < 0 || index >= source.tokens.len() {
        done(unfinished_line(role, effect), index, last_id)
    } else {
        let token = source.tokens[index];
        let next = index + 1;
        match token.token_type {
            TokenTypes::ParenOpen => match line_from(
                source,
                next,
                last_id,
                None,
                ExpressionType::Line,
                break_at_body,
                true,
            ) {
                Ok(inner) => goes_on(
                    advance(source, index, inner.index),
                    inner.last_id,
                    line_effect(inner.value),
                    role,
                ),
                Err(defect) => Err(defect),
            },
            TokenTypes::Float => goes_on(
                next,
                last_id,
                Some(EffectsModel::Float(token.spec_text(source.buffer))),
                role,
            ),
            TokenTypes::Integer => goes_on(
                next,
                last_id,
                Some(integer_effect(source, token)),
                role,
            ),
            TokenTypes::LineEnd | TokenTypes::ParenClose => done(
                line_value(role, effect),
                next,
                last_id,
            ),
            TokenTypes::CodeEnd | TokenTypes::EOF => match unfinished_line(role, effect) {
                Some(line) => done(Some(line), index, last_id),
                None => done(None, next, last_id),
            },
            TokenTypes::Variable => goes_on(
                next,
                last_id,
                Some(EffectsModel::LoadVariable(token.spec_text(source.buffer))),
                role,
            ),
            TokenTypes::Return => goes_on(next, last_id, effect, ExpressionType::Return),
            TokenTypes::New => match new_from(source, next, last_id, None) {
                Ok(made) => if made.value is Error {
                    done(Some((role, made.value)), made.index, made.last_id)
                } else {
                    goes_on(
                        advance(source, index, made.index),
                        made.last_id,
                        Some(made.value),
                        role,
                    )
                },
                Err(defect) => Err(defect),
            },
            TokenTypes::CodeStart => if break_at_body {
                done(line_value(role, effect), next, last_id)
            } else {
                match code_from(source, next, last_id, Seq::empty()) {
                    Ok(body) => goes_on(
                        advance(source, index, body.index),
                        body.last_id,
                        Some(EffectsModel::CodeBody(body.value)),
                        role,
                    ),
                    Err(defect) => Err(defect),
                }
            },
            TokenTypes::Let => match let_from(source, next, last_id) {
                Ok(made) => done(Some((role, made.value)), made.index, made.last_id),
                Err(defect) => Err(defect),
            },
            TokenTypes::For => match for_from(source, next, last_id) {
                Ok(made) => done(Some((role, made.value)), made.index, made.last_id),
                Err(defect) => Err(defect),
            },
            TokenTypes::Operator => operation_from(source, index, last_id, effect, role),
            TokenTypes::ArgumentEnd => if deep {
                goes_on(next, last_id, effect, role)
            } else {
                done(line_value(role, effect), next, last_id)
            },
            TokenTypes::InvalidCharacters => goes_on(next, last_id, effect, role),
            _ => Err(token),
        }
    }
}

/// The rest of a line, read from `index` with `effect` read so far and the
/// role that the line has so far: token after token, until one ends the
/// line. `Ok` holds the line, or nothing where the body ends instead; `Err`
/// holds the token that the grammar has no place for.
pub open spec fn line_from(
    source: SourceModel,
    index: int,
    last_id: int,
    effect: Option<EffectsModel>,
    role: ExpressionType,
    break_at_body: bool,
    deep: bool,
) -> Result<Parsed<Option<(ExpressionType, EffectsModel)>>, Token>
    decreases source.tokens.len() - index, 2int,
{
    if index < 0 || index >= source.tokens.len() {
        Ok(Parsed { value: unfinished_line(role, effect), index, last_id })
    } else {
        match line_step(source, index, last_id, effect, role, break_at_body, deep) {
            Ok(LineStep::Continue { index: next, last_id, effect, role }) => line_from(
                source,
                advance(source, index, next),
                last_id,
                effect,
                role,
                break_at_body,
                deep,
            ),
            Ok(LineStep::Done(line)) => Ok(line),
            Err(defect) => Err(defect),
        }
    }
}

/// The rest of a body, read from `index` with the `lines` read so far. The
/// body ends where a line yields nothing; it then takes the next label.
pub open spec fn code_from(
    source: SourceModel,
    index: int,
    last_id: int,
    lines: Seq<ExpressionModel>,
) -> Result<Parsed<CodeBodyModel>, Token>
    decreases source.tokens.len() - index, 3int,
{
    if index < 0 || index >= source.tokens.len() {
        Ok(
            Parsed {
                value: CodeBodyModel { label: decimal_text(last_id), expressions: lines },
                index,
                last_id: last_id + 1,
            },
        )
    } else {
        match line_from(source, index, last_id, None, ExpressionType::Line, false, false) {
            Ok(line) => match line.value {
                Some(value) => code_from(
                    source,
                    advance(source, index, line.index),
                    line.last_id,
                    lines.push(ExpressionModel { expression_type: value.0, effect: value.1 }),
                ),
                None => Ok(
                    Parsed {
                        value: CodeBodyModel {
                            label: decimal_text(line.last_id),
                            expressions: lines,
                        },
                        index: line.index,
                        last_id: line.last_id + 1,
                    },
                ),
            },
            Err(defect) => Err(defect),
        }
    }
}

/// A variable creation, read from behind its `let`: a name, a `=`, and the
/// line that gives the first value. Where the name or the `=` is missing the
/// result is a failure that blames the token found instead, and nothing is
/// read.
pub open spec fn let_from(source: SourceModel, index: int, last_id: int) -> Result<
    Parsed<EffectsModel>,
    Token,
>
    decreases source.tokens.len() - index, 3int,
{
    let name = token_at(source, index);
    let equals = token_at(source, index + 1);
    if index < 0 || name.token_type != TokenTypes::Variable {
        Ok(
            Parsed {
                value: EffectsModel::Error(
                    error_at(
                        source,
                        name,
                        "Unexpected token, expected variable name!".spec_bytes(),
                    ),
                ),
                index,
                last_id,
            },
        )
    } else if !(equals.token_type == TokenTypes::Operator && is_character(
        source,
        equals,
        '=' as u8,
    )) {
        Ok(
            Parsed {
                value: EffectsModel::Error(
                    error_at(source, equals, "Unexpected token, expected equals!".spec_bytes()),
                ),
                index,
                last_id,
            },
        )
    } else {
        match line_from(source, index + 2, last_id, None, ExpressionType::Line, false, false) {
            Ok(line) => Ok(
                Parsed {
                    value: match line.value {
                        Some(value) => EffectsModel::CreateVariable(
                            name.spec_text(source.buffer),
                            Box::new(value.1),
                        ),
                        None => EffectsModel::Error(
                            error_at(
                                source,
                                token_at(source, line.index),
                                "Expected value, found void!".spec_bytes(),
                            ),
                        ),
                    },
                    index: line.index,
                    last_id: line.last_id,
                },
            ),
            Err(defect) => Err(defect),
        }
    }
}

/// A loop, read from behind its `for`: the name of the variable, the word
/// `in`, the line that gives what to loop over, up to the `{`, and the body.
/// Where the name or the `in` is missing the result is a failure that blames
/// the token found instead, and nothing is read.
pub open spec fn for_from(source: SourceModel, index: int, last_id: int) -> Result<
    Parsed<EffectsModel>,
    Token,
>
    decreases source.tokens.len() - index, 3int,
{
    let name = token_at(source, index);
    let word = token_at(source, index + 1);
    if index < 0 || name.token_type != TokenTypes::Variable {
        Ok(
            Parsed {
                value: EffectsModel::Error(
                    error_at(source, name, "Expected variable name!".spec_bytes()),
                ),
                index,
                last_id,
            },
        )
    } else if !(word.token_type == TokenTypes::Variable && word.spec_text(source.buffer)
        == "in".spec_bytes()) {
        Ok(
            Parsed {
                value: EffectsModel::Error(
                    error_at(source, word, "Missing \"in\" in for loop.".spec_bytes()),
                ),
                index,
                last_id,
            },
        )
    } else {
        match line_from(source, index + 2, last_id, None, ExpressionType::Line, true, false) {
            Ok(line) => match code_from(
                source,
                advance(source, index, line.index),
                line.last_id,
                Seq::empty(),
            ) {
                Ok(body) => Ok(
                    Parsed {
                        value: EffectsModel::ForLoop(
                            name.spec_text(source.buffer),
                            Box::new(
                                effect_or(
                                    line.value,
                                    source,
                                    word,
                                    "Expected value, found void!".spec_bytes(),
                                ),
                            ),
                            body.value,
                        ),
                        index: body.index,
                        last_id: body.last_id,
                    },
                ),
                Err(defect) => Err(defect),
            },
            Err(defect) => Err(defect),
        }
    }
}

/// An operator application, read from behind the first token of its
/// operator: the operator takes the operator tokens that follow without a
/// gap, and the rest of the line is its right operand.
pub open spec fn operator_from(
    source: SourceModel,
    index: int,
    last_id: int,
    left: Option<EffectsModel>,
) -> Result<Parsed<EffectsModel>, Token>
    decreases source.tokens.len() - index, 3int,
{
    if index < 1 || index > source.tokens.len() {
        Ok(Parsed { value: EffectsModel::NOP, index, last_id })
    } else {
        proof {
            lemma_operator_end(source, index);
        }
        match line_from(
            source,
            operator_end(source, index),
            last_id,
            None,
            ExpressionType::Line,
            false,
            false,
        ) {
            Ok(line) => Ok(
                Parsed {
                    value: EffectsModel::Operation(
                        operator_text(source, index),
                        Box::new(
                            match left {
                                Some(left) => left,
                                None => EffectsModel::NOP,
                            },
                        ),
                        Box::new(
                            effect_or(
                                line.value,
                                source,
                                token_at(source, index - 1),
                                "Expected value, found void!".spec_bytes(),
                            ),
                        ),
                    ),
                    index: line.index,
                    last_id: line.last_id,
                },
            ),
            Err(defect) => Err(defect),
        }
    }
}

/// The rest of a struct construction, read from `index` with the type read
/// so far: the name of the type, its generic arguments where a `<` follows,
/// and the arguments between `{` and `}`. A token that cannot stand there
/// makes the result a failure that blames it.
pub open spec fn new_from(
    source: SourceModel,
    index: int,
    last_id: int,
    types: Option<TypesModel>,
) -> Result<Parsed<EffectsModel>, Token>
    decreases source.tokens.len() - index, 0int,
{
    if index < 0 || index >= source.tokens.len() {
        Ok(
            Parsed {
                value: EffectsModel::Error(
                    error_at(
                        source,
                        token_at(source, index),
                        "Unexpected token in struct construction!".spec_bytes(),
                    ),
                ),
                index,
                last_id,
            },
        )
    } else {
        let token = source.tokens[index];
        let next = index + 1;
        let unexpected = Ok(
            Parsed {
                value: EffectsModel::Error(
                    error_at(
                        source,
                        token,
                        "Unexpected token in struct construction!".spec_bytes(),
                    ),
                ),
                index: next,
                last_id,
            },
        );
        match token.token_type {
            TokenTypes::Variable => new_from(
                source,
                next,
                last_id,
                Some(TypesModel::Unresolved(token.spec_text(source.buffer), token)),
            ),
            TokenTypes::Operator => match types {
                Some(base) => if is_character(source, token, '<' as u8) {
                    let generic = generics_from(source, next, base, Seq::empty());
                    new_from(
                        source,
                        advance(source, index, generic.index),
                        last_id,
                        Some(generic.value),
                    )
                } else {
                    unexpected
                },
                None => unexpected,
            },
            TokenTypes::CodeStart => match types {
                Some(types) => match arguments_from(
                    source,
                    next,
                    last_id,
                    Seq::empty(),
                    Seq::empty(),
                ) {
                    Ok(arguments) => Ok(
                        Parsed {
                            value: match arguments.value.failure {
                                Some(error) => EffectsModel::Error(error),
                                None => EffectsModel::CreateStruct(types, arguments.value.values),
                            },
                            index: arguments.index,
                            last_id: arguments.last_id,
                        },
                    ),
                    Err(defect) => Err(defect),
                },
                None => unexpected,
            },
            TokenTypes::InvalidCharacters => new_from(source, next, last_id, types),
            _ => unexpected,
        }
    }
}

/// What the arguments of a struct construction read: the arguments, and
/// the failure that cut them short, if one did.
pub struct ArgumentsModel {
    pub values: Seq<(FieldSlotModel, EffectsModel)>,
    pub failure: Option<ErrorModel>,
}

/// The rest of the arguments of a struct construction, read from `index`
/// with the `values` read so far and the `name` that waits for its value. An
/// argument is `name: value`, or a bare `name`, which stands for the variable
/// of that name. A value ends at its `,` or before the `}`. A value that is
/// missing, and a token that cannot stand among the arguments, end the list
/// with a failure.
pub open spec fn arguments_from(
    source: SourceModel,
    index: int,
    last_id: int,
    values: Seq<(FieldSlotModel, EffectsModel)>,
    name: Seq<u8>,
) -> Result<Parsed<ArgumentsModel>, Token>
    decreases source.tokens.len() - index, 0int,
{
    if index < 0 || index >= source.tokens.len() {
        Ok(
            Parsed {
                value: ArgumentsModel { values: closed_arguments(values, name), failure: None },
                index,
                last_id,
            },
        )
    } else {
        let token = source.tokens[index];
        let next = index + 1;
        let unexpected = Ok(
            Parsed {
                value: ArgumentsModel {
                    values,
                    failure: Some(
                        error_at(
                            source,
                            token,
                            "Unexpected token in struct arguments!".spec_bytes(),
                        ),
                    ),
                },
                index: next,
                last_id,
            },
        );
        match token.token_type {
            TokenTypes::Variable => arguments_from(
                source,
                next,
                last_id,
                values,
                token.spec_text(source.buffer),
            ),
            TokenTypes::Operator => if is_character(source, token, ':' as u8) {
                match line_from(source, next, last_id, None, ExpressionType::Line, false, false) {
                    Ok(line) => match line.value {
                        Some(value) => arguments_from(
                            source,
                            advance(source, index, line.index),
                            line.last_id,
                            values.push((open_slot(name), value.1)),
                            Seq::empty(),
                        ),
                        None => Ok(
                            Parsed {
                                value: ArgumentsModel {
                                    values,
                                    failure: Some(
                                        error_at(
                                            source,
                                            token,
                                            "Expected something, found void".spec_bytes(),
                                        ),
                                    ),
                                },
                                index: line.index,
                                last_id: line.last_id,
                            },
                        ),
                    },
                    Err(defect) => Err(defect),
                }
            } else {
                unexpected
            },
            TokenTypes::ArgumentEnd => arguments_from(
                source,
                next,
                last_id,
                values.push((open_slot(name), EffectsModel::LoadVariable(name))),
                Seq::empty(),
            ),
            TokenTypes::CodeEnd | TokenTypes::EOF => Ok(
                Parsed {
                    value: ArgumentsModel { values: closed_arguments(values, name), failure: None },
                    index: next,
                    last_id,
                },
            ),
            TokenTypes::InvalidCharacters => arguments_from(source, next, last_id, values, name),
            _ => unexpected,
        }
    }
}

/// The value of a line that may be missing.
pub open spec fn line_model(line: Option<(ExpressionType, Effects)>) -> Option<
    (ExpressionType, EffectsModel),
> {
    match line {
        Some(line) => Some((line.0, line.1@)),
        None => None,
    }
}

/// Whether a parse of a line ended as `outcome` says.
pub open spec fn line_parsed(
    line: Result<Option<(ExpressionType, Effects)>, ParserDefect>,
    after: ParserUtils,
    outcome: Result<Parsed<Option<(ExpressionType, EffectsModel)>>, Token>,
) -> bool {
    match outcome {
        Ok(parsed) => {
            &&& line matches Ok(value)
            &&& line_model(value) == parsed.value
            &&& after.index == parsed.index
            &&& after.imports.last_id == parsed.last_id
        },
        Err(token) => line matches Err(defect) && defect.token == token,
    }
}

/// Whether a parse of an effect ended as `outcome` says.
pub open spec fn effect_parsed(
    effect: Result<Effects, ParserDefect>,
    after: ParserUtils,
    outcome: Result<Parsed<EffectsModel>, Token>,
) -> bool {
    match outcome {
        Ok(parsed) => {
            &&& effect matches Ok(value)
            &&& value@ == parsed.value
            &&& after.index == parsed.index
            &&& after.imports.last_id == parsed.last_id
        },
        Err(token) => effect matches Err(defect) && defect.token == token,
    }
}

/// Whether a parse of a body ended as `outcome` says.
pub open spec fn body_parsed(
    body: Result<CodeBody, ParserDefect>,
    after: ParserUtils,
    outcome: Result<Parsed<CodeBodyModel>, Token>,
) -> bool {
    match outcome {
        Ok(parsed) => {
            &&& body matches Ok(value)
            &&& value@ == parsed.value
            &&& after.index == parsed.index
            &&& after.imports.last_id == parsed.last_id
        },
        Err(token) => body matches Err(defect) && defect.token == token,
    }
}

/// Whether a parse of struct arguments ended as `outcome` says.
pub open spec fn arguments_parsed(
    arguments: Result<(Vec<(FieldSlot, Effects)>, Option<ParsingError>), ParserDefect>,
    after: ParserUtils,
    outcome: Result<Parsed<ArgumentsModel>, Token>,
) -> bool {
    match outcome {
        Ok(parsed) => {
            &&& arguments matches Ok(value)
            &&& arguments_model(value.0@) == parsed.value.values
            &&& match parsed.value.failure {
                Some(error) => value.1 matches Some(found) && found@ == error,
                None => value.1 is None,
            }
            &&& after.index == parsed.index
            &&& after.imports.last_id == parsed.last_id
        },
        Err(token) => arguments matches Err(defect) && defect.token == token,
    }
}

/// Parses a body: line after line until one yields nothing, under a label
/// of its own.
#[verifier::loop_isolation(false)]
pub fn parse_code(parser_utils: &mut ParserUtils) -> (body: Result<CodeBody, ParserDefect>)
    requires
        old(parser_utils).wf(),
        old(parser_utils).room() >= 1,
    ensures
        final(parser_utils).advanced_from(*old(parser_utils)),
        final(parser_utils).room() >= old(parser_utils).room() - 1,
        body_parsed(
            body,
            *final(parser_utils),
            code_from(
                old(parser_utils).source(),
                old(parser_utils).index as int,
                old(parser_utils).imports.last_id as int,
                Seq::empty(),
            ),
        ),
    decreases old(parser_utils).tokens.len() - old(parser_utils).index, 2int,
{
    let mut lines: Vec<Expression> = Vec::new();
    let ghost start = *parser_utils;
    let ghost goal = code_from(
        start.source(),
        start.index as int,
        start.imports.last_id as int,
        Seq::empty(),
    );
    assert(lines_model(lines@) =~= Seq::empty());
    loop
        invariant
            start.wf(),
            start.room() >= 1,
            parser_utils.advanced_from(start),
            parser_utils.room() >= start.room(),
            code_from(
                parser_utils.source(),
                parser_utils.index as int,
                parser_utils.imports.last_id as int,
                lines_model(lines@),
            ) == goal,
        decreases parser_utils.tokens.len() - parser_utils.index,
    {
        let ghost before = lines@;
        match parse_line(parser_utils, false, false) {
            Ok(Some((expression_type, effect))) => {
                lines.push(get_line(effect, expression_type));
                assert(lines_model(lines@) =~= lines_model(before).push(lines@.last()@));
            },
            Ok(None) => {
                let id = parser_utils.imports.last_id;
                parser_utils.imports.last_id = id + 1;
                return Ok(create_body(id, lines));
            },
            Err(defect) => {
                return Err(defect);
            },
        }
    }
}

/// What reading one token has made of a line: it goes on with the effect
/// and the role that it has now, or it is done.
pub enum Progress {
    Continue(Option<Effects>, ExpressionType),
    Done(Option<(ExpressionType, Effects)>),
}

/// Whether reading a token ended as `outcome` says.
pub open spec fn step_parsed(
    progress: Result<Progress, ParserDefect>,
    after: ParserUtils,
    outcome: Result<LineStep, Token>,
) -> bool {
    match outcome {
        Ok(LineStep::Continue { index, last_id, effect, role }) => {
            &&& progress matches Ok(Progress::Continue(held, kept))
            &&& optional_model(held) == effect
            &&& kept == role
            &&& after.index == index
            &&& after.imports.last_id == last_id
        },
        Ok(LineStep::Done(parsed)) => {
            &&& progress matches Ok(Progress::Done(line))
            &&& line_model(line) == parsed.value
            &&& after.index == parsed.index
            &&& after.imports.last_id == parsed.last_id
        },
        Err(token) => progress matches Err(defect) && defect.token == token,
    }
}

/// Reads the token at the cursor into a line that holds `effect` and has the
/// role `expression_type` so far.
fn parse_token(
    parser_utils: &mut ParserUtils,
    effect: Option<Effects>,
    expression_type: ExpressionType,
    break_at_body: bool,
    deep: bool,
) -> (progress: Result<Progress, ParserDefect>)
    requires
        old(parser_utils).wf(),
        old(parser_utils).room() >= 0,
        old(parser_utils).index < old(parser_utils).tokens.len(),
    ensures
        final(parser_utils).advanced_from(*old(parser_utils)),
        final(parser_utils).room() >= old(parser_utils).room(),
        step_parsed(
            progress,
            *final(parser_utils),
            line_step(
                old(parser_utils).source(),
                old(parser_utils).index as int,
                old(parser_utils).imports.last_id as int,
                optional_model(effect),
                expression_type,
                break_at_body,
                deep,
            ),
        ),
        progress matches Ok(Progress::Continue(_, _)) ==> final(parser_utils).index > old(
            parser_utils,
        ).index,
        progress matches Ok(Progress::Done(Some(_))) ==> final(parser_utils).index > old(
            parser_utils,
        ).index || effect is Some || expression_type == ExpressionType::Return,
    decreases old(parser_utils).tokens.len() - old(parser_utils).index, 0int,
{
    let token = parser_utils.tokens[parser_utils.index];
    parser_utils.index += 1;
    match token.token_type {
        TokenTypes::ParenOpen => match parse_line(parser_utils, break_at_body, true) {
            Ok(Some((_, in_effect))) => Ok(Progress::Continue(Some(in_effect), expression_type)),
            Ok(None) => Ok(Progress::Continue(None, expression_type)),
            Err(defect) => Err(defect),
        },
        TokenTypes::Float => Ok(
            Progress::Continue(
                Some(constant_effect(Effects::Float(token.text(parser_utils.buffer)))),
                expression_type,
            ),
        ),
        TokenTypes::Integer => Ok(
            Progress::Continue(
                Some(
                    match parse_integer(token.text(parser_utils.buffer).as_slice()) {
                        Some(value) => constant_effect(Effects::Int(value)),
                        None => constant_error(
                            parser_utils.error(&token, "Integer literal out of range!"),
                        ),
                    },
                ),
                expression_type,
            ),
        ),
        TokenTypes::LineEnd | TokenTypes::ParenClose => Ok(
            Progress::Done(Some((expression_type, finished(effect)))),
        ),
        TokenTypes::CodeEnd | TokenTypes::EOF => {
            let line = unfinished(expression_type, effect);
            if line.is_some() {
                parser_utils.index -= 1;
            }
            Ok(Progress::Done(line))
        },
        TokenTypes::Variable => Ok(
            Progress::Continue(
                Some(constant_effect(Effects::LoadVariable(token.text(parser_utils.buffer)))),
                expression_type,
            ),
        ),
        TokenTypes::Return => Ok(Progress::Continue(effect, ExpressionType::Return)),
        TokenTypes::New => match parse_new(parser_utils) {
            Ok(made) => if is_failure(&made) {
                Ok(Progress::Done(Some((expression_type, made))))
            } else {
                Ok(Progress::Continue(Some(made), expression_type))
            },
            Err(defect) => Err(defect),
        },
        TokenTypes::CodeStart => if break_at_body {
            Ok(Progress::Done(Some((expression_type, finished(effect)))))
        } else {
            match parse_code(parser_utils) {
                Ok(body) => Ok(Progress::Continue(Some(body_effect(body)), expression_type)),
                Err(defect) => Err(defect),
            }
        },
        TokenTypes::Let => match parse_let(parser_utils) {
            Ok(made) => Ok(Progress::Done(Some((expression_type, made)))),
            Err(defect) => Err(defect),
        },
        TokenTypes::For => match parse_for(parser_utils) {
            Ok(made) => Ok(Progress::Done(Some((expression_type, made)))),
            Err(defect) => Err(defect),
        },
        TokenTypes::Operator => match parse_operation(
            parser_utils,
            token,
            effect,
            expression_type,
        ) {
            Ok(line) => Ok(Progress::Done(line)),
            Err(defect) => Err(defect),
        },
        TokenTypes::ArgumentEnd => if deep {
            Ok(Progress::Continue(effect, expression_type))
        } else {
            Ok(Progress::Done(Some((expression_type, finished(effect)))))
        },
        TokenTypes::InvalidCharacters => Ok(Progress::Continue(effect, expression_type)),
        _ => Err(ParserDefect { token }),
    }
}

/// Parses one line. It reads token after token and keeps the effect read
/// last, until the line ends (`Some`) or the body does (`None`). A token
/// that the grammar has no place for is handed back as a defect.
#[verifier::loop_isolation(false)]
pub fn parse_line(parser_utils: &mut ParserUtils, break_at_body: bool, deep: bool) -> (line: Result<
    Option<(ExpressionType, Effects)>,
    ParserDefect,
>)
    requires
        old(parser_utils).wf(),
        old(parser_utils).room() >= 0,
    ensures
        final(parser_utils).advanced_from(*old(parser_utils)),
        final(parser_utils).room() >= old(parser_utils).room(),
        line_parsed(
            line,
            *final(parser_utils),
            line_from(
                old(parser_utils).source(),
                old(parser_utils).index as int,
                old(parser_utils).imports.last_id as int,
                None,
                ExpressionType::Line,
                break_at_body,
                deep,
            ),
        ),
        line matches Ok(Some(_)) ==> final(parser_utils).index > old(parser_utils).index,
    decreases old(parser_utils).tokens.len() - old(parser_utils).index, 1int,
{
    let mut effect: Option<Effects> = None;
    let mut expression_type = ExpressionType::Line;
    let ghost start = *parser_utils;
    let ghost goal = line_from(
        start.source(),
        start.index as int,
        start.imports.last_id as int,
        None,
        ExpressionType::Line,
        break_at_body,
        deep,
    );
    loop
        invariant
            start.wf(),
            start.room() >= 0,
            parser_utils.advanced_from(start),
            parser_utils.room() >= start.room(),
            line_from(
                parser_utils.source(),
                parser_utils.index as int,
                parser_utils.imports.last_id as int,
                optional_model(effect),
                expression_type,
                break_at_body,
                deep,
            ) == goal,
            effect is Some || expression_type == ExpressionType::Return ==> parser_utils.index
                > start.index,
        decreases parser_utils.tokens.len() - parser_utils.index,
    {
        if parser_utils.index >= parser_utils.tokens.len() {
            return Ok(unfinished(expression_type, effect));
        }
        match parse_token(parser_utils, effect, expression_type, break_at_body, deep) {
            Ok(Progress::Continue(held, kept)) => {
                effect = held;
                expression_type = kept;
            },
            Ok(Progress::Done(line)) => {
                return Ok(line);
            },
            Err(defect) => {
                return Err(defect);
            },
        }
    }
}

/// The line that an operator token at `index` ends with what was read before
/// it: an assignment to `effect` where the token is a `=` that assigns, an
/// operator application with `effect` on the left otherwise.
pub open spec fn operation_from(
    source: SourceModel,
    index: int,
    last_id: int,
    effect: Option<EffectsModel>,
    role: ExpressionType,
) -> Result<LineStep, Token>
    decreases source.tokens.len() - index, 0int,
{
    if index < 0 || index >= source.tokens.len() {
        done(None, index, last_id)
    } else if assigns(source, index, effect) {
        match line_from(source, index + 1, last_id, None, ExpressionType::Line, false, false) {
            Ok(value) => done(
                Some(
                    (
                        role,
                        match value.value {
                            Some(line) => EffectsModel::Assign(
                                Box::new(effect->0),
                                Box::new(line.1),
                            ),
                            None => EffectsModel::Error(
                                error_at(
                                    source,
                                    source.tokens[index],
                                    "Tried to assign a void value!".spec_bytes(),
                                ),
                            ),
                        },
                    ),
                ),
                value.index,
                value.last_id,
            ),
            Err(defect) => Err(defect),
        }
    } else {
        match operator_from(source, index + 1, last_id, effect) {
            Ok(made) => done(Some((role, made.value)), made.index, made.last_id),
            Err(defect) => Err(defect),
        }
    }
}

/// Parses what the operator token `token`, which was just read, begins.
fn parse_operation(
    parser_utils: &mut ParserUtils,
    token: Token,
    effect: Option<Effects>,
    expression_type: ExpressionType,
) -> (line: Result<Option<(ExpressionType, Effects)>, ParserDefect>)
    requires
        old(parser_utils).wf(),
        old(parser_utils).room() >= 0,
        1 <= old(parser_utils).index,
        old(parser_utils).tokens[old(parser_utils).index - 1] == token,
    ensures
        final(parser_utils).advanced_from(*old(parser_utils)),
        final(parser_utils).room() >= old(parser_utils).room(),
        step_parsed(
            match line {
                Ok(line) => Ok(Progress::Done(line)),
                Err(defect) => Err(defect),
            },
            *final(parser_utils),
            operation_from(
                old(parser_utils).source(),
                old(parser_utils).index - 1,
                old(parser_utils).imports.last_id as int,
                optional_model(effect),
                expression_type,
            ),
        ),
        line is Ok ==> line matches Ok(Some(_)),
    decreases old(parser_utils).tokens.len() - old(parser_utils).index, 3int,
{
    let follower = parser_utils.current();
    if token_is(parser_utils.buffer, &token, '=' as u8) && effect.is_some()
        && follower.token_type != TokenTypes::Operator {
        let error = parser_utils.error(&token, "Tried to assign a void value!");
        match parse_line(parser_utils, false, false) {
            Ok(Some((_, value))) => Ok(
                Some((expression_type, create_assign(effect.unwrap(), value))),
            ),
            Ok(None) => Ok(Some((expression_type, constant_error(error)))),
            Err(defect) => Err(defect),
        }
    } else {
        match parse_operator(effect, parser_utils) {
            Ok(made) => Ok(Some((expression_type, made))),
            Err(defect) => Err(defect),
        }
    }
}

/// The line that the end of the body cuts short, if anything of it was read.
fn unfinished(expression_type: ExpressionType, effect: Option<Effects>) -> (line: Option<
    (ExpressionType, Effects),
>)
    ensures
        line_model(line) == unfinished_line(expression_type, optional_model(effect)),
{
    match effect {
        Some(effect) => Some((expression_type, effect)),
        None => match expression_type {
            ExpressionType::Return => Some((expression_type, constant_effect(Effects::NOP))),
            ExpressionType::Line => None,
        },
    }
}

/// Whether an effect is a failure.
fn is_failure(effect: &Effects) -> (is: bool)
    ensures
        is == (effect@ is Error),
{
    match effect {
        Effects::Error(_) => true,
        _ => false,
    }
}

/// The effect of a line at its end: what was read last, or nothing.
fn finished(effect: Option<Effects>) -> (made: Effects)
    ensures
        Some((ExpressionType::Line, made@)) == line_value(
            ExpressionType::Line,
            optional_model(effect),
        ),
{
    match effect {
        Some(effect) => effect,
        None => constant_effect(Effects::NOP),
    }
}

/// A body as a value.
pub(crate) fn body_effect(body: CodeBody) -> (effect: Effects)
    ensures
        effect@ == EffectsModel::CodeBody(body@),
{
    Effects::CodeBody(body)
}

/// An effect that is known as it stands.
fn constant_effect(effect: Effects) -> (made: Effects)
    ensures
        made == effect,
{
    effect
}

/// A failure in the place of an effect.
pub(crate) fn constant_error(error: ParsingError) -> (made: Effects)
    ensures
        made@ == EffectsModel::Error(error@),
{
    Effects::Error(error)
}

/// An assignment of `effect` to `last`.
pub(crate) fn create_assign(last: Effects, effect: Effects) -> (made: Effects)
    ensures
        made@ == EffectsModel::Assign(Box::new(last@), Box::new(effect@)),
{
    Effects::Assign(Box::new(last), Box::new(effect))
}

/// Parses a variable creation from behind its `let`.
fn parse_let(parser_utils: &mut ParserUtils) -> (made: Result<Effects, ParserDefect>)
    requires
        old(parser_utils).wf(),
        old(parser_utils).room() >= 0,
    ensures
        final(parser_utils).advanced_from(*old(parser_utils)),
        final(parser_utils).room() >= old(parser_utils).room(),
        effect_parsed(
            made,
            *final(parser_utils),
            let_from(
                old(parser_utils).source(),
                old(parser_utils).index as int,
                old(parser_utils).imports.last_id as int,
            ),
        ),
    decreases old(parser_utils).tokens.len() - old(parser_utils).index, 2int,
{
    let next = parser_utils.current();
    if next.token_type != TokenTypes::Variable {
        return Ok(
            constant_error(parser_utils.error(&next, "Unexpected token, expected variable name!")),
        );
    }
    let name = next.text(parser_utils.buffer);
    let equals = parser_utils.following();
    if !(equals.token_type == TokenTypes::Operator && token_is(parser_utils.buffer, &equals, '=' as u8)) {
        return Ok(constant_error(parser_utils.error(&equals, "Unexpected token, expected equals!")));
    }
    parser_utils.index += 2;
    match parse_line(parser_utils, false, false) {
        Ok(Some(line)) => Ok(create_let(name, line.1)),
        Ok(None) => {
            let found = parser_utils.current();
            Ok(constant_error(parser_utils.error(&found, "Expected value, found void!")))
        },
        Err(defect) => Err(defect),
    }
}

/// A new variable `name` with the first value `value`.
pub(crate) fn create_let(name: Vec<u8>, value: Effects) -> (made: Effects)
    ensures
        made@ == EffectsModel::CreateVariable(name@, Box::new(value@)),
{
    Effects::CreateVariable(name, Box::new(value))
}

/// The value of a type that may be missing.
pub open spec fn optional_type(types: Option<Types>) -> Option<TypesModel> {
    match types {
        Some(types) => Some(types@),
        None => None,
    }
}

/// Parses a struct construction from behind its `new`.
#[verifier::loop_isolation(false)]
fn parse_new(parser_utils: &mut ParserUtils) -> (made: Result<Effects, ParserDefect>)
    requires
        old(parser_utils).wf(),
        old(parser_utils).room() >= 0,
    ensures
        final(parser_utils).advanced_from(*old(parser_utils)),
        final(parser_utils).room() >= old(parser_utils).room(),
        effect_parsed(
            made,
            *final(parser_utils),
            new_from(
                old(parser_utils).source(),
                old(parser_utils).index as int,
                old(parser_utils).imports.last_id as int,
                None,
            ),
        ),
    decreases old(parser_utils).tokens.len() - old(parser_utils).index, 0int,
{
    let mut types: Option<Types> = None;
    let ghost start = *parser_utils;
    let ghost goal = new_from(
        start.source(),
        start.index as int,
        start.imports.last_id as int,
        None,
    );
    loop
        invariant
            start.wf(),
            start.room() >= 0,
            parser_utils.advanced_from(start),
            parser_utils.room() >= start.room(),
            new_from(
                parser_utils.source(),
                parser_utils.index as int,
                parser_utils.imports.last_id as int,
                optional_type(types),
            ) == goal,
        decreases parser_utils.tokens.len() - parser_utils.index,
    {
        let token = parser_utils.current();
        if parser_utils.index >= parser_utils.tokens.len() {
            return Ok(
                constant_error(
                    parser_utils.error(&token, "Unexpected token in struct construction!"),
                ),
            );
        }
        parser_utils.index += 1;
        match token.token_type {
            TokenTypes::Variable => {
                types = Some(parser_utils.get_struct(&token, token.text(parser_utils.buffer)));
            },
            TokenTypes::Operator => {
                if types.is_some() && token_is(parser_utils.buffer, &token, '<' as u8) {
                    types = Some(add_generics(types.unwrap(), parser_utils));
                } else {
                    return Ok(
                        constant_error(
                            parser_utils.error(&token, "Unexpected token in struct construction!"),
                        ),
                    );
                }
            },
            TokenTypes::CodeStart => {
                if types.is_none() {
                    return Ok(
                        constant_error(
                            parser_utils.error(&token, "Unexpected token in struct construction!"),
                        ),
                    );
                }
                return match parse_new_args(parser_utils) {
                    Ok((values, None)) => Ok(create_effect(types.unwrap(), values)),
                    Ok((_, Some(error))) => Ok(constant_error(error)),
                    Err(defect) => Err(defect),
                };
            },
            TokenTypes::InvalidCharacters => {},
            _ => {
                return Ok(
                    constant_error(
                        parser_utils.error(&token, "Unexpected token in struct construction!"),
                    ),
                );
            },
        }
    }
}

/// The slot of an argument whose position is not known yet.
fn pending_slot(name: Vec<u8>) -> (slot: FieldSlot)
    ensures
        slot@ == open_slot(name@),
{
    FieldSlot { name, index: 0 }
}

/// Parses the arguments of a struct construction from behind its `{`.
#[verifier::loop_isolation(false)]
fn parse_new_args(parser_utils: &mut ParserUtils) -> (arguments: Result<
    (Vec<(FieldSlot, Effects)>, Option<ParsingError>),
    ParserDefect,
>)
    requires
        old(parser_utils).wf(),
        old(parser_utils).room() >= 0,
    ensures
        final(parser_utils).advanced_from(*old(parser_utils)),
        final(parser_utils).room() >= old(parser_utils).room(),
        arguments_parsed(
            arguments,
            *final(parser_utils),
            arguments_from(
                old(parser_utils).source(),
                old(parser_utils).index as int,
                old(parser_utils).imports.last_id as int,
                Seq::empty(),
                Seq::empty(),
            ),
        ),
    decreases old(parser_utils).tokens.len() - old(parser_utils).index, 0int,
{
    let mut values: Vec<(FieldSlot, Effects)> = Vec::new();
    let mut name: Vec<u8> = Vec::new();
    let ghost start = *parser_utils;
    let ghost goal = arguments_from(
        start.source(),
        start.index as int,
        start.imports.last_id as int,
        Seq::empty(),
        Seq::empty(),
    );
    assert(arguments_model(values@) =~= Seq::empty());
    loop
        invariant
            start.wf(),
            start.room() >= 0,
            parser_utils.advanced_from(start),
            parser_utils.room() >= start.room(),
            arguments_from(
                parser_utils.source(),
                parser_utils.index as int,
                parser_utils.imports.last_id as int,
                arguments_model(values@),
                name@,
            ) == goal,
        decreases parser_utils.tokens.len() - parser_utils.index,
    {
        let ghost before = values@;
        if parser_utils.index >= parser_utils.tokens.len() {
            if name.len() > 0 {
                let variable = name.clone();
                values.push((pending_slot(name), constant_effect(Effects::LoadVariable(variable))));
                assert(arguments_model(values@) =~= arguments_model(before).push(
                    (values@.last().0@, values@.last().1@),
                ));
            }
            return Ok((values, None));
        }
        let token = parser_utils.tokens[parser_utils.index];
        parser_utils.index += 1;
        match token.token_type {
            TokenTypes::Variable => {
                name = token.text(parser_utils.buffer);
            },
            TokenTypes::Operator => {
                if token_is(parser_utils.buffer, &token, ':' as u8) {
                    match parse_line(parser_utils, false, false) {
                        Ok(Some(line)) => {
                            values.push((pending_slot(name), line.1));
                            name = Vec::new();
                            assert(arguments_model(values@) =~= arguments_model(before).push(
                                (values@.last().0@, values@.last().1@),
                            ));
                        },
                        Ok(None) => {
                            let file = parser_utils.file.clone();
                            return Ok((values, Some(expect_effect(file, token))));
                        },
                        Err(defect) => {
                            return Err(defect);
                        },
                    }
                } else {
                    return Ok(
                        (
                            values,
                            Some(
                                parser_utils.error(&token, "Unexpected token in struct arguments!"),
                            ),
                        ),
                    );
                }
            },
            TokenTypes::ArgumentEnd => {
                let variable = name.clone();
                values.push((pending_slot(name), constant_effect(Effects::LoadVariable(variable))));
                name = Vec::new();
                assert(arguments_model(values@) =~= arguments_model(before).push(
                    (values@.last().0@, values@.last().1@),
                ));
            },
            TokenTypes::CodeEnd | TokenTypes::EOF => {
                if name.len() > 0 {
                    let variable = name.clone();
                    values.push(
                        (pending_slot(name), constant_effect(Effects::LoadVariable(variable))),
                    );
                    assert(arguments_model(values@) =~= arguments_model(before).push(
                        (values@.last().0@, values@.last().1@),
                    ));
                }
                return Ok((values, None));
            },
            TokenTypes::InvalidCharacters => {},
            _ => {
                return Ok(
                    (
                        values,
                        Some(parser_utils.error(&token, "Unexpected token in struct arguments!")),
                    ),
                );
            },
        }
    }
}

/// The failure of an argument whose value is missing.
fn expect_effect(file: Vec<u8>, token: Token) -> (made: ParsingError)
    ensures
        made@ == token.spec_error(file@, "Expected something, found void".spec_bytes()),
{
    token.make_error(file, crate::parser::util::message("Expected something, found void"))
}

/// A construction of `types` from `inputs`.
pub(crate) fn create_effect(types: Types, inputs: Vec<(FieldSlot, Effects)>) -> (made: Effects)
    ensures
        made@ == EffectsModel::CreateStruct(types@, arguments_model(inputs@)),
{
    proof {
        lemma_arguments_model(types, inputs);
    }
    Effects::CreateStruct(types, inputs)
}

/// A line of a body.
pub fn get_line(effect: Effects, expression_type: ExpressionType) -> (line: Expression)
    ensures
        line@ == (ExpressionModel { expression_type, effect: effect@ }),
{
    Expression::new(expression_type, effect)
}

/// The body that holds `lines` under the label that `id` writes.
pub fn create_body(id: u32, lines: Vec<Expression>) -> (body: CodeBody)
    ensures
        body@ == (CodeBodyModel {
            label: decimal_text(id as int),
            expressions: lines_model(lines@),
        }),
{
    CodeBody::new(lines, render_label(id))
}

} // verus!
