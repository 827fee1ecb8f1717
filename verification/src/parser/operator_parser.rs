use vstd::prelude::*;
use crate::parser::code_parser::{
    constant_error, effect_parsed, operator_end, operator_from, parse_line,
};
use crate::parser::util::{ParserDefect, ParserUtils};
use crate::syntax::code::{optional_model, Effects, EffectsModel};
use crate::tokens::tokens::{Token, TokenTypes};

verus! {

/// Parses an operator application from behind the first token of its
/// operator, with the operand `effect` that stands before it.
#[verifier::loop_isolation(false)]
pub fn parse_operator(effect: Option<Effects>, parser_utils: &mut ParserUtils) -> (made: Result<
    Effects,
    ParserDefect,
>)
    requires
        old(parser_utils).wf(),
        old(parser_utils).room() >= 0,
    ensures
        final(parser_utils).advanced_from(*old(parser_utils)),
        final(parser_utils).room() >= old(parser_utils).room(),
        effect_parsed(
            made,
            *final(parser_utils),
            operator_from(
                old(parser_utils).source(),
                old(parser_utils).index as int,
                old(parser_utils).imports.last_id as int,
                optional_model(effect),
            ),
        ),
    decreases old(parser_utils).tokens.len() - old(parser_utils).index, 2int,
{
    if parser_utils.index < 1 {
        return Ok(Effects::NOP);
    }
    let ghost start = *parser_utils;
    let first = parser_utils.tokens[parser_utils.index - 1];
    let mut end = parser_utils.index;
    while end < parser_utils.tokens.len() && parser_utils.tokens[end].token_type
        == TokenTypes::Operator && parser_utils.tokens[end].start == parser_utils.tokens[end
        - 1].end
        invariant
            1 <= start.index <= end <= parser_utils.tokens.len(),
            *parser_utils == start,
            operator_end(start.source(), end as int) == operator_end(
                start.source(),
                start.index as int,
            ),
        decreases parser_utils.tokens.len() - end,
    {
        end += 1;
    }
    assert(operator_end(start.source(), end as int) == end);
    let last = parser_utils.tokens[end - 1];
    let operator = Token::new(TokenTypes::Operator, first.start, last.end).text(
        parser_utils.buffer,
    );
    parser_utils.index = end;
    let left = match effect {
        Some(left) => left,
        None => Effects::NOP,
    };
    match parse_line(parser_utils, false, false) {
        Ok(Some(line)) => Ok(create_operation(operator, left, line.1)),
        Ok(None) => {
            let error = parser_utils.error(&first, "Expected value, found void!");
            Ok(create_operation(operator, left, constant_error(error)))
        },
        Err(defect) => Err(defect),
    }
}

/// The application of `operator` to `left` and `right`.
pub(crate) fn create_operation(operator: Vec<u8>, left: Effects, right: Effects) -> (made: Effects)
    ensures
        made@ == EffectsModel::Operation(operator@, Box::new(left@), Box::new(right@)),
{
    Effects::Operation(operator, Box::new(left), Box::new(right))
}

} // verus!
