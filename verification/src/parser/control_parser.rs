use vstd::prelude::*;
use crate::parser::code_parser::{
    constant_error, effect_parsed, for_from, parse_code, parse_line,
};
use crate::parser::util::{ParserDefect, ParserUtils};
use crate::syntax::code::{Effects, EffectsModel};
use crate::syntax::code::CodeBody;
use crate::syntax::types::same_bytes;
use crate::tokens::tokens::TokenTypes;

verus! {

/// Parses a loop from behind its `for`.
pub fn parse_for(parser_utils: &mut ParserUtils) -> (made: Result<Effects, ParserDefect>)
    requires
        old(parser_utils).wf(),
        old(parser_utils).room() >= 0,
    ensures
        final(parser_utils).advanced_from(*old(parser_utils)),
        final(parser_utils).room() >= old(parser_utils).room(),
        effect_parsed(
            made,
            *final(parser_utils),
            for_from(
                old(parser_utils).source(),
                old(parser_utils).index as int,
                old(parser_utils).imports.last_id as int,
            ),
        ),
    decreases old(parser_utils).tokens.len() - old(parser_utils).index, 2int,
{
    let name = parser_utils.current();
    if name.token_type != TokenTypes::Variable {
        return Ok(constant_error(parser_utils.error(&name, "Expected variable name!")));
    }
    let word = parser_utils.following();
    if !(word.token_type == TokenTypes::Variable && same_bytes(
        word.text(parser_utils.buffer).as_slice(),
        "in".as_bytes(),
    )) {
        return Ok(constant_error(parser_utils.error(&word, "Missing \"in\" in for loop.")));
    }
    let variable = name.text(parser_utils.buffer);
    parser_utils.index += 2;
    let iterator = match parse_line(parser_utils, true, false) {
        Ok(Some(line)) => line.1,
        Ok(None) => constant_error(parser_utils.error(&word, "Expected value, found void!")),
        Err(defect) => {
            return Err(defect);
        },
    };
    match parse_code(parser_utils) {
        Ok(body) => Ok(create_for(variable, iterator, body)),
        Err(defect) => Err(defect),
    }
}

/// A loop over `iterator` with the variable `name` and the body `body`.
pub(crate) fn create_for(name: Vec<u8>, iterator: Effects, body: CodeBody) -> (made: Effects)
    ensures
        made@ == EffectsModel::ForLoop(name@, Box::new(iterator@), body@),
{
    Effects::ForLoop(name, Box::new(iterator), body)
}

} // verus!
