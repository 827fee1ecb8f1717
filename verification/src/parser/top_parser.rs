use vstd::prelude::*;
use vstd::string::StringSliceAdditionalSpecFns;
use vstd::slice::slice_to_vec;
use crate::parser::code_parser::{code_from, parse_code};
use crate::parser::util::{
    add_generics, advance, error_at, generics_from, is_character, token_at, token_is, Parsed,
    ParsedType, ParserDefect, ParserUtils, SourceModel,
};
use crate::syntax::async_util::{qualified, qualify};
use crate::syntax::errors::{ErrorModel, ParsingError};
use crate::syntax::function::{CheckState, Function, FunctionModel};
use crate::syntax::syntax::{
    declarations_model, fields_model, Declaration, DeclarationKind, DeclarationModel, Field,
    FieldModel,
};
use crate::syntax::types::{same_bytes, Types, TypesModel};
use crate::tokens::tokens::{Token, TokenTypes};
use crate::names_model;

verus! {

/// Whether the lexeme of `token` is `word`.
pub open spec fn reads(source: SourceModel, token: Token, word: Seq<u8>) -> bool {
    token.spec_text(source.buffer) == word
}

/// Whether the lexeme of `token` is `word`.
pub fn token_reads(buffer: &[u8], token: &Token, word: &str) -> (is: bool)
    ensures
        is == (token.spec_text(buffer@) == word.spec_bytes()),
{
    same_bytes(token.text(buffer).as_slice(), word.as_bytes())
}

/// The type that is written at `index`: a name, with generic arguments
/// where a `<` follows it. Nothing where no name stands there.
pub open spec fn type_from(source: SourceModel, index: int) -> Option<ParsedType> {
    let token = token_at(source, index);
    let next = token_at(source, index + 1);
    if token.token_type != TokenTypes::Variable {
        None
    } else if next.token_type == TokenTypes::Operator && is_character(source, next, '<' as u8) {
        Some(
            generics_from(
                source,
                index + 2,
                TypesModel::Unresolved(token.spec_text(source.buffer), token),
                Seq::empty(),
            ),
        )
    } else {
        Some(
            ParsedType {
                value: TypesModel::Unresolved(token.spec_text(source.buffer), token),
                index: index + 1,
            },
        )
    }
}

/// Parses the type that is written at the cursor.
pub fn parse_type(parser_utils: &mut ParserUtils) -> (types: Option<Types>)
    requires
        old(parser_utils).wf(),
    ensures
        final(parser_utils).advanced_from(*old(parser_utils)),
        final(parser_utils).imports.last_id == old(parser_utils).imports.last_id,
        match type_from(old(parser_utils).source(), old(parser_utils).index as int) {
            Some(parsed) => {
                &&& types matches Some(made)
                &&& made@ == parsed.value
                &&& final(parser_utils).index == parsed.index
                &&& final(parser_utils).index > old(parser_utils).index
            },
            None => types is None && final(parser_utils).index == old(parser_utils).index,
        },
{
    let token = parser_utils.current();
    if token.token_type != TokenTypes::Variable {
        return None;
    }
    let next = parser_utils.following();
    let base = parser_utils.get_struct(&token, token.text(parser_utils.buffer));
    if next.token_type == TokenTypes::Operator && token_is(parser_utils.buffer, &next, '<' as u8) {
        parser_utils.index += 2;
        Some(add_generics(base, parser_utils))
    } else {
        parser_utils.index += 1;
        Some(base)
    }
}

/// What a list of fields reads: the fields, the index behind the list, and
/// the failure that cut the list short, if one did.
pub struct ParsedFields {
    pub fields: Seq<FieldModel>,
    pub index: int,
    pub error: Option<ErrorModel>,
}

/// The rest of a list of `name: type` fields, read from `index` with the
/// `fields` read so far, up to the token of the category `closing`. Commas
/// between the fields are passed over. The first token that cannot stand
/// there ends the list with a failure that blames it; the end of the file
/// does so too, and is left unread.
pub open spec fn fields_from(
    source: SourceModel,
    index: int,
    fields: Seq<FieldModel>,
    closing: TokenTypes,
) -> ParsedFields
    decreases source.tokens.len() - index,
{
    if index < 0 || index >= source.tokens.len() || source.tokens[index].token_type
        == TokenTypes::EOF {
        ParsedFields {
            fields,
            index,
            error: Some(
                error_at(source, token_at(source, index), "Unexpected end of file!".spec_bytes()),
            ),
        }
    } else {
        let token = source.tokens[index];
        if token.token_type == closing {
            ParsedFields { fields, index: index + 1, error: None }
        } else {
            match token.token_type {
                TokenTypes::ArgumentEnd | TokenTypes::InvalidCharacters => fields_from(
                    source,
                    index + 1,
                    fields,
                    closing,
                ),
                TokenTypes::Variable => if token_at(source, index + 1).token_type
                    == TokenTypes::Operator && is_character(
                    source,
                    token_at(source, index + 1),
                    ':' as u8,
                ) {
                    match type_from(source, index + 2) {
                        Some(types) => fields_from(
                            source,
                            advance(source, index, types.index),
                            fields.push(
                                FieldModel {
                                    name: token.spec_text(source.buffer),
                                    field_type: types.value,
                                },
                            ),
                            closing,
                        ),
                        None => ParsedFields {
                            fields,
                            index: index + 2,
                            error: Some(
                                error_at(
                                    source,
                                    token_at(source, index + 2),
                                    "Expected a type!".spec_bytes(),
                                ),
                            ),
                        },
                    }
                } else {
                    ParsedFields {
                        fields,
                        index: index + 1,
                        error: Some(
                            error_at(
                                source,
                                token_at(source, index + 1),
                                "Expected a colon!".spec_bytes(),
                            ),
                        ),
                    }
                },
                _ => ParsedFields {
                    fields,
                    index: index + 1,
                    error: Some(
                        error_at(source, token, "Unexpected token among the fields!".spec_bytes()),
                    ),
                },
            }
        }
    }
}

/// Parses a list of fields up to the token of the category `closing`.
#[verifier::loop_isolation(false)]
pub fn parse_fields(parser_utils: &mut ParserUtils, closing: TokenTypes) -> (fields: (
    Vec<Field>,
    Option<ParsingError>,
))
    requires
        old(parser_utils).wf(),
    ensures
        final(parser_utils).advanced_from(*old(parser_utils)),
        final(parser_utils).imports.last_id == old(parser_utils).imports.last_id,
        ({
            let parsed = fields_from(
                old(parser_utils).source(),
                old(parser_utils).index as int,
                Seq::empty(),
                closing,
            );
            &&& fields_model(fields.0@) == parsed.fields
            &&& final(parser_utils).index == parsed.index
            &&& match parsed.error {
                Some(error) => fields.1 matches Some(found) && found@ == error,
                None => fields.1 is None,
            }
        }),
{
    let mut fields: Vec<Field> = Vec::new();
    let ghost start = *parser_utils;
    let ghost goal = fields_from(start.source(), start.index as int, Seq::empty(), closing);
    assert(fields_model(fields@) =~= Seq::empty());
    loop
        invariant
            start.wf(),
            parser_utils.advanced_from(start),
            parser_utils.imports.last_id == start.imports.last_id,
            fields_from(
                parser_utils.source(),
                parser_utils.index as int,
                fields_model(fields@),
                closing,
            ) == goal,
        decreases parser_utils.tokens.len() - parser_utils.index,
    {
        let token = parser_utils.current();
        if parser_utils.index >= parser_utils.tokens.len() || token.token_type
            == TokenTypes::EOF {
            return (fields, Some(parser_utils.error(&token, "Unexpected end of file!")));
        }
        if token.token_type == closing {
            parser_utils.index += 1;
            return (fields, None);
        }
        match token.token_type {
            TokenTypes::ArgumentEnd | TokenTypes::InvalidCharacters => {
                parser_utils.index += 1;
            },
            TokenTypes::Variable => {
                let colon = parser_utils.following();
                if colon.token_type == TokenTypes::Operator && token_is(
                    parser_utils.buffer,
                    &colon,
                    ':' as u8,
                ) {
                    parser_utils.index += 2;
                    let ghost before = fields@;
                    match parse_type(parser_utils) {
                        Some(types) => {
                            fields.push(
                                Field { name: token.text(parser_utils.buffer), field_type: types },
                            );
                            assert(fields_model(fields@) =~= fields_model(before).push(
                                fields@.last()@,
                            ));
                        },
                        None => {
                            let found = parser_utils.current();
                            return (fields, Some(parser_utils.error(&found, "Expected a type!")));
                        },
                    }
                } else {
                    parser_utils.index += 1;
                    return (fields, Some(parser_utils.error(&colon, "Expected a colon!")));
                }
            },
            _ => {
                parser_utils.index += 1;
                return (
                    fields,
                    Some(parser_utils.error(&token, "Unexpected token among the fields!")),
                );
            },
        }
    }
}

/// The mathematical value of what a file declares.
pub struct FileModel {
    pub imports: Seq<Seq<u8>>,
    pub structures: Seq<DeclarationModel>,
    pub functions: Seq<FunctionModel>,
    pub errors: Seq<ErrorModel>,
}

impl FileModel {
    /// The file with one more failure.
    pub open spec fn failed(self, error: ErrorModel) -> FileModel {
        FileModel {
            imports: self.imports,
            structures: self.structures,
            functions: self.functions,
            errors: self.errors.push(error),
        }
    }

    /// The file with one more import.
    pub open spec fn importing(self, name: Seq<u8>) -> FileModel {
        FileModel {
            imports: self.imports.push(name),
            structures: self.structures,
            functions: self.functions,
            errors: self.errors,
        }
    }

    /// The file with one more struct.
    pub open spec fn structured(self, declaration: DeclarationModel) -> FileModel {
        FileModel {
            imports: self.imports,
            structures: self.structures.push(declaration),
            functions: self.functions,
            errors: self.errors,
        }
    }

    /// The file with one more function.
    pub open spec fn defining(self, function: FunctionModel) -> FileModel {
        FileModel {
            imports: self.imports,
            structures: self.structures,
            functions: self.functions.push(function),
            errors: self.errors,
        }
    }
}

/// The top-level declarations of a file: the structs and the functions in
/// the order in which they were written, the functions with their bodies
/// still deferred, and the failures of the declarations that could not be
/// read.
#[derive(Debug, PartialEq, Eq)]
pub struct TopElements {
    pub structures: Vec<Declaration>,
    pub functions: Vec<Function>,
    pub errors: Vec<ParsingError>,
}

/// The values of a list of functions.
pub open spec fn functions_model(functions: Seq<Function>) -> Seq<FunctionModel> {
    Seq::new(functions.len(), |i: int| functions[i]@)
}

/// The values of a list of failures.
pub open spec fn errors_model(errors: Seq<ParsingError>) -> Seq<ErrorModel> {
    Seq::new(errors.len(), |i: int| errors[i]@)
}

/// What has been read of a file so far.
pub open spec fn file_model(parser_utils: ParserUtils, elements: TopElements) -> FileModel {
    FileModel {
        imports: names_model(parser_utils.imports.imports@),
        structures: declarations_model(elements.structures@),
        functions: functions_model(elements.functions@),
        errors: errors_model(elements.errors@),
    }
}

/// Whether `after` reads the same source as `before` and has not gone back.
pub open spec fn continues(after: ParserUtils, before: ParserUtils) -> bool {
    &&& after.buffer == before.buffer
    &&& after.tokens == before.tokens
    &&& after.file == before.file
    &&& after.imports.generics == before.imports.generics
    &&& after.imports.parent == before.imports.parent
    &&& before.index <= after.index <= after.tokens.len()
    &&& before.imports.last_id <= after.imports.last_id
}

/// The declaration that the name `name` heads in this file.
pub open spec fn declared(
    source: SourceModel,
    name: Token,
    kind: DeclarationKind,
    fields: Seq<FieldModel>,
    return_type: Option<TypesModel>,
) -> DeclarationModel {
    DeclarationModel {
        name: qualify(source.file, name.spec_text(source.buffer)),
        kind,
        fields,
        return_type,
        file: source.file,
        token: name,
    }
}

/// An import, read from its `import` at `index`: the name that follows.
pub open spec fn import_step(source: SourceModel, index: int, last_id: int, file: FileModel) -> Parsed<
    FileModel,
> {
    let name = token_at(source, index + 1);
    if name.token_type == TokenTypes::Variable {
        Parsed { value: file.importing(name.spec_text(source.buffer)), index: index + 2, last_id }
    } else {
        Parsed {
            value: file.failed(error_at(source, name, "Expected a name!".spec_bytes())),
            index: index + 1,
            last_id,
        }
    }
}

/// A struct, read from its `struct` at `index`: the name, and the fields
/// between `{` and `}`.
pub open spec fn structure_step(
    source: SourceModel,
    index: int,
    last_id: int,
    file: FileModel,
) -> Parsed<FileModel> {
    let name = token_at(source, index + 1);
    let opening = token_at(source, index + 2);
    let fields = fields_from(source, index + 3, Seq::empty(), TokenTypes::CodeEnd);
    if name.token_type != TokenTypes::Variable {
        Parsed {
            value: file.failed(error_at(source, name, "Expected a name!".spec_bytes())),
            index: index + 1,
            last_id,
        }
    } else if opening.token_type != TokenTypes::CodeStart {
        Parsed {
            value: file.failed(error_at(source, opening, "Expected a body!".spec_bytes())),
            index: index + 1,
            last_id,
        }
    } else {
        match fields.error {
            Some(error) => Parsed { value: file.failed(error), index: fields.index, last_id },
            None => Parsed {
                value: file.structured(
                    declared(source, name, DeclarationKind::Structure, fields.fields, None),
                ),
                index: fields.index,
                last_id,
            },
        }
    }
}

/// What the place of a return type reads: the type where `->` announces
/// one, the index behind it, and the failure where the type is missing.
pub struct ParsedReturn {
    pub types: Option<TypesModel>,
    pub index: int,
    pub error: Option<ErrorModel>,
}

/// The return type that is written at `index`, if one is.
pub open spec fn return_from(source: SourceModel, index: int) -> ParsedReturn {
    let dash = token_at(source, index);
    let angle = token_at(source, index + 1);
    if dash.token_type == TokenTypes::Operator && is_character(source, dash, '-' as u8)
        && angle.token_type == TokenTypes::Operator && is_character(source, angle, '>' as u8) {
        match type_from(source, index + 2) {
            Some(types) => ParsedReturn { types: Some(types.value), index: types.index, error: None },
            None => ParsedReturn {
                types: None,
                index: index + 2,
                error: Some(
                    error_at(source, token_at(source, index + 2), "Expected a type!".spec_bytes()),
                ),
            },
        }
    } else {
        ParsedReturn { types: None, index, error: None }
    }
}

/// A function, read from its `fn` at `index`: the name, the parameters
/// between `(` and `)`, the return type where `->` announces one, and the
/// body behind `{`.
pub open spec fn function_step(
    source: SourceModel,
    index: int,
    last_id: int,
    file: FileModel,
) -> Result<Parsed<FileModel>, Token> {
    let name = token_at(source, index + 1);
    let opening = token_at(source, index + 2);
    let parameters = fields_from(source, index + 3, Seq::empty(), TokenTypes::ParenClose);
    let returned = return_from(source, parameters.index);
    let start = token_at(source, returned.index);
    if name.token_type != TokenTypes::Variable {
        Ok(
            Parsed {
                value: file.failed(error_at(source, name, "Expected a name!".spec_bytes())),
                index: index + 1,
                last_id,
            },
        )
    } else if opening.token_type != TokenTypes::ParenOpen {
        Ok(
            Parsed {
                value: file.failed(error_at(source, opening, "Expected parameters!".spec_bytes())),
                index: index + 1,
                last_id,
            },
        )
    } else if parameters.error is Some {
        Ok(Parsed { value: file.failed(parameters.error->0), index: parameters.index, last_id })
    } else if returned.error is Some {
        Ok(Parsed { value: file.failed(returned.error->0), index: returned.index, last_id })
    } else if start.token_type != TokenTypes::CodeStart {
        Ok(
            Parsed {
                value: file.failed(error_at(source, start, "Expected a body!".spec_bytes())),
                index: returned.index,
                last_id,
            },
        )
    } else {
        match code_from(source, returned.index + 1, last_id, Seq::empty()) {
            Ok(body) => Ok(
                Parsed {
                    value: file.defining(
                        FunctionModel {
                            declaration: declared(
                                source,
                                name,
                                DeclarationKind::Function,
                                parameters.fields,
                                returned.types,
                            ),
                            code: body.value,
                            state: CheckState::Unchecked,
                        },
                    ),
                    index: body.index,
                    last_id: body.last_id,
                },
            ),
            Err(defect) => Err(defect),
        }
    }
}

/// The rest of a file, read from `index` with what was read so far. A
/// declaration begins with `import`, `struct` or `fn`; a token that begins
/// none is a failure of its own, and the reading goes on behind it.
pub open spec fn top_from(source: SourceModel, index: int, last_id: int, file: FileModel) -> Result<
    Parsed<FileModel>,
    Token,
>
    decreases source.tokens.len() - index,
{
    if index < 0 || index >= source.tokens.len() {
        Ok(Parsed { value: file, index, last_id })
    } else {
        let token = source.tokens[index];
        let unexpected = top_from(
            source,
            index + 1,
            last_id,
            file.failed(error_at(source, token, "Unexpected token at the top level!".spec_bytes())),
        );
        match token.token_type {
            TokenTypes::EOF => Ok(Parsed { value: file, index: index + 1, last_id }),
            TokenTypes::LineEnd | TokenTypes::InvalidCharacters => top_from(
                source,
                index + 1,
                last_id,
                file,
            ),
            TokenTypes::Variable => if reads(source, token, "import".spec_bytes()) {
                let step = import_step(source, index, last_id, file);
                top_from(source, advance(source, index, step.index), step.last_id, step.value)
            } else if reads(source, token, "struct".spec_bytes()) {
                let step = structure_step(source, index, last_id, file);
                top_from(source, advance(source, index, step.index), step.last_id, step.value)
            } else if reads(source, token, "fn".spec_bytes()) {
                match function_step(source, index, last_id, file) {
                    Ok(step) => top_from(
                        source,
                        advance(source, index, step.index),
                        step.last_id,
                        step.value,
                    ),
                    Err(defect) => Err(defect),
                }
            } else {
                unexpected
            },
            _ => unexpected,
        }
    }
}

/// Notes a failure.
fn fail(elements: &mut TopElements, error: ParsingError)
    ensures
        final(elements).structures == old(elements).structures,
        final(elements).functions == old(elements).functions,
        errors_model(final(elements).errors@) == errors_model(old(elements).errors@).push(error@),
{
    let ghost before = elements.errors@;
    elements.errors.push(error);
    assert(errors_model(elements.errors@) =~= errors_model(before).push(error@));
}

/// The declaration that the name `name` heads in this file.
fn declare(
    parser_utils: &ParserUtils,
    name: &Token,
    kind: DeclarationKind,
    fields: Vec<Field>,
    return_type: Option<Types>,
) -> (declaration: Declaration)
    ensures
        declaration@ == declared(
            parser_utils.source(),
            *name,
            kind,
            fields_model(fields@),
            crate::parser::code_parser::optional_type(return_type),
        ),
{
    Declaration {
        name: qualified(parser_utils.file.as_slice(), name.text(parser_utils.buffer).as_slice()),
        kind,
        fields,
        return_type,
        file: slice_to_vec(parser_utils.file.as_slice()),
        token: *name,
    }
}

/// Parses an import from its `import`.
fn parse_import(parser_utils: &mut ParserUtils, elements: &mut TopElements)
    requires
        old(parser_utils).wf(),
        old(parser_utils).index < old(parser_utils).tokens.len(),
    ensures
        continues(*final(parser_utils), *old(parser_utils)),
        final(parser_utils).index > old(parser_utils).index,
        final(parser_utils).room() >= old(parser_utils).room(),
        ({
            let step = import_step(
                old(parser_utils).source(),
                old(parser_utils).index as int,
                old(parser_utils).imports.last_id as int,
                file_model(*old(parser_utils), *old(elements)),
            );
            &&& file_model(*final(parser_utils), *final(elements)) == step.value
            &&& final(parser_utils).index == step.index
            &&& final(parser_utils).imports.last_id == step.last_id
        }),
{
    let name = parser_utils.following();
    if name.token_type == TokenTypes::Variable {
        let ghost before = parser_utils.imports.imports@;
        parser_utils.imports.imports.push(name.text(parser_utils.buffer));
        assert(names_model(parser_utils.imports.imports@) =~= names_model(before).push(
            name.spec_text(parser_utils.buffer@),
        ));
        parser_utils.index += 2;
    } else {
        let error = parser_utils.error(&name, "Expected a name!");
        fail(elements, error);
        parser_utils.index += 1;
    }
}

/// Parses a struct from its `struct`.
fn parse_structure(parser_utils: &mut ParserUtils, elements: &mut TopElements)
    requires
        old(parser_utils).wf(),
        old(parser_utils).index < old(parser_utils).tokens.len(),
    ensures
        continues(*final(parser_utils), *old(parser_utils)),
        final(parser_utils).imports.imports == old(parser_utils).imports.imports,
        final(parser_utils).index > old(parser_utils).index,
        final(parser_utils).room() >= old(parser_utils).room(),
        ({
            let step = structure_step(
                old(parser_utils).source(),
                old(parser_utils).index as int,
                old(parser_utils).imports.last_id as int,
                file_model(*old(parser_utils), *old(elements)),
            );
            &&& file_model(*final(parser_utils), *final(elements)) == step.value
            &&& final(parser_utils).index == step.index
            &&& final(parser_utils).imports.last_id == step.last_id
        }),
{
    let name = parser_utils.following();
    parser_utils.index += 1;
    if name.token_type != TokenTypes::Variable {
        let error = parser_utils.error(&name, "Expected a name!");
        fail(elements, error);
        return ;
    }
    let opening = parser_utils.following();
    if opening.token_type != TokenTypes::CodeStart {
        let error = parser_utils.error(&opening, "Expected a body!");
        fail(elements, error);
        return ;
    }
    parser_utils.index += 2;
    let (fields, error) = parse_fields(parser_utils, TokenTypes::CodeEnd);
    match error {
        Some(error) => fail(elements, error),
        None => {
            let ghost before = elements.structures@;
            elements.structures.push(
                declare(parser_utils, &name, DeclarationKind::Structure, fields, None),
            );
            assert(declarations_model(elements.structures@) =~= declarations_model(before).push(
                elements.structures@.last()@,
            ));
        },
    }
}

/// Parses a return type, where one is written at the cursor.
fn parse_return(parser_utils: &mut ParserUtils) -> (returned: (Option<Types>, Option<ParsingError>))
    requires
        old(parser_utils).wf(),
    ensures
        final(parser_utils).advanced_from(*old(parser_utils)),
        final(parser_utils).imports.last_id == old(parser_utils).imports.last_id,
        ({
            let parsed = return_from(old(parser_utils).source(), old(parser_utils).index as int);
            &&& crate::parser::code_parser::optional_type(returned.0) == parsed.types
            &&& final(parser_utils).index == parsed.index
            &&& match parsed.error {
                Some(error) => returned.1 matches Some(found) && found@ == error,
                None => returned.1 is None,
            }
        }),
{
    let dash = parser_utils.current();
    let angle = parser_utils.following();
    if dash.token_type == TokenTypes::Operator && token_is(parser_utils.buffer, &dash, '-' as u8)
        && angle.token_type == TokenTypes::Operator && token_is(parser_utils.buffer, &angle, '>' as u8) {
        parser_utils.index += 2;
        match parse_type(parser_utils) {
            Some(types) => (Some(types), None),
            None => {
                let found = parser_utils.current();
                (None, Some(parser_utils.error(&found, "Expected a type!")))
            },
        }
    } else {
        (None, None)
    }
}

/// Parses a function from its `fn`.
fn parse_function(parser_utils: &mut ParserUtils, elements: &mut TopElements) -> (parsed: Result<
    (),
    ParserDefect,
>)
    requires
        old(parser_utils).wf(),
        old(parser_utils).index < old(parser_utils).tokens.len(),
        old(parser_utils).room() >= 1,
    ensures
        continues(*final(parser_utils), *old(parser_utils)),
        final(parser_utils).imports.imports == old(parser_utils).imports.imports,
        match function_step(
            old(parser_utils).source(),
            old(parser_utils).index as int,
            old(parser_utils).imports.last_id as int,
            file_model(*old(parser_utils), *old(elements)),
        ) {
            Ok(step) => {
                &&& parsed is Ok
                &&& file_model(*final(parser_utils), *final(elements)) == step.value
                &&& final(parser_utils).index == step.index
                &&& final(parser_utils).imports.last_id == step.last_id
                &&& final(parser_utils).index > old(parser_utils).index
                &&& final(parser_utils).room() >= 1
            },
            Err(token) => parsed matches Err(defect) && defect.token == token,
        },
{
    let name = parser_utils.following();
    parser_utils.index += 1;
    if name.token_type != TokenTypes::Variable {
        let error = parser_utils.error(&name, "Expected a name!");
        fail(elements, error);
        return Ok(());
    }
    let opening = parser_utils.following();
    if opening.token_type != TokenTypes::ParenOpen {
        let error = parser_utils.error(&opening, "Expected parameters!");
        fail(elements, error);
        return Ok(());
    }
    parser_utils.index += 2;
    let (parameters, error) = parse_fields(parser_utils, TokenTypes::ParenClose);
    match error {
        Some(error) => {
            fail(elements, error);
            return Ok(());
        },
        None => {},
    }
    let (returned, error) = parse_return(parser_utils);
    match error {
        Some(error) => {
            fail(elements, error);
            return Ok(());
        },
        None => {},
    }
    let start = parser_utils.current();
    if start.token_type != TokenTypes::CodeStart {
        let error = parser_utils.error(&start, "Expected a body!");
        fail(elements, error);
        return Ok(());
    }
    parser_utils.index += 1;
    let body = match parse_code(parser_utils) {
        Ok(body) => body,
        Err(defect) => {
            return Err(defect);
        },
    };
    let ghost before = elements.functions@;
    elements.functions.push(
        Function::new(
            declare(parser_utils, &name, DeclarationKind::Function, parameters, returned),
            body,
        ),
    );
    assert(functions_model(elements.functions@) =~= functions_model(before).push(
        elements.functions@.last()@,
    ));
    Ok(())
}

/// Parses the top-level declarations of a file.
#[verifier::loop_isolation(false)]
pub fn parse_top(parser_utils: &mut ParserUtils) -> (parsed: Result<TopElements, ParserDefect>)
    requires
        old(parser_utils).wf(),
        old(parser_utils).room() >= 1,
    ensures
        continues(*final(parser_utils), *old(parser_utils)),
        match top_from(
            old(parser_utils).source(),
            old(parser_utils).index as int,
            old(parser_utils).imports.last_id as int,
            FileModel {
                imports: names_model(old(parser_utils).imports.imports@),
                structures: Seq::empty(),
                functions: Seq::empty(),
                errors: Seq::empty(),
            },
        ) {
            Ok(step) => {
                &&& parsed matches Ok(elements)
                &&& file_model(*final(parser_utils), elements) == step.value
                &&& final(parser_utils).index == step.index
                &&& final(parser_utils).imports.last_id == step.last_id
            },
            Err(token) => parsed matches Err(defect) && defect.token == token,
        },
{
    let mut elements = TopElements {
        structures: Vec::new(),
        functions: Vec::new(),
        errors: Vec::new(),
    };
    let ghost start = *parser_utils;
    let ghost goal = top_from(
        start.source(),
        start.index as int,
        start.imports.last_id as int,
        file_model(start, elements),
    );
    proof {
        assert(file_model(start, elements).structures =~= Seq::empty());
        assert(file_model(start, elements).functions =~= Seq::empty());
        assert(file_model(start, elements).errors =~= Seq::empty());
    }
    loop
        invariant
            start.wf(),
            continues(*parser_utils, start),
            parser_utils.room() >= 1,
            top_from(
                parser_utils.source(),
                parser_utils.index as int,
                parser_utils.imports.last_id as int,
                file_model(*parser_utils, elements),
            ) == goal,
        decreases parser_utils.tokens.len() - parser_utils.index,
    {
        if parser_utils.index >= parser_utils.tokens.len() {
            return Ok(elements);
        }
        let token = parser_utils.tokens[parser_utils.index];
        match token.token_type {
            TokenTypes::EOF => {
                parser_utils.index += 1;
                return Ok(elements);
            },
            TokenTypes::LineEnd | TokenTypes::InvalidCharacters => {
                parser_utils.index += 1;
            },
            TokenTypes::Variable => {
                if token_reads(parser_utils.buffer, &token, "import") {
                    parse_import(parser_utils, &mut elements);
                } else if token_reads(parser_utils.buffer, &token, "struct") {
                    parse_structure(parser_utils, &mut elements);
                } else if token_reads(parser_utils.buffer, &token, "fn") {
                    match parse_function(parser_utils, &mut elements) {
                        Ok(()) => {},
                        Err(defect) => {
                            return Err(defect);
                        },
                    }
                } else {
                    let error = parser_utils.error(&token, "Unexpected token at the top level!");
                    fail(&mut elements, error);
                    parser_utils.index += 1;
                }
            },
            _ => {
                let error = parser_utils.error(&token, "Unexpected token at the top level!");
                fail(&mut elements, error);
                parser_utils.index += 1;
            },
        }
    }
}

} // verus!
