//! Front end of the Raven compiler: a mode-aware tokenizer, a recursive-descent
//! parser that yields deferred computations, the program-wide syntax registry
//! they resolve against, and the type checker that walks resolved function bodies.

use vstd::prelude::*;
use vstd::slice::slice_to_vec;
use vstd::string::StringSliceAdditionalSpecFns;
use crate::parser::top_parser::{
    errors_model, functions_model, parse_top, top_from, FileModel, TopElements,
};
use crate::parser::util::{message, ParserDefect, ParserUtils, SourceModel};
use crate::syntax::errors::{ErrorModel, ParsingError};
use crate::syntax::syntax::{
    declarations_model, duplicate_error, Declaration, DeclarationModel, Syntax, SyntaxModel,
};
use crate::syntax::types::{Types, TypesModel};
use crate::tokens::code_tokenizer::{code_step, lemma_code_step};
use crate::tokens::tokenizer::{
    depth_after, token_stream, Tokenizer, TokenizerState, MAX_SOURCE_LENGTH,
};
use crate::tokens::tokens::{Token, TokenTypes};

/// The Raven type checker.
pub mod checker;
/// The Raven parser.
pub mod parser;
/// The data model.
pub mod syntax;
/// The Raven tokenizer.
pub mod tokens;

verus! {

/// The mathematical value of an [`ImportNameResolver`].
pub struct ResolverModel {
    pub imports: Seq<Seq<u8>>,
    pub generics: Seq<(Seq<u8>, Seq<TypesModel>)>,
    pub parent: Option<Seq<u8>>,
    pub last_id: int,
}

/// Basic name resolver implementation.
#[derive(Debug, PartialEq, Eq)]
pub struct ImportNameResolver {
    /// The current file imports, in the order in which they are searched.
    pub imports: Vec<Vec<u8>>,
    /// The current generics, each with its bounds as written.
    pub generics: Vec<(Vec<u8>, Vec<Types>)>,
    /// The parent type.
    pub parent: Option<Vec<u8>>,
    /// Last ID used on a code block label.
    pub last_id: u32,
}

/// The values of a list of names.
pub open spec fn names_model(names: Seq<Vec<u8>>) -> Seq<Seq<u8>> {
    Seq::new(names.len(), |i: int| names[i]@)
}

/// The values of a list of types.
pub open spec fn types_model(types: Seq<Types>) -> Seq<TypesModel> {
    Seq::new(types.len(), |i: int| types[i]@)
}

/// The values of a list of generic parameters.
pub open spec fn generics_model(generics: Seq<(Vec<u8>, Vec<Types>)>) -> Seq<
    (Seq<u8>, Seq<TypesModel>),
> {
    Seq::new(generics.len(), |i: int| (generics[i].0@, types_model(generics[i].1@)))
}

impl View for ImportNameResolver {
    type V = ResolverModel;

    open spec fn view(&self) -> ResolverModel {
        ResolverModel {
            imports: names_model(self.imports@),
            generics: generics_model(self.generics@),
            parent: match self.parent {
                Some(parent) => Some(parent@),
                None => None,
            },
            last_id: self.last_id as int,
        }
    }
}

/// A copy of a list of types.
pub fn duplicate_types(types: &Vec<Types>) -> (copy: Vec<Types>)
    ensures
        types_model(copy@) == types_model(types@),
{
    let mut copy: Vec<Types> = Vec::new();
    let mut i: usize = 0;
    while i < types.len()
        invariant
            i <= types.len(),
            copy.len() == i,
            forall|j: int| 0 <= j < i ==> (#[trigger] copy[j])@ == types[j]@,
        decreases types.len() - i,
    {
        copy.push(types[i].duplicate());
        i += 1;
    }
    assert(types_model(copy@) =~= types_model(types@));
    copy
}

impl ImportNameResolver {
    /// Creates a new name resolver, which searches the file `base` itself
    /// and nothing else.
    pub fn new(base: Vec<u8>) -> (resolver: ImportNameResolver)
        ensures
            resolver@ == (ResolverModel {
                imports: seq![base@],
                generics: Seq::empty(),
                parent: None,
                last_id: 0,
            }),
    {
        let mut imports: Vec<Vec<u8>> = Vec::new();
        imports.push(base);
        let resolver = ImportNameResolver {
            imports,
            generics: Vec::new(),
            parent: None,
            last_id: 0,
        };
        assert(resolver@.imports =~= seq![base@]);
        assert(resolver@.generics =~= Seq::empty());
        resolver
    }

    /// The imports, in the order in which they are searched.
    pub fn imports(&self) -> (imports: &Vec<Vec<u8>>)
        ensures
            names_model(imports@) == self@.imports,
    {
        &self.imports
    }

    /// The bounds of the first generic parameter that bears `name`, if one
    /// does.
    pub fn generic(&self, name: &Vec<u8>) -> (bounds: Option<Vec<Types>>)
        ensures
            match bounds {
                Some(bounds) => exists|i: int|
                    {
                        &&& 0 <= i < self@.generics.len()
                        &&& (#[trigger] self@.generics[i]).0 == name@
                        &&& self@.generics[i].1 == types_model(bounds@)
                        &&& forall|j: int| 0 <= j < i ==> (#[trigger] self@.generics[j]).0 != name@
                    },
                None => forall|i: int|
                    0 <= i < self@.generics.len() ==> (#[trigger] self@.generics[i]).0 != name@,
            },
    {
        let mut i: usize = 0;
        while i < self.generics.len()
            invariant
                i <= self.generics.len(),
                forall|j: int| 0 <= j < i ==> (#[trigger] self@.generics[j]).0 != name@,
            decreases self.generics.len() - i,
        {
            if crate::syntax::types::same_bytes(self.generics[i].0.as_slice(), name.as_slice()) {
                let bounds = duplicate_types(&self.generics[i].1);
                assert(self@.generics[i as int].0 == name@);
                return Some(bounds);
            }
            assert(self@.generics[i as int].0 != name@);
            i += 1;
        }
        None
    }

    /// The generic parameters with their bounds.
    pub fn generics(&self) -> (generics: &Vec<(Vec<u8>, Vec<Types>)>)
        ensures
            generics_model(generics@) == self@.generics,
    {
        &self.generics
    }

    /// A copy of this resolver, which a nested parse may extend without
    /// changing this one.
    pub fn boxed_clone(&self) -> (copy: Box<ImportNameResolver>)
        ensures
            copy@ == self@,
    {
        let mut imports: Vec<Vec<u8>> = Vec::new();
        let mut i: usize = 0;
        while i < self.imports.len()
            invariant
                i <= self.imports.len(),
                imports.len() == i,
                forall|j: int| 0 <= j < i ==> (#[trigger] imports[j])@ == self.imports[j]@,
            decreases self.imports.len() - i,
        {
            imports.push(slice_to_vec(self.imports[i].as_slice()));
            i += 1;
        }
        let mut generics: Vec<(Vec<u8>, Vec<Types>)> = Vec::new();
        let mut k: usize = 0;
        while k < self.generics.len()
            invariant
                k <= self.generics.len(),
                generics.len() == k,
                forall|j: int|
                    0 <= j < k ==> (#[trigger] generics[j]).0@ == self.generics[j].0@
                        && types_model(generics[j].1@) == types_model(self.generics[j].1@),
            decreases self.generics.len() - k,
        {
            generics.push(
                (
                    slice_to_vec(self.generics[k].0.as_slice()),
                    duplicate_types(&self.generics[k].1),
                ),
            );
            k += 1;
        }
        let parent = match &self.parent {
            Some(parent) => Some(slice_to_vec(parent.as_slice())),
            None => None,
        };
        let copy = ImportNameResolver { imports, generics, parent, last_id: self.last_id };
        assert(copy@.imports =~= self@.imports);
        assert(copy@.generics =~= self@.generics);
        Box::new(copy)
    }
}

/// The tokens of a whole file, read from its start as top-level text.
pub open spec fn file_tokens(file: Seq<u8>) -> Seq<Token> {
    token_stream(file, 0, TokenizerState::TopElement.spec_flags(), 0)
}

/// Whether a file is too large to be parsed: longer than the mode register
/// can count the nesting of, or of more tokens than there are labels.
pub open spec fn too_large(file: Seq<u8>) -> bool {
    file.len() > MAX_SOURCE_LENGTH || file_tokens(file).len() >= u32::MAX
}

/// What a file of the given name declares before anything of it was read.
pub open spec fn empty_file(name: Seq<u8>) -> FileModel {
    FileModel {
        imports: seq![name],
        structures: Seq::empty(),
        functions: Seq::empty(),
        errors: Seq::empty(),
    }
}

/// The failure of a file that is too large.
pub open spec fn too_large_error(name: Seq<u8>) -> ErrorModel {
    ErrorModel { file: name, start: 0, end: 0, message: "Source file too large!".spec_bytes() }
}

/// What parsing a file yields: its declarations, or the token that the
/// grammar has no place for. A file that is too large declares nothing but
/// the failure that says so.
pub open spec fn parsed_file(name: Seq<u8>, file: Seq<u8>) -> Result<FileModel, Token> {
    if too_large(file) {
        Ok(empty_file(name).failed(too_large_error(name)))
    } else {
        match top_from(
            SourceModel { tokens: file_tokens(file), buffer: file, file: name },
            0,
            0,
            empty_file(name),
        ) {
            Ok(step) => Ok(step.value),
            Err(defect) => Err(defect),
        }
    }
}

/// The declarations of a file that is too large.
fn refuse(name: Vec<u8>) -> (parsed: (TopElements, ImportNameResolver))
    ensures
        (FileModel {
            imports: parsed.1@.imports,
            structures: declarations_model(parsed.0.structures@),
            functions: functions_model(parsed.0.functions@),
            errors: errors_model(parsed.0.errors@),
        }) == empty_file(name@).failed(too_large_error(name@)),
{
    let mut errors: Vec<ParsingError> = Vec::new();
    errors.push(ParsingError::new(slice_to_vec(name.as_slice()), 0, 0, message("Source file too large!")));
    let elements = TopElements { structures: Vec::new(), functions: Vec::new(), errors };
    let resolver = ImportNameResolver::new(name);
    assert(declarations_model(elements.structures@) =~= Seq::empty());
    assert(functions_model(elements.functions@) =~= Seq::empty());
    assert(errors_model(elements.errors@) =~= Seq::<ErrorModel>::empty().push(
        too_large_error(name@),
    ));
    (elements, resolver)
}

/// Reads all the tokens of a buffer, from its start in the given context
/// up to and including the end of file.
pub fn tokenize(buffer: &[u8], state: TokenizerState) -> (tokens: Vec<Token>)
    requires
        buffer@.len() <= MAX_SOURCE_LENGTH,
    ensures
        tokens@ == token_stream(buffer@, 0, state.spec_flags(), 0),
{
    let mut tokenizer = Tokenizer::new(buffer, state);
    let mut tokens: Vec<Token> = Vec::new();
    let ghost all = token_stream(buffer@, 0, state.spec_flags(), 0);
    assert(tokens@ + all =~= all);
    loop
        invariant_except_break
            tokens@ + token_stream(
                buffer@,
                tokenizer.index as int,
                tokenizer.state,
                tokenizer.bracket_depth,
            ) == all,
        invariant
            tokenizer.wf(),
            tokenizer.buffer == buffer,
        ensures
            tokens@ == all,
        decreases buffer.len() - tokenizer.index,
    {
        let ghost before = tokens@;
        let ghost at = tokenizer.index as int;
        let ghost register = tokenizer.state;
        let ghost depth = tokenizer.bracket_depth;
        let ghost step = code_step(buffer@, at, register, depth);
        let ghost rest = token_stream(buffer@, at, register, depth);
        proof {
            lemma_code_step(buffer@, at, register, depth);
        }
        let token = tokenizer.next();
        tokens.push(token);
        assert(token == step.token);
        if token.token_type == TokenTypes::EOF {
            assert(rest =~= seq![token]);
            assert(tokens@ =~= before + rest);
            break ;
        }
        assert(rest == seq![token] + token_stream(
            buffer@,
            step.index,
            step.state,
            depth_after(depth, token.token_type),
        ));
        assert(tokens@ + token_stream(
            buffer@,
            tokenizer.index as int,
            tokenizer.state,
            tokenizer.bracket_depth,
        ) =~= before + rest);
    }
    tokens
}

/// Parses a file into its top-level declarations. The bodies of the
/// functions are deferred: they are resolved against the registry later.
pub fn parse(name: Vec<u8>, file: &[u8]) -> (parsed: Result<
    (TopElements, ImportNameResolver),
    ParserDefect,
>)
    ensures
        match parsed_file(name@, file@) {
            Ok(model) => parsed matches Ok(made) && (FileModel {
                imports: made.1@.imports,
                structures: declarations_model(made.0.structures@),
                functions: functions_model(made.0.functions@),
                errors: errors_model(made.0.errors@),
            }) == model,
            Err(token) => parsed matches Err(defect) && defect.token == token,
        },
{
    if file.len() as u64 > MAX_SOURCE_LENGTH {
        return Ok(refuse(name));
    }
    let tokens = tokenize(file, TokenizerState::TopElement);
    if tokens.len() >= 0xFFFF_FFFF {
        return Ok(refuse(name));
    }
    let mut parser_utils = ParserUtils {
        buffer: file,
        index: 0,
        tokens,
        file: slice_to_vec(name.as_slice()),
        imports: ImportNameResolver::new(name),
    };
    match parse_top(&mut parser_utils) {
        Ok(elements) => Ok((elements, parser_utils.imports)),
        Err(defect) => Err(defect),
    }
}

/// The declarations that a file registers: its structs, then its functions.
pub open spec fn declared_by(elements: TopElements) -> Seq<DeclarationModel> {
    declarations_model(elements.structures@) + Seq::new(
        elements.functions.len() as nat,
        |i: int| elements.functions[i]@.declaration,
    )
}

/// What registering the first `count` of `declarations` yields: the
/// registry, and the failures of the declarations whose names were taken.
pub open spec fn registering(
    syntax: SyntaxModel,
    declarations: Seq<DeclarationModel>,
    count: nat,
) -> (SyntaxModel, Seq<ErrorModel>)
    decreases count,
{
    if count == 0 || count > declarations.len() {
        (syntax, Seq::empty())
    } else {
        let before = registering(syntax, declarations, (count - 1) as nat);
        let declaration = declarations[count - 1];
        if before.0.contains(declaration.name) {
            (before.0, before.1.push(duplicate_error(declaration)))
        } else {
            (before.0.with(declaration), before.1)
        }
    }
}

/// Registers a copy of `declaration`, or notes the failure where its name
/// is taken.
fn register_one(syntax: &mut Syntax, declaration: &Declaration, errors: &mut Vec<ParsingError>)
    ensures
        old(syntax)@.contains(declaration@.name) ==> final(syntax)@ == old(syntax)@
            && errors_model(final(errors)@) == errors_model(old(errors)@).push(
            duplicate_error(declaration@),
        ),
        !old(syntax)@.contains(declaration@.name) ==> final(syntax)@ == old(syntax)@.with(
            declaration@,
        ) && errors_model(final(errors)@) == errors_model(old(errors)@),
        old(syntax)@.unique() ==> final(syntax)@.unique(),
{
    let ghost before = errors@;
    match syntax.add(declaration.duplicate()) {
        Ok(()) => {},
        Err(error) => {
            errors.push(error);
            assert(errors_model(errors@) =~= errors_model(before).push(error@));
        },
    }
}

/// Registers the declarations of a file: its structs, then its functions,
/// each under its fully-qualified name. A name that is taken already is not
/// registered again; the failures of such declarations are handed back.
pub fn register(syntax: &mut Syntax, elements: &TopElements) -> (errors: Vec<ParsingError>)
    ensures
        final(syntax)@ == registering(
            old(syntax)@,
            declared_by(*elements),
            declared_by(*elements).len(),
        ).0,
        errors_model(errors@) == registering(
            old(syntax)@,
            declared_by(*elements),
            declared_by(*elements).len(),
        ).1,
        old(syntax)@.unique() ==> final(syntax)@.unique(),
{
    let ghost all = declared_by(*elements);
    let ghost start = syntax@;
    let mut errors: Vec<ParsingError> = Vec::new();
    assert(errors_model(errors@) =~= Seq::empty());
    let mut i: usize = 0;
    while i < elements.structures.len()
        invariant
            i <= elements.structures.len(),
            all.len() == elements.structures.len() + elements.functions.len(),
            forall|k: int|
                0 <= k < elements.structures.len() ==> all[k] == (
                #[trigger] elements.structures[k])@,
            syntax@ == registering(start, all, i as nat).0,
            errors_model(errors@) == registering(start, all, i as nat).1,
            start.unique() ==> syntax@.unique(),
        decreases elements.structures.len() - i,
    {
        register_one(syntax, &elements.structures[i], &mut errors);
        i += 1;
    }
    let mut j: usize = 0;
    while j < elements.functions.len()
        invariant
            j <= elements.functions.len(),
            i == elements.structures.len(),
            all.len() == elements.structures.len() + elements.functions.len(),
            forall|k: int|
                0 <= k < elements.functions.len() ==> all[elements.structures.len() + k] == (
                #[trigger] elements.functions[k])@.declaration,
            syntax@ == registering(start, all, (i + j) as nat).0,
            errors_model(errors@) == registering(start, all, (i + j) as nat).1,
            start.unique() ==> syntax@.unique(),
        decreases elements.functions.len() - j,
    {
        register_one(syntax, &elements.functions[j].declaration, &mut errors);
        j += 1;
    }
    errors
}

} // verus!
