use vstd::prelude::*;
use vstd::string::StringSliceAdditionalSpecFns;
use crate::parser::util::message;
use crate::syntax::errors::{ErrorModel, ParsingError};
use crate::syntax::types::{same_bytes, Types, TypesModel};
use crate::tokens::tokens::Token;

verus! {

/// The mathematical value of a [`Field`].
pub struct FieldModel {
    pub name: Seq<u8>,
    pub field_type: TypesModel,
}

/// A field of a struct, or a parameter of a function.
#[derive(Debug, PartialEq, Eq)]
pub struct Field {
    pub name: Vec<u8>,
    pub field_type: Types,
}

impl View for Field {
    type V = FieldModel;

    open spec fn view(&self) -> FieldModel {
        FieldModel { name: self.name@, field_type: self.field_type@ }
    }
}

/// What a declaration declares.
#[derive(Clone, Copy, Debug, PartialEq, Eq, Structural)]
pub enum DeclarationKind {
    Function,
    Structure,
}

/// The mathematical value of a [`Declaration`].
pub struct DeclarationModel {
    pub name: Seq<u8>,
    pub kind: DeclarationKind,
    pub fields: Seq<FieldModel>,
    pub return_type: Option<TypesModel>,
    pub file: Seq<u8>,
    pub token: Token,
}

/// The signature of a top-level declaration: its fully-qualified name, what
/// it declares, the fields of the struct or the parameters of the function,
/// what the function returns, and where the name was written.
#[derive(Debug, PartialEq, Eq)]
pub struct Declaration {
    pub name: Vec<u8>,
    pub kind: DeclarationKind,
    pub fields: Vec<Field>,
    pub return_type: Option<Types>,
    pub file: Vec<u8>,
    pub token: Token,
}

/// The values of a list of fields.
pub open spec fn fields_model(fields: Seq<Field>) -> Seq<FieldModel> {
    Seq::new(fields.len(), |i: int| fields[i]@)
}

impl View for Declaration {
    type V = DeclarationModel;

    open spec fn view(&self) -> DeclarationModel {
        DeclarationModel {
            name: self.name@,
            kind: self.kind,
            fields: fields_model(self.fields@),
            return_type: match self.return_type {
                Some(types) => Some(types@),
                None => None,
            },
            file: self.file@,
            token: self.token,
        }
    }
}

impl Field {
    /// A copy of this field.
    pub fn duplicate(&self) -> (copy: Field)
        ensures
            copy@ == self@,
    {
        Field {
            name: vstd::slice::slice_to_vec(self.name.as_slice()),
            field_type: self.field_type.duplicate(),
        }
    }
}

impl Declaration {
    /// A copy of this declaration.
    pub fn duplicate(&self) -> (copy: Declaration)
        ensures
            copy@ == self@,
    {
        let mut fields: Vec<Field> = Vec::new();
        let mut i: usize = 0;
        while i < self.fields.len()
            invariant
                i <= self.fields.len(),
                fields.len() == i,
                forall|j: int| 0 <= j < i ==> (#[trigger] fields[j])@ == self.fields[j]@,
            decreases self.fields.len() - i,
        {
            fields.push(self.fields[i].duplicate());
            i += 1;
        }
        assert(fields_model(fields@) =~= fields_model(self.fields@));
        Declaration {
            name: vstd::slice::slice_to_vec(self.name.as_slice()),
            kind: self.kind,
            fields,
            return_type: match &self.return_type {
                Some(types) => Some(types.duplicate()),
                None => None,
            },
            file: vstd::slice::slice_to_vec(self.file.as_slice()),
            token: self.token,
        }
    }
}

/// The mathematical value of a [`Syntax`]: the declarations in the order in
/// which they were registered, and whether more may come.
pub struct SyntaxModel {
    pub declarations: Seq<DeclarationModel>,
    pub finished: bool,
}

/// The position at or behind `from` of the first declaration named `name`.
pub open spec fn position(declarations: Seq<DeclarationModel>, name: Seq<u8>, from: int) -> Option<
    int,
>
    decreases declarations.len() - from,
{
    if from < 0 || from >= declarations.len() {
        None
    } else if declarations[from].name == name {
        Some(from)
    } else {
        position(declarations, name, from + 1)
    }
}

/// The position that a search finds holds the name, and nothing before it
/// does; a search that finds nothing has passed no declaration of the name.
pub proof fn lemma_position(declarations: Seq<DeclarationModel>, name: Seq<u8>, from: int)
    requires
        0 <= from,
    ensures
        match position(declarations, name, from) {
            Some(at) => {
                &&& from <= at < declarations.len()
                &&& declarations[at].name == name
                &&& forall|i: int| from <= i < at ==> (#[trigger] declarations[i]).name != name
            },
            None => forall|i: int|
                from <= i < declarations.len() ==> (#[trigger] declarations[i]).name != name,
        },
    decreases declarations.len() - from,
{
    if from < declarations.len() && declarations[from].name != name {
        lemma_position(declarations, name, from + 1);
    }
}

impl SyntaxModel {
    /// The declaration registered under `name`, if there is one.
    pub open spec fn get(self, name: Seq<u8>) -> Option<DeclarationModel> {
        match position(self.declarations, name, 0) {
            Some(at) => Some(self.declarations[at]),
            None => None,
        }
    }

    /// Whether a declaration is registered under `name`.
    pub open spec fn contains(self, name: Seq<u8>) -> bool {
        position(self.declarations, name, 0) is Some
    }

    /// Whether each name is registered once only.
    pub open spec fn unique(self) -> bool {
        forall|i: int, j: int|
            0 <= i < j < self.declarations.len() ==> (#[trigger] self.declarations[i]).name != (
            #[trigger] self.declarations[j]).name
    }

    /// The registry after `declaration` has been added to it.
    pub open spec fn with(self, declaration: DeclarationModel) -> SyntaxModel {
        SyntaxModel {
            declarations: self.declarations.push(declaration),
            finished: self.finished,
        }
    }
}

/// The program-wide table of declarations. Each fully-qualified name is
/// registered once.
#[derive(Debug, PartialEq, Eq)]
pub struct Syntax {
    pub declarations: Vec<Declaration>,
    pub finished: bool,
}

/// The values of a list of declarations.
pub open spec fn declarations_model(declarations: Seq<Declaration>) -> Seq<DeclarationModel> {
    Seq::new(declarations.len(), |i: int| declarations[i]@)
}

impl View for Syntax {
    type V = SyntaxModel;

    open spec fn view(&self) -> SyntaxModel {
        SyntaxModel {
            declarations: declarations_model(self.declarations@),
            finished: self.finished,
        }
    }
}

/// The failure of a second declaration of a name.
pub open spec fn duplicate_error(declaration: DeclarationModel) -> ErrorModel {
    declaration.token.spec_error(declaration.file, "Duplicate definition!".spec_bytes())
}

impl Syntax {
    /// An empty registry that is still open.
    pub fn new() -> (syntax: Syntax)
        ensures
            syntax@ == (SyntaxModel { declarations: Seq::empty(), finished: false }),
            syntax@.unique(),
    {
        let syntax = Syntax { declarations: Vec::new(), finished: false };
        assert(syntax@.declarations =~= Seq::empty());
        syntax
    }

    /// Where the declaration of `name` stands, if there is one.
    pub fn find(&self, name: &[u8]) -> (at: Option<usize>)
        ensures
            match at {
                Some(at) => position(self@.declarations, name@, 0) == Some(at as int) && at
                    < self.declarations.len(),
                None => position(self@.declarations, name@, 0) is None,
            },
    {
        let mut i: usize = 0;
        while i < self.declarations.len()
            invariant
                i <= self.declarations.len(),
                position(self@.declarations, name@, 0) == position(
                    self@.declarations,
                    name@,
                    i as int,
                ),
            decreases self.declarations.len() - i,
        {
            if same_bytes(self.declarations[i].name.as_slice(), name) {
                return Some(i);
            }
            i += 1;
        }
        None
    }

    /// The declaration of `name`, if there is one.
    pub fn get(&self, name: &[u8]) -> (declaration: Option<&Declaration>)
        ensures
            match declaration {
                Some(declaration) => self@.get(name@) == Some(declaration@),
                None => self@.get(name@) is None,
            },
    {
        match self.find(name) {
            Some(at) => Some(&self.declarations[at]),
            None => None,
        }
    }

    /// Whether `name` is declared.
    pub fn contains(&self, name: &[u8]) -> (found: bool)
        ensures
            found == self@.contains(name@),
    {
        self.find(name).is_some()
    }

    /// Registers `declaration`. A name that is registered already is not
    /// registered again: the registry stays as it is, and the failure blames
    /// the second declaration.
    pub fn add(&mut self, declaration: Declaration) -> (added: Result<(), ParsingError>)
        ensures
            match added {
                Ok(()) => {
                    &&& !old(self)@.contains(declaration@.name)
                    &&& final(self)@ == old(self)@.with(declaration@)
                },
                Err(error) => {
                    &&& old(self)@.contains(declaration@.name)
                    &&& final(self)@ == old(self)@
                    &&& error@ == duplicate_error(declaration@)
                },
            },
            old(self)@.unique() ==> final(self)@.unique(),
    {
        if self.contains(declaration.name.as_slice()) {
            return Err(declaration.token.make_error(declaration.file, message("Duplicate definition!")));
        }
        proof {
            lemma_position(self@.declarations, declaration@.name, 0);
        }
        let ghost before = self@;
        self.declarations.push(declaration);
        assert(self@.declarations =~= before.declarations.push(declaration@));
        Ok(())
    }

    /// Declares the registry complete: no name will be registered after this.
    pub fn finish(&mut self)
        ensures
            final(self)@ == (SyntaxModel { declarations: old(self)@.declarations, finished: true }),
    {
        self.finished = true;
    }
}

/// A search through a registry that has grown by one declaration finds what
/// it found before, or else the new declaration where that bears the name.
pub proof fn lemma_position_after_push(
    declarations: Seq<DeclarationModel>,
    added: DeclarationModel,
    name: Seq<u8>,
    from: int,
)
    requires
        0 <= from <= declarations.len(),
    ensures
        position(declarations.push(added), name, from) == match position(
            declarations,
            name,
            from,
        ) {
            Some(at) => Some(at),
            None => if added.name == name {
                Some(declarations.len() as int)
            } else {
                None
            },
        },
    decreases declarations.len() - from,
{
    if from < declarations.len() {
        assert(declarations.push(added)[from] == declarations[from]);
        if declarations[from].name != name {
            lemma_position_after_push(declarations, added, name, from + 1);
        }
    } else {
        assert(declarations.push(added)[from] == added);
        assert(position(declarations.push(added), name, from + 1) is None);
    }
}

/// Registering makes a name known and leaves every other name as it was.
pub proof fn lemma_contains_after_add(syntax: SyntaxModel, added: DeclarationModel, name: Seq<u8>)
    ensures
        syntax.with(added).contains(name) == (syntax.contains(name) || added.name == name),
        syntax.contains(name) ==> syntax.with(added).get(name) == syntax.get(name),
        !syntax.contains(name) && added.name == name ==> syntax.with(added).get(name) == Some(
            added,
        ),
{
    lemma_position_after_push(syntax.declarations, added, name, 0);
    lemma_position(syntax.declarations, name, 0);
}

/// The order in which two declarations of different names are registered
/// does not show in what the registry holds under any name.
pub proof fn lemma_registration_order(
    syntax: SyntaxModel,
    first: DeclarationModel,
    second: DeclarationModel,
    name: Seq<u8>,
)
    requires
        first.name != second.name,
    ensures
        syntax.with(first).with(second).contains(name) == syntax.with(second).with(
            first,
        ).contains(name),
        syntax.with(first).with(second).get(name) == syntax.with(second).with(first).get(name),
{
    lemma_contains_after_add(syntax, first, name);
    lemma_contains_after_add(syntax, second, name);
    lemma_contains_after_add(syntax.with(first), second, name);
    lemma_contains_after_add(syntax.with(second), first, name);
}

} // verus!
