use vstd::prelude::*;
use vstd::slice::slice_to_vec;
use crate::tokens::tokens::Token;

verus! {

/// The mathematical value of a [`Types`].
pub enum TypesModel {
    Unresolved(Seq<u8>, Token),
    Struct(Seq<u8>),
    Generic(Box<TypesModel>, Seq<TypesModel>),
}

/// A type as the program names it.
#[derive(Debug, PartialEq, Eq)]
pub enum Types {
    /// A name as the source wrote it, with the token that wrote it. It stands
    /// for a lookup that has not been made yet.
    Unresolved(Vec<u8>, Token),
    /// A declared type, by its fully-qualified name.
    Struct(Vec<u8>),
    /// A generic type with its arguments, in their order.
    Generic(Box<Types>, Vec<Types>),
}

impl Types {
    /// The mathematical value of this type.
    pub open spec fn model(&self) -> TypesModel
        decreases self,
    {
        match self {
            Types::Unresolved(name, at) => TypesModel::Unresolved(name@, *at),
            Types::Struct(name) => TypesModel::Struct(name@),
            Types::Generic(base, arguments) => TypesModel::Generic(
                Box::new(base.model()),
                Seq::new(
                    arguments.len() as nat,
                    |i: int|
                        if 0 <= i < arguments.len() {
                            arguments[i].model()
                        } else {
                            TypesModel::Struct(Seq::empty())
                        },
                ),
            ),
        }
    }
}

impl View for Types {
    type V = TypesModel;

    open spec fn view(&self) -> TypesModel {
        self.model()
    }
}

impl TypesModel {
    /// Whether no lookup is left to make in this type.
    pub open spec fn resolved(self) -> bool
        decreases self,
    {
        match self {
            TypesModel::Unresolved(_, _) => false,
            TypesModel::Struct(_) => true,
            TypesModel::Generic(base, arguments) => base.resolved() && forall|i: int|
                0 <= i < arguments.len() ==> (#[trigger] arguments[i]).resolved(),
        }
    }
}

impl Types {
    /// A copy of this type.
    #[verifier::loop_isolation(false)]
    pub fn duplicate(&self) -> (copy: Types)
        ensures
            copy@ == self@,
        decreases self,
    {
        match self {
            Types::Unresolved(name, at) => Types::Unresolved(slice_to_vec(name.as_slice()), *at),
            Types::Struct(name) => Types::Struct(slice_to_vec(name.as_slice())),
            Types::Generic(base, arguments) => {
                let mut copies: Vec<Types> = Vec::new();
                let mut i: usize = 0;
                while i < arguments.len()
                    invariant
                        i <= arguments.len(),
                        copies.len() == i,
                        forall|j: int| 0 <= j < i ==> (#[trigger] copies[j])@ == arguments[j]@,
                    decreases arguments.len() - i,
                {
                    assert(decreases_to!(arguments => arguments[i as int]));
                    copies.push(arguments[i].duplicate());
                    i += 1;
                }
                let copy = Types::Generic(Box::new(base.duplicate()), copies);
                assert(copy@ == self@) by {
                    assert(copy@->Generic_1 =~= self@->Generic_1);
                }
                copy
            },
        }
    }

    /// Whether two types are the same.
    #[verifier::loop_isolation(false)]
    pub fn same(&self, other: &Types) -> (same: bool)
        ensures
            same == (self@ == other@),
        decreases self,
    {
        match (self, other) {
            (Types::Unresolved(name, at), Types::Unresolved(other_name, other_at)) => {
                same_bytes(name.as_slice(), other_name.as_slice()) && at.token_type
                    == other_at.token_type && at.start == other_at.start && at.end
                    == other_at.end
            },
            (Types::Struct(name), Types::Struct(other_name)) => same_bytes(
                name.as_slice(),
                other_name.as_slice(),
            ),
            (Types::Generic(base, arguments), Types::Generic(other_base, other_arguments)) => {
                if !base.same(other_base) || arguments.len() != other_arguments.len() {
                    assert(self@ != other@) by {
                        if self@ == other@ {
                            assert(self@->Generic_1.len() == other@->Generic_1.len());
                        }
                    }
                    return false;
                }
                let mut i: usize = 0;
                while i < arguments.len()
                    invariant
                        i <= arguments.len(),
                        arguments.len() == other_arguments.len(),
                        forall|j: int| 0 <= j < i ==> (#[trigger] arguments[j])@ == other_arguments[j]@,
                    decreases arguments.len() - i,
                {
                    assert(decreases_to!(arguments => arguments[i as int]));
                    if !arguments[i].same(&other_arguments[i]) {
                        assert(self@->Generic_1[i as int] == arguments[i as int]@);
                        assert(other@->Generic_1[i as int] == other_arguments[i as int]@);
                        return false;
                    }
                    i += 1;
                }
                assert(self@->Generic_1 =~= other@->Generic_1);
                true
            },
            _ => false,
        }
    }
}

/// Whether two byte strings are equal.
pub fn same_bytes(first: &[u8], second: &[u8]) -> (same: bool)
    ensures
        same == (first@ == second@),
{
    if first.len() != second.len() {
        return false;
    }
    let mut i: usize = 0;
    while i < first.len()
        invariant
            i <= first.len(),
            first.len() == second.len(),
            forall|j: int| 0 <= j < i ==> first[j] == second[j],
        decreases first.len() - i,
    {
        if first[i] != second[i] {
            return false;
        }
        i += 1;
    }
    assert(first@ =~= second@);
    true
}

} // verus!
