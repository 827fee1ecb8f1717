use vstd::prelude::*;
use vstd::slice::slice_to_vec;
use vstd::string::StringSliceAdditionalSpecFns;
use crate::parser::code_parser::{body_effect, create_assign, create_effect, create_let};
use crate::parser::control_parser::create_for;
use crate::parser::operator_parser::create_operation;
use crate::parser::util::{generic_type, message};
use crate::syntax::code::{
    arguments_model, lemma_arguments_model, lemma_lines_model, lines_model, CodeBody,
    CodeBodyModel, Effects, EffectsModel, Expression, ExpressionModel, FieldSlot, FieldSlotModel,
};
use crate::syntax::errors::{ErrorModel, ParsingError};
use crate::syntax::function::{Function, FunctionModel};
use crate::syntax::syntax::{
    fields_model, lemma_registration_order, Declaration, DeclarationModel, Field, FieldModel,
    Syntax, SyntaxModel,
};
use crate::syntax::types::{Types, TypesModel};
use crate::tokens::tokens::Token;
use crate::{types_model, ImportNameResolver, ResolverModel};

verus! {

/// The mathematical value of a [`Resolution`].
pub enum ResolutionModel<M> {
    Ready(M),
    Failed(ErrorModel),
    Waiting(Seq<u8>),
}

/// What driving a deferred computation yields: its value, the failure it
/// ended in, or the name that it has to wait for.
#[derive(Debug, PartialEq, Eq)]
pub enum Resolution<T> {
    Ready(T),
    Failed(ParsingError),
    Waiting(Vec<u8>),
}

impl<T: View> View for Resolution<T> {
    type V = ResolutionModel<T::V>;

    open spec fn view(&self) -> ResolutionModel<T::V> {
        match self {
            Resolution::Ready(value) => ResolutionModel::Ready(value@),
            Resolution::Failed(error) => ResolutionModel::Failed(error@),
            Resolution::Waiting(name) => ResolutionModel::Waiting(name@),
        }
    }
}

impl<M> ResolutionModel<M> {
    /// The same failure or wait, in the place of a value of another type.
    pub open spec fn carry<N>(self) -> ResolutionModel<N> {
        match self {
            ResolutionModel::Failed(error) => ResolutionModel::Failed(error),
            ResolutionModel::Waiting(name) => ResolutionModel::Waiting(name),
            ResolutionModel::Ready(_) => ResolutionModel::Waiting(Seq::empty()),
        }
    }
}

/// The mathematical value of a [`Scope`].
pub struct ScopeModel {
    pub resolver: ResolverModel,
    pub syntax: SyntaxModel,
    pub file: Seq<u8>,
}

/// What a deferred computation is driven against: the name resolver of the
/// file it came from, the registry as it stands, and the name of the file.
pub struct Scope<'a> {
    pub resolver: &'a ImportNameResolver,
    pub syntax: &'a Syntax,
    pub file: &'a [u8],
}

impl<'a> View for Scope<'a> {
    type V = ScopeModel;

    open spec fn view(&self) -> ScopeModel {
        ScopeModel { resolver: self.resolver@, syntax: self.syntax@, file: self.file@ }
    }
}

/// The name `name` inside `scope`.
pub open spec fn qualify(scope: Seq<u8>, name: Seq<u8>) -> Seq<u8> {
    scope + seq![':' as u8, ':' as u8] + name
}

/// Writes the name `name` inside `scope`.
pub fn qualified(scope: &[u8], name: &[u8]) -> (full: Vec<u8>)
    ensures
        full@ == qualify(scope@, name@),
{
    let mut full = slice_to_vec(scope);
    full.push(':' as u8);
    full.push(':' as u8);
    let mut i: usize = 0;
    while i < name.len()
        invariant
            i <= name.len(),
            full@ == scope@ + seq![':' as u8, ':' as u8] + name@.take(i as int),
        decreases name.len() - i,
    {
        full.push(name[i]);
        assert(name@.take(i + 1) =~= name@.take(i as int).push(name@[i as int]));
        i += 1;
    }
    assert(name@.take(name.len() as int) =~= name@);
    full
}

/// The name under which the first of `imports`, at or behind `from`, holds
/// a declaration of `name`.
pub open spec fn first_import(
    syntax: SyntaxModel,
    imports: Seq<Seq<u8>>,
    name: Seq<u8>,
    from: int,
) -> Option<Seq<u8>>
    decreases imports.len() - from,
{
    if from < 0 || from >= imports.len() {
        None
    } else if syntax.contains(qualify(imports[from], name)) {
        Some(qualify(imports[from], name))
    } else {
        first_import(syntax, imports, name, from + 1)
    }
}

/// Whether `name` is a generic parameter of the resolver.
pub open spec fn is_generic(resolver: ResolverModel, name: Seq<u8>) -> bool {
    exists|i: int| 0 <= i < resolver.generics.len() && (#[trigger] resolver.generics[i]).0 == name
}

/// The fully-qualified form under which `name` is known in `scope`. The
/// imports are searched in their order and the first that holds the name
/// wins; then come the generic parameters, the parent type, and the name as
/// it stands.
pub open spec fn qualified_name(scope: ScopeModel, name: Seq<u8>) -> Option<Seq<u8>> {
    if first_import(scope.syntax, scope.resolver.imports, name, 0) is Some {
        first_import(scope.syntax, scope.resolver.imports, name, 0)
    } else if is_generic(scope.resolver, name) {
        Some(name)
    } else if scope.resolver.parent is Some && scope.syntax.contains(
        qualify(scope.resolver.parent->0, name),
    ) {
        Some(qualify(scope.resolver.parent->0, name))
    } else if scope.syntax.contains(name) {
        Some(name)
    } else {
        None
    }
}

/// Finds the fully-qualified form of `name`.
pub fn resolve_name(scope: &Scope, name: &Vec<u8>) -> (full: Option<Vec<u8>>)
    ensures
        match full {
            Some(full) => qualified_name(scope@, name@) == Some(full@),
            None => qualified_name(scope@, name@) is None,
        },
{
    let imports = scope.resolver.imports();
    let mut i: usize = 0;
    while i < imports.len()
        invariant
            i <= imports.len(),
            crate::names_model(imports@) == scope@.resolver.imports,
            first_import(scope@.syntax, scope@.resolver.imports, name@, 0) == first_import(
                scope@.syntax,
                scope@.resolver.imports,
                name@,
                i as int,
            ),
        decreases imports.len() - i,
    {
        let candidate = qualified(imports[i].as_slice(), name.as_slice());
        assert(scope@.resolver.imports[i as int] == imports[i as int]@);
        if scope.syntax.contains(candidate.as_slice()) {
            return Some(candidate);
        }
        i += 1;
    }
    if scope.resolver.generic(name).is_some() {
        return Some(slice_to_vec(name.as_slice()));
    }
    match &scope.resolver.parent {
        Some(parent) => {
            let candidate = qualified(parent.as_slice(), name.as_slice());
            if scope.syntax.contains(candidate.as_slice()) {
                return Some(candidate);
            }
        },
        None => {},
    }
    if scope.syntax.contains(name.as_slice()) {
        return Some(slice_to_vec(name.as_slice()));
    }
    None
}

/// The message of a name that nothing declares.
pub open spec fn unresolved_message(name: Seq<u8>) -> Seq<u8> {
    "Unresolved symbol: ".spec_bytes() + name
}

/// What a lookup of the struct `name`, written by `token`, yields: the type
/// once the name is known, a wait for the name while the registry is open,
/// and a failure that names it once the registry is complete.
pub open spec fn lookup_struct(scope: ScopeModel, name: Seq<u8>, token: Token) -> ResolutionModel<
    TypesModel,
> {
    match qualified_name(scope, name) {
        Some(full) => ResolutionModel::Ready(TypesModel::Struct(full)),
        None => if scope.syntax.finished {
            ResolutionModel::Failed(token.spec_error(scope.file, unresolved_message(name)))
        } else {
            ResolutionModel::Waiting(name)
        },
    }
}

/// Looks up the struct `name`, written by `token`.
pub fn get_struct(scope: &Scope, name: &Vec<u8>, token: &Token) -> (found: Resolution<Types>)
    ensures
        found@ == lookup_struct(scope@, name@, *token),
{
    match resolve_name(scope, name) {
        Some(full) => Resolution::Ready(Types::Struct(full)),
        None => {
            if scope.syntax.finished {
                let mut text = message("Unresolved symbol: ");
                let mut i: usize = 0;
                while i < name.len()
                    invariant
                        i <= name.len(),
                        text@ == "Unresolved symbol: ".spec_bytes() + name@.take(i as int),
                    decreases name.len() - i,
                {
                    text.push(name[i]);
                    assert(name@.take(i + 1) =~= name@.take(i as int).push(name@[i as int]));
                    i += 1;
                }
                assert(name@.take(name.len() as int) =~= name@);
                Resolution::Failed(token.make_error(slice_to_vec(scope.file), text))
            } else {
                Resolution::Waiting(slice_to_vec(name.as_slice()))
            }
        },
    }
}

/// What resolving a type yields. The base of a generic type is resolved
/// before its arguments, and the arguments in their order; the first that is
/// not ready decides.
pub open spec fn resolved_type(types: TypesModel, scope: ScopeModel) -> ResolutionModel<TypesModel>
    decreases types, 0nat,
{
    match types {
        TypesModel::Unresolved(name, token) => lookup_struct(scope, name, token),
        TypesModel::Struct(name) => ResolutionModel::Ready(TypesModel::Struct(name)),
        TypesModel::Generic(base, arguments) => match resolved_type(*base, scope) {
            ResolutionModel::Ready(base) => match resolved_types(
                arguments,
                arguments.len(),
                scope,
            ) {
                ResolutionModel::Ready(list) => ResolutionModel::Ready(
                    TypesModel::Generic(Box::new(base), list),
                ),
                other => other.carry(),
            },
            other => other.carry(),
        },
    }
}

/// What resolving the first `count` types of `list` yields.
pub open spec fn resolved_types(list: Seq<TypesModel>, count: nat, scope: ScopeModel) -> ResolutionModel<
    Seq<TypesModel>,
>
    decreases list, count,
{
    if count == 0 || count > list.len() {
        ResolutionModel::Ready(Seq::empty())
    } else {
        match resolved_types(list, (count - 1) as nat, scope) {
            ResolutionModel::Ready(prefix) => match resolved_type(list[count - 1], scope) {
                ResolutionModel::Ready(types) => ResolutionModel::Ready(prefix.push(types)),
                other => other.carry(),
            },
            other => other,
        }
    }
}

/// Once a type of a list is not ready, the types behind it change nothing.
pub proof fn lemma_resolved_types_stop(
    list: Seq<TypesModel>,
    count: nat,
    total: nat,
    scope: ScopeModel,
)
    requires
        1 <= count <= total <= list.len(),
        !(resolved_types(list, count, scope) is Ready),
    ensures
        resolved_types(list, total, scope) == resolved_types(list, count, scope),
    decreases total,
{
    if count < total {
        lemma_resolved_types_stop(list, count, (total - 1) as nat, scope);
    }
}

/// Resolves a type against the registry as it stands.
#[verifier::loop_isolation(false)]
pub fn resolve_type(types: &Types, scope: &Scope) -> (resolved: Resolution<Types>)
    ensures
        resolved@ == resolved_type(types@, scope@),
    decreases types,
{
    match types {
        Types::Unresolved(name, token) => get_struct(scope, name, token),
        Types::Struct(name) => Resolution::Ready(Types::Struct(slice_to_vec(name.as_slice()))),
        Types::Generic(base, arguments) => {
            let base = match resolve_type(base, scope) {
                Resolution::Ready(base) => base,
                Resolution::Failed(error) => {
                    return Resolution::Failed(error);
                },
                Resolution::Waiting(name) => {
                    return Resolution::Waiting(name);
                },
            };
            let ghost list = types@->Generic_1;
            let mut resolved: Vec<Types> = Vec::new();
            let mut i: usize = 0;
            assert(types_model(resolved@) =~= Seq::empty());
            while i < arguments.len()
                invariant
                    i <= arguments.len(),
                    list.len() == arguments.len(),
                    resolved_types(list, i as nat, scope@) == ResolutionModel::Ready(
                        types_model(resolved@),
                    ),
                decreases arguments.len() - i,
            {
                assert(decreases_to!(arguments => arguments[i as int]));
                assert(list[i as int] == arguments[i as int]@);
                let ghost before = resolved@;
                match resolve_type(&arguments[i], scope) {
                    Resolution::Ready(argument) => {
                        resolved.push(argument);
                        assert(types_model(resolved@) =~= types_model(before).push(argument@));
                    },
                    Resolution::Failed(error) => {
                        proof {
                            lemma_resolved_types_stop(
                                list,
                                (i + 1) as nat,
                                list.len(),
                                scope@,
                            );
                        }
                        return Resolution::Failed(error);
                    },
                    Resolution::Waiting(name) => {
                        proof {
                            lemma_resolved_types_stop(
                                list,
                                (i + 1) as nat,
                                list.len(),
                                scope@,
                            );
                        }
                        return Resolution::Waiting(name);
                    },
                }
                i += 1;
            }
            Resolution::Ready(generic_type(base, resolved))
        },
    }
}

/// What awaiting a deferred effect yields. The parts of a node are awaited
/// in their order: the target of an assignment before its value, the
/// arguments of a struct construction before its type, the lines of a body
/// from first to last. The first part that is not ready decides; a failure
/// in the place of a node fails the whole.
pub open spec fn awaited(effect: EffectsModel, scope: ScopeModel) -> ResolutionModel<EffectsModel>
    decreases effect, 0nat,
{
    match effect {
        EffectsModel::NOP => ResolutionModel::Ready(effect),
        EffectsModel::Int(_) => ResolutionModel::Ready(effect),
        EffectsModel::Float(_) => ResolutionModel::Ready(effect),
        EffectsModel::LoadVariable(_) => ResolutionModel::Ready(effect),
        EffectsModel::CreateVariable(name, value) => match awaited(*value, scope) {
            ResolutionModel::Ready(value) => ResolutionModel::Ready(
                EffectsModel::CreateVariable(name, Box::new(value)),
            ),
            other => other,
        },
        EffectsModel::Assign(target, value) => match awaited(*target, scope) {
            ResolutionModel::Ready(target) => match awaited(*value, scope) {
                ResolutionModel::Ready(value) => ResolutionModel::Ready(
                    EffectsModel::Assign(Box::new(target), Box::new(value)),
                ),
                other => other,
            },
            other => other,
        },
        EffectsModel::CreateStruct(types, arguments) => match awaited_arguments(
            arguments,
            arguments.len(),
            scope,
        ) {
            ResolutionModel::Ready(arguments) => match resolved_type(types, scope) {
                ResolutionModel::Ready(types) => ResolutionModel::Ready(
                    EffectsModel::CreateStruct(types, arguments),
                ),
                other => other.carry(),
            },
            other => other.carry(),
        },
        EffectsModel::CodeBody(body) => match awaited_body(body, scope) {
            ResolutionModel::Ready(body) => ResolutionModel::Ready(EffectsModel::CodeBody(body)),
            other => other.carry(),
        },
        EffectsModel::ForLoop(name, iterator, body) => match awaited(*iterator, scope) {
            ResolutionModel::Ready(iterator) => match awaited_body(body, scope) {
                ResolutionModel::Ready(body) => ResolutionModel::Ready(
                    EffectsModel::ForLoop(name, Box::new(iterator), body),
                ),
                other => other.carry(),
            },
            other => other,
        },
        EffectsModel::Operation(operator, left, right) => match awaited(*left, scope) {
            ResolutionModel::Ready(left) => match awaited(*right, scope) {
                ResolutionModel::Ready(right) => ResolutionModel::Ready(
                    EffectsModel::Operation(operator, Box::new(left), Box::new(right)),
                ),
                other => other,
            },
            other => other,
        },
        EffectsModel::Error(error) => ResolutionModel::Failed(error),
    }
}

/// What awaiting the first `count` arguments of a struct construction
/// yields.
pub open spec fn awaited_arguments(
    arguments: Seq<(FieldSlotModel, EffectsModel)>,
    count: nat,
    scope: ScopeModel,
) -> ResolutionModel<Seq<(FieldSlotModel, EffectsModel)>>
    decreases arguments, count,
{
    if count == 0 || count > arguments.len() {
        ResolutionModel::Ready(Seq::empty())
    } else {
        match awaited_arguments(arguments, (count - 1) as nat, scope) {
            ResolutionModel::Ready(prefix) => match awaited(arguments[count - 1].1, scope) {
                ResolutionModel::Ready(value) => ResolutionModel::Ready(
                    prefix.push((arguments[count - 1].0, value)),
                ),
                other => other.carry(),
            },
            other => other,
        }
    }
}

/// What awaiting a deferred body yields: the body of its awaited lines,
/// under the same label.
pub open spec fn awaited_body(body: CodeBodyModel, scope: ScopeModel) -> ResolutionModel<
    CodeBodyModel,
>
    decreases body, 0nat,
{
    match awaited_lines(body.expressions, body.expressions.len(), scope) {
        ResolutionModel::Ready(lines) => ResolutionModel::Ready(
            CodeBodyModel { label: body.label, expressions: lines },
        ),
        other => other.carry(),
    }
}

/// What awaiting the first `count` lines of a body yields.
pub open spec fn awaited_lines(lines: Seq<ExpressionModel>, count: nat, scope: ScopeModel) -> ResolutionModel<
    Seq<ExpressionModel>,
>
    decreases lines, count,
{
    if count == 0 || count > lines.len() {
        ResolutionModel::Ready(Seq::empty())
    } else {
        match awaited_lines(lines, (count - 1) as nat, scope) {
            ResolutionModel::Ready(prefix) => match awaited(lines[count - 1].effect, scope) {
                ResolutionModel::Ready(effect) => ResolutionModel::Ready(
                    prefix.push(
                        ExpressionModel {
                            expression_type: lines[count - 1].expression_type,
                            effect,
                        },
                    ),
                ),
                other => other.carry(),
            },
            other => other,
        }
    }
}

/// Once an argument is not ready, the arguments behind it change nothing.
pub proof fn lemma_awaited_arguments_stop(
    arguments: Seq<(FieldSlotModel, EffectsModel)>,
    count: nat,
    total: nat,
    scope: ScopeModel,
)
    requires
        1 <= count <= total <= arguments.len(),
        !(awaited_arguments(arguments, count, scope) is Ready),
    ensures
        awaited_arguments(arguments, total, scope) == awaited_arguments(arguments, count, scope),
    decreases total,
{
    if count < total {
        lemma_awaited_arguments_stop(arguments, count, (total - 1) as nat, scope);
    }
}

/// Once a line is not ready, the lines behind it change nothing.
pub proof fn lemma_awaited_lines_stop(
    lines: Seq<ExpressionModel>,
    count: nat,
    total: nat,
    scope: ScopeModel,
)
    requires
        1 <= count <= total <= lines.len(),
        !(awaited_lines(lines, count, scope) is Ready),
    ensures
        awaited_lines(lines, total, scope) == awaited_lines(lines, count, scope),
    decreases total,
{
    if count < total {
        lemma_awaited_lines_stop(lines, count, (total - 1) as nat, scope);
    }
}

/// A copy of a name.
fn copy_name(name: &Vec<u8>) -> (copy: Vec<u8>)
    ensures
        copy@ == name@,
{
    slice_to_vec(name.as_slice())
}

/// A copy of a slot.
fn copy_slot(slot: &FieldSlot) -> (copy: FieldSlot)
    ensures
        copy@ == slot@,
{
    FieldSlot { name: copy_name(&slot.name), index: slot.index }
}

/// Awaits the arguments of a struct construction, in their order.
#[verifier::loop_isolation(false)]
pub fn await_arguments(arguments: &Vec<(FieldSlot, Effects)>, scope: &Scope) -> (resolved:
    Resolution<Vec<(FieldSlot, Effects)>>)
    ensures
        match awaited_arguments(arguments_model(arguments@), arguments.len() as nat, scope@) {
            ResolutionModel::Ready(values) => resolved matches Resolution::Ready(list)
                && arguments_model(list@) == values,
            ResolutionModel::Failed(error) => resolved matches Resolution::Failed(found)
                && found@ == error,
            ResolutionModel::Waiting(name) => resolved matches Resolution::Waiting(found)
                && found@ == name,
        },
    decreases arguments, 1nat,
{
    let ghost list = arguments_model(arguments@);
    let mut values: Vec<(FieldSlot, Effects)> = Vec::new();
    let mut i: usize = 0;
    assert(arguments_model(values@) =~= Seq::empty());
    while i < arguments.len()
        invariant
            i <= arguments.len(),
            awaited_arguments(list, i as nat, scope@) == ResolutionModel::Ready(
                arguments_model(values@),
            ),
        decreases arguments.len() - i,
    {
        assert(decreases_to!(arguments => arguments[i as int]));
        let ghost before = values@;
        match await_effect(&arguments[i].1, scope) {
            Resolution::Ready(value) => {
                values.push((copy_slot(&arguments[i].0), value));
                assert(arguments_model(values@) =~= arguments_model(before).push(
                    (arguments[i as int].0@, value@),
                ));
            },
            Resolution::Failed(error) => {
                proof {
                    lemma_awaited_arguments_stop(list, (i + 1) as nat, list.len(), scope@);
                }
                return Resolution::Failed(error);
            },
            Resolution::Waiting(name) => {
                proof {
                    lemma_awaited_arguments_stop(list, (i + 1) as nat, list.len(), scope@);
                }
                return Resolution::Waiting(name);
            },
        }
        i += 1;
    }
    Resolution::Ready(values)
}

/// Awaits a deferred body: its lines from first to last.
#[verifier::loop_isolation(false)]
pub fn await_body(body: &CodeBody, scope: &Scope) -> (resolved: Resolution<CodeBody>)
    ensures
        resolved@ == awaited_body(body@, scope@),
    decreases body, 1nat,
{
    let ghost list = body@.expressions;
    proof {
        lemma_lines_model(*body);
    }
    let mut lines: Vec<Expression> = Vec::new();
    let mut i: usize = 0;
    assert(lines_model(lines@) =~= Seq::empty());
    while i < body.expressions.len()
        invariant
            i <= body.expressions.len(),
            awaited_lines(list, i as nat, scope@) == ResolutionModel::Ready(lines_model(lines@)),
        decreases body.expressions.len() - i,
    {
        assert(decreases_to!(body.expressions => body.expressions[i as int]));
        let ghost before = lines@;
        match await_effect(&body.expressions[i].effect, scope) {
            Resolution::Ready(effect) => {
                lines.push(Expression::new(body.expressions[i].expression_type, effect));
                assert(lines_model(lines@) =~= lines_model(before).push(lines@.last()@));
            },
            Resolution::Failed(error) => {
                proof {
                    lemma_awaited_lines_stop(list, (i + 1) as nat, list.len(), scope@);
                }
                return Resolution::Failed(error);
            },
            Resolution::Waiting(name) => {
                proof {
                    lemma_awaited_lines_stop(list, (i + 1) as nat, list.len(), scope@);
                }
                return Resolution::Waiting(name);
            },
        }
        i += 1;
    }
    Resolution::Ready(CodeBody::new(lines, copy_name(&body.label)))
}

/// Awaits a deferred effect against the registry as it stands.
pub fn await_effect(effect: &Effects, scope: &Scope) -> (resolved: Resolution<Effects>)
    ensures
        resolved@ == awaited(effect@, scope@),
    decreases effect, 0nat,
{
    match effect {
        Effects::NOP => Resolution::Ready(Effects::NOP),
        Effects::Int(value) => Resolution::Ready(Effects::Int(*value)),
        Effects::Float(text) => Resolution::Ready(Effects::Float(copy_name(text))),
        Effects::LoadVariable(name) => Resolution::Ready(Effects::LoadVariable(copy_name(name))),
        Effects::CreateVariable(name, value) => match await_effect(value, scope) {
            Resolution::Ready(value) => Resolution::Ready(create_let(copy_name(name), value)),
            Resolution::Failed(error) => Resolution::Failed(error),
            Resolution::Waiting(name) => Resolution::Waiting(name),
        },
        Effects::Assign(target, value) => match await_effect(target, scope) {
            Resolution::Ready(target) => match await_effect(value, scope) {
                Resolution::Ready(value) => Resolution::Ready(create_assign(target, value)),
                Resolution::Failed(error) => Resolution::Failed(error),
                Resolution::Waiting(name) => Resolution::Waiting(name),
            },
            Resolution::Failed(error) => Resolution::Failed(error),
            Resolution::Waiting(name) => Resolution::Waiting(name),
        },
        Effects::CreateStruct(types, arguments) => {
            proof {
                lemma_arguments_model(*types, *arguments);
            }
            match await_arguments(arguments, scope) {
                Resolution::Ready(values) => match resolve_type(types, scope) {
                    Resolution::Ready(types) => Resolution::Ready(create_effect(types, values)),
                    Resolution::Failed(error) => Resolution::Failed(error),
                    Resolution::Waiting(name) => Resolution::Waiting(name),
                },
                Resolution::Failed(error) => Resolution::Failed(error),
                Resolution::Waiting(name) => Resolution::Waiting(name),
            }
        },
        Effects::CodeBody(body) => match await_body(body, scope) {
            Resolution::Ready(body) => Resolution::Ready(body_effect(body)),
            Resolution::Failed(error) => Resolution::Failed(error),
            Resolution::Waiting(name) => Resolution::Waiting(name),
        },
        Effects::ForLoop(name, iterator, body) => match await_effect(iterator, scope) {
            Resolution::Ready(iterator) => match await_body(body, scope) {
                Resolution::Ready(body) => Resolution::Ready(
                    create_for(copy_name(name), iterator, body),
                ),
                Resolution::Failed(error) => Resolution::Failed(error),
                Resolution::Waiting(name) => Resolution::Waiting(name),
            },
            Resolution::Failed(error) => Resolution::Failed(error),
            Resolution::Waiting(name) => Resolution::Waiting(name),
        },
        Effects::Operation(operator, left, right) => match await_effect(left, scope) {
            Resolution::Ready(left) => match await_effect(right, scope) {
                Resolution::Ready(right) => Resolution::Ready(
                    create_operation(copy_name(operator), left, right),
                ),
                Resolution::Failed(error) => Resolution::Failed(error),
                Resolution::Waiting(name) => Resolution::Waiting(name),
            },
            Resolution::Failed(error) => Resolution::Failed(error),
            Resolution::Waiting(name) => Resolution::Waiting(name),
        },
        Effects::Error(error) => Resolution::Failed(error.duplicate()),
    }
}

/// Whether two registries know the same names, and agree on whether more may
/// come.
pub open spec fn same_names(first: SyntaxModel, second: SyntaxModel) -> bool {
    &&& first.finished == second.finished
    &&& forall|name: Seq<u8>| #[trigger] first.contains(name) == second.contains(name)
}

/// The scope that differs from `scope` in its registry only.
pub open spec fn scope_with(scope: ScopeModel, syntax: SyntaxModel) -> ScopeModel {
    ScopeModel { resolver: scope.resolver, syntax, file: scope.file }
}

/// A search of the imports reads nothing of the registry but which names
/// it knows.
pub proof fn lemma_first_import_reads_names(
    first: SyntaxModel,
    second: SyntaxModel,
    imports: Seq<Seq<u8>>,
    name: Seq<u8>,
    from: int,
)
    requires
        same_names(first, second),
    ensures
        first_import(first, imports, name, from) == first_import(second, imports, name, from),
    decreases imports.len() - from,
{
    if 0 <= from < imports.len() {
        assert(first.contains(qualify(imports[from], name)) == second.contains(
            qualify(imports[from], name),
        ));
        lemma_first_import_reads_names(first, second, imports, name, from + 1);
    }
}

/// A lookup reads nothing of the registry but which names it knows.
pub proof fn lemma_lookup_reads_names(
    scope: ScopeModel,
    other: SyntaxModel,
    name: Seq<u8>,
    token: Token,
)
    requires
        same_names(scope.syntax, other),
    ensures
        lookup_struct(scope_with(scope, other), name, token) == lookup_struct(scope, name, token),
{
    lemma_first_import_reads_names(scope.syntax, other, scope.resolver.imports, name, 0);
    if scope.resolver.parent is Some {
        assert(scope.syntax.contains(qualify(scope.resolver.parent->0, name)) == other.contains(
            qualify(scope.resolver.parent->0, name),
        ));
    }
    assert(scope.syntax.contains(name) == other.contains(name));
}

/// Resolving a type reads nothing of the registry but which names it knows.
pub proof fn lemma_resolved_type_reads_names(types: TypesModel, scope: ScopeModel, other: SyntaxModel)
    requires
        same_names(scope.syntax, other),
    ensures
        resolved_type(types, scope_with(scope, other)) == resolved_type(types, scope),
    decreases types, 0nat,
{
    match types {
        TypesModel::Unresolved(name, token) => {
            lemma_lookup_reads_names(scope, other, name, token);
        },
        TypesModel::Struct(_) => {},
        TypesModel::Generic(base, arguments) => {
            lemma_resolved_type_reads_names(*base, scope, other);
            lemma_resolved_types_read_names(arguments, arguments.len(), scope, other);
        },
    }
}

/// Resolving a list of types reads nothing of the registry but which names
/// it knows.
pub proof fn lemma_resolved_types_read_names(
    list: Seq<TypesModel>,
    count: nat,
    scope: ScopeModel,
    other: SyntaxModel,
)
    requires
        same_names(scope.syntax, other),
    ensures
        resolved_types(list, count, scope_with(scope, other)) == resolved_types(list, count, scope),
    decreases list, count,
{
    if 0 < count <= list.len() {
        lemma_resolved_types_read_names(list, (count - 1) as nat, scope, other);
        lemma_resolved_type_reads_names(list[count - 1], scope, other);
    }
}

/// Awaiting reads nothing of the registry but which names it knows.
pub proof fn lemma_awaited_reads_names(effect: EffectsModel, scope: ScopeModel, other: SyntaxModel)
    requires
        same_names(scope.syntax, other),
    ensures
        awaited(effect, scope_with(scope, other)) == awaited(effect, scope),
    decreases effect, 0nat,
{
    match effect {
        EffectsModel::CreateVariable(_, value) => {
            lemma_awaited_reads_names(*value, scope, other);
        },
        EffectsModel::Assign(target, value) => {
            lemma_awaited_reads_names(*target, scope, other);
            lemma_awaited_reads_names(*value, scope, other);
        },
        EffectsModel::CreateStruct(types, arguments) => {
            lemma_awaited_arguments_read_names(arguments, arguments.len(), scope, other);
            lemma_resolved_type_reads_names(types, scope, other);
        },
        EffectsModel::CodeBody(body) => {
            lemma_awaited_body_reads_names(body, scope, other);
        },
        EffectsModel::ForLoop(_, iterator, body) => {
            lemma_awaited_reads_names(*iterator, scope, other);
            lemma_awaited_body_reads_names(body, scope, other);
        },
        EffectsModel::Operation(_, left, right) => {
            lemma_awaited_reads_names(*left, scope, other);
            lemma_awaited_reads_names(*right, scope, other);
        },
        _ => {},
    }
}

/// Awaiting a body reads nothing of the registry but which names it knows.
pub proof fn lemma_awaited_body_reads_names(body: CodeBodyModel, scope: ScopeModel, other: SyntaxModel)
    requires
        same_names(scope.syntax, other),
    ensures
        awaited_body(body, scope_with(scope, other)) == awaited_body(body, scope),
    decreases body, 1nat,
{
    lemma_awaited_lines_read_names(body.expressions, body.expressions.len(), scope, other);
}

/// Awaiting lines reads nothing of the registry but which names it knows.
pub proof fn lemma_awaited_lines_read_names(
    lines: Seq<ExpressionModel>,
    count: nat,
    scope: ScopeModel,
    other: SyntaxModel,
)
    requires
        same_names(scope.syntax, other),
    ensures
        awaited_lines(lines, count, scope_with(scope, other)) == awaited_lines(lines, count, scope),
    decreases lines, count,
{
    if 0 < count <= lines.len() {
        lemma_awaited_lines_read_names(lines, (count - 1) as nat, scope, other);
        lemma_awaited_reads_names(lines[count - 1].effect, scope, other);
    }
}

/// Awaiting arguments reads nothing of the registry but which names it
/// knows.
pub proof fn lemma_awaited_arguments_read_names(
    arguments: Seq<(FieldSlotModel, EffectsModel)>,
    count: nat,
    scope: ScopeModel,
    other: SyntaxModel,
)
    requires
        same_names(scope.syntax, other),
    ensures
        awaited_arguments(arguments, count, scope_with(scope, other)) == awaited_arguments(
            arguments,
            count,
            scope,
        ),
    decreases arguments, count,
{
    if 0 < count <= arguments.len() {
        lemma_awaited_arguments_read_names(arguments, (count - 1) as nat, scope, other);
        lemma_awaited_reads_names(arguments[count - 1].1, scope, other);
    }
}

/// Files may register in any order: what a deferred effect resolves to does
/// not depend on which of two declarations of different names came first.
pub proof fn lemma_registration_order_is_irrelevant(
    effect: EffectsModel,
    scope: ScopeModel,
    first: DeclarationModel,
    second: DeclarationModel,
)
    requires
        first.name != second.name,
    ensures
        awaited(effect, scope_with(scope, scope.syntax.with(first).with(second))) == awaited(
            effect,
            scope_with(scope, scope.syntax.with(second).with(first)),
        ),
{
    let one = scope.syntax.with(first).with(second);
    let other = scope.syntax.with(second).with(first);
    assert forall|name: Seq<u8>| #[trigger] one.contains(name) == other.contains(name) by {
        lemma_registration_order(scope.syntax, first, second, name);
    }
    lemma_awaited_reads_names(effect, scope_with(scope, one), other);
}

/// A reference may come before its declaration. While no file has
/// registered the name and more files may come, the lookup waits for it.
/// Once a file registers the name under the first import, the lookup yields
/// the declared type. If the registry is declared complete without the name,
/// the lookup fails, and the failure names it.
pub proof fn lemma_forward_reference(
    scope: ScopeModel,
    name: Seq<u8>,
    token: Token,
    declaration: DeclarationModel,
)
    requires
        qualified_name(scope, name) is None,
        scope.resolver.imports.len() > 0,
        declaration.name == qualify(scope.resolver.imports[0], name),
    ensures
        !scope.syntax.finished ==> lookup_struct(scope, name, token) == ResolutionModel::<
            TypesModel,
        >::Waiting(name),
        lookup_struct(scope_with(scope, scope.syntax.with(declaration)), name, token)
            == ResolutionModel::Ready(TypesModel::Struct(declaration.name)),
        lookup_struct(
            scope_with(
                scope,
                SyntaxModel { declarations: scope.syntax.declarations, finished: true },
            ),
            name,
            token,
        ) == ResolutionModel::<TypesModel>::Failed(
            token.spec_error(scope.file, unresolved_message(name)),
        ),
{
    crate::syntax::syntax::lemma_contains_after_add(scope.syntax, declaration, declaration.name);
    let complete = SyntaxModel { declarations: scope.syntax.declarations, finished: true };
    assert forall|other: Seq<u8>| #[trigger] scope.syntax.contains(other) == complete.contains(
        other,
    ) by {}
    assert(qualified_name(scope_with(scope, complete), name) is None) by {
        lemma_names_only(scope, complete, name);
    }
}

/// The qualified form of a name reads nothing of the registry but which
/// names it knows.
proof fn lemma_names_only(scope: ScopeModel, other: SyntaxModel, name: Seq<u8>)
    requires
        forall|any: Seq<u8>| #[trigger] scope.syntax.contains(any) == other.contains(any),
    ensures
        qualified_name(scope_with(scope, other), name) == qualified_name(scope, name),
{
    let relaxed = SyntaxModel { declarations: other.declarations, finished: scope.syntax.finished };
    assert forall|any: Seq<u8>| #[trigger] scope.syntax.contains(any) == relaxed.contains(any) by {
        assert(relaxed.contains(any) == other.contains(any));
    }
    lemma_first_import_reads_names(scope.syntax, relaxed, scope.resolver.imports, name, 0);
    lemma_first_import_reads_names(relaxed, relaxed, scope.resolver.imports, name, 0);
    assert(first_import(relaxed, scope.resolver.imports, name, 0) == first_import(
        other,
        scope.resolver.imports,
        name,
        0,
    )) by {
        lemma_first_import_ignores_flag(relaxed, other, scope.resolver.imports, name, 0);
    }
    if scope.resolver.parent is Some {
        assert(scope.syntax.contains(qualify(scope.resolver.parent->0, name)) == other.contains(
            qualify(scope.resolver.parent->0, name),
        ));
    }
    assert(scope.syntax.contains(name) == other.contains(name));
}

/// A search of the imports does not read whether the registry is complete.
proof fn lemma_first_import_ignores_flag(
    first: SyntaxModel,
    second: SyntaxModel,
    imports: Seq<Seq<u8>>,
    name: Seq<u8>,
    from: int,
)
    requires
        first.declarations == second.declarations,
    ensures
        first_import(first, imports, name, from) == first_import(second, imports, name, from),
    decreases imports.len() - from,
{
    if 0 <= from < imports.len() {
        lemma_first_import_ignores_flag(first, second, imports, name, from + 1);
    }
}

/// What resolving the first `count` fields of a declaration yields.
pub open spec fn resolved_fields(fields: Seq<FieldModel>, count: nat, scope: ScopeModel) -> ResolutionModel<
    Seq<FieldModel>,
>
    decreases count,
{
    if count == 0 || count > fields.len() {
        ResolutionModel::Ready(Seq::empty())
    } else {
        match resolved_fields(fields, (count - 1) as nat, scope) {
            ResolutionModel::Ready(prefix) => match resolved_type(
                fields[count - 1].field_type,
                scope,
            ) {
                ResolutionModel::Ready(types) => ResolutionModel::Ready(
                    prefix.push(FieldModel { name: fields[count - 1].name, field_type: types }),
                ),
                other => other.carry(),
            },
            other => other,
        }
    }
}

/// Once a field is not ready, the fields behind it change nothing.
pub proof fn lemma_resolved_fields_stop(
    fields: Seq<FieldModel>,
    count: nat,
    total: nat,
    scope: ScopeModel,
)
    requires
        1 <= count <= total <= fields.len(),
        !(resolved_fields(fields, count, scope) is Ready),
    ensures
        resolved_fields(fields, total, scope) == resolved_fields(fields, count, scope),
    decreases total,
{
    if count < total {
        lemma_resolved_fields_stop(fields, count, (total - 1) as nat, scope);
    }
}

/// What resolving a declaration yields: the declaration with the types of
/// its fields, then its return type, resolved.
pub open spec fn resolved_declaration(declaration: DeclarationModel, scope: ScopeModel) -> ResolutionModel<
    DeclarationModel,
> {
    match resolved_fields(declaration.fields, declaration.fields.len(), scope) {
        ResolutionModel::Ready(fields) => match declaration.return_type {
            Some(types) => match resolved_type(types, scope) {
                ResolutionModel::Ready(types) => ResolutionModel::Ready(
                    DeclarationModel {
                        name: declaration.name,
                        kind: declaration.kind,
                        fields,
                        return_type: Some(types),
                        file: declaration.file,
                        token: declaration.token,
                    },
                ),
                other => other.carry(),
            },
            None => ResolutionModel::Ready(
                DeclarationModel {
                    name: declaration.name,
                    kind: declaration.kind,
                    fields,
                    return_type: None,
                    file: declaration.file,
                    token: declaration.token,
                },
            ),
        },
        other => other.carry(),
    }
}

/// Resolves the types of a declaration against the registry as it stands.
pub fn await_declaration(declaration: &Declaration, scope: &Scope) -> (resolved: Resolution<
    Declaration,
>)
    ensures
        resolved@ == resolved_declaration(declaration@, scope@),
{
    let ghost list = declaration@.fields;
    let mut fields: Vec<Field> = Vec::new();
    let mut i: usize = 0;
    assert(fields_model(fields@) =~= Seq::empty());
    while i < declaration.fields.len()
        invariant
            i <= declaration.fields.len(),
            list == fields_model(declaration.fields@),
            resolved_fields(list, i as nat, scope@) == ResolutionModel::Ready(fields_model(fields@)),
        decreases declaration.fields.len() - i,
    {
        let ghost before = fields@;
        assert(list[i as int] == declaration.fields[i as int]@);
        match resolve_type(&declaration.fields[i].field_type, scope) {
            Resolution::Ready(types) => {
                fields.push(Field { name: copy_name(&declaration.fields[i].name), field_type: types });
                assert(fields_model(fields@) =~= fields_model(before).push(fields@.last()@));
            },
            Resolution::Failed(error) => {
                proof {
                    lemma_resolved_fields_stop(list, (i + 1) as nat, list.len(), scope@);
                }
                return Resolution::Failed(error);
            },
            Resolution::Waiting(name) => {
                proof {
                    lemma_resolved_fields_stop(list, (i + 1) as nat, list.len(), scope@);
                }
                return Resolution::Waiting(name);
            },
        }
        i += 1;
    }
    let return_type = match &declaration.return_type {
        Some(types) => match resolve_type(types, scope) {
            Resolution::Ready(types) => Some(types),
            Resolution::Failed(error) => {
                return Resolution::Failed(error);
            },
            Resolution::Waiting(name) => {
                return Resolution::Waiting(name);
            },
        },
        None => None,
    };
    Resolution::Ready(
        Declaration {
            name: copy_name(&declaration.name),
            kind: declaration.kind,
            fields,
            return_type,
            file: copy_name(&declaration.file),
            token: declaration.token,
        },
    )
}

/// What awaiting a function yields: the function with its signature, then
/// its body, resolved.
pub open spec fn awaited_function(function: FunctionModel, scope: ScopeModel) -> ResolutionModel<
    FunctionModel,
> {
    match resolved_declaration(function.declaration, scope) {
        ResolutionModel::Ready(declaration) => match awaited_body(function.code, scope) {
            ResolutionModel::Ready(code) => ResolutionModel::Ready(
                FunctionModel { declaration, code, state: function.state },
            ),
            other => other.carry(),
        },
        other => other.carry(),
    }
}

/// Awaits a function against the registry as it stands.
pub fn await_function(function: &Function, scope: &Scope) -> (resolved: Resolution<Function>)
    ensures
        resolved@ == awaited_function(function@, scope@),
{
    match await_declaration(&function.declaration, scope) {
        Resolution::Ready(declaration) => match await_body(&function.code, scope) {
            Resolution::Ready(code) => Resolution::Ready(
                Function { declaration, code, state: function.state },
            ),
            Resolution::Failed(error) => Resolution::Failed(error),
            Resolution::Waiting(name) => Resolution::Waiting(name),
        },
        Resolution::Failed(error) => Resolution::Failed(error),
        Resolution::Waiting(name) => Resolution::Waiting(name),
    }
}

} // verus!
