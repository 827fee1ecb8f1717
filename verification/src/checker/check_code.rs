use vstd::prelude::*;
use vstd::string::StringSliceAdditionalSpecFns;
use crate::checker::check_function::CheckerVariableManager;
use crate::checker::output::{operation_type, TypesChecker, TypesCheckerModel};
use crate::parser::code_parser::{
    body_effect, create_assign, create_effect, create_let, optional_type,
};
use crate::parser::control_parser::create_for;
use crate::parser::operator_parser::create_operation;
use crate::parser::util::message;
use crate::syntax::code::{
    arguments_model, lemma_arguments_model, lemma_lines_model, lines_model, CodeBody,
    CodeBodyModel, Effects, EffectsModel, Expression, ExpressionModel, FieldSlot, FieldSlotModel,
};
use crate::syntax::errors::{ErrorModel, ParsingError};
use crate::syntax::syntax::{
    fields_model, Declaration, DeclarationKind, DeclarationModel, Field, FieldModel, Syntax,
    SyntaxModel,
};
use crate::syntax::types::{same_bytes, Types, TypesModel};
use crate::tokens::tokens::Token;
use vstd::slice::slice_to_vec;

verus! {

/// The mathematical value of a [`CheckContext`].
pub struct ContextModel {
    pub config: TypesCheckerModel,
    pub syntax: SyntaxModel,
    pub file: Seq<u8>,
    pub token: Token,
}

/// What a function is checked against: the configuration of the checker, the
/// registry, and the place that failures blame.
pub struct CheckContext<'a> {
    pub config: &'a TypesChecker,
    pub syntax: &'a Syntax,
    pub file: &'a [u8],
    pub token: Token,
}

impl<'a> View for CheckContext<'a> {
    type V = ContextModel;

    open spec fn view(&self) -> ContextModel {
        ContextModel {
            config: self.config@,
            syntax: self.syntax@,
            file: self.file@,
            token: self.token,
        }
    }
}

impl ContextModel {
    /// The failure with the given message.
    pub open spec fn error(self, message: Seq<u8>) -> ErrorModel {
        self.token.spec_error(self.file, message)
    }
}

impl<'a> CheckContext<'a> {
    /// The failure with the given message.
    pub fn error(&self, text: &str) -> (error: ParsingError)
        ensures
            error@ == self@.error(text.spec_bytes()),
    {
        self.token.make_error(slice_to_vec(self.file), message(text))
    }
}

/// What checking an effect yields: the effect with its placeholders filled
/// in, its type (none where it has no value), and the variables known after
/// it.
pub struct Checked {
    pub effect: EffectsModel,
    pub types: Option<TypesModel>,
    pub variables: Map<Seq<u8>, TypesModel>,
}

/// What checking the lines of a body yields: the lines, the type of the last
/// of them, and the variables known after them.
pub struct CheckedLines {
    pub lines: Seq<ExpressionModel>,
    pub types: Option<TypesModel>,
    pub variables: Map<Seq<u8>, TypesModel>,
}

/// What checking the arguments of a struct construction yields: the
/// arguments, each with the position of its field, the positions filled,
/// and the variables known after them.
pub struct CheckedArguments {
    pub arguments: Seq<(FieldSlotModel, EffectsModel)>,
    pub filled: Set<int>,
    pub variables: Map<Seq<u8>, TypesModel>,
}

/// The position at or behind `from` of the first field named `name`.
pub open spec fn field_position(fields: Seq<FieldModel>, name: Seq<u8>, from: int) -> Option<int>
    decreases fields.len() - from,
{
    if from < 0 || from >= fields.len() {
        None
    } else if fields[from].name == name {
        Some(from)
    } else {
        field_position(fields, name, from + 1)
    }
}

/// The name of the struct that a type constructs: the type itself, or the
/// base of a generic type.
pub open spec fn constructed(types: TypesModel) -> Option<Seq<u8>> {
    match types {
        TypesModel::Struct(name) => Some(name),
        TypesModel::Generic(base, _) => match *base {
            TypesModel::Struct(name) => Some(name),
            _ => None,
        },
        TypesModel::Unresolved(_, _) => None,
    }
}

/// The struct that a construction of `types` fills, or why there is none.
pub open spec fn constructed_struct(types: TypesModel, context: ContextModel) -> Result<
    DeclarationModel,
    ErrorModel,
> {
    match constructed(types) {
        None => Err(context.error("Unresolved type!".spec_bytes())),
        Some(name) => match context.syntax.get(name) {
            Some(declaration) => if declaration.kind == DeclarationKind::Structure {
                Ok(declaration)
            } else {
                Err(context.error("Unknown struct!".spec_bytes()))
            },
            None => Err(context.error("Unknown struct!".spec_bytes())),
        },
    }
}

/// What checking `effect` yields with the given variables known. The parts
/// of a node are checked in their order and each sees the variables that the
/// parts before it created; the first failure is the failure of the whole.
/// A body and a loop keep the variables that they create to themselves.
pub open spec fn checked(
    effect: EffectsModel,
    variables: Map<Seq<u8>, TypesModel>,
    context: ContextModel,
) -> Result<Checked, ErrorModel>
    decreases effect, 0nat,
{
    match effect {
        EffectsModel::NOP => Ok(Checked { effect, types: None, variables }),
        EffectsModel::Int(_) => Ok(Checked { effect, types: Some(context.config.integer), variables }),
        EffectsModel::Float(_) => Ok(Checked { effect, types: Some(context.config.float), variables }),
        EffectsModel::LoadVariable(name) => if variables.contains_key(name) {
            Ok(Checked { effect, types: Some(variables[name]), variables })
        } else {
            Err(context.error("Unknown variable!".spec_bytes()))
        },
        EffectsModel::CreateVariable(name, value) => match checked(*value, variables, context) {
            Ok(value) => match value.types {
                Some(types) => Ok(
                    Checked {
                        effect: EffectsModel::CreateVariable(name, Box::new(value.effect)),
                        types: None,
                        variables: value.variables.insert(name, types),
                    },
                ),
                None => Err(context.error("Expected a value, found void!".spec_bytes())),
            },
            Err(error) => Err(error),
        },
        EffectsModel::Assign(target, value) => match checked(*target, variables, context) {
            Ok(target) => match checked(*value, target.variables, context) {
                Ok(value) => if target.types is None || value.types is None {
                    Err(context.error("Expected a value, found void!".spec_bytes()))
                } else if target.types != value.types {
                    Err(context.error("Mismatched types in assignment!".spec_bytes()))
                } else {
                    Ok(
                        Checked {
                            effect: EffectsModel::Assign(
                                Box::new(target.effect),
                                Box::new(value.effect),
                            ),
                            types: None,
                            variables: value.variables,
                        },
                    )
                },
                Err(error) => Err(error),
            },
            Err(error) => Err(error),
        },
        EffectsModel::CreateStruct(types, arguments) => match constructed_struct(types, context) {
            Ok(declaration) => if arguments.len() != declaration.fields.len() {
                Err(context.error("Wrong number of arguments!".spec_bytes()))
            } else {
                match checked_arguments(
                    arguments,
                    arguments.len(),
                    declaration.fields,
                    variables,
                    context,
                ) {
                    Ok(filled) => Ok(
                        Checked {
                            effect: EffectsModel::CreateStruct(types, filled.arguments),
                            types: Some(types),
                            variables: filled.variables,
                        },
                    ),
                    Err(error) => Err(error),
                }
            },
            Err(error) => Err(error),
        },
        EffectsModel::CodeBody(body) => match checked_body(body, variables, context) {
            Ok(inner) => Ok(
                Checked {
                    effect: EffectsModel::CodeBody(
                        CodeBodyModel { label: body.label, expressions: inner.lines },
                    ),
                    types: inner.types,
                    variables,
                },
            ),
            Err(error) => Err(error),
        },
        EffectsModel::ForLoop(name, iterator, body) => match checked(*iterator, variables, context) {
            Ok(iterator) => match iterator.types {
                Some(types) => match checked_body(
                    body,
                    iterator.variables.insert(name, types),
                    context,
                ) {
                    Ok(inner) => Ok(
                        Checked {
                            effect: EffectsModel::ForLoop(
                                name,
                                Box::new(iterator.effect),
                                CodeBodyModel { label: body.label, expressions: inner.lines },
                            ),
                            types: None,
                            variables: iterator.variables,
                        },
                    ),
                    Err(error) => Err(error),
                },
                None => Err(context.error("Expected a value, found void!".spec_bytes())),
            },
            Err(error) => Err(error),
        },
        EffectsModel::Operation(operator, left, right) => match checked(*left, variables, context) {
            Ok(left) => match checked(*right, left.variables, context) {
                Ok(right) => match right.types {
                    Some(types) => match operation_type(
                        context.config.operators,
                        operator,
                        left.types,
                        types,
                        0,
                    ) {
                        Some(result) => Ok(
                            Checked {
                                effect: EffectsModel::Operation(
                                    operator,
                                    Box::new(left.effect),
                                    Box::new(right.effect),
                                ),
                                types: Some(result),
                                variables: right.variables,
                            },
                        ),
                        None => Err(context.error("Invalid operation!".spec_bytes())),
                    },
                    None => Err(context.error("Expected a value, found void!".spec_bytes())),
                },
                Err(error) => Err(error),
            },
            Err(error) => Err(error),
        },
        EffectsModel::Error(error) => Err(error),
    }
}

/// What checking a body yields, with the given variables known at its
/// start.
pub open spec fn checked_body(
    body: CodeBodyModel,
    variables: Map<Seq<u8>, TypesModel>,
    context: ContextModel,
) -> Result<CheckedLines, ErrorModel>
    decreases body, 0nat,
{
    checked_lines(body.expressions, body.expressions.len(), variables, context)
}

/// What checking the first `count` lines yields.
pub open spec fn checked_lines(
    lines: Seq<ExpressionModel>,
    count: nat,
    variables: Map<Seq<u8>, TypesModel>,
    context: ContextModel,
) -> Result<CheckedLines, ErrorModel>
    decreases lines, count,
{
    if count == 0 || count > lines.len() {
        Ok(CheckedLines { lines: Seq::empty(), types: None, variables })
    } else {
        match checked_lines(lines, (count - 1) as nat, variables, context) {
            Ok(before) => match checked(lines[count - 1].effect, before.variables, context) {
                Ok(line) => Ok(
                    CheckedLines {
                        lines: before.lines.push(
                            ExpressionModel {
                                expression_type: lines[count - 1].expression_type,
                                effect: line.effect,
                            },
                        ),
                        types: line.types,
                        variables: line.variables,
                    },
                ),
                Err(error) => Err(error),
            },
            Err(error) => Err(error),
        }
    }
}

/// What checking the first `count` arguments against `fields` yields. Each
/// argument names a field, which no argument before it has filled, and its
/// value has the type of that field.
pub open spec fn checked_arguments(
    arguments: Seq<(FieldSlotModel, EffectsModel)>,
    count: nat,
    fields: Seq<FieldModel>,
    variables: Map<Seq<u8>, TypesModel>,
    context: ContextModel,
) -> Result<CheckedArguments, ErrorModel>
    decreases arguments, count,
{
    if count == 0 || count > arguments.len() {
        Ok(CheckedArguments { arguments: Seq::empty(), filled: Set::empty(), variables })
    } else {
        match checked_arguments(arguments, (count - 1) as nat, fields, variables, context) {
            Ok(before) => match field_position(fields, arguments[count - 1].0.name, 0) {
                Some(at) => if before.filled.contains(at) {
                    Err(context.error("Field given twice!".spec_bytes()))
                } else {
                    match checked(arguments[count - 1].1, before.variables, context) {
                        Ok(value) => if value.types is None {
                            Err(context.error("Expected a value, found void!".spec_bytes()))
                        } else if value.types != Some(fields[at].field_type) {
                            Err(
                                context.error(
                                    "Mismatched types in struct construction!".spec_bytes(),
                                ),
                            )
                        } else {
                            Ok(
                                CheckedArguments {
                                    arguments: before.arguments.push(
                                        (
                                            FieldSlotModel {
                                                name: arguments[count - 1].0.name,
                                                index: at,
                                            },
                                            value.effect,
                                        ),
                                    ),
                                    filled: before.filled.insert(at),
                                    variables: value.variables,
                                },
                            )
                        },
                        Err(error) => Err(error),
                    }
                },
                None => Err(context.error("Unknown field!".spec_bytes())),
            },
            Err(error) => Err(error),
        }
    }
}

/// Once a line fails, the lines behind it change nothing.
pub proof fn lemma_checked_lines_stop(
    lines: Seq<ExpressionModel>,
    count: nat,
    total: nat,
    variables: Map<Seq<u8>, TypesModel>,
    context: ContextModel,
)
    requires
        1 <= count <= total <= lines.len(),
        checked_lines(lines, count, variables, context) is Err,
    ensures
        checked_lines(lines, total, variables, context) == checked_lines(
            lines,
            count,
            variables,
            context,
        ),
    decreases total,
{
    if count < total {
        lemma_checked_lines_stop(lines, count, (total - 1) as nat, variables, context);
    }
}

/// Once an argument fails, the arguments behind it change nothing.
pub proof fn lemma_checked_arguments_stop(
    arguments: Seq<(FieldSlotModel, EffectsModel)>,
    count: nat,
    total: nat,
    fields: Seq<FieldModel>,
    variables: Map<Seq<u8>, TypesModel>,
    context: ContextModel,
)
    requires
        1 <= count <= total <= arguments.len(),
        checked_arguments(arguments, count, fields, variables, context) is Err,
    ensures
        checked_arguments(arguments, total, fields, variables, context) == checked_arguments(
            arguments,
            count,
            fields,
            variables,
            context,
        ),
    decreases total,
{
    if count < total {
        lemma_checked_arguments_stop(
            arguments,
            count,
            (total - 1) as nat,
            fields,
            variables,
            context,
        );
    }
}

/// Whether `after` holds the creations of `before` and, behind them, those
/// made since.
pub open spec fn extends(after: CheckerVariableManager, before: CheckerVariableManager) -> bool {
    &&& before.variables@.len() <= after.variables@.len()
    &&& after.variables@.take(before.variables@.len() as int) == before.variables@
}

/// Whether a check of an effect ended as `outcome` says.
pub open spec fn effect_checked(
    result: Result<(Effects, Option<Types>), ParsingError>,
    outcome: Result<Checked, ErrorModel>,
    before: CheckerVariableManager,
    after: CheckerVariableManager,
) -> bool {
    match outcome {
        Ok(checked) => {
            &&& result matches Ok(made)
            &&& made.0@ == checked.effect
            &&& optional_type(made.1) == checked.types
            &&& after@ == checked.variables
            &&& extends(after, before)
        },
        Err(error) => result matches Err(found) && found@ == error,
    }
}

/// Whether a check of a body ended as `outcome` says.
pub open spec fn body_checked(
    result: Result<(CodeBody, Option<Types>), ParsingError>,
    label: Seq<u8>,
    outcome: Result<CheckedLines, ErrorModel>,
    before: CheckerVariableManager,
    after: CheckerVariableManager,
) -> bool {
    match outcome {
        Ok(checked) => {
            &&& result matches Ok(made)
            &&& made.0@ == (CodeBodyModel { label, expressions: checked.lines })
            &&& optional_type(made.1) == checked.types
            &&& after@ == checked.variables
            &&& extends(after, before)
        },
        Err(error) => result matches Err(found) && found@ == error,
    }
}

/// Whether a check of arguments ended as `outcome` says.
pub open spec fn arguments_checked(
    result: Result<Vec<(FieldSlot, Effects)>, ParsingError>,
    outcome: Result<CheckedArguments, ErrorModel>,
    before: CheckerVariableManager,
    after: CheckerVariableManager,
) -> bool {
    match outcome {
        Ok(checked) => {
            &&& result matches Ok(made)
            &&& arguments_model(made@) == checked.arguments
            &&& after@ == checked.variables
            &&& extends(after, before)
        },
        Err(error) => result matches Err(found) && found@ == error,
    }
}

/// Where the field `name` stands among `fields`.
pub fn find_field(fields: &Vec<Field>, name: &Vec<u8>) -> (at: Option<usize>)
    ensures
        match at {
            Some(at) => field_position(fields_model(fields@), name@, 0) == Some(at as int) && at
                < fields.len(),
            None => field_position(fields_model(fields@), name@, 0) is None,
        },
{
    let mut i: usize = 0;
    while i < fields.len()
        invariant
            i <= fields.len(),
            field_position(fields_model(fields@), name@, 0) == field_position(
                fields_model(fields@),
                name@,
                i as int,
            ),
        decreases fields.len() - i,
    {
        if same_bytes(fields[i].name.as_slice(), name.as_slice()) {
            return Some(i);
        }
        i += 1;
    }
    None
}

/// The struct that a construction of `types` fills.
pub fn find_struct<'a>(context: &CheckContext<'a>, types: &Types) -> (found: Result<
    &'a Declaration,
    ParsingError,
>)
    ensures
        match constructed_struct(types@, context@) {
            Ok(declaration) => found matches Ok(made) && made@ == declaration,
            Err(error) => found matches Err(made) && made@ == error,
        },
{
    proof {
        reveal_with_fuel(Types::model, 2);
    }
    let name = match types {
        Types::Struct(name) => name,
        Types::Generic(base, _) => match &**base {
            Types::Struct(name) => name,
            _ => {
                return Err(context.error("Unresolved type!"));
            },
        },
        Types::Unresolved(_, _) => {
            return Err(context.error("Unresolved type!"));
        },
    };
    match context.syntax.get(name.as_slice()) {
        Some(declaration) => match declaration.kind {
            DeclarationKind::Structure => Ok(declaration),
            DeclarationKind::Function => Err(context.error("Unknown struct!")),
        },
        None => Err(context.error("Unknown struct!")),
    }
}

/// Checks the arguments of a struct construction against the fields of the
/// struct, and gives each the position of its field.
#[verifier::loop_isolation(false)]
pub fn verify_arguments(
    context: &CheckContext,
    arguments: &Vec<(FieldSlot, Effects)>,
    fields: &Vec<Field>,
    variables: &mut CheckerVariableManager,
) -> (result: Result<Vec<(FieldSlot, Effects)>, ParsingError>)
    ensures
        arguments_checked(
            result,
            checked_arguments(
                arguments_model(arguments@),
                arguments.len() as nat,
                fields_model(fields@),
                old(variables)@,
                context@,
            ),
            *old(variables),
            *final(variables),
        ),
    decreases arguments, 1nat,
{
    let ghost list = arguments_model(arguments@);
    let ghost wanted = fields_model(fields@);
    let ghost start = *variables;
    let mut filled: Vec<bool> = Vec::new();
    while filled.len() < fields.len()
        invariant
            filled.len() <= fields.len(),
            forall|j: int| 0 <= j < filled.len() ==> !filled[j],
        decreases fields.len() - filled.len(),
    {
        filled.push(false);
    }
    let mut values: Vec<(FieldSlot, Effects)> = Vec::new();
    let mut i: usize = 0;
    assert(arguments_model(values@) =~= Seq::empty());
    assert(variables.variables@.take(start.variables@.len() as int) =~= start.variables@);
    while i < arguments.len()
        invariant
            i <= arguments.len(),
            filled.len() == fields.len(),
            extends(*variables, start),
            checked_arguments(list, i as nat, wanted, start@, context@) matches Ok(before)
                && before.arguments == arguments_model(values@) && before.variables == variables@
                && (forall|j: int| 0 <= j < filled.len() ==> filled[j] == before.filled.contains(j)),
        decreases arguments.len() - i,
    {
        assert(decreases_to!(arguments => arguments[i as int]));
        let ghost before = values@;
        let ghost known = *variables;
        let argument = &arguments[i];
        assert(list[i as int] == (argument.0@, argument.1@));
        let at = match find_field(fields, &argument.0.name) {
            Some(at) => at,
            None => {
                proof {
                    lemma_checked_arguments_stop(
                        list,
                        (i + 1) as nat,
                        list.len(),
                        wanted,
                        start@,
                        context@,
                    );
                }
                return Err(context.error("Unknown field!"));
            },
        };
        if filled[at] {
            proof {
                lemma_checked_arguments_stop(
                    list,
                    (i + 1) as nat,
                    list.len(),
                    wanted,
                    start@,
                    context@,
                );
            }
            return Err(context.error("Field given twice!"));
        }
        let value = match verify_effect(context, &argument.1, variables) {
            Ok(value) => value,
            Err(error) => {
                proof {
                    lemma_checked_arguments_stop(
                        list,
                        (i + 1) as nat,
                        list.len(),
                        wanted,
                        start@,
                        context@,
                    );
                }
                return Err(error);
            },
        };
        let fits = match &value.1 {
            Some(types) => {
                assert(wanted[at as int] == fields[at as int]@);
                if types.same(&fields[at].field_type) {
                    true
                } else {
                    proof {
                        lemma_checked_arguments_stop(
                            list,
                            (i + 1) as nat,
                            list.len(),
                            wanted,
                            start@,
                            context@,
                        );
                    }
                    return Err(context.error("Mismatched types in struct construction!"));
                }
            },
            None => {
                proof {
                    lemma_checked_arguments_stop(
                        list,
                        (i + 1) as nat,
                        list.len(),
                        wanted,
                        start@,
                        context@,
                    );
                }
                return Err(context.error("Expected a value, found void!"));
            },
        };
        filled.set(at, true);
        values.push(
            (FieldSlot { name: slice_to_vec(argument.0.name.as_slice()), index: at }, value.0),
        );
        proof {
            assert(arguments_model(values@) =~= arguments_model(before).push(
                (values@.last().0@, values@.last().1@),
            ));
            assert(variables.variables@.take(start.variables@.len() as int)
                =~= variables.variables@.take(known.variables@.len() as int).take(
                start.variables@.len() as int,
            ));
        }
        i += 1;
    }
    Ok(values)
}

/// Checks a body line after line, and gives back the body with its
/// placeholders filled in and the type of its last line.
#[verifier::loop_isolation(false)]
pub fn verify_code(
    context: &CheckContext,
    code: &CodeBody,
    variables: &mut CheckerVariableManager,
) -> (result: Result<(CodeBody, Option<Types>), ParsingError>)
    ensures
        body_checked(
            result,
            code@.label,
            checked_body(code@, old(variables)@, context@),
            *old(variables),
            *final(variables),
        ),
    decreases code, 1nat,
{
    let ghost list = code@.expressions;
    let ghost start = *variables;
    proof {
        lemma_lines_model(*code);
    }
    let mut lines: Vec<Expression> = Vec::new();
    let mut last: Option<Types> = None;
    let mut i: usize = 0;
    assert(lines_model(lines@) =~= Seq::empty());
    assert(variables.variables@.take(start.variables@.len() as int) =~= start.variables@);
    while i < code.expressions.len()
        invariant
            i <= code.expressions.len(),
            extends(*variables, start),
            checked_lines(list, i as nat, start@, context@) matches Ok(before) && before.lines
                == lines_model(lines@) && before.variables == variables@ && before.types
                == optional_type(last),
        decreases code.expressions.len() - i,
    {
        assert(decreases_to!(code.expressions => code.expressions[i as int]));
        let ghost before = lines@;
        let ghost known = *variables;
        match verify_effect(context, &code.expressions[i].effect, variables) {
            Ok(made) => {
                lines.push(Expression::new(code.expressions[i].expression_type, made.0));
                last = made.1;
                proof {
                    assert(lines_model(lines@) =~= lines_model(before).push(lines@.last()@));
                    assert(variables.variables@.take(start.variables@.len() as int)
                        =~= variables.variables@.take(known.variables@.len() as int).take(
                        start.variables@.len() as int,
                    ));
                }
            },
            Err(error) => {
                proof {
                    lemma_checked_lines_stop(list, (i + 1) as nat, list.len(), start@, context@);
                }
                return Err(error);
            },
        }
        i += 1;
    }
    Ok((CodeBody::new(lines, slice_to_vec(code.label.as_slice())), last))
}

/// Checks a body in a scope of its own: what it creates is forgotten after
/// it.
fn verify_scope(
    context: &CheckContext,
    code: &CodeBody,
    variables: &mut CheckerVariableManager,
) -> (result: Result<(CodeBody, Option<Types>), ParsingError>)
    ensures
        match checked_body(code@, old(variables)@, context@) {
            Ok(checked) => {
                &&& result matches Ok(made)
                &&& made.0@ == (CodeBodyModel { label: code@.label, expressions: checked.lines })
                &&& optional_type(made.1) == checked.types
                &&& final(variables).variables@ == old(variables).variables@
            },
            Err(error) => result matches Err(found) && found@ == error,
        },
    decreases code, 2nat,
{
    let count = variables.variables.len();
    match verify_code(context, code, variables) {
        Ok(made) => {
            variables.forget(count);
            Ok(made)
        },
        Err(error) => Err(error),
    }
}

/// Checks an effect against the variables known so far, and gives back the
/// effect with its placeholders filled in and its type.
pub fn verify_effect(
    context: &CheckContext,
    effect: &Effects,
    variables: &mut CheckerVariableManager,
) -> (result: Result<(Effects, Option<Types>), ParsingError>)
    ensures
        effect_checked(
            result,
            checked(effect@, old(variables)@, context@),
            *old(variables),
            *final(variables),
        ),
    decreases effect, 0nat,
{
    let ghost start = *variables;
    assert(variables.variables@.take(start.variables@.len() as int) =~= start.variables@);
    match effect {
        Effects::NOP => Ok((Effects::NOP, None)),
        Effects::Int(value) => Ok((Effects::Int(*value), Some(context.config.integer.duplicate()))),
        Effects::Float(text) => Ok(
            (
                Effects::Float(slice_to_vec(text.as_slice())),
                Some(context.config.float.duplicate()),
            ),
        ),
        Effects::LoadVariable(name) => match variables.get_variable(name) {
            Some(types) => Ok(
                (Effects::LoadVariable(slice_to_vec(name.as_slice())), Some(types)),
            ),
            None => Err(context.error("Unknown variable!")),
        },
        Effects::CreateVariable(name, value) => {
            let made = match verify_effect(context, value, variables) {
                Ok(made) => made,
                Err(error) => {
                    return Err(error);
                },
            };
            let ghost known = *variables;
            match made.1 {
                Some(types) => {
                    variables.set_variable(slice_to_vec(name.as_slice()), types);
                    proof {
                        assert(variables.variables@.take(known.variables@.len() as int)
                            =~= known.variables@);
                        assert(variables.variables@.take(start.variables@.len() as int)
                            =~= variables.variables@.take(known.variables@.len() as int).take(
                            start.variables@.len() as int,
                        ));
                    }
                    Ok((create_let(slice_to_vec(name.as_slice()), made.0), None))
                },
                None => Err(context.error("Expected a value, found void!")),
            }
        },
        Effects::Assign(target, value) => {
            let target = match verify_effect(context, target, variables) {
                Ok(made) => made,
                Err(error) => {
                    return Err(error);
                },
            };
            let ghost known = *variables;
            let value = match verify_effect(context, value, variables) {
                Ok(made) => made,
                Err(error) => {
                    return Err(error);
                },
            };
            proof {
                assert(variables.variables@.take(start.variables@.len() as int)
                    =~= variables.variables@.take(known.variables@.len() as int).take(
                    start.variables@.len() as int,
                ));
            }
            match (&target.1, &value.1) {
                (Some(wanted), Some(given)) => {
                    if wanted.same(given) {
                        Ok((create_assign(target.0, value.0), None))
                    } else {
                        Err(context.error("Mismatched types in assignment!"))
                    }
                },
                _ => Err(context.error("Expected a value, found void!")),
            }
        },
        Effects::CreateStruct(types, arguments) => {
            proof {
                lemma_arguments_model(*types, *arguments);
            }
            let declaration = match find_struct(context, types) {
                Ok(declaration) => declaration,
                Err(error) => {
                    return Err(error);
                },
            };
            if arguments.len() != declaration.fields.len() {
                return Err(context.error("Wrong number of arguments!"));
            }
            match verify_arguments(context, arguments, &declaration.fields, variables) {
                Ok(values) => Ok(
                    (create_effect(types.duplicate(), values), Some(types.duplicate())),
                ),
                Err(error) => Err(error),
            }
        },
        Effects::CodeBody(body) => match verify_scope(context, body, variables) {
            Ok(made) => Ok((body_effect(made.0), made.1)),
            Err(error) => Err(error),
        },
        Effects::ForLoop(name, iterator, body) => {
            let iterator = match verify_effect(context, iterator, variables) {
                Ok(made) => made,
                Err(error) => {
                    return Err(error);
                },
            };
            let ghost known = *variables;
            let count = variables.variables.len();
            match iterator.1 {
                Some(types) => {
                    variables.set_variable(slice_to_vec(name.as_slice()), types);
                    match verify_scope(context, body, variables) {
                        Ok(made) => {
                            variables.forget(count);
                            proof {
                                assert(variables.variables@ =~= known.variables@);
                            }
                            Ok(
                                (
                                    create_for(slice_to_vec(name.as_slice()), iterator.0, made.0),
                                    None,
                                ),
                            )
                        },
                        Err(error) => Err(error),
                    }
                },
                None => Err(context.error("Expected a value, found void!")),
            }
        },
        Effects::Operation(operator, left, right) => {
            let left = match verify_effect(context, left, variables) {
                Ok(made) => made,
                Err(error) => {
                    return Err(error);
                },
            };
            let ghost known = *variables;
            let right = match verify_effect(context, right, variables) {
                Ok(made) => made,
                Err(error) => {
                    return Err(error);
                },
            };
            proof {
                assert(variables.variables@.take(start.variables@.len() as int)
                    =~= variables.variables@.take(known.variables@.len() as int).take(
                    start.variables@.len() as int,
                ));
            }
            match &right.1 {
                Some(types) => match context.config.operation(operator, &left.1, types) {
                    Some(result) => Ok(
                        (
                            create_operation(slice_to_vec(operator.as_slice()), left.0, right.0),
                            Some(result),
                        ),
                    ),
                    None => Err(context.error("Invalid operation!")),
                },
                None => Err(context.error("Expected a value, found void!")),
            }
        },
        Effects::Error(error) => Err(error.duplicate()),
    }
}

} // verus!
