use vstd::prelude::*;
use crate::checker::check_code::{
    checked, checked_arguments, checked_body, checked_lines, constructed_struct, verify_code,
    CheckContext, ContextModel,
};
use crate::checker::output::{TypesChecker, TypesCheckerModel};
use crate::parser::top_parser::{errors_model, functions_model};
use crate::syntax::code::{CodeBodyModel, EffectsModel, ExpressionModel, FieldSlotModel};
use crate::syntax::errors::{ErrorModel, ParsingError};
use crate::syntax::function::{CheckState, Function, FunctionModel};
use crate::syntax::syntax::{FieldModel, Syntax, SyntaxModel};
use crate::syntax::types::{same_bytes, Types, TypesModel};

verus! {

/// The variables that a list of creations leaves known: each name has the
/// type that was given to it last.
pub open spec fn environment(variables: Seq<(Vec<u8>, Types)>) -> Map<Seq<u8>, TypesModel>
    decreases variables.len(),
{
    if variables.len() == 0 {
        Map::empty()
    } else {
        environment(variables.drop_last()).insert(variables.last().0@, variables.last().1@)
    }
}

/// The variable-type environment of one function.
#[derive(Debug, PartialEq, Eq)]
pub struct CheckerVariableManager {
    pub variables: Vec<(Vec<u8>, Types)>,
}

impl View for CheckerVariableManager {
    type V = Map<Seq<u8>, TypesModel>;

    open spec fn view(&self) -> Map<Seq<u8>, TypesModel> {
        environment(self.variables@)
    }
}

/// The variables of the first `count` creations are those of all of them
/// where none of the later ones bears the name.
proof fn lemma_environment_suffix(variables: Seq<(Vec<u8>, Types)>, count: int, name: Seq<u8>)
    requires
        0 <= count <= variables.len(),
        forall|i: int| count <= i < variables.len() ==> (#[trigger] variables[i]).0@ != name,
    ensures
        environment(variables).contains_key(name) == environment(
            variables.take(count),
        ).contains_key(name),
        environment(variables).contains_key(name) ==> environment(variables)[name] == environment(
            variables.take(count),
        )[name],
    decreases variables.len() - count,
{
    if count < variables.len() {
        assert(variables.drop_last().take(count) =~= variables.take(count));
        lemma_environment_suffix(variables.drop_last(), count, name);
    } else {
        assert(variables.take(count) =~= variables);
    }
}

impl CheckerVariableManager {
    /// An environment that knows no variable.
    pub fn new() -> (manager: CheckerVariableManager)
        ensures
            manager@ == Map::<Seq<u8>, TypesModel>::empty(),
            manager.variables@.len() == 0,
    {
        CheckerVariableManager { variables: Vec::new() }
    }

    /// The type of the variable `name`, if it is known.
    pub fn get_variable(&self, name: &Vec<u8>) -> (found: Option<Types>)
        ensures
            match found {
                Some(types) => self@.contains_key(name@) && self@[name@] == types@,
                None => !self@.contains_key(name@),
            },
    {
        let mut i = self.variables.len();
        while i > 0
            invariant
                i <= self.variables.len(),
                forall|j: int| i <= j < self.variables.len() ==> (#[trigger] self.variables[j]).0@
                    != name@,
            decreases i,
        {
            i -= 1;
            if same_bytes(self.variables[i].0.as_slice(), name.as_slice()) {
                proof {
                    lemma_environment_suffix(self.variables@, i + 1, name@);
                    assert(self.variables@.take(i + 1).drop_last() =~= self.variables@.take(
                        i as int,
                    ));
                }
                return Some(self.variables[i].1.duplicate());
            }
        }
        proof {
            lemma_environment_suffix(self.variables@, 0, name@);
            assert(self.variables@.take(0) =~= Seq::<(Vec<u8>, Types)>::empty());
        }
        None
    }

    /// Makes the variable `name` known with the type `types`.
    pub fn set_variable(&mut self, name: Vec<u8>, types: Types)
        ensures
            final(self)@ == old(self)@.insert(name@, types@),
            final(self).variables@ == old(self).variables@.push((name, types)),
    {
        let ghost before = self.variables@;
        self.variables.push((name, types));
        assert(self.variables@.drop_last() =~= before);
    }

    /// Forgets the variables that were created after the first `count`.
    pub fn forget(&mut self, count: usize)
        requires
            count <= old(self).variables@.len(),
        ensures
            final(self).variables@ == old(self).variables@.take(count as int),
    {
        self.variables.truncate(count);
        assert(self.variables@ =~= old(self).variables@.take(count as int));
    }
}

/// What a function is checked against.
pub open spec fn context_of(
    function: FunctionModel,
    config: TypesCheckerModel,
    syntax: SyntaxModel,
) -> ContextModel {
    ContextModel {
        config,
        syntax,
        file: function.declaration.file,
        token: function.declaration.token,
    }
}

/// What checking a function yields: its body with the placeholders filled
/// in, or the first failure. The body is checked with no variable known.
pub open spec fn verified(
    function: FunctionModel,
    config: TypesCheckerModel,
    syntax: SyntaxModel,
) -> Result<CodeBodyModel, ErrorModel> {
    match checked_body(function.code, Map::empty(), context_of(function, config, syntax)) {
        Ok(lines) => Ok(CodeBodyModel { label: function.code.label, expressions: lines.lines }),
        Err(error) => Err(error),
    }
}

/// The function after it has been checked: with the checked body where the
/// check passed, as it was where the check failed, and in the state that
/// says which.
pub open spec fn after_verification(
    function: FunctionModel,
    config: TypesCheckerModel,
    syntax: SyntaxModel,
) -> FunctionModel {
    match verified(function, config, syntax) {
        Ok(code) => FunctionModel {
            declaration: function.declaration,
            code,
            state: CheckState::Checked,
        },
        Err(_) => FunctionModel {
            declaration: function.declaration,
            code: function.code,
            state: CheckState::Failed,
        },
    }
}

/// Checks a function: it walks the body with a fresh environment and puts
/// the checked body in the place of the old one. The first failure ends the
/// check and leaves the body as it was.
pub fn verify_function(
    process_manager: &TypesChecker,
    function: &mut Function,
    syntax: &Syntax,
) -> (result: Result<(), ParsingError>)
    ensures
        final(function)@ == after_verification(old(function)@, process_manager@, syntax@),
        match verified(old(function)@, process_manager@, syntax@) {
            Ok(_) => result is Ok,
            Err(error) => result matches Err(found) && found@ == error,
        },
{
    let mut variable_manager = CheckerVariableManager::new();
    let checked = {
        let context = CheckContext {
            config: process_manager,
            syntax,
            file: function.declaration.file.as_slice(),
            token: function.declaration.token,
        };
        verify_code(&context, &function.code, &mut variable_manager)
    };
    match checked {
        Ok(made) => {
            function.code = made.0;
            function.state = CheckState::Checked;
            Ok(())
        },
        Err(error) => {
            function.state = CheckState::Failed;
            Err(error)
        },
    }
}

/// The checks of the first `count` lines read nothing but those lines.
pub proof fn lemma_checked_lines_prefix(
    first: Seq<ExpressionModel>,
    second: Seq<ExpressionModel>,
    count: nat,
    variables: Map<Seq<u8>, TypesModel>,
    context: ContextModel,
)
    requires
        count <= first.len(),
        count <= second.len(),
        first.take(count as int) == second.take(count as int),
    ensures
        checked_lines(first, count, variables, context) == checked_lines(
            second,
            count,
            variables,
            context,
        ),
    decreases count,
{
    if count > 0 {
        assert(first.take(count as int).take(count - 1) =~= first.take(count - 1));
        assert(second.take(count as int).take(count - 1) =~= second.take(count - 1));
        assert(first.take(count as int)[count - 1] == first[count - 1]);
        assert(second.take(count as int)[count - 1] == second[count - 1]);
        lemma_checked_lines_prefix(first, second, (count - 1) as nat, variables, context);
    }
}

/// The checks of the first `count` arguments read nothing but those
/// arguments.
pub proof fn lemma_checked_arguments_prefix(
    first: Seq<(FieldSlotModel, EffectsModel)>,
    second: Seq<(FieldSlotModel, EffectsModel)>,
    count: nat,
    fields: Seq<FieldModel>,
    variables: Map<Seq<u8>, TypesModel>,
    context: ContextModel,
)
    requires
        count <= first.len(),
        count <= second.len(),
        first.take(count as int) == second.take(count as int),
    ensures
        checked_arguments(first, count, fields, variables, context) == checked_arguments(
            second,
            count,
            fields,
            variables,
            context,
        ),
    decreases count,
{
    if count > 0 {
        assert(first.take(count as int).take(count - 1) =~= first.take(count - 1));
        assert(second.take(count as int).take(count - 1) =~= second.take(count - 1));
        assert(first.take(count as int)[count - 1] == first[count - 1]);
        assert(second.take(count as int)[count - 1] == second[count - 1]);
        lemma_checked_arguments_prefix(
            first,
            second,
            (count - 1) as nat,
            fields,
            variables,
            context,
        );
    }
}

/// Checking is idempotent on effects: an effect that has passed the check
/// passes it again, and the second check changes nothing more.
pub proof fn lemma_checked_again(
    effect: EffectsModel,
    variables: Map<Seq<u8>, TypesModel>,
    context: ContextModel,
)
    requires
        checked(effect, variables, context) is Ok,
    ensures
        checked(checked(effect, variables, context)->Ok_0.effect, variables, context) == checked(
            effect,
            variables,
            context,
        ),
    decreases effect, 0nat,
{
    match effect {
        EffectsModel::CreateVariable(name, value) => {
            lemma_checked_again(*value, variables, context);
        },
        EffectsModel::Assign(target, value) => {
            lemma_checked_again(*target, variables, context);
            let first = checked(*target, variables, context)->Ok_0;
            lemma_checked_again(*value, first.variables, context);
        },
        EffectsModel::CreateStruct(types, arguments) => {
            let declaration = constructed_struct(types, context)->Ok_0;
            lemma_checked_arguments_again(
                arguments,
                arguments.len(),
                declaration.fields,
                variables,
                context,
            );
        },
        EffectsModel::CodeBody(body) => {
            assert(checked_body(body, variables, context) == checked_lines(
                body.expressions,
                body.expressions.len(),
                variables,
                context,
            ));
            lemma_checked_lines_again(body.expressions, body.expressions.len(), variables, context);
            let inner = checked_body(body, variables, context)->Ok_0;
            let again = CodeBodyModel { label: body.label, expressions: inner.lines };
            assert(checked_body(again, variables, context) == checked_lines(
                again.expressions,
                again.expressions.len(),
                variables,
                context,
            ));
        },
        EffectsModel::ForLoop(name, iterator, body) => {
            lemma_checked_again(*iterator, variables, context);
            let first = checked(*iterator, variables, context)->Ok_0;
            let known = first.variables.insert(name, first.types->0);
            assert(checked_body(body, known, context) == checked_lines(
                body.expressions,
                body.expressions.len(),
                known,
                context,
            ));
            lemma_checked_lines_again(body.expressions, body.expressions.len(), known, context);
            let inner = checked_body(body, known, context)->Ok_0;
            let again = CodeBodyModel { label: body.label, expressions: inner.lines };
            assert(checked_body(again, known, context) == checked_lines(
                again.expressions,
                again.expressions.len(),
                known,
                context,
            ));
        },
        EffectsModel::Operation(operator, left, right) => {
            lemma_checked_again(*left, variables, context);
            let first = checked(*left, variables, context)->Ok_0;
            lemma_checked_again(*right, first.variables, context);
        },
        _ => {},
    }
}

/// Checking is idempotent on lines.
pub proof fn lemma_checked_lines_again(
    lines: Seq<ExpressionModel>,
    count: nat,
    variables: Map<Seq<u8>, TypesModel>,
    context: ContextModel,
)
    requires
        count <= lines.len(),
        checked_lines(lines, count, variables, context) is Ok,
    ensures
        checked_lines(lines, count, variables, context)->Ok_0.lines.len() == count,
        checked_lines(
            checked_lines(lines, count, variables, context)->Ok_0.lines,
            count,
            variables,
            context,
        ) == checked_lines(lines, count, variables, context),
    decreases lines, count,
{
    if count > 0 {
        let before = checked_lines(lines, (count - 1) as nat, variables, context)->Ok_0;
        let after = checked_lines(lines, count, variables, context)->Ok_0;
        lemma_checked_lines_again(lines, (count - 1) as nat, variables, context);
        lemma_checked_again(lines[count - 1].effect, before.variables, context);
        assert(after.lines.take(count - 1) =~= before.lines);
        assert(before.lines.take(count - 1) =~= before.lines);
        lemma_checked_lines_prefix(
            after.lines,
            before.lines,
            (count - 1) as nat,
            variables,
            context,
        );
    }
}

/// Checking is idempotent on arguments: the positions that the first check
/// gave are the positions that the second check gives.
pub proof fn lemma_checked_arguments_again(
    arguments: Seq<(FieldSlotModel, EffectsModel)>,
    count: nat,
    fields: Seq<FieldModel>,
    variables: Map<Seq<u8>, TypesModel>,
    context: ContextModel,
)
    requires
        count <= arguments.len(),
        checked_arguments(arguments, count, fields, variables, context) is Ok,
    ensures
        checked_arguments(arguments, count, fields, variables, context)->Ok_0.arguments.len()
            == count,
        checked_arguments(
            checked_arguments(arguments, count, fields, variables, context)->Ok_0.arguments,
            count,
            fields,
            variables,
            context,
        ) == checked_arguments(arguments, count, fields, variables, context),
    decreases arguments, count,
{
    if count > 0 {
        let before = checked_arguments(arguments, (count - 1) as nat, fields, variables, context)->Ok_0;
        let after = checked_arguments(arguments, count, fields, variables, context)->Ok_0;
        lemma_checked_arguments_again(arguments, (count - 1) as nat, fields, variables, context);
        lemma_checked_again(arguments[count - 1].1, before.variables, context);
        assert(after.arguments.take(count - 1) =~= before.arguments);
        assert(before.arguments.take(count - 1) =~= before.arguments);
        lemma_checked_arguments_prefix(
            after.arguments,
            before.arguments,
            (count - 1) as nat,
            fields,
            variables,
            context,
        );
    }
}

/// Checking is idempotent: a function that has been checked, and has not
/// been changed since, is the same after a second check, and the second
/// check ends as the first did.
pub proof fn lemma_verifying_is_idempotent(
    function: FunctionModel,
    config: TypesCheckerModel,
    syntax: SyntaxModel,
)
    ensures
        after_verification(after_verification(function, config, syntax), config, syntax)
            == after_verification(function, config, syntax),
        verified(function, config, syntax) is Ok ==> verified(
            after_verification(function, config, syntax),
            config,
            syntax,
        ) == verified(function, config, syntax),
        verified(function, config, syntax) is Err ==> verified(
            after_verification(function, config, syntax),
            config,
            syntax,
        ) == verified(function, config, syntax),
{
    let context = context_of(function, config, syntax);
    if verified(function, config, syntax) is Ok {
        lemma_checked_lines_again(
            function.code.expressions,
            function.code.expressions.len(),
            Map::empty(),
            context,
        );
    }
}

/// The failures of the first `count` functions, in the order of the
/// functions.
pub open spec fn failures(
    functions: Seq<FunctionModel>,
    count: nat,
    config: TypesCheckerModel,
    syntax: SyntaxModel,
) -> Seq<ErrorModel>
    decreases count,
{
    if count == 0 || count > functions.len() {
        Seq::empty()
    } else {
        match verified(functions[count - 1], config, syntax) {
            Ok(_) => failures(functions, (count - 1) as nat, config, syntax),
            Err(error) => failures(functions, (count - 1) as nat, config, syntax).push(error),
        }
    }
}

/// Checks every function of a compilation and collects the failures. A
/// failure ends the check of its function only: each function comes out as
/// if it had been checked alone.
pub fn verify_all(process_manager: &TypesChecker, functions: Vec<Function>, syntax: &Syntax) -> (checked:
    (Vec<Function>, Vec<ParsingError>))
    ensures
        checked.0.len() == functions.len(),
        forall|i: int|
            0 <= i < functions.len() ==> (#[trigger] checked.0[i])@ == after_verification(
                functions[i]@,
                process_manager@,
                syntax@,
            ),
        errors_model(checked.1@) == failures(
            functions_model(functions@),
            functions.len() as nat,
            process_manager@,
            syntax@,
        ),
{
    let ghost all = functions@;
    let mut rest = functions;
    let mut stack: Vec<Function> = Vec::new();
    while rest.len() > 0
        invariant
            rest.len() + stack.len() == all.len(),
            rest@ == all.take(rest.len() as int),
            forall|k: int| 0 <= k < stack.len() ==> (#[trigger] stack[k]) == all[all.len() - 1 - k],
        decreases rest.len(),
    {
        let function = rest.pop().unwrap();
        stack.push(function);
        assert(rest@ =~= all.take(rest.len() as int));
    }
    let mut done: Vec<Function> = Vec::new();
    let mut errors: Vec<ParsingError> = Vec::new();
    assert(errors_model(errors@) =~= Seq::empty());
    while stack.len() > 0
        invariant
            done.len() + stack.len() == all.len(),
            forall|k: int| 0 <= k < stack.len() ==> (#[trigger] stack[k]) == all[all.len() - 1 - k],
            forall|i: int|
                0 <= i < done.len() ==> (#[trigger] done[i])@ == after_verification(
                    all[i]@,
                    process_manager@,
                    syntax@,
                ),
            errors_model(errors@) == failures(
                functions_model(all),
                done.len() as nat,
                process_manager@,
                syntax@,
            ),
        decreases stack.len(),
    {
        let ghost before = errors@;
        let ghost position = done.len() as int;
        let mut function = stack.pop().unwrap();
        assert(function == all[position]);
        assert(functions_model(all)[position] == all[position]@);
        match verify_function(process_manager, &mut function, syntax) {
            Ok(()) => {},
            Err(error) => {
                errors.push(error);
                assert(errors_model(errors@) =~= errors_model(before).push(error@));
            },
        }
        done.push(function);
    }
    (done, errors)
}

/// Functions are checked independently of one another: what checking makes
/// of a function is the same in whatever company and at whatever place the
/// function is checked, so any order or interleaving of the checks yields
/// the results of checking one function after another.
pub proof fn lemma_checking_is_independent(
    functions: Seq<FunctionModel>,
    others: Seq<FunctionModel>,
    place: int,
    other_place: int,
    config: TypesCheckerModel,
    syntax: SyntaxModel,
)
    requires
        0 <= place < functions.len(),
        0 <= other_place < others.len(),
        functions[place] == others[other_place],
    ensures
        after_verification(functions[place], config, syntax) == after_verification(
            others[other_place],
            config,
            syntax,
        ),
        verified(functions[place], config, syntax) == verified(
            others[other_place],
            config,
            syntax,
        ),
{
}

} // verus!
