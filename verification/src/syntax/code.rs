use vstd::prelude::*;
use crate::syntax::errors::{ErrorModel, ParsingError};
use crate::syntax::types::{Types, TypesModel};

verus! {

/// Whether the value of an expression ends the enclosing function.
#[derive(Clone, Copy, Debug, PartialEq, Eq, Structural)]
pub enum ExpressionType {
    Line,
    Return,
}

/// The mathematical value of a [`FieldSlot`].
pub struct FieldSlotModel {
    pub name: Seq<u8>,
    pub index: int,
}

/// The field that an argument of a struct construction fills: its name as
/// written and its position among the fields of the struct. The parser knows
/// the name only and leaves the position at zero; the checker fills it in.
#[derive(Debug, PartialEq, Eq)]
pub struct FieldSlot {
    pub name: Vec<u8>,
    pub index: usize,
}

impl View for FieldSlot {
    type V = FieldSlotModel;

    open spec fn view(&self) -> FieldSlotModel {
        FieldSlotModel { name: self.name@, index: self.index as int }
    }
}

/// The mathematical value of an [`Effects`].
pub enum EffectsModel {
    NOP,
    Int(i64),
    Float(Seq<u8>),
    LoadVariable(Seq<u8>),
    CreateVariable(Seq<u8>, Box<EffectsModel>),
    Assign(Box<EffectsModel>, Box<EffectsModel>),
    CreateStruct(TypesModel, Seq<(FieldSlotModel, EffectsModel)>),
    CodeBody(CodeBodyModel),
    ForLoop(Seq<u8>, Box<EffectsModel>, CodeBodyModel),
    Operation(Seq<u8>, Box<EffectsModel>, Box<EffectsModel>),
    Error(ErrorModel),
}

/// The mathematical value of an [`Expression`].
pub struct ExpressionModel {
    pub expression_type: ExpressionType,
    pub effect: EffectsModel,
}

/// The mathematical value of a [`CodeBody`].
pub struct CodeBodyModel {
    pub label: Seq<u8>,
    pub expressions: Seq<ExpressionModel>,
}

/// A node of the syntax tree. Each node owns its children.
#[derive(Debug, PartialEq, Eq)]
pub enum Effects {
    /// Nothing.
    NOP,
    /// An integer constant.
    Int(i64),
    /// A float constant, as the digits and the decimal point that wrote it.
    Float(Vec<u8>),
    /// The value of the named variable.
    LoadVariable(Vec<u8>),
    /// A new variable with its first value.
    CreateVariable(Vec<u8>, Box<Effects>),
    /// An assignment: the target, then the value.
    Assign(Box<Effects>, Box<Effects>),
    /// A struct construction: the type, then the arguments in the order in
    /// which they were written.
    CreateStruct(Types, Vec<(FieldSlot, Effects)>),
    /// A nested block, as a value.
    CodeBody(CodeBody),
    /// A loop over what the second part yields, with the variable that takes
    /// each item and the body.
    ForLoop(Vec<u8>, Box<Effects>, CodeBody),
    /// An operator between its left and right operands.
    Operation(Vec<u8>, Box<Effects>, Box<Effects>),
    /// A failure that takes the place of a node that could not be parsed.
    Error(ParsingError),
}

/// One line of a body.
#[derive(Debug, PartialEq, Eq)]
pub struct Expression {
    pub expression_type: ExpressionType,
    pub effect: Effects,
}

/// A sequence of lines under a label that no other body of the file bears.
#[derive(Debug, PartialEq, Eq)]
pub struct CodeBody {
    pub label: Vec<u8>,
    pub expressions: Vec<Expression>,
}

impl Effects {
    /// The mathematical value of this node.
    pub open spec fn model(&self) -> EffectsModel
        decreases self,
    {
        match self {
            Effects::NOP => EffectsModel::NOP,
            Effects::Int(value) => EffectsModel::Int(*value),
            Effects::Float(text) => EffectsModel::Float(text@),
            Effects::LoadVariable(name) => EffectsModel::LoadVariable(name@),
            Effects::CreateVariable(name, value) => EffectsModel::CreateVariable(
                name@,
                Box::new(value.model()),
            ),
            Effects::Assign(target, value) => EffectsModel::Assign(
                Box::new(target.model()),
                Box::new(value.model()),
            ),
            Effects::CreateStruct(types, arguments) => EffectsModel::CreateStruct(
                types@,
                Seq::new(
                    arguments.len() as nat,
                    |i: int|
                        if 0 <= i < arguments.len() {
                            (arguments[i].0@, arguments[i].1.model())
                        } else {
                            (FieldSlotModel { name: Seq::empty(), index: 0 }, EffectsModel::NOP)
                        },
                ),
            ),
            Effects::CodeBody(body) => EffectsModel::CodeBody(body.model()),
            Effects::ForLoop(variable, iterator, body) => EffectsModel::ForLoop(
                variable@,
                Box::new(iterator.model()),
                body.model(),
            ),
            Effects::Operation(operator, left, right) => EffectsModel::Operation(
                operator@,
                Box::new(left.model()),
                Box::new(right.model()),
            ),
            Effects::Error(error) => EffectsModel::Error(error@),
        }
    }
}

impl Expression {
    /// The mathematical value of this line.
    pub open spec fn model(&self) -> ExpressionModel
        decreases self,
    {
        ExpressionModel { expression_type: self.expression_type, effect: self.effect.model() }
    }

    pub fn new(expression_type: ExpressionType, effect: Effects) -> (expression: Expression)
        ensures
            expression@ == (ExpressionModel { expression_type, effect: effect@ }),
    {
        Expression { expression_type, effect }
    }
}

impl CodeBody {
    /// The mathematical value of this body.
    pub open spec fn model(&self) -> CodeBodyModel
        decreases self,
    {
        CodeBodyModel {
            label: self.label@,
            expressions: Seq::new(
                self.expressions.len() as nat,
                |i: int|
                    if 0 <= i < self.expressions.len() {
                        self.expressions[i].model()
                    } else {
                        ExpressionModel {
                            expression_type: ExpressionType::Line,
                            effect: EffectsModel::NOP,
                        }
                    },
            ),
        }
    }

    pub fn new(expressions: Vec<Expression>, label: Vec<u8>) -> (body: CodeBody)
        ensures
            body@ == (CodeBodyModel { label: label@, expressions: lines_model(expressions@) }),
    {
        let body = CodeBody { label, expressions };
        assert(body@.expressions =~= lines_model(body.expressions@));
        body
    }
}

impl View for Effects {
    type V = EffectsModel;

    open spec fn view(&self) -> EffectsModel {
        self.model()
    }
}

impl View for Expression {
    type V = ExpressionModel;

    open spec fn view(&self) -> ExpressionModel {
        self.model()
    }
}

impl View for CodeBody {
    type V = CodeBodyModel;

    open spec fn view(&self) -> CodeBodyModel {
        self.model()
    }
}

/// The values of a list of lines.
pub open spec fn lines_model(lines: Seq<Expression>) -> Seq<ExpressionModel> {
    Seq::new(lines.len(), |i: int| lines[i]@)
}

/// The values of a list of arguments.
pub open spec fn arguments_model(arguments: Seq<(FieldSlot, Effects)>) -> Seq<
    (FieldSlotModel, EffectsModel),
> {
    Seq::new(arguments.len(), |i: int| (arguments[i].0@, arguments[i].1@))
}

/// The value of an effect that may be missing.
pub open spec fn optional_model(effect: Option<Effects>) -> Option<EffectsModel> {
    match effect {
        Some(effect) => Some(effect@),
        None => None,
    }
}

/// A struct construction is spelled out by the values of its arguments.
pub proof fn lemma_arguments_model(types: Types, arguments: Vec<(FieldSlot, Effects)>)
    ensures
        Effects::CreateStruct(types, arguments)@ == EffectsModel::CreateStruct(
            types@,
            arguments_model(arguments@),
        ),
{
    assert(Effects::CreateStruct(types, arguments)@->CreateStruct_1 =~= arguments_model(
        arguments@,
    ));
}

/// A body is spelled out by the values of its lines.
pub proof fn lemma_lines_model(body: CodeBody)
    ensures
        body@.expressions == lines_model(body.expressions@),
{
    assert(body@.expressions =~= lines_model(body.expressions@));
}

impl EffectsModel {
    /// Whether nothing is left to look up or to report in this tree: it holds
    /// no failure and no type that is still a bare name.
    pub open spec fn resolved(self) -> bool
        decreases self,
    {
        match self {
            EffectsModel::NOP => true,
            EffectsModel::Int(_) => true,
            EffectsModel::Float(_) => true,
            EffectsModel::LoadVariable(_) => true,
            EffectsModel::CreateVariable(_, value) => value.resolved(),
            EffectsModel::Assign(target, value) => target.resolved() && value.resolved(),
            EffectsModel::CreateStruct(types, arguments) => types.resolved() && forall|i: int|
                0 <= i < arguments.len() ==> (#[trigger] arguments[i]).1.resolved(),
            EffectsModel::CodeBody(body) => body.resolved(),
            EffectsModel::ForLoop(_, iterator, body) => iterator.resolved() && body.resolved(),
            EffectsModel::Operation(_, left, right) => left.resolved() && right.resolved(),
            EffectsModel::Error(_) => false,
        }
    }
}

impl CodeBodyModel {
    /// Whether every line of the body is resolved.
    pub open spec fn resolved(self) -> bool
        decreases self,
    {
        forall|i: int|
            0 <= i < self.expressions.len() ==> (#[trigger] self.expressions[i]).effect.resolved()
    }
}

} // verus!
