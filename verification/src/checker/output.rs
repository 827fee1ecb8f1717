use vstd::prelude::*;
use crate::syntax::types::{same_bytes, Types, TypesModel};

verus! {

/// The mathematical value of an [`OperatorRule`].
pub struct OperatorRuleModel {
    pub operator: Seq<u8>,
    pub left: Option<TypesModel>,
    pub right: TypesModel,
    pub result: TypesModel,
}

/// One legal use of an operator: the operator, the type of its left operand
/// (none for an operator that has no left operand), the type of its right
/// operand, and the type of what it yields.
#[derive(Debug, PartialEq, Eq)]
pub struct OperatorRule {
    pub operator: Vec<u8>,
    pub left: Option<Types>,
    pub right: Types,
    pub result: Types,
}

impl View for OperatorRule {
    type V = OperatorRuleModel;

    open spec fn view(&self) -> OperatorRuleModel {
        OperatorRuleModel {
            operator: self.operator@,
            left: match self.left {
                Some(left) => Some(left@),
                None => None,
            },
            right: self.right@,
            result: self.result@,
        }
    }
}

/// The mathematical value of a [`TypesChecker`].
pub struct TypesCheckerModel {
    pub integer: TypesModel,
    pub float: TypesModel,
    pub operators: Seq<OperatorRuleModel>,
}

/// What the checker is told of the language: the types of the two kinds of
/// constants, and which operators are legal on which types.
#[derive(Debug, PartialEq, Eq)]
pub struct TypesChecker {
    pub integer: Types,
    pub float: Types,
    pub operators: Vec<OperatorRule>,
}

/// The values of a list of rules.
pub open spec fn rules_model(rules: Seq<OperatorRule>) -> Seq<OperatorRuleModel> {
    Seq::new(rules.len(), |i: int| rules[i]@)
}

impl View for TypesChecker {
    type V = TypesCheckerModel;

    open spec fn view(&self) -> TypesCheckerModel {
        TypesCheckerModel {
            integer: self.integer@,
            float: self.float@,
            operators: rules_model(self.operators@),
        }
    }
}

/// Whether a rule allows `operator` between operands of the given types.
pub open spec fn rule_fits(
    rule: OperatorRuleModel,
    operator: Seq<u8>,
    left: Option<TypesModel>,
    right: TypesModel,
) -> bool {
    rule.operator == operator && rule.left == left && rule.right == right
}

/// What the first rule at or behind `from` that fits says the operation
/// yields.
pub open spec fn operation_type(
    rules: Seq<OperatorRuleModel>,
    operator: Seq<u8>,
    left: Option<TypesModel>,
    right: TypesModel,
    from: int,
) -> Option<TypesModel>
    decreases rules.len() - from,
{
    if from < 0 || from >= rules.len() {
        None
    } else if rule_fits(rules[from], operator, left, right) {
        Some(rules[from].result)
    } else {
        operation_type(rules, operator, left, right, from + 1)
    }
}

impl TypesChecker {
    /// What `operator` yields between operands of the given types, if a rule
    /// allows it.
    pub fn operation(&self, operator: &Vec<u8>, left: &Option<Types>, right: &Types) -> (result:
        Option<Types>)
        ensures
            match result {
                Some(result) => operation_type(
                    self@.operators,
                    operator@,
                    crate::parser::code_parser::optional_type(*left),
                    right@,
                    0,
                ) == Some(result@),
                None => operation_type(
                    self@.operators,
                    operator@,
                    crate::parser::code_parser::optional_type(*left),
                    right@,
                    0,
                ) is None,
            },
    {
        let mut i: usize = 0;
        while i < self.operators.len()
            invariant
                i <= self.operators.len(),
                operation_type(
                    self@.operators,
                    operator@,
                    crate::parser::code_parser::optional_type(*left),
                    right@,
                    0,
                ) == operation_type(
                    self@.operators,
                    operator@,
                    crate::parser::code_parser::optional_type(*left),
                    right@,
                    i as int,
                ),
            decreases self.operators.len() - i,
        {
            let rule = &self.operators[i];
            let left_fits = match (&rule.left, left) {
                (Some(wanted), Some(given)) => wanted.same(given),
                (None, None) => true,
                _ => false,
            };
            if same_bytes(rule.operator.as_slice(), operator.as_slice()) && left_fits
                && rule.right.same(right) {
                return Some(rule.result.duplicate());
            }
            i += 1;
        }
        None
    }
}

} // verus!
