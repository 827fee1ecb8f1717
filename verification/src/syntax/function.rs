use vstd::prelude::*;
use crate::syntax::code::{CodeBody, CodeBodyModel};
use crate::syntax::syntax::{Declaration, DeclarationModel};

verus! {

/// How far the checking of a function has come.
#[derive(Clone, Copy, Debug, PartialEq, Eq, Structural)]
pub enum CheckState {
    Unchecked,
    Checked,
    Failed,
}

/// The mathematical value of a [`Function`].
pub struct FunctionModel {
    pub declaration: DeclarationModel,
    pub code: CodeBodyModel,
    pub state: CheckState,
}

/// A function: its signature as it is registered, its body, and how far its
/// checking has come.
#[derive(Debug, PartialEq, Eq)]
pub struct Function {
    pub declaration: Declaration,
    pub code: CodeBody,
    pub state: CheckState,
}

impl View for Function {
    type V = FunctionModel;

    open spec fn view(&self) -> FunctionModel {
        FunctionModel { declaration: self.declaration@, code: self.code@, state: self.state }
    }
}

impl Function {
    /// A function that has not been checked yet.
    pub fn new(declaration: Declaration, code: CodeBody) -> (function: Function)
        ensures
            function@ == (FunctionModel {
                declaration: declaration@,
                code: code@,
                state: CheckState::Unchecked,
            }),
    {
        Function { declaration, code, state: CheckState::Unchecked }
    }
}

} // verus!
