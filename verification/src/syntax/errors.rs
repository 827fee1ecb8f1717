use vstd::prelude::*;
use vstd::slice::slice_to_vec;

verus! {

/// The mathematical value of a [`ParsingError`].
pub struct ErrorModel {
    pub file: Seq<u8>,
    pub start: int,
    pub end: int,
    pub message: Seq<u8>,
}

/// A structured failure: the file it arose in, the byte span of the offending
/// token in that file, and a message.
#[derive(Debug, PartialEq, Eq)]
pub struct ParsingError {
    pub file: Vec<u8>,
    pub start: usize,
    pub end: usize,
    pub message: Vec<u8>,
}

impl View for ParsingError {
    type V = ErrorModel;

    open spec fn view(&self) -> ErrorModel {
        ErrorModel {
            file: self.file@,
            start: self.start as int,
            end: self.end as int,
            message: self.message@,
        }
    }
}

impl ParsingError {
    /// Builds an error from its parts.
    pub fn new(file: Vec<u8>, start: usize, end: usize, message: Vec<u8>) -> (error: ParsingError)
        ensures
            error@ == (ErrorModel {
                file: file@,
                start: start as int,
                end: end as int,
                message: message@,
            }),
    {
        ParsingError { file, start, end, message }
    }

    /// A copy of this error.
    pub fn duplicate(&self) -> (error: ParsingError)
        ensures
            error@ == self@,
    {
        ParsingError {
            file: slice_to_vec(self.file.as_slice()),
            start: self.start,
            end: self.end,
            message: slice_to_vec(self.message.as_slice()),
        }
    }
}

} // verus!
