use vstd::prelude::*;

verus! {

/// The kinds of failure of a run, by origin.
#[derive(Debug, Clone, Copy, PartialEq, Eq, Structural)]
pub enum Error {
    /// A syntax error, or bytecode that breaks the stack discipline.
    Compiler,
    /// A type error while executing a well-formed program.
    Runtime,
}

impl Error {
    /// The text shown to the user for this error.
    pub fn message(&self) -> (r: &'static str)
        ensures
            *self == Error::Compiler ==> r@ == "Compiler error."@,
            *self == Error::Runtime ==> r@ == "Runtime error"@,
    {
        match self {
            Error::Compiler => "Compiler error.",
            Error::Runtime => "Runtime error",
        }
    }
}

} // verus!
