//! Error signals of the interpreter.
use vstd::prelude::*;

verus! {

/// Signals raised while building the global layout or executing a program.
///
/// `HaltExecution` is special: it reports that a `hlt` terminator (or a
/// return from the entry frame) was reached, and is answered with a model
/// dump rather than treated as a failure. `SolverUnknown` and `MissingModel`
/// report malformed solver states; the process the interpreter was taken
/// from aborted on those instead.
#[derive(Debug)]
pub enum Error {
    HaltExecution,
    UnknownLabel(String),
    UnknownFunction(String),
    UnknownVariable(String),
    InvalidSubtyping,
    InvalidCall,
    MissingJump,
    UnsupportedStringType,
    ForkFailed,
    WaitpidFailed,
    SolverUnknown,
    MissingModel,
}

} // verus!
