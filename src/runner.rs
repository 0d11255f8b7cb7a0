use vstd::prelude::*;
use vstd::string::StringExecFns;

verus! {

/// Failures of the program driver itself.
#[derive(Debug, Clone, Copy, PartialEq, Eq, Structural)]
pub enum RunnerError {
    FailedToRunFile,
}

impl RunnerError {
    pub fn message(&self) -> (r: String)
        ensures
            r@ == "Failed to run file!"@,
    {
        String::from_str("Failed to run file!")
    }
}

} // verus!
