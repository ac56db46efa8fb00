//! How a stage of the interpreter can fail.

use vstd::prelude::*;

verus! {

/// The two ways in which processing a program fails.
#[derive(Clone, Copy, Debug, PartialEq, Eq, Structural)]
pub enum Failure {
    /// The program text is not well formed.
    Syntax,
    /// The program went wrong while it ran.
    Runtime,
}

impl Failure {
    /// The exit code that reports the failure to the operating system.
    pub open spec fn spec_exit_code(self) -> u8 {
        match self {
            Failure::Syntax => 65,
            Failure::Runtime => 70,
        }
    }

    /// The exit code that reports the failure to the operating system.
    pub fn exit_code(self) -> (r: u8)
        ensures
            r == self.spec_exit_code(),
    {
        match self {
            Failure::Syntax => 65,
            Failure::Runtime => 70,
        }
    }
}

} // verus!
