//! What becomes of a probe program that panics.

use vstd::prelude::*;

verus! {

/// Where a probe program is.
#[derive(Clone, Copy, Debug, PartialEq, Eq)]
pub enum Program {
    /// It carries out its steps.
    Running,
    /// It turns in the loop of its panic handler.
    Halted,
}

/// One turn of the panic handler. The handler never leaves its loop: whatever the
/// program did before, it is halted after a turn, and so after every later one.
pub fn panic(program: Program) -> (after: Program)
    ensures
        after == Program::Halted,
{
    match program {
        Program::Running => Program::Halted,
        Program::Halted => program,
    }
}

} // verus!
