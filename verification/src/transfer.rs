//! The loop that moves a body or a file through a buffer: what to do after
//! each read.

use vstd::prelude::*;

verus! {

/// How one read into the buffer ended.
#[derive(Clone, Copy, Debug, PartialEq, Eq, Structural)]
pub enum ReadOutcome {
    /// This many bytes were read.
    Data(usize),
    /// Nothing is there to read for now.
    WouldBlock,
    /// The read was interrupted before it read anything.
    Interrupted,
    /// The read failed for another reason.
    Failed,
}

/// What the loop does next.
#[derive(Clone, Copy, Debug, PartialEq, Eq, Structural)]
pub enum TransferStep {
    /// Pass on this many bytes of the buffer and read again.
    Forward(usize),
    /// The transfer is complete.
    Finish,
    /// Read again.
    Retry,
    /// Give the transfer up.
    Abort,
}

/// What the loop does after a read that ended in `outcome`: an empty read
/// and a read that would block end the transfer, an interrupted read is made
/// again, and any other failure gives the transfer up.
pub open spec fn next_step_spec(outcome: ReadOutcome) -> TransferStep {
    match outcome {
        ReadOutcome::Data(n) => if n == 0 {
            TransferStep::Finish
        } else {
            TransferStep::Forward(n)
        },
        ReadOutcome::WouldBlock => TransferStep::Finish,
        ReadOutcome::Interrupted => TransferStep::Retry,
        ReadOutcome::Failed => TransferStep::Abort,
    }
}

/// What the loop does after a read that ended in `outcome`.
pub fn next_step(outcome: ReadOutcome) -> (step: TransferStep)
    ensures
        step == next_step_spec(outcome),
{
    match outcome {
        ReadOutcome::Data(n) => {
            if n == 0 {
                TransferStep::Finish
            } else {
                TransferStep::Forward(n)
            }
        },
        ReadOutcome::WouldBlock => TransferStep::Finish,
        ReadOutcome::Interrupted => TransferStep::Retry,
        ReadOutcome::Failed => TransferStep::Abort,
    }
}

} // verus!
