//! The stages that a call passes through.
use vstd::prelude::*;
use crate::dispatcher::Effects;
use crate::error::DispatchError;

verus! {

/// Where a call stands. `Committed` and `Aborted` are the two ends.
#[derive(Clone, Copy, Debug, PartialEq, Eq, Structural)]
pub enum Stage {
    /// The call has come in.
    Received,
    /// Its instruction is selected and its arguments are decoded.
    Dispatched,
    /// Its accounts are being checked.
    Validating,
    /// Its accounts are bound.
    Bound,
    /// Its handler is running.
    Executing,
    /// The handler succeeded: the effects of the call stand.
    Committed,
    /// Something failed: nothing of the call stands.
    Aborted,
}

/// Whether a stage is one of the two ends.
pub open spec fn terminal(stage: Stage) -> bool {
    stage == Stage::Committed || stage == Stage::Aborted
}

/// The stage that follows: the next one in order where the step succeeded,
/// `Aborted` where it failed. An end is never left.
pub open spec fn next_stage(stage: Stage, ok: bool) -> Stage {
    match stage {
        Stage::Committed => Stage::Committed,
        Stage::Aborted => Stage::Aborted,
        _ => if !ok {
            Stage::Aborted
        } else {
            match stage {
                Stage::Received => Stage::Dispatched,
                Stage::Dispatched => Stage::Validating,
                Stage::Validating => Stage::Bound,
                Stage::Bound => Stage::Executing,
                _ => Stage::Committed,
            }
        },
    }
}

/// The end that a settled call has reached.
pub open spec fn end_of<T>(result: Result<T, DispatchError>) -> Stage {
    if result is Ok {
        Stage::Committed
    } else {
        Stage::Aborted
    }
}

impl Stage {
    /// Whether the stage is one of the two ends.
    pub fn is_terminal(self) -> (r: bool)
        ensures
            r == terminal(self),
    {
        match self {
            Stage::Committed => true,
            Stage::Aborted => true,
            _ => false,
        }
    }

    /// The stage that follows this one after a step that succeeded or failed.
    pub fn advance(self, ok: bool) -> (next: Stage)
        ensures
            next == next_stage(self, ok),
    {
        match self {
            Stage::Committed => Stage::Committed,
            Stage::Aborted => Stage::Aborted,
            Stage::Received => if ok {
                Stage::Dispatched
            } else {
                Stage::Aborted
            },
            Stage::Dispatched => if ok {
                Stage::Validating
            } else {
                Stage::Aborted
            },
            Stage::Validating => if ok {
                Stage::Bound
            } else {
                Stage::Aborted
            },
            Stage::Bound => if ok {
                Stage::Executing
            } else {
                Stage::Aborted
            },
            Stage::Executing => if ok {
                Stage::Committed
            } else {
                Stage::Aborted
            },
        }
    }
}

/// The end that a settled call has reached: `Committed` where it succeeded,
/// `Aborted` where it failed.
pub fn end_stage(result: &Result<Effects, DispatchError>) -> (stage: Stage)
    ensures
        stage == end_of(*result),
        terminal(stage),
{
    match result {
        Ok(_) => Stage::Committed,
        Err(_) => Stage::Aborted,
    }
}

/// Every call comes to an end: five steps from `Received` lead to
/// `Committed` if each of them succeeded, and to `Aborted` otherwise.
pub proof fn five_steps_settle(a: bool, b: bool, c: bool, d: bool, e: bool)
    ensures
        ({
            let end = next_stage(
                next_stage(
                    next_stage(next_stage(next_stage(Stage::Received, a), b), c),
                    d,
                ),
                e,
            );
            &&& terminal(end)
            &&& end == Stage::Committed <==> a && b && c && d && e
        }),
{
}

} // verus!
