//! The copy worker's decisions: the order of the steps that write one
//! destination file, and where each outcome leads.
use vstd::prelude::*;

verus! {

/// A step of writing one destination file through a temporary file.
#[derive(PartialEq, Eq, Structural, Clone, Copy, Debug)]
pub enum CopyStep {
    /// Look whether the destination exists; succeeds when it does not.
    CheckDest,
    /// Make sure the destination's parent directory exists.
    MakeParent,
    /// Create the temporary file beside the destination.
    MakeTemp,
    /// Copy the source's contents into the temporary file and close it.
    CopyData,
    /// Give the temporary file the source's access and modification times.
    SetTimes,
    /// Give the temporary file mode 0644.
    SetMode,
    /// Rename the temporary file onto the destination.
    Rename,
    /// Remove the temporary file after a failure.
    RemoveTemp,
    /// Finished: the destination exists.
    Done,
    /// Finished after a failure: the run must shut down uncleanly.
    Failed,
}

/// The step that follows `step` when it succeeded (`ok`) or failed.
#[verifier::opaque]
pub open spec fn next_step_spec(step: CopyStep, ok: bool) -> CopyStep {
    match step {
        CopyStep::CheckDest => if ok { CopyStep::MakeParent } else { CopyStep::Done },
        CopyStep::MakeParent => if ok { CopyStep::MakeTemp } else { CopyStep::Failed },
        CopyStep::MakeTemp => if ok { CopyStep::CopyData } else { CopyStep::Failed },
        CopyStep::CopyData => if ok { CopyStep::SetTimes } else { CopyStep::RemoveTemp },
        CopyStep::SetTimes => if ok { CopyStep::SetMode } else { CopyStep::RemoveTemp },
        CopyStep::SetMode => if ok { CopyStep::Rename } else { CopyStep::RemoveTemp },
        CopyStep::Rename => if ok { CopyStep::Done } else { CopyStep::RemoveTemp },
        CopyStep::RemoveTemp => CopyStep::Failed,
        CopyStep::Done => CopyStep::Done,
        CopyStep::Failed => CopyStep::Failed,
    }
}

/// The step that follows `step` when it succeeded (`ok`) or failed. An
/// existing destination is left alone; a failure once the temporary file
/// exists removes it; every failure ends in `Failed`.
pub fn next_copy_step(step: CopyStep, ok: bool) -> (r: CopyStep)
    ensures
        r == next_step_spec(step, ok),
{
    reveal(next_step_spec);
    match step {
        CopyStep::CheckDest => if ok { CopyStep::MakeParent } else { CopyStep::Done },
        CopyStep::MakeParent => if ok { CopyStep::MakeTemp } else { CopyStep::Failed },
        CopyStep::MakeTemp => if ok { CopyStep::CopyData } else { CopyStep::Failed },
        CopyStep::CopyData => if ok { CopyStep::SetTimes } else { CopyStep::RemoveTemp },
        CopyStep::SetTimes => if ok { CopyStep::SetMode } else { CopyStep::RemoveTemp },
        CopyStep::SetMode => if ok { CopyStep::Rename } else { CopyStep::RemoveTemp },
        CopyStep::Rename => if ok { CopyStep::Done } else { CopyStep::RemoveTemp },
        CopyStep::RemoveTemp => CopyStep::Failed,
        CopyStep::Done => CopyStep::Done,
        CopyStep::Failed => CopyStep::Failed,
    }
}

/// The steps visited when the outcomes of the steps performed are
/// `outcomes`, starting from `CheckDest`: element `t` is the step reached
/// after `t` outcomes.
#[verifier::opaque]
pub open spec fn copy_trace(outcomes: Seq<bool>) -> Seq<CopyStep>
    decreases outcomes.len(),
{
    if outcomes.len() == 0 {
        seq![CopyStep::CheckDest]
    } else {
        let prev = copy_trace(outcomes.drop_last());
        prev.push(next_step_spec(prev.last(), outcomes.last()))
    }
}

} // verus!
