//! The zone publisher's order of steps.  The serial of a zone must advance
//! only after the record file it describes is durably written, and a reload
//! must never be attempted for a zone whose files failed to update; the two
//! reloads themselves are independent, best-effort notifications.  The caller
//! performs each step's I/O and feeds the outcome back into `next_step`.

use vstd::prelude::*;

verus! {

/// One step of a publish run, in the fixed order: write the forward record
/// file, bump the forward zone's serial, write the reverse record file, bump
/// the reverse zone's serial, reload the forward zone, reload the reverse
/// zone.
#[derive(PartialEq, Eq, Structural, Clone, Copy, Debug)]
pub enum PublishStep {
    WriteForwardFile,
    BumpForwardSerial,
    WriteReverseFile,
    BumpReverseSerial,
    ReloadForward,
    ReloadReverse,
    Done,
    Aborted,
}

/// How one step went.
#[derive(PartialEq, Eq, Structural, Clone, Copy, Debug)]
pub enum StepOutcome {
    Success,
    Failure,
}

/// The step that follows `s` when `s` ended with outcome `o`.  A failed file
/// write or serial bump aborts the run before any reload; a failed reload is
/// reported by the caller but never prevents the remaining reload.
pub open spec fn next_step_spec(s: PublishStep, o: StepOutcome) -> PublishStep {
    match s {
        PublishStep::WriteForwardFile => if o is Success {
            PublishStep::BumpForwardSerial
        } else {
            PublishStep::Aborted
        },
        PublishStep::BumpForwardSerial => if o is Success {
            PublishStep::WriteReverseFile
        } else {
            PublishStep::Aborted
        },
        PublishStep::WriteReverseFile => if o is Success {
            PublishStep::BumpReverseSerial
        } else {
            PublishStep::Aborted
        },
        PublishStep::BumpReverseSerial => if o is Success {
            PublishStep::ReloadForward
        } else {
            PublishStep::Aborted
        },
        PublishStep::ReloadForward => PublishStep::ReloadReverse,
        PublishStep::ReloadReverse => PublishStep::Done,
        PublishStep::Done => PublishStep::Done,
        PublishStep::Aborted => PublishStep::Aborted,
    }
}

/// The first step of every run.
pub fn first_step() -> (r: PublishStep)
    ensures
        r == PublishStep::WriteForwardFile,
{
    PublishStep::WriteForwardFile
}

pub fn next_step(s: PublishStep, o: StepOutcome) -> (r: PublishStep)
    ensures
        r == next_step_spec(s, o),
{
    match s {
        PublishStep::WriteForwardFile => match o {
            StepOutcome::Success => PublishStep::BumpForwardSerial,
            StepOutcome::Failure => PublishStep::Aborted,
        },
        PublishStep::BumpForwardSerial => match o {
            StepOutcome::Success => PublishStep::WriteReverseFile,
            StepOutcome::Failure => PublishStep::Aborted,
        },
        PublishStep::WriteReverseFile => match o {
            StepOutcome::Success => PublishStep::BumpReverseSerial,
            StepOutcome::Failure => PublishStep::Aborted,
        },
        PublishStep::BumpReverseSerial => match o {
            StepOutcome::Success => PublishStep::ReloadForward,
            StepOutcome::Failure => PublishStep::Aborted,
        },
        PublishStep::ReloadForward => PublishStep::ReloadReverse,
        PublishStep::ReloadReverse => PublishStep::Done,
        PublishStep::Done => PublishStep::Done,
        PublishStep::Aborted => PublishStep::Aborted,
    }
}

/// The reverse zone's reload is attempted whatever became of the forward
/// zone's reload: a run that reaches the forward reload always goes on to the
/// reverse reload, so both reloads are attempted regardless of the first
/// one's outcome.
pub proof fn lemma_reverse_reload_always_attempted(o: StepOutcome)
    ensures
        next_step_spec(PublishStep::ReloadForward, o) == PublishStep::ReloadReverse,
{
}

/// A zone's serial advances only after the record file it describes was
/// written, and no reload starts before both zones' files and serials are
/// updated: each of those steps is reached only from its predecessor's
/// success.
pub proof fn lemma_serial_advances_only_after_write(s: PublishStep, o: StepOutcome)
    ensures
        next_step_spec(s, o) == PublishStep::BumpForwardSerial ==> s
            == PublishStep::WriteForwardFile && o is Success,
        next_step_spec(s, o) == PublishStep::BumpReverseSerial ==> s
            == PublishStep::WriteReverseFile && o is Success,
        next_step_spec(s, o) == PublishStep::ReloadForward ==> s
            == PublishStep::BumpReverseSerial && o is Success,
{
}

/// A failed write or serial bump aborts the run before any reload, and an
/// aborted run stays aborted.
pub proof fn lemma_io_failure_aborts(o: StepOutcome)
    ensures
        next_step_spec(PublishStep::WriteForwardFile, StepOutcome::Failure)
            == PublishStep::Aborted,
        next_step_spec(PublishStep::BumpForwardSerial, StepOutcome::Failure)
            == PublishStep::Aborted,
        next_step_spec(PublishStep::WriteReverseFile, StepOutcome::Failure)
            == PublishStep::Aborted,
        next_step_spec(PublishStep::BumpReverseSerial, StepOutcome::Failure)
            == PublishStep::Aborted,
        next_step_spec(PublishStep::Aborted, o) == PublishStep::Aborted,
{
}

} // verus!
