//! The order in which a store is read from and written to its encrypted
//! file, and the error that each failing step gives.
//!
//! The steps themselves (running the external tool, reading and writing
//! files) are the caller's: after each it reports whether the step
//! succeeded, and is told what comes next.

use crate::error::Error;
use vstd::prelude::*;

verus! {

/// A step of reading or of writing the encrypted file.
#[derive(Debug, Clone, Copy, PartialEq, Eq, Structural)]
pub enum Step {
    /// Reading: see that the encrypted file exists.
    Locate,
    /// Reading: run the tool in decrypt mode on the file and collect its
    /// output.
    Decrypt,
    /// Reading: parse the collected plaintext as a store.
    Parse,
    /// Writing: start the tool in encrypt mode for the recipient.
    Launch,
    /// Writing: write the serialized store to the tool's input and close it.
    Feed,
    /// Writing: wait for the tool to exit and collect its output.
    Wait,
    /// Writing: write the collected ciphertext to a temporary file beside
    /// the target.
    Stage,
    /// Writing: rename the temporary file over the target.
    Replace,
}

/// What follows a step.
#[derive(Debug, Clone, Copy, PartialEq, Eq, Structural)]
pub enum Next {
    /// Perform this step.
    Run(Step),
    /// The operation is complete.
    Done,
    /// The operation has failed with this error; no further step is taken.
    Fail(Error),
}

/// The first step of reading.
pub open spec fn read_start() -> Step {
    Step::Locate
}

/// The first step of writing.
pub open spec fn write_start() -> Step {
    Step::Launch
}

/// What follows `step`, given whether it succeeded.
pub open spec fn after(step: Step, succeeded: bool) -> Next {
    match step {
        Step::Locate => if succeeded {
            Next::Run(Step::Decrypt)
        } else {
            Next::Fail(Error::NotFound)
        },
        Step::Decrypt => if succeeded {
            Next::Run(Step::Parse)
        } else {
            Next::Fail(Error::DecryptFailed)
        },
        Step::Parse => if succeeded {
            Next::Done
        } else {
            Next::Fail(Error::MalformedStore)
        },
        Step::Launch => if succeeded {
            Next::Run(Step::Feed)
        } else {
            Next::Fail(Error::EncryptFailed)
        },
        Step::Feed => if succeeded {
            Next::Run(Step::Wait)
        } else {
            Next::Fail(Error::EncryptFailed)
        },
        Step::Wait => if succeeded {
            Next::Run(Step::Stage)
        } else {
            Next::Fail(Error::EncryptFailed)
        },
        Step::Stage => if succeeded {
            Next::Run(Step::Replace)
        } else {
            Next::Fail(Error::EncryptFailed)
        },
        Step::Replace => if succeeded {
            Next::Done
        } else {
            Next::Fail(Error::EncryptFailed)
        },
    }
}

/// Where an operation stands that began with `start` and whose steps had
/// these outcomes, in order. Outcomes reported after the end change nothing.
pub open spec fn progress(start: Step, outcomes: Seq<bool>) -> Next
    decreases outcomes.len(),
{
    if outcomes.len() == 0 {
        Next::Run(start)
    } else {
        match progress(start, outcomes.drop_last()) {
            Next::Run(step) => after(step, outcomes.last()),
            ended => ended,
        }
    }
}

/// The place of a step in its operation, counted from the first.
pub open spec fn ordinal(step: Step) -> int {
    match step {
        Step::Locate => 0,
        Step::Decrypt => 1,
        Step::Parse => 2,
        Step::Launch => 0,
        Step::Feed => 1,
        Step::Wait => 2,
        Step::Stage => 3,
        Step::Replace => 4,
    }
}

/// Whether a step belongs to writing.
pub open spec fn writes(step: Step) -> bool {
    match step {
        Step::Locate | Step::Decrypt | Step::Parse => false,
        _ => true,
    }
}

/// The first step of reading the encrypted file.
pub fn begin_read() -> (step: Step)
    ensures
        step == read_start(),
{
    Step::Locate
}

/// The first step of writing the encrypted file.
pub fn begin_write() -> (step: Step)
    ensures
        step == write_start(),
{
    Step::Launch
}

/// What follows `step`, given whether it succeeded: the step after it, the
/// end, or the error of the step that failed.
pub fn next(step: Step, succeeded: bool) -> (then: Next)
    ensures
        then == after(step, succeeded),
{
    if !succeeded {
        match step {
            Step::Locate => Next::Fail(Error::NotFound),
            Step::Decrypt => Next::Fail(Error::DecryptFailed),
            Step::Parse => Next::Fail(Error::MalformedStore),
            _ => Next::Fail(Error::EncryptFailed),
        }
    } else {
        match step {
            Step::Locate => Next::Run(Step::Decrypt),
            Step::Decrypt => Next::Run(Step::Parse),
            Step::Parse => Next::Done,
            Step::Launch => Next::Run(Step::Feed),
            Step::Feed => Next::Run(Step::Wait),
            Step::Wait => Next::Run(Step::Stage),
            Step::Stage => Next::Run(Step::Replace),
            Step::Replace => Next::Done,
        }
    }
}

/// An operation that is about to run a step has had one outcome for each
/// step before it, all of them successes, and has stayed within reading or
/// within writing.
pub proof fn lemma_progress_run(start: Step, outcomes: Seq<bool>)
    requires
        progress(start, outcomes) is Run,
    ensures
        ordinal(progress(start, outcomes)->Run_0) == ordinal(start) + outcomes.len(),
        writes(progress(start, outcomes)->Run_0) == writes(start),
        forall|i: int| 0 <= i < outcomes.len() ==> outcomes[i],
    decreases outcomes.len(),
{
    if outcomes.len() > 0 {
        let earlier = outcomes.drop_last();
        lemma_progress_run(start, earlier);
        assert forall|i: int| 0 <= i < outcomes.len() implies outcomes[i] by {
            if i < earlier.len() {
                assert(earlier[i] == outcomes[i]);
            }
        }
    }
}

/// The temporary file is renamed over the target only after the tool was
/// started, was fed, has exited well and its output was written to the
/// temporary file: four steps, each a success.
pub proof fn law_replace_after_success(outcomes: Seq<bool>)
    requires
        progress(write_start(), outcomes) == Next::Run(Step::Replace),
    ensures
        outcomes == seq![true, true, true, true],
{
    lemma_progress_run(write_start(), outcomes);
    assert(outcomes =~= seq![true, true, true, true]);
}

/// An operation that has ended stays as it ended.
pub proof fn lemma_progress_ended(start: Step, outcomes: Seq<bool>, more: Seq<bool>)
    requires
        !(progress(start, outcomes) is Run),
    ensures
        progress(start, outcomes + more) == progress(start, outcomes),
    decreases more.len(),
{
    if more.len() == 0 {
        assert(outcomes + more =~= outcomes);
    } else {
        lemma_progress_ended(start, outcomes, more.drop_last());
        assert((outcomes + more).drop_last() =~= outcomes + more.drop_last());
    }
}

/// One more outcome moves an operation that is under way by one step.
pub proof fn lemma_progress_step(start: Step, outcomes: Seq<bool>, upto: int)
    requires
        0 <= upto < outcomes.len(),
    ensures
        progress(start, outcomes.take(upto + 1)) == match progress(start, outcomes.take(upto)) {
            Next::Run(step) => after(step, outcomes[upto]),
            ended => ended,
        },
{
    assert(outcomes.take(upto + 1).drop_last() =~= outcomes.take(upto));
    assert(outcomes.take(upto + 1).last() == outcomes[upto]);
}

/// Writing fails with `EncryptFailed` and with nothing else, and it fails
/// exactly when one of its five steps does.
pub proof fn law_write_outcome(outcomes: Seq<bool>)
    requires
        outcomes.len() >= 5,
    ensures
        progress(write_start(), outcomes) == if outcomes[0] && outcomes[1] && outcomes[2]
            && outcomes[3] && outcomes[4] {
            Next::Done
        } else {
            Next::Fail(Error::EncryptFailed)
        },
{
    assert(progress(write_start(), outcomes.take(0)) == Next::Run(Step::Launch));
    lemma_progress_step(write_start(), outcomes, 0);
    lemma_progress_step(write_start(), outcomes, 1);
    lemma_progress_step(write_start(), outcomes, 2);
    lemma_progress_step(write_start(), outcomes, 3);
    lemma_progress_step(write_start(), outcomes, 4);
    assert(outcomes =~= outcomes.take(5) + outcomes.skip(5));
    lemma_progress_ended(write_start(), outcomes.take(5), outcomes.skip(5));
}

/// Reading fails with `NotFound` where the file is missing, else with
/// `DecryptFailed` where the tool fails, else with `MalformedStore` where
/// its output is no store, and succeeds otherwise.
pub proof fn law_read_outcome(outcomes: Seq<bool>)
    requires
        outcomes.len() >= 3,
    ensures
        progress(read_start(), outcomes) == if !outcomes[0] {
            Next::Fail(Error::NotFound)
        } else if !outcomes[1] {
            Next::Fail(Error::DecryptFailed)
        } else if !outcomes[2] {
            Next::Fail(Error::MalformedStore)
        } else {
            Next::Done
        },
{
    assert(progress(read_start(), outcomes.take(0)) == Next::Run(Step::Locate));
    lemma_progress_step(read_start(), outcomes, 0);
    lemma_progress_step(read_start(), outcomes, 1);
    lemma_progress_step(read_start(), outcomes, 2);
    assert(outcomes =~= outcomes.take(3) + outcomes.skip(3));
    lemma_progress_ended(read_start(), outcomes.take(3), outcomes.skip(3));
}

} // verus!
