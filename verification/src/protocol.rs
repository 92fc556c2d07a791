//! The persistence protocol of a single object, as a state machine.
//!
//! The database computes a [`crate::database::WriteJob`]; an unverified
//! shell owns the file descriptors and performs one file-system action at a
//! time, reporting after each whether it succeeded. The machine decides
//! what happens next: open the temporary file; if that first open fails,
//! create the shard directory and retry the open once; write and fsync the
//! compressed bytes; atomically rename the temporary file into place. On
//! any failure after the temporary file exists, it is removed before the
//! run ends. The rename is the publication point: it is reached only after
//! every earlier step has succeeded.
use vstd::prelude::*;

use crate::database::DbError;

verus! {

/// One file-system action the shell is asked to perform. Every action
/// concerns the paths and bytes of the current write job.
#[derive(Clone, Copy, PartialEq, Eq, Structural, Debug)]
pub enum FsAction {
    /// Create the temporary file and open it for writing.
    OpenTemp,
    /// Create the shard directory, recursively.
    CreateShardDir,
    /// Write the compressed bytes to the temporary file and fsync it.
    WriteAndSync,
    /// Atomically rename the temporary file to the final object path.
    RenameIntoPlace,
    /// Remove the temporary file.
    RemoveTemp,
}

/// Where a run of the protocol stands.
#[derive(Clone, Copy, PartialEq, Eq, Structural, Debug)]
pub enum WriteState {
    /// About to open the temporary file for the first time.
    OpenFirst,
    /// The first open failed; about to create the shard directory.
    MakeDir,
    /// About to retry the open, once, after creating the directory.
    OpenRetry,
    /// The temporary file is open; about to write and fsync.
    Writing,
    /// The bytes are durable; about to publish by rename.
    Renaming,
    /// A step failed after the temporary file was created; about to remove
    /// it before reporting the failure.
    Cleaning,
    /// The object is durably published under its identifier.
    Done,
    /// The store failed; nothing was published.
    Failed,
}

/// Whether a run is over.
pub open spec fn is_terminal(s: WriteState) -> bool {
    s == WriteState::Done || s == WriteState::Failed
}

/// The action pending in a state, if the run is not over.
pub open spec fn pending_action(s: WriteState) -> Option<FsAction> {
    match s {
        WriteState::OpenFirst => Some(FsAction::OpenTemp),
        WriteState::MakeDir => Some(FsAction::CreateShardDir),
        WriteState::OpenRetry => Some(FsAction::OpenTemp),
        WriteState::Writing => Some(FsAction::WriteAndSync),
        WriteState::Renaming => Some(FsAction::RenameIntoPlace),
        WriteState::Cleaning => Some(FsAction::RemoveTemp),
        WriteState::Done => None,
        WriteState::Failed => None,
    }
}

/// The state after the pending action reports success or failure.
///
/// A failed first open is answered by creating the shard directory and
/// retrying once; a failure of the directory creation or of the retried
/// open is fatal, and no temporary file exists to clean up. A failure of
/// the write, the fsync or the rename first removes the temporary file.
/// The removal's own outcome cannot rescue the run: it has failed.
pub open spec fn next_state(s: WriteState, ok: bool) -> WriteState {
    match s {
        WriteState::OpenFirst => if ok {
            WriteState::Writing
        } else {
            WriteState::MakeDir
        },
        WriteState::MakeDir => if ok {
            WriteState::OpenRetry
        } else {
            WriteState::Failed
        },
        WriteState::OpenRetry => if ok {
            WriteState::Writing
        } else {
            WriteState::Failed
        },
        WriteState::Writing => if ok {
            WriteState::Renaming
        } else {
            WriteState::Cleaning
        },
        WriteState::Renaming => if ok {
            WriteState::Done
        } else {
            WriteState::Cleaning
        },
        WriteState::Cleaning => WriteState::Failed,
        WriteState::Done => WriteState::Done,
        WriteState::Failed => WriteState::Failed,
    }
}

/// The state after consuming a whole sequence of outcome reports.
pub open spec fn run_states(s: WriteState, evs: Seq<bool>) -> WriteState
    decreases evs.len(),
{
    if evs.len() == 0 || is_terminal(s) {
        s
    } else {
        run_states(next_state(s, evs[0]), evs.skip(1))
    }
}

/// The actions performed while consuming a sequence of outcome reports:
/// for each report consumed, the action whose outcome it was.
pub open spec fn run_actions(s: WriteState, evs: Seq<bool>) -> Seq<FsAction>
    decreases evs.len(),
{
    if evs.len() == 0 || is_terminal(s) {
        Seq::empty()
    } else {
        match pending_action(s) {
            Some(a) => seq![a] + run_actions(next_state(s, evs[0]), evs.skip(1)),
            None => Seq::empty(),
        }
    }
}

/// A run of the write protocol for one object.
pub struct WriteProtocol {
    pub state: WriteState,
}

impl WriteProtocol {
    /// Starts a run: the first step is opening the temporary file.
    pub fn new() -> (p: WriteProtocol)
        ensures
            p.state == WriteState::OpenFirst,
    {
        WriteProtocol { state: WriteState::OpenFirst }
    }

    /// The action the shell must perform next, or `None` when the run is
    /// over.
    pub fn current_action(&self) -> (a: Option<FsAction>)
        ensures
            a == pending_action(self.state),
    {
        match self.state {
            WriteState::OpenFirst => Some(FsAction::OpenTemp),
            WriteState::MakeDir => Some(FsAction::CreateShardDir),
            WriteState::OpenRetry => Some(FsAction::OpenTemp),
            WriteState::Writing => Some(FsAction::WriteAndSync),
            WriteState::Renaming => Some(FsAction::RenameIntoPlace),
            WriteState::Cleaning => Some(FsAction::RemoveTemp),
            WriteState::Done => None,
            WriteState::Failed => None,
        }
    }

    /// Consumes the outcome of the pending action and moves to the next
    /// state.
    pub fn report(&mut self, ok: bool)
        requires
            !is_terminal(old(self).state),
        ensures
            final(self).state == next_state(old(self).state, ok),
    {
        let next = match self.state {
            WriteState::OpenFirst => if ok {
                WriteState::Writing
            } else {
                WriteState::MakeDir
            },
            WriteState::MakeDir => if ok {
                WriteState::OpenRetry
            } else {
                WriteState::Failed
            },
            WriteState::OpenRetry => if ok {
                WriteState::Writing
            } else {
                WriteState::Failed
            },
            WriteState::Writing => if ok {
                WriteState::Renaming
            } else {
                WriteState::Cleaning
            },
            WriteState::Renaming => if ok {
                WriteState::Done
            } else {
                WriteState::Cleaning
            },
            WriteState::Cleaning => WriteState::Failed,
            WriteState::Done => WriteState::Done,
            WriteState::Failed => WriteState::Failed,
        };
        self.state = next;
    }

    /// The result of a finished run, or `None` while it is still going.
    /// A failed run reports the database's I/O error.
    pub fn outcome(&self) -> (r: Option<Result<(), DbError>>)
        ensures
            self.state == WriteState::Done ==> r == Some(Ok::<(), DbError>(())),
            self.state == WriteState::Failed ==> r == Some(Err::<(), DbError>(DbError::IoError)),
            !is_terminal(self.state) ==> r is None,
    {
        match self.state {
            WriteState::Done => Some(Ok(())),
            WriteState::Failed => Some(Err(DbError::IoError)),
            _ => None,
        }
    }
}

/// The rename is entered only from a successful write-and-sync: no state
/// reaches `Renaming` except `Writing` on a success report.
pub proof fn lemma_rename_needs_write_success(s: WriteState, ok: bool)
    ensures
        next_state(s, ok) == WriteState::Renaming <==> (s == WriteState::Writing && ok),
{
}

/// Atomicity under failure: in any run that starts anywhere but at the
/// rename itself, a `RenameIntoPlace` action is performed only after the
/// run has stood at `Writing` and its write-and-sync has reported success.
/// Hence if the write step (or anything before it) fails, nothing is ever
/// renamed to the final path, and no object is published.
pub proof fn lemma_rename_only_after_write(s: WriteState, evs: Seq<bool>)
    requires
        s != WriteState::Renaming,
    ensures
        run_actions(s, evs).contains(FsAction::RenameIntoPlace) ==> exists|i: int|
            0 <= i < evs.len() && run_states(s, #[trigger] evs.take(i)) == WriteState::Writing
                && evs[i],
    decreases evs.len(),
{
    if evs.len() == 0 || is_terminal(s) {
    } else {
        let n = next_state(s, evs[0]);
        let rest = evs.skip(1);
        if run_actions(s, evs).contains(FsAction::RenameIntoPlace) {
            assert(pending_action(s) != Some(FsAction::RenameIntoPlace));
            let acts = run_actions(s, evs);
            let a0 = pending_action(s)->Some_0;
            assert(acts == seq![a0] + run_actions(n, rest));
            assert(run_actions(n, rest).contains(FsAction::RenameIntoPlace)) by {
                let k = choose|k: int| 0 <= k < acts.len() && acts[k] == FsAction::RenameIntoPlace;
                assert(k != 0);
                assert(run_actions(n, rest)[k - 1] == FsAction::RenameIntoPlace);
            }
            if n == WriteState::Renaming {
                assert(s == WriteState::Writing && evs[0]);
                assert(evs.take(0) =~= Seq::<bool>::empty());
                assert(run_states(s, evs.take(0)) == WriteState::Writing && evs[0]);
            } else {
                lemma_rename_only_after_write(n, rest);
                let j = choose|j: int|
                    0 <= j < rest.len() && run_states(n, #[trigger] rest.take(j))
                        == WriteState::Writing && rest[j];
                assert(rest.take(j) =~= evs.take(j + 1).skip(1));
                assert(run_states(s, evs.take(j + 1)) == run_states(n, rest.take(j)));
                assert(evs[j + 1] == rest[j]);
            }
        }
    }
}

/// How many times an action occurs in a sequence of actions.
pub open spec fn count_action(s: Seq<FsAction>, a: FsAction) -> nat
    decreases s.len(),
{
    if s.len() == 0 {
        0
    } else {
        (if s[0] == a {
            1nat
        } else {
            0nat
        }) + count_action(s.skip(1), a)
    }
}

/// How many shard-directory creations a run starting at `s` may still
/// perform.
pub open spec fn mkdir_budget(s: WriteState) -> nat {
    match s {
        WriteState::OpenFirst => 1,
        WriteState::MakeDir => 1,
        _ => 0,
    }
}

/// Lazy, single shard-directory creation: a run of the protocol performs
/// `CreateShardDir` at most once, and only in answer to a failed first
/// open.
pub proof fn lemma_mkdir_at_most_once(s: WriteState, evs: Seq<bool>)
    ensures
        count_action(run_actions(s, evs), FsAction::CreateShardDir) <= mkdir_budget(s),
    decreases evs.len(),
{
    if evs.len() == 0 || is_terminal(s) {
    } else {
        let n = next_state(s, evs[0]);
        let rest = evs.skip(1);
        lemma_mkdir_at_most_once(n, rest);
        let a0 = pending_action(s)->Some_0;
        let acts = run_actions(s, evs);
        assert(acts == seq![a0] + run_actions(n, rest));
        assert(acts.skip(1) =~= run_actions(n, rest));
    }
}

/// How many renames a run starting at `s` may still perform.
pub open spec fn rename_budget(s: WriteState) -> nat {
    match s {
        WriteState::Cleaning => 0,
        WriteState::Done => 0,
        WriteState::Failed => 0,
        _ => 1,
    }
}

/// A run of the protocol publishes at most once: `RenameIntoPlace` is
/// performed at most one time, so a re-store of existing content can only
/// replace the object file with byte-identical content in one atomic step.
pub proof fn lemma_rename_at_most_once(s: WriteState, evs: Seq<bool>)
    ensures
        count_action(run_actions(s, evs), FsAction::RenameIntoPlace) <= rename_budget(s),
    decreases evs.len(),
{
    if evs.len() == 0 || is_terminal(s) {
    } else {
        let n = next_state(s, evs[0]);
        let rest = evs.skip(1);
        lemma_rename_at_most_once(n, rest);
        let a0 = pending_action(s)->Some_0;
        let acts = run_actions(s, evs);
        assert(acts == seq![a0] + run_actions(n, rest));
        assert(acts.skip(1) =~= run_actions(n, rest));
    }
}

/// How many reports a run starting at `s` can still consume before it is
/// over.
pub open spec fn steps_left(s: WriteState) -> nat {
    match s {
        WriteState::OpenFirst => 6,
        WriteState::MakeDir => 5,
        WriteState::OpenRetry => 4,
        WriteState::Writing => 3,
        WriteState::Renaming => 2,
        WriteState::Cleaning => 1,
        WriteState::Done => 0,
        WriteState::Failed => 0,
    }
}

/// Every run ends: after at most six reports the protocol stands at
/// `Done` or `Failed`.
pub proof fn lemma_run_terminates(s: WriteState, evs: Seq<bool>)
    requires
        evs.len() >= steps_left(s),
    ensures
        is_terminal(run_states(s, evs)),
    decreases evs.len(),
{
    if evs.len() == 0 || is_terminal(s) {
    } else {
        lemma_run_terminates(next_state(s, evs[0]), evs.skip(1));
    }
}

/// Runs that meet no failure publish: from any state not already on the
/// failure path, if every report is a success and enough reports come, the
/// run ends at `Done`.
pub proof fn lemma_no_failures_publish(s: WriteState, evs: Seq<bool>)
    requires
        s != WriteState::Cleaning,
        s != WriteState::Failed,
        forall|i: int| 0 <= i < evs.len() ==> evs[i],
        evs.len() >= steps_left(s),
    ensures
        run_states(s, evs) == WriteState::Done,
    decreases evs.len(),
{
    if evs.len() == 0 || is_terminal(s) {
    } else {
        assert(evs[0]);
        let rest = evs.skip(1);
        assert(forall|i: int| 0 <= i < rest.len() ==> rest[i]);
        lemma_no_failures_publish(next_state(s, true), rest);
    }
}

/// Lazy shard-directory creation succeeds: when the first open fails —
/// the shard directory being absent — and every following step succeeds,
/// the run still ends at `Done`, having created the directory exactly
/// once (`lemma_mkdir_at_most_once`).
pub proof fn lemma_missing_shard_dir_recovers(evs: Seq<bool>)
    requires
        evs.len() >= 6,
        !evs[0],
        forall|i: int| 1 <= i < evs.len() ==> evs[i],
    ensures
        run_states(WriteState::OpenFirst, evs) == WriteState::Done,
{
    let rest = evs.skip(1);
    assert(run_states(WriteState::OpenFirst, evs) == run_states(WriteState::MakeDir, rest));
    assert(forall|i: int| 0 <= i < rest.len() ==> rest[i]);
    lemma_no_failures_publish(WriteState::MakeDir, rest);
}

} // verus!
