//! The remove command's control flow: open a transaction with the flags
//! the removal depth calls for, resolve each named package in the local
//! database and mark it for removal, prepare, and commit. Any failing
//! step stops the command with that step's error. The application
//! performs the step the state names and feeds the outcome back through
//! `run`.

use vstd::prelude::*;
use crate::commands::install::StepOutcome;

verus! {

/// The transaction flags a removal runs with.
#[derive(Clone, Copy, PartialEq, Eq, Structural)]
pub struct TransFlags {
    /// Also remove the target's now-unneeded dependencies.
    pub recurse: bool,
    /// Also remove the packages that depend on the target.
    pub cascade: bool,
    /// Do not keep configuration backups of removed files.
    pub no_save: bool,
}

/// A deep removal recurses, cascades and keeps no backups; a plain one
/// does none of that.
pub fn removal_flags(deep: bool) -> (f: TransFlags)
    ensures
        f.recurse == deep,
        f.cascade == deep,
        f.no_save == deep,
{
    TransFlags { recurse: deep, cascade: deep, no_save: deep }
}

/// The step the remove command is about to perform, or how it ended.
#[derive(Clone, Copy, PartialEq, Eq, Structural)]
pub enum RemoveState {
    /// Initialize a transaction with `removal_flags` of the requested
    /// depth.
    InitTrans,
    /// Look the package with this index up in the local database and
    /// mark it for removal; a package not installed is a failure.
    Resolve { next: usize },
    /// Prepare the transaction.
    Prepare,
    /// Commit the transaction.
    Commit,
    /// Every step succeeded.
    Done,
    /// A step failed; the command stops and surfaces that step's error.
    Failed,
}

/// A state makes sense for a run over `n_pkgs` named packages.
pub open spec fn remove_state_wf(s: RemoveState, n_pkgs: usize) -> bool {
    match s {
        RemoveState::Resolve { next } => next < n_pkgs,
        _ => true,
    }
}

/// The command is over, well or badly.
pub open spec fn remove_done(s: RemoveState) -> bool {
    s == RemoveState::Done || s == RemoveState::Failed
}

/// The next state after performing the step `s` names with outcome `o`,
/// for `n_pkgs` named packages.
pub open spec fn spec_remove_step(s: RemoveState, o: StepOutcome, n_pkgs: usize) -> RemoveState {
    if o == StepOutcome::Failed && !remove_done(s) {
        RemoveState::Failed
    } else {
        match s {
            RemoveState::InitTrans => if n_pkgs == 0 {
                RemoveState::Prepare
            } else {
                RemoveState::Resolve { next: 0 }
            },
            RemoveState::Resolve { next } => if next + 1 < n_pkgs {
                RemoveState::Resolve { next: (next + 1) as usize }
            } else {
                RemoveState::Prepare
            },
            RemoveState::Prepare => RemoveState::Commit,
            RemoveState::Commit => RemoveState::Done,
            RemoveState::Done => RemoveState::Done,
            RemoveState::Failed => RemoveState::Failed,
        }
    }
}

/// Advance the remove command by one step.
pub fn run(state: RemoveState, outcome: StepOutcome, n_pkgs: usize) -> (next: RemoveState)
    requires
        remove_state_wf(state, n_pkgs),
    ensures
        next == spec_remove_step(state, outcome, n_pkgs),
        remove_state_wf(next, n_pkgs),
{
    if matches!(outcome, StepOutcome::Failed) && !matches!(state, RemoveState::Done) && !matches!(
        state,
        RemoveState::Failed,
    ) {
        return RemoveState::Failed;
    }
    match state {
        RemoveState::InitTrans => if n_pkgs == 0 {
            RemoveState::Prepare
        } else {
            RemoveState::Resolve { next: 0 }
        },
        RemoveState::Resolve { next } => if next + 1 < n_pkgs {
            RemoveState::Resolve { next: next + 1 }
        } else {
            RemoveState::Prepare
        },
        RemoveState::Prepare => RemoveState::Commit,
        RemoveState::Commit => RemoveState::Done,
        RemoveState::Done => RemoveState::Done,
        RemoveState::Failed => RemoveState::Failed,
    }
}

} // verus!
