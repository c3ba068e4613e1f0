//! The install command's control flow: refresh the sync databases, open a
//! transaction, resolve and add each requested package in order, prepare,
//! and commit. Any failing step stops the command with that step's error.
//! The application performs the step the state names against the
//! transaction engine and feeds the outcome back through `run`.

use vstd::prelude::*;

verus! {

/// The step the install command is about to perform, or how it ended.
#[derive(Clone, Copy, PartialEq, Eq, Structural)]
pub enum InstallState {
    /// Refresh the sync databases.
    Sync,
    /// Initialize a transaction.
    InitTrans,
    /// Look the package with this index up in the sync databases and add
    /// it to the transaction; a package found in no database is a
    /// failure.
    Resolve { next: usize },
    /// Prepare the transaction.
    Prepare,
    /// Commit the transaction.
    Commit,
    /// Every step succeeded.
    Done,
    /// A step failed; the command stops and surfaces that step's error.
    Failed,
}

/// How the step a state names turned out.
#[derive(Clone, Copy, PartialEq, Eq, Structural)]
pub enum StepOutcome {
    Succeeded,
    Failed,
}

/// A state makes sense for a run over `n_pkgs` requested packages.
pub open spec fn install_state_wf(s: InstallState, n_pkgs: usize) -> bool {
    match s {
        InstallState::Resolve { next } => next < n_pkgs,
        _ => true,
    }
}

/// The command is over, well or badly.
pub open spec fn install_done(s: InstallState) -> bool {
    s == InstallState::Done || s == InstallState::Failed
}

/// The next state after performing the step `s` names with outcome `o`,
/// for `n_pkgs` requested packages.
pub open spec fn spec_install_step(s: InstallState, o: StepOutcome, n_pkgs: usize) -> InstallState {
    if o == StepOutcome::Failed && !install_done(s) {
        InstallState::Failed
    } else {
        match s {
            InstallState::Sync => InstallState::InitTrans,
            InstallState::InitTrans => if n_pkgs == 0 {
                InstallState::Prepare
            } else {
                InstallState::Resolve { next: 0 }
            },
            InstallState::Resolve { next } => if next + 1 < n_pkgs {
                InstallState::Resolve { next: (next + 1) as usize }
            } else {
                InstallState::Prepare
            },
            InstallState::Prepare => InstallState::Commit,
            InstallState::Commit => InstallState::Done,
            InstallState::Done => InstallState::Done,
            InstallState::Failed => InstallState::Failed,
        }
    }
}

/// Advance the install command by one step.
pub fn run(state: InstallState, outcome: StepOutcome, n_pkgs: usize) -> (next: InstallState)
    requires
        install_state_wf(state, n_pkgs),
    ensures
        next == spec_install_step(state, outcome, n_pkgs),
        install_state_wf(next, n_pkgs),
{
    if matches!(outcome, StepOutcome::Failed) && !matches!(state, InstallState::Done)
        && !matches!(state, InstallState::Failed) {
        return InstallState::Failed;
    }
    match state {
        InstallState::Sync => InstallState::InitTrans,
        InstallState::InitTrans => if n_pkgs == 0 {
            InstallState::Prepare
        } else {
            InstallState::Resolve { next: 0 }
        },
        InstallState::Resolve { next } => if next + 1 < n_pkgs {
            InstallState::Resolve { next: next + 1 }
        } else {
            InstallState::Prepare
        },
        InstallState::Prepare => InstallState::Commit,
        InstallState::Commit => InstallState::Done,
        InstallState::Done => InstallState::Done,
        InstallState::Failed => InstallState::Failed,
    }
}

} // verus!
