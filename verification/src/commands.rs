//! Command control flow. Installing and removing packages delegate the
//! actual work to an external transaction engine; what this crate owns is
//! the order of the steps and how each outcome is handled. Each command's
//! flow is a verified step function from state and outcome to the next
//! state; the surrounding application performs the step a state names and
//! reports back how it went.

pub mod install;
pub mod remove;
