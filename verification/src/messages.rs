//! Values as they are handed on to the scheduler.

use vstd::prelude::*;

verus! {

/// How the CPUs of a task are made known to its process.
#[derive(Clone, Copy, Debug, PartialEq, Eq, Structural)]
pub enum PinMode {
    /// The task is not pinned.
    Unpinned,
    /// The task is pinned by the operating system.
    TaskSet,
    /// The task is pinned through the settings of OpenMP.
    OpenMP,
}

} // verus!
