//! vCPU thread placement: the scheduling priority and the placement errors.

use vstd::prelude::*;

verus! {

/// vCPU scheduling priority (SCHED_FIFO).
pub const VCPU_FIFO_PRIORITY: i32 = 10;

/// Thread-placement failure, with the errno.
#[derive(Clone, Copy, Debug, PartialEq, Eq, Structural)]
pub enum PinError {
    /// `sched_setaffinity` failed, e.g. the core is outside the process
    /// cpuset.
    Affinity(i32),
    /// `sched_setscheduler` failed, typically EPERM without CAP_SYS_NICE.
    Scheduler(i32),
}

} // verus!
