use vstd::prelude::*;

verus! {

/// Failures a scheduling strategy can report.  All of them signal API misuse
/// or an algorithm defect, never an environmental fault, and none is retried.
#[derive(Debug, Clone, Copy, PartialEq, Eq, Structural)]
pub enum ScheduleError {
    /// `step()` was invoked after the internal schedule buffer had already
    /// been handed out, so there is nothing left to append to.
    UninitializedOutput,
    /// A dependency-driven strategy found neither a matching backward nor a
    /// matching forward action where the topology guarantees one must exist.
    InvariantViolation,
    /// `arrangements()` was called a second time on an already-drained
    /// strategy; the schedule can be taken exactly once.
    DoubleConsumption,
}

} // verus!
