use vstd::prelude::*;

use crate::error::ScheduleError;
use crate::minibatch::MiniBatch;

pub mod model_1f1b;
pub mod strategy_1f1b;

verus! {

/// The schedule matrix as a mathematical value: one sequence of operations
/// per stage.
pub open spec fn matrix_view(m: Vec<Vec<MiniBatch>>) -> Seq<Seq<MiniBatch>> {
    m@.map_values(|row: Vec<MiniBatch>| row@)
}

/// A pluggable scheduling algorithm with a lifecycle: construct for a stage
/// count and minibatch count, advance one global timestep at a time, query
/// completion, and hand the finished schedule out exactly once.
pub trait Strategy: Sized {
    /// The stage count the strategy was constructed for.
    spec fn world_size(&self) -> int;

    /// The minibatch count the strategy was constructed for.
    spec fn num_minibatch(&self) -> int;

    /// The strategy's internal consistency invariant; established by `new`
    /// and preserved by every method.
    spec fn inv(&self) -> bool;

    /// True when every stage has scheduled all its forward and backward
    /// passes.
    spec fn done(&self) -> bool;

    /// True once the finished schedule has been handed out.
    spec fn taken(&self) -> bool;

    /// True while the strategy has only been advanced by the driver's
    /// discipline: never stepped past completion.
    spec fn canonical(&self) -> bool;

    /// Upper bound on the number of further `step()` calls needed to reach
    /// completion; the driver's termination measure.
    spec fn fuel(&self) -> nat;

    /// How many timestep-advancing `step()` calls the strategy has performed.
    spec fn steps(&self) -> nat;

    /// The schedule this strategy computes for the given stage and minibatch
    /// counts.
    spec fn schedule(world_size: int, num_minibatch: int) -> Seq<Seq<MiniBatch>>;

    /// A deterministic, fully initialized strategy.  Configurations with
    /// fewer minibatches than stages are rejected by precondition: the
    /// schedule is not defined for them.
    fn new(world_size: usize, num_minibatch: usize) -> (s: Self)
        requires
            1 <= world_size,
            world_size <= num_minibatch,
            4 * num_minibatch <= usize::MAX,
        ensures
            s.inv(),
            s.canonical(),
            !s.taken(),
            !s.done(),
            s.steps() == 0,
            s.world_size() == world_size,
            s.num_minibatch() == num_minibatch,
    ;

    /// Pure completion query.
    fn complete(&self) -> (r: bool)
        requires
            self.inv(),
        ensures
            r == self.done(),
    ;

    /// Advances global logical time by exactly one unit across every stage.
    /// Once the schedule has been handed out there is no buffer left to
    /// append to and the call fails; once complete, further calls change
    /// nothing.
    fn step(&mut self) -> (r: Result<(), ScheduleError>)
        requires
            old(self).inv(),
        ensures
            final(self).inv(),
            final(self).world_size() == old(self).world_size(),
            final(self).num_minibatch() == old(self).num_minibatch(),
            final(self).taken() == old(self).taken(),
            !old(self).taken() ==> r is Ok,
            old(self).taken() ==> r == Err::<(), ScheduleError>(
                ScheduleError::UninitializedOutput,
            ),
            !old(self).taken() && !old(self).done() ==> final(self).fuel() < old(self).fuel(),
            !old(self).taken() && !old(self).done() ==> final(self).steps() == old(self).steps()
                + 1,
            old(self).taken() || old(self).done() ==> final(self).steps() == old(self).steps(),
            old(self).canonical() && !old(self).done() ==> final(self).canonical(),
            old(self).done() ==> final(self).done(),
    ;

    /// One-shot retrieval of the finished schedule: ownership transfers to
    /// the caller, and a second call reports `DoubleConsumption`.
    fn arrangements(&mut self) -> (r: Result<Vec<Vec<MiniBatch>>, ScheduleError>)
        requires
            old(self).inv(),
        ensures
            final(self).inv(),
            final(self).taken(),
            final(self).world_size() == old(self).world_size(),
            final(self).num_minibatch() == old(self).num_minibatch(),
            final(self).steps() == old(self).steps(),
            old(self).taken() ==> r == Err::<Vec<Vec<MiniBatch>>, ScheduleError>(
                ScheduleError::DoubleConsumption,
            ),
            !old(self).taken() ==> r is Ok,
            !old(self).taken() && old(self).done() && old(self).canonical() ==> r is Ok
                && matrix_view(r->Ok_0) == Self::schedule(
                old(self).world_size(),
                old(self).num_minibatch(),
            ),
    ;
}

} // verus!
