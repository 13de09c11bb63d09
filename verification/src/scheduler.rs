use vstd::prelude::*;

use crate::error::ScheduleError;
use crate::minibatch::MiniBatch;
use crate::strategy::{matrix_view, Strategy};

verus! {

/// The driver: holds only the stage count, constructs a fresh strategy per
/// run, advances it to completion and hands the finished schedule back.
/// Stateless across runs.
pub struct Scheduler {
    world_size: usize,
}

impl Scheduler {
    /// The stage count this driver runs strategies for.
    pub closed spec fn spec_world_size(&self) -> int {
        self.world_size as int
    }

    /// A driver for a pipeline of `world_size` stages.
    pub fn new(world_size: usize) -> (s: Self)
        ensures
            s.spec_world_size() == world_size,
    {
        Scheduler { world_size }
    }

    /// Runs a fresh strategy of type `St` to completion for `num_minibatch`
    /// minibatches and returns the schedule matrix it computed.
    ///
    /// The caller must supply at least one stage and at least as many
    /// minibatches as stages: the 1F1B phase arithmetic is undefined for
    /// `num_minibatch < world_size`, so such configurations are rejected at
    /// the boundary rather than silently producing a wrong schedule.
    pub fn run<St: Strategy>(&mut self, num_minibatch: usize) -> (r: Result<
        Vec<Vec<MiniBatch>>,
        ScheduleError,
    >)
        requires
            1 <= old(self).spec_world_size(),
            old(self).spec_world_size() <= num_minibatch,
            4 * num_minibatch <= usize::MAX,
        ensures
            *final(self) == *old(self),
            r is Ok,
            r matches Ok(m) ==> matrix_view(m) == St::schedule(
                old(self).spec_world_size(),
                num_minibatch as int,
            ),
    {
        let ghost w: int = self.world_size as int;
        let ghost n: int = num_minibatch as int;
        let mut st = St::new(self.world_size, num_minibatch);
        let mut finished = st.complete();
        while !finished
            invariant
                st.inv(),
                st.canonical(),
                !st.taken(),
                st.world_size() == w,
                st.num_minibatch() == n,
                finished == st.done(),
            decreases st.fuel(),
        {
            match st.step() {
                Ok(_) => {},
                Err(e) => {
                    return Err(e);
                },
            }
            finished = st.complete();
        }
        st.arrangements()
    }
}

} // verus!
