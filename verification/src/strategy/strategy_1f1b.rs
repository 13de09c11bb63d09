use vstd::prelude::*;

use crate::error::ScheduleError;
use crate::minibatch::MiniBatch;
use crate::stage::Stage;
use crate::strategy::model_1f1b::{
    all_done_at, b_at, counters_at, f_at, horizon, lemma_done_iff_horizon, lemma_stage_inv,
    next_counters, row_at, schedule_spec, stage_done_at, stage_emit, valid_params,
};
use crate::strategy::{matrix_view, Strategy};

verus! {

/// Mutable per-stage run state: the stage's place in the chain, its monotonic
/// forward/backward counters and elapsed local time, and the phase-length
/// constants of the closed-form algorithm.
#[derive(Debug, Clone, Copy)]
struct StageState {
    stage: Stage,
    forward_idx: usize,
    backward_idx: usize,
    curr_time: usize,
    warm_up: usize,
    steady: usize,
    cool_down: usize,
}

impl StageState {
    /// A zeroed state for the stage at `stage_idx`; the chain links and phase
    /// constants are filled in by the strategy's initialisation.
    fn new(stage_idx: usize) -> (s: Self)
        ensures
            s.stage.stage_idx == stage_idx,
            s.stage.prev_stage is None,
            s.stage.next_stage is None,
            s.forward_idx == 0,
            s.backward_idx == 0,
            s.curr_time == 0,
    {
        StageState {
            stage: Stage::new(stage_idx),
            forward_idx: 0,
            backward_idx: 0,
            curr_time: 0,
            warm_up: 0,
            steady: 0,
            cool_down: 0,
        }
    }

    /// A stage is complete when it has scheduled all forward and all backward
    /// passes.
    fn complete(&self, num_minibatch: usize) -> (r: bool)
        ensures
            r == (self.forward_idx >= num_minibatch && self.backward_idx >= num_minibatch),
    {
        self.forward_idx >= num_minibatch && self.backward_idx >= num_minibatch
    }

    /// The state the mathematical model prescribes for stage `i` after `t`
    /// steps of a `(w, n)` run.
    spec fn matches_model(self, w: int, n: int, i: int, t: int) -> bool {
        &&& self.stage.linked(w, i)
        &&& self.forward_idx == f_at(w, n, i, t)
        &&& self.backward_idx == b_at(w, n, i, t)
        &&& self.curr_time == t
        &&& self.warm_up == w - i
        &&& self.steady == n - (w - i)
        &&& self.cool_down == w - i
    }
}

/// The closed-form 1F1B scheduling strategy: every stage passes through
/// warm-up, steady-state and cool-down phases driven by its own counters
/// against elapsed time, and appends its operations to its row of the
/// schedule matrix one `step()` at a time.
pub struct Strategy1F1B {
    stage_states: Vec<StageState>,
    world_size: usize,
    num_minibatch: usize,
    arrangements: Vec<Vec<MiniBatch>>,
    taken: bool,
}

impl Strategy1F1B {
    /// Global elapsed time: every stage's local clock agrees with stage 0's.
    spec fn time(&self) -> int {
        self.stage_states@[0].curr_time as int
    }

    /// One initialised state per stage, wired into a linear chain with the
    /// phase constants `warm_up = world_size - stage_idx`,
    /// `steady = num_minibatch - warm_up` and `cool_down = num_minibatch - steady`.
    fn init_1f1b_devices(world_size: usize, num_minibatch: usize) -> (v: Vec<StageState>)
        requires
            1 <= world_size,
            world_size <= num_minibatch,
            4 * num_minibatch <= usize::MAX,
        ensures
            v@.len() == world_size,
            forall|i: int|
                0 <= i < world_size ==> (#[trigger] v@[i]).matches_model(
                    world_size as int,
                    num_minibatch as int,
                    i,
                    0,
                ),
    {
        let ghost w: int = world_size as int;
        let ghost n: int = num_minibatch as int;
        let mut devices: Vec<StageState> = Vec::new();
        let mut rank: usize = 0;
        while rank < world_size
            invariant
                1 <= world_size <= num_minibatch,
                4 * num_minibatch <= usize::MAX,
                w == world_size as int,
                n == num_minibatch as int,
                0 <= rank <= world_size,
                devices@.len() == rank,
                forall|i: int|
                    0 <= i < rank ==> (#[trigger] devices@[i]).matches_model(w, n, i, 0),
            decreases world_size - rank,
        {
            let mut state = StageState::new(rank);
            state.stage.prev_stage = if rank == 0 {
                None
            } else {
                Some(rank - 1)
            };
            state.stage.next_stage = if rank == world_size - 1 {
                None
            } else {
                Some(rank + 1)
            };
            state.warm_up = world_size - rank;
            state.steady = num_minibatch - state.warm_up;
            state.cool_down = num_minibatch - state.steady;
            proof {
                assert(counters_at(w, n, rank as int, 0) == (0int, 0int));
            }
            devices.push(state);
            rank = rank + 1;
        }
        devices
    }
}

impl Strategy for Strategy1F1B {
    closed spec fn world_size(&self) -> int {
        self.world_size as int
    }

    closed spec fn num_minibatch(&self) -> int {
        self.num_minibatch as int
    }

    closed spec fn inv(&self) -> bool {
        let w = self.world_size as int;
        let n = self.num_minibatch as int;
        let t = self.time();
        &&& valid_params(w, n)
        &&& self.stage_states@.len() == w
        &&& 0 <= t <= horizon(w, n)
        &&& forall|i: int|
            0 <= i < w ==> (#[trigger] self.stage_states@[i]).matches_model(w, n, i, t)
        &&& !self.taken ==> self.arrangements@.len() == w
        &&& !self.taken ==> forall|i: int|
            0 <= i < w ==> (#[trigger] self.arrangements@[i])@ == row_at(w, n, i, t)
    }

    closed spec fn done(&self) -> bool {
        forall|i: int|
            0 <= i < self.stage_states@.len() ==> (#[trigger] self.stage_states@[i]).forward_idx
                >= self.num_minibatch && self.stage_states@[i].backward_idx >= self.num_minibatch
    }

    closed spec fn taken(&self) -> bool {
        self.taken
    }

    // Steps taken after completion change nothing, so this strategy can never
    // leave the driver's trajectory.
    closed spec fn canonical(&self) -> bool {
        true
    }

    closed spec fn steps(&self) -> nat {
        self.time() as nat
    }

    closed spec fn fuel(&self) -> nat {
        let w = self.world_size as int;
        let n = self.num_minibatch as int;
        if self.time() <= horizon(w, n) {
            (horizon(w, n) - self.time()) as nat
        } else {
            0
        }
    }

    open spec fn schedule(world_size: int, num_minibatch: int) -> Seq<Seq<MiniBatch>> {
        schedule_spec(world_size, num_minibatch)
    }

    fn new(world_size: usize, num_minibatch: usize) -> (s: Self) {
        let ghost w: int = world_size as int;
        let ghost n: int = num_minibatch as int;
        let devices = Self::init_1f1b_devices(world_size, num_minibatch);
        let mut arrangements: Vec<Vec<MiniBatch>> = Vec::new();
        let mut k: usize = 0;
        while k < world_size
            invariant
                0 <= k <= world_size,
                arrangements@.len() == k,
                forall|i: int| 0 <= i < k ==> (#[trigger] arrangements@[i])@ == Seq::<
                    MiniBatch,
                >::empty(),
            decreases world_size - k,
        {
            arrangements.push(Vec::new());
            k = k + 1;
        }
        proof {
            assert(forall|i: int| 0 <= i < w ==> row_at(w, n, i, 0) == Seq::<MiniBatch>::empty());
        }
        Strategy1F1B { stage_states: devices, world_size, num_minibatch, arrangements, taken: false }
    }

    fn complete(&self) -> (r: bool) {
        let mut k: usize = 0;
        while k < self.world_size
            invariant
                self.inv(),
                0 <= k <= self.world_size,
                forall|i: int|
                    0 <= i < k ==> (#[trigger] self.stage_states@[i]).forward_idx
                        >= self.num_minibatch && self.stage_states@[i].backward_idx
                        >= self.num_minibatch,
            decreases self.world_size - k,
        {
            if !self.stage_states[k].complete(self.num_minibatch) {
                return false;
            }
            k = k + 1;
        }
        true
    }

    fn step(&mut self) -> (r: Result<(), ScheduleError>) {
        if self.taken {
            return Err(ScheduleError::UninitializedOutput);
        }
        if self.complete() {
            return Ok(());
        }
        let ghost w: int = self.world_size as int;
        let ghost n: int = self.num_minibatch as int;
        let ghost t: int = self.time();
        proof {
            assert(!all_done_at(w, n, t)) by {
                if all_done_at(w, n, t) {
                    assert forall|i: int|
                        0 <= i < w implies (#[trigger] self.stage_states@[i]).forward_idx
                        >= self.num_minibatch && self.stage_states@[i].backward_idx
                        >= self.num_minibatch by {
                        assert(stage_done_at(w, n, i, t));
                    }
                    assert(self.done());
                }
            }
            lemma_done_iff_horizon(w, n, t);
            assert(t < horizon(w, n));
        }
        let mut idx: usize = 0;
        while idx < self.world_size
            invariant
                valid_params(w, n),
                w == self.world_size as int,
                n == self.num_minibatch as int,
                !self.taken,
                0 <= t < horizon(w, n),
                0 <= idx <= self.world_size,
                self.stage_states@.len() == w,
                self.arrangements@.len() == w,
                forall|i: int|
                    0 <= i < idx ==> (#[trigger] self.stage_states@[i]).matches_model(
                        w,
                        n,
                        i,
                        t + 1,
                    ),
                forall|i: int|
                    idx <= i < w ==> (#[trigger] self.stage_states@[i]).matches_model(w, n, i, t),
                forall|i: int|
                    0 <= i < idx ==> (#[trigger] self.arrangements@[i])@ == row_at(w, n, i, t + 1),
                forall|i: int|
                    idx <= i < w ==> (#[trigger] self.arrangements@[i])@ == row_at(w, n, i, t),
            decreases self.world_size - idx,
        {
            let ghost i: int = idx as int;
            let ghost f0: int = f_at(w, n, i, t);
            let ghost b0: int = b_at(w, n, i, t);
            let ghost row0: Seq<MiniBatch> = row_at(w, n, i, t);
            proof {
                lemma_stage_inv(w, n, i, t);
                assert(counters_at(w, n, i, t + 1) == next_counters(w, n, i, f0, b0, t));
                assert(row_at(w, n, i, t + 1) == row0 + stage_emit(w, n, i, f0, b0, t));
            }
            let state = self.stage_states[idx];
            let mut state2 = state;
            state2.curr_time = state.curr_time + 1;
            if state.forward_idx < state.warm_up {
                // warm-up: idle until activations arrive, then one forward per step
                if state.curr_time < idx {
                    self.arrangements[idx].push(MiniBatch::Nops);
                    proof {
                        assert(row0.push(MiniBatch::Nops) =~= row0 + stage_emit(w, n, i, f0, b0, t));
                    }
                } else {
                    self.arrangements[idx].push(MiniBatch::Forward(state.forward_idx));
                    state2.forward_idx = state.forward_idx + 1;
                    proof {
                        assert(row0.push(MiniBatch::Forward(state.forward_idx)) =~= row0
                            + stage_emit(w, n, i, f0, b0, t));
                    }
                }
            } else if state.forward_idx < self.num_minibatch {
                // steady state: idle until the pipeline is full, then one
                // coupled backward/forward pair per step
                if state.curr_time < 2 * self.world_size - 1 - idx {
                    self.arrangements[idx].push(MiniBatch::Nops);
                    proof {
                        assert(row0.push(MiniBatch::Nops) =~= row0 + stage_emit(w, n, i, f0, b0, t));
                    }
                } else {
                    self.arrangements[idx].push(MiniBatch::Backward(state.backward_idx));
                    self.arrangements[idx].push(MiniBatch::Forward(state.forward_idx));
                    state2.backward_idx = state.backward_idx + 1;
                    state2.forward_idx = state.forward_idx + 1;
                    proof {
                        assert(row0.push(MiniBatch::Backward(state.backward_idx)).push(
                            MiniBatch::Forward(state.forward_idx),
                        ) =~= row0 + stage_emit(w, n, i, f0, b0, t));
                    }
                }
            } else if state.backward_idx < self.num_minibatch {
                // cool-down: drain one backward per step, padding with an idle
                // entry while further drains remain
                self.arrangements[idx].push(MiniBatch::Backward(state.backward_idx));
                state2.backward_idx = state.backward_idx + 1;
                if state2.backward_idx < self.num_minibatch {
                    self.arrangements[idx].push(MiniBatch::Nops);
                    proof {
                        assert(row0.push(MiniBatch::Backward(state.backward_idx)).push(
                            MiniBatch::Nops,
                        ) =~= row0 + stage_emit(w, n, i, f0, b0, t));
                    }
                } else {
                    proof {
                        assert(row0.push(MiniBatch::Backward(state.backward_idx)) =~= row0
                            + stage_emit(w, n, i, f0, b0, t));
                    }
                }
            } else {
                // trailing drain after the stage has fully completed
                self.arrangements[idx].push(MiniBatch::Nops);
                proof {
                    assert(row0.push(MiniBatch::Nops) =~= row0 + stage_emit(w, n, i, f0, b0, t));
                }
            }
            self.stage_states[idx] = state2;
            idx = idx + 1;
        }
        Ok(())
    }

    fn arrangements(&mut self) -> (r: Result<Vec<Vec<MiniBatch>>, ScheduleError>) {
        if self.taken {
            return Err(ScheduleError::DoubleConsumption);
        }
        let ghost w: int = self.world_size as int;
        let ghost n: int = self.num_minibatch as int;
        let ghost t: int = self.time();
        proof {
            if old(self).done() {
                assert forall|i: int| 0 <= i < w implies f_at(w, n, i, t) == n && b_at(w, n, i, t)
                    == n by {
                    lemma_stage_inv(w, n, i, t);
                    assert(self.stage_states@[i].matches_model(w, n, i, t));
                }
                lemma_done_iff_horizon(w, n, t);
                assert(t == horizon(w, n));
            }
        }
        self.taken = true;
        let mut result: Vec<Vec<MiniBatch>> = Vec::new();
        core::mem::swap(&mut result, &mut self.arrangements);
        proof {
            if old(self).done() {
                assert(matrix_view(result) =~= schedule_spec(w, n));
            }
        }
        Ok(result)
    }
}

/// The completion query flips exactly at the horizon: a strategy that has
/// advanced `t` timesteps is complete if and only if `t` has reached
/// `horizon(world_size, num_minibatch)`, and it stays complete from then on.
pub proof fn lemma_complete_iff_horizon(st: &Strategy1F1B)
    requires
        st.inv(),
    ensures
        st.done() <==> st.steps() >= horizon(st.world_size(), st.num_minibatch()),
{
    let w = st.world_size();
    let n = st.num_minibatch();
    let t = st.time();
    lemma_done_iff_horizon(w, n, t);
    if st.done() {
        assert forall|i: int| 0 <= i < w implies stage_done_at(w, n, i, t) by {
            lemma_stage_inv(w, n, i, t);
            assert(st.stage_states@[i].matches_model(w, n, i, t));
        }
        assert(all_done_at(w, n, t));
    } else {
        if t >= horizon(w, n) {
            assert(all_done_at(w, n, t));
            assert forall|i: int|
                0 <= i < st.stage_states@.len() implies (#[trigger] st.stage_states@[i]).forward_idx
                >= st.num_minibatch && st.stage_states@[i].backward_idx >= st.num_minibatch by {
                assert(stage_done_at(w, n, i, t));
            }
            assert(st.done());
        }
    }
}

} // verus!
