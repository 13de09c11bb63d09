use vstd::prelude::*;

verus! {

/// One processing stage in the linear pipeline: its position and the indices
/// of its neighbours in the chain (absent at the two ends).  Fixed once the
/// owning strategy has wired the chain; never mutated afterwards.
#[derive(Debug, Clone, Copy)]
pub struct Stage {
    pub stage_idx: usize,
    pub prev_stage: Option<usize>,
    pub next_stage: Option<usize>,
}

impl Stage {
    /// A stage at position `stage_idx` with both neighbours still unset.
    pub fn new(stage_idx: usize) -> (s: Self)
        ensures
            s.stage_idx == stage_idx,
            s.prev_stage is None,
            s.next_stage is None,
    {
        Stage { stage_idx, prev_stage: None, next_stage: None }
    }

    /// The neighbour links a linear chain of length `world_size` gives the
    /// stage at position `i`: the predecessor is absent exactly at the head,
    /// the successor exactly at the tail.
    pub open spec fn linked(self, world_size: int, i: int) -> bool {
        &&& self.stage_idx == i
        &&& self.prev_stage == (if i == 0 {
            Option::<usize>::None
        } else {
            Option::<usize>::Some((i - 1) as usize)
        })
        &&& self.next_stage == (if i == world_size - 1 {
            Option::<usize>::None
        } else {
            Option::<usize>::Some((i + 1) as usize)
        })
    }
}

} // verus!
