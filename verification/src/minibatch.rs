use vstd::prelude::*;

verus! {

/// One unit of scheduled work: the forward pass of a minibatch, the backward
/// pass of a minibatch, or an idle slot.  The index identifies the minibatch
/// and always lies in `[0, num_minibatch)`.
#[derive(Debug, Clone, Copy, PartialEq, Eq, Structural)]
pub enum MiniBatch {
    Forward(usize),
    Backward(usize),
    Nops,
}

impl MiniBatch {
    /// True of a forward-pass entry.
    pub open spec fn is_forward(self) -> bool {
        self is Forward
    }

    /// True of a backward-pass entry.
    pub open spec fn is_backward(self) -> bool {
        self is Backward
    }

    /// True of any non-idle entry.
    pub open spec fn is_work(self) -> bool {
        self is Forward || self is Backward
    }
}

/// The forward-pass entry for minibatch `idx`; a total function of the
/// mathematical index, convenient in quantified contracts.
pub open spec fn fwd(idx: int) -> MiniBatch {
    MiniBatch::Forward(idx as usize)
}

/// The backward-pass entry for minibatch `idx`.
pub open spec fn bwd(idx: int) -> MiniBatch {
    MiniBatch::Backward(idx as usize)
}

} // verus!
