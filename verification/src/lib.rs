//! Deterministic planning of one-forward-one-backward (1F1B) pipeline-parallel
//! schedules.
//!
//! Given a linear pipeline of `world_size` stages and `num_minibatch`
//! minibatches, the library computes, for every stage, the ordered list of
//! operations (forward pass, backward pass, or idle) the stage performs at
//! each global timestep.  The closed-form 1F1B algorithm lives in
//! [`strategy::strategy_1f1b`]; its mathematical model and the proved laws of
//! the produced schedule live in [`strategy::model_1f1b`].  The [`scheduler`]
//! module holds the generic driver that runs any [`strategy::Strategy`] to
//! completion.

pub mod error;
pub mod minibatch;
pub mod scheduler;
pub mod stage;
pub mod strategy;
