//! The failure conditions of the simulation. All three are configuration or
//! programming errors: none is retried, each aborts the computation it arose in.

use vstd::prelude::*;

verus! {

/// What can go wrong while configuring or running the simulation.
#[derive(Clone, Copy, Debug, PartialEq, Eq, Structural)]
pub enum SimError {
    /// The configured probabilities are out of range or oversubscribed.
    InvalidModel,
    /// The state machine was asked to advance a trailing runner past a base
    /// the lead runner does not also clear.
    IllegalAdvancement,
    /// Statistics were requested over zero trials.
    EmptySample,
}

} // verus!
