//! Monte Carlo estimation of the run distribution of a single baseball
//! half-inning: a base-out state machine, a weighted outcome sampler over a
//! configured probability model, a trial driver that plays an inning to three
//! outs, a parallel runner, and a fixed-point statistics aggregator.

pub mod errors;
pub mod sampler;
pub mod state;
pub mod stats;
pub mod trial;
