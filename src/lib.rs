//! The sampling core of a hyperparameter optimizer: a search-space tracker
//! that infers each parameter's distribution from a stream of trials, a
//! uniform random sampler, and the trial bookkeeping of a Tree-structured
//! Parzen Estimator.
pub mod float_bits;
pub mod model;
pub mod distribution;
pub mod tracker;
pub mod random;
pub mod tpe;
