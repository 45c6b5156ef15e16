//! Subtractive ("mountain") cluster-center estimation.
//!
//! From a set of candidate points with 16-bit integer coordinates, the
//! estimator picks a small ordered list of representative centers: each
//! candidate is scored by the density of candidates around it (the
//! potential), already-accepted centers suppress the score of their
//! neighborhood (the bias), and the highest net scorer of each round is
//! accepted until a threshold or an iteration cap stops the run.

pub mod estimator;
pub mod fbits;
pub mod model;
