//! Symbolic regression by evolutionary search.
//!
//! A candidate function ("creature") is a short stack of layers, each a sum
//! of weighted power terms over the input parameters plus a weighted
//! carry-over of the previous layer's output and a bias.  Populations of
//! creatures are scored against example rows, culled, mutated and refilled
//! over many cycles, and the best candidate is then refined by local search.
//!
//! Every numeric value travels as a raw IEEE binary32 bit pattern in a
//! `u32`; see the `numeric` module.

pub mod creature;
pub mod draws;
pub mod evolution;
pub mod numeric;
pub mod rows;
pub mod sorting;
pub mod standardize;
