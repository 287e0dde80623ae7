//! Numeric core of a two-asset StableSwap pool: the invariant D, the
//! post-trade reserve y, swaps with a proportional fee, pool-token
//! conversion and single-sided withdrawal, all in checked fixed-width
//! integer arithmetic.
pub mod curve;
pub mod error;
pub mod solver;
