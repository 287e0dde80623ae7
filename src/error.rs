//! Errors reported when a calculator is built.
use vstd::prelude::*;

verus! {

/// Why a calculator could not be built.
#[derive(Clone, Copy, Debug, PartialEq, Eq)]
pub enum SwapError {
    /// The amplification coefficient was zero.
    InvalidAmpFactor,
}

} // verus!
