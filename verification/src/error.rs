//! Why a reduction ends without a final sum.

use vstd::prelude::*;

verus! {

/// A fatal outcome of a reduction. None of them is recovered from: a reduction
/// that meets one yields no sum at all.
#[derive(Clone, Copy, Debug, PartialEq, Eq, Structural)]
pub enum ReduceError {
    /// The sum over the chunk with this index exceeds `u64::MAX`.
    ChunkOverflow { chunk: usize },
    /// Every partial sum was representable, their total exceeds `u64::MAX`.
    TotalOverflow,
    /// The result channel closed after `received` of the `expected` partial sums.
    MissingResults { expected: usize, received: usize },
    /// More partial sums arrived than the `expected` chunks that were handed out.
    SurplusResult { expected: usize },
}

} // verus!
