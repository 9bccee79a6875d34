//! Splitting a range into contiguous chunks of near-equal size, one per worker.

use crate::error::ReduceError;
use crate::range::{fit, Interval};
use vstd::arithmetic::div_mod::lemma_fundamental_div_mod;
use vstd::prelude::*;

verus! {

/// The part of a range that one worker sums, with the worker's index.
#[derive(Clone, Copy, Debug, PartialEq, Eq, Structural)]
pub struct Chunk {
    pub index: usize,
    pub span: Interval,
}

impl Chunk {
    /// What the worker of this chunk hands to the aggregator: the sum of the
    /// chunk, or the overflow under the chunk's index.
    pub open spec fn report(self) -> Result<u64, ReduceError> {
        match fit(self.span.sum()) {
            Some(partial) => Ok(partial),
            None => Err(ReduceError::ChunkOverflow { chunk: self.index }),
        }
    }

    /// Sums the chunk. The work of one worker: it reads nothing but its own
    /// chunk and yields exactly one report.
    pub fn sum(&self) -> (report: Result<u64, ReduceError>)
        ensures
            report == self.report(),
    {
        match self.span.checked_sum() {
            Some(partial) => Ok(partial),
            None => Err(ReduceError::ChunkOverflow { chunk: self.index }),
        }
    }
}

/// Where chunk `i` of `workers` begins, and chunk `i - 1` ends. With `q` the
/// quotient and `r` the remainder of the range's size by `workers`, the first
/// `r` chunks hold `q + 1` numbers and the others `q`.
pub open spec fn boundary(range: Interval, workers: nat, i: nat) -> int {
    let q: nat = range.size() / workers;
    let r: nat = range.size() % workers;
    range.start + i * q + if i < r {
        i
    } else {
        r
    }
}

/// Chunk `i` of the split of `range` among `workers`.
pub open spec fn chunk_at(range: Interval, workers: nat, i: nat) -> Chunk {
    Chunk {
        index: i as usize,
        span: Interval {
            start: boundary(range, workers, i) as u64,
            end: boundary(range, workers, i + 1) as u64,
        },
    }
}

/// The split of `range` among `workers`, in ascending order.
pub open spec fn partition_spec(range: Interval, workers: nat) -> Seq<Chunk> {
    Seq::new(workers, |i: int| chunk_at(range, workers, i as nat))
}

/// `chunks` are numbered from zero and laid end to end from the start of
/// `range` to its end: sorted, without a gap and without an overlap.
pub open spec fn tiles(chunks: Seq<Chunk>, range: Interval) -> bool {
    &&& chunks.len() >= 1
    &&& chunks[0].span.start == range.start
    &&& chunks[chunks.len() - 1].span.end == range.start + range.size()
    &&& forall|i: int| 0 <= i < chunks.len() ==> (#[trigger] chunks[i]).index == i
    &&& forall|i: int|
        0 <= i < chunks.len() ==> (#[trigger] chunks[i]).span.start <= chunks[i].span.end
    &&& forall|i: int|
        0 <= i < chunks.len() - 1 ==> (#[trigger] chunks[i]).span.end == chunks[i + 1].span.start
}

/// The boundaries of a split ascend from the start of the range to its end,
/// and two neighbours are `q` or `q + 1` apart.
pub proof fn lemma_boundary_step(range: Interval, workers: nat, i: nat)
    requires
        i < workers,
    ensures
        boundary(range, workers, 0) == range.start,
        boundary(range, workers, workers) == range.start + range.size(),
        boundary(range, workers, i + 1) - boundary(range, workers, i) == range.size() / workers
            + if i < range.size() % workers {
            1int
        } else {
            0int
        },
        range.start <= boundary(range, workers, i) <= boundary(range, workers, i + 1)
            <= range.start + range.size(),
{
    let q: int = (range.size() / workers) as int;
    let r: int = (range.size() % workers) as int;
    let n: int = workers as int;
    let k: int = i as int;
    lemma_fundamental_div_mod(range.size() as int, n);
    assert(0 <= q && 0 <= r < n);
    assert((k + 1) * q == k * q + q) by (nonlinear_arith);
    assert(0 <= k * q && (k + 1) * q <= n * q) by (nonlinear_arith)
        requires
            0 <= k < n,
            0 <= q,
    ;
    assert(0 * q == 0);
}

/// The split of a range among one or more workers tiles the range.
pub proof fn lemma_partition_tiles(range: Interval, workers: nat)
    requires
        1 <= workers <= usize::MAX,
    ensures
        tiles(partition_spec(range, workers), range),
{
    let chunks: Seq<Chunk> = partition_spec(range, workers);
    lemma_boundary_step(range, workers, 0);
    lemma_boundary_step(range, workers, (workers - 1) as nat);
    assert forall|i: int| 0 <= i < chunks.len() implies (#[trigger] chunks[i]).span.start
        <= chunks[i].span.end by {
        lemma_boundary_step(range, workers, i as nat);
    }
    assert forall|i: int| 0 <= i < chunks.len() - 1 implies (#[trigger] chunks[i]).span.end
        == chunks[i + 1].span.start by {
        lemma_boundary_step(range, workers, i as nat);
    }
}

/// In a tiling, an earlier chunk ends no later than a later one begins.
pub proof fn lemma_tiles_ordered(chunks: Seq<Chunk>, range: Interval, i: int, j: int)
    requires
        tiles(chunks, range),
        0 <= i < j < chunks.len(),
    ensures
        chunks[i].span.end <= chunks[j].span.start,
    decreases j - i,
{
    if i + 1 < j {
        lemma_tiles_ordered(chunks, range, i, j - 1);
        assert(chunks[j - 1].span.start <= chunks[j - 1].span.end);
        assert(chunks[j - 1].span.end == chunks[j].span.start);
    }
}

/// In a tiling, a number from the start of the range up to the end of chunk
/// `last` lies in one of the chunks up to `last`.
proof fn lemma_tiles_find(chunks: Seq<Chunk>, range: Interval, x: int, last: int) -> (i: int)
    requires
        tiles(chunks, range),
        0 <= last < chunks.len(),
        range.start <= x < chunks[last].span.end,
    ensures
        0 <= i <= last,
        chunks[i].span.contains(x),
    decreases last,
{
    if chunks[last].span.start <= x {
        last
    } else {
        assert(chunks[last - 1].span.end == chunks[last].span.start);
        lemma_tiles_find(chunks, range, x, last - 1)
    }
}

/// A tiling is a disjoint cover: every number of the range lies in exactly one
/// chunk, and the chunks hold no number from outside the range.
pub proof fn lemma_tiles_cover_once(chunks: Seq<Chunk>, range: Interval)
    requires
        tiles(chunks, range),
    ensures
        forall|x: int|
            range.contains(x) ==> exists|i: int|
                0 <= i < chunks.len() && (#[trigger] chunks[i]).span.contains(x),
        forall|i: int, x: int|
            0 <= i < chunks.len() && #[trigger] chunks[i].span.contains(x) ==> range.contains(x),
        forall|i: int, j: int, x: int|
            0 <= i < chunks.len() && 0 <= j < chunks.len() && #[trigger] chunks[i].span.contains(x)
                && #[trigger] chunks[j].span.contains(x) ==> i == j,
{
    let top: int = chunks.len() - 1;
    assert forall|x: int| range.contains(x) implies exists|i: int|
        0 <= i < chunks.len() && (#[trigger] chunks[i]).span.contains(x) by {
        let i: int = lemma_tiles_find(chunks, range, x, top);
        assert(chunks[i].span.contains(x));
    }
    assert forall|i: int, x: int|
        0 <= i < chunks.len() && #[trigger] chunks[i].span.contains(x) implies range.contains(
        x,
    ) by {
        if 0 < i {
            lemma_tiles_ordered(chunks, range, 0, i);
            assert(chunks[0].span.start <= chunks[0].span.end);
        }
        if i < top {
            lemma_tiles_ordered(chunks, range, i, top);
            assert(chunks[top].span.start <= chunks[top].span.end);
        }
    }
    assert forall|i: int, j: int, x: int|
        0 <= i < chunks.len() && 0 <= j < chunks.len() && #[trigger] chunks[i].span.contains(x)
            && #[trigger] chunks[j].span.contains(x) implies i == j by {
        if i < j {
            lemma_tiles_ordered(chunks, range, i, j);
        } else if j < i {
            lemma_tiles_ordered(chunks, range, j, i);
        }
    }
}

/// Splits `range` among `workers` into contiguous chunks of near-equal size:
/// chunk `i` runs from `boundary(.., i)` to `boundary(.., i + 1)`.
pub fn partition(range: Interval, workers: usize) -> (chunks: Vec<Chunk>)
    requires
        workers >= 1,
    ensures
        chunks@ == partition_spec(range, workers as nat),
        tiles(chunks@, range),
{
    let count: u64 = workers as u64;
    let len: u64 = range.len();
    let q: u64 = len / count;
    let r: u64 = len % count;
    let mut chunks: Vec<Chunk> = Vec::new();
    let mut lo: u64 = range.start;
    let mut i: usize = 0;
    while i < workers
        invariant
            count == workers,
            len == range.size(),
            q == len / count,
            r == len % count,
            1 <= workers,
            i <= workers,
            chunks@.len() == i,
            lo == boundary(range, workers as nat, i as nat),
            forall|k: int|
                0 <= k < i ==> #[trigger] chunks@[k] == chunk_at(range, workers as nat, k as nat),
        decreases workers - i,
    {
        proof {
            lemma_boundary_step(range, workers as nat, i as nat);
        }
        let size: u64 = if (i as u64) < r {
            q + 1
        } else {
            q
        };
        let hi: u64 = lo + size;
        chunks.push(Chunk { index: i, span: Interval { start: lo, end: hi } });
        lo = hi;
        i = i + 1;
    }
    proof {
        lemma_partition_tiles(range, workers as nat);
        assert(chunks@ =~= partition_spec(range, workers as nat));
    }
    chunks
}

} // verus!
