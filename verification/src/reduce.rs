//! The whole reduction: split the range, sum each chunk, add up the partial
//! sums.

use crate::aggregate::{
    all_partials, lemma_arrival_order_irrelevant, lemma_outcome_of_partials, partials_total, run,
    Aggregator, Report, Tally,
};
use crate::error::ReduceError;
use crate::partition::{
    boundary, chunk_at, lemma_boundary_step, partition, partition_spec, Chunk,
};
use crate::range::{
    fit, lemma_range_sum_closed_form, lemma_range_sum_monotone, lemma_range_sum_split, range_sum,
    Interval,
};
use vstd::prelude::*;

verus! {

/// The exact sum of the first `count` chunks of the split of `range` among
/// `workers`.
pub open spec fn running_total(range: Interval, workers: nat, count: nat) -> int {
    range_sum(range.start as int, boundary(range, workers, count))
}

/// Chunk `chunk` is the one with which the running total first exceeds
/// `u64::MAX`.
pub open spec fn first_excess(range: Interval, workers: nat, chunk: nat) -> bool {
    &&& chunk < workers
    &&& running_total(range, workers, chunk) <= u64::MAX
    &&& running_total(range, workers, chunk + 1) > u64::MAX
}

/// What a reduction of `range` by `workers` workers yields when the chunks are
/// summed and added in ascending order: the sum of the range if it is a `u64`,
/// else the first overflow met, in the chunk's own sum or in the total.
pub open spec fn reduce_spec(range: Interval, workers: usize) -> Result<u64, ReduceError> {
    if range.sum() <= u64::MAX {
        Ok(range.sum() as u64)
    } else {
        let chunk: nat = choose|chunk: nat| first_excess(range, workers as nat, chunk);
        if chunk_at(range, workers as nat, chunk).span.sum() > u64::MAX {
            Err(ReduceError::ChunkOverflow { chunk: chunk as usize })
        } else {
            Err(ReduceError::TotalOverflow)
        }
    }
}

/// The running total never shrinks, ends at the sum of the range, and grows
/// with each chunk by the sum of that chunk.
pub proof fn lemma_running_total(range: Interval, workers: nat, count: nat)
    requires
        count < workers,
    ensures
        running_total(range, workers, 0) == 0,
        running_total(range, workers, workers) == range.sum(),
        running_total(range, workers, count + 1) == running_total(range, workers, count)
            + chunk_at(range, workers, count).span.sum(),
        0 <= running_total(range, workers, count) <= running_total(range, workers, count + 1)
            <= range.sum(),
        0 <= chunk_at(range, workers, count).span.sum(),
{
    let start: int = range.start as int;
    let top: int = start + range.size();
    let lo: int = boundary(range, workers, count);
    let hi: int = boundary(range, workers, count + 1);
    lemma_boundary_step(range, workers, count);
    lemma_range_sum_split(start, lo, hi);
    lemma_range_sum_monotone(start, lo, hi);
    lemma_range_sum_monotone(start, hi, top);
    lemma_range_sum_monotone(lo, lo, hi);
}

/// At most one chunk is the first with which the running total exceeds
/// `u64::MAX`.
pub proof fn lemma_first_excess_unique(range: Interval, workers: nat, one: nat, other: nat)
    requires
        first_excess(range, workers, one),
        first_excess(range, workers, other),
    ensures
        one == other,
{
    if one < other {
        lemma_running_total_ascends(range, workers, one + 1, other);
    } else if other < one {
        lemma_running_total_ascends(range, workers, other + 1, one);
    }
}

/// The running total after more chunks is no less.
pub proof fn lemma_running_total_ascends(range: Interval, workers: nat, fewer: nat, more: nat)
    requires
        fewer <= more <= workers,
    ensures
        running_total(range, workers, fewer) <= running_total(range, workers, more),
    decreases more - fewer,
{
    if fewer < more {
        lemma_running_total_ascends(range, workers, fewer, (more - 1) as nat);
        lemma_running_total(range, workers, (more - 1) as nat);
    }
}

/// Sums `range` with `workers` workers, one after the other: splits the range,
/// sums each chunk, and adds the partial sums up. It stops at the first
/// overflow.
pub fn reduce(range: Interval, workers: usize) -> (outcome: Result<u64, ReduceError>)
    requires
        workers >= 1,
    ensures
        outcome == reduce_spec(range, workers),
{
    let chunks: Vec<Chunk> = partition(range, workers);
    let mut aggregator: Aggregator = Aggregator::new(workers);
    let mut i: usize = 0;
    while i < workers
        invariant
            1 <= workers,
            i <= workers,
            chunks@.len() == workers,
            forall|k: int|
                0 <= k < workers ==> #[trigger] chunks@[k] == chunk_at(
                    range,
                    workers as nat,
                    k as nat,
                ),
            running_total(range, workers as nat, i as nat) <= u64::MAX,
            aggregator@ == (Tally {
                expected: workers,
                received: i,
                surplus: false,
                total: fit(running_total(range, workers as nat, i as nat)),
                failure: None,
            }),
        decreases workers - i,
    {
        proof {
            lemma_running_total(range, workers as nat, i as nat);
        }
        let report: Report = chunks[i].sum();
        match aggregator.accept(report) {
            Ok(()) => {},
            Err(error) => {
                proof {
                    assert(first_excess(range, workers as nat, i as nat));
                    let chosen: nat = choose|chunk: nat| first_excess(range, workers as nat, chunk);
                    lemma_first_excess_unique(range, workers as nat, i as nat, chosen);
                }
                return Err(error);
            },
        }
        i = i + 1;
    }
    proof {
        lemma_running_total(range, workers as nat, 0);
    }
    aggregator.finish()
}

/// The sum of the range `[0, m)` comes out as `m * (m - 1) / 2`, whatever the
/// number of workers, if that is a `u64`; if it is none, the reduction fails.
pub proof fn lemma_reduce_closed_form(m: u64, workers: usize)
    requires
        workers >= 1,
    ensures
        m * (m - 1) / 2 <= u64::MAX ==> reduce_spec(Interval { start: 0, end: m }, workers) == Ok::<
            u64,
            ReduceError,
        >((m * (m - 1) / 2) as u64),
        m * (m - 1) / 2 > u64::MAX ==> reduce_spec(Interval { start: 0, end: m }, workers) is Err,
{
    lemma_range_sum_closed_form(0, m as int);
    lemma_range_sum_monotone(0, 0, m as int);
}

/// The number of workers does not change the final result: with any number of
/// them the reduction succeeds exactly when a single worker succeeds, and
/// then with the same sum.
pub proof fn lemma_worker_count_irrelevant(range: Interval, workers: usize)
    requires
        workers >= 1,
    ensures
        reduce_spec(range, workers) is Ok <==> reduce_spec(range, 1) is Ok,
        reduce_spec(range, workers) is Ok ==> reduce_spec(range, workers) == reduce_spec(range, 1),
{
}

/// The reports of the workers of `chunks`, in the order of the chunks.
pub open spec fn reports_of(chunks: Seq<Chunk>) -> Seq<Report> {
    chunks.map_values(|chunk: Chunk| chunk.report())
}

/// Where the first `count` chunks of a split all have a partial sum, these
/// partial sums add up to the running total: no number of the range is summed
/// twice and none is left out.
pub proof fn lemma_partials_of_chunks(range: Interval, workers: nat, count: nat)
    requires
        1 <= workers,
        count <= workers,
        all_partials(reports_of(partition_spec(range, workers)).take(count as int)),
    ensures
        partials_total(reports_of(partition_spec(range, workers)).take(count as int))
            == running_total(range, workers, count),
    decreases count,
{
    let reports: Seq<Report> = reports_of(partition_spec(range, workers));
    if count > 0 {
        let fewer: nat = (count - 1) as nat;
        assert(reports.take(count as int).drop_last() =~= reports.take(fewer as int));
        assert forall|i: int| 0 <= i < fewer implies (#[trigger] reports.take(fewer as int)[i])
            is Ok by {
            assert(reports.take(count as int)[i] is Ok);
        }
        lemma_partials_of_chunks(range, workers, fewer);
        lemma_running_total(range, workers, fewer);
        assert(reports.take(count as int).last() == chunk_at(range, workers, fewer).report());
        assert(reports.take(count as int)[fewer as int] is Ok);
    } else {
        lemma_boundary_step(range, workers, 0);
    }
}

/// However the workers are scheduled, the result is the same: where every
/// worker of a split hands in its partial sum, in whatever order, the outcome
/// is the exact sum of the range, or the overflow of the total where that sum
/// is no `u64`.
pub proof fn lemma_any_arrival_order(range: Interval, workers: usize, arrived: Seq<Report>)
    requires
        workers >= 1,
        all_partials(arrived),
        arrived.to_multiset() == reports_of(partition_spec(range, workers as nat)).to_multiset(),
    ensures
        run(workers, arrived).outcome() == if range.sum() <= u64::MAX {
            Ok::<u64, ReduceError>(range.sum() as u64)
        } else {
            Err(ReduceError::TotalOverflow)
        },
        run(workers, arrived).outcome() is Ok ==> run(workers, arrived).outcome() == reduce_spec(
            range,
            workers,
        ),
{
    let in_order: Seq<Report> = reports_of(partition_spec(range, workers as nat));
    arrived.to_multiset_ensures();
    in_order.to_multiset_ensures();
    assert forall|i: int| 0 <= i < in_order.len() implies (#[trigger] in_order[i]) is Ok by {
        assert(in_order.contains(in_order[i]));
        assert(in_order.to_multiset().count(in_order[i]) > 0);
        assert(arrived.to_multiset().count(in_order[i]) > 0);
        assert(arrived.contains(in_order[i]));
    }
    lemma_arrival_order_irrelevant(workers, arrived, in_order);
    lemma_outcome_of_partials(workers, in_order);
    assert(in_order.take(workers as int) =~= in_order);
    lemma_partials_of_chunks(range, workers as nat, workers as nat);
    lemma_running_total(range, workers as nat, 0);
}

} // verus!
