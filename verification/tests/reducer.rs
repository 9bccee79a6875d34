use range_sum::aggregate::aggregate;
use range_sum::error::ReduceError;
use range_sum::partition::{partition, Chunk};
use range_sum::range::Interval;
use range_sum::reduce::reduce;

const HALF: u64 = 1 << 63;

fn spans(chunks: &[Chunk]) -> Vec<(u64, u64)> {
    chunks.iter().map(|chunk| (chunk.span.start, chunk.span.end)).collect()
}

#[test]
fn thirty_numbers_by_three_workers() {
    let chunks = partition(Interval { start: 0, end: 30 }, 3);
    assert_eq!(spans(&chunks), vec![(0, 10), (10, 20), (20, 30)]);
    let partials: Vec<Result<u64, ReduceError>> = chunks.iter().map(|c| c.sum()).collect();
    assert_eq!(partials, vec![Ok(45), Ok(145), Ok(245)]);
    assert_eq!(aggregate(3, &partials), Ok(435));
    assert_eq!(reduce(Interval { start: 0, end: 30 }, 3), Ok(435));
}

#[test]
fn sum_from_zero_meets_the_closed_form() {
    for m in 0u64..120 {
        for workers in 1usize..=9 {
            let expected = if m == 0 { 0 } else { m * (m - 1) / 2 };
            assert_eq!(reduce(Interval { start: 0, end: m }, workers), Ok(expected));
        }
    }
    assert_eq!(reduce(Interval { start: 0, end: 100_000 }, 8), Ok(4_999_950_000));
}

#[test]
fn sum_of_a_range_that_starts_above_zero() {
    assert_eq!(reduce(Interval { start: 10, end: 20 }, 4), Ok(145));
    assert_eq!(Interval { start: 10, end: 20 }.checked_sum(), Some(145));
    assert_eq!(Interval { start: 7, end: 8 }.checked_sum(), Some(7));
}

#[test]
fn chunks_are_numbered_in_order() {
    let chunks = partition(Interval { start: 5, end: 50 }, 7);
    assert_eq!(chunks.len(), 7);
    for (i, chunk) in chunks.iter().enumerate() {
        assert_eq!(chunk.index, i);
    }
}

#[test]
fn partition_covers_every_number_once() {
    let cases: Vec<(u64, u64, usize)> = vec![
        (0, 30, 3),
        (0, 10, 3),
        (0, 3, 5),
        (0, 0, 4),
        (17, 100, 1),
        (17, 100, 6),
        (u64::MAX - 9, u64::MAX, 4),
    ];
    for (start, end, workers) in cases {
        let range = Interval { start, end };
        let chunks = partition(range, workers);
        assert_eq!(chunks.len(), workers);
        assert_eq!(chunks[0].span.start, start);
        assert_eq!(chunks[workers - 1].span.end, end);
        for pair in chunks.windows(2) {
            assert_eq!(pair[0].span.end, pair[1].span.start);
        }
        for x in start..end {
            let holders = chunks
                .iter()
                .filter(|chunk| chunk.span.start <= x && x < chunk.span.end)
                .count();
            assert_eq!(holders, 1);
        }
        let covered: u64 = chunks.iter().map(|chunk| chunk.span.len()).sum();
        assert_eq!(covered, range.len());
    }
}

#[test]
fn chunk_sizes_differ_by_at_most_one() {
    let chunks = partition(Interval { start: 0, end: 10 }, 3);
    assert_eq!(spans(&chunks), vec![(0, 4), (4, 7), (7, 10)]);
    let chunks = partition(Interval { start: 100, end: 111 }, 4);
    assert_eq!(spans(&chunks), vec![(100, 103), (103, 106), (106, 109), (109, 111)]);
}

#[test]
fn more_workers_than_numbers_leaves_empty_chunks() {
    let chunks = partition(Interval { start: 0, end: 3 }, 5);
    assert_eq!(spans(&chunks), vec![(0, 1), (1, 2), (2, 3), (3, 3), (3, 3)]);
    assert_eq!(chunks[4].sum(), Ok(0));
    assert_eq!(reduce(Interval { start: 0, end: 3 }, 5), Ok(3));
}

#[test]
fn a_range_that_ends_before_it_starts_is_empty() {
    let range = Interval { start: 9, end: 4 };
    assert_eq!(range.len(), 0);
    assert_eq!(range.checked_sum(), Some(0));
    assert_eq!(spans(&partition(range, 2)), vec![(9, 9), (9, 9)]);
    assert_eq!(reduce(range, 2), Ok(0));
}

#[test]
fn interval_length() {
    assert_eq!(Interval { start: 3, end: 10 }.len(), 7);
    assert_eq!(Interval { start: 0, end: u64::MAX }.len(), u64::MAX);
    assert_eq!(Interval { start: 4, end: 4 }.len(), 0);
}

#[test]
fn single_worker_and_many_workers_agree() {
    let ranges = vec![(0u64, 1000u64), (250, 777), (0, 1), (0, 0), (HALF - 2, HALF)];
    for (start, end) in ranges {
        let range = Interval { start, end };
        let alone = reduce(range, 1);
        assert!(alone.is_ok());
        for workers in 2usize..12 {
            assert_eq!(reduce(range, workers), alone);
        }
    }
}

#[test]
fn many_workers_fail_where_a_single_worker_fails() {
    let range = Interval { start: HALF, end: HALF + 2 };
    assert!(reduce(range, 1).is_err());
    assert!(reduce(range, 2).is_err());
    assert!(reduce(range, 3).is_err());
}
