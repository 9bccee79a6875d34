//! Half-open ranges of unsigned integers and the mathematics of their sums.

use vstd::prelude::*;

verus! {

/// The sum of every integer `x` with `lo <= x < hi`; zero where there is none.
pub open spec fn range_sum(lo: int, hi: int) -> int
    decreases hi - lo,
{
    if lo >= hi {
        0
    } else {
        range_sum(lo, hi - 1) + (hi - 1)
    }
}

/// Summing `[lo, hi)` is summing `[lo, mid)` and `[mid, hi)` apart.
pub proof fn lemma_range_sum_split(lo: int, mid: int, hi: int)
    requires
        lo <= mid <= hi,
    ensures
        range_sum(lo, hi) == range_sum(lo, mid) + range_sum(mid, hi),
    decreases hi - mid,
{
    if mid < hi {
        lemma_range_sum_split(lo, mid, hi - 1);
    }
}

/// Gauss's formula: twice the sum of `[lo, hi)` is the count of its members
/// times the sum of its least and its greatest.
pub proof fn lemma_range_sum_closed_form(lo: int, hi: int)
    requires
        lo <= hi,
    ensures
        2 * range_sum(lo, hi) == (hi - lo) * (lo + hi - 1),
    decreases hi - lo,
{
    if lo < hi {
        lemma_range_sum_closed_form(lo, hi - 1);
        assert((hi - lo) * (lo + hi - 1) == (hi - 1 - lo) * (lo + hi - 2) + 2 * (hi - 1))
            by (nonlinear_arith);
    } else {
        assert((hi - lo) * (lo + hi - 1) == 0) by (nonlinear_arith)
            requires
                hi - lo == 0,
        ;
    }
}

/// Over natural numbers a longer range never sums to less.
pub proof fn lemma_range_sum_monotone(lo: int, mid: int, hi: int)
    requires
        0 <= lo,
        mid <= hi,
    ensures
        0 <= range_sum(lo, mid) <= range_sum(lo, hi),
    decreases hi - lo,
{
    if lo < mid {
        if mid < hi {
            lemma_range_sum_monotone(lo, mid, hi - 1);
        } else {
            lemma_range_sum_monotone(lo, mid - 1, hi - 1);
        }
    } else if lo < hi {
        lemma_range_sum_monotone(lo, mid, hi - 1);
    }
}

/// The numbers `start, start + 1, .., end - 1`. A range whose `end` does not
/// exceed its `start` is empty.
#[derive(Clone, Copy, Debug, PartialEq, Eq, Structural)]
pub struct Interval {
    pub start: u64,
    pub end: u64,
}

impl Interval {
    /// Whether `x` is one of the numbers of the range.
    pub open spec fn contains(self, x: int) -> bool {
        self.start <= x < self.end
    }

    /// How many numbers the range holds.
    pub open spec fn size(self) -> nat {
        if self.start <= self.end {
            (self.end - self.start) as nat
        } else {
            0
        }
    }

    /// The exact sum of the numbers of the range, as a mathematical integer.
    pub open spec fn sum(self) -> int {
        range_sum(self.start as int, self.end as int)
    }

    /// How many numbers the range holds.
    pub fn len(&self) -> (n: u64)
        ensures
            n == self.size(),
    {
        if self.start <= self.end {
            self.end - self.start
        } else {
            0
        }
    }

    /// The sum of the numbers of the range, or `None` where it exceeds
    /// `u64::MAX`. Each number is added in turn with an overflow check.
    pub fn checked_sum(&self) -> (total: Option<u64>)
        ensures
            total == fit(self.sum()),
    {
        let mut acc: u64 = 0;
        let mut next: u64 = self.start;
        while next < self.end
            invariant
                self.start <= next,
                next <= self.end || next == self.start,
                acc == range_sum(self.start as int, next as int),
            decreases self.end - next,
        {
            match acc.checked_add(next) {
                Some(more) => {
                    acc = more;
                },
                None => {
                    proof {
                        lemma_range_sum_monotone(self.start as int, next + 1, self.end as int);
                    }
                    return None;
                },
            }
            next = next + 1;
        }
        Some(acc)
    }
}

/// A mathematical sum as a `u64`, where it is one.
pub open spec fn fit(total: int) -> Option<u64> {
    if 0 <= total <= u64::MAX {
        Some(total as u64)
    } else {
        None
    }
}

} // verus!
