//! Collecting the workers' reports into the final sum.
//!
//! The aggregator is a small state machine. Whoever owns the result channel
//! feeds it each report as it arrives and asks for the outcome once the
//! channel has closed; the aggregator itself never waits for anything.

use crate::error::ReduceError;
use crate::range::fit;
use vstd::prelude::*;
use vstd::seq_lib::lemma_fold_left_permutation;

verus! {

/// What one worker hands in: its partial sum, or why it has none.
pub type Report = Result<u64, ReduceError>;

/// The state of an aggregation.
pub struct Tally {
    /// How many chunks were handed out.
    pub expected: usize,
    /// How many partial sums came in, counted up to `expected`.
    pub received: usize,
    /// Whether a partial sum came in after the expected ones.
    pub surplus: bool,
    /// The sum of all partial sums that came in, `None` once it exceeds `u64::MAX`.
    pub total: Option<u64>,
    /// The first failure that a worker reported.
    pub failure: Option<ReduceError>,
}

impl Tally {
    /// Before any report: nothing received, the total zero.
    pub open spec fn start(expected: usize) -> Tally {
        Tally { expected, received: 0, surplus: false, total: Some(0), failure: None }
    }

    /// The state after one more report. A failure is kept if it is the first;
    /// a partial sum is counted and added, whatever came before.
    pub open spec fn step(self, report: Report) -> Tally {
        match report {
            Err(error) => Tally {
                failure: if self.failure is None {
                    Some(error)
                } else {
                    self.failure
                },
                ..self
            },
            Ok(partial) => Tally {
                received: if self.received < self.expected {
                    (self.received + 1) as usize
                } else {
                    self.received
                },
                surplus: self.surplus || self.received >= self.expected,
                total: match self.total {
                    Some(so_far) => fit(so_far + partial),
                    None => None,
                },
                ..self
            },
        }
    }

    /// Whether the aggregation can still succeed. Once it cannot, it never can
    /// again: the error says why, a worker's failure before a surplus, a
    /// surplus before an overflow of the total.
    pub open spec fn status(self) -> Result<(), ReduceError> {
        if let Some(error) = self.failure {
            Err(error)
        } else if self.surplus {
            Err(ReduceError::SurplusResult { expected: self.expected })
        } else if self.total is None {
            Err(ReduceError::TotalOverflow)
        } else {
            Ok(())
        }
    }

    /// The result once the channel has closed: the total, if the status is
    /// good and every expected partial sum came in.
    pub open spec fn outcome(self) -> Result<u64, ReduceError> {
        match self.status() {
            Err(error) => Err(error),
            Ok(()) => if self.received < self.expected {
                Err(
                    ReduceError::MissingResults {
                        expected: self.expected,
                        received: self.received,
                    },
                )
            } else {
                Ok(self.total->0)
            },
        }
    }
}

/// The state after `reports` came in, in this order, from the start.
pub open spec fn run(expected: usize, reports: Seq<Report>) -> Tally {
    reports.fold_left(Tally::start(expected), |tally: Tally, report: Report| tally.step(report))
}

/// The partial sum that a report carries; a failure carries none.
pub open spec fn partial_of(report: Report) -> int {
    match report {
        Ok(partial) => partial as int,
        Err(_) => 0,
    }
}

/// The exact sum of the partial sums among `reports`.
pub open spec fn partials_total(reports: Seq<Report>) -> int {
    reports.fold_left(0int, |so_far: int, report: Report| so_far + partial_of(report))
}

/// Every report is a partial sum: no worker failed.
pub open spec fn all_partials(reports: Seq<Report>) -> bool {
    forall|i: int| 0 <= i < reports.len() ==> (#[trigger] reports[i]) is Ok
}

/// The collector of the workers' reports.
pub struct Aggregator {
    expected: usize,
    received: usize,
    surplus: bool,
    total: Option<u64>,
    failure: Option<ReduceError>,
}

impl View for Aggregator {
    type V = Tally;

    closed spec fn view(&self) -> Tally {
        Tally {
            expected: self.expected,
            received: self.received,
            surplus: self.surplus,
            total: self.total,
            failure: self.failure,
        }
    }
}

impl Aggregator {
    /// An aggregator that waits for the partial sums of `expected` chunks.
    pub fn new(expected: usize) -> (aggregator: Aggregator)
        ensures
            aggregator@ == Tally::start(expected),
    {
        Aggregator { expected, received: 0, surplus: false, total: Some(0), failure: None }
    }

    /// Takes in one report and says whether the aggregation can still succeed.
    pub fn accept(&mut self, report: Report) -> (status: Result<(), ReduceError>)
        ensures
            final(self)@ == old(self)@.step(report),
            status == final(self)@.status(),
    {
        match report {
            Err(error) => {
                if self.failure.is_none() {
                    self.failure = Some(error);
                }
            },
            Ok(partial) => {
                if self.received < self.expected {
                    self.received = self.received + 1;
                } else {
                    self.surplus = true;
                }
                self.total = match self.total {
                    Some(so_far) => so_far.checked_add(partial),
                    None => None,
                };
            },
        }
        self.status()
    }

    /// Whether the aggregation can still succeed.
    pub fn status(&self) -> (status: Result<(), ReduceError>)
        ensures
            status == self@.status(),
    {
        match self.failure {
            Some(error) => Err(error),
            None => if self.surplus {
                Err(ReduceError::SurplusResult { expected: self.expected })
            } else if self.total.is_none() {
                Err(ReduceError::TotalOverflow)
            } else {
                Ok(())
            },
        }
    }

    /// Ends the aggregation, when the result channel has closed: the final sum,
    /// or the reason why there is none.
    pub fn finish(self) -> (outcome: Result<u64, ReduceError>)
        ensures
            outcome == self@.outcome(),
    {
        match self.status() {
            Err(error) => Err(error),
            Ok(()) => if self.received < self.expected {
                Err(
                    ReduceError::MissingResults {
                        expected: self.expected,
                        received: self.received,
                    },
                )
            } else {
                match self.total {
                    Some(total) => Ok(total),
                    None => Err(ReduceError::TotalOverflow),
                }
            },
        }
    }
}

/// Aggregates reports that are all at hand, in the order of the vector.
pub fn aggregate(expected: usize, reports: &Vec<Report>) -> (outcome: Result<u64, ReduceError>)
    ensures
        outcome == run(expected, reports@).outcome(),
{
    let mut aggregator: Aggregator = Aggregator::new(expected);
    let mut i: usize = 0;
    while i < reports.len()
        invariant
            i <= reports.len(),
            aggregator@ == run(expected, reports@.take(i as int)),
        decreases reports.len() - i,
    {
        proof {
            assert(reports@.take(i + 1).drop_last() =~= reports@.take(i as int));
        }
        let _ = aggregator.accept(reports[i]);
        i = i + 1;
    }
    proof {
        assert(reports@.take(i as int) =~= reports@);
    }
    aggregator.finish()
}

/// The exact sum of partial sums is never negative.
pub proof fn lemma_partials_total_nonnegative(reports: Seq<Report>)
    ensures
        0 <= partials_total(reports),
    decreases reports.len(),
{
    if reports.len() > 0 {
        lemma_partials_total_nonnegative(reports.drop_last());
    }
}

/// After partial sums alone the aggregator holds their count, up to the
/// expected one, and their exact total, as far as a `u64` can: nothing of the
/// order in which they came.
pub proof fn lemma_run_of_partials(expected: usize, reports: Seq<Report>)
    requires
        all_partials(reports),
    ensures
        run(expected, reports) == (Tally {
            expected,
            received: if reports.len() < expected {
                reports.len() as usize
            } else {
                expected
            },
            surplus: reports.len() > expected,
            total: fit(partials_total(reports)),
            failure: None,
        }),
    decreases reports.len(),
{
    if reports.len() > 0 {
        let front: Seq<Report> = reports.drop_last();
        assert(reports.last() is Ok);
        lemma_run_of_partials(expected, front);
        lemma_partials_total_nonnegative(front);
    }
}

/// The outcome of an aggregation of partial sums alone: their total, if
/// exactly the expected number came in and the total is a `u64`.
pub proof fn lemma_outcome_of_partials(expected: usize, reports: Seq<Report>)
    requires
        all_partials(reports),
    ensures
        run(expected, reports).outcome() == if reports.len() > expected {
            Err::<u64, ReduceError>(ReduceError::SurplusResult { expected })
        } else if partials_total(reports) > u64::MAX {
            Err(ReduceError::TotalOverflow)
        } else if reports.len() < expected {
            Err(ReduceError::MissingResults { expected, received: reports.len() as usize })
        } else {
            Ok(partials_total(reports) as u64)
        },
{
    lemma_run_of_partials(expected, reports);
    lemma_partials_total_nonnegative(reports);
}

/// The order in which the partial sums arrive does not matter: two arrival
/// orders of the same partial sums leave the aggregator in the same state, and
/// so with the same final result.
pub proof fn lemma_arrival_order_irrelevant(
    expected: usize,
    first: Seq<Report>,
    second: Seq<Report>,
)
    requires
        all_partials(first),
        all_partials(second),
        first.to_multiset() == second.to_multiset(),
    ensures
        run(expected, first) == run(expected, second),
        run(expected, first).outcome() == run(expected, second).outcome(),
{
    lemma_run_of_partials(expected, first);
    lemma_run_of_partials(expected, second);
    first.to_multiset_ensures();
    second.to_multiset_ensures();
    lemma_fold_left_permutation::<Report, int>(
        first,
        second,
        |so_far: int, report: Report| so_far + partial_of(report),
        0int,
    );
}

} // verus!
