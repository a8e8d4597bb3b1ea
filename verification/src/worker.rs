//! One worker of the aggregation: what it does with each answer of the
//! queue it polls, and how the workers' shares become the result of the run.
//!
//! The library decides, the caller acts. The caller polls the shared queue
//! without blocking, hands the answer to [`Worker::step`], and does what
//! comes back: poll again, sleep a moment and poll again, or stop. A worker
//! keeps its statistics to itself until it has stopped; the shares are
//! merged afterwards, by one thread, with
//! [`merge_partial_results`].

use crate::compression::{compress_size, compressed_len};
use crate::label::Name;
use crate::prefix::{categorize_prefix, classify, CategorizedKey, IndexMap, KeyClass, PrefixIndex};
use crate::stats::StatsMap;
use crate::totals::{
    aggregate, aggregate_parts, fits, lemma_partition_independent, merge, record, CategoryTotals,
    Sample, Totals,
};
use vstd::prelude::*;

verus! {

/// How many records the queue between the producer and the workers holds.
pub const QUEUE_CAPACITY: usize = 102_400;

/// How long, in milliseconds, a worker sleeps after it found the queue
/// empty.
pub const BACKOFF_MILLIS: u64 = 1;

/// The size of the pool: one worker for each unit of parallelism that the
/// machine offers, and never fewer than two.
pub fn worker_count(available: usize) -> (workers: usize)
    ensures
        workers == if available >= 2 {
            available
        } else {
            2
        },
{
    if available >= 2 {
        available
    } else {
        2
    }
}

/// What a poll of the queue answered.
#[derive(Debug)]
pub enum Polled {
    /// A record: its key and its value.
    Record(Vec<u8>, Vec<u8>),
    /// The mark that the producer puts behind the last record.
    End,
    /// Nothing now; the producer is still there.
    Empty,
    /// Nothing ever again: the producer has gone.
    Closed,
}

/// What the caller does next.
#[derive(Debug, Clone, Copy, PartialEq, Eq, Structural)]
pub enum Next {
    /// Poll again at once.
    Poll,
    /// Sleep for [`BACKOFF_MILLIS`], then poll again.
    Backoff,
    /// Stop polling: the worker is done.
    Stop,
}

/// Where a worker stands.
#[derive(Debug, Clone, Copy, PartialEq, Eq, Structural)]
pub enum WorkerState {
    /// Polling the queue.
    Running,
    /// Stopped after the queue ended; the share is complete.
    Terminated,
    /// Stopped because a sum could not be held; the share is void.
    Aborted,
}

/// A worker that did not reach the end of the queue.
#[derive(Debug, Clone, Copy, PartialEq, Eq, Structural)]
pub struct WorkerAborted;

/// What a record adds to the statistics, given what its key was classified
/// as and the sizes of key and value, plain and compressed.
pub open spec fn sample_of(
    class: KeyClass,
    key_len: nat,
    value_len: nat,
    compressed_key_len: nat,
    compressed_value_len: nat,
) -> Sample {
    Sample {
        category: class.category(),
        item: class.item(),
        key_len,
        value_len,
        compressed_key_len,
        compressed_value_len,
    }
}

/// What the record `(key, value)` adds to the statistics under `index`.
pub open spec fn sample_of_record(index: IndexMap, key: Seq<u8>, value: Seq<u8>) -> Sample {
    sample_of(
        classify(index, key),
        key.len(),
        value.len(),
        compressed_len(key),
        compressed_len(value),
    )
}

/// One worker: its state and its share of the statistics.
#[derive(Debug)]
pub struct Worker {
    state: WorkerState,
    stats: StatsMap,
}

impl Worker {
    /// The share is well formed.
    pub closed spec fn wf(&self) -> bool {
        self.stats.wf()
    }

    /// Where the worker stands.
    pub closed spec fn state(&self) -> WorkerState {
        self.state
    }

    /// What the worker has counted.
    pub closed spec fn share(&self) -> Totals {
        self.stats@
    }

    /// A worker that is about to poll for the first time.
    pub fn new() -> (worker: Worker)
        ensures
            worker.wf(),
            worker.state() == WorkerState::Running,
            worker.share() == Map::<Name, CategoryTotals>::empty(),
    {
        Worker { state: WorkerState::Running, stats: StatsMap::new() }
    }

    /// Where the worker stands.
    pub fn current_state(&self) -> (state: WorkerState)
        ensures
            state == self.state(),
    {
        self.state
    }

    /// Counts one classified record, the sizes given. A running worker
    /// counts it and polls on; where a sum would leave `usize` it aborts
    /// with its share untouched. A worker that has stopped counts nothing.
    pub fn count(
        &mut self,
        class: &CategorizedKey,
        key_len: usize,
        value_len: usize,
        compressed_key_len: usize,
        compressed_value_len: usize,
    ) -> (next: Next)
        requires
            old(self).wf(),
        ensures
            final(self).wf(),
            ({
                let s = sample_of(
                    class@,
                    key_len as nat,
                    value_len as nat,
                    compressed_key_len as nat,
                    compressed_value_len as nat,
                );
                if old(self).state() != WorkerState::Running {
                    &&& next == Next::Stop
                    &&& final(self).state() == old(self).state()
                    &&& final(self).share() == old(self).share()
                } else if fits(record(old(self).share(), s)) {
                    &&& next == Next::Poll
                    &&& final(self).state() == WorkerState::Running
                    &&& final(self).share() == record(old(self).share(), s)
                } else {
                    &&& next == Next::Stop
                    &&& final(self).state() == WorkerState::Aborted
                    &&& final(self).share() == old(self).share()
                }
            }),
    {
        match self.state {
            WorkerState::Running => {},
            _ => {
                return Next::Stop;
            },
        }
        let category = class.category();
        let item = class.item();
        match self.stats.record(
            &category,
            &item,
            key_len,
            value_len,
            compressed_key_len,
            compressed_value_len,
        ) {
            Ok(()) => Next::Poll,
            Err(_) => {
                self.state = WorkerState::Aborted;
                Next::Stop
            },
        }
    }

    /// Takes one answer of the queue. A record is classified by its key,
    /// measured, and counted as [`Worker::count`] says. The end mark and a
    /// closed queue terminate the worker. An empty queue changes nothing:
    /// the caller sleeps a moment and polls again. A worker that has
    /// stopped stays as it is, whatever the answer.
    pub fn step(&mut self, polled: Polled, lookup: &PrefixIndex) -> (next: Next)
        requires
            old(self).wf(),
            lookup.wf(),
        ensures
            final(self).wf(),
            old(self).state() != WorkerState::Running ==> {
                &&& next == Next::Stop
                &&& final(self).state() == old(self).state()
                &&& final(self).share() == old(self).share()
            },
            old(self).state() == WorkerState::Running ==> match polled {
                Polled::Record(key, value) => {
                    let s = sample_of_record(lookup@, key@, value@);
                    if fits(record(old(self).share(), s)) {
                        &&& next == Next::Poll
                        &&& final(self).state() == WorkerState::Running
                        &&& final(self).share() == record(old(self).share(), s)
                    } else {
                        &&& next == Next::Stop
                        &&& final(self).state() == WorkerState::Aborted
                        &&& final(self).share() == old(self).share()
                    }
                },
                Polled::End | Polled::Closed => {
                    &&& next == Next::Stop
                    &&& final(self).state() == WorkerState::Terminated
                    &&& final(self).share() == old(self).share()
                },
                Polled::Empty => {
                    &&& next == Next::Backoff
                    &&& final(self).state() == WorkerState::Running
                    &&& final(self).share() == old(self).share()
                },
            },
    {
        match self.state {
            WorkerState::Running => {},
            _ => {
                return Next::Stop;
            },
        }
        match polled {
            Polled::Record(key, value) => {
                let class = categorize_prefix(key.as_slice(), lookup);
                let compressed_key_len = compress_size(key.as_slice());
                let compressed_value_len = compress_size(value.as_slice());
                self.count(
                    &class,
                    key.len(),
                    value.len(),
                    compressed_key_len,
                    compressed_value_len,
                )
            },
            Polled::End => {
                self.state = WorkerState::Terminated;
                Next::Stop
            },
            Polled::Closed => {
                self.state = WorkerState::Terminated;
                Next::Stop
            },
            Polled::Empty => Next::Backoff,
        }
    }

    /// The worker's share, once it has terminated. A worker that aborted,
    /// or that was stopped while it was still running, has no share to
    /// give.
    pub fn finish(self) -> (share: Result<StatsMap, WorkerAborted>)
        requires
            self.wf(),
        ensures
            share is Ok <==> self.state() == WorkerState::Terminated,
            share matches Ok(stats) ==> stats.wf() && stats@ == self.share(),
    {
        match self.state {
            WorkerState::Terminated => Ok(self.stats),
            _ => Err(WorkerAborted),
        }
    }
}

/// Why a run gave no result.
#[derive(Debug, Clone, Copy, PartialEq, Eq, Structural)]
pub enum RunError {
    /// The worker at this position did not terminate.
    WorkerAborted(usize),
    /// The shares could not be merged within `usize`.
    Overflow,
}

/// A worker's outcome as a value of the model: its share, or nothing.
pub open spec fn outcome_view(outcome: Result<StatsMap, WorkerAborted>) -> Option<Totals> {
    match outcome {
        Ok(stats) => Some(stats@),
        Err(_) => None,
    }
}

/// The outcomes of a run of workers as values of the model.
pub open spec fn outcome_views(outcomes: Seq<Result<StatsMap, WorkerAborted>>) -> Seq<
    Option<Totals>,
> {
    Seq::new(outcomes.len(), |i: int| outcome_view(outcomes[i]))
}

/// The result of merging the first `upto` outcomes in their order: the
/// merge of the shares, unless one of the workers gave none or a sum left
/// `usize`; then whatever went wrong first.
pub open spec fn merged_upto(outcomes: Seq<Option<Totals>>, upto: nat) -> Result<Totals, RunError>
    decreases upto,
{
    if upto == 0 {
        Ok(Map::empty())
    } else {
        match merged_upto(outcomes, (upto - 1) as nat) {
            Err(error) => Err(error),
            Ok(sofar) => match outcomes[upto - 1] {
                None => Err(RunError::WorkerAborted((upto - 1) as usize)),
                Some(share) => if fits(merge(sofar, share)) {
                    Ok(merge(sofar, share))
                } else {
                    Err(RunError::Overflow)
                },
            },
        }
    }
}

/// Merges the shares of all workers into the result of the run. The shares
/// are taken in their order; a worker that gave none fails the run, so that
/// no result is ever made of a part of the records.
pub fn merge_partial_results(outcomes: Vec<Result<StatsMap, WorkerAborted>>) -> (merged: Result<
    StatsMap,
    RunError,
>)
    requires
        forall|i: int| 0 <= i < outcomes@.len() ==> (#[trigger] outcomes@[i] matches Ok(stats)
            ==> stats.wf()),
    ensures
        match merged {
            Ok(all) => all.wf() && merged_upto(outcome_views(outcomes@), outcomes@.len()) == Ok::<
                Totals,
                RunError,
            >(all@),
            Err(error) => merged_upto(outcome_views(outcomes@), outcomes@.len()) == Err::<
                Totals,
                RunError,
            >(error),
        },
{
    let ghost views = outcome_views(outcomes@);
    let mut all = StatsMap::new();
    let mut i: usize = 0;
    while i < outcomes.len()
        invariant
            i <= outcomes@.len(),
            views == outcome_views(outcomes@),
            forall|j: int| 0 <= j < outcomes@.len() ==> (#[trigger] outcomes@[j] matches Ok(stats)
                ==> stats.wf()),
            all.wf(),
            merged_upto(views, i as nat) == Ok::<Totals, RunError>(all@),
        decreases outcomes@.len() - i,
    {
        proof {
            assert(views[i as int] == outcome_view(outcomes@[i as int]));
        }
        match &outcomes[i] {
            Ok(share) => {
                match all.merge(share) {
                    Ok(merged) => {
                        all = merged;
                    },
                    Err(_) => {
                        proof {
                            lemma_merged_upto_sticky(views, (i + 1) as nat, outcomes@.len());
                        }
                        return Err(RunError::Overflow);
                    },
                }
            },
            Err(_) => {
                proof {
                    lemma_merged_upto_sticky(views, (i + 1) as nat, outcomes@.len());
                }
                return Err(RunError::WorkerAborted(i));
            },
        }
        i += 1;
    }
    Ok(all)
}

/// Once the merge has failed it stays failed, with the same error.
pub proof fn lemma_merged_upto_sticky(outcomes: Seq<Option<Totals>>, failed: nat, upto: nat)
    requires
        failed <= upto,
        merged_upto(outcomes, failed) is Err,
    ensures
        merged_upto(outcomes, upto) == merged_upto(outcomes, failed),
    decreases upto,
{
    if failed < upto {
        lemma_merged_upto_sticky(outcomes, failed, (upto - 1) as nat);
    }
}

/// The outcomes of workers that all terminated, each with the statistics
/// of the records it saw.
pub open spec fn shares_of(parts: Seq<Seq<Sample>>) -> Seq<Option<Totals>> {
    Seq::new(parts.len(), |i: int| Some(aggregate(parts[i])))
}

/// Where all workers terminated and the merge succeeds, its result is the
/// merge of the statistics of their shares.
pub proof fn lemma_merged_shares(parts: Seq<Seq<Sample>>, upto: nat)
    requires
        upto <= parts.len(),
        merged_upto(shares_of(parts), upto) is Ok,
    ensures
        merged_upto(shares_of(parts), upto) == Ok::<Totals, RunError>(
            aggregate_parts(parts.take(upto as int)),
        ),
    decreases upto,
{
    if upto > 0 {
        let before = (upto - 1) as nat;
        lemma_merged_shares(parts, before);
        assert(parts.take(upto as int).drop_last() =~= parts.take(before as int));
        assert(parts.take(upto as int).last() == parts[before as int]);
    }
}

/// However the records of a scan were split among the workers, and in
/// whatever order each worker met its records, a run that succeeds gives
/// the statistics of the whole set of records.
pub proof fn lemma_run_is_partition_independent(whole: Seq<Sample>, parts: Seq<Seq<Sample>>)
    requires
        parts.flatten().to_multiset() == whole.to_multiset(),
        merged_upto(shares_of(parts), parts.len()) is Ok,
    ensures
        merged_upto(shares_of(parts), parts.len()) == Ok::<Totals, RunError>(aggregate(whole)),
{
    lemma_merged_shares(parts, parts.len());
    assert(parts.take(parts.len() as int) =~= parts);
    lemma_partition_independent(whole, parts);
}

} // verus!
