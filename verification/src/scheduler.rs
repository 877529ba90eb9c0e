//! Handing out chunks to a bounded number of workers.
//!
//! The scheduler does not run anything. It says which chunk may be sent to
//! the model next, and takes the results as they come back, in any order.
//! At no time are more chunks outstanding than there are workers, and when
//! the scheduler is finished it holds exactly one result for each chunk.

use vstd::prelude::*;
use crate::aggregation::ChunkResult;

verus! {

/// Why a scheduler could not be made.
#[derive(Clone, Copy, Debug, PartialEq, Eq, Structural)]
pub enum SchedulerError {
    /// There is no worker to process anything.
    NoWorkers,
    /// A chunk id occurs twice among the jobs.
    DuplicateJob,
}

/// The state of one pass over a list of chunks.
///
/// `jobs` are the chunk ids to process. The jobs before `next` have been
/// handed out; `in_flight` holds the positions of those that have not come
/// back; `results` holds, by position, what has come back.
pub struct ChunkScheduler {
    pub jobs: Vec<usize>,
    pub max_workers: usize,
    pub next: usize,
    pub in_flight: Vec<usize>,
    pub results: Vec<Option<ChunkResult>>,
}

/// Whether no value occurs twice.
pub open spec fn all_distinct(items: Seq<usize>) -> bool {
    forall|i: int, j: int| 0 <= i < j < items.len() ==> #[trigger] items[i] != #[trigger] items[j]
}

impl ChunkScheduler {
    /// What holds of a scheduler at all times.
    pub open spec fn wf(&self) -> bool {
        &&& self.max_workers >= 1
        &&& self.next <= self.jobs.len()
        &&& self.results.len() == self.jobs.len()
        &&& self.in_flight.len() <= self.max_workers
        &&& all_distinct(self.jobs@)
        &&& all_distinct(self.in_flight@)
        &&& forall|k: int| 0 <= k < self.in_flight.len() ==> (#[trigger] self.in_flight[k]) < self.next
        &&& forall|p: int|
            0 <= p < self.jobs.len() ==> ((#[trigger] self.results[p]) is None <==> (p >= self.next
                || self.in_flight@.contains(p as usize)))
        &&& forall|p: int|
            0 <= p < self.jobs.len() ==> ((#[trigger] self.results[p]) matches Some(r) ==> r.chunk_id
                == self.jobs[p])
    }

    /// The chunk ids that are outstanding.
    pub open spec fn outstanding(&self) -> Seq<usize> {
        Seq::new(self.in_flight@.len(), |k: int| self.jobs[self.in_flight[k] as int])
    }

    /// Whether every job has been handed out and has come back.
    pub open spec fn finished(&self) -> bool {
        self.next == self.jobs.len() && self.in_flight.len() == 0
    }

    /// A scheduler for the chunks `0..total`.
    pub fn new(total: usize, max_workers: usize) -> (r: Result<Self, SchedulerError>)
        ensures
            match r {
                Ok(s) => {
                    &&& s.wf()
                    &&& max_workers >= 1
                    &&& s.max_workers == max_workers
                    &&& s.jobs@ == Seq::new(total as nat, |i: int| i as usize)
                    &&& s.next == 0
                    &&& s.in_flight@.len() == 0
                },
                Err(e) => e == SchedulerError::NoWorkers && max_workers == 0,
            },
    {
        if max_workers == 0 {
            return Err(SchedulerError::NoWorkers);
        }
        let mut jobs: Vec<usize> = Vec::new();
        let mut results: Vec<Option<ChunkResult>> = Vec::new();
        let mut i: usize = 0;
        while i < total
            invariant
                i <= total,
                jobs.len() == i,
                results.len() == i,
                forall|k: int| 0 <= k < i ==> jobs[k] == k,
                forall|k: int| 0 <= k < i ==> (#[trigger] results[k]) is None,
            decreases total - i,
        {
            jobs.push(i);
            results.push(None);
            i = i + 1;
        }
        assert(jobs@ =~= Seq::new(total as nat, |i: int| i as usize));
        Ok(ChunkScheduler { jobs, max_workers, next: 0, in_flight: Vec::new(), results })
    }

    /// A scheduler for the given chunk ids.
    pub fn for_jobs(jobs: Vec<usize>, max_workers: usize) -> (r: Result<Self, SchedulerError>)
        ensures
            match r {
                Ok(s) => {
                    &&& s.wf()
                    &&& max_workers >= 1
                    &&& all_distinct(jobs@)
                    &&& s.max_workers == max_workers
                    &&& s.jobs == jobs
                    &&& s.next == 0
                    &&& s.in_flight@.len() == 0
                },
                Err(SchedulerError::NoWorkers) => max_workers == 0,
                Err(SchedulerError::DuplicateJob) => max_workers >= 1 && !all_distinct(jobs@),
            },
    {
        if max_workers == 0 {
            return Err(SchedulerError::NoWorkers);
        }
        if !no_repeats(&jobs) {
            return Err(SchedulerError::DuplicateJob);
        }
        let mut results: Vec<Option<ChunkResult>> = Vec::new();
        let mut j: usize = 0;
        while j < jobs.len()
            invariant
                j <= jobs.len(),
                results.len() == j,
                forall|k: int| 0 <= k < j ==> (#[trigger] results[k]) is None,
            decreases jobs.len() - j,
        {
            results.push(None);
            j = j + 1;
        }
        Ok(ChunkScheduler { jobs, max_workers, next: 0, in_flight: Vec::new(), results })
    }

    /// The next chunk to send to the model, if a worker is free and a job
    /// is left. The chunk then counts as outstanding.
    pub fn next_dispatch(&mut self) -> (r: Option<usize>)
        requires
            old(self).wf(),
        ensures
            final(self).wf(),
            final(self).jobs == old(self).jobs,
            final(self).max_workers == old(self).max_workers,
            final(self).results == old(self).results,
            match r {
                Some(id) => {
                    &&& old(self).in_flight.len() < old(self).max_workers
                    &&& old(self).next < old(self).jobs.len()
                    &&& id == old(self).jobs[old(self).next as int]
                    &&& final(self).next == old(self).next + 1
                    &&& final(self).in_flight@ == old(self).in_flight@.push(old(self).next)
                },
                None => {
                    &&& old(self).in_flight.len() >= old(self).max_workers || old(self).next
                        >= old(self).jobs.len()
                    &&& final(self).next == old(self).next
                    &&& final(self).in_flight == old(self).in_flight
                },
            },
    {
        if self.in_flight.len() >= self.max_workers || self.next >= self.jobs.len() {
            return None;
        }
        let position = self.next;
        let id = self.jobs[position];
        let ghost before = self.in_flight@;
        self.in_flight.push(position);
        self.next = position + 1;
        proof {
            assert forall|p: int| 0 <= p < self.jobs.len() implies ((#[trigger] self.results[p]) is None <==> (
            p >= self.next || self.in_flight@.contains(p as usize))) by {
                if p == position {
                    assert(self.in_flight@[before.len() as int] == position);
                } else if before.contains(p as usize) {
                    let k = choose|k: int| 0 <= k < before.len() && before[k] == p as usize;
                    assert(self.in_flight@[k] == p as usize);
                } else if self.in_flight@.contains(p as usize) {
                    let k = choose|k: int| 0 <= k < self.in_flight@.len() && self.in_flight@[k] == p as usize;
                    assert(k < before.len());
                    assert(before[k] == p as usize);
                }
            }
        }
        Some(id)
    }

    /// Takes the result of an outstanding chunk. A result for a chunk that
    /// is not outstanding is refused and changes nothing.
    pub fn complete(&mut self, result: ChunkResult) -> (accepted: bool)
        requires
            old(self).wf(),
        ensures
            final(self).wf(),
            final(self).jobs == old(self).jobs,
            final(self).max_workers == old(self).max_workers,
            final(self).next == old(self).next,
            accepted == old(self).outstanding().contains(result.chunk_id),
            accepted ==> exists|k: int|
                0 <= k < old(self).in_flight.len() && old(self).jobs[#[trigger] old(self).in_flight[k] as int]
                    == result.chunk_id && final(self).in_flight@ == old(self).in_flight@.remove(k)
                    && final(self).results@ == old(self).results@.update(
                    old(self).in_flight[k] as int,
                    Some(result),
                ),
            !accepted ==> final(self).in_flight == old(self).in_flight && final(self).results
                == old(self).results,
    {
        let mut k: usize = 0;
        while k < self.in_flight.len() && self.jobs[self.in_flight[k]] != result.chunk_id
            invariant
                self.wf(),
                *self == *old(self),
                k <= self.in_flight.len(),
                forall|l: int| 0 <= l < k ==> self.jobs[self.in_flight[l] as int] != result.chunk_id,
            decreases self.in_flight.len() - k,
        {
            k = k + 1;
        }
        if k >= self.in_flight.len() {
            assert forall|l: int| 0 <= l < self.outstanding().len() implies self.outstanding()[l]
                != result.chunk_id by {}
            return false;
        }
        assert(self.outstanding()[k as int] == result.chunk_id);
        let position = self.in_flight[k];
        let ghost before = self.in_flight@;
        let ghost slots = self.results@;
        self.in_flight.remove(k);
        self.results.set(position, Some(result));
        proof {
            let after = self.in_flight@;
            assert(after == before.remove(k as int));
            assert forall|a: int, b: int| 0 <= a < b < after.len() implies after[a] != after[b] by {
                let a0 = if a < k { a } else { a + 1 };
                let b0 = if b < k { b } else { b + 1 };
                assert(after[a] == before[a0]);
                assert(after[b] == before[b0]);
            }
            assert forall|l: int| 0 <= l < after.len() implies (#[trigger] after[l]) < self.next by {
                let l0 = if l < k { l } else { l + 1 };
                assert(after[l] == before[l0]);
            }
            assert forall|p: int| 0 <= p < self.jobs.len() implies ((#[trigger] self.results[p]) is None <==> (
            p >= self.next || after.contains(p as usize))) by {
                if p == position {
                    if after.contains(p as usize) {
                        let l = choose|l: int| 0 <= l < after.len() && after[l] == p as usize;
                        let l0 = if l < k { l } else { l + 1 };
                        assert(after[l] == before[l0]);
                        assert(before[k as int] == before[l0]);
                    }
                } else {
                    assert(self.results[p] == slots[p]);
                    if before.contains(p as usize) {
                        let l0 = choose|l0: int| 0 <= l0 < before.len() && before[l0] == p as usize;
                        let l = if l0 < k { l0 } else { l0 - 1 };
                        assert(after[l] == before[l0]);
                    } else if after.contains(p as usize) {
                        let l = choose|l: int| 0 <= l < after.len() && after[l] == p as usize;
                        let l0 = if l < k { l } else { l + 1 };
                        assert(after[l] == before[l0]);
                    }
                }
            }
        }
        true
    }

    /// At no time are more chunks outstanding than there are workers, and
    /// no chunk is outstanding twice.
    pub proof fn lemma_outstanding_bounded(&self)
        requires
            self.wf(),
        ensures
            self.outstanding().len() <= self.max_workers,
            all_distinct(self.outstanding()),
    {
        assert forall|i: int, j: int| 0 <= i < j < self.outstanding().len() implies self.outstanding()[i]
            != self.outstanding()[j] by {
            assert(self.in_flight[i] != self.in_flight[j]);
        }
    }

    /// Whether the scheduler is in a state that it can be in: the test that
    /// a caller makes who cannot show it otherwise.
    pub fn is_well_formed(&self) -> (r: bool)
        ensures
            r == self.wf(),
    {
        if self.max_workers < 1 || self.next > self.jobs.len() || self.results.len() != self.jobs.len()
            || self.in_flight.len() > self.max_workers {
            return false;
        }
        if !no_repeats(&self.jobs) || !no_repeats(&self.in_flight) {
            return false;
        }
        let mut k: usize = 0;
        while k < self.in_flight.len()
            invariant
                k <= self.in_flight.len(),
                forall|l: int| 0 <= l < k ==> (#[trigger] self.in_flight[l]) < self.next,
            decreases self.in_flight.len() - k,
        {
            if self.in_flight[k] >= self.next {
                return false;
            }
            k = k + 1;
        }
        let mut p: usize = 0;
        while p < self.jobs.len()
            invariant
                p <= self.jobs.len(),
                self.results.len() == self.jobs.len(),
                forall|q: int|
                    0 <= q < p ==> ((#[trigger] self.results[q]) is None <==> (q >= self.next
                        || self.in_flight@.contains(q as usize))),
                forall|q: int|
                    0 <= q < p ==> ((#[trigger] self.results[q]) matches Some(r) ==> r.chunk_id
                        == self.jobs[q]),
            decreases self.jobs.len() - p,
        {
            let flying = holds(&self.in_flight, p);
            match &self.results[p] {
                None => {
                    if !(p >= self.next || flying) {
                        return false;
                    }
                },
                Some(result) => {
                    if p >= self.next || flying || result.chunk_id != self.jobs[p] {
                        return false;
                    }
                },
            }
            p = p + 1;
        }
        true
    }

    /// Whether every job has been handed out and has come back.
    pub fn is_finished(&self) -> (r: bool)
        ensures
            r == self.finished(),
    {
        self.next == self.jobs.len() && self.in_flight.len() == 0
    }

    /// How many chunks are outstanding.
    pub fn outstanding_count(&self) -> (r: usize)
        requires
            self.wf(),
        ensures
            r == self.outstanding().len(),
            r <= self.max_workers,
    {
        self.in_flight.len()
    }

    /// The results of a finished scheduler, one for each job, in the order
    /// of the jobs.
    pub fn into_results(self) -> (r: Vec<ChunkResult>)
        requires
            self.wf(),
            self.finished(),
        ensures
            r.len() == self.jobs.len(),
            forall|p: int| 0 <= p < r.len() ==> self.results[p] == Some(#[trigger] r[p]),
            forall|p: int| 0 <= p < r.len() ==> (#[trigger] r[p]).chunk_id == self.jobs[p],
    {
        let ghost slots = self.results@;
        let mut slots_left = self.results;
        let mut reversed: Vec<ChunkResult> = Vec::new();
        assert forall|p: int| 0 <= p < slots.len() implies (#[trigger] slots[p]) is Some by {
            assert(!self.in_flight@.contains(p as usize));
        }
        while slots_left.len() > 0
            invariant
                slots_left.len() + reversed.len() == slots.len(),
                slots_left@ == slots.take(slots_left.len() as int),
                forall|p: int| 0 <= p < slots.len() ==> (#[trigger] slots[p]) is Some,
                forall|q: int|
                    0 <= q < reversed.len() ==> slots[slots.len() - 1 - q] == Some(#[trigger] reversed[q]),
            decreases slots_left.len(),
        {
            let ghost n = slots_left.len() as int;
            let slot = slots_left.pop();
            assert(slot == Some(slots[n - 1]));
            assert(slots[n - 1] is Some);
            match slot {
                Some(Some(result)) => {
                    reversed.push(result);
                },
                _ => {},
            }
            assert(slots_left@ =~= slots.take(slots_left.len() as int));
        }
        let mut out: Vec<ChunkResult> = Vec::new();
        while reversed.len() > 0
            invariant
                reversed.len() + out.len() == slots.len(),
                forall|q: int|
                    0 <= q < reversed.len() ==> slots[slots.len() - 1 - q] == Some(#[trigger] reversed[q]),
                forall|p: int| 0 <= p < out.len() ==> slots[p] == Some(#[trigger] out[p]),
            decreases reversed.len(),
        {
            let ghost n = reversed.len() as int;
            let item = reversed.pop();
            match item {
                Some(result) => {
                    assert(slots[slots.len() - n] == Some(result));
                    out.push(result);
                },
                None => {},
            }
        }
        out
    }
}

/// Whether no value occurs twice in the list.
fn no_repeats(items: &Vec<usize>) -> (r: bool)
    ensures
        r == all_distinct(items@),
{
    let mut j: usize = 0;
    while j < items.len()
        invariant
            j <= items.len(),
            forall|a: int, b: int| 0 <= a < b < j ==> items[a] != items[b],
        decreases items.len() - j,
    {
        let mut i: usize = 0;
        while i < j
            invariant
                i <= j < items.len(),
                forall|a: int| 0 <= a < i ==> items[a] != items[j as int],
            decreases j - i,
        {
            if items[i] == items[j] {
                assert(items@[i as int] == items@[j as int]);
                return false;
            }
            i = i + 1;
        }
        j = j + 1;
    }
    true
}

/// Whether the value occurs in the list.
fn holds(items: &Vec<usize>, value: usize) -> (r: bool)
    ensures
        r == items@.contains(value),
{
    let mut i: usize = 0;
    while i < items.len()
        invariant
            i <= items.len(),
            forall|k: int| 0 <= k < i ==> items[k] != value,
        decreases items.len() - i,
    {
        if items[i] == value {
            return true;
        }
        i = i + 1;
    }
    false
}

} // verus!
