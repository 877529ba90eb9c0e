//! The course of a chunked run.
//!
//! A run goes through passes. In each pass the chunks that are due are
//! handed out, at most as many at a time as there are workers, and their
//! results are taken as they come back. When a pass is over its results are
//! entered in the ledger, in the order of the pass's jobs, and the chunks
//! that are processed again make up the next pass. When no chunk is due any
//! more the run is over and the ledger is merged into one document.
//!
//! The run does not call the model. It says what is to be done next, and
//! the caller does it.

use vstd::prelude::*;
use crate::aggregation::{
    kept_in_order,
    lemma_gathered_in_order,
    AggregationError,
    ChunkResult,
    ResultAggregator,
};
use crate::chunking::TextChunk;
use crate::data::{extraction_views, AnnotatedDocument};
use crate::ledger::{
    counts_of,
    passes_after,
    record_after,
    result_matches,
    ChunkRecord,
    PassLedger,
    RecordView,
};
use crate::multipass::{needs_refinement, refinement_ids, MultiPassConfig};
use crate::scheduler::{all_distinct, ChunkScheduler, SchedulerError};

verus! {

/// What the caller is to do next.
#[derive(Clone, Copy, Debug, PartialEq, Eq, Structural)]
pub enum PipelineAction {
    /// Send the chunk with this id to the model.
    Dispatch(usize),
    /// Wait for one of the outstanding chunks to come back.
    Wait,
    /// Nothing is left to do: finish the run.
    Finished,
}

/// A chunked run: its ledger and the scheduler of the current pass.
pub struct ChunkedRun {
    pub ledger: PassLedger,
    pub scheduler: ChunkScheduler,
}

/// The contents of a list of records.
pub open spec fn record_views(records: Seq<ChunkRecord>) -> Seq<RecordView> {
    Seq::new(records.len(), |i: int| records[i]@)
}

/// The records after the first `n` results were entered, each at the place
/// of its chunk; a result for an unknown chunk changes nothing.
pub open spec fn after_results(
    records: Seq<RecordView>,
    results: Seq<ChunkResult>,
    n: int,
    threshold: nat,
) -> Seq<RecordView>
    decreases n,
{
    if n <= 0 {
        records
    } else {
        let before = after_results(records, results, n - 1, threshold);
        let id = results[n - 1].chunk_id as int;
        if id < before.len() {
            before.update(id, record_after(before[id], results[n - 1].outcome, threshold))
        } else {
            before
        }
    }
}

/// The ids of the chunks that are due again are in rising order and below
/// the number of chunks.
pub proof fn lemma_refinement_ids_rise(config: MultiPassConfig, passes_done: int, counts: Seq<usize>, n: int)
    requires
        0 <= n <= usize::MAX,
    ensures
        forall|k: int|
            0 <= k < refinement_ids(config, passes_done, counts, n).len() ==> (#[trigger] refinement_ids(
                config,
                passes_done,
                counts,
                n,
            )[k]) < n,
        forall|i: int, j: int|
            0 <= i < j < refinement_ids(config, passes_done, counts, n).len() ==> (#[trigger] refinement_ids(
                config,
                passes_done,
                counts,
                n,
            )[i]) < (#[trigger] refinement_ids(config, passes_done, counts, n)[j]),
        all_distinct(refinement_ids(config, passes_done, counts, n)),
    decreases n,
{
    if n > 0 {
        lemma_refinement_ids_rise(config, passes_done, counts, n - 1);
    }
}

impl ChunkedRun {
    /// What holds of a run at all times.
    pub open spec fn wf(&self) -> bool {
        self.scheduler.wf()
    }

    /// Whether the run is in a state that it can be in: the test that a
    /// caller makes who cannot show it otherwise.
    pub fn is_well_formed(&self) -> (r: bool)
        ensures
            r == self.wf(),
    {
        self.scheduler.is_well_formed()
    }

    /// Starts a run: the first pass takes every chunk.
    pub fn start(chunks: &Vec<TextChunk>, config: MultiPassConfig, max_workers: usize) -> (r: Result<
        Self,
        SchedulerError,
    >)
        ensures
            match r {
                Ok(run) => {
                    &&& run.wf()
                    &&& max_workers >= 1
                    &&& run.scheduler.max_workers == max_workers
                    &&& run.scheduler.jobs@ == Seq::new(chunks.len() as nat, |i: int| i as usize)
                    &&& run.scheduler.next == 0
                    &&& run.scheduler.in_flight@.len() == 0
                    &&& run.ledger.config == config
                    &&& run.ledger.passes_done == 0
                    &&& run.ledger.records.len() == chunks.len()
                    &&& forall|i: int|
                        0 <= i < chunks.len() ==> {
                            let record = #[trigger] run.ledger.records[i];
                            &&& record.char_offset == chunks[i].char_offset
                            &&& record.char_length == chunks[i].char_length
                            &&& record.overlap_info == chunks[i].overlap_info
                            &&& record.extractions@.len() == 0
                            &&& !record.succeeded
                            &&& record.last_error is None
                        }
                },
                Err(e) => e == SchedulerError::NoWorkers && max_workers == 0,
            },
    {
        let scheduler = match ChunkScheduler::new(chunks.len(), max_workers) {
            Ok(scheduler) => scheduler,
            Err(e) => {
                return Err(e);
            },
        };
        Ok(ChunkedRun { ledger: PassLedger::new(chunks, config), scheduler })
    }

    /// Says what is to be done next.
    ///
    /// While the pass has a job left and a worker free, the next job is
    /// handed out. While chunks are outstanding, the caller waits. When the
    /// pass is over, its results are entered and the next pass begins with
    /// the chunks that are due again; when none is due, the run is finished.
    pub fn advance(self) -> (r: (Self, PipelineAction))
        requires
            self.wf(),
        ensures
            r.0.wf(),
            r.0.scheduler.max_workers == self.scheduler.max_workers,
            r.0.scheduler.outstanding().len() <= r.0.scheduler.max_workers,
            r.0.ledger.config == self.ledger.config,
            r.0.ledger.records.len() == self.ledger.records.len(),
            match r.1 {
                PipelineAction::Wait => {
                    &&& r.0.scheduler == self.scheduler
                    &&& r.0.ledger == self.ledger
                    &&& self.scheduler.outstanding().len() > 0
                    &&& self.scheduler.outstanding().len() == self.scheduler.max_workers
                        || self.scheduler.next == self.scheduler.jobs.len()
                },
                PipelineAction::Dispatch(id) => {
                    &&& r.0.scheduler.outstanding().len() >= 1
                    &&& r.0.scheduler.outstanding()[r.0.scheduler.outstanding().len() - 1] == id
                    &&& if self.scheduler.finished() {
                        &&& r.0.scheduler.jobs@.len() > 0
                        &&& r.0.scheduler.next == 1
                        &&& r.0.scheduler.jobs@[0] == id
                    } else {
                        &&& r.0.ledger == self.ledger
                        &&& r.0.scheduler.jobs == self.scheduler.jobs
                        &&& r.0.scheduler.results == self.scheduler.results
                        &&& r.0.scheduler.next == self.scheduler.next + 1
                        &&& id == self.scheduler.jobs[self.scheduler.next as int]
                        &&& r.0.scheduler.outstanding() == self.scheduler.outstanding().push(id)
                    }
                },
                PipelineAction::Finished => {
                    &&& self.scheduler.finished()
                    &&& r.0.scheduler.finished()
                    &&& r.0.scheduler.jobs@.len() == 0
                },
            },
            self.scheduler.finished() ==> {
                &&& exists|results: Seq<ChunkResult>|
                    {
                        &&& results.len() == self.scheduler.jobs.len()
                        &&& forall|p: int|
                            0 <= p < results.len() ==> self.scheduler.results[p] == Some(#[trigger] results[p])
                        &&& #[trigger] record_views(r.0.ledger.records@) == after_results(
                            record_views(self.ledger.records@),
                            results,
                            results.len() as int,
                            self.ledger.config.multipass_quality_threshold as nat,
                        )
                    }
                &&& r.0.ledger.passes_done == passes_after(self.ledger.passes_done)
                &&& r.0.scheduler.jobs@ == refinement_ids(
                    self.ledger.config,
                    passes_after(self.ledger.passes_done) as int,
                    counts_of(r.0.ledger.records@, r.0.ledger.records.len() as int),
                    r.0.ledger.records.len() as int,
                )
            },
            !self.scheduler.finished() ==> r.0.ledger == self.ledger,
    {
        let ChunkedRun { ledger, scheduler } = self;
        let mut ledger = ledger;
        let mut scheduler = scheduler;
        let ghost old_scheduler = scheduler;
        let ghost old_ledger = ledger;
        if !scheduler.is_finished() {
            let ghost before = scheduler.outstanding();
            match scheduler.next_dispatch() {
                Some(id) => {
                    assert(scheduler.outstanding() =~= before.push(id));
                    return (ChunkedRun { ledger, scheduler }, PipelineAction::Dispatch(id));
                },
                None => {
                    assert(scheduler == old_scheduler);
                    return (ChunkedRun { ledger, scheduler }, PipelineAction::Wait);
                },
            }
        }
        let max_workers = scheduler.max_workers;
        let results = scheduler.into_results();
        let threshold = ledger.config.multipass_quality_threshold;
        let ghost start = record_views(ledger.records@);
        let mut i: usize = 0;
        while i < results.len()
            invariant
                i <= results.len(),
                ledger.config == old_ledger.config,
                ledger.passes_done == old_ledger.passes_done,
                ledger.records.len() == old_ledger.records.len(),
                start.len() == old_ledger.records.len(),
                threshold == ledger.config.multipass_quality_threshold,
                record_views(ledger.records@) == after_results(start, results@, i as int, threshold as nat),
            decreases results.len() - i,
        {
            let ghost before = ledger.records@;
            let ghost prior = record_views(before);
            let result = clone_result(&results[i]);
            let known = ledger.record(result);
            proof {
                let id = results@[i as int].chunk_id as int;
                let given = results@[i as int].outcome;
                match given {
                    crate::aggregation::ChunkOutcome::Success(items) => {
                        let copy = result.outcome->Success_0;
                        assert(extraction_views(copy@).len() == extraction_views(items@).len());
                        assert(copy@.len() == items@.len());
                    },
                    crate::aggregation::ChunkOutcome::Failure(_) => {},
                }
                if known {
                    assert(record_after(prior[id], result.outcome, threshold as nat) == record_after(
                        prior[id],
                        given,
                        threshold as nat,
                    ));
                    assert(record_views(ledger.records@) =~= prior.update(
                        id,
                        record_after(prior[id], results@[i as int].outcome, threshold as nat),
                    ));
                } else {
                    assert(record_views(ledger.records@) =~= prior);
                }
            }
            i = i + 1;
        }
        let jobs = ledger.end_pass();
        proof {
            lemma_refinement_ids_rise(
                ledger.config,
                ledger.passes_done as int,
                counts_of(ledger.records@, ledger.records.len() as int),
                ledger.records.len() as int,
            );
        }
        if jobs.len() == 0 {
            let idle = idle_scheduler(max_workers);
            assert(idle.jobs@ =~= jobs@);
            return (ChunkedRun { ledger, scheduler: idle }, PipelineAction::Finished);
        }
        match ChunkScheduler::for_jobs(jobs, max_workers) {
            Ok(next) => {
                let mut next = next;
                match next.next_dispatch() {
                    Some(id) => {
                        assert(next.outstanding()[0] == id);
                        (ChunkedRun { ledger, scheduler: next }, PipelineAction::Dispatch(id))
                    },
                    None => (ChunkedRun { ledger, scheduler: idle_scheduler(max_workers) }, PipelineAction::Finished),
                }
            },
            Err(_) => (ChunkedRun { ledger, scheduler: idle_scheduler(max_workers) }, PipelineAction::Finished),
        }
    }

    /// Takes the result of an outstanding chunk and keeps it, as it is, at
    /// the place of its job. A result for a chunk that is not outstanding is
    /// refused and changes nothing.
    pub fn accept(&mut self, result: ChunkResult) -> (accepted: bool)
        requires
            old(self).wf(),
        ensures
            final(self).wf(),
            final(self).ledger == old(self).ledger,
            final(self).scheduler.jobs == old(self).scheduler.jobs,
            final(self).scheduler.max_workers == old(self).scheduler.max_workers,
            final(self).scheduler.next == old(self).scheduler.next,
            accepted == old(self).scheduler.outstanding().contains(result.chunk_id),
            accepted ==> exists|k: int|
                0 <= k < old(self).scheduler.in_flight.len() && old(self).scheduler.jobs[#[trigger] old(
                    self,
                ).scheduler.in_flight[k] as int] == result.chunk_id && final(self).scheduler.in_flight@
                    == old(self).scheduler.in_flight@.remove(k) && final(self).scheduler.results@ == old(
                    self,
                ).scheduler.results@.update(old(self).scheduler.in_flight[k] as int, Some(result)),
            accepted ==> final(self).scheduler.outstanding().len() + 1 == old(
                self,
            ).scheduler.outstanding().len(),
            !accepted ==> final(self).scheduler == old(self).scheduler,
    {
        self.scheduler.complete(result)
    }

    /// Merges what the chunks hold into one document.
    ///
    /// The document lists, chunk by chunk, what the result of each chunk
    /// keeps: every chunk's extractions are there exactly once. The call
    /// fails when there are chunks and no pass succeeded for any of them.
    pub fn finish(self, text: String, document_id: Option<String>) -> (r: Result<
        AnnotatedDocument,
        AggregationError,
    >)
        ensures
            match r {
                Ok(doc) => {
                    &&& doc.text == text
                    &&& doc.document_id == document_id
                    &&& doc.extractions is Some
                    &&& self.ledger.records.len() == 0 || exists|i: int|
                        0 <= i < self.ledger.records.len() && (#[trigger] self.ledger.records[i]).succeeded
                    &&& exists|results: Seq<ChunkResult>|
                        {
                            &&& results.len() == self.ledger.records.len()
                            &&& forall|i: int|
                                0 <= i < results.len() ==> result_matches(
                                    self.ledger.records[i],
                                    i,
                                    #[trigger] results[i],
                                )
                            &&& #[trigger] kept_in_order(results, results.len() as int)
                                == extraction_views(doc.items())
                        }
                },
                Err(e) => {
                    &&& e == AggregationError::AllChunksFailed
                    &&& self.ledger.records.len() > 0
                    &&& forall|i: int|
                        0 <= i < self.ledger.records.len() ==> !(#[trigger] self.ledger.records[i]).succeeded
                },
            },
    {
        let results = self.ledger.results();
        let ghost listed = results@;
        proof {
            assert forall|i: int| 0 <= i < listed.len() implies (#[trigger] listed[i]).chunk_id == i by {
                assert(result_matches(self.ledger.records[i], i, listed[i]));
            }
            assert forall|i: int| 0 <= i < listed.len() implies (#[trigger] listed[i]).succeeded()
                == self.ledger.records[i].succeeded by {
                assert(result_matches(self.ledger.records[i], i, listed[i]));
            }
        }
        let outcome = ResultAggregator::new().aggregate_chunk_results(results, text, document_id);
        proof {
            if outcome is Ok {
                if listed.len() > 0 {
                    let i = choose|i: int| 0 <= i < listed.len() && (#[trigger] listed[i]).succeeded();
                    assert(self.ledger.records[i].succeeded);
                }
                lemma_gathered_in_order(listed);
                assert(kept_in_order(listed, listed.len() as int) == extraction_views(
                    (outcome->Ok_0).items(),
                ));
            } else {
                assert forall|i: int| 0 <= i < self.ledger.records.len() implies !(
                #[trigger] self.ledger.records[i]).succeeded by {
                    assert(!listed[i].succeeded());
                }
            }
        }
        outcome
    }
}

/// A scheduler without jobs.
fn idle_scheduler(max_workers: usize) -> (r: ChunkScheduler)
    requires
        max_workers >= 1,
    ensures
        r.wf(),
        r.finished(),
        r.jobs@.len() == 0,
        r.max_workers == max_workers,
        r.outstanding().len() == 0,
{
    ChunkScheduler { jobs: Vec::new(), max_workers, next: 0, in_flight: Vec::new(), results: Vec::new() }
}

/// A copy of a result.
fn clone_result(result: &ChunkResult) -> (r: ChunkResult)
    ensures
        r.chunk_id == result.chunk_id,
        r.char_offset == result.char_offset,
        r.char_length == result.char_length,
        r.overlap_info == result.overlap_info,
        r.processing_time_ms == result.processing_time_ms,
        match result.outcome {
            crate::aggregation::ChunkOutcome::Success(items) => r.outcome
                matches crate::aggregation::ChunkOutcome::Success(copy) && extraction_views(copy@)
                == extraction_views(items@),
            crate::aggregation::ChunkOutcome::Failure(error) => r.outcome
                == crate::aggregation::ChunkOutcome::Failure(error),
        },
{
    let outcome = match &result.outcome {
        crate::aggregation::ChunkOutcome::Success(items) => crate::aggregation::ChunkOutcome::Success(
            crate::data::clone_extractions(items),
        ),
        crate::aggregation::ChunkOutcome::Failure(error) => crate::aggregation::ChunkOutcome::Failure(
            error.clone(),
        ),
    };
    ChunkResult {
        chunk_id: result.chunk_id,
        outcome,
        char_offset: result.char_offset,
        char_length: result.char_length,
        overlap_info: result.overlap_info,
        processing_time_ms: result.processing_time_ms,
    }
}

} // verus!
