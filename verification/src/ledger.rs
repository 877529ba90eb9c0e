//! What each chunk has given so far, over the passes of a run.
//!
//! The ledger holds one record for each chunk of a document. The first
//! successful result of a chunk gives the chunk its extractions; every
//! later one is merged into them. A failure leaves the extractions as they
//! are and is remembered. After each pass the ledger names the chunks that
//! are processed again, and at the end it gives one result for each chunk.

use vstd::prelude::*;
use vstd::string::StringExecFns;
use crate::aggregation::{ChunkOutcome, ChunkResult};
use crate::chunking::TextChunk;
use crate::data::{
    clone_extractions,
    extraction_views,
    CharInterval,
    Extraction,
    ExtractionView,
};
use crate::multipass::{
    is_duplicate,
    lemma_merge_into_empty,
    merge_pass,
    merged,
    refinement_ids,
    select_for_refinement,
    MultiPassConfig,
};

verus! {

/// What one chunk has given so far.
#[derive(Debug)]
pub struct ChunkRecord {
    pub char_offset: usize,
    pub char_length: usize,
    pub overlap_info: Option<CharInterval>,
    pub extractions: Vec<Extraction>,
    /// Whether a pass has succeeded for the chunk.
    pub succeeded: bool,
    /// The reason of the chunk's last failure.
    pub last_error: Option<String>,
}

/// The content of a [`ChunkRecord`].
pub ghost struct RecordView {
    pub char_offset: usize,
    pub char_length: usize,
    pub overlap_info: Option<CharInterval>,
    pub extractions: Seq<ExtractionView>,
    pub succeeded: bool,
    pub error: Option<Seq<char>>,
}

impl View for ChunkRecord {
    type V = RecordView;

    open spec fn view(&self) -> RecordView {
        RecordView {
            char_offset: self.char_offset,
            char_length: self.char_length,
            overlap_info: self.overlap_info,
            extractions: extraction_views(self.extractions@),
            succeeded: self.succeeded,
            error: match self.last_error {
                Some(e) => Some(e@),
                None => None,
            },
        }
    }
}

/// A record after one more result of its chunk. The place of the chunk in
/// the document stays as the record has it.
pub open spec fn record_after(record: RecordView, outcome: ChunkOutcome, threshold: nat) -> RecordView {
    match outcome {
        ChunkOutcome::Success(items) => RecordView {
            extractions: if record.succeeded {
                merged(record.extractions, extraction_views(items@), items@.len() as int, threshold)
            } else {
                extraction_views(items@)
            },
            succeeded: true,
            ..record
        },
        ChunkOutcome::Failure(error) => RecordView { error: Some(error@), ..record },
    }
}

/// The records of a run, by chunk id.
#[derive(Debug)]
pub struct PassLedger {
    pub records: Vec<ChunkRecord>,
    pub passes_done: usize,
    pub config: MultiPassConfig,
}

/// The number of passes after one more, which stops at the largest
/// `usize`.
pub open spec fn passes_after(passes_done: usize) -> usize {
    if passes_done < usize::MAX {
        (passes_done + 1) as usize
    } else {
        passes_done
    }
}

/// How many extractions each of the first `n` records holds.
pub open spec fn counts_of(records: Seq<ChunkRecord>, n: int) -> Seq<usize> {
    Seq::new(n as nat, |i: int| records[i].extractions.len())
}

/// The result that a record gives at the end of a run.
pub open spec fn result_matches(record: ChunkRecord, id: int, result: ChunkResult) -> bool {
    &&& result.chunk_id == id
    &&& result.char_offset == record.char_offset
    &&& result.char_length == record.char_length
    &&& result.overlap_info == record.overlap_info
    &&& if record.succeeded {
        result.outcome matches ChunkOutcome::Success(items) && extraction_views(items@)
            == extraction_views(record.extractions@)
    } else {
        result.outcome matches ChunkOutcome::Failure(error) && error@ == match record.last_error {
            Some(e) => e@,
            None => "chunk was not processed"@,
        }
    }
}

impl PassLedger {
    /// An empty ledger for the chunks of a document.
    pub fn new(chunks: &Vec<TextChunk>, config: MultiPassConfig) -> (r: Self)
        ensures
            r.config == config,
            r.passes_done == 0,
            r.records.len() == chunks.len(),
            forall|i: int|
                0 <= i < chunks.len() ==> {
                    let record = #[trigger] r.records[i];
                    &&& record.char_offset == chunks[i].char_offset
                    &&& record.char_length == chunks[i].char_length
                    &&& record.overlap_info == chunks[i].overlap_info
                    &&& record.extractions@.len() == 0
                    &&& !record.succeeded
                    &&& record.last_error is None
                },
    {
        let mut records: Vec<ChunkRecord> = Vec::new();
        let mut i: usize = 0;
        while i < chunks.len()
            invariant
                i <= chunks.len(),
                records.len() == i,
                forall|k: int|
                    0 <= k < i ==> {
                        let record = #[trigger] records[k];
                        &&& record.char_offset == chunks[k].char_offset
                        &&& record.char_length == chunks[k].char_length
                        &&& record.overlap_info == chunks[k].overlap_info
                        &&& record.extractions@.len() == 0
                        &&& !record.succeeded
                        &&& record.last_error is None
                    },
            decreases chunks.len() - i,
        {
            records.push(
                ChunkRecord {
                    char_offset: chunks[i].char_offset,
                    char_length: chunks[i].char_length,
                    overlap_info: chunks[i].overlap_info,
                    extractions: Vec::new(),
                    succeeded: false,
                    last_error: None,
                },
            );
            i = i + 1;
        }
        PassLedger { records, passes_done: 0, config }
    }

    /// Enters one result. A result for a chunk that the ledger does not
    /// know is refused and changes nothing.
    pub fn record(&mut self, result: ChunkResult) -> (known: bool)
        ensures
            known == (result.chunk_id < old(self).records.len()),
            final(self).config == old(self).config,
            final(self).passes_done == old(self).passes_done,
            final(self).records.len() == old(self).records.len(),
            forall|i: int|
                0 <= i < old(self).records.len() && i != result.chunk_id ==> #[trigger] final(self).records[i]
                    == old(self).records[i],
            known ==> {
                let before = old(self).records[result.chunk_id as int];
                let after = final(self).records[result.chunk_id as int];
                &&& after@ == record_after(
                    before@,
                    result.outcome,
                    old(self).config.multipass_quality_threshold as nat,
                )
                &&& after.char_offset == before.char_offset
                &&& after.char_length == before.char_length
                &&& after.overlap_info == before.overlap_info
            },
    {
        let id = result.chunk_id;
        if id >= self.records.len() {
            return false;
        }
        let threshold = self.config.multipass_quality_threshold;
        let record = &mut self.records[id];
        match result.outcome {
            ChunkOutcome::Success(items) => {
                if record.succeeded {
                    merge_pass(&mut record.extractions, &items, threshold);
                } else {
                    record.extractions = items;
                    record.succeeded = true;
                }
            },
            ChunkOutcome::Failure(error) => {
                record.last_error = Some(error);
            },
        }
        true
    }

    /// Ends a pass and names the chunks that are processed again: those
    /// that hold fewer extractions than the configured minimum, as long as
    /// multi-pass refinement is enabled and passes are left.
    pub fn end_pass(&mut self) -> (jobs: Vec<usize>)
        ensures
            final(self).config == old(self).config,
            final(self).records == old(self).records,
            final(self).passes_done == passes_after(old(self).passes_done),
            jobs@ == refinement_ids(
                old(self).config,
                passes_after(old(self).passes_done) as int,
                counts_of(old(self).records@, old(self).records.len() as int),
                old(self).records.len() as int,
            ),
    {
        if self.passes_done < usize::MAX {
            self.passes_done = self.passes_done + 1;
        }
        let mut counts: Vec<usize> = Vec::new();
        let mut i: usize = 0;
        while i < self.records.len()
            invariant
                i <= self.records.len(),
                counts@ == counts_of(self.records@, i as int),
            decreases self.records.len() - i,
        {
            counts.push(self.records[i].extractions.len());
            assert(counts@ =~= counts_of(self.records@, i + 1));
            i = i + 1;
        }
        select_for_refinement(&self.config, self.passes_done, &counts)
    }

    /// One result for each chunk, in the order of the chunks: a success
    /// with what the chunk holds if a pass succeeded for it, else a failure
    /// with the reason of its last failure.
    pub fn results(&self) -> (r: Vec<ChunkResult>)
        ensures
            r.len() == self.records.len(),
            forall|i: int|
                0 <= i < r.len() ==> result_matches(self.records[i], i, #[trigger] r[i]),
    {
        let mut out: Vec<ChunkResult> = Vec::new();
        let mut i: usize = 0;
        while i < self.records.len()
            invariant
                i <= self.records.len(),
                out.len() == i,
                forall|k: int| 0 <= k < i ==> result_matches(self.records[k], k, #[trigger] out[k]),
            decreases self.records.len() - i,
        {
            let record = &self.records[i];
            let outcome = if record.succeeded {
                ChunkOutcome::Success(clone_extractions(&record.extractions))
            } else {
                match &record.last_error {
                    Some(error) => ChunkOutcome::Failure(error.clone()),
                    None => ChunkOutcome::Failure(String::from_str("chunk was not processed")),
                }
            };
            out.push(
                ChunkResult {
                    chunk_id: i,
                    outcome,
                    char_offset: record.char_offset,
                    char_length: record.char_length,
                    overlap_info: record.overlap_info,
                    processing_time_ms: None,
                },
            );
            i = i + 1;
        }
        out
    }
}

/// A chunk that holds nothing takes all that a pass finds for it, in
/// order, in the first pass as in a later one, as long as no two of the
/// extractions found are duplicates of each other.
pub proof fn lemma_pass_fills_empty_record(record: RecordView, outcome: ChunkOutcome, threshold: nat)
    requires
        record.extractions.len() == 0,
        outcome matches ChunkOutcome::Success(items) && forall|i: int, j: int|
            0 <= i < j < items@.len() ==> !is_duplicate(
                #[trigger] extraction_views(items@)[i],
                #[trigger] extraction_views(items@)[j],
            ),
    ensures
        record_after(record, outcome, threshold).succeeded,
        record_after(record, outcome, threshold).extractions == extraction_views(outcome->Success_0@),
{
    let found = extraction_views(outcome->Success_0@);
    lemma_merge_into_empty(found, found.len() as int, threshold);
    assert(record.extractions =~= Seq::<ExtractionView>::empty());
    assert(found.take(found.len() as int) =~= found);
}

} // verus!
