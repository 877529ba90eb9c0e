//! Per-chunk results and their merge into one document.
//!
//! Results may arrive in any order and may carry any chunk ids; the merged
//! document lists the extractions by rising chunk id. A chunk that failed adds nothing. An extraction
//! whose interval lies inside the span that its chunk shares with the chunk
//! before it is left out: the earlier chunk saw the same text, so the
//! earlier chunk's record stands.

use vstd::prelude::*;
use crate::data::{
    extraction_views,
    AnnotatedDocument,
    CharInterval,
    Extraction,
    ExtractionView,
};
use crate::chunking::clone_id;

verus! {

/// What processing a chunk gave.
#[derive(Debug)]
pub enum ChunkOutcome {
    Success(Vec<Extraction>),
    Failure(String),
}

/// The result of processing one chunk in one pass.
#[derive(Debug)]
pub struct ChunkResult {
    pub chunk_id: usize,
    pub outcome: ChunkOutcome,
    pub char_offset: usize,
    pub char_length: usize,
    pub overlap_info: Option<CharInterval>,
    pub processing_time_ms: Option<u64>,
}

impl ChunkResult {
    pub fn success(chunk_id: usize, extractions: Vec<Extraction>, char_offset: usize, char_length: usize) -> (r:
        Self)
        ensures
            r.chunk_id == chunk_id,
            r.outcome == ChunkOutcome::Success(extractions),
            r.char_offset == char_offset,
            r.char_length == char_length,
            r.overlap_info is None,
            r.processing_time_ms is None,
    {
        ChunkResult {
            chunk_id,
            outcome: ChunkOutcome::Success(extractions),
            char_offset,
            char_length,
            overlap_info: None,
            processing_time_ms: None,
        }
    }

    pub fn failure(chunk_id: usize, char_offset: usize, char_length: usize, error: String) -> (r: Self)
        ensures
            r.chunk_id == chunk_id,
            r.outcome == ChunkOutcome::Failure(error),
            r.char_offset == char_offset,
            r.char_length == char_length,
            r.overlap_info is None,
            r.processing_time_ms is None,
    {
        ChunkResult {
            chunk_id,
            outcome: ChunkOutcome::Failure(error),
            char_offset,
            char_length,
            overlap_info: None,
            processing_time_ms: None,
        }
    }

    /// The same result with the time that processing took, in milliseconds.
    pub fn with_processing_time(self, millis: u64) -> (r: Self)
        ensures
            r == (ChunkResult { processing_time_ms: Some(millis), ..self }),
    {
        ChunkResult { processing_time_ms: Some(millis), ..self }
    }

    /// The same result with the span that its chunk shares with the chunk
    /// before it.
    pub fn with_overlap(self, overlap_info: Option<CharInterval>) -> (r: Self)
        ensures
            r == (ChunkResult { overlap_info, ..self }),
    {
        ChunkResult { overlap_info, ..self }
    }

    pub open spec fn succeeded(self) -> bool {
        self.outcome is Success
    }

    pub fn is_success(&self) -> (r: bool)
        ensures
            r == self.succeeded(),
    {
        match &self.outcome {
            ChunkOutcome::Success(_) => true,
            ChunkOutcome::Failure(_) => false,
        }
    }

    /// The number of extractions of a successful result, zero for a failed
    /// one.
    pub open spec fn yield_count(self) -> nat {
        match self.outcome {
            ChunkOutcome::Success(items) => items@.len(),
            ChunkOutcome::Failure(_) => 0,
        }
    }

    pub fn extraction_count(&self) -> (r: usize)
        ensures
            r == self.yield_count(),
    {
        match &self.outcome {
            ChunkOutcome::Success(items) => items.len(),
            ChunkOutcome::Failure(_) => 0,
        }
    }
}

/// Why no document could be made of the results.
#[derive(Clone, Copy, Debug, PartialEq, Eq, Structural)]
pub enum AggregationError {
    /// There are results, and every one of them is a failure.
    AllChunksFailed,
}

/// A failed chunk and what went wrong with it.
#[derive(Debug)]
pub struct ChunkFailure {
    pub chunk_id: usize,
    pub error: String,
}

/// Whether an extraction lies in the span that its chunk shares with the
/// chunk before it.
pub open spec fn in_overlap(interval: Option<CharInterval>, overlap: Option<CharInterval>) -> bool {
    overlap matches Some(shared) && interval matches Some(iv) && iv.within(shared)
}

/// Of the first `n` items, those that are kept, in order.
pub open spec fn kept_prefix(items: Seq<Extraction>, overlap: Option<CharInterval>, n: int) -> Seq<
    ExtractionView,
>
    decreases n,
{
    if n <= 0 {
        Seq::empty()
    } else if in_overlap(items[n - 1].char_interval, overlap) {
        kept_prefix(items, overlap, n - 1)
    } else {
        kept_prefix(items, overlap, n - 1).push(items[n - 1]@)
    }
}

/// What one result adds to the document.
pub open spec fn kept(r: ChunkResult) -> Seq<ExtractionView> {
    match r.outcome {
        ChunkOutcome::Success(items) => kept_prefix(items@, r.overlap_info, items@.len() as int),
        ChunkOutcome::Failure(_) => Seq::empty(),
    }
}

/// What the first `n` results add for chunk `id`.
pub open spec fn gathered_for(results: Seq<ChunkResult>, id: int, n: int) -> Seq<ExtractionView>
    decreases n,
{
    if n <= 0 {
        Seq::empty()
    } else if results[n - 1].chunk_id == id {
        gathered_for(results, id, n - 1) + kept(results[n - 1])
    } else {
        gathered_for(results, id, n - 1)
    }
}

/// The least chunk id at or above `from` among the first `n` results, if
/// there is one.
pub open spec fn least_id(results: Seq<ChunkResult>, from: int, n: int) -> Option<int>
    decreases n,
{
    if n <= 0 {
        None
    } else {
        let rest = least_id(results, from, n - 1);
        let id = results[n - 1].chunk_id as int;
        if id >= from && (rest is None || id < rest->0) {
            Some(id)
        } else {
            rest
        }
    }
}

/// What the results add for the chunks with an id at or above `from`, by
/// rising id.
pub open spec fn gathered_from(results: Seq<ChunkResult>, from: int) -> Seq<ExtractionView>
    decreases usize::MAX + 1 - from,
{
    match least_id(results, from, results.len() as int) {
        Some(id) => if from <= id <= usize::MAX {
            gathered_for(results, id, results.len() as int) + gathered_from(results, id + 1)
        } else {
            // not reached: the least id is an id at or above `from`
            Seq::empty()
        },
        None => Seq::empty(),
    }
}

/// What the results add, by rising chunk id.
pub open spec fn gathered(results: Seq<ChunkResult>) -> Seq<ExtractionView> {
    gathered_from(results, 0)
}

/// The least id at or above `from` is the id of a result and is not below
/// `from`; where there is none, every id is below `from`.
pub proof fn lemma_least_id(results: Seq<ChunkResult>, from: int, n: int)
    requires
        0 <= n <= results.len(),
    ensures
        match least_id(results, from, n) {
            Some(id) => {
                &&& from <= id <= usize::MAX
                &&& exists|k: int| 0 <= k < n && (#[trigger] results[k]).chunk_id == id
                &&& forall|k: int| 0 <= k < n && (#[trigger] results[k]).chunk_id >= from ==> id <= results[k].chunk_id
            },
            None => forall|k: int| 0 <= k < n ==> (#[trigger] results[k]).chunk_id < from,
        },
    decreases n,
{
    if n > 0 {
        lemma_least_id(results, from, n - 1);
        let rest = least_id(results, from, n - 1);
        let id = results[n - 1].chunk_id as int;
        if id >= from && (rest is None || id < rest->0) {
            assert(results[n - 1].chunk_id == id);
        } else if rest is Some {
            let k = choose|k: int| 0 <= k < n - 1 && (#[trigger] results[k]).chunk_id == rest->0;
            assert(results[k].chunk_id == rest->0);
        }
    }
}

/// Whether every result is a failure.
pub open spec fn all_failed(results: Seq<ChunkResult>) -> bool {
    forall|i: int| 0 <= i < results.len() ==> !(#[trigger] results[i]).succeeded()
}

/// Merges chunk results into a document.
#[derive(Clone, Copy, Debug)]
pub struct ResultAggregator {}

impl ResultAggregator {
    pub fn new() -> (r: Self) {
        ResultAggregator {  }
    }

    /// Adds to `out` what one result adds to the document.
    fn append_kept(&self, out: &mut Vec<Extraction>, result: &ChunkResult)
        ensures
            extraction_views(final(out)@) == extraction_views(old(out)@) + kept(*result),
    {
        match &result.outcome {
            ChunkOutcome::Success(items) => {
                let ghost start = extraction_views(out@);
                let mut j: usize = 0;
                while j < items.len()
                    invariant
                        j <= items.len(),
                        extraction_views(out@) == start + kept_prefix(
                            items@,
                            result.overlap_info,
                            j as int,
                        ),
                    decreases items.len() - j,
                {
                    let dropped = match (&result.overlap_info, &items[j].char_interval) {
                        (Some(shared), Some(iv)) => iv.is_within(shared),
                        _ => false,
                    };
                    if !dropped {
                        let ghost before = out@;
                        out.push(items[j].clone());
                        assert(extraction_views(out@) =~= extraction_views(before).push(items@[j as int]@));
                    }
                    j = j + 1;
                }
            },
            ChunkOutcome::Failure(_) => {
                assert(extraction_views(out@) + Seq::<ExtractionView>::empty() =~= extraction_views(out@));
            },
        }
    }

    /// Merges the results of a document's chunks.
    ///
    /// The extractions of the successful results are listed by rising chunk
    /// id, and for one chunk id in the order of the results. The call fails
    /// when there are results but none succeeded.
    pub fn aggregate_chunk_results(
        &self,
        results: Vec<ChunkResult>,
        text: String,
        document_id: Option<String>,
    ) -> (r: Result<AnnotatedDocument, AggregationError>)
        ensures
            match r {
                Ok(doc) => {
                    &&& results.len() == 0 || !all_failed(results@)
                    &&& doc.text == text
                    &&& doc.document_id == document_id
                    &&& doc.extractions is Some
                    &&& extraction_views(doc.items()) == gathered(results@)
                },
                Err(AggregationError::AllChunksFailed) => results.len() > 0 && all_failed(results@),
            },
    {
        let n = results.len();
        let mut any_success = false;
        let mut i: usize = 0;
        while i < n
            invariant
                n == results.len(),
                i <= n,
                any_success <==> exists|k: int| 0 <= k < i && (#[trigger] results[k]).succeeded(),
            decreases n - i,
        {
            if results[i].is_success() {
                any_success = true;
            }
            i = i + 1;
        }
        if n > 0 && !any_success {
            return Err(AggregationError::AllChunksFailed);
        }
        let mut out: Vec<Extraction> = Vec::new();
        let mut from: usize = 0;
        assert(extraction_views(out@) + gathered_from(results@, 0) =~= gathered(results@));
        assert(n == 0 || !all_failed(results@));
        loop
            invariant
                n == results.len(),
                n == 0 || !all_failed(results@),
                extraction_views(out@) + gathered_from(results@, from as int) == gathered(results@),
            decreases usize::MAX - from,
        {
            let mut least: Option<usize> = None;
            let mut k: usize = 0;
            while k < n
                invariant
                    n == results.len(),
                    k <= n,
                    match least {
                        Some(id) => least_id(results@, from as int, k as int) == Some(id as int),
                        None => least_id(results@, from as int, k as int) is None,
                    },
                decreases n - k,
            {
                let id = results[k].chunk_id;
                let smaller = match least {
                    Some(held) => id < held,
                    None => true,
                };
                if id >= from && smaller {
                    least = Some(id);
                }
                k = k + 1;
            }
            proof {
                lemma_least_id(results@, from as int, n as int);
            }
            let id = match least {
                Some(id) => id,
                None => {
                    assert(extraction_views(out@) + Seq::<ExtractionView>::empty() =~= extraction_views(out@));
                    return Ok(
                        AnnotatedDocument { document_id: clone_id(&document_id), text, extractions: Some(out) },
                    );
                },
            };
            let ghost base = extraction_views(out@);
            let ghost rest = gathered_from(results@, id + 1);
            let mut k: usize = 0;
            assert(base + gathered_for(results@, id as int, 0) =~= base);
            while k < n
                invariant
                    n == results.len(),
                    k <= n,
                    extraction_views(out@) == base + gathered_for(results@, id as int, k as int),
                decreases n - k,
            {
                if results[k].chunk_id == id {
                    let ghost so_far = gathered_for(results@, id as int, k as int);
                    self.append_kept(&mut out, &results[k]);
                    assert(base + so_far + kept(results@[k as int]) =~= base + (so_far + kept(
                        results@[k as int],
                    )));
                }
                k = k + 1;
            }
            proof {
                let mine = gathered_for(results@, id as int, n as int);
                assert(gathered_from(results@, from as int) == mine + rest);
                assert(base + mine + rest =~= base + (mine + rest));
            }
            if id == usize::MAX {
                proof {
                    lemma_least_id(results@, id + 1, n as int);
                    assert(rest =~= Seq::<ExtractionView>::empty());
                    assert(extraction_views(out@) + rest =~= extraction_views(out@));
                }
                return Ok(
                    AnnotatedDocument { document_id: clone_id(&document_id), text, extractions: Some(out) },
                );
            }
            from = id + 1;
        }
    }

    /// The failed chunks among the results, in the order of the results.
    pub fn collect_failures(&self, results: &Vec<ChunkResult>) -> (r: Vec<ChunkFailure>)
        ensures
            r@.map_values(|f: ChunkFailure| (f.chunk_id, f.error@)) == failures_of(
                results@,
                results.len() as int,
            ),
    {
        let mut out: Vec<ChunkFailure> = Vec::new();
        let mut i: usize = 0;
        assert(out@.map_values(|f: ChunkFailure| (f.chunk_id, f.error@)) =~= failures_of(results@, 0));
        while i < results.len()
            invariant
                i <= results.len(),
                out@.map_values(|f: ChunkFailure| (f.chunk_id, f.error@)) == failures_of(
                    results@,
                    i as int,
                ),
            decreases results.len() - i,
        {
            match &results[i].outcome {
                ChunkOutcome::Failure(error) => {
                    let ghost before = out@;
                    let failure = ChunkFailure { chunk_id: results[i].chunk_id, error: error.clone() };
                    out.push(failure);
                    assert(out@.map_values(|f: ChunkFailure| (f.chunk_id, f.error@)) =~= before.map_values(
                        |f: ChunkFailure| (f.chunk_id, f.error@),
                    ).push((failure.chunk_id, failure.error@)));
                },
                ChunkOutcome::Success(_) => {},
            }
            i = i + 1;
        }
        out
    }
}

/// The failures among the first `n` results: chunk id and message.
pub open spec fn failures_of(results: Seq<ChunkResult>, n: int) -> Seq<(usize, Seq<char>)>
    decreases n,
{
    if n <= 0 {
        Seq::empty()
    } else {
        match results[n - 1].outcome {
            ChunkOutcome::Failure(error) => failures_of(results, n - 1).push(
                (results[n - 1].chunk_id, error@),
            ),
            ChunkOutcome::Success(_) => failures_of(results, n - 1),
        }
    }
}

/// What the first `n` results add, taken in the order of the results.
pub open spec fn kept_in_order(results: Seq<ChunkResult>, n: int) -> Seq<ExtractionView>
    decreases n,
{
    if n <= 0 {
        Seq::empty()
    } else {
        kept_in_order(results, n - 1) + kept(results[n - 1])
    }
}

proof fn lemma_gathered_for_own_id(results: Seq<ChunkResult>, id: int, n: int)
    requires
        0 <= n <= results.len(),
        forall|i: int| 0 <= i < results.len() ==> (#[trigger] results[i]).chunk_id == i,
    ensures
        gathered_for(results, id, n) == if 0 <= id < n {
            kept(results[id])
        } else {
            Seq::empty()
        },
    decreases n,
{
    if n > 0 {
        lemma_gathered_for_own_id(results, id, n - 1);
        assert(results[n - 1].chunk_id == n - 1);
        if id == n - 1 {
            assert(Seq::<ExtractionView>::empty() + kept(results[id]) =~= kept(results[id]));
        }
    }
}

proof fn lemma_least_own_id(results: Seq<ChunkResult>, from: int, n: int)
    requires
        0 <= from,
        0 <= n <= results.len(),
        forall|i: int| 0 <= i < results.len() ==> (#[trigger] results[i]).chunk_id == i,
    ensures
        least_id(results, from, n) == if from < n {
            Some(from)
        } else {
            None
        },
    decreases n,
{
    if n > 0 {
        lemma_least_own_id(results, from, n - 1);
        assert(results[n - 1].chunk_id == n - 1);
    }
}

proof fn lemma_gathered_suffix(results: Seq<ChunkResult>, from: int)
    requires
        0 <= from <= results.len(),
        results.len() <= usize::MAX,
        forall|i: int| 0 <= i < results.len() ==> (#[trigger] results[i]).chunk_id == i,
    ensures
        kept_in_order(results, results.len() as int) == kept_in_order(results, from) + gathered_from(
            results,
            from,
        ),
    decreases results.len() - from,
{
    let n = results.len() as int;
    lemma_least_own_id(results, from, n);
    if from < n {
        lemma_gathered_suffix(results, from + 1);
        lemma_gathered_for_own_id(results, from, n);
        let head = kept_in_order(results, from);
        let mine = kept(results[from]);
        let rest = gathered_from(results, from + 1);
        assert(head + mine + rest =~= head + (mine + rest));
    } else {
        assert(kept_in_order(results, n) + Seq::<ExtractionView>::empty() =~= kept_in_order(results, n));
    }
}

/// Where there is one result for each chunk and the results stand in the
/// order of the chunks, every result adds what it keeps exactly once, in
/// that order.
pub proof fn lemma_gathered_in_order(results: Seq<ChunkResult>)
    requires
        results.len() <= usize::MAX,
        forall|i: int| 0 <= i < results.len() ==> (#[trigger] results[i]).chunk_id == i,
    ensures
        gathered(results) == kept_in_order(results, results.len() as int),
{
    lemma_gathered_suffix(results, 0);
    assert(kept_in_order(results, 0) + gathered_from(results, 0) =~= gathered_from(results, 0));
}

/// A failed result adds nothing; a successful result without a shared span
/// adds all its extractions.
pub proof fn lemma_kept_of_result(r: ChunkResult)
    ensures
        !r.succeeded() ==> kept(r).len() == 0,
        r.outcome matches ChunkOutcome::Success(items) ==> (r.overlap_info is None ==> kept(r)
            == extraction_views(items@)),
{
    match r.outcome {
        ChunkOutcome::Success(items) => {
            if r.overlap_info is None {
                lemma_kept_all(items@, items@.len() as int);
                assert(extraction_views(items@).take(items@.len() as int) =~= extraction_views(items@));
            }
        },
        ChunkOutcome::Failure(_) => {},
    }
}

proof fn lemma_kept_all(items: Seq<Extraction>, n: int)
    requires
        0 <= n <= items.len(),
    ensures
        kept_prefix(items, None, n) == extraction_views(items).take(n),
    decreases n,
{
    if n > 0 {
        lemma_kept_all(items, n - 1);
        assert(extraction_views(items).take(n) =~= extraction_views(items).take(n - 1).push(items[n - 1]@));
    } else {
        assert(extraction_views(items).take(0) =~= Seq::<ExtractionView>::empty());
    }
}

} // verus!
