//! The decisions of the annotation pipeline.
//!
//! Calling the language model is left to the caller. This module decides
//! what is done before and after a call: whether a text is processed whole
//! or in chunks, how a prompt is shown in debug output, what a response
//! becomes, and what a chunk's reply becomes.

use vstd::prelude::*;
use vstd::string::StringExecFns;
use crate::aggregation::{ChunkOutcome, ChunkResult};
use crate::alignment::{aligned_count, aligned_view, AlignmentConfig, TextAligner};
use crate::chunking::{
    is_chunking,
    ChunkingConfig,
    ChunkingError,
    ChunkingStrategy,
    TextChunk,
    TextChunker,
};
use crate::data::{
    extraction_views,
    AlignmentStatus,
    AnnotatedDocument,
    ExampleData,
    Extraction,
    ExtractionView,
};
use crate::resolver::{
    issue_views,
    resolution,
    resolution_failure,
    Mapped,
    Resolver,
    ValidationResult,
};
use crate::text::{decimal, push_decimal, push_range, to_chars};
use crate::tokenizer::{is_tokenization, tokens_of};

verus! {

/// Whether a text is processed whole or in chunks.
#[derive(Clone, Copy, Debug, PartialEq, Eq, Structural)]
pub enum ProcessingMode {
    Direct,
    Chunked,
}

/// What the language model gave for one prompt.
#[derive(Debug)]
pub enum ModelReply {
    /// The text of the first output.
    Text(String),
    /// The call succeeded without any output.
    Empty,
    /// The call failed, with the reason.
    Failed(String),
}

/// What was found when a response was resolved.
#[derive(Debug)]
pub struct ResponseReport {
    /// The number of characters of the text that was processed.
    pub text_length: usize,
    pub extractions_found: usize,
    pub aligned_count: usize,
    /// The warnings and errors of a response that resolved.
    pub validation: Option<ValidationResult>,
    /// Why there are no resolved records: the message of the failure.
    pub failure: Option<String>,
}

/// Whether a report holds the warnings and errors of a resolution, and
/// none where there was no resolution.
pub open spec fn validation_is(validation: Option<ValidationResult>, found: Option<Mapped>) -> bool {
    match found {
        Some(m) => {
            &&& validation matches Some(v)
            &&& issue_views(v.warnings@) == m.warnings
            &&& issue_views(v.errors@) == m.errors
            &&& v.raw_output_file is None
        },
        None => validation is None,
    }
}

/// Whether a report holds the given message, and none where none is given.
pub open spec fn failure_is(failure: Option<String>, message: Option<Seq<char>>) -> bool {
    match message {
        Some(m) => failure matches Some(f) && f@ == m,
        None => failure is None,
    }
}

/// What resolving a response gives, if there is a response.
pub open spec fn resolution_of(response: Option<Seq<char>>, expected: Seq<String>) -> Option<Mapped> {
    match response {
        Some(raw) => resolution(raw, expected),
        None => None,
    }
}

/// The message of the failure to resolve a response, if there is a
/// response and it does not resolve.
pub open spec fn failure_of(response: Option<Seq<char>>, expected: Seq<String>) -> Option<Seq<char>> {
    match response {
        Some(raw) => if resolution(raw, expected) is None {
            Some(resolution_failure(raw))
        } else {
            None
        },
        None => None,
    }
}

/// The response as a text, if there is one.
pub open spec fn response_text(response: Option<&str>) -> Option<Seq<char>> {
    match response {
        Some(raw) => Some(raw@),
        None => None,
    }
}

/// The text of a reply, if it has one.
pub open spec fn reply_text(reply: ModelReply) -> Option<Seq<char>> {
    match reply {
        ModelReply::Text(raw) => Some(raw@),
        _ => None,
    }
}

/// How many of the extractions have an interval.
pub fn count_aligned(items: &Vec<Extraction>) -> (r: usize)
    ensures
        r == aligned_count(extraction_views(items@), items.len() as int),
{
    let mut count: usize = 0;
    let mut i: usize = 0;
    while i < items.len()
        invariant
            i <= items.len(),
            count <= i,
            count == aligned_count(extraction_views(items@), i as int),
        decreases items.len() - i,
    {
        if items[i].char_interval.is_some() {
            count = count + 1;
        }
        i = i + 1;
    }
    count
}

/// The first `n` classes without repetitions, in the order in which they
/// first occur.
pub open spec fn distinct_upto(classes: Seq<Seq<char>>, n: int) -> Seq<Seq<char>>
    decreases n,
{
    if n <= 0 {
        Seq::empty()
    } else if distinct_upto(classes, n - 1).contains(classes[n - 1]) {
        distinct_upto(classes, n - 1)
    } else {
        distinct_upto(classes, n - 1).push(classes[n - 1])
    }
}

/// The classes of the extractions of the first `n` examples, in order.
pub open spec fn example_classes(examples: Seq<ExampleData>, n: int) -> Seq<Seq<char>>
    decreases n,
{
    if n <= 0 {
        Seq::empty()
    } else {
        example_classes(examples, n - 1) + Seq::new(
            examples[n - 1].extractions@.len(),
            |j: int| examples[n - 1].extractions@[j].extraction_class@,
        )
    }
}

/// The fields that responses are expected to have: the classes that the
/// examples use, each once, in the order in which they first occur.
pub open spec fn expected_from(examples: Seq<ExampleData>) -> Seq<Seq<char>> {
    let classes = example_classes(examples, examples.len() as int);
    distinct_upto(classes, classes.len() as int)
}

/// The output budget for a number of expected fields: 200 tokens for each
/// field, at least 500, at most what a `usize` holds.
pub open spec fn estimated_tokens(fields: nat) -> nat {
    let wanted = if fields * 200 > 500 {
        fields * 200
    } else {
        500
    };
    if wanted > usize::MAX {
        usize::MAX as nat
    } else {
        wanted
    }
}

/// The texts of a list of strings.
pub open spec fn string_views(items: Seq<String>) -> Seq<Seq<char>> {
    Seq::new(items.len(), |i: int| items[i]@)
}

/// How a prompt is shown in debug output: whole when it has at most 200
/// characters, else its first 200 characters and its length.
pub open spec fn preview_of(prompt: Seq<char>) -> Seq<char> {
    if prompt.len() > 200 {
        prompt.subrange(0, 200) + "... (truncated, total length: "@ + decimal(prompt.len()) + " chars)"@
    } else {
        prompt
    }
}

/// The extraction that stands for a response that could not be resolved.
pub open spec fn raw_fallback(response: Seq<char>) -> ExtractionView {
    ExtractionView {
        class: "raw_response"@,
        text: response,
        interval: None,
        status: AlignmentStatus::Unaligned,
        attributes: Seq::empty(),
    }
}

/// The records aligned against a source that starts at `base`.
pub open spec fn aligned_all(
    records: Seq<ExtractionView>,
    source: Seq<char>,
    base: int,
    config: AlignmentConfig,
) -> Seq<ExtractionView> {
    Seq::new(records.len(), |i: int| aligned_view(records[i], source, base, config))
}

/// What a response to a whole text becomes: nothing without a response;
/// the resolved records, aligned with the text; or, where the response
/// does not resolve, the response itself as one raw record.
pub open spec fn direct_records(
    response: Option<Seq<char>>,
    expected: Seq<String>,
    text: Seq<char>,
    config: AlignmentConfig,
) -> Seq<ExtractionView> {
    match response {
        None => Seq::empty(),
        Some(raw) => match resolution(raw, expected) {
            Some(m) => aligned_all(m.records, text, 0, config),
            None => seq![raw_fallback(raw)],
        },
    }
}

/// The settings that the pipeline derives from the examples.
#[derive(Debug)]
pub struct Annotator {
    /// Maximum output tokens for inference (given or estimated)
    pub max_output_tokens: usize,
    /// Expected fields derived from the examples
    pub expected_fields: Vec<String>,
}

fn contains_text(items: &Vec<String>, name: &String) -> (r: bool)
    ensures
        r == string_views(items@).contains(name@),
{
    let mut i: usize = 0;
    while i < items.len()
        invariant
            i <= items.len(),
            forall|k: int| 0 <= k < i ==> (#[trigger] items@[k])@ != name@,
        decreases items.len() - i,
    {
        if items[i] == *name {
            assert(string_views(items@)[i as int] == name@);
            return true;
        }
        i = i + 1;
    }
    assert forall|k: int| 0 <= k < string_views(items@).len() implies string_views(items@)[k] != name@ by {
        assert(items@[k]@ != name@);
    }
    false
}

/// The expected fields for a list of examples.
pub fn expected_fields_of(examples: &Vec<ExampleData>) -> (r: Vec<String>)
    ensures
        string_views(r@) == expected_from(examples@),
{
    let mut out: Vec<String> = Vec::new();
    let ghost mut seen: Seq<Seq<char>> = Seq::empty();
    let mut i: usize = 0;
    assert(string_views(out@) =~= distinct_upto(seen, 0));
    while i < examples.len()
        invariant
            i <= examples.len(),
            seen == example_classes(examples@, i as int),
            string_views(out@) == distinct_upto(seen, seen.len() as int),
        decreases examples.len() - i,
    {
        let items = &examples[i].extractions;
        let ghost row = Seq::new(items@.len(), |j: int| items@[j].extraction_class@);
        let ghost base = seen;
        let mut j: usize = 0;
        assert(base + row.take(0) =~= base);
        while j < items.len()
            invariant
                j <= items.len(),
                row == Seq::new(items@.len(), |j: int| items@[j].extraction_class@),
                seen == base + row.take(j as int),
                string_views(out@) == distinct_upto(seen, seen.len() as int),
            decreases items.len() - j,
        {
            let class = &items[j].extraction_class;
            let ghost next = seen.push(class@);
            proof {
                assert(next == base + row.take(j + 1)) by {
                    assert(row.take(j + 1) =~= row.take(j as int).push(row[j as int]));
                    assert(next =~= base + row.take(j + 1));
                }
                lemma_distinct_prefix(seen, next, seen.len() as int);
            }
            if !contains_text(&out, class) {
                let ghost before = out@;
                out.push(class.clone());
                assert(string_views(out@) =~= string_views(before).push(class@));
            }
            proof {
                seen = next;
            }
            j = j + 1;
        }
        assert(row.take(items.len() as int) =~= row);
        i = i + 1;
    }
    out
}

/// The distinct classes of a prefix do not depend on what follows it.
proof fn lemma_distinct_prefix(a: Seq<Seq<char>>, b: Seq<Seq<char>>, n: int)
    requires
        0 <= n <= a.len() <= b.len(),
        forall|k: int| 0 <= k < a.len() ==> a[k] == b[k],
    ensures
        distinct_upto(a, n) == distinct_upto(b, n),
    decreases n,
{
    if n > 0 {
        lemma_distinct_prefix(a, b, n - 1);
    }
}

fn estimate_tokens(fields: usize) -> (r: usize)
    ensures
        r == estimated_tokens(fields as nat),
{
    if fields > usize::MAX / 200 {
        assert(fields * 200 > usize::MAX) by (nonlinear_arith)
            requires
                fields > usize::MAX / 200,
        ;
        usize::MAX
    } else {
        assert(fields * 200 <= usize::MAX) by (nonlinear_arith)
            requires
                fields <= usize::MAX / 200,
        ;
        let wanted = fields * 200;
        if wanted > 500 {
            wanted
        } else {
            500
        }
    }
}

impl Annotator {
    /// The settings for a list of examples, with an estimated output
    /// budget.
    pub fn new(examples: &Vec<ExampleData>) -> (r: Self)
        ensures
            string_views(r.expected_fields@) == expected_from(examples@),
            r.max_output_tokens == estimated_tokens(expected_from(examples@).len()),
    {
        let expected_fields = expected_fields_of(examples);
        let max_output_tokens = estimate_tokens(expected_fields.len());
        Annotator { max_output_tokens, expected_fields }
    }

    /// The settings for a list of examples, with the given output budget or
    /// an estimated one.
    pub fn with_config(examples: &Vec<ExampleData>, max_output_tokens: Option<usize>) -> (r: Self)
        ensures
            string_views(r.expected_fields@) == expected_from(examples@),
            r.max_output_tokens == match max_output_tokens {
                Some(given) => given as nat,
                None => estimated_tokens(expected_from(examples@).len()),
            },
    {
        let expected_fields = expected_fields_of(examples);
        let max_output_tokens = match max_output_tokens {
            Some(given) => given,
            None => estimate_tokens(expected_fields.len()),
        };
        Annotator { max_output_tokens, expected_fields }
    }

    /// Whether a text is processed whole: it is when it has no more
    /// characters than the buffer holds.
    pub fn choose_mode(&self, text: &str, max_char_buffer: usize) -> (r: ProcessingMode)
        ensures
            r == if text@.len() <= max_char_buffer {
                ProcessingMode::Direct
            } else {
                ProcessingMode::Chunked
            },
    {
        if text.unicode_len() <= max_char_buffer {
            ProcessingMode::Direct
        } else {
            ProcessingMode::Chunked
        }
    }

    /// The chunks of a text that does not fit the buffer: it is cut by the
    /// built-in tokenizer at sentence and line ends where that is possible,
    /// without overlap, into chunks of at most `max_char_buffer`
    /// characters.
    pub fn plan_chunks(&self, text: &str, max_char_buffer: usize) -> (r: Result<Vec<TextChunk>, ChunkingError>)
        ensures
            is_tokenization(text@, tokens_of(text@)),
            r matches Ok(chunks) && is_chunking(
                text@,
                tokens_of(text@),
                ChunkingConfig {
                    max_chunk_size: max_char_buffer,
                    overlap_size: 0,
                    strategy: ChunkingStrategy::Semantic,
                },
                None,
                chunks@,
            ),
    {
        let chunker = TextChunker::with_config(
            ChunkingConfig {
                max_chunk_size: max_char_buffer,
                overlap_size: 0,
                strategy: ChunkingStrategy::Semantic,
            },
        );
        chunker.chunk_text(text, None)
    }

    /// How a prompt is shown in debug output.
    pub fn prompt_preview(&self, prompt: &str) -> (r: String)
        ensures
            r@ == preview_of(prompt@),
    {
        let chars = to_chars(prompt);
        let mut out = String::new();
        if chars.len() > 200 {
            push_range(&mut out, &chars, 0, 200);
            assert(out@ =~= prompt@.subrange(0, 200));
            out.append("... (truncated, total length: ");
            push_decimal(&mut out, chars.len() as u64);
            out.append(" chars)");
        } else {
            push_range(&mut out, &chars, 0, chars.len());
            assert(out@ =~= prompt@);
        }
        out
    }

    /// Makes a document of the response to a whole text.
    ///
    /// Without a response the document has no extractions. A response that
    /// resolves gives its records, aligned with the text. A response that
    /// does not resolve is kept as one record of class `raw_response`.
    pub fn resolve_response(
        &self,
        text: &str,
        response: Option<&str>,
        resolver: &Resolver,
        aligner: &TextAligner,
    ) -> (r: (AnnotatedDocument, ResponseReport))
        ensures
            r.0.text@ == text@,
            r.0.extractions is Some,
            extraction_views(r.0.items()) == direct_records(
                match response {
                    Some(raw) => Some(raw@),
                    None => None,
                },
                self.expected_fields@,
                text@,
                aligner.config,
            ),
            r.1.text_length == text@.len(),
            r.1.extractions_found == r.0.items().len(),
            r.1.aligned_count == aligned_count(extraction_views(r.0.items()), r.0.items().len() as int),
            validation_is(r.1.validation, resolution_of(response_text(response), self.expected_fields@)),
            failure_is(r.1.failure, failure_of(response_text(response), self.expected_fields@)),
    {
        let owned = String::from_str(text);
        let text_length = text.unicode_len();
        let raw = match response {
            Some(raw) => raw,
            None => {
                let empty: Vec<Extraction> = Vec::new();
                assert(extraction_views(empty@) =~= Seq::<ExtractionView>::empty());
                let aligned = count_aligned(&empty);
                return (
                    AnnotatedDocument::with_extractions(empty, owned),
                    ResponseReport {
                        text_length,
                        extractions_found: 0,
                        aligned_count: aligned,
                        validation: None,
                        failure: None,
                    },
                );
            },
        };
        match resolver.validate_and_parse(raw, &self.expected_fields) {
            Ok((records, result)) => {
                let mut records = records;
                let ghost before = extraction_views(records@);
                let _ = aligner.align_extractions(&mut records, text, 0);
                assert(extraction_views(records@) =~= aligned_all(before, text@, 0, aligner.config));
                let report = ResponseReport {
                    text_length,
                    extractions_found: records.len(),
                    aligned_count: count_aligned(&records),
                    validation: Some(result),
                    failure: None,
                };
                (AnnotatedDocument::with_extractions(records, owned), report)
            },
            Err(error) => {
                let record = Extraction::new(String::from_str("raw_response"), String::from_str(raw));
                let mut records: Vec<Extraction> = Vec::new();
                records.push(record);
                assert(record@.attributes =~= Seq::empty());
                assert(extraction_views(records@) =~= seq![raw_fallback(raw@)]);
                let report = ResponseReport {
                    text_length,
                    extractions_found: 1,
                    aligned_count: count_aligned(&records),
                    validation: None,
                    failure: Some(error.message),
                };
                (AnnotatedDocument::with_extractions(records, owned), report)
            },
        }
    }

    /// Makes a chunk result of the model's reply for a chunk, and reports
    /// what was found.
    ///
    /// A failed call gives a failure with the reason of the call's failure.
    /// A reply that does not resolve gives a failure with the message of
    /// the resolver: the parser's last message, or what is wrong with the
    /// document. A call without output gives a success without
    /// extractions. A reply that resolves gives its records, aligned with
    /// the chunk's text in document positions; where those positions do not
    /// fit a `usize`, the records are left unaligned.
    pub fn resolve_chunk_reply(
        &self,
        chunk: &TextChunk,
        reply: ModelReply,
        resolver: &Resolver,
        aligner: &TextAligner,
        elapsed_ms: u64,
    ) -> (r: (ChunkResult, ResponseReport))
        ensures
            r.0.chunk_id == chunk.id,
            r.0.char_offset == chunk.char_offset,
            r.0.char_length == chunk.char_length,
            r.0.overlap_info == chunk.overlap_info,
            r.0.processing_time_ms == Some(elapsed_ms),
            match reply {
                ModelReply::Failed(error) => r.0.outcome == ChunkOutcome::Failure(error),
                ModelReply::Empty => r.0.outcome matches ChunkOutcome::Success(items) && items@.len() == 0,
                ModelReply::Text(raw) => match resolution(raw@, self.expected_fields@) {
                    None => r.0.outcome matches ChunkOutcome::Failure(error) && error@
                        == resolution_failure(raw@),
                    Some(m) => {
                        &&& r.0.outcome matches ChunkOutcome::Success(items)
                        &&& extraction_views(items@) == if chunk.text@.len() + chunk.char_offset
                            <= usize::MAX {
                            aligned_all(m.records, chunk.text@, chunk.char_offset as int, aligner.config)
                        } else {
                            m.records
                        }
                    },
                },
            },
            r.1.text_length == chunk.text@.len(),
            r.1.extractions_found == r.0.yield_count(),
            r.1.aligned_count == match r.0.outcome {
                ChunkOutcome::Success(items) => aligned_count(extraction_views(items@), items@.len() as int),
                ChunkOutcome::Failure(_) => 0,
            },
            validation_is(r.1.validation, resolution_of(reply_text(reply), self.expected_fields@)),
            failure_is(
                r.1.failure,
                match r.0.outcome {
                    ChunkOutcome::Failure(error) => Some(error@),
                    ChunkOutcome::Success(_) => None,
                },
            ),
    {
        let text_length = chunk.text.as_str().unicode_len();
        let mut report = ResponseReport {
            text_length,
            extractions_found: 0,
            aligned_count: 0,
            validation: None,
            failure: None,
        };
        let outcome = match reply {
            ModelReply::Failed(error) => {
                report.failure = Some(error.clone());
                ChunkOutcome::Failure(error)
            },
            ModelReply::Empty => ChunkOutcome::Success(Vec::new()),
            ModelReply::Text(raw) => match resolver.validate_and_parse(raw.as_str(), &self.expected_fields) {
                Ok((records, result)) => {
                    let mut records = records;
                    let ghost before = extraction_views(records@);
                    let aligned = aligner.align_chunk_extractions(
                        &mut records,
                        chunk.text.as_str(),
                        chunk.char_offset,
                    );
                    proof {
                        if aligned is Ok {
                            assert(extraction_views(records@) =~= aligned_all(
                                before,
                                chunk.text@,
                                chunk.char_offset as int,
                                aligner.config,
                            ));
                        }
                    }
                    report.extractions_found = records.len();
                    report.aligned_count = count_aligned(&records);
                    report.validation = Some(result);
                    ChunkOutcome::Success(records)
                },
                Err(error) => {
                    report.failure = Some(error.message.clone());
                    ChunkOutcome::Failure(error.message)
                },
            },
        };
        proof {
            if outcome is Success {
                let items = outcome->Success_0;
                if items@.len() == 0 {
                    assert(aligned_count(extraction_views(items@), 0) == 0);
                }
            }
        }
        (
            ChunkResult {
                chunk_id: chunk.id,
                outcome,
                char_offset: chunk.char_offset,
                char_length: chunk.char_length,
                overlap_info: chunk.overlap_info,
                processing_time_ms: Some(elapsed_ms),
            },
            report,
        )
    }
}

} // verus!
