use langextract_rust::aggregation::{
    AggregationError, ChunkOutcome, ChunkResult, ResultAggregator,
};
use langextract_rust::alignment::TextAligner;
use langextract_rust::annotation::{Annotator, ModelReply, ProcessingMode};
use langextract_rust::chunking::{ChunkingConfig, ChunkingStrategy, TextChunker};
use langextract_rust::coercion::ValueKind;
use langextract_rust::data::{
    AlignmentStatus, AnnotatedDocument, CharInterval, Document, ExampleData, Extraction,
};
use langextract_rust::ledger::PassLedger;
use langextract_rust::multipass::{merge_pass, quality_of, select_for_refinement, MultiPassConfig};
use langextract_rust::resolver::Resolver;
use langextract_rust::scheduler::{ChunkScheduler, SchedulerError};

fn found(class: &str, text: &str, start: usize, end: usize, status: AlignmentStatus) -> Extraction {
    let mut e = Extraction::new(class.to_string(), text.to_string());
    e.char_interval = Some(CharInterval { start_pos: start, end_pos: end });
    e.alignment_status = status;
    e
}

fn loose(class: &str, text: &str) -> Extraction {
    Extraction::new(class.to_string(), text.to_string())
}

fn texts(doc: &AnnotatedDocument) -> Vec<String> {
    doc.extractions.as_ref().unwrap().iter().map(|e| e.extraction_text.clone()).collect()
}

fn success(id: usize, items: Vec<Extraction>) -> ChunkResult {
    ChunkResult::success(id, items, id * 10, 10)
}

fn multipass(passes: usize, min: usize, threshold: u32) -> MultiPassConfig {
    MultiPassConfig {
        enable_multipass: true,
        extraction_passes: passes,
        multipass_min_extractions: min,
        multipass_quality_threshold: threshold,
    }
}

fn examples() -> Vec<ExampleData> {
    vec![
        ExampleData::new(
            "Dr. John Smith from Harvard University".to_string(),
            vec![loose("person", "Dr. John Smith"), loose("organization", "Harvard University")],
        ),
        ExampleData::new(
            "Prof. Jane Doe at MIT in Boston".to_string(),
            vec![loose("person", "Prof. Jane Doe"), loose("organization", "MIT"), loose("location", "Boston")],
        ),
    ]
}

#[test]
fn one_failed_chunk_does_not_fail_the_document() {
    let mut results = Vec::new();
    for id in 0..5 {
        if id == 3 {
            results.push(ChunkResult::failure(id, 30, 10, "model timed out".to_string()));
        } else {
            results.push(success(id, vec![loose("n", &format!("item {}", id))]));
        }
    }
    let aggregator = ResultAggregator::new();
    let failures = aggregator.collect_failures(&results);
    assert_eq!(failures.len(), 1);
    assert_eq!(failures[0].chunk_id, 3);
    assert_eq!(failures[0].error, "model timed out");
    let doc = aggregator.aggregate_chunk_results(results, "the text".to_string(), None).unwrap();
    assert_eq!(texts(&doc), vec!["item 0", "item 1", "item 2", "item 4"]);
    assert_eq!(doc.text, "the text");
    assert_eq!(doc.extraction_count(), 4);
}

#[test]
fn all_chunks_failing_is_an_error() {
    let results = vec![
        ChunkResult::failure(0, 0, 10, "a".to_string()),
        ChunkResult::failure(1, 10, 10, "b".to_string()),
    ];
    let outcome = ResultAggregator::new().aggregate_chunk_results(results, "t".to_string(), None);
    assert_eq!(outcome.err(), Some(AggregationError::AllChunksFailed));
}

#[test]
fn no_results_give_an_empty_document() {
    let doc = ResultAggregator::new()
        .aggregate_chunk_results(vec![], "t".to_string(), Some("id-7".to_string()))
        .unwrap();
    assert_eq!(doc.extractions.as_ref().unwrap().len(), 0);
    assert_eq!(doc.document_id, Some("id-7".to_string()));
}

#[test]
fn any_chunk_ids_are_taken_in_rising_order() {
    let results = vec![
        success(usize::MAX, vec![loose("n", "last")]),
        success(7, vec![loose("n", "seven")]),
        ChunkResult::failure(3, 0, 1, "x".to_string()),
        success(0, vec![loose("n", "zero")]),
        success(7, vec![loose("n", "seven again")]),
    ];
    let doc = ResultAggregator::new().aggregate_chunk_results(results, "t".to_string(), None).unwrap();
    assert_eq!(texts(&doc), vec!["zero", "seven", "seven again", "last"]);
    let results = vec![ChunkResult::failure(5, 0, 1, "x".to_string())];
    let outcome = ResultAggregator::new().aggregate_chunk_results(results, "t".to_string(), None);
    assert_eq!(outcome.err(), Some(AggregationError::AllChunksFailed));
}

#[test]
fn results_are_listed_by_chunk_id() {
    let results = vec![
        success(2, vec![loose("n", "c1"), loose("n", "c2")]),
        success(0, vec![loose("n", "a")]),
        success(1, vec![loose("n", "b")]),
        success(0, vec![loose("n", "a-again")]),
    ];
    let doc = ResultAggregator::new().aggregate_chunk_results(results, "t".to_string(), None).unwrap();
    assert_eq!(texts(&doc), vec!["a", "a-again", "b", "c1", "c2"]);
}

#[test]
fn extractions_inside_the_shared_span_are_dropped() {
    let first = success(0, vec![found("n", "bb", 3, 5, AlignmentStatus::Exact)]);
    let second = ChunkResult::success(
        1,
        vec![
            found("other", "bb", 3, 5, AlignmentStatus::Exact),
            found("n", "bb cc", 3, 8, AlignmentStatus::Exact),
            found("n", "cc", 6, 8, AlignmentStatus::Exact),
            loose("n", "unplaced"),
            found("n", "", 6, 6, AlignmentStatus::Exact),
        ],
        3,
        6,
    )
    .with_overlap(Some(CharInterval { start_pos: 3, end_pos: 6 }))
    .with_processing_time(12);
    assert_eq!(second.processing_time_ms, Some(12));
    assert_eq!(second.extraction_count(), 5);
    assert!(second.is_success());
    let doc = ResultAggregator::new()
        .aggregate_chunk_results(vec![first, second], "aa bb cc dd".to_string(), None)
        .unwrap();
    assert_eq!(texts(&doc), vec!["bb", "bb cc", "cc", "unplaced"]);
    assert_eq!(doc.extractions.as_ref().unwrap()[0].extraction_class, "n");
}

#[test]
fn chunk_result_constructors() {
    let ok = ChunkResult::success(4, vec![loose("a", "b")], 40, 7);
    assert_eq!((ok.chunk_id, ok.char_offset, ok.char_length), (4, 40, 7));
    assert!(matches!(ok.outcome, ChunkOutcome::Success(ref items) if items.len() == 1));
    assert_eq!(ok.overlap_info, None);
    assert_eq!(ok.processing_time_ms, None);
    let bad = ChunkResult::failure(5, 50, 8, "why".to_string());
    assert!(!bad.is_success());
    assert_eq!(bad.extraction_count(), 0);
    assert!(matches!(bad.outcome, ChunkOutcome::Failure(ref e) if e == "why"));
}

#[test]
fn at_most_two_chunks_are_outstanding_with_two_workers() {
    let mut scheduler = ChunkScheduler::new(10, 2).unwrap();
    let mut outstanding: Vec<usize> = Vec::new();
    let mut dispatched: Vec<usize> = Vec::new();
    let mut most = 0;
    let mut round = 0;
    while !scheduler.is_finished() {
        while let Some(id) = scheduler.next_dispatch() {
            outstanding.push(id);
            dispatched.push(id);
        }
        assert!(outstanding.len() <= 2);
        assert_eq!(scheduler.outstanding_count(), outstanding.len());
        most = most.max(outstanding.len());
        assert!(scheduler.next_dispatch().is_none());
        // results come back out of order: the newest outstanding chunk first
        let id = if round % 2 == 0 { outstanding.pop().unwrap() } else { outstanding.remove(0) };
        round += 1;
        assert!(scheduler.complete(success(id, vec![loose("n", &format!("item {}", id))])));
    }
    assert_eq!(most, 2);
    assert_eq!(dispatched, (0..10).collect::<Vec<usize>>());
    let results = scheduler.into_results();
    assert_eq!(results.len(), 10);
    for (i, r) in results.iter().enumerate() {
        assert_eq!(r.chunk_id, i);
    }
    let doc = ResultAggregator::new().aggregate_chunk_results(results, "t".to_string(), None).unwrap();
    let want: Vec<String> = (0..10).map(|i| format!("item {}", i)).collect();
    assert_eq!(texts(&doc), want);
}

#[test]
fn scheduler_refuses_what_is_not_outstanding() {
    let mut scheduler = ChunkScheduler::new(3, 5).unwrap();
    assert!(!scheduler.complete(success(0, vec![])));
    assert_eq!(scheduler.next_dispatch(), Some(0));
    assert!(!scheduler.complete(success(1, vec![])));
    assert!(!scheduler.complete(success(7, vec![])));
    assert!(scheduler.complete(success(0, vec![])));
    assert!(!scheduler.complete(success(0, vec![])));
    assert_eq!(scheduler.next_dispatch(), Some(1));
    assert_eq!(scheduler.next_dispatch(), Some(2));
    assert_eq!(scheduler.next_dispatch(), None);
    assert!(!scheduler.is_finished());
    assert!(scheduler.complete(ChunkResult::failure(2, 0, 0, "x".to_string())));
    assert!(scheduler.complete(success(1, vec![])));
    assert!(scheduler.is_finished());
    let results = scheduler.into_results();
    assert!(!results[2].is_success());
}

#[test]
fn scheduler_needs_workers_and_distinct_jobs() {
    assert_eq!(ChunkScheduler::new(3, 0).err(), Some(SchedulerError::NoWorkers));
    assert_eq!(ChunkScheduler::for_jobs(vec![1, 2], 0).err(), Some(SchedulerError::NoWorkers));
    assert_eq!(ChunkScheduler::for_jobs(vec![1, 2, 1], 2).err(), Some(SchedulerError::DuplicateJob));
    let mut scheduler = ChunkScheduler::for_jobs(vec![4, 2], 1).unwrap();
    assert_eq!(scheduler.next_dispatch(), Some(4));
    assert_eq!(scheduler.next_dispatch(), None);
    assert!(scheduler.complete(success(4, vec![])));
    assert_eq!(scheduler.next_dispatch(), Some(2));
    assert!(scheduler.complete(success(2, vec![])));
    let results = scheduler.into_results();
    assert_eq!(results.iter().map(|r| r.chunk_id).collect::<Vec<usize>>(), vec![4, 2]);
    let empty = ChunkScheduler::new(0, 1).unwrap();
    assert!(empty.is_finished());
    assert!(empty.into_results().is_empty());
}

#[test]
fn a_second_pass_fills_an_empty_chunk() {
    let text = "aa bb cc dd";
    let chunks = TextChunker::with_config(ChunkingConfig {
        max_chunk_size: 6,
        overlap_size: 0,
        strategy: ChunkingStrategy::FixedSize,
    })
    .chunk_text(text, None)
    .unwrap();
    assert_eq!(chunks.len(), 2);
    let mut ledger = PassLedger::new(&chunks, multipass(2, 1, 300));
    assert!(ledger.record(ChunkResult::success(0, vec![], 0, 6)));
    assert!(ledger.record(ChunkResult::success(
        1,
        vec![found("n", "cc", 6, 8, AlignmentStatus::Exact)],
        6,
        5
    )));
    assert_eq!(ledger.end_pass(), vec![0]);
    assert!(ledger.record(ChunkResult::success(
        0,
        vec![
            found("n", "aa", 0, 2, AlignmentStatus::Exact),
            found("n", "bb", 3, 5, AlignmentStatus::Fuzzy(700)),
        ],
        0,
        6
    )));
    assert!(ledger.end_pass().is_empty());
    let doc = ResultAggregator::new()
        .aggregate_chunk_results(ledger.results(), text.to_string(), None)
        .unwrap();
    assert_eq!(texts(&doc), vec!["aa", "bb", "cc"]);
}

#[test]
fn duplicates_across_passes_collapse_to_one() {
    let text = "aa bb cc dd";
    let chunks = TextChunker::new().chunk_text(text, None).unwrap();
    assert_eq!(chunks.len(), 1);
    let mut ledger = PassLedger::new(&chunks, multipass(3, 9, 300));
    ledger.record(ChunkResult::success(
        0,
        vec![
            found("n", "aa", 0, 2, AlignmentStatus::Fuzzy(600)),
            loose("n", "bb"),
            loose("n", "cc"),
        ],
        0,
        11,
    ));
    assert_eq!(ledger.end_pass(), vec![0]);
    ledger.record(ChunkResult::success(
        0,
        vec![
            found("n", "aa", 0, 2, AlignmentStatus::Exact),
            found("n", "bb", 3, 5, AlignmentStatus::Fuzzy(500)),
            found("n", "aa", 0, 2, AlignmentStatus::Fuzzy(900)),
            found("n", "cc", 6, 8, AlignmentStatus::Fuzzy(299)),
            found("m", "aa", 0, 2, AlignmentStatus::Exact),
            loose("n", "zz"),
            found("n", "  ", 2, 3, AlignmentStatus::Exact),
        ],
        0,
        11,
    ));
    let results = ledger.results();
    let doc = ResultAggregator::new().aggregate_chunk_results(results, text.to_string(), None).unwrap();
    let items = doc.extractions.unwrap();
    assert_eq!(items.len(), 6);
    assert_eq!((items[0].extraction_class.as_str(), items[0].alignment_status), ("n", AlignmentStatus::Exact));
    assert_eq!(items[1].extraction_text, "bb");
    assert_eq!(items[1].alignment_status, AlignmentStatus::Fuzzy(500));
    assert_eq!(items[1].char_interval, Some(CharInterval { start_pos: 3, end_pos: 5 }));
    // a duplicate below the threshold does not replace what is held
    assert_eq!(items[2].extraction_text, "cc");
    assert_eq!(items[2].alignment_status, AlignmentStatus::Unaligned);
    assert_eq!(items[3].extraction_class, "m");
    // what is found for the first time is kept whatever its quality
    assert_eq!(items[4].extraction_text, "zz");
    assert_eq!(items[5].extraction_text, "  ");
}

#[test]
fn failures_are_remembered_until_a_pass_succeeds() {
    let chunks = TextChunker::new().chunk_text("aa bb", None).unwrap();
    let mut ledger = PassLedger::new(&chunks, multipass(2, 1, 300));
    assert!(!ledger.record(ChunkResult::success(3, vec![], 0, 0)));
    let results = ledger.results();
    assert!(matches!(&results[0].outcome, ChunkOutcome::Failure(e) if e == "chunk was not processed"));
    assert!(ledger.record(ChunkResult::failure(0, 0, 5, "first failure".to_string())));
    assert!(ledger.record(ChunkResult::failure(0, 0, 5, "second failure".to_string())));
    let results = ledger.results();
    assert!(matches!(&results[0].outcome, ChunkOutcome::Failure(e) if e == "second failure"));
    assert_eq!(results[0].char_length, 5);
    assert_eq!(ledger.end_pass(), vec![0]);
    assert_eq!(ledger.passes_done, 1);
    assert!(ledger.record(ChunkResult::success(0, vec![loose("n", "aa")], 0, 5)));
    let results = ledger.results();
    assert!(matches!(&results[0].outcome, ChunkOutcome::Success(items) if items.len() == 1));
    assert!(ledger.end_pass().is_empty());
    assert_eq!(ledger.passes_done, 2);
}

#[test]
fn refinement_needs_to_be_enabled_and_have_passes_left() {
    let counts = vec![0usize, 3, 1, 0];
    assert_eq!(select_for_refinement(&multipass(3, 2, 300), 1, &counts), vec![0, 2, 3]);
    assert_eq!(select_for_refinement(&multipass(3, 1, 300), 2, &counts), vec![0, 3]);
    assert!(select_for_refinement(&multipass(3, 2, 300), 3, &counts).is_empty());
    assert!(select_for_refinement(&multipass(3, 0, 300), 1, &counts).is_empty());
    assert!(select_for_refinement(&MultiPassConfig::default(), 0, &counts).is_empty());
    let off = MultiPassConfig { enable_multipass: false, ..multipass(3, 2, 300) };
    assert!(select_for_refinement(&off, 1, &counts).is_empty());
}

#[test]
fn quality_depends_on_alignment_and_text() {
    assert_eq!(quality_of(&found("n", "aa", 0, 2, AlignmentStatus::Exact)), 1000);
    assert_eq!(quality_of(&found("n", "aa", 0, 2, AlignmentStatus::Fuzzy(640))), 640);
    assert_eq!(quality_of(&found("n", "aa", 0, 2, AlignmentStatus::Fuzzy(5000))), 1000);
    assert_eq!(quality_of(&loose("n", "aa")), 250);
    assert_eq!(quality_of(&loose("n", "")), 0);
    assert_eq!(quality_of(&found("n", " \t\n", 0, 3, AlignmentStatus::Exact)), 0);
}

#[test]
fn the_threshold_bears_on_duplicates_only() {
    let mut have = vec![loose("n", "aa")];
    merge_pass(&mut have, &vec![loose("n", "bb"), loose("n", "aa")], 250);
    assert_eq!(have.len(), 2);
    merge_pass(&mut have, &vec![loose("n", "cc"), loose("n", "")], 1000);
    assert_eq!(have.len(), 4);
    merge_pass(&mut have, &vec![found("n", "aa", 4, 6, AlignmentStatus::Fuzzy(250))], 251);
    assert_eq!(have.len(), 4);
    assert_eq!(have[0].alignment_status, AlignmentStatus::Unaligned);
    merge_pass(&mut have, &vec![found("n", "aa", 4, 6, AlignmentStatus::Fuzzy(251))], 251);
    assert_eq!(have.len(), 4);
    assert_eq!(have[0].alignment_status, AlignmentStatus::Fuzzy(251));
    merge_pass(&mut have, &vec![found("n", "aa", 0, 2, AlignmentStatus::Exact)], 0);
    assert_eq!(have.len(), 5);
    merge_pass(&mut have, &vec![found("n", "aa", 5, 9, AlignmentStatus::Exact)], 0);
    assert_eq!(have.len(), 5);
    assert_eq!(have[0].alignment_status, AlignmentStatus::Exact);
    assert_eq!(have[0].char_interval, Some(CharInterval { start_pos: 5, end_pos: 9 }));
    merge_pass(&mut have, &vec![found("n", "aa", 5, 9, AlignmentStatus::Fuzzy(999))], 0);
    assert_eq!(have[0].alignment_status, AlignmentStatus::Exact);
}

#[test]
fn a_later_pass_fills_a_chunk_that_holds_nothing() {
    let mut have: Vec<Extraction> = Vec::new();
    merge_pass(&mut have, &vec![loose("n", "aa"), found("n", "bb", 3, 5, AlignmentStatus::Fuzzy(10))], 900);
    assert_eq!(have.len(), 2);
    assert_eq!(have[0].extraction_text, "aa");
    assert_eq!(have[1].alignment_status, AlignmentStatus::Fuzzy(10));
}

#[test]
fn the_normalised_text_of_an_extraction() {
    let price = loose("price", "$19.99");
    assert_eq!(price.extraction_text, "$19.99");
    let value = price.normalized_value();
    assert_eq!((value.kind, value.text.as_str()), (ValueKind::Number, "19.99"));
    let flag = loose("active", "Yes").normalized_value();
    assert_eq!((flag.kind, flag.text.as_str()), (ValueKind::Boolean, "true"));
    let name = loose("name", "Widget A").normalized_value();
    assert_eq!((name.kind, name.text.as_str()), (ValueKind::Text, "Widget A"));
}

#[test]
fn expected_fields_come_from_the_examples() {
    let annotator = Annotator::new(&examples());
    assert_eq!(annotator.expected_fields, vec!["person", "organization", "location"]);
    assert_eq!(annotator.max_output_tokens, 600);
    let single = Annotator::new(&vec![ExampleData::new("x".to_string(), vec![loose("a", "x")])]);
    assert_eq!(single.expected_fields, vec!["a"]);
    assert_eq!(single.max_output_tokens, 500);
    let none = Annotator::new(&vec![]);
    assert!(none.expected_fields.is_empty());
    assert_eq!(none.max_output_tokens, 500);
    let given = Annotator::with_config(&examples(), Some(64));
    assert_eq!(given.max_output_tokens, 64);
    assert_eq!(given.expected_fields.len(), 3);
    let estimated = Annotator::with_config(&examples(), None);
    assert_eq!(estimated.max_output_tokens, 600);
}

#[test]
fn texts_within_the_buffer_are_processed_whole() {
    let annotator = Annotator::new(&examples());
    assert_eq!(annotator.choose_mode("abcde", 5), ProcessingMode::Direct);
    assert_eq!(annotator.choose_mode("abcdef", 5), ProcessingMode::Chunked);
    assert_eq!(annotator.choose_mode("", 0), ProcessingMode::Direct);
    assert_eq!(annotator.choose_mode("\u{e9}\u{e9}\u{e9}", 3), ProcessingMode::Direct);
}

#[test]
fn long_texts_are_cut_at_sentence_ends() {
    let annotator = Annotator::new(&examples());
    let chunks = annotator.plan_chunks("One. Two three. Four", 12).unwrap();
    let got: Vec<&str> = chunks.iter().map(|c| c.text.as_str()).collect();
    assert_eq!(got, vec!["One.", " Two three.", " Four"]);
    assert!(chunks.iter().all(|c| c.overlap_info.is_none() && c.document_id.is_none()));
}

#[test]
fn long_prompts_are_previewed() {
    let annotator = Annotator::new(&vec![]);
    assert_eq!(annotator.prompt_preview("short"), "short");
    let exactly = "x".repeat(200);
    assert_eq!(annotator.prompt_preview(&exactly), exactly);
    let long = format!("{}{}", "a".repeat(200), "b".repeat(37));
    assert_eq!(
        annotator.prompt_preview(&long),
        format!("{}... (truncated, total length: 237 chars)", "a".repeat(200))
    );
}

#[test]
fn a_response_becomes_an_aligned_document() {
    let annotator = Annotator::new(&examples());
    let text = "Dr. Sarah Chen works at Stanford University.";
    let response = "```json\n[{\"person\": \"Dr. Sarah Chen\", \"organization\": \"stanford university\", \"role\": \"Yes\"}, {\"person\": \"Nobody Else\",}]\n```";
    let (doc, report) =
        annotator.resolve_response(text, Some(response), &Resolver::new(), &TextAligner::new());
    assert_eq!(doc.text, text);
    let items = doc.extractions.unwrap();
    assert_eq!(items.len(), 3);
    assert_eq!(items[0].char_interval, Some(CharInterval { start_pos: 0, end_pos: 14 }));
    assert_eq!(items[0].alignment_status, AlignmentStatus::Exact);
    assert_eq!(items[0].attributes, vec![("role".to_string(), "true".to_string())]);
    assert_eq!(items[1].char_interval, Some(CharInterval { start_pos: 24, end_pos: 43 }));
    assert_eq!(items[2].extraction_text, "Nobody Else");
    assert_eq!(items[2].char_interval, None);
    assert_eq!(report.text_length, 44);
    assert_eq!(report.extractions_found, 3);
    assert_eq!(report.aligned_count, 2);
    let validation = report.validation.unwrap();
    assert_eq!(validation.errors.len(), 0);
    assert_eq!(validation.warnings.len(), 4);
    assert_eq!(validation.warnings[0].message(), "removed trailing commas");
    assert_eq!(validation.warnings[1].message(), "expected field is missing: location");
    assert_eq!(report.failure, None);
}

#[test]
fn an_unresolvable_response_is_kept_as_raw_text() {
    let annotator = Annotator::new(&examples());
    let (doc, report) = annotator.resolve_response(
        "Some text.",
        Some("I found nothing."),
        &Resolver::new(),
        &TextAligner::new(),
    );
    let items = doc.extractions.unwrap();
    assert_eq!(items.len(), 1);
    assert_eq!(items[0].extraction_class, "raw_response");
    assert_eq!(items[0].extraction_text, "I found nothing.");
    assert_eq!(items[0].char_interval, None);
    assert!(items[0].attributes.is_empty());
    assert_eq!(report.failure, Some("expected value at line 1 column 1".to_string()));
    assert!(report.validation.is_none());
    assert_eq!((report.extractions_found, report.aligned_count), (1, 0));

    let (doc, report) =
        annotator.resolve_response("Some text.", Some("17"), &Resolver::new(), &TextAligner::new());
    assert_eq!(doc.extractions.unwrap()[0].extraction_text, "17");
    assert_eq!(report.failure, Some("the response is not a list or an object".to_string()));

    let (doc, report) = annotator.resolve_response("Some text.", None, &Resolver::new(), &TextAligner::new());
    assert_eq!(doc.extractions.unwrap().len(), 0);
    assert!(report.failure.is_none() && report.validation.is_none());
    assert_eq!(report.extractions_found, 0);
}

#[test]
fn chunk_replies_become_chunk_results() {
    let annotator = Annotator::new(&examples());
    let chunks = annotator.plan_chunks("Ada met Bob. Bob met Cy in Rome.", 13).unwrap();
    assert_eq!(chunks.len(), 3);
    let second = &chunks[1];
    assert_eq!(second.text, " Bob met Cy ");
    let resolver = Resolver::new();
    let aligner = TextAligner::new();
    let (result, report) = annotator.resolve_chunk_reply(
        second,
        ModelReply::Text("[{\"person\": \"Cy\"}, {\"person\": \"Dee\"}]".to_string()),
        &resolver,
        &aligner,
        5,
    );
    assert_eq!(result.chunk_id, 1);
    assert_eq!((result.char_offset, result.char_length), (12, 12));
    assert_eq!(result.processing_time_ms, Some(5));
    match &result.outcome {
        ChunkOutcome::Success(items) => {
            assert_eq!(items.len(), 2);
            assert_eq!(items[0].char_interval, Some(CharInterval { start_pos: 21, end_pos: 23 }));
            assert_eq!(items[1].char_interval, None);
        }
        ChunkOutcome::Failure(_) => panic!("success expected"),
    }
    assert_eq!((report.text_length, report.extractions_found, report.aligned_count), (12, 2, 1));
    assert_eq!(report.validation.unwrap().warnings.len(), 4);
    assert_eq!(report.failure, None);
    let (result, report) =
        annotator.resolve_chunk_reply(second, ModelReply::Failed("no route".to_string()), &resolver, &aligner, 1);
    assert!(matches!(&result.outcome, ChunkOutcome::Failure(e) if e == "no route"));
    assert_eq!(report.failure, Some("no route".to_string()));
    assert!(report.validation.is_none());
    let (result, report) = annotator.resolve_chunk_reply(second, ModelReply::Empty, &resolver, &aligner, 1);
    assert!(matches!(&result.outcome, ChunkOutcome::Success(items) if items.is_empty()));
    assert_eq!((report.extractions_found, report.aligned_count), (0, 0));
    assert!(report.failure.is_none() && report.validation.is_none());
    let (result, report) = annotator.resolve_chunk_reply(
        second,
        ModelReply::Text("sorry".to_string()),
        &resolver,
        &aligner,
        1,
    );
    assert!(matches!(&result.outcome, ChunkOutcome::Failure(e) if e == "expected value at line 1 column 1"));
    assert_eq!(report.failure, Some("expected value at line 1 column 1".to_string()));
    let (result, _) = annotator.resolve_chunk_reply(
        second,
        ModelReply::Text("[{\"person\": \"Cy\" \"x\"".to_string()),
        &resolver,
        &aligner,
        1,
    );
    let last_tried = serde_json::from_str::<serde_json::Value>("[{\"person\": \"Cy\" \"x\"}]")
        .unwrap_err()
        .to_string();
    assert!(matches!(&result.outcome, ChunkOutcome::Failure(e) if *e == last_tried));
    let (result, _) =
        annotator.resolve_chunk_reply(second, ModelReply::Text("true".to_string()), &resolver, &aligner, 1);
    assert!(
        matches!(&result.outcome, ChunkOutcome::Failure(e) if e == "the response is not a list or an object")
    );
}

#[test]
fn interval_relations() {
    let a = CharInterval::new(2, 5);
    assert!(a.overlaps_with(&CharInterval::new(4, 9)));
    assert!(a.overlaps_with(&a));
    assert!(!a.overlaps_with(&CharInterval::new(5, 9)));
    assert!(CharInterval::new(3, 3).overlaps_with(&CharInterval::new(3, 3)));
    assert!(!CharInterval::new(3, 3).overlaps_with(&CharInterval::new(3, 4)));
    assert!(a.is_within(&CharInterval::new(2, 5)));
    assert!(a.is_within(&CharInterval::new(0, 9)));
    assert!(!a.is_within(&CharInterval::new(3, 9)));
    assert!(AlignmentStatus::Exact.confidence() > AlignmentStatus::Fuzzy(u32::MAX).confidence());
    assert!(AlignmentStatus::Fuzzy(1).confidence() > AlignmentStatus::Fuzzy(0).confidence());
    assert!(AlignmentStatus::Fuzzy(0).confidence() > AlignmentStatus::Unaligned.confidence());
}

#[test]
fn documents_and_extractions() {
    let e = loose("a", "b");
    assert!(!e.is_aligned());
    assert_eq!(e.alignment_status, AlignmentStatus::Unaligned);
    let copy = e.clone();
    assert_eq!(copy.extraction_class, "a");
    assert_eq!(copy.extraction_text, "b");
    let d = Document::new("text".to_string());
    assert_eq!((d.text.as_str(), d.document_id, d.additional_context), ("text", None, None));
    let doc = AnnotatedDocument::with_extractions(vec![e], "text".to_string());
    assert_eq!(doc.extraction_count(), 1);
    let none = AnnotatedDocument { document_id: None, text: String::new(), extractions: None };
    assert_eq!(none.extraction_count(), 0);
}
