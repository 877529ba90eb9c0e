use langextract_rust::aggregation::{AggregationError, ChunkOutcome, ChunkResult};
use langextract_rust::chunking::{ChunkingConfig, ChunkingStrategy, TextChunk, TextChunker};
use langextract_rust::data::{AlignmentStatus, CharInterval, Extraction};
use langextract_rust::multipass::MultiPassConfig;
use langextract_rust::pipeline::{ChunkedRun, PipelineAction};
use langextract_rust::scheduler::SchedulerError;

fn ten_chunks() -> (String, Vec<TextChunk>) {
    let text = "a0 a1 a2 a3 a4 a5 a6 a7 a8 a9 ".to_string();
    let chunks = TextChunker::with_config(ChunkingConfig {
        max_chunk_size: 3,
        overlap_size: 0,
        strategy: ChunkingStrategy::FixedSize,
    })
    .chunk_text(&text, None)
    .unwrap();
    assert_eq!(chunks.len(), 10);
    (text, chunks)
}

fn exact(chunk: &TextChunk, text: &str) -> Extraction {
    let mut e = Extraction::new("n".to_string(), text.to_string());
    e.char_interval =
        Some(CharInterval { start_pos: chunk.char_offset, end_pos: chunk.char_offset + text.chars().count() });
    e.alignment_status = AlignmentStatus::Exact;
    e
}

fn single_pass() -> MultiPassConfig {
    MultiPassConfig::default()
}

/// Drives a run to its end. `answer` says what a chunk gives in a pass;
/// results come back newest first.
fn drive(
    run: ChunkedRun,
    chunks: &Vec<TextChunk>,
    max_workers: usize,
    answer: &dyn Fn(usize, usize) -> ChunkResult,
) -> (ChunkedRun, Vec<(usize, usize)>) {
    let mut run = run;
    let mut outstanding: Vec<usize> = Vec::new();
    let mut calls: Vec<(usize, usize)> = Vec::new();
    let mut seen = vec![0usize; chunks.len()];
    loop {
        let (next, action) = run.advance();
        run = next;
        match action {
            PipelineAction::Dispatch(id) => {
                seen[id] += 1;
                calls.push((id, seen[id]));
                outstanding.push(id);
                assert!(outstanding.len() <= max_workers);
            }
            PipelineAction::Wait => {
                let id = outstanding.pop().unwrap();
                assert!(run.accept(answer(id, seen[id])));
            }
            PipelineAction::Finished => break,
        }
    }
    assert!(outstanding.is_empty());
    (run, calls)
}

#[test]
fn a_run_keeps_within_its_workers_and_loses_nothing() {
    let (text, chunks) = ten_chunks();
    let run = ChunkedRun::start(&chunks, single_pass(), 2).unwrap();
    let answer = |id: usize, _pass: usize| {
        ChunkResult::success(id, vec![exact(&chunks[id], &format!("a{}", id))], chunks[id].char_offset, 3)
    };
    let (run, calls) = drive(run, &chunks, 2, &answer);
    let ids: Vec<usize> = calls.iter().map(|c| c.0).collect();
    assert_eq!(ids, (0..10).collect::<Vec<usize>>());
    let doc = run.finish(text.clone(), None).unwrap();
    let got: Vec<String> = doc.extractions.unwrap().into_iter().map(|e| e.extraction_text).collect();
    assert_eq!(got, (0..10).map(|i| format!("a{}", i)).collect::<Vec<String>>());
    assert_eq!(doc.text, text);
}

#[test]
fn a_run_survives_a_failed_chunk() {
    let (text, chunks) = ten_chunks();
    let five: Vec<TextChunk> = TextChunker::with_config(ChunkingConfig {
        max_chunk_size: 6,
        overlap_size: 0,
        strategy: ChunkingStrategy::FixedSize,
    })
    .chunk_text(&text, None)
    .unwrap();
    assert_eq!(five.len(), 5);
    assert_eq!(chunks.len(), 10);
    let run = ChunkedRun::start(&five, single_pass(), 3).unwrap();
    let answer = |id: usize, _pass: usize| {
        if id == 3 {
            ChunkResult::failure(id, five[id].char_offset, 6, "connection reset".to_string())
        } else {
            ChunkResult::success(id, vec![exact(&five[id], &format!("a{}", 2 * id))], five[id].char_offset, 6)
        }
    };
    let (run, _) = drive(run, &five, 3, &answer);
    let results = run.ledger.results();
    assert!(!results[3].is_success());
    assert!(matches!(&results[3].outcome, ChunkOutcome::Failure(e) if e == "connection reset"));
    assert_eq!((results[3].chunk_id, results[3].char_offset, results[3].char_length), (3, 18, 6));
    assert_eq!(results[3].extraction_count(), 0);
    let doc = run.finish(text, None).unwrap();
    let got: Vec<String> = doc.extractions.unwrap().into_iter().map(|e| e.extraction_text).collect();
    assert_eq!(got, vec!["a0", "a2", "a4", "a8"]);
}

#[test]
fn a_run_fails_when_every_chunk_failed() {
    let (text, chunks) = ten_chunks();
    let run = ChunkedRun::start(&chunks, single_pass(), 4).unwrap();
    let answer = |id: usize, _pass: usize| ChunkResult::failure(id, 0, 0, "down".to_string());
    let (run, calls) = drive(run, &chunks, 4, &answer);
    assert_eq!(calls.len(), 10);
    assert_eq!(run.finish(text, None).err(), Some(AggregationError::AllChunksFailed));
}

#[test]
fn a_run_without_chunks_is_finished_at_once() {
    let chunks: Vec<TextChunk> = Vec::new();
    let run = ChunkedRun::start(&chunks, single_pass(), 1).unwrap();
    let (run, action) = run.advance();
    assert_eq!(action, PipelineAction::Finished);
    let doc = run.finish(String::new(), None).unwrap();
    assert_eq!(doc.extractions.unwrap().len(), 0);
}

#[test]
fn a_run_needs_a_worker() {
    let (_, chunks) = ten_chunks();
    assert_eq!(ChunkedRun::start(&chunks, single_pass(), 0).err(), Some(SchedulerError::NoWorkers));
}

#[test]
fn a_run_refuses_results_it_did_not_ask_for() {
    let (_, chunks) = ten_chunks();
    let run = ChunkedRun::start(&chunks, single_pass(), 1).unwrap();
    let (mut run, action) = run.advance();
    assert_eq!(action, PipelineAction::Dispatch(0));
    assert!(run.is_well_formed());
    assert!(!run.accept(ChunkResult::success(1, vec![], 0, 0)));
    let (mut run, action) = run.advance();
    assert_eq!(action, PipelineAction::Wait);
    assert!(run.accept(ChunkResult::success(0, vec![], 0, 0)));
    assert!(!run.accept(ChunkResult::success(0, vec![], 0, 0)));
    let (_, action) = run.advance();
    assert_eq!(action, PipelineAction::Dispatch(1));
}

#[test]
fn later_passes_take_the_chunks_that_gave_too_little() {
    let (text, chunks) = ten_chunks();
    let config = MultiPassConfig {
        enable_multipass: true,
        extraction_passes: 3,
        multipass_min_extractions: 1,
        multipass_quality_threshold: 300,
    };
    let run = ChunkedRun::start(&chunks, config, 2).unwrap();
    // chunk 4 gives nothing in the first pass and two extractions in the second;
    // chunk 7 fails in the first pass, gives nothing in the second and one in the third
    let answer = |id: usize, pass: usize| {
        let chunk = &chunks[id];
        let items = match (id, pass) {
            (4, 1) => vec![],
            (4, _) => vec![exact(chunk, "a4"), exact(chunk, "a")],
            (7, 1) => return ChunkResult::failure(id, chunk.char_offset, 3, "busy".to_string()),
            (7, 2) => vec![],
            _ => vec![exact(chunk, &format!("a{}", id))],
        };
        ChunkResult::success(id, items, chunk.char_offset, 3)
    };
    let (run, calls) = drive(run, &chunks, 2, &answer);
    assert_eq!(calls.len(), 13);
    assert_eq!(&calls[10..], &[(4, 2), (7, 2), (7, 3)]);
    assert_eq!(run.ledger.passes_done, 3);
    let doc = run.finish(text, None).unwrap();
    let got: Vec<String> = doc.extractions.unwrap().into_iter().map(|e| e.extraction_text).collect();
    assert_eq!(got, vec!["a0", "a1", "a2", "a3", "a4", "a", "a5", "a6", "a7", "a8", "a9"]);
}

#[test]
fn passes_stop_at_the_configured_number() {
    let (_, chunks) = ten_chunks();
    let config = MultiPassConfig {
        enable_multipass: true,
        extraction_passes: 2,
        multipass_min_extractions: 1,
        multipass_quality_threshold: 300,
    };
    let run = ChunkedRun::start(&chunks, config, 5).unwrap();
    let answer = |id: usize, _pass: usize| ChunkResult::success(id, vec![], 0, 0);
    let (run, calls) = drive(run, &chunks, 5, &answer);
    assert_eq!(calls.len(), 20);
    assert_eq!(run.ledger.passes_done, 2);
    let off = MultiPassConfig { enable_multipass: false, ..config };
    let run = ChunkedRun::start(&chunks, off, 5).unwrap();
    let (run, calls) = drive(run, &chunks, 5, &answer);
    assert_eq!(calls.len(), 10);
    assert_eq!(run.ledger.passes_done, 1);
}

#[test]
fn what_is_found_again_is_kept_once() {
    let (text, chunks) = ten_chunks();
    let one: Vec<TextChunk> = chunks.into_iter().take(1).collect();
    let config = MultiPassConfig {
        enable_multipass: true,
        extraction_passes: 3,
        multipass_min_extractions: 2,
        multipass_quality_threshold: 300,
    };
    let run = ChunkedRun::start(&one, config, 1).unwrap();
    let answer = |id: usize, _pass: usize| ChunkResult::success(id, vec![exact(&one[0], "a0")], 0, 3);
    let (run, calls) = drive(run, &one, 1, &answer);
    assert_eq!(calls.len(), 3);
    let doc = run.finish(text, None).unwrap();
    assert_eq!(doc.extraction_count(), 1);
}

#[test]
fn a_broken_run_is_told_from_a_sound_one() {
    let (_, chunks) = ten_chunks();
    let run = ChunkedRun::start(&chunks, single_pass(), 2).unwrap();
    assert!(run.is_well_formed());
    let (mut run, _) = run.advance();
    assert!(run.is_well_formed());
    run.scheduler.in_flight.push(0);
    assert!(!run.is_well_formed());
    run.scheduler.in_flight.pop();
    assert!(run.is_well_formed());
    run.scheduler.next = 5;
    assert!(!run.is_well_formed());
    run.scheduler.next = 1;
    run.scheduler.max_workers = 0;
    assert!(!run.is_well_formed());
    run.scheduler.max_workers = 2;
    run.scheduler.results[0] = Some(ChunkResult::success(0, vec![], 0, 0));
    assert!(!run.is_well_formed());
    run.scheduler.results[0] = None;
    run.scheduler.jobs[1] = 0;
    assert!(!run.is_well_formed());
}
