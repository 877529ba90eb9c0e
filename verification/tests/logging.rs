use langextract_rust::logging::{
    get_progress_handler, init_progress_handler, report_progress, ConsoleProgressHandler, LogLevel,
    LogProgressHandler, ProgressEvent, ProgressHandler, ProgressRegistry, ProgressTarget,
    SilentProgressHandler,
};
use std::sync::Arc;

fn started() -> ProgressEvent {
    ProgressEvent::ProcessingStarted {
        text_length: 1000,
        model: "test-model".to_string(),
        provider: "test-provider".to_string(),
    }
}

#[test]
fn test_console_handler_formatting() {
    let handler = ConsoleProgressHandler::new();
    let message = handler.format_message("inference", "Test message");
    assert!(message.contains("[inference]"));
    assert!(message.contains("Test message"));

    let machine_handler = ConsoleProgressHandler::machine_readable();
    let machine_message = machine_handler.format_message("chunking", "Test message");
    assert!(machine_message.contains("[chunking]"));
    assert!(machine_message.contains("Test message"));
}

#[test]
fn test_progress_events() {
    let handler = ConsoleProgressHandler::quiet();

    // Should not panic
    handler.handle_progress(ProgressEvent::ProcessingStarted {
        text_length: 1000,
        model: "test-model".to_string(),
        provider: "test-provider".to_string(),
    });
}

#[test]
fn format_message_is_tag_then_message() {
    let handler = ConsoleProgressHandler::new();
    assert_eq!(handler.format_message("inference", "Test message"), "[inference] Test message");
    assert_eq!(handler.format_message("", ""), "[] ");
}

#[test]
fn console_constructors_set_flags() {
    let h = ConsoleProgressHandler::new();
    assert!(h.show_progress && !h.show_debug);
    let h = ConsoleProgressHandler::quiet();
    assert!(!h.show_progress && !h.show_debug);
    let h = ConsoleProgressHandler::verbose();
    assert!(h.show_progress && h.show_debug);
    let h = ConsoleProgressHandler::machine_readable();
    assert!(h.show_progress && !h.show_debug);
    let h = ConsoleProgressHandler::default();
    assert!(h.show_progress && !h.show_debug);
}

#[test]
fn console_line_for_processing_started() {
    let line = ConsoleProgressHandler::new().handle_progress(started()).unwrap();
    assert_eq!(line.target, ProgressTarget::Stdout);
    assert_eq!(line.text, "[inference] test-provider/test-model -- 1000 chars input");
}

#[test]
fn quiet_console_shows_only_errors() {
    let quiet = ConsoleProgressHandler::quiet();
    assert!(quiet.handle_progress(started()).is_none());
    assert!(quiet
        .handle_progress(ProgressEvent::Debug { operation: "a".to_string(), details: "b".to_string() })
        .is_none());
    let line = quiet
        .handle_progress(ProgressEvent::Error { operation: "model".to_string(), error: "boom".to_string() })
        .unwrap();
    assert_eq!(line.target, ProgressTarget::Stderr);
    assert_eq!(line.text, "[error] model: boom");
}

#[test]
fn console_debug_events_need_debug_flag() {
    let plain = ConsoleProgressHandler::new();
    let verbose = ConsoleProgressHandler::verbose();
    let call = || ProgressEvent::ModelCall {
        provider: "p".to_string(),
        model: "m".to_string(),
        input_length: 42,
    };
    assert!(plain.handle_progress(call()).is_none());
    assert_eq!(verbose.handle_progress(call()).unwrap().text, "[inference] p API call -- 42 chars");
    let response = verbose
        .handle_progress(ProgressEvent::ModelResponse { success: true, output_length: None })
        .unwrap();
    assert_eq!(response.text, "[inference] response received -- 0 chars");
    let response = verbose
        .handle_progress(ProgressEvent::ModelResponse { success: true, output_length: Some(17) })
        .unwrap();
    assert_eq!(response.text, "[inference] response received -- 17 chars");
    let response = verbose
        .handle_progress(ProgressEvent::ModelResponse { success: false, output_length: Some(17) })
        .unwrap();
    assert_eq!(response.text, "[inference] no response from model");
    let debug = verbose
        .handle_progress(ProgressEvent::Debug { operation: "op".to_string(), details: "d".to_string() })
        .unwrap();
    assert_eq!(debug.text, "[debug] op: d");
    let validation = verbose
        .handle_progress(ProgressEvent::ValidationCompleted {
            extractions_found: 3,
            aligned_count: 2,
            errors: 0,
            warnings: 10,
        })
        .unwrap();
    assert_eq!(validation.text, "[validation] 3 extractions (2 aligned), 0 errors, 10 warnings");
    assert!(verbose.handle_progress(ProgressEvent::ValidationStarted { raw_output_length: 5 }).is_none());
}

#[test]
fn console_progress_events_have_their_lines() {
    let h = ConsoleProgressHandler::new();
    let text = |e: ProgressEvent| h.handle_progress(e).unwrap().text;
    assert_eq!(
        text(ProgressEvent::ChunkingStarted {
            total_chars: 12345,
            chunk_count: 7,
            strategy: "token-based".to_string()
        }),
        "[chunking] 7 chunks (token-based strategy, 12345 chars total)"
    );
    assert_eq!(
        text(ProgressEvent::BatchProgress {
            batch_number: 1,
            total_batches: 1,
            chunks_processed: 0,
            total_chunks: 10
        }),
        "[progress] 0/10 chunks processed"
    );
    assert_eq!(
        text(ProgressEvent::AggregationStarted { chunk_count: 5 }),
        "[aggregation] merging results from 5 chunks"
    );
    assert_eq!(
        text(ProgressEvent::ProcessingCompleted { total_extractions: 99, processing_time_ms: 1 }),
        "[done] 99 extractions found"
    );
    assert_eq!(
        text(ProgressEvent::RetryAttempt {
            operation: "call".to_string(),
            attempt: 2,
            max_attempts: 3,
            delay_seconds: 30
        }),
        "[retry] call failed (attempt 2/3), retrying in 30s"
    );
}

#[test]
fn numbers_are_written_in_decimal() {
    let h = LogProgressHandler;
    let line = h
        .handle_progress(ProgressEvent::ProcessingCompleted {
            total_extractions: 0,
            processing_time_ms: u64::MAX,
        })
        .unwrap();
    assert_eq!(line.text, "Extraction completed: 0 extractions in 18446744073709551615ms");
    let line = h
        .handle_progress(ProgressEvent::ProcessingCompleted { total_extractions: 10, processing_time_ms: 909 })
        .unwrap();
    assert_eq!(line.text, "Extraction completed: 10 extractions in 909ms");
}

#[test]
fn log_handler_levels_and_messages() {
    let h = LogProgressHandler;
    let line = h.handle_progress(started()).unwrap();
    assert_eq!(line.target, ProgressTarget::Log(LogLevel::Info));
    assert_eq!(line.text, "Starting extraction with test-provider model test-model (1000 chars)");
    let line = h
        .handle_progress(ProgressEvent::ChunkingStarted {
            total_chars: 50,
            chunk_count: 2,
            strategy: "semantic".to_string(),
        })
        .unwrap();
    assert_eq!(line.target, ProgressTarget::Log(LogLevel::Info));
    assert_eq!(line.text, "Chunking document: 2 semantic chunks (50 chars)");
    let line = h
        .handle_progress(ProgressEvent::BatchProgress {
            batch_number: 3,
            total_batches: 4,
            chunks_processed: 5,
            total_chunks: 6,
        })
        .unwrap();
    assert_eq!(line.target, ProgressTarget::Log(LogLevel::Debug));
    assert_eq!(line.text, "Processing batch 3: 5/6 chunks");
    let line = h
        .handle_progress(ProgressEvent::ModelCall {
            provider: "p".to_string(),
            model: "m".to_string(),
            input_length: 8,
        })
        .unwrap();
    assert_eq!(line.text, "Calling p model m with 8 chars input");
    let line = h
        .handle_progress(ProgressEvent::ModelResponse { success: false, output_length: None })
        .unwrap();
    assert_eq!(line.target, ProgressTarget::Log(LogLevel::Warn));
    assert_eq!(line.text, "Failed to receive model response");
    let line = h
        .handle_progress(ProgressEvent::ModelResponse { success: true, output_length: Some(12) })
        .unwrap();
    assert_eq!(line.target, ProgressTarget::Log(LogLevel::Debug));
    assert_eq!(line.text, "Received response: 12 chars");
    let line = h.handle_progress(ProgressEvent::ValidationStarted { raw_output_length: 1 }).unwrap();
    assert_eq!(line.target, ProgressTarget::Log(LogLevel::Trace));
    assert_eq!(line.text, "Starting validation");
    let line = h
        .handle_progress(ProgressEvent::ValidationCompleted {
            extractions_found: 1,
            aligned_count: 1,
            errors: 2,
            warnings: 3,
        })
        .unwrap();
    assert_eq!(line.text, "Validation: 1 extractions (1 aligned), 2 errors, 3 warnings");
    let line = h.handle_progress(ProgressEvent::AggregationStarted { chunk_count: 4 }).unwrap();
    assert_eq!(line.text, "Aggregating 4 chunks");
    let line = h
        .handle_progress(ProgressEvent::RetryAttempt {
            operation: "call".to_string(),
            attempt: 1,
            max_attempts: 5,
            delay_seconds: 2,
        })
        .unwrap();
    assert_eq!(line.target, ProgressTarget::Log(LogLevel::Warn));
    assert_eq!(line.text, "Retry 1/5 for call, waiting 2s");
    let line = h
        .handle_progress(ProgressEvent::Error { operation: "x".to_string(), error: "y".to_string() })
        .unwrap();
    assert_eq!(line.target, ProgressTarget::Log(LogLevel::Error));
    assert_eq!(line.text, "x: y");
    let line = h
        .handle_progress(ProgressEvent::Debug { operation: "x".to_string(), details: "z".to_string() })
        .unwrap();
    assert_eq!(line.target, ProgressTarget::Log(LogLevel::Debug));
    assert_eq!(line.text, "x: z");
}

#[test]
fn silent_handler_makes_no_line() {
    assert!(SilentProgressHandler.handle_progress(started()).is_none());
    assert!(SilentProgressHandler
        .handle_progress(ProgressEvent::Error { operation: "x".to_string(), error: "y".to_string() })
        .is_none());
}

#[test]
fn registry_without_a_handler_is_silent() {
    let registry: ProgressRegistry<ConsoleProgressHandler> = ProgressRegistry::new();
    assert!(report_progress(&registry, started()).is_none());
    assert!(report_progress(
        &registry,
        ProgressEvent::Error { operation: "x".to_string(), error: "y".to_string() }
    )
    .is_none());
    let active = get_progress_handler(&registry);
    assert!(active.handle_progress(started()).is_none());
    let again = get_progress_handler(&registry);
    assert!(again.handle_progress(started()).is_none());
}

#[test]
fn registry_keeps_the_first_handler() {
    let mut registry: ProgressRegistry<Arc<dyn ProgressHandler>> = ProgressRegistry::new();
    init_progress_handler(&mut registry, Arc::new(SilentProgressHandler));
    assert!(report_progress(&registry, started()).is_none());
    init_progress_handler(&mut registry, Arc::new(LogProgressHandler));
    assert!(report_progress(&registry, started()).is_none());
}

#[test]
fn registry_uses_the_installed_handler() {
    let mut registry: ProgressRegistry<LogProgressHandler> = ProgressRegistry::new();
    init_progress_handler(&mut registry, LogProgressHandler);
    let line = report_progress(&registry, started()).unwrap();
    assert_eq!(line.target, ProgressTarget::Log(LogLevel::Info));
}
