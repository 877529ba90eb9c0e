//! Progress events and the lines that handlers make of them.
//!
//! A handler does not write anything itself: it says which line, if any, an
//! event gives and where the line belongs. Writing the line is left to the
//! caller.

use std::sync::Arc;
use vstd::prelude::*;
use vstd::string::StringExecFns;
use crate::text::{decimal, push_decimal};

verus! {

/// What happened at one stage of processing.
#[derive(Debug, Clone)]
pub enum ProgressEvent {
    /// Text processing started
    ProcessingStarted { text_length: usize, model: String, provider: String },
    /// Text is being chunked
    ChunkingStarted { total_chars: usize, chunk_count: usize, strategy: String },
    /// Batch processing progress
    BatchProgress { batch_number: usize, total_batches: usize, chunks_processed: usize, total_chunks: usize },
    /// Language model call in progress
    ModelCall { provider: String, model: String, input_length: usize },
    /// Model response received
    ModelResponse { success: bool, output_length: Option<usize> },
    /// Extraction validation and parsing
    ValidationStarted { raw_output_length: usize },
    /// Validation completed
    ValidationCompleted { extractions_found: usize, aligned_count: usize, errors: usize, warnings: usize },
    /// Results aggregation
    AggregationStarted { chunk_count: usize },
    /// Processing completed
    ProcessingCompleted { total_extractions: usize, processing_time_ms: u64 },
    /// Retry attempt
    RetryAttempt { operation: String, attempt: usize, max_attempts: usize, delay_seconds: u64 },
    /// Error occurred
    Error { operation: String, error: String },
    /// Debug information
    Debug { operation: String, details: String },
}

/// The severity of a log record.
#[derive(Clone, Copy, Debug, PartialEq, Eq, Structural)]
pub enum LogLevel {
    Error,
    Warn,
    Info,
    Debug,
    Trace,
}

/// Where a line belongs.
#[derive(Clone, Copy, Debug, PartialEq, Eq, Structural)]
pub enum ProgressTarget {
    Stdout,
    Stderr,
    Log(LogLevel),
}

/// A line to be written, and where.
#[derive(Debug)]
pub struct ProgressLine {
    pub target: ProgressTarget,
    pub text: String,
}

/// The content of an optional line.
pub open spec fn line_view(line: Option<ProgressLine>) -> Option<(ProgressTarget, Seq<char>)> {
    match line {
        Some(l) => Some((l.target, l.text@)),
        None => None,
    }
}

/// Turns progress events into lines.
pub trait ProgressHandler: Send + Sync {
    /// The line that the handler makes of an event, if it makes one.
    spec fn output(&self, event: ProgressEvent) -> Option<(ProgressTarget, Seq<char>)>;

    /// Handle a progress event
    fn handle_progress(&self, event: ProgressEvent) -> (r: Option<ProgressLine>)
        ensures
            line_view(r) == self.output(event),
    ;
}

/// A message behind its stage tag in square brackets.
pub open spec fn tagged(tag: Seq<char>, message: Seq<char>) -> Seq<char> {
    "["@ + tag + "] "@ + message
}

/// The number that a response length stands for: zero when it is unknown.
pub open spec fn length_or_zero(length: Option<usize>) -> nat {
    match length {
        Some(n) => n as nat,
        None => 0,
    }
}

/// The stage tag that the console shows for an event.
pub open spec fn console_tag(event: ProgressEvent) -> Seq<char> {
    match event {
        ProgressEvent::ProcessingStarted { .. } => "inference"@,
        ProgressEvent::ChunkingStarted { .. } => "chunking"@,
        ProgressEvent::BatchProgress { .. } => "progress"@,
        ProgressEvent::ModelCall { .. } => "inference"@,
        ProgressEvent::ModelResponse { .. } => "inference"@,
        ProgressEvent::ValidationStarted { .. } => "validation"@,
        ProgressEvent::ValidationCompleted { .. } => "validation"@,
        ProgressEvent::AggregationStarted { .. } => "aggregation"@,
        ProgressEvent::ProcessingCompleted { .. } => "done"@,
        ProgressEvent::RetryAttempt { .. } => "retry"@,
        ProgressEvent::Error { .. } => "error"@,
        ProgressEvent::Debug { .. } => "debug"@,
    }
}

/// The message that the console shows for an event.
pub open spec fn console_message(event: ProgressEvent) -> Seq<char> {
    match event {
        ProgressEvent::ProcessingStarted { text_length, model, provider } => provider@ + "/"@ + model@
            + " -- "@ + decimal(text_length as nat) + " chars input"@,
        ProgressEvent::ChunkingStarted { total_chars, chunk_count, strategy } => decimal(
            chunk_count as nat,
        ) + " chunks ("@ + strategy@ + " strategy, "@ + decimal(total_chars as nat) + " chars total)"@,
        ProgressEvent::BatchProgress { chunks_processed, total_chunks, .. } => decimal(
            chunks_processed as nat,
        ) + "/"@ + decimal(total_chunks as nat) + " chunks processed"@,
        ProgressEvent::ModelCall { provider, input_length, .. } => provider@ + " API call -- "@ + decimal(
            input_length as nat,
        ) + " chars"@,
        ProgressEvent::ModelResponse { success, output_length } => if success {
            "response received -- "@ + decimal(length_or_zero(output_length)) + " chars"@
        } else {
            "no response from model"@
        },
        ProgressEvent::ValidationStarted { .. } => Seq::empty(),
        ProgressEvent::ValidationCompleted { extractions_found, aligned_count, errors, warnings } => decimal(
            extractions_found as nat,
        ) + " extractions ("@ + decimal(aligned_count as nat) + " aligned), "@ + decimal(errors as nat)
            + " errors, "@ + decimal(warnings as nat) + " warnings"@,
        ProgressEvent::AggregationStarted { chunk_count } => "merging results from "@ + decimal(
            chunk_count as nat,
        ) + " chunks"@,
        ProgressEvent::ProcessingCompleted { total_extractions, .. } => decimal(total_extractions as nat)
            + " extractions found"@,
        ProgressEvent::RetryAttempt { operation, attempt, max_attempts, delay_seconds } => operation@
            + " failed (attempt "@ + decimal(attempt as nat) + "/"@ + decimal(max_attempts as nat)
            + "), retrying in "@ + decimal(delay_seconds as nat) + "s"@,
        ProgressEvent::Error { operation, error } => operation@ + ": "@ + error@,
        ProgressEvent::Debug { operation, details } => operation@ + ": "@ + details@,
    }
}

/// Whether the console shows an event under the given settings: errors
/// always, validation starts never, the stages of a run when progress is
/// shown, the details when debugging is shown.
pub open spec fn console_shows(show_progress: bool, show_debug: bool, event: ProgressEvent) -> bool {
    match event {
        ProgressEvent::Error { .. } => true,
        ProgressEvent::ValidationStarted { .. } => false,
        ProgressEvent::ModelCall { .. } => show_debug,
        ProgressEvent::ModelResponse { .. } => show_debug,
        ProgressEvent::Debug { .. } => show_debug,
        ProgressEvent::ValidationCompleted { .. } => show_debug,
        _ => show_progress,
    }
}

/// Console progress handler that outputs to stdout with pipeline stage tags.
#[derive(Clone, Copy, Debug)]
pub struct ConsoleProgressHandler {
    /// Whether to show progress messages
    pub show_progress: bool,
    /// Whether to show debug information
    pub show_debug: bool,
}

/// Builds the message of an event as the console shows it.
fn console_text(event: &ProgressEvent) -> (out: String)
    ensures
        out@ == console_message(*event),
{
    match event {
        ProgressEvent::ProcessingStarted { text_length, model, provider } => {
            let mut out = provider.clone();
            out.append("/");
            out.append(model.as_str());
            out.append(" -- ");
            push_decimal(&mut out, *text_length as u64);
            out.append(" chars input");
            out
        },
        ProgressEvent::ChunkingStarted { total_chars, chunk_count, strategy } => {
            let mut out = String::new();
            push_decimal(&mut out, *chunk_count as u64);
            assert(out@ =~= decimal(*chunk_count as nat));
            out.append(" chunks (");
            out.append(strategy.as_str());
            out.append(" strategy, ");
            push_decimal(&mut out, *total_chars as u64);
            out.append(" chars total)");
            out
        },
        ProgressEvent::BatchProgress { chunks_processed, total_chunks, .. } => {
            let mut out = String::new();
            push_decimal(&mut out, *chunks_processed as u64);
            assert(out@ =~= decimal(*chunks_processed as nat));
            out.append("/");
            push_decimal(&mut out, *total_chunks as u64);
            out.append(" chunks processed");
            out
        },
        ProgressEvent::ModelCall { provider, input_length, .. } => {
            let mut out = provider.clone();
            out.append(" API call -- ");
            push_decimal(&mut out, *input_length as u64);
            out.append(" chars");
            out
        },
        ProgressEvent::ModelResponse { success, output_length } => {
            if *success {
                let length: usize = match output_length {
                    Some(n) => *n,
                    None => 0,
                };
                let mut out = String::from_str("response received -- ");
                push_decimal(&mut out, length as u64);
                out.append(" chars");
                out
            } else {
                String::from_str("no response from model")
            }
        },
        ProgressEvent::ValidationStarted { .. } => String::new(),
        ProgressEvent::ValidationCompleted { extractions_found, aligned_count, errors, warnings } => {
            let mut out = String::new();
            push_decimal(&mut out, *extractions_found as u64);
            assert(out@ =~= decimal(*extractions_found as nat));
            out.append(" extractions (");
            push_decimal(&mut out, *aligned_count as u64);
            out.append(" aligned), ");
            push_decimal(&mut out, *errors as u64);
            out.append(" errors, ");
            push_decimal(&mut out, *warnings as u64);
            out.append(" warnings");
            out
        },
        ProgressEvent::AggregationStarted { chunk_count } => {
            let mut out = String::from_str("merging results from ");
            push_decimal(&mut out, *chunk_count as u64);
            out.append(" chunks");
            out
        },
        ProgressEvent::ProcessingCompleted { total_extractions, .. } => {
            let mut out = String::new();
            push_decimal(&mut out, *total_extractions as u64);
            assert(out@ =~= decimal(*total_extractions as nat));
            out.append(" extractions found");
            out
        },
        ProgressEvent::RetryAttempt { operation, attempt, max_attempts, delay_seconds } => {
            let mut out = operation.clone();
            out.append(" failed (attempt ");
            push_decimal(&mut out, *attempt as u64);
            out.append("/");
            push_decimal(&mut out, *max_attempts as u64);
            out.append("), retrying in ");
            push_decimal(&mut out, *delay_seconds);
            out.append("s");
            out
        },
        ProgressEvent::Error { operation, error } => {
            let mut out = operation.clone();
            out.append(": ");
            out.append(error.as_str());
            out
        },
        ProgressEvent::Debug { operation, details } => {
            let mut out = operation.clone();
            out.append(": ");
            out.append(details.as_str());
            out
        },
    }
}

/// The stage tag of an event as a string slice.
fn console_tag_of(event: &ProgressEvent) -> (tag: &'static str)
    ensures
        tag@ == console_tag(*event),
{
    match event {
        ProgressEvent::ProcessingStarted { .. } => "inference",
        ProgressEvent::ChunkingStarted { .. } => "chunking",
        ProgressEvent::BatchProgress { .. } => "progress",
        ProgressEvent::ModelCall { .. } => "inference",
        ProgressEvent::ModelResponse { .. } => "inference",
        ProgressEvent::ValidationStarted { .. } => "validation",
        ProgressEvent::ValidationCompleted { .. } => "validation",
        ProgressEvent::AggregationStarted { .. } => "aggregation",
        ProgressEvent::ProcessingCompleted { .. } => "done",
        ProgressEvent::RetryAttempt { .. } => "retry",
        ProgressEvent::Error { .. } => "error",
        ProgressEvent::Debug { .. } => "debug",
    }
}

impl ConsoleProgressHandler {
    /// Create a new console handler with default settings
    pub fn new() -> (r: Self)
        ensures
            r.show_progress,
            !r.show_debug,
    {
        Self { show_progress: true, show_debug: false }
    }

    /// Create a quiet console handler (only errors)
    pub fn quiet() -> (r: Self)
        ensures
            !r.show_progress,
            !r.show_debug,
    {
        Self { show_progress: false, show_debug: false }
    }

    /// Create a verbose console handler (everything including debug)
    pub fn verbose() -> (r: Self)
        ensures
            r.show_progress,
            r.show_debug,
    {
        Self { show_progress: true, show_debug: true }
    }

    /// Create a machine-readable handler (same as default, no emoji)
    pub fn machine_readable() -> (r: Self)
        ensures
            r.show_progress,
            !r.show_debug,
    {
        Self { show_progress: true, show_debug: false }
    }

    /// A message behind its stage tag.
    pub fn format_message(&self, tag: &str, message: &str) -> (r: String)
        ensures
            r@ == tagged(tag@, message@),
    {
        let mut out = String::from_str("[");
        out.append(tag);
        out.append("] ");
        out.append(message);
        out
    }
}

impl Default for ConsoleProgressHandler {
    fn default() -> (r: Self)
        ensures
            r.show_progress,
            !r.show_debug,
    {
        Self::new()
    }
}

impl ProgressHandler for ConsoleProgressHandler {
    /// Errors go to the error stream, every other shown event to the
    /// output stream.
    open spec fn output(&self, event: ProgressEvent) -> Option<(ProgressTarget, Seq<char>)> {
        if console_shows(self.show_progress, self.show_debug, event) {
            Some(
                (
                    if event is Error {
                        ProgressTarget::Stderr
                    } else {
                        ProgressTarget::Stdout
                    },
                    tagged(console_tag(event), console_message(event)),
                ),
            )
        } else {
            None
        }
    }

    fn handle_progress(&self, event: ProgressEvent) -> (r: Option<ProgressLine>) {
        let shown = match &event {
            ProgressEvent::Error { .. } => true,
            ProgressEvent::ValidationStarted { .. } => false,
            ProgressEvent::ModelCall { .. } => self.show_debug,
            ProgressEvent::ModelResponse { .. } => self.show_debug,
            ProgressEvent::Debug { .. } => self.show_debug,
            ProgressEvent::ValidationCompleted { .. } => self.show_debug,
            _ => self.show_progress,
        };
        if !shown {
            return None;
        }
        let target = match &event {
            ProgressEvent::Error { .. } => ProgressTarget::Stderr,
            _ => ProgressTarget::Stdout,
        };
        let message = console_text(&event);
        let text = self.format_message(console_tag_of(&event), message.as_str());
        Some(ProgressLine { target, text })
    }
}

/// Silent progress handler that does nothing
#[derive(Clone, Copy, Debug)]
pub struct SilentProgressHandler;

impl ProgressHandler for SilentProgressHandler {
    open spec fn output(&self, event: ProgressEvent) -> Option<(ProgressTarget, Seq<char>)> {
        None
    }

    fn handle_progress(&self, _event: ProgressEvent) -> (r: Option<ProgressLine>) {
        None
    }
}

/// The severity with which an event is logged.
pub open spec fn log_level(event: ProgressEvent) -> LogLevel {
    match event {
        ProgressEvent::ProcessingStarted { .. } => LogLevel::Info,
        ProgressEvent::ChunkingStarted { .. } => LogLevel::Info,
        ProgressEvent::ProcessingCompleted { .. } => LogLevel::Info,
        ProgressEvent::ModelResponse { success, .. } => if success {
            LogLevel::Debug
        } else {
            LogLevel::Warn
        },
        ProgressEvent::RetryAttempt { .. } => LogLevel::Warn,
        ProgressEvent::Error { .. } => LogLevel::Error,
        ProgressEvent::ValidationStarted { .. } => LogLevel::Trace,
        _ => LogLevel::Debug,
    }
}

/// The message with which an event is logged.
pub open spec fn log_message(event: ProgressEvent) -> Seq<char> {
    match event {
        ProgressEvent::ProcessingStarted { text_length, model, provider } => "Starting extraction with "@
            + provider@ + " model "@ + model@ + " ("@ + decimal(text_length as nat) + " chars)"@,
        ProgressEvent::ChunkingStarted { total_chars, chunk_count, strategy } => "Chunking document: "@
            + decimal(chunk_count as nat) + " "@ + strategy@ + " chunks ("@ + decimal(total_chars as nat)
            + " chars)"@,
        ProgressEvent::BatchProgress { batch_number, chunks_processed, total_chunks, .. } =>
            "Processing batch "@ + decimal(batch_number as nat) + ": "@ + decimal(chunks_processed as nat)
                + "/"@ + decimal(total_chunks as nat) + " chunks"@,
        ProgressEvent::ModelCall { provider, model, input_length } => "Calling "@ + provider@ + " model "@
            + model@ + " with "@ + decimal(input_length as nat) + " chars input"@,
        ProgressEvent::ModelResponse { success, output_length } => if success {
            "Received response: "@ + decimal(length_or_zero(output_length)) + " chars"@
        } else {
            "Failed to receive model response"@
        },
        ProgressEvent::ValidationStarted { .. } => "Starting validation"@,
        ProgressEvent::ValidationCompleted { extractions_found, aligned_count, errors, warnings } =>
            "Validation: "@ + decimal(extractions_found as nat) + " extractions ("@ + decimal(
                aligned_count as nat,
            ) + " aligned), "@ + decimal(errors as nat) + " errors, "@ + decimal(warnings as nat)
                + " warnings"@,
        ProgressEvent::AggregationStarted { chunk_count } => "Aggregating "@ + decimal(chunk_count as nat)
            + " chunks"@,
        ProgressEvent::ProcessingCompleted { total_extractions, processing_time_ms } =>
            "Extraction completed: "@ + decimal(total_extractions as nat) + " extractions in "@ + decimal(
                processing_time_ms as nat,
            ) + "ms"@,
        ProgressEvent::RetryAttempt { operation, attempt, max_attempts, delay_seconds } => "Retry "@
            + decimal(attempt as nat) + "/"@ + decimal(max_attempts as nat) + " for "@ + operation@
            + ", waiting "@ + decimal(delay_seconds as nat) + "s"@,
        ProgressEvent::Error { operation, error } => operation@ + ": "@ + error@,
        ProgressEvent::Debug { operation, details } => operation@ + ": "@ + details@,
    }
}

/// Builds the message with which an event is logged.
fn log_text(event: &ProgressEvent) -> (out: String)
    ensures
        out@ == log_message(*event),
{
    match event {
        ProgressEvent::ProcessingStarted { text_length, model, provider } => {
            let mut out = String::from_str("Starting extraction with ");
            out.append(provider.as_str());
            out.append(" model ");
            out.append(model.as_str());
            out.append(" (");
            push_decimal(&mut out, *text_length as u64);
            out.append(" chars)");
            out
        },
        ProgressEvent::ChunkingStarted { total_chars, chunk_count, strategy } => {
            let mut out = String::from_str("Chunking document: ");
            push_decimal(&mut out, *chunk_count as u64);
            out.append(" ");
            out.append(strategy.as_str());
            out.append(" chunks (");
            push_decimal(&mut out, *total_chars as u64);
            out.append(" chars)");
            out
        },
        ProgressEvent::BatchProgress { batch_number, chunks_processed, total_chunks, .. } => {
            let mut out = String::from_str("Processing batch ");
            push_decimal(&mut out, *batch_number as u64);
            out.append(": ");
            push_decimal(&mut out, *chunks_processed as u64);
            out.append("/");
            push_decimal(&mut out, *total_chunks as u64);
            out.append(" chunks");
            out
        },
        ProgressEvent::ModelCall { provider, model, input_length } => {
            let mut out = String::from_str("Calling ");
            out.append(provider.as_str());
            out.append(" model ");
            out.append(model.as_str());
            out.append(" with ");
            push_decimal(&mut out, *input_length as u64);
            out.append(" chars input");
            out
        },
        ProgressEvent::ModelResponse { success, output_length } => {
            if *success {
                let length: usize = match output_length {
                    Some(n) => *n,
                    None => 0,
                };
                let mut out = String::from_str("Received response: ");
                push_decimal(&mut out, length as u64);
                out.append(" chars");
                out
            } else {
                String::from_str("Failed to receive model response")
            }
        },
        ProgressEvent::ValidationStarted { .. } => String::from_str("Starting validation"),
        ProgressEvent::ValidationCompleted { extractions_found, aligned_count, errors, warnings } => {
            let mut out = String::from_str("Validation: ");
            push_decimal(&mut out, *extractions_found as u64);
            out.append(" extractions (");
            push_decimal(&mut out, *aligned_count as u64);
            out.append(" aligned), ");
            push_decimal(&mut out, *errors as u64);
            out.append(" errors, ");
            push_decimal(&mut out, *warnings as u64);
            out.append(" warnings");
            out
        },
        ProgressEvent::AggregationStarted { chunk_count } => {
            let mut out = String::from_str("Aggregating ");
            push_decimal(&mut out, *chunk_count as u64);
            out.append(" chunks");
            out
        },
        ProgressEvent::ProcessingCompleted { total_extractions, processing_time_ms } => {
            let mut out = String::from_str("Extraction completed: ");
            push_decimal(&mut out, *total_extractions as u64);
            out.append(" extractions in ");
            push_decimal(&mut out, *processing_time_ms);
            out.append("ms");
            out
        },
        ProgressEvent::RetryAttempt { operation, attempt, max_attempts, delay_seconds } => {
            let mut out = String::from_str("Retry ");
            push_decimal(&mut out, *attempt as u64);
            out.append("/");
            push_decimal(&mut out, *max_attempts as u64);
            out.append(" for ");
            out.append(operation.as_str());
            out.append(", waiting ");
            push_decimal(&mut out, *delay_seconds);
            out.append("s");
            out
        },
        ProgressEvent::Error { operation, error } => {
            let mut out = operation.clone();
            out.append(": ");
            out.append(error.as_str());
            out
        },
        ProgressEvent::Debug { operation, details } => {
            let mut out = operation.clone();
            out.append(": ");
            out.append(details.as_str());
            out
        },
    }
}

/// Handler that turns every event into a log record
#[derive(Clone, Copy, Debug)]
pub struct LogProgressHandler;

impl ProgressHandler for LogProgressHandler {
    open spec fn output(&self, event: ProgressEvent) -> Option<(ProgressTarget, Seq<char>)> {
        Some((ProgressTarget::Log(log_level(event)), log_message(event)))
    }

    fn handle_progress(&self, event: ProgressEvent) -> (r: Option<ProgressLine>) {
        let level = match &event {
            ProgressEvent::ProcessingStarted { .. } => LogLevel::Info,
            ProgressEvent::ChunkingStarted { .. } => LogLevel::Info,
            ProgressEvent::ProcessingCompleted { .. } => LogLevel::Info,
            ProgressEvent::ModelResponse { success, .. } => if *success {
                LogLevel::Debug
            } else {
                LogLevel::Warn
            },
            ProgressEvent::RetryAttempt { .. } => LogLevel::Warn,
            ProgressEvent::Error { .. } => LogLevel::Error,
            ProgressEvent::ValidationStarted { .. } => LogLevel::Trace,
            _ => LogLevel::Debug,
        };
        Some(ProgressLine { target: ProgressTarget::Log(level), text: log_text(&event) })
    }
}

/// A shared handler handles events as the handler that it shares.
impl<H: ProgressHandler + ?Sized> ProgressHandler for Arc<H> {
    open spec fn output(&self, event: ProgressEvent) -> Option<(ProgressTarget, Seq<char>)> {
        (**self).output(event)
    }

    fn handle_progress(&self, event: ProgressEvent) -> (r: Option<ProgressLine>) {
        (**self).handle_progress(event)
    }
}

/// The place where the handler in use is kept. A handler can be put there
/// once; until then no event gives a line.
pub struct ProgressRegistry<H: ProgressHandler> {
    pub handler: Option<H>,
}

/// The handler in use: the one that was put in the registry, or the silent
/// handler that stands in for it.
pub enum ActiveHandler<'a, H: ProgressHandler> {
    Installed(&'a H),
    Fallback(SilentProgressHandler),
}

impl<'a, H: ProgressHandler> ProgressHandler for ActiveHandler<'a, H> {
    open spec fn output(&self, event: ProgressEvent) -> Option<(ProgressTarget, Seq<char>)> {
        match self {
            ActiveHandler::Installed(handler) => handler.output(event),
            ActiveHandler::Fallback(silent) => silent.output(event),
        }
    }

    fn handle_progress(&self, event: ProgressEvent) -> (r: Option<ProgressLine>) {
        match self {
            ActiveHandler::Installed(handler) => handler.handle_progress(event),
            ActiveHandler::Fallback(silent) => silent.handle_progress(event),
        }
    }
}

impl<H: ProgressHandler> ProgressRegistry<H> {
    /// A registry without a handler.
    pub fn new() -> (r: Self)
        ensures
            r.handler is None,
    {
        ProgressRegistry { handler: None }
    }

    /// The line that the handler in use makes of an event: none as long as
    /// no handler was put in the registry.
    pub open spec fn output(self, event: ProgressEvent) -> Option<(ProgressTarget, Seq<char>)> {
        match self.handler {
            Some(handler) => handler.output(event),
            None => None,
        }
    }
}

/// Puts a handler in use. A handler that is already in use stays.
pub fn init_progress_handler<H: ProgressHandler>(registry: &mut ProgressRegistry<H>, handler: H)
    ensures
        final(registry).handler == match old(registry).handler {
            Some(first) => Some(first),
            None => Some(handler),
        },
{
    if registry.handler.is_none() {
        registry.handler = Some(handler);
    }
}

/// The handler in use: the one that was put there, or the silent handler,
/// which makes no line of any event.
pub fn get_progress_handler<'a, H: ProgressHandler>(registry: &'a ProgressRegistry<H>) -> (r: ActiveHandler<
    'a,
    H,
>)
    ensures
        match registry.handler {
            Some(handler) => r == ActiveHandler::Installed(&handler),
            None => r == ActiveHandler::<H>::Fallback(SilentProgressHandler),
        },
        registry.handler is None ==> forall|event: ProgressEvent| #[trigger] r.output(event) is None,
{
    match &registry.handler {
        Some(handler) => ActiveHandler::Installed(handler),
        None => ActiveHandler::Fallback(SilentProgressHandler),
    }
}

/// Hands an event to the handler in use and returns the line that it makes
/// of it.
pub fn report_progress<H: ProgressHandler>(registry: &ProgressRegistry<H>, event: ProgressEvent) -> (r:
    Option<ProgressLine>)
    ensures
        line_view(r) == registry.output(event),
{
    let handler = get_progress_handler(registry);
    handler.handle_progress(event)
}

} // verus!
