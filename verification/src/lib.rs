//! Span-anchored extraction of structured records from free text.
//!
//! The crate holds the deterministic half of an extraction pipeline: it
//! splits documents into token-bounded chunks, recovers character intervals
//! for the records a language model returned, repairs and maps the model's
//! JSON output, and merges per-chunk results into one annotated document.
//! Calling the model, printing and logging are left to the caller.
//!
//! All positions are character positions. Scores and thresholds are whole
//! thousandths.

pub mod text;
pub mod words;
pub mod data;
pub mod tokenizer;
pub mod chunking;
pub mod alignment;
pub mod json;
pub mod repair;
pub mod coercion;
pub mod resolver;
pub mod aggregation;
pub mod multipass;
pub mod ledger;
pub mod scheduler;
pub mod pipeline;
pub mod annotation;
pub mod logging;
