//! Incremental pattern-matching state for many independent byte streams that
//! share one rule-condition evaluator.
//!
//! A compiled rule set ([`rules`]) is scanned with by three scanners: the
//! single-shot [`scanner::Scanner`], the [`streaming::StreamingScanner`] for
//! one stream of chunks, and the [`multi_stream::MultiStreamScanner`] for many
//! streams in any interleaving. All three work on the evaluator harness
//! ([`context`]), which holds the match store ([`matches`]), the rules that
//! the evaluator reported ([`pending`]) and the evaluator's memory with the
//! matching bitmaps ([`bitmap`], [`layout`]).
//!
//! The evaluator itself is not part of this crate. A scan is set up here, the
//! caller runs the evaluator, the evaluator reports through host calls, and
//! the scan is finished here. [`state`] says what each of these steps does to
//! the state of a stream, and [`independence`] proves that streams do not
//! influence each other.

pub mod bitmap;
pub mod context;
pub mod error;
pub mod independence;
pub mod layout;
pub mod lines;
pub mod matches;
pub mod modules;
pub mod multi_stream;
pub mod offset_cache;
pub mod pending;
pub mod rules;
pub mod scanner;
pub mod state;
pub mod stream_key;
pub mod streaming;
pub mod timeout;
