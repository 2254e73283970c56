//! A verified core of a high-throughput asynchronous logging library.
//!
//! Application threads hand records to a logger facade; a formatter stage
//! renders each record once and broadcasts the batch to appender sinks
//! (console, plain file, size/date/duration-rolled split files), which may
//! compress rotated segments and enforce retention policies.  The
//! decision-making parts — record admission, formatting, rotation, retention
//! selection, segment bookkeeping and the command protocol — are verified
//! here; thread spawning and real file handles live with the embedding
//! program, which drives the verified state machines.

pub mod appender;
pub mod config;
pub mod consts;
pub mod date;
pub mod error;
pub mod fast_log;
pub mod filter;
pub mod formats;
pub mod plugin;
pub mod runtime;
pub mod text;
