//! Uniform random sampling of K lines from a stream of unknown length, in one
//! pass and with memory bounded by the sample size (Algorithm R).
//!
//! `lines` frames a byte stream into line records, `reservoir` holds the
//! sampling state and its mathematical model, `sampler` ties the reservoir to
//! a random source, and `emit` renders a finished sample as newline-terminated
//! output. `laws` proves what holds of every sample, whatever the draws were.
pub mod emit;
pub mod laws;
pub mod lines;
pub mod reservoir;
pub mod sampler;
