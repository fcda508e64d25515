//! Verified model logic for layer-streamed DeepSeek and GLM inference: strict configurations,
//! checkpoint schemas, prompt protocols, cache state and expert scheduling.
//!
//! Floating-point values are carried as their IEEE 754 bit patterns; the arithmetic on them lives
//! in the application that links this library.

pub mod accounting;
pub mod bits;
pub mod config;
pub mod lists;
pub mod models;
pub mod primes;
pub mod ranking;
pub mod recency;
pub mod residency;
pub mod runtime;
pub mod storage;
pub mod text;
