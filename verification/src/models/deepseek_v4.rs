//! DeepSeek-V4-Flash.

pub mod attention;
pub mod batching;
pub mod compressor;
pub mod config;
pub mod experts;
pub mod grouping;
pub mod loading;
pub mod math;
pub mod operands;
pub mod ordering;
pub mod pipeline;
pub mod prompt;
pub mod runtime;
pub mod schema;
