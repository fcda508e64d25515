//! DeepSeek-V4.1-Flash.

pub mod attention;
pub mod blueprint;
pub mod compressor;
pub mod config;
pub mod engram;
pub mod experts;
pub mod indexer;
pub mod kv;
pub mod loading;
pub mod prompt;
pub mod runtime;
pub mod schema;
pub mod token_map;
