//! GLM-5.2, the `glm_moe_dsa` family.

pub mod attention;
pub mod config;
pub mod experts;
pub mod manifest;
pub mod moe;
pub mod prompt;
pub mod runtime;
