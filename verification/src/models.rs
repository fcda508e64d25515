//! The supported model families.

pub mod deepseek_v4;
pub mod deepseek_v41;
pub mod glm;
