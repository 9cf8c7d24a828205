//! Position tracking: file loading and the global source offset space.

pub mod file;
pub mod source;
