//! Soft deletion: file contents are staged in a key-value cache, keyed by an
//! encoding of the file's canonical path, so that removed files can be restored.

pub mod codec;
pub mod cache;
pub mod workflow;
pub mod platform;
pub mod matching;
pub mod cli;
