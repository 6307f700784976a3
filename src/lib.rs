//! Streaming decoder for HPROF heap-dump files.
pub mod decl;
pub mod laws;
pub mod model;
pub mod reader;
pub mod records;
pub mod stream;
pub mod wire;

pub use stream::{MemoryHprofIterator, StreamHprofIterator, StreamHprofReader};
