//! Chunked parallel download engine: planning, progress, control and reassembly.

pub mod plan;
pub mod progress;
pub mod outcome;
pub mod control;
pub mod worker;
pub mod assemble;
pub mod text;
pub mod probe;
pub mod filename;
pub mod session;
pub mod resume;
