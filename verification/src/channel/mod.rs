//! Blocks that move samples between a flowgraph and crossbeam channels.

pub mod chunk;
pub mod crossbeam_sink;
pub mod crossbeam_source;
pub mod receiver;
pub mod sender;

pub use crossbeam_sink::CrossbeamSink;
pub use crossbeam_source::CrossbeamSource;
