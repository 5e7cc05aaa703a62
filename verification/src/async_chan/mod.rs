//! Blocks that move samples between a flowgraph and async channels.

pub mod async_channel_source;
pub mod receiver;

pub use async_channel_source::AsyncChannelSource;
