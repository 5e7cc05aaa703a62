//! Blocks that reshape streams of samples.

pub mod deinterleave;

pub use deinterleave::{Deinterleave, Deinterleaved};
