//! Signal-processing blocks whose sample handling is verified with Verus.

pub mod agc;
pub mod async_chan;
pub mod channel;
pub mod cw;
pub mod sigmf;
pub mod stream;
