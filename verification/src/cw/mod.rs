//! Morse code (continuous wave): from baseband pulses to symbols, and from symbols to letters.

pub mod baseband_to_cw;
pub mod cw_to_char;
pub mod shared;
