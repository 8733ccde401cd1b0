//! Integrity-checked framing of byte streams, with stream identifiers for
//! multiplexing several logical streams over one channel.

pub mod checksum;
mod deque;
pub mod wire;
pub mod frame;
pub mod modulator;
