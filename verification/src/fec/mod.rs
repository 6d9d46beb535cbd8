//! Forward error correction: a message becomes k data shards and m parity
//! shards, and any k of them give the message back.

pub mod codec;
pub mod decoder;
pub mod encoder;
pub mod frame;
pub mod reassembler;

pub use encoder::FECEncoder;
pub use frame::create_fec_frame;
pub use reassembler::{FECReassembler, ReassemblerStats, RecoveredMessage};
