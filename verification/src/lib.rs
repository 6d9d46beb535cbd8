//! Secure messaging core: per-stream dynamic framing with obfuscated lengths,
//! forward error correction for critical messages, and a priority-aware
//! scheduler over a bounded pool of stream identifiers.

use vstd::prelude::*;

pub mod bytes;
pub mod clock;
pub mod critical_sender;
pub mod crypto;
pub mod dynamic_framing;
pub mod fec;
pub mod framing;
pub mod responder;
pub mod retry_token;
pub mod stream;
pub mod whisper;

pub use critical_sender::CriticalSender;
pub use fec::FECEncoder;
pub use framing::{frame_message, parse_framed_message, FramingError};
pub use stream::{ManagerStats, PoolStats, SchedulerStats, StreamPool, StreamScheduler, UnifiedStreamManager};

verus! {

/// The session seed that both ends fall back to where none was agreed on:
/// 32 bytes of 0x42.
pub fn session_base_seed() -> (seed: [u8; 32])
    ensures
        forall|i: int| 0 <= i < 32 ==> seed@[i] == 0x42,
{
    [0x42u8; 32]
}

} // verus!
