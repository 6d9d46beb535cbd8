//! What a server answers to what it received. The sending is the caller's.

use vstd::prelude::*;
use crate::whisper::Priority;

verus! {

/// What became of a shard that was handed to the reassembler.
#[derive(Debug, Clone, Copy, PartialEq, Eq, Structural)]
pub enum ShardOutcome {
    /// The shard completed its message.
    Recovered,
    /// The shard was taken, and the message is not complete.
    Collecting,
    /// The shard was refused, or its session failed.
    Failed,
}

/// What arrived in an envelope.
#[derive(Debug, Clone, Copy, PartialEq, Eq, Structural)]
pub enum Received {
    /// A text message of the given priority.
    Content { priority: Priority },
    /// A shard with the given index, and what became of it.
    Shard { block_index: u32, outcome: ShardOutcome },
    /// A shard payload without a shard.
    EmptyShard,
    /// An envelope without payload.
    Empty,
}

/// What the answer says.
#[derive(Debug, Clone, Copy, PartialEq, Eq, Structural)]
pub enum ReplyKind {
    /// The text was received.
    Acknowledge,
    /// A critical message was restored.
    Recovered,
    /// The shard with this index was received.
    BlockReceived(u32),
    /// The shard could not be handled.
    ShardError,
    /// A shard payload was empty.
    EmptyShard,
    /// An envelope was empty.
    EmptyMessage,
}

/// How the answer is framed on the wire.
#[derive(Debug, Clone, Copy, PartialEq, Eq, Structural)]
pub enum ReplyFraming {
    /// As a dynamic frame under the stream's generator.
    Dynamic,
    /// With a plain four-byte length prefix.
    LengthPrefixed,
}

/// An answer to send.
#[derive(Debug, Clone, Copy, PartialEq, Eq, Structural)]
pub struct Reply {
    pub kind: ReplyKind,
    pub priority: Priority,
    pub framing: ReplyFraming,
}

/// The answer to what arrived: text is acknowledged at its own priority, a
/// restored message at high priority, a shard at normal priority, all three
/// as dynamic frames; whatever went wrong is reported at normal priority with
/// a plain length prefix.
pub open spec fn reply_for(received: Received) -> Reply {
    match received {
        Received::Content { priority } => Reply {
            kind: ReplyKind::Acknowledge,
            priority,
            framing: ReplyFraming::Dynamic,
        },
        Received::Shard { block_index, outcome: ShardOutcome::Recovered } => Reply {
            kind: ReplyKind::Recovered,
            priority: Priority::High,
            framing: ReplyFraming::Dynamic,
        },
        Received::Shard { block_index, outcome: ShardOutcome::Collecting } => Reply {
            kind: ReplyKind::BlockReceived(block_index),
            priority: Priority::Normal,
            framing: ReplyFraming::Dynamic,
        },
        Received::Shard { block_index, outcome: ShardOutcome::Failed } => Reply {
            kind: ReplyKind::ShardError,
            priority: Priority::Normal,
            framing: ReplyFraming::LengthPrefixed,
        },
        Received::EmptyShard => Reply {
            kind: ReplyKind::EmptyShard,
            priority: Priority::Normal,
            framing: ReplyFraming::LengthPrefixed,
        },
        Received::Empty => Reply {
            kind: ReplyKind::EmptyMessage,
            priority: Priority::Normal,
            framing: ReplyFraming::LengthPrefixed,
        },
    }
}

/// The answer to what arrived.
pub fn plan_reply(received: Received) -> (reply: Reply)
    ensures
        reply == reply_for(received),
{
    match received {
        Received::Content { priority } => Reply {
            kind: ReplyKind::Acknowledge,
            priority,
            framing: ReplyFraming::Dynamic,
        },
        Received::Shard { block_index, outcome } => match outcome {
            ShardOutcome::Recovered => Reply {
                kind: ReplyKind::Recovered,
                priority: Priority::High,
                framing: ReplyFraming::Dynamic,
            },
            ShardOutcome::Collecting => Reply {
                kind: ReplyKind::BlockReceived(block_index),
                priority: Priority::Normal,
                framing: ReplyFraming::Dynamic,
            },
            ShardOutcome::Failed => Reply {
                kind: ReplyKind::ShardError,
                priority: Priority::Normal,
                framing: ReplyFraming::LengthPrefixed,
            },
        },
        Received::EmptyShard => Reply {
            kind: ReplyKind::EmptyShard,
            priority: Priority::Normal,
            framing: ReplyFraming::LengthPrefixed,
        },
        Received::Empty => Reply {
            kind: ReplyKind::EmptyMessage,
            priority: Priority::Normal,
            framing: ReplyFraming::LengthPrefixed,
        },
    }
}

/// Above this many parsers per client, those with an empty buffer are
/// dropped.
pub const MAX_PARSERS_PER_CLIENT: usize = 100;

/// Whether a client's parsers are due for a cleanup.
pub fn parsers_need_cleanup(count: usize) -> (due: bool)
    ensures
        due == (count > MAX_PARSERS_PER_CLIENT),
{
    count > MAX_PARSERS_PER_CLIENT
}

} // verus!
