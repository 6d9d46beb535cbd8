//! The values that travel in the wire envelope.

use vstd::prelude::*;

verus! {

/// How urgent a message is.
#[derive(Debug, Clone, Copy, PartialEq, Eq, Hash, Structural)]
pub enum Priority {
    Low,
    Normal,
    High,
    Urgent,
}

impl Priority {
    /// The number of the priority on the wire: 0 for `Low` up to 3 for
    /// `Urgent`.
    pub open spec fn rank(self) -> nat {
        match self {
            Priority::Low => 0,
            Priority::Normal => 1,
            Priority::High => 2,
            Priority::Urgent => 3,
        }
    }

    /// The next class up for a task that waited too long: `Low` becomes
    /// `Normal`, `Normal` becomes `High`, the others stay.
    pub open spec fn promoted(self) -> Priority {
        match self {
            Priority::Low => Priority::Normal,
            Priority::Normal => Priority::High,
            Priority::High => Priority::High,
            Priority::Urgent => Priority::Urgent,
        }
    }

    /// The number of the priority on the wire.
    pub fn number(self) -> (n: u8)
        ensures
            n == self.rank(),
    {
        match self {
            Priority::Low => 0,
            Priority::Normal => 1,
            Priority::High => 2,
            Priority::Urgent => 3,
        }
    }

    /// The priority with wire number `n`, or `None` where there is none.
    pub fn from_number(n: u8) -> (p: Option<Priority>)
        ensures
            match p {
                Some(priority) => priority.rank() == n,
                None => n > 3,
            },
    {
        match n {
            0 => Some(Priority::Low),
            1 => Some(Priority::Normal),
            2 => Some(Priority::High),
            3 => Some(Priority::Urgent),
            _ => None,
        }
    }

    /// The next class up for a task that waited too long.
    pub fn promote(self) -> (p: Priority)
        ensures
            p == self.promoted(),
    {
        match self {
            Priority::Low => Priority::Normal,
            Priority::Normal => Priority::High,
            Priority::High => Priority::High,
            Priority::Urgent => Priority::Urgent,
        }
    }
}

/// Whether a shard holds data of the message or parity.
#[derive(Debug, Clone, Copy, PartialEq, Eq, Hash, Structural)]
pub enum BlockType {
    Original,
    Redundant,
}

impl BlockType {
    /// The number of the block type on the wire.
    pub open spec fn byte(self) -> u8 {
        match self {
            BlockType::Original => 0,
            BlockType::Redundant => 1,
        }
    }

    /// The number of the block type on the wire.
    pub fn number(self) -> (n: u8)
        ensures
            n == self.byte(),
    {
        match self {
            BlockType::Original => 0,
            BlockType::Redundant => 1,
        }
    }
}

/// Version number that every shard carries.
pub const FEC_FRAME_VERSION: u32 = 1;

/// One shard of a protected message.
#[derive(Debug, Clone, PartialEq, Eq)]
pub struct FecFrame {
    pub session_id: Vec<u8>,
    pub block_index: u32,
    pub k: u32,
    pub m: u32,
    pub payload: Vec<u8>,
    pub xxhash64: u64,
    pub block_type: BlockType,
    pub version: u32,
}

/// A shard as a value.
pub struct FecFrameView {
    pub session_id: Seq<u8>,
    pub block_index: u32,
    pub k: u32,
    pub m: u32,
    pub payload: Seq<u8>,
    pub xxhash64: u64,
    pub block_type: BlockType,
    pub version: u32,
}

impl View for FecFrame {
    type V = FecFrameView;

    open spec fn view(&self) -> FecFrameView {
        FecFrameView {
            session_id: self.session_id@,
            block_index: self.block_index,
            k: self.k,
            m: self.m,
            payload: self.payload@,
            xxhash64: self.xxhash64,
            block_type: self.block_type,
            version: self.version,
        }
    }
}

/// The envelope's payload for a shard.
#[derive(Debug, Clone, PartialEq, Eq)]
pub struct FecWhisper {
    pub fec_frame: Option<FecFrame>,
}

/// The views of a list of shards.
pub open spec fn frame_views(frames: Seq<FecFrame>) -> Seq<FecFrameView> {
    Seq::new(frames.len(), |i: int| frames[i]@)
}

/// A copy of a shard.
pub fn copy_frame(frame: &FecFrame) -> (copy: FecFrame)
    ensures
        copy@ == frame@,
{
    assert(frame.session_id@.subrange(0, frame.session_id@.len() as int) =~= frame.session_id@);
    assert(frame.payload@.subrange(0, frame.payload@.len() as int) =~= frame.payload@);
    FecFrame {
        session_id: crate::bytes::copy_range(frame.session_id.as_slice(), 0, frame.session_id.len()),
        block_index: frame.block_index,
        k: frame.k,
        m: frame.m,
        payload: crate::bytes::copy_range(frame.payload.as_slice(), 0, frame.payload.len()),
        xxhash64: frame.xxhash64,
        block_type: frame.block_type,
        version: frame.version,
    }
}

} // verus!
