//! Shards and their content hash.

use vstd::prelude::*;
use crate::bytes::{le32, push_le32, push_slice};
use crate::whisper::{BlockType, FecFrame, FecFrameView, FEC_FRAME_VERSION};

verus! {

/// XXH64 with seed zero of `data`.
pub uninterp spec fn xxhash64_of(data: Seq<u8>) -> u64;

/// Calls `twox_hash::XxHash64::oneshot` with seed zero: the XXH64 hash of
/// `data`.
#[verifier::external_body]
pub(crate) fn xxhash64(data: &[u8]) -> (hash: u64)
    ensures
        hash == xxhash64_of(data@),
{
    twox_hash::XxHash64::oneshot(0, data)
}

/// The bytes that a shard's hash covers: every field but the hash and the
/// version, numbers in little-endian order.
pub open spec fn hash_input(frame: FecFrameView) -> Seq<u8> {
    frame.session_id + le32(frame.block_index) + le32(frame.k) + le32(frame.m) + frame.payload
        + seq![frame.block_type.byte()]
}

/// The hash that a shard ought to carry.
pub open spec fn frame_hash(frame: FecFrameView) -> u64 {
    xxhash64_of(hash_input(frame))
}

/// Whether a shard carries the hash of its own fields.
pub open spec fn frame_is_valid(frame: FecFrameView) -> bool {
    frame.xxhash64 == frame_hash(frame)
}

/// The shard that `create_fec_frame` makes.
pub open spec fn created_frame(
    session_id: Seq<u8>,
    block_index: u32,
    k: u32,
    m: u32,
    payload: Seq<u8>,
    block_type: BlockType,
) -> FecFrameView {
    let unhashed = FecFrameView {
        session_id,
        block_index,
        k,
        m,
        payload,
        xxhash64: 0,
        block_type,
        version: FEC_FRAME_VERSION,
    };
    FecFrameView { xxhash64: frame_hash(unhashed), ..unhashed }
}

/// A created shard carries the hash of its own fields.
pub proof fn lemma_created_frame_is_valid(
    session_id: Seq<u8>,
    block_index: u32,
    k: u32,
    m: u32,
    payload: Seq<u8>,
    block_type: BlockType,
)
    ensures
        frame_is_valid(created_frame(session_id, block_index, k, m, payload, block_type)),
{
}

/// The XXH64 hash over a shard's fields, the hash field left out.
pub fn calculate_frame_hash(frame: &FecFrame) -> (hash: u64)
    ensures
        hash == frame_hash(frame@),
{
    let mut input: Vec<u8> = Vec::new();
    push_slice(&mut input, frame.session_id.as_slice());
    push_le32(&mut input, frame.block_index);
    push_le32(&mut input, frame.k);
    push_le32(&mut input, frame.m);
    push_slice(&mut input, frame.payload.as_slice());
    input.push(frame.block_type.number());
    assert(input@ =~= hash_input(frame@));
    xxhash64(input.as_slice())
}

/// Whether a shard carries the hash of its own fields.
pub fn validate_frame(frame: &FecFrame) -> (valid: bool)
    ensures
        valid == frame_is_valid(frame@),
{
    calculate_frame_hash(frame) == frame.xxhash64
}

/// A shard with its hash filled in, at version 1.
pub fn create_fec_frame(
    session_id: [u8; 16],
    block_index: u32,
    k: u32,
    m: u32,
    payload: Vec<u8>,
    block_type: BlockType,
) -> (frame: FecFrame)
    ensures
        frame@ == created_frame(session_id@, block_index, k, m, payload@, block_type),
        frame_is_valid(frame@),
{
    let mut id: Vec<u8> = Vec::new();
    push_slice(&mut id, session_id.as_slice());
    assert(id@ =~= session_id@);
    let mut frame = FecFrame {
        session_id: id,
        block_index,
        k,
        m,
        payload,
        xxhash64: 0,
        block_type,
        version: FEC_FRAME_VERSION,
    };
    let hash = calculate_frame_hash(&frame);
    frame.xxhash64 = hash;
    frame
}

} // verus!
