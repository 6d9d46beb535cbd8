//! The receiver's side of the code: shards by index, then the message.

use vstd::prelude::*;
use crate::bytes::{copy_range, push_slice, read_le32};
use crate::fec::codec::{
    all_present, codec_accepts, decode_shards, joined, present_count, rs_available, rs_reconstruct,
    rs_reconstructed, shard_views, FecError,
};
use crate::whisper::FecFrame;

verus! {

/// One shard as it was received: its index and its bytes.
#[derive(Debug)]
pub struct ReceivedBlock {
    pub index: u32,
    pub data: Vec<u8>,
}

impl View for ReceivedBlock {
    type V = (u32, Seq<u8>);

    open spec fn view(&self) -> (u32, Seq<u8>) {
        (self.index, self.data@)
    }
}

/// Received shards as values.
pub open spec fn received_views(blocks: Seq<ReceivedBlock>) -> Seq<(u32, Seq<u8>)> {
    Seq::new(blocks.len(), |i: int| blocks[i]@)
}

/// The index and the bytes of each frame.
pub open spec fn frame_blocks(frames: Seq<FecFrame>) -> Seq<(u32, Seq<u8>)> {
    Seq::new(frames.len(), |i: int| (frames[i]@.block_index, frames[i]@.payload))
}

/// Whether a shard of index `index` is among `blocks`.
pub open spec fn has_block(blocks: Seq<(u32, Seq<u8>)>, index: u32) -> bool {
    exists|i: int| 0 <= i < blocks.len() && (#[trigger] blocks[i]).0 == index
}

/// The slots that the first `n` of `blocks` fill in, by index, among `total`
/// slots; a later shard replaces an earlier one of the same index, and an
/// index beyond the slots is an error.
pub open spec fn gathered(total: nat, blocks: Seq<(u32, Seq<u8>)>, n: int) -> Result<
    Seq<Option<Seq<u8>>>,
    FecError,
>
    decreases n,
{
    if n <= 0 {
        Ok(Seq::new(total, |i: int| None::<Seq<u8>>))
    } else {
        match gathered(total, blocks, n - 1) {
            Err(e) => Err(e),
            Ok(shards) => if blocks[n - 1].0 >= total {
                Err(FecError::InvalidBlockIndex(blocks[n - 1].0))
            } else {
                Ok(shards.update(blocks[n - 1].0 as int, Some(blocks[n - 1].1)))
            },
        }
    }
}

/// Whether each of `blocks` is the shard of `payloads` that its index names.
pub open spec fn drawn_from(payloads: Seq<Seq<u8>>, blocks: Seq<(u32, Seq<u8>)>) -> bool {
    forall|j: int|
        0 <= j < blocks.len() ==> (#[trigger] blocks[j]).0 < payloads.len() && blocks[j].1
            == payloads[blocks[j].0 as int]
}

/// The slots, among `total`, that the first `n` of `blocks` name.
pub open spec fn named_slots(total: nat, blocks: Seq<(u32, Seq<u8>)>, n: int) -> Seq<bool>
    decreases n,
{
    if n <= 0 {
        Seq::new(total, |i: int| false)
    } else {
        named_slots(total, blocks, n - 1).update(blocks[n - 1].0 as int, true)
    }
}

/// How many different slots, among `total`, `blocks` fill; zero where an
/// index lies beyond the slots.
pub open spec fn covered(total: nat, blocks: Seq<(u32, Seq<u8>)>) -> nat {
    match gathered(total, blocks, blocks.len() as int) {
        Ok(shards) => crate::fec::codec::present_count(shards, total as int),
        Err(_) => 0,
    }
}

/// Filling a slot adds at most one to the slots that are present.
pub proof fn lemma_present_count_update(shards: Seq<Option<Seq<u8>>>, at: int, shard: Seq<u8>, n: int)
    requires
        0 <= at < shards.len(),
        0 <= n <= shards.len(),
    ensures
        crate::fec::codec::present_count(shards.update(at, Some(shard)), n) <= crate::fec::codec::present_count(
            shards,
            n,
        ) + 1,
        at >= n ==> crate::fec::codec::present_count(shards.update(at, Some(shard)), n)
            == crate::fec::codec::present_count(shards, n),
    decreases n,
{
    if n > 0 {
        lemma_present_count_update(shards, at, shard, n - 1);
    }
}

/// Shards fill at most as many slots as there are shards.
pub proof fn lemma_gathered_bounded(total: nat, blocks: Seq<(u32, Seq<u8>)>, n: int)
    requires
        0 <= n <= blocks.len(),
    ensures
        gathered(total, blocks, n) matches Ok(shards) ==> shards.len() == total
            && crate::fec::codec::present_count(shards, total as int) <= n,
    decreases n,
{
    if n > 0 {
        lemma_gathered_bounded(total, blocks, n - 1);
        match gathered(total, blocks, n - 1) {
            Ok(shards) => {
                if blocks[n - 1].0 < total {
                    lemma_present_count_update(shards, blocks[n - 1].0 as int, blocks[n - 1].1, total as int);
                }
            },
            Err(_) => {},
        }
    } else {
        lemma_none_present(total, total as int);
    }
}

/// Among slots that are all empty none is present.
pub proof fn lemma_none_present(total: nat, n: int)
    requires
        0 <= n <= total,
    ensures
        crate::fec::codec::present_count(Seq::new(total, |i: int| None::<Seq<u8>>), n) == 0,
    decreases n,
{
    if n > 0 {
        lemma_none_present(total, n - 1);
    }
}

/// Shards of one list of payloads go to their slots as if the other
/// payloads had been erased, in whatever order they come.
pub proof fn lemma_gathered_is_erased(payloads: Seq<Seq<u8>>, blocks: Seq<(u32, Seq<u8>)>, n: int)
    requires
        drawn_from(payloads, blocks),
        0 <= n <= blocks.len(),
    ensures
        named_slots(payloads.len(), blocks, n).len() == payloads.len(),
        gathered(payloads.len(), blocks, n) == Ok::<Seq<Option<Seq<u8>>>, FecError>(
            crate::fec::codec::erased(payloads, named_slots(payloads.len(), blocks, n)),
        ),
    decreases n,
{
    let total = payloads.len();
    if n > 0 {
        lemma_gathered_is_erased(payloads, blocks, n - 1);
        let before = named_slots(total, blocks, n - 1);
        let at = blocks[n - 1].0 as int;
        assert(crate::fec::codec::erased(payloads, before).update(at, Some(blocks[n - 1].1))
            =~= crate::fec::codec::erased(payloads, before.update(at, true)));
    } else {
        assert(Seq::new(total, |i: int| None::<Seq<u8>>) =~= crate::fec::codec::erased(
            payloads,
            named_slots(total, blocks, 0),
        ));
    }
}

/// Restoring a message from received shards under a code of `k` data and
/// `m` parity shards.
pub open spec fn decode_blocks_spec(k: nat, m: nat, blocks: Seq<(u32, Seq<u8>)>) -> Result<Seq<u8>, FecError> {
    if !codec_accepts(k, m) {
        Err(FecError::InvalidParameters)
    } else {
        match gathered(k + m, blocks, blocks.len() as int) {
            Err(e) => Err(e),
            Ok(shards) => decode_shards(k, m, shards),
        }
    }
}

/// Whether the exec result `r` is the spec result `s`.
pub open spec fn decode_result_matches(r: Result<Vec<u8>, FecError>, s: Result<Seq<u8>, FecError>) -> bool {
    match r {
        Ok(message) => s == Ok::<Seq<u8>, FecError>(message@),
        Err(e) => s == Err::<Seq<u8>, FecError>(e),
    }
}

/// Once gathering has met a bad index, the shards behind it change nothing.
proof fn lemma_gathered_error_stays(total: nat, blocks: Seq<(u32, Seq<u8>)>, n: int, end: int)
    requires
        0 <= n <= end,
        gathered(total, blocks, n) is Err,
    ensures
        gathered(total, blocks, end) == gathered(total, blocks, n),
    decreases end - n,
{
    if n < end {
        lemma_gathered_error_stays(total, blocks, n, end - 1);
    }
}

/// Restores a message from received shards: they go to their slots by index,
/// and the code does the rest.
pub fn decode_blocks(k: usize, m: usize, blocks: &Vec<ReceivedBlock>) -> (r: Result<Vec<u8>, FecError>)
    ensures
        decode_result_matches(r, decode_blocks_spec(k as nat, m as nat, received_views(blocks@))),
{
    if k > usize::MAX - m {
        return Err(FecError::InvalidParameters);
    }
    if !rs_available(k, m) {
        return Err(FecError::InvalidParameters);
    }
    let total = k + m;
    let ghost given = received_views(blocks@);
    let mut shards: Vec<Option<Vec<u8>>> = Vec::new();
    let mut s: usize = 0;
    while s < total
        invariant
            0 <= s <= total,
            shards@.len() == s,
            forall|i: int| 0 <= i < s ==> (#[trigger] shards@[i]) is None,
        decreases total - s,
    {
        shards.push(None);
        s += 1;
    }
    assert(shard_views(shards@) =~= gathered(total as nat, given, 0)->Ok_0);
    let mut n: usize = 0;
    while n < blocks.len()
        invariant
            0 <= n <= blocks@.len(),
            total == k + m,
            codec_accepts(k as nat, m as nat),
            shards@.len() == total,
            given == received_views(blocks@),
            gathered(total as nat, given, n as int) == Ok::<Seq<Option<Seq<u8>>>, FecError>(
                shard_views(shards@),
            ),
        decreases blocks@.len() - n,
    {
        let block = &blocks[n];
        assert(given[n as int] == block@);
        if block.index as usize >= total {
            proof {
                assert(given.len() == blocks@.len());
                assert(gathered(total as nat, given, n + 1) is Err);
                lemma_gathered_error_stays(total as nat, given, n + 1, blocks@.len() as int);
            }
            return Err(FecError::InvalidBlockIndex(block.index));
        }
        let ghost before = shard_views(shards@);
        let data = copy_range(block.data.as_slice(), 0, block.data.len());
        assert(data@ =~= block.data@);
        shards.set(block.index as usize, Some(data));
        assert(shard_views(shards@) =~= before.update(block.index as int, Some(block.data@)));
        n += 1;
    }
    decode_fec_data(k, m, shards)
}

/// The index and the bytes of each frame, copied.
pub fn blocks_of_frames(frames: &[FecFrame]) -> (blocks: Vec<ReceivedBlock>)
    ensures
        received_views(blocks@) == frame_blocks(frames@),
{
    let mut blocks: Vec<ReceivedBlock> = Vec::new();
    let mut n: usize = 0;
    while n < frames.len()
        invariant
            0 <= n <= frames@.len(),
            blocks@.len() == n,
            forall|i: int| 0 <= i < n ==> (#[trigger] blocks@[i])@ == (frames@[i]@.block_index, frames@[i]@.payload),
        decreases frames@.len() - n,
    {
        let frame = &frames[n];
        let data = copy_range(frame.payload.as_slice(), 0, frame.payload.len());
        assert(data@ =~= frame.payload@);
        blocks.push(ReceivedBlock { index: frame.block_index, data });
        n += 1;
    }
    assert(received_views(blocks@) =~= frame_blocks(frames@));
    blocks
}

/// Restores a message from the shards that are present: the code fills in
/// the missing ones, the data shards are put together, and the length in
/// front says how many of the bytes behind it are the message.
pub fn decode_fec_data(k: usize, m: usize, shards: Vec<Option<Vec<u8>>>) -> (r: Result<Vec<u8>, FecError>)
    ensures
        decode_result_matches(r, decode_shards(k as nat, m as nat, shard_views(shards@))),
{
    if k > usize::MAX - m {
        return Err(FecError::InvalidParameters);
    }
    if !rs_available(k, m) || shards.len() != k + m {
        return Err(FecError::InvalidParameters);
    }
    let mut shards = shards;
    let ghost given = shard_views(shards@);
    let mut present: usize = 0;
    let mut i: usize = 0;
    while i < shards.len()
        invariant
            0 <= i <= shards@.len(),
            present == present_count(given, i as int),
            present <= i,
            given == shard_views(shards@),
        decreases shards@.len() - i,
    {
        if shards[i].is_some() {
            present += 1;
        }
        i += 1;
    }
    if present < k {
        return Err(FecError::InsufficientData { have: present, need: k });
    }
    if !rs_reconstruct(k, m, &mut shards) {
        return Err(FecError::ReconstructionFailed);
    }
    let ghost restored = rs_reconstructed(k as nat, m as nat, given);
    assert(shard_views(shards@).len() == shards@.len());
    assert(all_present(restored).len() == restored.len());
    let mut bytes: Vec<u8> = Vec::new();
    let mut n: usize = 0;
    while n < k
        invariant
            0 <= n <= k,
            k <= shards@.len(),
            shard_views(shards@) == all_present(restored),
            restored.len() == shards@.len(),
            bytes@ == joined(restored, n as int),
        decreases k - n,
    {
        assert(shard_views(shards@)[n as int] == Some(restored[n as int]));
        match &shards[n] {
            Some(shard) => {
                push_slice(&mut bytes, shard.as_slice());
            },
            None => {
                return Err(FecError::ReconstructionFailed);
            },
        }
        n += 1;
    }
    if bytes.len() < 4 {
        return Err(FecError::LengthPrefixExceedsData);
    }
    let length = read_le32(bytes.as_slice(), 0) as usize;
    if length > bytes.len() - 4 {
        return Err(FecError::LengthPrefixExceedsData);
    }
    Ok(copy_range(bytes.as_slice(), 4, 4 + length))
}

} // verus!
