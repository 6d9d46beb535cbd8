//! The sender's side: a message becomes `k + m` shards of one size.

use vstd::prelude::*;
use crate::bytes::{copy_range, le32, lemma_le32_roundtrip, push_le32, push_slice};
use crate::fec::codec::{
    block_size_for,
    block_views,
    codec_accepts,
    data_block,
    data_blocks,
    decode_shards,
    encodable,
    erased,
    joined,
    prefixed,
    present_count,
    reconstructible,
    rs_available,
    rs_encode,
    rs_parity,
    rs_reconstructed,
    unframed,
    uniform,
    FecError,
};
use crate::fec::decoder::{
    blocks_of_frames, covered, decode_blocks, decode_blocks_spec, decode_result_matches, drawn_from, frame_blocks,
    lemma_gathered_is_erased, named_slots,
};
use crate::fec::frame::{create_fec_frame, created_frame};
use crate::whisper::{frame_views, BlockType, FecFrame, FecFrameView};

verus! {

/// Longest message that can be protected: 2^32 - 512 bytes. The length
/// prefix would hold up to 2^32 - 1; the margin keeps the message with
/// its prefix, the number of shards added for rounding up, and the size of a
/// shard rounded up to a multiple of 64 within a `usize` of 32 bits.
pub const MAX_MESSAGE_LEN: usize = 0xFFFF_FE00;

/// Calls `uuid::Uuid::new_v4` and takes the 16 bytes of the random
/// identifier. Nothing is known of them.
#[verifier::external_body]
pub(crate) fn fresh_session_id() -> (id: [u8; 16]) {
    *uuid::Uuid::new_v4().as_bytes()
}

/// The payloads of the `k + m` shards of a message: its data shards, then
/// their parity.
pub open spec fn shard_payloads(k: nat, m: nat, data: Seq<u8>) -> Seq<Seq<u8>> {
    let framed = prefixed(data);
    let blocks = data_blocks(framed, block_size_for(framed.len(), k), k);
    blocks + rs_parity(k, m, blocks)
}

/// The `k + m` shards of a message under a session identifier.
pub open spec fn encoded_frames(k: nat, m: nat, session_id: Seq<u8>, data: Seq<u8>) -> Seq<FecFrameView> {
    Seq::new(
        k + m,
        |i: int|
            created_frame(
                session_id,
                i as u32,
                k as u32,
                m as u32,
                shard_payloads(k, m, data)[i],
                if i < k {
                    BlockType::Original
                } else {
                    BlockType::Redundant
                },
            ),
    )
}

/// Whether there are `count` frames and the payload of each is `size` bytes
/// long.
pub open spec fn frames_of_one_size(frames: Seq<FecFrame>, count: nat, size: nat) -> bool {
    frames.len() == count && forall|i: int| 0 <= i < frames.len() ==> (#[trigger] frames[i]).payload@.len() == size
}

/// Whether any `k` of the shards of `data` decode to `data`: whatever is
/// kept of the shards, as long as `k` or more are kept.
pub open spec fn any_k_shards_decode(k: nat, m: nat, data: Seq<u8>) -> bool {
    forall|keep: Seq<bool>|
        keep.len() == k + m && present_count(#[trigger] erased(shard_payloads(k, m, data), keep), (k + m) as int)
            >= k ==> decode_shards(k, m, erased(shard_payloads(k, m, data), keep)) == Ok::<Seq<u8>, FecError>(
            data,
        )
}

/// Whether shards of `data` that come in with their indices decode to
/// `data` in whatever order they come, with or without repetitions, as long
/// as `k` or more different ones are among them.
pub open spec fn shards_decode_in_any_order(k: nat, m: nat, data: Seq<u8>) -> bool {
    forall|blocks: Seq<(u32, Seq<u8>)>|
        #![trigger drawn_from(shard_payloads(k, m, data), blocks)]
        drawn_from(shard_payloads(k, m, data), blocks) && covered(k + m, blocks) >= k ==> decode_blocks_spec(
            k,
            m,
            blocks,
        ) == Ok::<Seq<u8>, FecError>(data)
}

/// The first `n` data shards of a message, one after the other, are the
/// message's bytes as far as they go, and zeros behind them.
proof fn lemma_joined_blocks(framed: Seq<u8>, size: nat, k: nat, n: int)
    requires
        0 <= n <= k,
    ensures
        joined(data_blocks(framed, size, k), n).len() == n * size,
        forall|j: int|
            0 <= j < n * size ==> #[trigger] joined(data_blocks(framed, size, k), n)[j] == if j < framed.len() {
                framed[j]
            } else {
                0u8
            },
    decreases n,
{
    if n > 0 {
        lemma_joined_blocks(framed, size, k, n - 1);
        let blocks = data_blocks(framed, size, k);
        let before = joined(blocks, n - 1);
        assert(blocks[n - 1] == data_block(framed, size, (n - 1) as nat));
        assert(before.len() == (n - 1) * size);
        assert(n * size == (n - 1) * size + size) by (nonlinear_arith);
        assert forall|j: int| 0 <= j < n * size implies #[trigger] joined(blocks, n)[j] == if j < framed.len() {
            framed[j]
        } else {
            0u8
        } by {
            if j >= (n - 1) * size {
                let offset = j - (n - 1) * size;
                assert(joined(blocks, n)[j] == blocks[n - 1][offset]);
                assert(((n - 1) as nat) * size + offset == j);
            } else {
                assert(joined(blocks, n)[j] == before[j]);
            }
        }
    } else {
        assert(0 * size == 0) by (nonlinear_arith);
    }
}

/// The shards of a message hold all of it.
proof fn lemma_blocks_cover(len: nat, k: nat)
    requires
        k >= 1,
    ensures
        k * block_size_for(len, k) >= len,
        block_size_for(len, k) >= 1 || len == 0,
        block_size_for(len, k) % 64 == 0,
{
    let per = (len + k - 1) / (k as int);
    assert(per * k >= len) by (nonlinear_arith)
        requires
            per == (len + k - 1) / (k as int),
            k >= 1,
            len >= 0,
    {
        assert((len + k - 1) == k * ((len + k - 1) / (k as int)) + (len + k - 1) % (k as int)) by (nonlinear_arith)
            requires
                k >= 1,
        ;
        assert((len + k - 1) % (k as int) < k) by (nonlinear_arith)
            requires
                k >= 1,
        ;
    }
    let size = (per + 63) / 64 * 64;
    assert(size >= per);
    assert(k * size >= k * per) by (nonlinear_arith)
        requires
            size >= per,
            k >= 1,
    ;
    assert(k * per == per * k) by (nonlinear_arith);
    if len > 0 {
        assert(per >= 1) by (nonlinear_arith)
            requires
                per * k >= len,
                len > 0,
                k >= 1,
        ;
    }
}

/// What the data shards of a message give back once they are put together
/// again.
proof fn lemma_unframed_blocks(data: Seq<u8>, k: nat)
    requires
        k >= 1,
        data.len() <= u32::MAX,
    ensures
        unframed(
            joined(
                data_blocks(prefixed(data), block_size_for(prefixed(data).len(), k), k),
                k as int,
            ),
        ) == Ok::<Seq<u8>, FecError>(data),
{
    let framed = prefixed(data);
    let size = block_size_for(framed.len(), k);
    let bytes = joined(data_blocks(framed, size, k), k as int);
    lemma_joined_blocks(framed, size, k, k as int);
    lemma_blocks_cover(framed.len(), k);
    lemma_le32_roundtrip(data.len() as u32);
    assert(framed.len() == 4 + data.len());
    assert(bytes.len() >= framed.len());
    assert(bytes.subrange(0, 4) =~= le32(data.len() as u32)) by {
        assert forall|j: int| 0 <= j < 4 implies bytes.subrange(0, 4)[j] == le32(data.len() as u32)[j] by {
            assert(bytes[j] == framed[j]);
        }
    }
    assert(bytes.subrange(4, 4 + data.len() as int) =~= data) by {
        assert forall|j: int| 0 <= j < data.len() implies bytes.subrange(4, 4 + data.len() as int)[j]
            == data[j] by {
            assert(bytes[4 + j] == framed[4 + j]);
        }
    }
}

/// Keeping at least `k` shards of shards of one size leaves something that
/// the code can restore.
proof fn lemma_erased_reconstructible(k: nat, m: nat, codeword: Seq<Seq<u8>>, keep: Seq<bool>, size: nat)
    requires
        codec_accepts(k, m),
        codeword.len() == k + m,
        keep.len() == k + m,
        size > 0,
        uniform(codeword, size),
        present_count(erased(codeword, keep), (k + m) as int) >= k,
    ensures
        reconstructible(k, m, erased(codeword, keep)),
{
    let shards = erased(codeword, keep);
    assert forall|i: int| 0 <= i < shards.len() && (#[trigger] shards[i]) is Some implies shards[i].unwrap().len()
        == size by {
        assert(shards[i].unwrap() == codeword[i]);
    }
}

/// Turns messages into shards.
pub struct FECEncoder {
    k: usize,
    m: usize,
}

impl FECEncoder {
    /// Number of data shards.
    pub closed spec fn data_shards(&self) -> nat {
        self.k as nat
    }

    /// Number of parity shards.
    pub closed spec fn parity_shards(&self) -> nat {
        self.m as nat
    }

    /// What every encoder keeps: a code exists for its numbers of shards.
    pub open spec fn wf(&self) -> bool {
        codec_accepts(self.data_shards(), self.parity_shards())
    }

    /// An encoder for `k` data shards and `m` parity shards. Fails with
    /// `InvalidParameters` where no such code exists: with no data shard, no
    /// parity shard, or more than 256 shards in all.
    pub fn new(k: usize, m: usize) -> (r: Result<Self, FecError>)
        ensures
            match r {
                Ok(encoder) => codec_accepts(k as nat, m as nat) && encoder.wf() && encoder.data_shards() == k
                    && encoder.parity_shards() == m,
                Err(e) => !codec_accepts(k as nat, m as nat) && e == FecError::InvalidParameters,
            },
    {
        if k == 0 || m == 0 || k > usize::MAX - m {
            return Err(FecError::InvalidParameters);
        }
        if !rs_available(k, m) {
            return Err(FecError::InvalidParameters);
        }
        Ok(FECEncoder { k, m })
    }

    /// The numbers of data and parity shards.
    pub fn params(&self) -> (p: (usize, usize))
        ensures
            p.0 == self.data_shards(),
            p.1 == self.parity_shards(),
    {
        (self.k, self.m)
    }

    /// Encodes `data` under a fresh random session identifier, which is
    /// returned beside the shards.
    pub fn encode(&self, data: &[u8]) -> (r: Result<(Vec<FecFrame>, [u8; 16]), FecError>)
        requires
            self.wf(),
        ensures
            match r {
                Ok((frames, session_id)) => data@.len() <= MAX_MESSAGE_LEN && frame_views(frames@)
                    == encoded_frames(self.data_shards(), self.parity_shards(), session_id@, data@)
                    && frames_of_one_size(
                    frames@,
                    self.data_shards() + self.parity_shards(),
                    block_size_for((data@.len() + 4) as nat, self.data_shards()),
                ),
                Err(e) => data@.len() > MAX_MESSAGE_LEN && e == FecError::InputTooLarge,
            },
            data@.len() <= MAX_MESSAGE_LEN ==> any_k_shards_decode(
                self.data_shards(),
                self.parity_shards(),
                data@,
            ),
            data@.len() <= MAX_MESSAGE_LEN ==> shards_decode_in_any_order(
                self.data_shards(),
                self.parity_shards(),
                data@,
            ),
    {
        let session_id = fresh_session_id();
        match self.encode_with_session(data, session_id) {
            Ok(frames) => Ok((frames, session_id)),
            Err(e) => Err(e),
        }
    }

    /// Encodes `data` under `session_id`: the length goes in front, the bytes
    /// are cut into `k` shards of one size, a multiple of 64, the last filled
    /// up with zeros, and `m` parity shards of that size follow.
    ///
    /// Any `k` of the shards decode to `data` again.
    pub fn encode_with_session(&self, data: &[u8], session_id: [u8; 16]) -> (r: Result<Vec<FecFrame>, FecError>)
        requires
            self.wf(),
        ensures
            match r {
                Ok(frames) => {
                    &&& data@.len() <= MAX_MESSAGE_LEN
                    &&& frame_views(frames@) == encoded_frames(
                        self.data_shards(),
                        self.parity_shards(),
                        session_id@,
                        data@,
                    )
                    &&& frames_of_one_size(
                        frames@,
                        self.data_shards() + self.parity_shards(),
                        block_size_for((data@.len() + 4) as nat, self.data_shards()),
                    )
                },
                Err(e) => data@.len() > MAX_MESSAGE_LEN && e == FecError::InputTooLarge,
            },
            data@.len() <= MAX_MESSAGE_LEN ==> any_k_shards_decode(
                self.data_shards(),
                self.parity_shards(),
                data@,
            ),
            data@.len() <= MAX_MESSAGE_LEN ==> shards_decode_in_any_order(
                self.data_shards(),
                self.parity_shards(),
                data@,
            ),
    {
        if data.len() > MAX_MESSAGE_LEN {
            return Err(FecError::InputTooLarge);
        }
        let k = self.k;
        let m = self.m;
        let mut framed_data: Vec<u8> = Vec::new();
        push_le32(&mut framed_data, data.len() as u32);
        push_slice(&mut framed_data, data);
        assert(framed_data@ =~= prefixed(data@));
        let block_size = self.block_size(framed_data.len());
        let ghost blocks_spec = data_blocks(framed_data@, block_size as nat, k as nat);
        let mut shards = self.split_into_blocks(framed_data.as_slice(), block_size);
        let mut p: usize = 0;
        while p < m
            invariant
                0 <= p <= m,
                k + m <= 256,
                shards@.len() == k + p,
                block_views(shards@).take(k as int) == blocks_spec,
                forall|i: int| 0 <= i < shards@.len() ==> (#[trigger] shards@[i])@.len() == block_size,
            decreases m - p,
        {
            let ghost before = shards@;
            let zeros = zero_block(block_size);
            shards.push(zeros);
            proof {
                assert(block_views(shards@).take(k as int) =~= block_views(before).take(k as int));
            }
            p += 1;
        }
        let ghost unencoded = block_views(shards@);
        proof {
            lemma_blocks_cover(framed_data@.len(), k as nat);
            assert(encodable(k as nat, m as nat, unencoded)) by {
                assert forall|i: int| 0 <= i < unencoded.len() implies (#[trigger] unencoded[i]).len()
                    == unencoded[0].len() by {
                    assert(unencoded[i] == shards@[i]@);
                    assert(unencoded[0] == shards@[0]@);
                }
                assert(unencoded[0] == shards@[0]@);
            }
        }
        let ok = rs_encode(k, m, &mut shards);
        if !ok {
            return Err(FecError::EncodingFailed);
        }
        let ghost payloads = block_views(shards@);
        proof {
            assert(payloads == shard_payloads(k as nat, m as nat, data@));
            assert(payloads.len() == k + m);
            assert(uniform(payloads, block_size as nat)) by {
                assert forall|i: int| 0 <= i < payloads.len() implies (#[trigger] payloads[i]).len()
                    == block_size by {
                    if i < k {
                        assert(payloads[i] == blocks_spec[i]);
                    } else {
                        assert(payloads[i] == shards@[i]@);
                    }
                }
            }
        }
        let mut frames: Vec<FecFrame> = Vec::new();
        let mut i: usize = 0;
        while i < k + m
            invariant
                0 <= i <= k + m,
                k + m <= 256,
                shards@.len() == k + m,
                payloads == block_views(shards@),
                payloads == shard_payloads(k as nat, m as nat, data@),
                uniform(payloads, block_size as nat),
                block_size == block_size_for((data@.len() + 4) as nat, k as nat),
                frames@.len() == i,
                forall|j: int|
                    0 <= j < i ==> (#[trigger] frames@[j])@ == encoded_frames(
                        k as nat,
                        m as nat,
                        session_id@,
                        data@,
                    )[j],
            decreases k + m - i,
        {
            let payload = copy_range(shards[i].as_slice(), 0, shards[i].len());
            assert(payload@ =~= payloads[i as int]);
            let block_type = if i < k {
                BlockType::Original
            } else {
                BlockType::Redundant
            };
            frames.push(create_fec_frame(session_id, i as u32, k as u32, m as u32, payload, block_type));
            i += 1;
        }
        proof {
            assert(frame_views(frames@) =~= encoded_frames(k as nat, m as nat, session_id@, data@));
            assert forall|j: int| 0 <= j < frames@.len() implies (#[trigger] frames@[j]).payload@.len()
                == block_size by {
                assert(frames@[j]@ == encoded_frames(k as nat, m as nat, session_id@, data@)[j]);
                assert(frames@[j]@.payload == payloads[j]);
            }
            assert forall|keep: Seq<bool>|
                keep.len() == k + m && present_count(#[trigger] erased(payloads, keep), (k + m) as int)
                    >= k implies decode_shards(k as nat, m as nat, erased(payloads, keep)) == Ok::<
                Seq<u8>,
                FecError,
            >(data@) by {
                lemma_erased_reconstructible(k as nat, m as nat, payloads, keep, block_size as nat);
                assert(rs_reconstructed(k as nat, m as nat, erased(payloads, keep)) == payloads);
                lemma_joined_prefix(payloads, blocks_spec, k as int);
                lemma_unframed_blocks(data@, k as nat);
            }
            assert forall|blocks: Seq<(u32, Seq<u8>)>|
                #![trigger drawn_from(payloads, blocks)]
                drawn_from(payloads, blocks) && covered((k + m) as nat, blocks) >= k implies decode_blocks_spec(
                k as nat,
                m as nat,
                blocks,
            ) == Ok::<Seq<u8>, FecError>(data@) by {
                lemma_gathered_is_erased(payloads, blocks, blocks.len() as int);
                let keep = named_slots(payloads.len(), blocks, blocks.len() as int);
                assert(present_count(erased(payloads, keep), (k + m) as int) >= k);
            }
        }
        Ok(frames)
    }

    /// The size of each shard for `framed_len` bytes.
    fn block_size(&self, framed_len: usize) -> (size: usize)
        requires
            self.wf(),
            framed_len <= MAX_MESSAGE_LEN + 4,
        ensures
            size == block_size_for(framed_len as nat, self.data_shards()),
            size % 64 == 0,
            size > 0 || framed_len == 0,
    {
        let per_block: u64 = (framed_len as u64 + self.k as u64 - 1) / (self.k as u64);
        proof {
            lemma_blocks_cover(framed_len as nat, self.k as nat);
        }
        (((per_block + 63) / 64) * 64) as usize
    }

    /// Cuts `data` into `k` shards of `block_size` bytes, the last filled up
    /// with zeros.
    fn split_into_blocks(&self, data: &[u8], block_size: usize) -> (blocks: Vec<Vec<u8>>)
        requires
            self.wf(),
        ensures
            block_views(blocks@) == data_blocks(data@, block_size as nat, self.data_shards()),
            blocks@.len() == self.data_shards(),
            forall|i: int| 0 <= i < blocks@.len() ==> (#[trigger] blocks@[i])@.len() == block_size,
    {
        let mut blocks: Vec<Vec<u8>> = Vec::new();
        let mut i: usize = 0;
        while i < self.k
            invariant
                0 <= i <= self.k,
                self.k <= 256,
                blocks@.len() == i,
                forall|b: int|
                    0 <= b < i ==> (#[trigger] blocks@[b])@ == data_block(data@, block_size as nat, b as nat),
            decreases self.k - i,
        {
            let mut block: Vec<u8> = Vec::new();
            let mut j: usize = 0;
            while j < block_size
                invariant
                    0 <= j <= block_size,
                    i < 256,
                    block@.len() == j,
                    forall|x: int|
                        0 <= x < j ==> #[trigger] block@[x] == data_block(
                            data@,
                            block_size as nat,
                            i as nat,
                        )[x],
                decreases block_size - j,
            {
                assert((i as nat) * (block_size as nat) <= 256 * (block_size as nat)) by (nonlinear_arith)
                    requires
                        i < 256,
                ;
                let at: u128 = (i as u128) * (block_size as u128) + (j as u128);
                if at < data.len() as u128 {
                    block.push(data[at as usize]);
                } else {
                    block.push(0);
                }
                j += 1;
            }
            assert(block@ =~= data_block(data@, block_size as nat, i as nat));
            blocks.push(block);
            i += 1;
        }
        assert(block_views(blocks@) =~= data_blocks(data@, block_size as nat, self.data_shards()));
        blocks
    }

    /// Restores a message from shards of it: the frames' payloads go to
    /// their slots by index, and the code does the rest.
    pub fn decode(&self, frames: &[FecFrame]) -> (r: Result<Vec<u8>, FecError>)
        requires
            self.wf(),
        ensures
            decode_result_matches(
                r,
                decode_blocks_spec(self.data_shards(), self.parity_shards(), frame_blocks(frames@)),
            ),
    {
        let blocks = blocks_of_frames(frames);
        decode_blocks(self.k, self.m, &blocks)
    }
}

/// Joining the first `n` shards reads only those shards.
proof fn lemma_joined_prefix(shards: Seq<Seq<u8>>, blocks: Seq<Seq<u8>>, n: int)
    requires
        0 <= n <= blocks.len(),
        blocks.len() <= shards.len(),
        forall|i: int| 0 <= i < blocks.len() ==> shards[i] == blocks[i],
    ensures
        joined(shards, n) == joined(blocks, n),
    decreases n,
{
    if n > 0 {
        lemma_joined_prefix(shards, blocks, n - 1);
    }
}

/// A block of `size` zeros.
fn zero_block(size: usize) -> (block: Vec<u8>)
    ensures
        block@.len() == size,
        forall|i: int| 0 <= i < size ==> block@[i] == 0,
{
    let mut block: Vec<u8> = Vec::new();
    let mut j: usize = 0;
    while j < size
        invariant
            0 <= j <= size,
            block@.len() == j,
            forall|i: int| 0 <= i < j ==> block@[i] == 0,
        decreases size - j,
    {
        block.push(0);
        j += 1;
    }
    block
}

} // verus!
