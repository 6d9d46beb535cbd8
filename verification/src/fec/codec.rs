//! The Reed-Solomon erasure code over GF(2^8), taken from
//! `reed_solomon_erasure`, and the layout of a message in its data shards.

use vstd::prelude::*;
use crate::bytes::{le32, le32_value};

verus! {

/// Most shards, data and parity together, that the code can hold.
pub const MAX_TOTAL_SHARDS: usize = 256;

/// The `m` parity shards that the code with `k` data shards gives to `data`.
pub uninterp spec fn rs_parity(k: nat, m: nat, data: Seq<Seq<u8>>) -> Seq<Seq<u8>>;

/// All `k + m` shards as the code with `k` data shards restores them from
/// those of `shards` that are present.
pub uninterp spec fn rs_reconstructed(k: nat, m: nat, shards: Seq<Option<Seq<u8>>>) -> Seq<Seq<u8>>;

/// Whether a code with `k` data shards and `m` parity shards exists.
pub open spec fn codec_accepts(k: nat, m: nat) -> bool {
    k >= 1 && m >= 1 && k + m <= MAX_TOTAL_SHARDS
}

/// Whether every shard is `size` bytes long.
pub open spec fn uniform(shards: Seq<Seq<u8>>, size: nat) -> bool {
    forall|i: int| 0 <= i < shards.len() ==> (#[trigger] shards[i]).len() == size
}

/// Whether the code can fill in the parity of `shards`: all `k + m` slots are
/// there, of one length that is not zero.
pub open spec fn encodable(k: nat, m: nat, shards: Seq<Seq<u8>>) -> bool {
    &&& codec_accepts(k, m)
    &&& shards.len() == k + m
    &&& shards[0].len() > 0
    &&& uniform(shards, shards[0].len())
}

/// How many of the first `n` shards are present.
pub open spec fn present_count(shards: Seq<Option<Seq<u8>>>, n: int) -> nat
    decreases n,
{
    if n <= 0 {
        0
    } else {
        present_count(shards, n - 1) + if shards[n - 1] is Some {
            1nat
        } else {
            0nat
        }
    }
}

/// Whether the shards that are present are of one length that is not zero.
pub open spec fn present_uniform(shards: Seq<Option<Seq<u8>>>) -> bool {
    &&& forall|i: int| 0 <= i < shards.len() && (#[trigger] shards[i]) is Some ==> shards[i].unwrap().len() > 0
    &&& forall|i: int, j: int|
        0 <= i < shards.len() && 0 <= j < shards.len() && (#[trigger] shards[i]) is Some && (
        #[trigger] shards[j]) is Some ==> shards[i].unwrap().len() == shards[j].unwrap().len()
}

/// Whether the code can restore the missing shards: all `k + m` slots are
/// there, at least `k` of them are present, and those are of one length that
/// is not zero.
pub open spec fn reconstructible(k: nat, m: nat, shards: Seq<Option<Seq<u8>>>) -> bool {
    &&& codec_accepts(k, m)
    &&& shards.len() == k + m
    &&& present_uniform(shards)
    &&& present_count(shards, shards.len() as int) >= k
}

/// The shards of `codeword` that `keep` keeps, the others missing.
pub open spec fn erased(codeword: Seq<Seq<u8>>, keep: Seq<bool>) -> Seq<Option<Seq<u8>>> {
    Seq::new(
        codeword.len(),
        |i: int|
            if keep[i] {
                Some(codeword[i])
            } else {
                None
            },
    )
}

/// The shards of an exec list as values.
pub open spec fn shard_views(shards: Seq<Option<Vec<u8>>>) -> Seq<Option<Seq<u8>>> {
    Seq::new(
        shards.len(),
        |i: int|
            match shards[i] {
                Some(shard) => Some(shard@),
                None => None,
            },
    )
}

/// The shards of an exec list as values.
pub open spec fn block_views(blocks: Seq<Vec<u8>>) -> Seq<Seq<u8>> {
    Seq::new(blocks.len(), |i: int| blocks[i]@)
}

/// All shards present.
pub open spec fn all_present(shards: Seq<Seq<u8>>) -> Seq<Option<Seq<u8>>> {
    Seq::new(shards.len(), |i: int| Some(shards[i]))
}

/// Calls `reed_solomon_erasure::galois_8::ReedSolomon::new` and says whether
/// it gave a code: it does for at least one data shard, at least one parity
/// shard and at most 256 shards in all.
#[verifier::external_body]
pub(crate) fn rs_available(k: usize, m: usize) -> (ok: bool)
    requires
        k + m <= usize::MAX,
    ensures
        ok == codec_accepts(k as nat, m as nat),
{
    reed_solomon_erasure::galois_8::ReedSolomon::new(k, m).is_ok()
}

/// Calls `reed_solomon_erasure::galois_8::ReedSolomon::encode` on a code made
/// by `ReedSolomon::new(k, m)`. The call succeeds exactly on `k + m` shards of
/// one length that is not zero, and then overwrites the last `m` with the
/// parity of the first `k`, which stay as they are; on failure nothing is
/// touched. No shard changes its length. Whatever is kept of the result, the
/// code restores all of it from any `k` shards or more: that is the defining
/// property of the code, and it is taken on trust here.
#[verifier::external_body]
pub(crate) fn rs_encode(k: usize, m: usize, shards: &mut Vec<Vec<u8>>) -> (ok: bool)
    requires
        k + m <= usize::MAX,
    ensures
        ok == encodable(k as nat, m as nat, block_views(old(shards)@)),
        final(shards)@.len() == old(shards)@.len(),
        forall|i: int|
            0 <= i < final(shards)@.len() ==> (#[trigger] final(shards)@[i])@.len() == old(shards)@[i]@.len(),
        !ok ==> block_views(final(shards)@) == block_views(old(shards)@),
        ok ==> block_views(final(shards)@) == block_views(old(shards)@).take(k as int) + rs_parity(
            k as nat,
            m as nat,
            block_views(old(shards)@).take(k as int),
        ),
        ok ==> forall|keep: Seq<bool>|
            keep.len() == k + m && reconstructible(
                k as nat,
                m as nat,
                #[trigger] erased(block_views(final(shards)@), keep),
            ) ==> rs_reconstructed(k as nat, m as nat, erased(block_views(final(shards)@), keep))
                == block_views(final(shards)@),
{
    match reed_solomon_erasure::galois_8::ReedSolomon::new(k, m) {
        Ok(codec) => codec.encode(shards).is_ok(),
        Err(_) => false,
    }
}

/// Calls `reed_solomon_erasure::galois_8::ReedSolomon::reconstruct` on a code
/// made by `ReedSolomon::new(k, m)`. The call succeeds exactly on `k + m`
/// slots of which at least `k` are present, of one length that is not zero,
/// and then every slot holds its restored shard; on failure nothing is
/// touched.
#[verifier::external_body]
pub(crate) fn rs_reconstruct(k: usize, m: usize, shards: &mut Vec<Option<Vec<u8>>>) -> (ok: bool)
    requires
        k + m <= usize::MAX,
    ensures
        ok == reconstructible(k as nat, m as nat, shard_views(old(shards)@)),
        !ok ==> shard_views(final(shards)@) == shard_views(old(shards)@),
        ok ==> shard_views(final(shards)@) == all_present(
            rs_reconstructed(k as nat, m as nat, shard_views(old(shards)@)),
        ),
        ok ==> rs_reconstructed(k as nat, m as nat, shard_views(old(shards)@)).len() == k + m,
{
    match reed_solomon_erasure::galois_8::ReedSolomon::new(k, m) {
        Ok(codec) => codec.reconstruct(shards).is_ok(),
        Err(_) => false,
    }
}

/// A message with its length in front: four bytes, little endian.
pub open spec fn prefixed(message: Seq<u8>) -> Seq<u8> {
    le32(message.len() as u32) + message
}

/// The size of each shard for `framed_len` bytes in `k` data shards: the
/// bytes per shard, rounded up to a multiple of 64.
pub open spec fn block_size_for(framed_len: nat, k: nat) -> nat
    recommends
        k > 0,
{
    ((((framed_len + k - 1) / (k as int)) + 63) / 64 * 64) as nat
}

/// Data shard `i` of `framed`: its bytes from `i * size` on, filled up with
/// zeros to `size` bytes.
pub open spec fn data_block(framed: Seq<u8>, size: nat, i: nat) -> Seq<u8> {
    Seq::new(
        size,
        |j: int|
            if i * size + j < framed.len() {
                framed[i * size + j]
            } else {
                0u8
            },
    )
}

/// The `k` data shards of `framed`.
pub open spec fn data_blocks(framed: Seq<u8>, size: nat, k: nat) -> Seq<Seq<u8>> {
    Seq::new(k, |i: int| data_block(framed, size, i as nat))
}

/// The first `n` shards, one after the other.
pub open spec fn joined(shards: Seq<Seq<u8>>, n: int) -> Seq<u8>
    decreases n,
{
    if n <= 0 {
        Seq::<u8>::empty()
    } else {
        joined(shards, n - 1) + shards[n - 1]
    }
}

/// Why a message could not be protected or restored.
#[derive(Debug, Clone, Copy, PartialEq, Eq, Structural)]
pub enum FecError {
    /// No code exists for these numbers of data and parity shards.
    InvalidParameters,
    /// The message is too long for its four-byte length prefix.
    InputTooLarge,
    /// The code refused to compute parity.
    EncodingFailed,
    /// A session identifier that is not 16 bytes long.
    InvalidSessionId,
    /// A shard whose hash does not match its fields.
    CorruptFrame,
    /// A shard index at or beyond the number of shards.
    InvalidBlockIndex(u32),
    /// Fewer shards than the code needs.
    InsufficientData { have: usize, need: usize },
    /// The code refused to restore the missing shards.
    ReconstructionFailed,
    /// The restored bytes are shorter than their length prefix says.
    LengthPrefixExceedsData,
    /// The session did not complete within its timeout.
    SessionTimeout,
}

/// The message in the restored data shards: the bytes behind the length
/// prefix, as many as the prefix says.
pub open spec fn unframed(bytes: Seq<u8>) -> Result<Seq<u8>, FecError> {
    if bytes.len() < 4 || 4 + le32_value(bytes.subrange(0, 4)) > bytes.len() {
        Err(FecError::LengthPrefixExceedsData)
    } else {
        Ok(bytes.subrange(4, 4 + le32_value(bytes.subrange(0, 4))))
    }
}

/// Restoring a message from the shards that are present.
pub open spec fn decode_shards(k: nat, m: nat, shards: Seq<Option<Seq<u8>>>) -> Result<Seq<u8>, FecError> {
    if !codec_accepts(k, m) || shards.len() != k + m {
        Err(FecError::InvalidParameters)
    } else if present_count(shards, shards.len() as int) < k {
        Err(
            FecError::InsufficientData {
                have: present_count(shards, shards.len() as int) as usize,
                need: k as usize,
            },
        )
    } else if !reconstructible(k, m, shards) {
        Err(FecError::ReconstructionFailed)
    } else {
        unframed(joined(rs_reconstructed(k, m, shards), k as int))
    }
}

/// Fewer shards than the code has data shards never decode.
pub proof fn lemma_too_few_shards_fail(k: nat, m: nat, shards: Seq<Option<Seq<u8>>>)
    requires
        codec_accepts(k, m),
        shards.len() == k + m,
        present_count(shards, shards.len() as int) < k,
    ensures
        decode_shards(k, m, shards) == Err::<Seq<u8>, FecError>(
            FecError::InsufficientData {
                have: present_count(shards, shards.len() as int) as usize,
                need: k as usize,
            },
        ),
{
}

} // verus!
