//! Dynamic frames: each record on a stream is sealed under a key derived
//! from a shared seed and the record's sequence number, and its length field
//! is masked so that the wire shows no cleartext length.
//!
//! ```text
//! [ masked length : 4 bytes, big endian ]
//! [ masked hint   : 2 bytes, big endian ]   only with `enable_sequence_hint`
//! [ fresh entropy : 32 bytes ]              only on ratchet frames
//! [ ciphertext and tag ]
//! ```

use vstd::prelude::*;
use crate::bytes::{be16, be16_value, be32, be32_value, be64, copy_range, push_be16, push_be32, push_be64, push_slice, read_be16, read_be32};
use crate::crypto::{aead_open, aead_seal, chacha20_poly1305_opened, chacha20_poly1305_sealed, random_32, sha256, sha256_digest, MAX_DIGEST_INPUT, MAX_SEAL_LEN, TAG_LEN};

verus! {

/// Largest sealed body, in bytes, that a frame may announce.
pub const MAX_FRAME_BODY: usize = 10 * 1024 * 1024;

/// How many sequence numbers ahead a receiver looks for a matching hint.
pub const RESYNC_WINDOW: u64 = 1000;

/// Length in bytes of the entropy that a ratchet frame carries.
pub const ENTROPY_LEN: usize = 32;

/// Protocol options shared by both ends of a stream.
#[derive(Debug, Clone, Copy)]
pub struct SilentConfig {
    /// Carry a masked two-byte sequence hint in every header, so that a
    /// receiver can find its place again after frames were lost.
    pub enable_sequence_hint: bool,
    /// Mix fresh entropy into the seed every `ratchet_interval` frames.
    pub enable_double_ratchet: bool,
    /// Distance in frames between two ratchet frames.
    pub ratchet_interval: u64,
}

impl Default for SilentConfig {
    fn default() -> (config: Self)
        ensures
            config.enable_sequence_hint,
            !config.enable_double_ratchet,
            config.ratchet_interval == 1000,
    {
        SilentConfig { enable_sequence_hint: true, enable_double_ratchet: false, ratchet_interval: 1000 }
    }
}

/// Why a frame could not be built or parsed.
#[derive(Debug, Clone, Copy, PartialEq, Eq, Structural)]
pub enum DynamicFramingError {
    /// The cipher refused to seal, or no entropy could be drawn.
    EncryptionError,
    /// The tag did not authenticate, or the receiver lost its place.
    DecryptionError,
    /// A length beyond what a frame or a buffer may hold.
    InvalidLength(usize),
    /// The buffer ends before the frame does.
    IncompleteData,
}

/// What a generator is: the seed and the next sequence number.
pub struct GeneratorState {
    pub seed: Seq<u8>,
    pub sequence: u64,
}

/// The salt of frame `sequence` under `seed`: SHA-256 of the seed followed
/// by the sequence number in big-endian order.
pub open spec fn salt_for(seed: Seq<u8>, sequence: u64) -> Seq<u8> {
    sha256_digest(seed + be64(sequence))
}

/// The nonce that a salt supplies.
pub open spec fn nonce_of(salt: Seq<u8>) -> Seq<u8> {
    salt.subrange(0, 12)
}

/// The mask that hides a frame's length.
pub open spec fn length_mask(salt: Seq<u8>) -> u32 {
    be32_value(salt.subrange(12, 16))
}

/// The mask that hides a frame's sequence hint.
pub open spec fn hint_mask(salt: Seq<u8>) -> u16 {
    be16_value(salt.subrange(16, 18))
}

/// The hint that the header of frame `sequence` carries.
pub open spec fn sequence_hint(seed: Seq<u8>, sequence: u64) -> u16 {
    ((sequence % 0x1_0000) as u16) ^ hint_mask(salt_for(seed, sequence))
}

/// Whether frame `sequence` carries fresh entropy. An interval of zero never
/// ratchets.
pub open spec fn is_ratchet_frame(config: SilentConfig, sequence: u64) -> bool {
    config.enable_double_ratchet && sequence > 0 && config.ratchet_interval > 0 && sequence
        % config.ratchet_interval == 0
}

/// Where the entropy of a ratchet frame starts.
pub open spec fn entropy_offset(config: SilentConfig) -> nat {
    if config.enable_sequence_hint {
        6
    } else {
        4
    }
}

/// Bytes in front of the sealed body of frame `sequence`.
pub open spec fn header_size(config: SilentConfig, sequence: u64) -> nat {
    entropy_offset(config) + if is_ratchet_frame(config, sequence) {
        ENTROPY_LEN as nat
    } else {
        0
    }
}

/// The seed after `entropy` was mixed into `seed`.
pub open spec fn ratcheted_seed(seed: Seq<u8>, entropy: Seq<u8>) -> Seq<u8> {
    sha256_digest(seed + entropy)
}

/// The sealed body of frame `sequence`: key and nonce both come from its salt.
pub open spec fn sealed_body(seed: Seq<u8>, sequence: u64, payload: Seq<u8>) -> Seq<u8> {
    let salt = salt_for(seed, sequence);
    chacha20_poly1305_sealed(salt, nonce_of(salt), payload)
}

/// The wire bytes of frame `sequence` around the sealed body `sealed`.
pub open spec fn frame_bytes(
    seed: Seq<u8>,
    sequence: u64,
    config: SilentConfig,
    entropy: Seq<u8>,
    sealed: Seq<u8>,
) -> Seq<u8> {
    be32((sealed.len() as u32) ^ length_mask(salt_for(seed, sequence))) + (if config.enable_sequence_hint {
        be16(sequence_hint(seed, sequence))
    } else {
        Seq::<u8>::empty()
    }) + (if is_ratchet_frame(config, sequence) {
        entropy
    } else {
        Seq::<u8>::empty()
    }) + sealed
}

/// Length of the frame that holds a payload of `payload_len` bytes.
pub open spec fn frame_len(config: SilentConfig, sequence: u64, payload_len: nat) -> nat {
    header_size(config, sequence) + payload_len + TAG_LEN as nat
}

/// What building frame `state.sequence` returns. `entropy` is read on
/// ratchet frames only.
pub open spec fn build_result(
    state: GeneratorState,
    payload: Seq<u8>,
    config: SilentConfig,
    entropy: Seq<u8>,
) -> Result<Seq<u8>, DynamicFramingError> {
    if payload.len() > MAX_SEAL_LEN {
        Err(DynamicFramingError::EncryptionError)
    } else if payload.len() + TAG_LEN > u32::MAX {
        Err(DynamicFramingError::InvalidLength((payload.len() + TAG_LEN) as usize))
    } else {
        Ok(
            frame_bytes(
                state.seed,
                state.sequence,
                config,
                entropy,
                sealed_body(state.seed, state.sequence, payload),
            ),
        )
    }
}

/// The generator after building frame `state.sequence`: the sequence moves on
/// in every case, the seed only behind a ratchet frame that was built.
pub open spec fn state_after_build(
    state: GeneratorState,
    payload: Seq<u8>,
    config: SilentConfig,
    entropy: Seq<u8>,
) -> GeneratorState {
    GeneratorState {
        seed: if build_result(state, payload, config, entropy) is Ok && is_ratchet_frame(
            config,
            state.sequence,
        ) {
            ratcheted_seed(state.seed, entropy)
        } else {
            state.seed
        },
        sequence: (state.sequence + 1) as u64,
    }
}

/// The first sequence number at `sequence + offset` or later, within the
/// window, whose hint is `received`.
pub open spec fn resync_from(seed: Seq<u8>, sequence: u64, received: u16, offset: nat) -> Option<u64>
    decreases RESYNC_WINDOW + 1 - offset,
{
    if offset > RESYNC_WINDOW || sequence + offset >= u64::MAX {
        None
    } else if sequence_hint(seed, (sequence + offset) as u64) == received {
        Some((sequence + offset) as u64)
    } else {
        resync_from(seed, sequence, received, offset + 1)
    }
}

/// The sequence number that the frame at the head of `data` belongs to, as
/// far as the receiver can tell. Without hints that is the expected one.
pub open spec fn synced_sequence(
    seed: Seq<u8>,
    sequence: u64,
    config: SilentConfig,
    data: Seq<u8>,
) -> Option<u64> {
    if !config.enable_sequence_hint {
        Some(sequence)
    } else {
        let received = be16_value(data.subrange(4, 6));
        if received == sequence_hint(seed, sequence) {
            Some(sequence)
        } else {
            resync_from(seed, sequence, received, 1)
        }
    }
}

/// What parsing returns and where it leaves the generator.
pub struct ParseOutcome {
    pub result: Result<(Seq<u8>, usize), DynamicFramingError>,
    pub state: GeneratorState,
}

/// Parsing one frame from the head of `data` with a generator in `state`.
///
/// - A header that is not all there asks for more bytes and changes nothing.
/// - A hint that no sequence number in the window has is a
///   `DecryptionError` and changes nothing.
/// - A frame that differs from the expected one in whether it ratchets is a
///   `DecryptionError`, and a body length beyond 10 MiB is `InvalidLength`;
///   both leave the generator one past the frame's sequence number.
/// - A body that is not all there asks for more bytes and leaves the
///   generator at the frame's sequence number.
/// - A body that does not open is a `DecryptionError`, one past the frame.
/// - Else the payload and the frame's length come back, the generator is one
///   past the frame, and behind a ratchet frame its seed is mixed with the
///   frame's entropy.
pub open spec fn parse_outcome(state: GeneratorState, data: Seq<u8>, config: SilentConfig) -> ParseOutcome {
    let header = header_size(config, state.sequence);
    if data.len() < header {
        ParseOutcome { result: Err(DynamicFramingError::IncompleteData), state }
    } else {
        match synced_sequence(state.seed, state.sequence, config, data) {
            None => ParseOutcome { result: Err(DynamicFramingError::DecryptionError), state },
            Some(sequence) => {
                let advanced = GeneratorState { seed: state.seed, sequence: (sequence + 1) as u64 };
                let salt = salt_for(state.seed, sequence);
                let body_len = be32_value(data.subrange(0, 4)) ^ length_mask(salt);
                if is_ratchet_frame(config, sequence) != is_ratchet_frame(config, state.sequence) {
                    ParseOutcome {
                        result: Err(DynamicFramingError::DecryptionError),
                        state: advanced,
                    }
                } else if body_len > MAX_FRAME_BODY {
                    ParseOutcome {
                        result: Err(DynamicFramingError::InvalidLength(body_len as usize)),
                        state: advanced,
                    }
                } else if data.len() < header + body_len {
                    ParseOutcome {
                        result: Err(DynamicFramingError::IncompleteData),
                        state: GeneratorState { seed: state.seed, sequence },
                    }
                } else {
                    match chacha20_poly1305_opened(
                        salt,
                        nonce_of(salt),
                        data.subrange(header as int, header + body_len),
                    ) {
                        None => ParseOutcome {
                            result: Err(DynamicFramingError::DecryptionError),
                            state: advanced,
                        },
                        Some(payload) => ParseOutcome {
                            result: Ok((payload, (header + body_len) as usize)),
                            state: GeneratorState {
                                seed: if is_ratchet_frame(config, sequence) {
                                    ratcheted_seed(
                                        state.seed,
                                        data.subrange(
                                            entropy_offset(config) as int,
                                            entropy_offset(config) + ENTROPY_LEN,
                                        ),
                                    )
                                } else {
                                    state.seed
                                },
                                sequence: (sequence + 1) as u64,
                            },
                        },
                    }
                }
            },
        }
    }
}

/// Whether the exec result `r` is the spec result `s`.
pub open spec fn parse_result_matches(
    r: Result<(Vec<u8>, usize), DynamicFramingError>,
    s: Result<(Seq<u8>, usize), DynamicFramingError>,
) -> bool {
    match r {
        Ok((payload, consumed)) => s == Ok::<(Seq<u8>, usize), DynamicFramingError>((payload@, consumed)),
        Err(e) => s == Err::<(Seq<u8>, usize), DynamicFramingError>(e),
    }
}

/// Whether the exec result `r` is the spec result `s`.
pub open spec fn build_result_matches(
    r: Result<Vec<u8>, DynamicFramingError>,
    s: Result<Seq<u8>, DynamicFramingError>,
) -> bool {
    match r {
        Ok(frame) => s == Ok::<Seq<u8>, DynamicFramingError>(frame@),
        Err(e) => s == Err::<Seq<u8>, DynamicFramingError>(e),
    }
}

/// Derives one salt per frame from a seed and a running sequence number.
pub struct SaltGenerator {
    seed: [u8; 32],
    sequence: u64,
}

impl View for SaltGenerator {
    type V = GeneratorState;

    closed spec fn view(&self) -> GeneratorState {
        GeneratorState { seed: self.seed@, sequence: self.sequence }
    }
}

/// SHA-256 of `first` followed by `second`.
fn digest_pair(first: &[u8], second: &[u8]) -> (out: [u8; 32])
    requires
        first@.len() + second@.len() < MAX_DIGEST_INPUT,
    ensures
        out@ == sha256_digest(first@ + second@),
{
    let mut input: Vec<u8> = Vec::new();
    push_slice(&mut input, first);
    push_slice(&mut input, second);
    assert(input@ =~= first@ + second@);
    sha256(input.as_slice())
}

/// The salt of frame `sequence` under `seed`.
fn compute_salt(seed: &[u8; 32], sequence: u64) -> (salt: [u8; 32])
    ensures
        salt@ == salt_for(seed@, sequence),
{
    let mut input: Vec<u8> = Vec::new();
    push_slice(&mut input, seed.as_slice());
    push_be64(&mut input, sequence);
    assert(input@ =~= seed@ + be64(sequence));
    sha256(input.as_slice())
}

/// The first twelve bytes of a salt.
fn salt_nonce(salt: &[u8; 32]) -> (nonce: [u8; 12])
    ensures
        nonce@ == nonce_of(salt@),
{
    let nonce = [
        salt[0],
        salt[1],
        salt[2],
        salt[3],
        salt[4],
        salt[5],
        salt[6],
        salt[7],
        salt[8],
        salt[9],
        salt[10],
        salt[11],
    ];
    assert(nonce@ =~= nonce_of(salt@));
    nonce
}

/// The hint that frame `sequence` carries when its salt is `salt`.
fn compute_hint(salt: &[u8; 32], sequence: u64) -> (hint: u16)
    ensures
        hint == ((sequence % 0x1_0000) as u16) ^ hint_mask(salt@),
{
    let low: u16 = (sequence % 0x1_0000) as u16;
    low ^ read_be16(salt.as_slice(), 16)
}

/// Whether frame `sequence` is a ratchet frame.
pub fn ratchets_at(config: SilentConfig, sequence: u64) -> (b: bool)
    ensures
        b == is_ratchet_frame(config, sequence),
{
    config.enable_double_ratchet && sequence > 0 && config.ratchet_interval > 0 && sequence
        % config.ratchet_interval == 0
}

/// Bytes in front of the sealed body of frame `sequence`.
pub fn header_len(config: SilentConfig, sequence: u64) -> (n: usize)
    ensures
        n == header_size(config, sequence),
        n <= 38,
{
    let mut n: usize = 4;
    if config.enable_sequence_hint {
        n += 2;
    }
    if ratchets_at(config, sequence) {
        n += 32;
    }
    n
}

impl SaltGenerator {
    /// A generator over `seed`, at sequence number zero.
    pub fn new(seed: [u8; 32]) -> (generator: Self)
        ensures
            generator@.seed == seed@,
            generator@.sequence == 0,
    {
        SaltGenerator { seed, sequence: 0 }
    }

    /// A generator over a seed drawn from the system's random source, or
    /// `None` where that source fails.
    pub fn new_random() -> (generator: Option<Self>)
        ensures
            generator matches Some(g) ==> g@.sequence == 0 && g@.seed.len() == 32,
    {
        match random_32() {
            Some(seed) => Some(SaltGenerator::new(seed)),
            None => None,
        }
    }

    /// Starts again at sequence number zero, under the same seed.
    pub fn reset(&mut self)
        ensures
            final(self)@.seed == old(self)@.seed,
            final(self)@.sequence == 0,
    {
        self.sequence = 0;
    }

    /// The sequence number of the next frame.
    pub fn sequence(&self) -> (sequence: u64)
        ensures
            sequence == self@.sequence,
    {
        self.sequence
    }

    /// Moves to sequence number `seq`, under the same seed.
    pub fn set_sequence(&mut self, seq: u64)
        ensures
            final(self)@.seed == old(self)@.seed,
            final(self)@.sequence == seq,
    {
        self.sequence = seq;
    }

    /// The salt of the current sequence number; the sequence moves on by one.
    pub fn next_salt(&mut self) -> (salt: [u8; 32])
        requires
            old(self)@.sequence < u64::MAX,
        ensures
            salt@ == salt_for(old(self)@.seed, old(self)@.sequence),
            final(self)@.seed == old(self)@.seed,
            final(self)@.sequence == old(self)@.sequence + 1,
    {
        let salt = compute_salt(&self.seed, self.sequence);
        self.sequence = self.sequence + 1;
        salt
    }

    /// The salt of sequence number `seq`; the generator stays where it is.
    pub fn get_salt_for_sequence(&self, seq: u64) -> (salt: [u8; 32])
        ensures
            salt@ == salt_for(self@.seed, seq),
    {
        compute_salt(&self.seed, seq)
    }

    /// A generator whose seed is SHA-256 of `base_seed` followed by
    /// `context_id` in big-endian order, at sequence number zero.
    pub fn new_diversified(base_seed: [u8; 32], context_id: u64) -> (generator: Self)
        ensures
            generator@.seed == salt_for(base_seed@, context_id),
            generator@.sequence == 0,
    {
        SaltGenerator::new(compute_salt(&base_seed, context_id))
    }

    /// Replaces the seed by SHA-256 of the seed followed by `entropy`. The
    /// sequence number stays.
    pub fn mix_entropy(&mut self, entropy: &[u8])
        requires
            entropy@.len() + 32 < MAX_DIGEST_INPUT,
        ensures
            final(self)@.seed == ratcheted_seed(old(self)@.seed, entropy@),
            final(self)@.sequence == old(self)@.sequence,
    {
        self.seed = digest_pair(self.seed.as_slice(), entropy);
    }
}

/// Puts header and sealed body together.
fn assemble_frame(
    salt: &[u8; 32],
    seed: Ghost<Seq<u8>>,
    sequence: u64,
    config: SilentConfig,
    entropy: &[u8; 32],
    sealed: &Vec<u8>,
) -> (frame: Vec<u8>)
    requires
        salt@ == salt_for(seed@, sequence),
        sealed@.len() <= u32::MAX,
    ensures
        frame@ == frame_bytes(seed@, sequence, config, entropy@, sealed@),
        frame@.len() == header_size(config, sequence) + sealed@.len(),
{
    let mask = read_be32(salt.as_slice(), 12);
    let mut frame: Vec<u8> = Vec::new();
    push_be32(&mut frame, (sealed.len() as u32) ^ mask);
    if config.enable_sequence_hint {
        push_be16(&mut frame, compute_hint(salt, sequence));
    }
    if ratchets_at(config, sequence) {
        push_slice(&mut frame, entropy.as_slice());
    }
    push_slice(&mut frame, sealed.as_slice());
    assert(frame@ =~= frame_bytes(seed@, sequence, config, entropy@, sealed@));
    frame
}

/// Undoing the mask gives the length back.
proof fn lemma_mask_twice(x: u32, mask: u32)
    ensures
        (x ^ mask) ^ mask == x,
{
    assert((x ^ mask) ^ mask == x) by (bit_vector);
}

/// Whether a receiver that expects the frame `behind` sequence numbers
/// before `sequence` finds frame `sequence`: the frame lies within the
/// window, hints are on unless the receiver is in step, both sequence numbers
/// agree on whether they ratchet, and no sequence number from the receiver's
/// up to the frame's shares the frame's hint.
pub open spec fn reaches(seed: Seq<u8>, sequence: u64, config: SilentConfig, behind: nat) -> bool {
    &&& behind <= sequence
    &&& behind <= RESYNC_WINDOW
    &&& behind > 0 ==> config.enable_sequence_hint
    &&& is_ratchet_frame(config, (sequence - behind) as u64) == is_ratchet_frame(config, sequence)
    &&& forall|candidate: u64|
        sequence - behind <= candidate < sequence ==> #[trigger] sequence_hint(seed, candidate)
            != sequence_hint(seed, sequence)
}

/// The search finds the first sequence number in the window whose hint is
/// the one received.
pub proof fn lemma_resync_finds(seed: Seq<u8>, expected: u64, received: u16, target: u64, offset: nat)
    requires
        1 <= offset,
        expected + offset <= target,
        target - expected <= RESYNC_WINDOW,
        target < u64::MAX,
        sequence_hint(seed, target) == received,
        forall|candidate: u64|
            expected + offset <= candidate < target ==> #[trigger] sequence_hint(seed, candidate) != received,
    ensures
        resync_from(seed, expected, received, offset) == Some(target),
    decreases target - expected - offset,
{
    if expected + offset < target {
        assert(sequence_hint(seed, (expected + offset) as u64) != received);
        lemma_resync_finds(seed, expected, received, target, offset + 1);
    }
}

/// The search gives up where no sequence number in the window has the hint
/// that was received.
pub proof fn lemma_resync_misses(seed: Seq<u8>, expected: u64, received: u16, offset: nat)
    requires
        1 <= offset,
        forall|candidate: u64|
            expected + offset <= candidate <= expected + RESYNC_WINDOW ==> #[trigger] sequence_hint(
                seed,
                candidate,
            ) != received,
    ensures
        resync_from(seed, expected, received, offset) is None,
    decreases RESYNC_WINDOW + 1 - offset,
{
    if offset <= RESYNC_WINDOW && expected + offset < u64::MAX {
        assert(sequence_hint(seed, (expected + offset) as u64) != received);
        lemma_resync_misses(seed, expected, received, offset + 1);
    }
}

/// Without hints, a receiver takes a frame only where its body opens under
/// the salt of the sequence number that the receiver itself expects: a
/// receiver that is out of step accepts nothing that was not sealed for the
/// place where it stands.
pub proof fn lemma_strict_receiver_opens_under_its_own_salt(
    state: GeneratorState,
    data: Seq<u8>,
    config: SilentConfig,
)
    requires
        state.sequence < u64::MAX,
        !config.enable_sequence_hint,
        parse_outcome(state, data, config).result is Ok,
    ensures
        chacha20_poly1305_opened(
            salt_for(state.seed, state.sequence),
            nonce_of(salt_for(state.seed, state.sequence)),
            data.subrange(
                header_size(config, state.sequence) as int,
                header_size(config, state.sequence) + (be32_value(data.subrange(0, 4)) ^ length_mask(
                    salt_for(state.seed, state.sequence),
                )),
            ),
        ) is Some,
        parse_outcome(state, data, config).state.sequence == state.sequence + 1,
{
}

/// With hints on, a receiver gives up with `DecryptionError`, and stays
/// where it is, on a complete header whose hint belongs to none of the
/// sequence numbers from the expected one to the end of the window.
pub proof fn lemma_resync_gives_up(state: GeneratorState, data: Seq<u8>, config: SilentConfig)
    requires
        config.enable_sequence_hint,
        data.len() >= header_size(config, state.sequence),
        forall|candidate: u64|
            state.sequence <= candidate <= state.sequence + RESYNC_WINDOW ==> #[trigger] sequence_hint(
                state.seed,
                candidate,
            ) != be16_value(data.subrange(4, 6)),
    ensures
        parse_outcome(state, data, config) == (ParseOutcome {
            result: Err(DynamicFramingError::DecryptionError),
            state,
        }),
{
    assert(sequence_hint(state.seed, state.sequence) != be16_value(data.subrange(4, 6)));
    lemma_resync_misses(state.seed, state.sequence, be16_value(data.subrange(4, 6)), 1);
}

/// A frame that was built parses back to the payload that was sealed in it,
/// under every receiver that reaches it.
proof fn lemma_frame_parses(
    state: GeneratorState,
    config: SilentConfig,
    entropy: Seq<u8>,
    payload: Seq<u8>,
    sealed: Seq<u8>,
    behind: nat,
)
    requires
        state.sequence < u64::MAX,
        entropy.len() == ENTROPY_LEN,
        sealed.len() == payload.len() + TAG_LEN,
        sealed.len() <= MAX_FRAME_BODY,
        chacha20_poly1305_opened(
            salt_for(state.seed, state.sequence),
            nonce_of(salt_for(state.seed, state.sequence)),
            sealed,
        ) == Some(payload),
        reaches(state.seed, state.sequence, config, behind),
    ensures
        parse_outcome(
            GeneratorState { seed: state.seed, sequence: (state.sequence - behind) as u64 },
            frame_bytes(state.seed, state.sequence, config, entropy, sealed),
            config,
        ) == (ParseOutcome {
            result: Ok((payload, frame_len(config, state.sequence, payload.len()) as usize)),
            state: GeneratorState {
                seed: if is_ratchet_frame(config, state.sequence) {
                    ratcheted_seed(state.seed, entropy)
                } else {
                    state.seed
                },
                sequence: (state.sequence + 1) as u64,
            },
        }),
{
    let receiver = GeneratorState { seed: state.seed, sequence: (state.sequence - behind) as u64 };
    let salt = salt_for(state.seed, state.sequence);
    let frame = frame_bytes(state.seed, state.sequence, config, entropy, sealed);
    let header = header_size(config, state.sequence);
    let masked = (sealed.len() as u32) ^ length_mask(salt);
    crate::bytes::lemma_be32_roundtrip(masked);
    crate::bytes::lemma_be16_roundtrip(sequence_hint(state.seed, state.sequence));
    lemma_mask_twice(sealed.len() as u32, length_mask(salt));
    assert(header_size(config, receiver.sequence) == header);
    assert(frame.len() == header + sealed.len());
    assert(frame.subrange(0, 4) =~= be32(masked));
    if config.enable_sequence_hint {
        assert(frame.subrange(4, 6) =~= be16(sequence_hint(state.seed, state.sequence)));
        if behind > 0 {
            assert(sequence_hint(state.seed, receiver.sequence) != sequence_hint(state.seed, state.sequence));
            lemma_resync_finds(
                state.seed,
                receiver.sequence,
                sequence_hint(state.seed, state.sequence),
                state.sequence,
                1,
            );
        }
    }
    assert(synced_sequence(state.seed, receiver.sequence, config, frame) == Some(state.sequence));
    if is_ratchet_frame(config, state.sequence) {
        assert(frame.subrange(entropy_offset(config) as int, entropy_offset(config) + ENTROPY_LEN)
            =~= entropy);
    }
    assert(frame.subrange(header as int, (header + sealed.len()) as int) =~= sealed);
}

/// What a frame that was built owes to every receiver that reaches it: the
/// payload, the frame's whole length, and a generator in the sender's state.
pub open spec fn parses_back(
    sent_from: GeneratorState,
    sent_to: GeneratorState,
    config: SilentConfig,
    payload: Seq<u8>,
    frame: Seq<u8>,
) -> bool {
    forall|behind: nat| #[trigger]
        reaches(sent_from.seed, sent_from.sequence, config, behind) ==> parse_outcome(
            GeneratorState { seed: sent_from.seed, sequence: (sent_from.sequence - behind) as u64 },
            frame,
            config,
        ) == (ParseOutcome { result: Ok((payload, frame.len() as usize)), state: sent_to })
}

/// Builds the frame for the generator's current sequence number, with
/// `entropy` as the fresh entropy should this be a ratchet frame.
///
/// The sequence number moves on by one whatever is returned. A frame that is
/// returned parses back to `payload` under a generator in the state that this
/// one was in, provided its body is within what a parser accepts.
pub fn build_frame_with_entropy(
    generator: &mut SaltGenerator,
    payload: &[u8],
    config: SilentConfig,
    entropy: &[u8; 32],
) -> (r: Result<Vec<u8>, DynamicFramingError>)
    requires
        old(generator)@.sequence < u64::MAX,
    ensures
        build_result_matches(r, build_result(old(generator)@, payload@, config, entropy@)),
        final(generator)@ == state_after_build(old(generator)@, payload@, config, entropy@),
        r matches Ok(frame) ==> frame@.len() == frame_len(
            config,
            old(generator)@.sequence,
            payload@.len(),
        ),
        r matches Ok(frame) ==> payload@.len() + TAG_LEN <= MAX_FRAME_BODY ==> parse_outcome(
            old(generator)@,
            frame@,
            config,
        ) == (ParseOutcome { result: Ok((payload@, frame@.len() as usize)), state: final(generator)@ }),
        r matches Ok(frame) ==> payload@.len() + TAG_LEN <= MAX_FRAME_BODY ==> parses_back(
            old(generator)@,
            final(generator)@,
            config,
            payload@,
            frame@,
        ),
{
    let sequence = generator.sequence;
    let salt = generator.next_salt();
    let nonce = salt_nonce(&salt);
    let sealed = match aead_seal(&salt, &nonce, payload) {
        Some(sealed) => sealed,
        None => {
            return Err(DynamicFramingError::EncryptionError);
        },
    };
    if sealed.len() > u32::MAX as usize {
        return Err(DynamicFramingError::InvalidLength(sealed.len()));
    }
    let frame = assemble_frame(&salt, Ghost(old(generator)@.seed), sequence, config, entropy, &sealed);
    if ratchets_at(config, sequence) {
        generator.mix_entropy(entropy.as_slice());
    }
    proof {
        if payload@.len() + TAG_LEN <= MAX_FRAME_BODY {
            assert(reaches(old(generator)@.seed, sequence, config, 0));
            lemma_frame_parses(old(generator)@, config, entropy@, payload@, sealed@, 0);
            assert forall|behind: nat| #[trigger]
                reaches(old(generator)@.seed, sequence, config, behind) implies parse_outcome(
                GeneratorState { seed: old(generator)@.seed, sequence: (sequence - behind) as u64 },
                frame@,
                config,
            ) == (ParseOutcome { result: Ok((payload@, frame@.len() as usize)), state: generator@ }) by {
                lemma_frame_parses(old(generator)@, config, entropy@, payload@, sealed@, behind);
            }
        }
    }
    Ok(frame)
}

/// Builds the frame for the generator's current sequence number. A ratchet
/// frame carries 32 bytes drawn from the system's random source, and the
/// generator's seed is mixed with them once the frame is built.
///
/// The sequence number moves on by one whatever is returned. Apart from the
/// errors of `build_result`, a ratchet frame fails with `EncryptionError`
/// where no entropy can be drawn.
pub fn build_dynamic_frame(generator: &mut SaltGenerator, payload: &[u8], config: SilentConfig) -> (r:
    Result<Vec<u8>, DynamicFramingError>)
    requires
        old(generator)@.sequence < u64::MAX,
    ensures
        final(generator)@.sequence == old(generator)@.sequence + 1,
        !is_ratchet_frame(config, old(generator)@.sequence) ==> {
            &&& build_result_matches(
                r,
                build_result(old(generator)@, payload@, config, Seq::<u8>::empty()),
            )
            &&& final(generator)@.seed == old(generator)@.seed
        },
        is_ratchet_frame(config, old(generator)@.sequence) ==> {
            ||| exists|entropy: Seq<u8>|
                {
                    &&& entropy.len() == ENTROPY_LEN
                    &&& build_result_matches(
                        r,
                        #[trigger] build_result(old(generator)@, payload@, config, entropy),
                    )
                    &&& final(generator)@ == state_after_build(
                        old(generator)@,
                        payload@,
                        config,
                        entropy,
                    )
                }
            ||| {
                &&& r == Err::<Vec<u8>, DynamicFramingError>(DynamicFramingError::EncryptionError)
                &&& build_result(old(generator)@, payload@, config, Seq::<u8>::empty()) is Ok
                &&& final(generator)@.seed == old(generator)@.seed
            }
        },
        r matches Ok(frame) ==> frame@.len() == frame_len(
            config,
            old(generator)@.sequence,
            payload@.len(),
        ),
        r matches Ok(frame) ==> payload@.len() + TAG_LEN <= MAX_FRAME_BODY ==> parse_outcome(
            old(generator)@,
            frame@,
            config,
        ) == (ParseOutcome { result: Ok((payload@, frame@.len() as usize)), state: final(generator)@ }),
        r matches Ok(frame) ==> payload@.len() + TAG_LEN <= MAX_FRAME_BODY ==> parses_back(
            old(generator)@,
            final(generator)@,
            config,
            payload@,
            frame@,
        ),
{
    let sequence = generator.sequence;
    if !ratchets_at(config, sequence) {
        let unused = [0u8; 32];
        let r = build_frame_with_entropy(generator, payload, config, &unused);
        proof {
            let here = build_result(old(generator)@, payload@, config, unused@);
            let bare = build_result(old(generator)@, payload@, config, Seq::<u8>::empty());
            if here is Ok {
                assert(here->Ok_0 =~= bare->Ok_0);
            }
        }
        return r;
    }
    if payload.len() as u64 > MAX_SEAL_LEN || payload.len() > (u32::MAX as usize) - TAG_LEN {
        let unused = [0u8; 32];
        return build_frame_with_entropy(generator, payload, config, &unused);
    }
    match random_32() {
        Some(entropy) => build_frame_with_entropy(generator, payload, config, &entropy),
        None => {
            generator.sequence = sequence + 1;
            Err(DynamicFramingError::EncryptionError)
        },
    }
}

/// Looks ahead for the sequence number whose hint is `received`.
fn resync(seed: &[u8; 32], sequence: u64, received: u16) -> (found: Option<(u64, [u8; 32])>)
    ensures
        match found {
            Some((synced, salt)) => resync_from(seed@, sequence, received, 1) == Some(synced) && salt@
                == salt_for(seed@, synced) && synced < u64::MAX,
            None => resync_from(seed@, sequence, received, 1).is_none(),
        },
{
    let mut offset: u64 = 1;
    while offset <= RESYNC_WINDOW && offset < u64::MAX - sequence
        invariant
            1 <= offset <= RESYNC_WINDOW + 1,
            resync_from(seed@, sequence, received, 1) == resync_from(seed@, sequence, received, offset as nat),
        decreases RESYNC_WINDOW + 1 - offset,
    {
        let candidate = sequence + offset;
        let salt = compute_salt(seed, candidate);
        if compute_hint(&salt, candidate) == received {
            return Some((candidate, salt));
        }
        offset += 1;
    }
    None
}

/// Parses one frame from the head of `data`.
///
/// Returns the payload and the number of bytes that the frame took.
/// `IncompleteData` asks for more bytes and is no failure. The generator is
/// left as `parse_outcome` says: one past the frame's sequence number after
/// a frame or a failure behind the header, at the frame's sequence number
/// where the body is incomplete, and unchanged otherwise. The seed changes
/// only behind a ratchet frame that was opened.
pub fn parse_dynamic_frame(generator: &mut SaltGenerator, data: &[u8], config: SilentConfig) -> (r: Result<
    (Vec<u8>, usize),
    DynamicFramingError,
>)
    requires
        old(generator)@.sequence < u64::MAX,
    ensures
        parse_result_matches(r, parse_outcome(old(generator)@, data@, config).result),
        final(generator)@ == parse_outcome(old(generator)@, data@, config).state,
{
    let expected = generator.sequence;
    let header = header_len(config, expected);
    if data.len() < header {
        return Err(DynamicFramingError::IncompleteData);
    }
    let mut sequence = expected;
    let mut salt = compute_salt(&generator.seed, expected);
    if config.enable_sequence_hint {
        let received = read_be16(data, 4);
        if received != compute_hint(&salt, expected) {
            match resync(&generator.seed, expected, received) {
                Some((synced, synced_salt)) => {
                    sequence = synced;
                    salt = synced_salt;
                },
                None => {
                    return Err(DynamicFramingError::DecryptionError);
                },
            }
        }
    }
    assert(synced_sequence(old(generator)@.seed, expected, config, data@) == Some(sequence));
    if ratchets_at(config, sequence) != ratchets_at(config, expected) {
        generator.sequence = sequence + 1;
        return Err(DynamicFramingError::DecryptionError);
    }
    let body_len = (read_be32(data, 0) ^ read_be32(salt.as_slice(), 12)) as usize;
    if body_len > MAX_FRAME_BODY {
        generator.sequence = sequence + 1;
        return Err(DynamicFramingError::InvalidLength(body_len));
    }
    let total = header + body_len;
    if data.len() < total {
        generator.sequence = sequence;
        return Err(DynamicFramingError::IncompleteData);
    }
    let nonce = salt_nonce(&salt);
    let sealed = copy_range(data, header, total);
    generator.sequence = sequence + 1;
    match aead_open(&salt, &nonce, sealed.as_slice()) {
        Some(payload) => {
            if ratchets_at(config, sequence) {
                let from: usize = if config.enable_sequence_hint {
                    6
                } else {
                    4
                };
                let entropy = copy_range(data, from, from + ENTROPY_LEN);
                generator.mix_entropy(entropy.as_slice());
            }
            Ok((payload, total))
        },
        None => Err(DynamicFramingError::DecryptionError),
    }
}

/// Receives the bytes of one stream and hands out its frames' payloads.
pub struct DynamicStreamParser {
    buffer: Vec<u8>,
    max_buffer_size: usize,
    generator: SaltGenerator,
}

impl DynamicStreamParser {
    /// The bytes received and not yet parsed.
    pub closed spec fn buffered(&self) -> Seq<u8> {
        self.buffer@
    }

    /// The state of the parser's generator.
    pub closed spec fn generator_state(&self) -> GeneratorState {
        self.generator@
    }

    /// The most bytes that the buffer may hold.
    pub closed spec fn capacity(&self) -> nat {
        self.max_buffer_size as nat
    }

    /// A parser with an empty buffer of at most 10 MiB that reads frames with
    /// `generator`.
    pub fn new(generator: SaltGenerator) -> (parser: Self)
        ensures
            parser.buffered() == Seq::<u8>::empty(),
            parser.generator_state() == generator@,
            parser.capacity() == MAX_FRAME_BODY,
    {
        DynamicStreamParser { buffer: Vec::new(), max_buffer_size: MAX_FRAME_BODY, generator }
    }

    /// Appends received bytes. Where they would take the buffer beyond its
    /// capacity, the buffer is emptied and `InvalidLength` reports the length
    /// of `data`.
    pub fn append_data(&mut self, data: &[u8]) -> (r: Result<(), DynamicFramingError>)
        ensures
            final(self).generator_state() == old(self).generator_state(),
            final(self).capacity() == old(self).capacity(),
            old(self).buffered().len() + data@.len() <= old(self).capacity() ==> r is Ok && final(self).buffered() == old(self).buffered() + data@,
            old(self).buffered().len() + data@.len() > old(self).capacity() ==> r == Err::<
                (),
                DynamicFramingError,
            >(DynamicFramingError::InvalidLength(data@.len() as usize)) && final(self).buffered()
                == Seq::<u8>::empty(),
    {
        if data.len() > self.max_buffer_size || self.buffer.len() > self.max_buffer_size - data.len() {
            self.buffer.clear();
            return Err(DynamicFramingError::InvalidLength(data.len()));
        }
        push_slice(&mut self.buffer, data);
        Ok(())
    }

    /// Parses the frame at the head of the buffer, if it is all there.
    ///
    /// A frame's payload comes back as `Ok(Some(..))` and the frame leaves the
    /// buffer. An incomplete frame gives `Ok(None)` and changes nothing. Any
    /// other failure empties the buffer and is returned.
    pub fn try_parse_next(&mut self, config: SilentConfig) -> (r: Result<Option<Vec<u8>>, DynamicFramingError>)
        requires
            old(self).generator_state().sequence < u64::MAX,
        ensures
            final(self).capacity() == old(self).capacity(),
            match parse_outcome(old(self).generator_state(), old(self).buffered(), config).result {
                Ok((payload, consumed)) => {
                    &&& r matches Ok(Some(p))
                    &&& p@ == payload
                    &&& final(self).buffered() == old(self).buffered().skip(consumed as int)
                    &&& final(self).generator_state() == parse_outcome(
                        old(self).generator_state(),
                        old(self).buffered(),
                        config,
                    ).state
                },
                Err(DynamicFramingError::IncompleteData) => {
                    &&& r matches Ok(None)
                    &&& final(self).buffered() == old(self).buffered()
                    &&& final(self).generator_state() == old(self).generator_state()
                },
                Err(e) => {
                    &&& r == Err::<Option<Vec<u8>>, DynamicFramingError>(e)
                    &&& final(self).buffered() == Seq::<u8>::empty()
                    &&& final(self).generator_state() == parse_outcome(
                        old(self).generator_state(),
                        old(self).buffered(),
                        config,
                    ).state
                },
            },
    {
        let start = self.generator.sequence;
        match parse_dynamic_frame(&mut self.generator, self.buffer.as_slice(), config) {
            Ok((payload, consumed)) => {
                let rest = self.buffer.split_off(consumed);
                self.buffer = rest;
                assert(self.buffer@ =~= old(self).buffer@.skip(consumed as int));
                Ok(Some(payload))
            },
            Err(DynamicFramingError::IncompleteData) => {
                self.generator.sequence = start;
                Ok(None)
            },
            Err(e) => {
                self.buffer.clear();
                Err(e)
            },
        }
    }

    /// Number of bytes received and not yet parsed.
    pub fn buffer_size(&self) -> (n: usize)
        ensures
            n == self.buffered().len(),
    {
        self.buffer.len()
    }

    /// The sequence number of the frame that the parser expects next.
    pub fn sequence(&self) -> (sequence: u64)
        ensures
            sequence == self.generator_state().sequence,
    {
        self.generator.sequence
    }

    /// Empties the buffer. The generator stays where it is.
    pub fn clear(&mut self)
        ensures
            final(self).buffered() == Seq::<u8>::empty(),
            final(self).generator_state() == old(self).generator_state(),
            final(self).capacity() == old(self).capacity(),
    {
        self.buffer.clear();
    }
}


} // verus!
