//! Length-prefixed framing: a four-byte big-endian length, then the encoded
//! message.

use vstd::prelude::*;
use crate::bytes::{be32, be32_value, copy_range, lemma_be32_roundtrip, push_be32, push_slice, read_be32};

verus! {

/// Largest message, in bytes, that a frame may announce.
pub const MAX_MESSAGE_SIZE: usize = 10 * 1024 * 1024;

/// Most bytes that a `StreamParser` buffers.
pub const MAX_STREAM_BUFFER: usize = 1024 * 1024;

/// Why framed bytes could not be taken.
#[derive(Debug, Clone, Copy, PartialEq, Eq, Structural)]
pub enum FramingError {
    /// The data ends before the frame does.
    IncompleteData { current: usize, needed: usize },
    /// A length beyond what a frame or a buffer may hold.
    MessageTooLarge { length: usize, max: usize },
}

/// The length prefix written in front of a message of `len` bytes: the length
/// modulo 2^32.
pub open spec fn length_prefix(len: nat) -> u32 {
    (len % 0x1_0000_0000) as u32
}

/// A message with its length prefix.
pub open spec fn framed(message: Seq<u8>) -> Seq<u8> {
    be32(length_prefix(message.len())) + message
}

/// The first framed message in `data` and the bytes it takes, or why there
/// is none.
pub open spec fn parse_framed(data: Seq<u8>) -> Result<(Seq<u8>, usize), FramingError> {
    if data.len() < 4 {
        Err(FramingError::IncompleteData { current: data.len() as usize, needed: 4 })
    } else {
        let length = be32_value(data.subrange(0, 4));
        if length > MAX_MESSAGE_SIZE {
            Err(FramingError::MessageTooLarge { length: length as usize, max: MAX_MESSAGE_SIZE })
        } else if data.len() < 4 + length {
            Err(FramingError::IncompleteData { current: data.len() as usize, needed: (4 + length) as usize })
        } else {
            Ok((data.subrange(4, 4 + length), (4 + length) as usize))
        }
    }
}

/// Whether the exec result `r` is the spec result `s`.
pub open spec fn framed_result_matches(
    r: Result<(Vec<u8>, usize), FramingError>,
    s: Result<(Seq<u8>, usize), FramingError>,
) -> bool {
    match r {
        Ok((message, consumed)) => s == Ok::<(Seq<u8>, usize), FramingError>((message@, consumed)),
        Err(e) => s == Err::<(Seq<u8>, usize), FramingError>(e),
    }
}

/// A framed message of at most `MAX_MESSAGE_SIZE` bytes parses back to
/// itself and takes the whole frame, whatever follows it.
pub proof fn lemma_framed_parses(message: Seq<u8>, rest: Seq<u8>)
    requires
        message.len() <= MAX_MESSAGE_SIZE,
    ensures
        parse_framed(framed(message) + rest) == Ok::<(Seq<u8>, usize), FramingError>(
            (message, (4 + message.len()) as usize),
        ),
{
    let data = framed(message) + rest;
    lemma_be32_roundtrip(length_prefix(message.len()));
    assert(data.subrange(0, 4) =~= be32(length_prefix(message.len())));
    assert(data.subrange(4, (4 + message.len()) as int) =~= message);
}

/// Puts the length prefix in front of an encoded message.
pub fn frame_message(message: &[u8]) -> (out: Vec<u8>)
    ensures
        out@ == framed(message@),
        message@.len() <= MAX_MESSAGE_SIZE ==> parse_framed(out@) == Ok::<(Seq<u8>, usize), FramingError>(
            (message@, out@.len() as usize),
        ),
{
    let prefix: u32 = ((message.len() as u64) % 0x1_0000_0000) as u32;
    let mut out: Vec<u8> = Vec::new();
    push_be32(&mut out, prefix);
    push_slice(&mut out, message);
    proof {
        if message@.len() <= MAX_MESSAGE_SIZE {
            lemma_framed_parses(message@, Seq::<u8>::empty());
            assert(framed(message@) + Seq::<u8>::empty() =~= framed(message@));
        }
    }
    out
}

/// Takes the first framed message from the head of `data`: the encoded
/// message and the number of bytes that its frame took.
pub fn parse_framed_message(data: &[u8]) -> (r: Result<(Vec<u8>, usize), FramingError>)
    ensures
        framed_result_matches(r, parse_framed(data@)),
{
    if data.len() < 4 {
        return Err(FramingError::IncompleteData { current: data.len(), needed: 4 });
    }
    let length = read_be32(data, 0) as usize;
    if length > MAX_MESSAGE_SIZE {
        return Err(FramingError::MessageTooLarge { length, max: MAX_MESSAGE_SIZE });
    }
    if data.len() < 4 + length {
        return Err(FramingError::IncompleteData { current: data.len(), needed: 4 + length });
    }
    Ok((copy_range(data, 4, 4 + length), 4 + length))
}

/// Receives the bytes of one stream and hands out its framed messages.
pub struct StreamParser {
    buffer: Vec<u8>,
    max_buffer_size: usize,
}

impl StreamParser {
    /// The bytes received and not yet parsed.
    pub closed spec fn buffered(&self) -> Seq<u8> {
        self.buffer@
    }

    /// The most bytes that the buffer may hold.
    pub closed spec fn capacity(&self) -> nat {
        self.max_buffer_size as nat
    }

    /// A parser with an empty buffer of at most 1 MiB.
    pub fn new() -> (parser: Self)
        ensures
            parser.buffered() == Seq::<u8>::empty(),
            parser.capacity() == MAX_STREAM_BUFFER,
    {
        StreamParser { buffer: Vec::new(), max_buffer_size: MAX_STREAM_BUFFER }
    }

    /// Appends received bytes. Where they would take the buffer beyond its
    /// capacity, the buffer is emptied and `MessageTooLarge` reports the
    /// length of `data`.
    pub fn append_data(&mut self, data: &[u8]) -> (r: Result<(), FramingError>)
        ensures
            final(self).capacity() == old(self).capacity(),
            old(self).buffered().len() + data@.len() <= old(self).capacity() ==> r is Ok && final(self).buffered()
                == old(self).buffered() + data@,
            old(self).buffered().len() + data@.len() > old(self).capacity() ==> r == Err::<(), FramingError>(
                FramingError::MessageTooLarge { length: data@.len() as usize, max: old(self).capacity() as usize },
            ) && final(self).buffered() == Seq::<u8>::empty(),
    {
        if data.len() > self.max_buffer_size || self.buffer.len() > self.max_buffer_size - data.len() {
            self.buffer.clear();
            return Err(FramingError::MessageTooLarge { length: data.len(), max: self.max_buffer_size });
        }
        push_slice(&mut self.buffer, data);
        Ok(())
    }

    /// Takes the message at the head of the buffer, if it is all there.
    ///
    /// A message comes back as `Ok(Some(..))` and its frame leaves the
    /// buffer. An incomplete frame gives `Ok(None)` and changes nothing. A
    /// length that is too large empties the buffer and is returned.
    pub fn try_parse_next(&mut self) -> (r: Result<Option<Vec<u8>>, FramingError>)
        ensures
            final(self).capacity() == old(self).capacity(),
            match parse_framed(old(self).buffered()) {
                Ok((message, consumed)) => {
                    &&& r matches Ok(Some(m))
                    &&& m@ == message
                    &&& final(self).buffered() == old(self).buffered().skip(consumed as int)
                },
                Err(FramingError::IncompleteData { .. }) => {
                    &&& r matches Ok(None)
                    &&& final(self).buffered() == old(self).buffered()
                },
                Err(e) => {
                    &&& r == Err::<Option<Vec<u8>>, FramingError>(e)
                    &&& final(self).buffered() == Seq::<u8>::empty()
                },
            },
    {
        match parse_framed_message(self.buffer.as_slice()) {
            Ok((message, consumed)) => {
                let rest = self.buffer.split_off(consumed);
                self.buffer = rest;
                assert(self.buffer@ =~= old(self).buffer@.skip(consumed as int));
                Ok(Some(message))
            },
            Err(FramingError::IncompleteData { current, needed }) => Ok(None),
            Err(e) => {
                self.buffer.clear();
                Err(e)
            },
        }
    }

    /// Number of bytes received and not yet parsed.
    pub fn buffer_size(&self) -> (n: usize)
        ensures
            n == self.buffered().len(),
    {
        self.buffer.len()
    }

    /// Empties the buffer.
    pub fn clear(&mut self)
        ensures
            final(self).buffered() == Seq::<u8>::empty(),
            final(self).capacity() == old(self).capacity(),
    {
        self.buffer.clear();
    }
}

} // verus!
