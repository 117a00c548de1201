//! Buffers and the messages that carry them between producers and
//! consumers.
use crate::write::ProducerError;
use vstd::prelude::*;

verus! {

/// A byte sequence cut to `len` bytes, or extended to `len` bytes with zeros.
pub open spec fn resized(s: Seq<u8>, len: nat) -> Seq<u8> {
    if len <= s.len() {
        s.subrange(0, len as int)
    } else {
        s + Seq::new((len - s.len()) as nat, |i: int| 0u8)
    }
}

/// A reusable byte buffer. It is created with room for `reserved` bytes and
/// keeps that room for its whole life; only the number of bytes in use
/// changes.
#[derive(Debug)]
pub struct Buffer {
    /// The bytes in use.
    pub bytes: Vec<u8>,
    /// The number of bytes that the buffer has room for.
    pub reserved: usize,
}

impl Buffer {
    /// The bytes in use fit in the room that the buffer was created with.
    pub open spec fn wf(&self) -> bool {
        self.bytes@.len() <= self.reserved
    }

    /// An empty buffer with room for `reserved` bytes.
    pub fn with_reserve(reserved: usize) -> (buffer: Buffer)
        ensures
            buffer.bytes@ == Seq::<u8>::empty(),
            buffer.reserved == reserved,
            buffer.wf(),
    {
        Buffer { bytes: Vec::with_capacity(reserved), reserved }
    }

    /// The number of bytes in use.
    pub fn len(&self) -> (len: usize)
        ensures
            len == self.bytes@.len(),
    {
        self.bytes.len()
    }

    /// Sets the number of bytes in use. Bytes that were in use keep their
    /// value; bytes that come into use are zero.
    pub fn set_len(&mut self, len: usize)
        requires
            len <= old(self).reserved,
        ensures
            final(self).reserved == old(self).reserved,
            final(self).bytes@ == resized(old(self).bytes@, len as nat),
            final(self).wf(),
    {
        self.bytes.resize(len, 0u8);
    }
}

/// What travels with a buffer.
#[derive(Clone, Copy, Debug, PartialEq, Eq, Structural)]
pub struct Config {
    /// The file offset of the bytes in the buffer.
    pub offset: u64,
    /// The producer that the buffer belongs to and returns to.
    pub producer: u64,
    /// The number of consumers that a producer can hand the buffer to.
    pub consumers: usize,
}

/// A message between two workers of the pipeline.
#[derive(Debug)]
pub enum Message {
    /// A filled buffer, sent to a consumer.
    Consume(Config, Buffer),
    /// A buffer to fill, sent to the producer it belongs to.
    Produce(Config, Buffer),
    /// Sent by a producer to every consumer when its range is exhausted:
    /// the producer and the number of producers.
    End(u64, u64),
    /// Sent by a producer to every consumer when its callback failed.
    Error(ProducerError),
}

} // verus!
