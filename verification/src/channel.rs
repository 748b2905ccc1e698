//! The bidirectional byte channel the protocol engine runs over.
//!
//! A connection to the daemon is ephemeral and exclusively owned: the engine
//! writes a request, then drains the channel for the reply. The trait models
//! exactly that much: the bytes sent so far, and the peer's complete reply.
//! Real sockets implement this outside the crate; [`MemoryChannel`] is an
//! in-crate implementation against a scripted peer.

use vstd::prelude::*;

use crate::chunking::push_bytes;

verus! {

/// A bidirectional byte stream carrying one protocol operation.
///
/// Nothing here promises that an operation succeeds - a peer can fail any
/// write or read - but whenever a method does succeed it must have moved the
/// channel exactly as stated.
pub trait Channel: Sized {
    /// What a failed operation returns, surfaced to the caller unchanged.
    type Error;

    /// All bytes this side has written to the peer so far. An implementation
    /// written outside the verifier can leave this at its default; nothing
    /// is then proved about what it sends.
    open spec fn sent(&self) -> Seq<u8> {
        Seq::empty()
    }

    /// The peer's complete reply, as reading to the end of the channel will
    /// return it. An implementation written outside the verifier can leave
    /// this at its default.
    open spec fn reply(&self) -> Seq<u8> {
        Seq::empty()
    }

    /// Writes all of `buf` to the peer.
    fn write_all(&mut self, buf: &[u8]) -> (r: Result<(), Self::Error>)
        ensures
            r is Ok ==> final(self).sent() == old(self).sent() + buf@ && final(self).reply()
                == old(self).reply(),
    ;

    /// Pushes any buffered writes through to the peer.
    fn flush(&mut self) -> (r: Result<(), Self::Error>)
        ensures
            r is Ok ==> final(self).sent() == old(self).sent() && final(self).reply() == old(
                self,
            ).reply(),
    ;

    /// Reads the channel to end-of-stream and returns everything the peer
    /// sent. The hint only pre-sizes the buffer; it never truncates.
    fn read_to_end(&mut self, capacity_hint: Option<usize>) -> (r: Result<Vec<u8>, Self::Error>)
        ensures
            r matches Ok(v) ==> v@ == old(self).reply() && final(self).sent() == old(self).sent()
                && final(self).reply() == old(self).reply(),
    ;
}

/// The failure a [`MemoryChannel`] injects when asked to.
#[derive(Clone, Copy, PartialEq, Eq, Structural, Debug)]
pub struct MemoryFault;

/// An in-memory channel: records everything written and replies with a
/// scripted response, standing in for a daemon on the other end.
pub struct MemoryChannel {
    /// Every byte written so far.
    pub written: Vec<u8>,
    /// The scripted peer reply.
    pub response: Vec<u8>,
    /// When set, every write fails.
    pub fail_writes: bool,
    /// When set, every read fails.
    pub fail_reads: bool,
}

impl MemoryChannel {
    /// A channel whose peer will reply with `response`.
    pub fn new(response: Vec<u8>) -> (r: Self)
        ensures
            r.sent() == Seq::<u8>::empty(),
            r.reply() == response@,
            !r.fail_writes,
            !r.fail_reads,
    {
        MemoryChannel { written: Vec::new(), response, fail_writes: false, fail_reads: false }
    }

    /// A channel that fails every write or every read, as requested.
    pub fn failing(fail_writes: bool, fail_reads: bool) -> (r: Self)
        ensures
            r.sent() == Seq::<u8>::empty(),
            r.fail_writes == fail_writes,
            r.fail_reads == fail_reads,
    {
        MemoryChannel { written: Vec::new(), response: Vec::new(), fail_writes, fail_reads }
    }
}

impl Channel for MemoryChannel {
    type Error = MemoryFault;

    open spec fn sent(&self) -> Seq<u8> {
        self.written@
    }

    open spec fn reply(&self) -> Seq<u8> {
        self.response@
    }

    fn write_all(&mut self, buf: &[u8]) -> (r: Result<(), MemoryFault>) {
        if self.fail_writes {
            Err(MemoryFault)
        } else {
            push_bytes(&mut self.written, buf);
            Ok(())
        }
    }

    fn flush(&mut self) -> (r: Result<(), MemoryFault>) {
        Ok(())
    }

    fn read_to_end(&mut self, capacity_hint: Option<usize>) -> (r: Result<
        Vec<u8>,
        MemoryFault,
    >) {
        if self.fail_reads {
            Err(MemoryFault)
        } else {
            let mut v: Vec<u8> = match capacity_hint {
                Some(hint) => Vec::with_capacity(hint),
                None => Vec::new(),
            };
            push_bytes(&mut v, self.response.as_slice());
            Ok(v)
        }
    }
}

} // verus!
