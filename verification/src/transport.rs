//! The byte pipe between a driver and the bus.

use std::collections::VecDeque;
use vstd::prelude::*;
use vstd::slice::slice_to_vec;

use crate::bytes;
use crate::bytes::range;
use crate::error::Error;

verus! {

/// One transport operation with its outcome, as the record of a transport keeps it.
pub enum IoEvent {
    /// `write_all` was called with these bytes.
    Write(Seq<u8>, Result<(), Error>),
    /// `read` delivered these bytes, or failed.
    Read(Result<Seq<u8>, Error>),
}

/// Half-duplex byte transport supplied by the application.
pub trait Transport {
    /// Every operation so far, oldest first. Only a verified implementation has to say it.
    open spec fn log(&self) -> Seq<IoEvent> {
        arbitrary()
    }

    /// Put `bytes` on the bus.
    fn write_all(&mut self, bytes: &[u8]) -> (r: Result<(), Error>)
        ensures
            final(self).log() == old(self).log().push(IoEvent::Write(bytes@, r)),
    ;

    /// Fill the front of `buf` with bytes that have arrived and return their number,
    /// `0` when there are none right now.
    fn read(&mut self, buf: &mut [u8]) -> (r: Result<usize, Error>)
        ensures
            final(buf)@.len() == old(buf)@.len(),
            match r {
                Ok(n) => {
                    &&& n <= final(buf)@.len()
                    &&& final(self).log() == old(self).log().push(
                        IoEvent::Read(Ok(final(buf)@.take(n as int))),
                    )
                },
                Err(e) => final(self).log() == old(self).log().push(IoEvent::Read(Err(e))),
            },
    ;
}

/// Bytes pulled from the transport per read. A minimal frame fits in a single read.
pub const RX_CHUNK_LEN: usize = 64;

/// Read one chunk.
pub(crate) fn read_chunk<T: Transport>(transport: &mut T) -> (r: Result<Vec<u8>, Error>)
    ensures
        final(transport).log() == old(transport).log().push(IoEvent::Read(bytes::vec_result(r))),
{
    let mut chunk: [u8; RX_CHUNK_LEN] = [0u8; RX_CHUNK_LEN];
    match transport.read(&mut chunk) {
        Ok(n) => {
            let more = slice_to_vec(range(chunk.as_slice(), 0, n));
            assert(more@ =~= chunk@.take(n as int));
            Ok(more)
        },
        Err(e) => Err(e),
    }
}

/// In-memory transport: what is fed comes out of `read`, what is written collects in
/// `outgoing`.
pub struct VecTransport {
    /// Bytes waiting to be read.
    pub incoming: VecDeque<u8>,
    /// Bytes written and not yet taken away.
    pub outgoing: VecDeque<u8>,
    /// Every operation so far, for specifications only.
    pub history: Ghost<Seq<IoEvent>>,
}

impl Transport for VecTransport {
    open spec fn log(&self) -> Seq<IoEvent> {
        self.history@
    }

    fn write_all(&mut self, bytes: &[u8]) -> (r: Result<(), Error>)
        ensures
            r is Ok,
            final(self).outgoing@ == old(self).outgoing@ + bytes@,
            final(self).incoming@ == old(self).incoming@,
    {
        push_all(&mut self.outgoing, bytes);
        let r: Result<(), Error> = Ok(());
        self.history = Ghost(self.history@.push(IoEvent::Write(bytes@, r)));
        r
    }

    fn read(&mut self, buf: &mut [u8]) -> (r: Result<usize, Error>)
        ensures
            r is Ok,
            ({
                let n = if old(self).incoming@.len() < old(buf)@.len() {
                    old(self).incoming@.len()
                } else {
                    old(buf)@.len()
                };
                &&& r->Ok_0 == n
                &&& final(buf)@.take(n as int) == old(self).incoming@.take(n as int)
                &&& final(self).incoming@ == old(self).incoming@.skip(n as int)
                &&& final(self).outgoing@ == old(self).outgoing@
            }),
    {
        let ghost before = self.incoming@;
        let mut n: usize = 0;
        while n < buf.len() && self.incoming.len() > 0
            invariant
                n <= buf@.len(),
                buf@.len() == old(buf)@.len(),
                n <= before.len(),
                before == old(self).incoming@,
                self.outgoing@ == old(self).outgoing@,
                self.history == old(self).history,
                self.incoming@ == before.skip(n as int),
                buf@.take(n as int) =~= before.take(n as int),
            decreases buf@.len() - n,
        {
            if let Some(b) = self.incoming.pop_front() {
                buf[n] = b;
                n = n + 1;
                assert(self.incoming@ =~= before.skip(n as int));
            }
        }
        self.history = Ghost(self.history@.push(IoEvent::Read(Ok(buf@.take(n as int)))));
        Ok(n)
    }
}

/// Append `bytes` to `queue`.
fn push_all(queue: &mut VecDeque<u8>, bytes: &[u8])
    ensures
        final(queue)@ == old(queue)@ + bytes@,
{
    for i in 0..bytes.len()
        invariant
            queue@ == old(queue)@ + bytes@.take(i as int),
    {
        queue.push_back(bytes[i]);
        assert(bytes@.take(i as int + 1) =~= bytes@.take(i as int).push(bytes@[i as int]));
        assert(queue@ =~= old(queue)@ + bytes@.take(i as int + 1));
    }
    assert(bytes@.take(bytes@.len() as int) =~= bytes@);
}

impl VecTransport {
    /// Empty pipe.
    pub fn new() -> (t: Self)
        ensures
            t.incoming@ == Seq::<u8>::empty(),
            t.outgoing@ == Seq::<u8>::empty(),
            t.log() == Seq::<IoEvent>::empty(),
    {
        VecTransport {
            incoming: VecDeque::new(),
            outgoing: VecDeque::new(),
            history: Ghost(Seq::empty()),
        }
    }

    /// Queue `bytes` for reading.
    pub fn feed(&mut self, bytes: &[u8])
        ensures
            final(self).incoming@ == old(self).incoming@ + bytes@,
            final(self).outgoing@ == old(self).outgoing@,
            final(self).log() == old(self).log(),
    {
        push_all(&mut self.incoming, bytes);
    }

    /// Move everything written here to what `other` is about to read.
    pub fn shuffle_to(&mut self, other: &mut VecTransport)
        ensures
            final(other).incoming@ == old(other).incoming@ + old(self).outgoing@,
            final(other).outgoing@ == old(other).outgoing@,
            final(other).log() == old(other).log(),
            final(self).outgoing@ == Seq::<u8>::empty(),
            final(self).incoming@ == old(self).incoming@,
            final(self).log() == old(self).log(),
    {
        other.incoming.append(&mut self.outgoing);
    }
}

} // verus!
