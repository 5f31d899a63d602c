//! The inbound byte accumulator. Bytes go in as they arrive; transmissions
//! come out one at a time, as soon as a whole one stands at the head.

use vstd::prelude::*;
use vstd::slice::slice_subrange;
use crate::bytes::append_range;
use crate::codec::{lemma_parse_sound, parse_transmission_reusing, spec_parse};
use crate::frame::{CR, Frame, LF, spec_encode, Transmission};
use crate::header::{Header, HeaderSpec};

verus! {

/// An accumulator of inbound bytes with a read cursor.
pub struct FrameBuffer {
    buffer: Vec<u8>,
    cursor: usize,
    closed: bool,
    spare_headers: Vec<Header>,
    spare_body: Vec<u8>,
}

impl FrameBuffer {
    #[verifier::type_invariant]
    spec fn cursor_in_bounds(self) -> bool {
        self.cursor <= self.buffer@.len()
    }

    /// The bytes that were appended and not yet read.
    pub closed spec fn pending(self) -> Seq<u8> {
        self.buffer@.skip(self.cursor as int)
    }

    /// Whether the feeder has signalled the end of the stream.
    pub closed spec fn is_closed(self) -> bool {
        self.closed
    }

    /// The headers in the header vector that is kept for building the next
    /// frame in. They are dropped when the vector is put to use.
    pub closed spec fn spare_headers(self) -> Seq<HeaderSpec> {
        Seq::new(self.spare_headers@.len(), |i: int| self.spare_headers@[i]@)
    }

    /// The bytes in the body buffer that is kept for building the next frame
    /// in. They are dropped when the buffer is put to use.
    pub closed spec fn spare_body(self) -> Seq<u8> {
        self.spare_body@
    }

    /// An empty, open buffer that keeps no vectors of an earlier frame.
    pub fn new() -> (r: FrameBuffer)
        ensures
            r.pending() == Seq::<u8>::empty(),
            !r.is_closed(),
            r.spare_headers() == Seq::<HeaderSpec>::empty(),
            r.spare_body() == Seq::<u8>::empty(),
    {
        let r = FrameBuffer {
            buffer: Vec::new(),
            cursor: 0,
            closed: false,
            spare_headers: Vec::new(),
            spare_body: Vec::new(),
        };
        assert(r.pending() =~= Seq::<u8>::empty());
        assert(r.spare_headers() =~= Seq::<HeaderSpec>::empty());
        r
    }

    /// The number of bytes that were appended and not yet read.
    pub fn len(&self) -> (r: usize)
        ensures
            r == self.pending().len(),
    {
        proof {
            use_type_invariant(self);
        }
        self.buffer.len() - self.cursor
    }

    /// Adds `bytes` behind what is pending.
    pub fn append(&mut self, bytes: &[u8])
        ensures
            final(self).pending() == old(self).pending() + bytes@,
            final(self).is_closed() == old(self).is_closed(),
            final(self).spare_headers() == old(self).spare_headers(),
            final(self).spare_body() == old(self).spare_body(),
    {
        proof {
            use_type_invariant(&*self);
        }
        let ghost before = self.pending();
        let cursor = self.cursor;
        let mut buffer: Vec<u8> = Vec::new();
        self.cursor = 0;
        core::mem::swap(&mut buffer, &mut self.buffer);
        if cursor > 0 && cursor >= buffer.len() - cursor {
            let mut rest: Vec<u8> = Vec::new();
            append_range(&mut rest, buffer.as_slice(), cursor, buffer.len());
            append_range(&mut rest, bytes, 0, bytes.len());
            self.buffer = rest;
        } else {
            append_range(&mut buffer, bytes, 0, bytes.len());
            self.buffer = buffer;
            self.cursor = cursor;
        }
        assert(bytes@.subrange(0, bytes@.len() as int) =~= bytes@);
        assert(self.pending() =~= before + bytes@);
    }

    /// Records that the feeder has reached the end of the stream. What is
    /// pending stays readable.
    pub fn close(&mut self)
        ensures
            final(self).pending() == old(self).pending(),
            final(self).is_closed(),
            final(self).spare_headers() == old(self).spare_headers(),
            final(self).spare_body() == old(self).spare_body(),
    {
        proof {
            use_type_invariant(&*self);
        }
        self.closed = true;
    }

    /// Drops what is pending and reopens the buffer. The vectors that are
    /// kept for the next frame stay.
    pub fn reset(&mut self)
        ensures
            final(self).pending() == Seq::<u8>::empty(),
            !final(self).is_closed(),
            final(self).spare_headers() == old(self).spare_headers(),
            final(self).spare_body() == old(self).spare_body(),
    {
        self.cursor = 0;
        self.buffer = Vec::new();
        self.closed = false;
        assert(self.pending() =~= Seq::<u8>::empty());
    }

    /// Takes back the allocations of a frame that has been dealt with: the
    /// frame's header vector and its body buffer are kept, as they are, in
    /// place of those that were kept before, and the next frame is built in
    /// them. What is pending does not change.
    pub fn recycle_frame(&mut self, frame: Frame)
        ensures
            final(self).spare_headers() == frame@.headers,
            final(self).spare_body() == frame@.body,
            final(self).pending() == old(self).pending(),
            final(self).is_closed() == old(self).is_closed(),
    {
        proof {
            use_type_invariant(&*self);
        }
        let Frame { command, headers, body } = frame;
        self.spare_headers = headers.headers;
        self.spare_body = body;
        assert(self.spare_headers() =~= frame@.headers);
    }

    /// Reads the next transmission from the head of what is pending.
    ///
    /// A whole heartbeat or frame at the head is taken out and returned.
    /// Otherwise nothing is taken: the result is `ConnectionClosed` once the
    /// feeder has signalled the end of the stream, and `None` while more
    /// bytes may still come. The bytes taken are the wire form of what is
    /// returned. The vectors that were kept for the next frame are used up.
    pub fn read_transmission(&mut self) -> (r: Option<Transmission>)
        ensures
            final(self).is_closed() == old(self).is_closed(),
            final(self).spare_headers() == Seq::<HeaderSpec>::empty(),
            final(self).spare_body() == Seq::<u8>::empty(),
            match r {
                Some(Transmission::ConnectionClosed) => {
                    &&& spec_parse(old(self).pending()) is None
                    &&& old(self).is_closed()
                    &&& final(self).pending() == old(self).pending()
                },
                Some(t) => {
                    &&& spec_parse(old(self).pending()) matches Some((u, n))
                    &&& t@ == u
                    &&& 0 < n <= old(self).pending().len()
                    &&& final(self).pending() == old(self).pending().skip(n)
                },
                None => {
                    &&& spec_parse(old(self).pending()) is None
                    &&& !old(self).is_closed()
                    &&& final(self).pending() == old(self).pending()
                },
            },
            match r {
                Some(Transmission::HeartBeat) => {
                    ||| old(self).pending() == seq![LF] + final(self).pending()
                    ||| old(self).pending() == seq![CR, LF] + final(self).pending()
                },
                Some(Transmission::CompleteFrame(f)) => {
                    &&& f@.well_formed()
                    &&& old(self).pending() == spec_encode(f@) + final(self).pending()
                },
                _ => true,
            },
    {
        proof {
            use_type_invariant(&*self);
        }
        let ghost before = self.pending();
        let head = slice_subrange(self.buffer.as_slice(), self.cursor, self.buffer.len());
        assert(head@ =~= before);
        proof {
            lemma_parse_sound(before);
        }
        let mut spare_headers: Vec<Header> = Vec::new();
        let mut spare_body: Vec<u8> = Vec::new();
        core::mem::swap(&mut spare_headers, &mut self.spare_headers);
        core::mem::swap(&mut spare_body, &mut self.spare_body);
        match parse_transmission_reusing(head, spare_headers, spare_body) {
            Some((t, n)) => {
                self.cursor = self.cursor + n;
                assert(self.pending() =~= before.skip(n as int));
                assert(before =~= before.take(n as int) + before.skip(n as int));
                Some(t)
            },
            None => {
                if self.closed {
                    Some(Transmission::ConnectionClosed)
                } else {
                    None
                }
            },
        }
    }
}

} // verus!
