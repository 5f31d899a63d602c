//! Frames and their wire form.
//!
//! A frame travels as its command and a newline, one `key:value` line per
//! header, an empty line, the body, and a terminating NUL byte.

use vstd::prelude::*;
use crate::bytes::{
    append_range, ascii, ascii_bytes, decimal, first_index, is_digit, lemma_decimal_round_trip,
    lemma_first_index_none, spec_decimal, spec_parse_decimal, to_vec,
};
use crate::header::{HeaderList, HeaderSpec, spec_lookup};
use crate::subscription::AckMode;

verus! {

/// The line feed that ends every line of a frame's head.
pub const LF: u8 = 10;

/// The carriage return that may precede the line feed of a heartbeat.
pub const CR: u8 = 13;

/// The colon between a header's key and its value.
pub const COLON: u8 = 58;

/// The NUL byte that ends a frame.
pub const NUL: u8 = 0;

/// The mathematical value of a frame.
pub struct FrameSpec {
    pub command: Seq<u8>,
    pub headers: Seq<HeaderSpec>,
    pub body: Seq<u8>,
}

/// One protocol message: a command, headers, and an opaque body.
#[derive(Debug)]
pub struct Frame {
    pub command: Vec<u8>,
    pub headers: HeaderList,
    pub body: Vec<u8>,
}

impl View for Frame {
    type V = FrameSpec;

    open spec fn view(&self) -> FrameSpec {
        FrameSpec { command: self.command@, headers: self.headers@, body: self.body@ }
    }
}

impl Clone for Frame {
    fn clone(&self) -> (r: Self)
        ensures
            r@ == self@,
    {
        Frame {
            command: self.command.clone(),
            headers: self.headers.clone(),
            body: self.body.clone(),
        }
    }
}

/// What the frame buffer hands out.
#[derive(Debug)]
pub enum Transmission {
    /// A lone end of line between frames.
    HeartBeat,
    /// A whole frame.
    CompleteFrame(Frame),
    /// The feeder has signalled the end of the stream.
    ConnectionClosed,
}

/// The wire form of one header line, with its line feed.
pub open spec fn spec_encode_header(h: HeaderSpec) -> Seq<u8> {
    h.0 + seq![COLON] + h.1 + seq![LF]
}

/// The wire form of the header lines, in order.
pub open spec fn spec_encode_headers(hs: Seq<HeaderSpec>) -> Seq<u8>
    decreases hs.len(),
{
    if hs.len() == 0 {
        Seq::<u8>::empty()
    } else {
        spec_encode_header(hs[0]) + spec_encode_headers(hs.skip(1))
    }
}

/// The wire form of a frame.
pub open spec fn spec_encode(f: FrameSpec) -> Seq<u8> {
    f.command + seq![LF] + spec_encode_headers(f.headers) + seq![LF] + f.body + seq![NUL]
}

/// The body length that the headers announce: the number in the first
/// `content-length` header, if that header holds a decimal number.
pub open spec fn spec_content_length(hs: Seq<HeaderSpec>) -> Option<nat> {
    match spec_lookup(hs, ascii("content-length")) {
        Some(v) => spec_parse_decimal(v),
        None => None,
    }
}

/// Whether a header can be told apart on the wire: no colon or line feed in
/// its key, no line feed in its value.
pub open spec fn header_well_formed(h: HeaderSpec) -> bool {
    &&& first_index(h.0, COLON, 0) == -1
    &&& first_index(h.0, LF, 0) == -1
    &&& first_index(h.1, LF, 0) == -1
}

impl FrameSpec {
    /// Whether the frame reads back from its wire form as itself: the
    /// command is a non-empty line that is not a lone carriage return, the
    /// headers can be told apart, and the body is as long as the headers
    /// announce or, when they announce nothing, free of NUL bytes.
    pub open spec fn well_formed(self) -> bool {
        &&& self.command.len() > 0
        &&& first_index(self.command, LF, 0) == -1
        &&& self.command != seq![CR]
        &&& forall|i: int| 0 <= i < self.headers.len() ==> header_well_formed(#[trigger] self.headers[i])
        &&& match spec_content_length(self.headers) {
            Some(n) => self.body.len() == n,
            None => first_index(self.body, NUL, 0) == -1,
        }
    }
}

/// Encoding the headers one after another gives the encoding of the whole
/// list.
pub proof fn lemma_encode_headers_push(hs: Seq<HeaderSpec>, h: HeaderSpec)
    ensures
        spec_encode_headers(hs.push(h)) == spec_encode_headers(hs) + spec_encode_header(h),
    decreases hs.len(),
{
    let all = hs.push(h);
    if hs.len() == 0 {
        assert(all.skip(1) =~= Seq::<HeaderSpec>::empty());
        assert(spec_encode_headers(all.skip(1)) =~= Seq::<u8>::empty());
        assert(spec_encode_headers(all) =~= spec_encode_header(h));
        assert(spec_encode_headers(hs) + spec_encode_header(h) =~= spec_encode_header(h));
    } else {
        lemma_encode_headers_push(hs.skip(1), h);
        assert(all.skip(1) =~= hs.skip(1).push(h));
        assert(all[0] == hs[0]);
        assert(spec_encode_headers(all) =~= spec_encode_headers(hs) + spec_encode_header(h));
    }
}

impl Frame {
    /// Appends the wire form of this frame to `out`.
    pub fn write(&self, out: &mut Vec<u8>)
        ensures
            final(out)@ == old(out)@ + spec_encode(self@),
    {
        let ghost start = out@;
        append_range(out, self.command.as_slice(), 0, self.command.len());
        out.push(LF);
        assert(self.command@.subrange(0, self.command@.len() as int) =~= self.command@);
        assert(out@ =~= start + self.command@ + seq![LF]);
        let ghost head = out@;
        let mut i: usize = 0;
        assert(self.headers@.take(0) =~= Seq::<HeaderSpec>::empty());
        assert(out@ =~= head + spec_encode_headers(self.headers@.take(0)));
        while i < self.headers.len()
            invariant
                i <= self.headers@.len(),
                self.headers@.len() == self.headers.headers@.len(),
                out@ == head + spec_encode_headers(self.headers@.take(i as int)),
            decreases self.headers@.len() - i,
        {
            let h = &self.headers.headers[i];
            let ghost before = out@;
            append_range(out, h.key.as_slice(), 0, h.key.len());
            out.push(COLON);
            append_range(out, h.value.as_slice(), 0, h.value.len());
            out.push(LF);
            proof {
                assert(h.key@.subrange(0, h.key@.len() as int) =~= h.key@);
                assert(h.value@.subrange(0, h.value@.len() as int) =~= h.value@);
                assert(out@ =~= before + spec_encode_header(h@));
                lemma_encode_headers_push(self.headers@.take(i as int), h@);
                assert(self.headers@.take(i + 1) =~= self.headers@.take(i as int).push(h@));
                assert(out@ =~= head + spec_encode_headers(self.headers@.take(i + 1)));
            }
            i += 1;
        }
        assert(self.headers@.take(i as int) =~= self.headers@);
        out.push(LF);
        append_range(out, self.body.as_slice(), 0, self.body.len());
        out.push(NUL);
        assert(self.body@.subrange(0, self.body@.len() as int) =~= self.body@);
        assert(out@ =~= start + spec_encode(self@));
    }

    /// The wire form of this frame.
    pub fn encode(&self) -> (r: Vec<u8>)
        ensures
            r@ == spec_encode(self@),
    {
        let mut r: Vec<u8> = Vec::new();
        self.write(&mut r);
        assert(r@ =~= spec_encode(self@));
        r
    }
}

/// A SEND frame for `destination` that carries `body`.
pub open spec fn spec_send(destination: Seq<u8>, body: Seq<u8>) -> FrameSpec {
    FrameSpec {
        command: ascii("SEND"),
        headers: seq![(ascii("destination"), destination)],
        body: body,
    }
}

/// A SUBSCRIBE frame that opens subscription `id` on `destination`.
pub open spec fn spec_subscribe(id: Seq<u8>, destination: Seq<u8>, ack_mode: AckMode) -> FrameSpec {
    FrameSpec {
        command: ascii("SUBSCRIBE"),
        headers: seq![
            (ascii("destination"), destination),
            (ascii("id"), id),
            (ascii("ack"), ack_mode.spec_text()),
        ],
        body: Seq::<u8>::empty(),
    }
}

/// A frame without a body whose only header is `key:value`.
pub open spec fn spec_control(command: Seq<u8>, key: Seq<u8>, value: Seq<u8>) -> FrameSpec {
    FrameSpec { command: command, headers: seq![(key, value)], body: Seq::<u8>::empty() }
}

/// An UNSUBSCRIBE frame that closes subscription `id`.
pub open spec fn spec_unsubscribe(id: Seq<u8>) -> FrameSpec {
    spec_control(ascii("UNSUBSCRIBE"), ascii("id"), id)
}

/// An ACK frame for the message that carried `ack:<ack_id>`.
pub open spec fn spec_ack(ack_id: Seq<u8>) -> FrameSpec {
    spec_control(ascii("ACK"), ascii("id"), ack_id)
}

/// A NACK frame for the message that carried `ack:<ack_id>`.
pub open spec fn spec_nack(ack_id: Seq<u8>) -> FrameSpec {
    spec_control(ascii("NACK"), ascii("id"), ack_id)
}

/// A BEGIN frame that opens transaction `id`.
pub open spec fn spec_begin(id: Seq<u8>) -> FrameSpec {
    spec_control(ascii("BEGIN"), ascii("transaction"), id)
}

/// A COMMIT frame that commits transaction `id`.
pub open spec fn spec_commit(id: Seq<u8>) -> FrameSpec {
    spec_control(ascii("COMMIT"), ascii("transaction"), id)
}

/// An ABORT frame that rolls transaction `id` back.
pub open spec fn spec_abort(id: Seq<u8>) -> FrameSpec {
    spec_control(ascii("ABORT"), ascii("transaction"), id)
}

/// A DISCONNECT frame.
pub open spec fn spec_disconnect() -> FrameSpec {
    FrameSpec {
        command: ascii("DISCONNECT"),
        headers: Seq::<HeaderSpec>::empty(),
        body: Seq::<u8>::empty(),
    }
}

impl Frame {
    /// A frame without a body whose only header is `key:value`.
    fn control(command: Vec<u8>, key: Vec<u8>, value: &[u8]) -> (r: Frame)
        ensures
            r@ == spec_control(command@, key@, value@),
    {
        let mut headers = HeaderList::new();
        headers.add(key.as_slice(), value);
        let r = Frame { command: command, headers: headers, body: Vec::new() };
        assert(r@.headers =~= seq![(key@, value@)]);
        assert(r@.body =~= Seq::<u8>::empty());
        r
    }

    /// A SEND frame for `destination` that carries `body`. The frame
    /// announces no body length yet.
    pub fn send(destination: &[u8], body: &[u8]) -> (r: Frame)
        ensures
            r@ == spec_send(destination@, body@),
    {
        proof {
            reveal_strlit("SEND");
            reveal_strlit("destination");
        }
        let mut headers = HeaderList::new();
        headers.add(ascii_bytes("destination").as_slice(), destination);
        let r = Frame { command: ascii_bytes("SEND"), headers: headers, body: to_vec(body) };
        assert(r@.headers =~= spec_send(destination@, body@).headers);
        r
    }

    /// A SUBSCRIBE frame that opens subscription `id` on `destination`.
    pub fn subscribe(id: &[u8], destination: &[u8], ack_mode: AckMode) -> (r: Frame)
        ensures
            r@ == spec_subscribe(id@, destination@, ack_mode),
    {
        proof {
            reveal_strlit("SUBSCRIBE");
            reveal_strlit("destination");
            reveal_strlit("id");
            reveal_strlit("ack");
        }
        let mut headers = HeaderList::new();
        headers.add(ascii_bytes("destination").as_slice(), destination);
        headers.add(ascii_bytes("id").as_slice(), id);
        headers.add(ascii_bytes("ack").as_slice(), ack_mode.as_text().as_slice());
        let r = Frame { command: ascii_bytes("SUBSCRIBE"), headers: headers, body: Vec::new() };
        assert(r@.headers =~= spec_subscribe(id@, destination@, ack_mode).headers);
        assert(r@.body =~= Seq::<u8>::empty());
        r
    }

    /// An UNSUBSCRIBE frame that closes subscription `id`.
    pub fn unsubscribe(id: &[u8]) -> (r: Frame)
        ensures
            r@ == spec_unsubscribe(id@),
    {
        proof {
            reveal_strlit("UNSUBSCRIBE");
            reveal_strlit("id");
        }
        Frame::control(ascii_bytes("UNSUBSCRIBE"), ascii_bytes("id"), id)
    }

    /// An ACK frame for the message that carried `ack:<ack_id>`.
    pub fn ack(ack_id: &[u8]) -> (r: Frame)
        ensures
            r@ == spec_ack(ack_id@),
    {
        proof {
            reveal_strlit("ACK");
            reveal_strlit("id");
        }
        Frame::control(ascii_bytes("ACK"), ascii_bytes("id"), ack_id)
    }

    /// A NACK frame for the message that carried `ack:<ack_id>`.
    pub fn nack(ack_id: &[u8]) -> (r: Frame)
        ensures
            r@ == spec_nack(ack_id@),
    {
        proof {
            reveal_strlit("NACK");
            reveal_strlit("id");
        }
        Frame::control(ascii_bytes("NACK"), ascii_bytes("id"), ack_id)
    }

    /// A BEGIN frame that opens transaction `id`.
    pub fn begin(id: &[u8]) -> (r: Frame)
        ensures
            r@ == spec_begin(id@),
    {
        proof {
            reveal_strlit("BEGIN");
            reveal_strlit("transaction");
        }
        Frame::control(ascii_bytes("BEGIN"), ascii_bytes("transaction"), id)
    }

    /// A COMMIT frame that commits transaction `id`.
    pub fn commit(id: &[u8]) -> (r: Frame)
        ensures
            r@ == spec_commit(id@),
    {
        proof {
            reveal_strlit("COMMIT");
            reveal_strlit("transaction");
        }
        Frame::control(ascii_bytes("COMMIT"), ascii_bytes("transaction"), id)
    }

    /// An ABORT frame that rolls transaction `id` back.
    pub fn abort(id: &[u8]) -> (r: Frame)
        ensures
            r@ == spec_abort(id@),
    {
        proof {
            reveal_strlit("ABORT");
            reveal_strlit("transaction");
        }
        Frame::control(ascii_bytes("ABORT"), ascii_bytes("transaction"), id)
    }

    /// A DISCONNECT frame.
    pub fn disconnect() -> (r: Frame)
        ensures
            r@ == spec_disconnect(),
    {
        proof {
            reveal_strlit("DISCONNECT");
        }
        let r = Frame { command: ascii_bytes("DISCONNECT"), headers: HeaderList::new(), body: Vec::new() };
        assert(r@.body =~= Seq::<u8>::empty());
        r
    }
}

impl FrameSpec {
    /// This frame with one more header at the end.
    pub open spec fn with_header(self, key: Seq<u8>, value: Seq<u8>) -> FrameSpec {
        FrameSpec { headers: self.headers.push((key, value)), ..self }
    }

    /// This frame with a `content-length` header at the end that gives the
    /// length of its body.
    pub open spec fn with_content_length(self) -> FrameSpec {
        self.with_header(ascii("content-length"), spec_decimal(self.body.len()))
    }
}

impl Frame {
    /// Adds the header `key:value` at the end.
    pub fn with_header(self, key: &[u8], value: &[u8]) -> (r: Frame)
        ensures
            r@ == self@.with_header(key@, value@),
    {
        let mut frame = self;
        frame.headers.add(key, value);
        frame
    }

    /// Adds a `content-length` header at the end that gives the length of
    /// the body.
    pub fn with_content_length(self) -> (r: Frame)
        ensures
            r@ == self@.with_content_length(),
    {
        proof {
            reveal_strlit("content-length");
        }
        let length = decimal(self.body.len() as u64);
        self.with_header(ascii_bytes("content-length").as_slice(), length.as_slice())
    }
}

/// A SEND frame that announces the length of its body reads back from its
/// wire form as itself, whatever bytes the body holds, as long as the
/// destination holds no line feed.
pub proof fn lemma_send_well_formed(destination: Seq<u8>, body: Seq<u8>)
    requires
        first_index(destination, LF, 0) == -1,
    ensures
        spec_send(destination, body).with_content_length().well_formed(),
{
    let f = spec_send(destination, body).with_content_length();
    let length = spec_decimal(body.len());
    reveal_strlit("SEND");
    reveal_strlit("destination");
    reveal_strlit("content-length");
    lemma_first_index_none(ascii("SEND"), LF, 0);
    lemma_first_index_none(ascii("destination"), LF, 0);
    lemma_first_index_none(ascii("destination"), COLON, 0);
    lemma_first_index_none(ascii("content-length"), LF, 0);
    lemma_first_index_none(ascii("content-length"), COLON, 0);
    lemma_decimal_round_trip(body.len());
    assert forall|j: int| 0 <= j < length.len() implies length[j] != LF by {
        assert(is_digit(length[j]));
    }
    lemma_first_index_none(length, LF, 0);
    assert(f.headers[0] == (ascii("destination"), destination));
    assert(f.headers[1] == (ascii("content-length"), length));
    assert(f.headers.skip(1)[0] == f.headers[1]);
    assert(ascii("destination").len() != ascii("content-length").len());
    assert(spec_lookup(f.headers.skip(1), ascii("content-length")) == Some(length));
    assert(spec_content_length(f.headers) == Some(body.len()));
    assert(ascii("SEND").len() == 4);
}

/// A frame without a body whose only header can be told apart on the wire,
/// and is no `content-length` header, reads back from its wire form as
/// itself, as long as its command is a line of its own.
pub proof fn lemma_control_well_formed(command: Seq<u8>, key: Seq<u8>, value: Seq<u8>)
    requires
        command.len() > 0,
        first_index(command, LF, 0) == -1,
        command != seq![CR],
        header_well_formed((key, value)),
        key != ascii("content-length"),
    ensures
        spec_control(command, key, value).well_formed(),
{
    let f = spec_control(command, key, value);
    assert(f.headers[0] == (key, value));
    assert(f.headers.skip(1) =~= Seq::<HeaderSpec>::empty());
    assert(spec_lookup(f.headers.skip(1), ascii("content-length")) is None);
    assert(spec_content_length(f.headers) is None);
}

/// The frames that acknowledge a message, close a subscription, or open
/// and end a transaction read back from their wire forms as themselves, as
/// long as the identifier they carry holds no line feed.
pub proof fn lemma_control_frames_well_formed(id: Seq<u8>)
    requires
        first_index(id, LF, 0) == -1,
    ensures
        spec_ack(id).well_formed(),
        spec_nack(id).well_formed(),
        spec_unsubscribe(id).well_formed(),
        spec_begin(id).well_formed(),
        spec_commit(id).well_formed(),
        spec_abort(id).well_formed(),
{
    reveal_strlit("ACK");
    reveal_strlit("NACK");
    reveal_strlit("UNSUBSCRIBE");
    reveal_strlit("BEGIN");
    reveal_strlit("COMMIT");
    reveal_strlit("ABORT");
    reveal_strlit("id");
    reveal_strlit("transaction");
    reveal_strlit("content-length");
    lemma_first_index_none(ascii("ACK"), LF, 0);
    lemma_first_index_none(ascii("NACK"), LF, 0);
    lemma_first_index_none(ascii("UNSUBSCRIBE"), LF, 0);
    lemma_first_index_none(ascii("BEGIN"), LF, 0);
    lemma_first_index_none(ascii("COMMIT"), LF, 0);
    lemma_first_index_none(ascii("ABORT"), LF, 0);
    lemma_first_index_none(ascii("id"), LF, 0);
    lemma_first_index_none(ascii("id"), COLON, 0);
    lemma_first_index_none(ascii("transaction"), LF, 0);
    lemma_first_index_none(ascii("transaction"), COLON, 0);
    assert(ascii("ACK").len() == 3);
    assert(ascii("NACK").len() == 4);
    assert(ascii("UNSUBSCRIBE").len() == 11);
    assert(ascii("BEGIN").len() == 5);
    assert(ascii("COMMIT").len() == 6);
    assert(ascii("ABORT").len() == 5);
    assert(ascii("id").len() != ascii("content-length").len());
    assert(ascii("transaction").len() != ascii("content-length").len());
    lemma_control_well_formed(ascii("ACK"), ascii("id"), id);
    lemma_control_well_formed(ascii("NACK"), ascii("id"), id);
    lemma_control_well_formed(ascii("UNSUBSCRIBE"), ascii("id"), id);
    lemma_control_well_formed(ascii("BEGIN"), ascii("transaction"), id);
    lemma_control_well_formed(ascii("COMMIT"), ascii("transaction"), id);
    lemma_control_well_formed(ascii("ABORT"), ascii("transaction"), id);
}

} // verus!
