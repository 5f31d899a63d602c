//! The grammar of the inbound byte stream, as a function on bytes, and the
//! laws that tie it to the wire form of frames.

use vstd::prelude::*;
use vstd::slice::slice_subrange;
use crate::bytes::{
    append_range, ascii_bytes, copy_range, find_byte, first_index, lemma_first_index,
    lemma_first_index_is, lemma_first_index_none, Length, parse_decimal,
};
use crate::frame::{
    COLON, CR, Frame, FrameSpec, header_well_formed, LF, NUL, spec_content_length, spec_encode,
    spec_encode_header, spec_encode_headers, Transmission,
};
use crate::header::{Header, HeaderList, HeaderSpec};

verus! {

/// The mathematical value of a transmission.
pub enum TransmissionSpec {
    HeartBeat,
    CompleteFrame(FrameSpec),
    ConnectionClosed,
}

/// Splits a header line at its first colon; `None` for a line without one.
pub open spec fn spec_parse_header(line: Seq<u8>) -> Option<HeaderSpec> {
    let c = first_index(line, COLON, 0);
    if c == -1 {
        None
    } else {
        Some((line.subrange(0, c), line.subrange(c + 1, line.len() as int)))
    }
}

/// Reads header lines from `pos` up to and including the empty line that
/// ends them. Gives the headers and the position after the empty line, or
/// `None` when the lines are not all there or one of them has no colon.
pub open spec fn spec_parse_headers(s: Seq<u8>, pos: int) -> Option<(Seq<HeaderSpec>, int)>
    decreases s.len() - pos,
{
    let e = first_index(s, LF, pos);
    if pos < 0 || e < pos || e >= s.len() {
        None
    } else if e == pos {
        Some((Seq::<HeaderSpec>::empty(), pos + 1))
    } else {
        match (spec_parse_header(s.subrange(pos, e)), spec_parse_headers(s, e + 1)) {
            (Some(h), Some((hs, b))) => Some((seq![h] + hs, b)),
            _ => None,
        }
    }
}

/// Reads the body that starts at `b`: as many bytes as the headers announce
/// and then a NUL, or, when they announce nothing, the bytes up to the first
/// NUL. Gives the body and the position after its NUL.
pub open spec fn spec_parse_body(s: Seq<u8>, hs: Seq<HeaderSpec>, b: int) -> Option<(Seq<u8>, int)> {
    match spec_content_length(hs) {
        Some(n) => if b + n < s.len() && s[b + n] == NUL {
            Some((s.subrange(b, b + n), b + n + 1))
        } else {
            None
        },
        None => {
            let z = first_index(s, NUL, b);
            if z == -1 {
                None
            } else {
                Some((s.subrange(b, z), z + 1))
            }
        },
    }
}

/// Reads one transmission from the head of `s`. Gives the transmission and
/// the number of bytes it takes, or `None` when `s` does not begin with a
/// whole heartbeat or frame.
///
/// A line feed, alone or after a carriage return, is a heartbeat. Anything
/// else begins a frame: a command line, header lines, an empty line, and the
/// body with its NUL.
pub open spec fn spec_parse(s: Seq<u8>) -> Option<(TransmissionSpec, int)> {
    if s.len() >= 1 && s[0] == LF {
        Some((TransmissionSpec::HeartBeat, 1))
    } else if s.len() >= 2 && s[0] == CR && s[1] == LF {
        Some((TransmissionSpec::HeartBeat, 2))
    } else {
        let e = first_index(s, LF, 0);
        if e == -1 {
            None
        } else {
            match spec_parse_headers(s, e + 1) {
                None => None,
                Some((hs, b)) => match spec_parse_body(s, hs, b) {
                    None => None,
                    Some((body, end)) => Some(
                        (
                            TransmissionSpec::CompleteFrame(
                                FrameSpec { command: s.subrange(0, e), headers: hs, body: body },
                            ),
                            end,
                        ),
                    ),
                },
            }
        }
    }
}

/// A header line that parses is the wire form of the header it gives, and
/// that header can be told apart on the wire.
pub proof fn lemma_parse_header_sound(line: Seq<u8>)
    requires
        first_index(line, LF, 0) == -1,
        spec_parse_header(line) is Some,
    ensures
        line + seq![LF] == spec_encode_header(spec_parse_header(line)->0),
        header_well_formed(spec_parse_header(line)->0),
{
    let c = first_index(line, COLON, 0);
    let h = spec_parse_header(line)->0;
    lemma_first_index(line, COLON, 0);
    lemma_first_index(line, LF, 0);
    assert(line + seq![LF] =~= spec_encode_header(h));
    assert forall|j: int| 0 <= j < h.0.len() implies h.0[j] != COLON by {
        assert(h.0[j] == line[j]);
    }
    lemma_first_index_none(h.0, COLON, 0);
    assert forall|j: int| 0 <= j < h.0.len() implies h.0[j] != LF by {
        assert(h.0[j] == line[j]);
    }
    lemma_first_index_none(h.0, LF, 0);
    assert forall|j: int| 0 <= j < h.1.len() implies h.1[j] != LF by {
        assert(h.1[j] == line[c + 1 + j]);
    }
    lemma_first_index_none(h.1, LF, 0);
}

/// The wire form of a well-formed header, without its line feed, parses as
/// that header.
pub proof fn lemma_parse_header_complete(h: HeaderSpec)
    requires
        header_well_formed(h),
    ensures
        spec_parse_header(h.0 + seq![COLON] + h.1) == Some(h),
        first_index(h.0 + seq![COLON] + h.1, LF, 0) == -1,
{
    let line = h.0 + seq![COLON] + h.1;
    lemma_first_index(h.0, COLON, 0);
    lemma_first_index(h.0, LF, 0);
    lemma_first_index(h.1, LF, 0);
    assert(line[h.0.len() as int] == COLON);
    assert forall|j: int| 0 <= j < h.0.len() implies line[j] != COLON by {
        assert(line[j] == h.0[j]);
    }
    lemma_first_index_is(line, COLON, 0, h.0.len() as int);
    assert(line.subrange(0, h.0.len() as int) =~= h.0);
    assert(line.subrange(h.0.len() as int + 1, line.len() as int) =~= h.1);
    assert forall|j: int| 0 <= j < line.len() implies line[j] != LF by {
        if j < h.0.len() {
            assert(line[j] == h.0[j]);
        } else if j > h.0.len() {
            assert(line[j] == h.1[j - h.0.len() - 1]);
        }
    }
    lemma_first_index_none(line, LF, 0);
}

/// Header lines that parse are the wire form of the headers they give,
/// followed by the empty line; each header can be told apart on the wire.
pub proof fn lemma_parse_headers_sound(s: Seq<u8>, pos: int)
    ensures
        spec_parse_headers(s, pos) matches Some((hs, b)) ==> {
            &&& 0 <= pos < b <= s.len()
            &&& s.subrange(pos, b) == spec_encode_headers(hs) + seq![LF]
            &&& forall|i: int| 0 <= i < hs.len() ==> header_well_formed(#[trigger] hs[i])
        },
    decreases s.len() - pos,
{
    if let Some((all, end)) = spec_parse_headers(s, pos) {
        let e = first_index(s, LF, pos);
        lemma_first_index(s, LF, pos);
        if e == pos {
            assert(s.subrange(pos, pos + 1) =~= seq![LF]);
            assert(spec_encode_headers(all) + seq![LF] =~= seq![LF]);
        } else {
            let line = s.subrange(pos, e);
            let h = spec_parse_header(line)->0;
            let (hs, b) = spec_parse_headers(s, e + 1)->0;
            lemma_parse_headers_sound(s, e + 1);
            assert forall|j: int| 0 <= j < line.len() implies line[j] != LF by {
                assert(line[j] == s[pos + j]);
            }
            lemma_first_index_none(line, LF, 0);
            lemma_parse_header_sound(line);
            assert(all[0] == h);
            assert(all.skip(1) =~= hs);
            assert(s.subrange(pos, b) =~= (line + seq![LF]) + s.subrange(e + 1, b));
            assert(s.subrange(pos, b) =~= spec_encode_headers(all) + seq![LF]);
            assert forall|i: int| 0 <= i < all.len() implies header_well_formed(
                #[trigger] all[i],
            ) by {
                if i > 0 {
                    assert(all[i] == hs[i - 1]);
                }
            }
        }
    }
}

/// The wire form of well-formed headers followed by the empty line parses as
/// those headers, whatever stands before and after.
pub proof fn lemma_parse_headers_complete(before: Seq<u8>, hs: Seq<HeaderSpec>, after: Seq<u8>)
    requires
        forall|i: int| 0 <= i < hs.len() ==> header_well_formed(#[trigger] hs[i]),
    ensures
        spec_parse_headers(
            before + spec_encode_headers(hs) + seq![LF] + after,
            before.len() as int,
        ) == Some((hs, (before.len() + spec_encode_headers(hs).len() + 1) as int)),
    decreases hs.len(),
{
    let s = before + spec_encode_headers(hs) + seq![LF] + after;
    let pos = before.len() as int;
    if hs.len() == 0 {
        assert(s[pos] == LF);
        lemma_first_index_is(s, LF, pos, pos);
        assert(hs =~= Seq::<HeaderSpec>::empty());
    } else {
        let h = hs[0];
        let line = h.0 + seq![COLON] + h.1;
        let e = pos + line.len();
        let next = before + spec_encode_header(h);
        lemma_parse_header_complete(h);
        lemma_first_index(line, LF, 0);
        assert(spec_encode_header(h) =~= line + seq![LF]);
        assert(s =~= next + spec_encode_headers(hs.skip(1)) + seq![LF] + after);
        assert forall|j: int| pos <= j < e implies s[j] != LF by {
            assert(s[j] == line[j - pos]);
        }
        assert(s[e] == LF);
        lemma_first_index_is(s, LF, pos, e);
        assert(s.subrange(pos, e) =~= line);
        assert forall|i: int| 0 <= i < hs.skip(1).len() implies header_well_formed(
            #[trigger] hs.skip(1)[i],
        ) by {
            assert(hs.skip(1)[i] == hs[i + 1]);
        }
        lemma_parse_headers_complete(next, hs.skip(1), after);
        assert(seq![h] + hs.skip(1) =~= hs);
    }
}

/// The bytes that a transmission took from the head of the stream are its
/// wire form: a heartbeat took a line feed, alone or after a carriage
/// return, and a frame took exactly its encoding. A frame that was read is
/// well formed.
pub proof fn lemma_parse_sound(s: Seq<u8>)
    ensures
        spec_parse(s) matches Some((t, n)) ==> {
            &&& 0 < n <= s.len()
            &&& match t {
                TransmissionSpec::HeartBeat => s.take(n) == seq![LF] || s.take(n) == seq![
                    CR,
                    LF,
                ],
                TransmissionSpec::CompleteFrame(f) => f.well_formed() && s.take(n) == spec_encode(
                    f,
                ),
                TransmissionSpec::ConnectionClosed => false,
            }
        },
{
    if let Some((t, n)) = spec_parse(s) {
        if s.len() >= 1 && s[0] == LF {
            assert(s.take(1) =~= seq![LF]);
        } else if s.len() >= 2 && s[0] == CR && s[1] == LF {
            assert(s.take(2) =~= seq![CR, LF]);
        } else {
            let e = first_index(s, LF, 0);
            lemma_first_index(s, LF, 0);
            let (hs, b) = spec_parse_headers(s, e + 1)->0;
            lemma_parse_headers_sound(s, e + 1);
            let (body, end) = spec_parse_body(s, hs, b)->0;
            let f = FrameSpec { command: s.subrange(0, e), headers: hs, body: body };
            assert(t == TransmissionSpec::CompleteFrame(f));
            assert forall|j: int| 0 <= j < f.command.len() implies f.command[j] != LF by {
                assert(f.command[j] == s[j]);
            }
            lemma_first_index_none(f.command, LF, 0);
            if f.command == seq![CR] {
                assert(f.command[0] == CR);
                assert(s[0] == f.command[0]);
                assert(false);
            }
            match spec_content_length(hs) {
                Some(len) => {},
                None => {
                    let z = first_index(s, NUL, b);
                    lemma_first_index(s, NUL, b);
                    assert forall|j: int| 0 <= j < body.len() implies body[j] != NUL by {
                        assert(body[j] == s[b + j]);
                    }
                    lemma_first_index_none(body, NUL, 0);
                },
            }
            assert(s.take(n) =~= s.subrange(0, e) + seq![LF] + s.subrange(e + 1, b) + body
                + seq![NUL]);
            assert(s.take(n) =~= spec_encode(f));
        }
    }
}

/// The wire form of a well-formed frame reads back as that frame and takes
/// exactly its own bytes, whatever follows it in the stream.
pub proof fn lemma_parse_encode(f: FrameSpec, after: Seq<u8>)
    requires
        f.well_formed(),
    ensures
        spec_parse(spec_encode(f) + after) == Some(
            (TransmissionSpec::CompleteFrame(f), spec_encode(f).len() as int),
        ),
{
    let s = spec_encode(f) + after;
    let e = f.command.len() as int;
    let head = f.command + seq![LF];
    let tail = f.body + seq![NUL] + after;
    lemma_first_index(f.command, LF, 0);
    assert(s[0] == f.command[0]);
    if f.command.len() == 1 {
        assert(f.command =~= seq![f.command[0]]);
    } else {
        assert(s[1] == f.command[1]);
    }
    assert forall|j: int| 0 <= j < e implies s[j] != LF by {
        assert(s[j] == f.command[j]);
    }
    assert(s[e] == LF);
    lemma_first_index_is(s, LF, 0, e);
    assert(s.subrange(0, e) =~= f.command);
    assert(s =~= head + spec_encode_headers(f.headers) + seq![LF] + tail);
    lemma_parse_headers_complete(head, f.headers, tail);
    let b = (head.len() + spec_encode_headers(f.headers).len() + 1) as int;
    assert(spec_parse_headers(s, e + 1) == Some((f.headers, b)));
    match spec_content_length(f.headers) {
        Some(len) => {
            assert(s[b + len] == NUL);
            assert(s.subrange(b, b + len) =~= f.body);
        },
        None => {
            let z = b + f.body.len();
            lemma_first_index(f.body, NUL, 0);
            assert forall|j: int| b <= j < z implies s[j] != NUL by {
                assert(s[j] == f.body[j - b]);
            }
            assert(s[z] == NUL);
            lemma_first_index_is(s, NUL, b, z);
            assert(s.subrange(b, z) =~= f.body);
        },
    }
}

/// Reading is the inverse of writing: a stream begins with a frame exactly
/// when the frame is well formed and the stream begins with its wire form.
pub proof fn lemma_parse_inverts_encode(s: Seq<u8>, f: FrameSpec)
    ensures
        spec_parse(s) == Some((TransmissionSpec::CompleteFrame(f), spec_encode(f).len() as int))
            <==> f.well_formed() && spec_encode(f).len() <= s.len() && s.take(
            spec_encode(f).len() as int,
        ) == spec_encode(f),
{
    let n = spec_encode(f).len() as int;
    lemma_parse_sound(s);
    if f.well_formed() && n <= s.len() && s.take(n) == spec_encode(f) {
        lemma_parse_encode(f, s.skip(n));
        assert(s =~= spec_encode(f) + s.skip(n));
    }
}

/// A stream from which no transmission can be read begins neither with a
/// heartbeat nor with the wire form of any well-formed frame.
pub proof fn lemma_parse_none(s: Seq<u8>)
    requires
        spec_parse(s) is None,
    ensures
        s.len() >= 1 ==> s[0] != LF,
        s.len() >= 2 ==> !(s[0] == CR && s[1] == LF),
        forall|f: FrameSpec|
            f.well_formed() && spec_encode(f).len() <= s.len() ==> s.take(
                spec_encode(f).len() as int,
            ) != #[trigger] spec_encode(f),
{
    assert forall|f: FrameSpec| f.well_formed() && spec_encode(f).len() <= s.len() implies s.take(
        spec_encode(f).len() as int,
    ) != #[trigger] spec_encode(f) by {
        lemma_parse_inverts_encode(s, f);
    }
}

/// Encoding what was read from a whole frame's bytes gives those bytes
/// back.
pub proof fn lemma_encode_parse(bytes: Seq<u8>)
    requires
        spec_parse(bytes) matches Some((TransmissionSpec::CompleteFrame(f), n)) && n
            == bytes.len(),
    ensures
        spec_parse(bytes) matches Some((TransmissionSpec::CompleteFrame(f), n)) && spec_encode(f)
            == bytes,
{
    lemma_parse_sound(bytes);
    assert(bytes.take(bytes.len() as int) =~= bytes);
}

impl View for Transmission {
    type V = TransmissionSpec;

    open spec fn view(&self) -> TransmissionSpec {
        match self {
            Transmission::HeartBeat => TransmissionSpec::HeartBeat,
            Transmission::CompleteFrame(f) => TransmissionSpec::CompleteFrame(f@),
            Transmission::ConnectionClosed => TransmissionSpec::ConnectionClosed,
        }
    }
}

/// Splits a header line at its first colon.
pub fn parse_header(line: &[u8]) -> (r: Option<Header>)
    ensures
        match r {
            Some(h) => spec_parse_header(line@) == Some(h@),
            None => spec_parse_header(line@) is None,
        },
{
    match find_byte(line, COLON, 0) {
        None => None,
        Some(c) => {
            proof {
                lemma_first_index(line@, COLON, 0);
            }
            Some(Header { key: copy_range(line, 0, c), value: copy_range(line, c + 1, line.len()) })
        },
    }
}

/// Reads header lines from `pos` up to and including the empty line that
/// ends them. The headers are collected in `spare`, a vector whose
/// allocation is put to use and whose contents are dropped.
pub fn parse_headers(s: &[u8], pos: usize, spare: Vec<Header>) -> (r: Option<
    (HeaderList, usize),
>)
    ensures
        match r {
            Some((hs, b)) => spec_parse_headers(s@, pos as int) == Some((hs@, b as int)),
            None => spec_parse_headers(s@, pos as int) is None,
        },
{
    if pos > s.len() {
        return None;
    }
    let mut headers = spare;
    headers.clear();
    let mut acc = HeaderList { headers: headers };
    assert(acc@ =~= Seq::<HeaderSpec>::empty());
    let mut at: usize = pos;
    assert(forall|hs: Seq<HeaderSpec>| acc@ + hs =~= hs);
    loop
        invariant
            pos <= at <= s.len(),
            spec_parse_headers(s@, pos as int) == match spec_parse_headers(s@, at as int) {
                Some((hs, b)) => Some((acc@ + hs, b)),
                None => None,
            },
        decreases s.len() - at,
    {
        proof {
            lemma_first_index(s@, LF, at as int);
        }
        match find_byte(s, LF, at) {
            None => {
                return None;
            },
            Some(e) => {
                if e == at {
                    assert(acc@ + Seq::<HeaderSpec>::empty() =~= acc@);
                    return Some((acc, at + 1));
                }
                let line = slice_subrange(s, at, e);
                match parse_header(line) {
                    None => {
                        return None;
                    },
                    Some(h) => {
                        proof {
                            let ghost before = acc@;
                            match spec_parse_headers(s@, e + 1) {
                                Some((hs, b)) => {
                                    assert(before + (seq![h@] + hs) =~= before.push(h@) + hs);
                                },
                                None => {},
                            }
                        }
                        acc.push(h);
                        at = e + 1;
                    },
                }
            },
        }
    }
}

/// The body length that the headers announce.
pub fn content_length(headers: &HeaderList) -> (r: Length)
    ensures
        match r {
            Length::Invalid => spec_content_length(headers@) is None,
            Length::Fits(n) => spec_content_length(headers@) == Some(n as nat),
            Length::TooLarge => spec_content_length(headers@) matches Some(n) && n > usize::MAX,
        },
{
    proof {
        reveal_strlit("content-length");
    }
    let key = ascii_bytes("content-length");
    match headers.get(key.as_slice()) {
        None => Length::Invalid,
        Some(v) => parse_decimal(v.as_slice()),
    }
}

/// Reads the body that starts at `b`, as long as `headers` announce or up
/// to the first NUL. The body is collected in `spare`, a vector whose
/// allocation is put to use and whose contents are dropped.
pub fn parse_body(s: &[u8], headers: &HeaderList, b: usize, spare: Vec<u8>) -> (r: Option<
    (Vec<u8>, usize),
>)
    ensures
        match r {
            Some((body, end)) => spec_parse_body(s@, headers@, b as int) == Some(
                (body@, end as int),
            ),
            None => spec_parse_body(s@, headers@, b as int) is None,
        },
{
    if b > s.len() {
        return None;
    }
    let mut body = spare;
    body.clear();
    match content_length(headers) {
        Length::TooLarge => None,
        Length::Fits(n) => {
            if n < s.len() - b && s[b + n] == NUL {
                append_range(&mut body, s, b, b + n);
                assert(body@ =~= s@.subrange(b as int, b + n));
                Some((body, b + n + 1))
            } else {
                None
            }
        },
        Length::Invalid => {
            proof {
                lemma_first_index(s@, NUL, b as int);
            }
            match find_byte(s, NUL, b) {
                None => None,
                Some(z) => {
                    append_range(&mut body, s, b, z);
                    assert(body@ =~= s@.subrange(b as int, z as int));
                    Some((body, z + 1))
                },
            }
        },
    }
}

/// Reads one transmission from the head of `s`: the transmission and the
/// number of bytes it takes, or `None` when `s` does not begin with a whole
/// heartbeat or frame.
pub fn parse_transmission(s: &[u8]) -> (r: Option<(Transmission, usize)>)
    ensures
        match r {
            Some((t, n)) => spec_parse(s@) == Some((t@, n as int)),
            None => spec_parse(s@) is None,
        },
{
    parse_transmission_reusing(s, Vec::new(), Vec::new())
}

/// Reads one transmission as `parse_transmission` does, and builds a frame
/// in the two vectors handed in, whose allocations are put to use and whose
/// contents are dropped.
pub fn parse_transmission_reusing(s: &[u8], spare_headers: Vec<Header>, spare_body: Vec<u8>) -> (r:
    Option<(Transmission, usize)>)
    ensures
        match r {
            Some((t, n)) => spec_parse(s@) == Some((t@, n as int)),
            None => spec_parse(s@) is None,
        },
{
    if s.len() >= 1 && s[0] == LF {
        return Some((Transmission::HeartBeat, 1));
    }
    if s.len() >= 2 && s[0] == CR && s[1] == LF {
        return Some((Transmission::HeartBeat, 2));
    }
    proof {
        lemma_first_index(s@, LF, 0);
    }
    let e = match find_byte(s, LF, 0) {
        None => {
            return None;
        },
        Some(e) => e,
    };
    let (headers, b) = match parse_headers(s, e + 1, spare_headers) {
        None => {
            return None;
        },
        Some(found) => found,
    };
    proof {
        lemma_parse_headers_sound(s@, e + 1);
    }
    let (body, end) = match parse_body(s, &headers, b, spare_body) {
        None => {
            return None;
        },
        Some(found) => found,
    };
    let frame = Frame { command: copy_range(s, 0, e), headers: headers, body: body };
    Some((Transmission::CompleteFrame(frame), end))
}

/// Every transmission that stands whole at the head of `s`, in order, and
/// the bytes that are left behind the last of them.
pub open spec fn spec_drain(s: Seq<u8>) -> (Seq<TransmissionSpec>, Seq<u8>)
    decreases s.len(),
{
    match spec_parse(s) {
        Some((t, n)) => if 0 < n <= s.len() {
            let (more, rest) = spec_drain(s.skip(n));
            (seq![t] + more, rest)
        } else {
            (Seq::<TransmissionSpec>::empty(), s)
        },
        None => (Seq::<TransmissionSpec>::empty(), s),
    }
}

/// Whether `wire` is a wire form of the transmission: for a heartbeat a line
/// feed, alone or after a carriage return; for a frame its encoding.
pub open spec fn is_wire_form(t: TransmissionSpec, wire: Seq<u8>) -> bool {
    match t {
        TransmissionSpec::HeartBeat => wire == seq![LF] || wire == seq![CR, LF],
        TransmissionSpec::CompleteFrame(f) => wire == spec_encode(f),
        TransmissionSpec::ConnectionClosed => false,
    }
}

/// Whether `bytes` is made of wire forms of the transmissions, one after
/// another in their order.
pub open spec fn are_wire_forms(ts: Seq<TransmissionSpec>, bytes: Seq<u8>) -> bool
    decreases ts.len(),
{
    if ts.len() == 0 {
        bytes.len() == 0
    } else {
        exists|k: int|
            0 < k <= bytes.len() && is_wire_form(ts[0], #[trigger] bytes.take(k)) && are_wire_forms(
                ts.skip(1),
                bytes.skip(k),
            )
    }
}

/// The bytes that the transmissions at the head of a stream took are wire
/// forms of those transmissions, one after another; what is left follows
/// them, and does not begin with a whole transmission.
pub proof fn lemma_drain(s: Seq<u8>)
    ensures
        ({
            let (ts, rest) = spec_drain(s);
            &&& rest.len() <= s.len()
            &&& s.skip(s.len() - rest.len()) == rest
            &&& are_wire_forms(ts, s.take(s.len() - rest.len()))
            &&& spec_parse(rest) is None
        }),
    decreases s.len(),
{
    let (ts, rest) = spec_drain(s);
    lemma_parse_sound(s);
    match spec_parse(s) {
        Some((t, n)) => {
            let tail = s.skip(n);
            let (more, left) = spec_drain(tail);
            lemma_drain(tail);
            let taken = s.take(s.len() - rest.len());
            let used = tail.len() - left.len();
            assert(s.skip(s.len() - rest.len()) =~= tail.skip(used));
            assert(taken.take(n) =~= s.take(n));
            assert(taken.skip(n) =~= tail.take(used));
            assert(ts[0] == t);
            assert(ts.skip(1) =~= more);
            assert(is_wire_form(ts[0], taken.take(n)));
        },
        None => {
            assert(s.skip(s.len() as int) =~= Seq::<u8>::empty());
            assert(s.skip(0) =~= s);
            assert(s.take(0).len() == 0);
        },
    }
}

/// Wire forms of transmissions, followed by a wire form of one more, are
/// wire forms of all of them.
pub proof fn lemma_wire_forms_push(
    ts: Seq<TransmissionSpec>,
    bytes: Seq<u8>,
    t: TransmissionSpec,
    wire: Seq<u8>,
)
    requires
        are_wire_forms(ts, bytes),
        is_wire_form(t, wire),
    ensures
        are_wire_forms(ts.push(t), bytes + wire),
    decreases ts.len(),
{
    let all = ts.push(t);
    let joined = bytes + wire;
    if ts.len() == 0 {
        let k = wire.len() as int;
        assert(joined.take(k) =~= wire);
        assert(joined.skip(k).len() == 0);
        assert(all.skip(1).len() == 0);
        assert(are_wire_forms(all.skip(1), joined.skip(k)));
        assert(is_wire_form(all[0], joined.take(k)));
    } else {
        let k = choose|k: int|
            0 < k <= bytes.len() && is_wire_form(ts[0], #[trigger] bytes.take(k)) && are_wire_forms(
                ts.skip(1),
                bytes.skip(k),
            );
        lemma_wire_forms_push(ts.skip(1), bytes.skip(k), t, wire);
        assert(joined.take(k) =~= bytes.take(k));
        assert(joined.skip(k) =~= bytes.skip(k) + wire);
        assert(all.skip(1) =~= ts.skip(1).push(t));
        assert(all[0] == ts[0]);
        assert(is_wire_form(all[0], joined.take(k)));
    }
}

/// Whether `left` is what is left of the stream `input` after some of the
/// whole transmissions at its head were taken from it, in their order, or,
/// with `all`, after all of them were: the bytes taken are the wire forms of
/// the transmissions taken.
pub open spec fn spec_taken(input: Seq<u8>, left: Seq<u8>, all: bool) -> bool {
    let ts = spec_drain(input).0;
    let taken = input.len() - left.len();
    &&& 0 <= taken
    &&& left == input.skip(taken)
    &&& exists|k: int|
        0 <= k <= ts.len() && (all ==> k == ts.len()) && #[trigger] are_wire_forms(
            ts.take(k),
            input.take(taken),
        )
}

/// Whether the account of a read is in order: of the whole transmissions
/// at the head of the stream `input`, the first `handled` were taken, `left`
/// is what is left of the stream, and the bytes taken are the wire forms of
/// the transmissions taken.
#[verifier::opaque]
pub open spec fn spec_account(input: Seq<u8>, handled: int, left: Seq<u8>) -> bool {
    let whole = spec_drain(input).0;
    let taken = input.len() - left.len();
    &&& 0 <= handled <= whole.len()
    &&& 0 <= taken
    &&& left == input.skip(taken)
    &&& are_wire_forms(whole.take(handled), input.take(taken))
    &&& spec_drain(left).0 == whole.skip(handled)
}

/// Before anything is taken, the account is in order.
pub proof fn lemma_account_start(input: Seq<u8>)
    ensures
        spec_account(input, 0, input),
{
    reveal(spec_account);
    let whole = spec_drain(input).0;
    assert(input.skip(0) =~= input);
    assert(whole.skip(0) =~= whole);
    assert(whole.take(0).len() == 0);
    assert(input.take(0).len() == 0);
}

/// Taking the transmission at the head of what is left keeps the account
/// in order.
pub proof fn lemma_account_step(
    input: Seq<u8>,
    handled: int,
    left: Seq<u8>,
    t: TransmissionSpec,
    n: int,
)
    requires
        spec_account(input, handled, left),
        spec_parse(left) == Some((t, n)),
    ensures
        0 < n <= left.len(),
        spec_account(input, handled + 1, left.skip(n)),
{
    reveal(spec_account);
    let whole = spec_drain(input).0;
    let taken = input.len() - left.len();
    lemma_parse_sound(left);
    let more = spec_drain(left.skip(n)).0;
    assert(spec_drain(left).0 == seq![t] + more);
    assert(whole.skip(handled)[0] == t);
    assert(whole[handled] == t);
    assert(whole.take(handled + 1) =~= whole.take(handled).push(t));
    assert(whole.skip(handled + 1) =~= whole.skip(handled).skip(1));
    assert((seq![t] + more).skip(1) =~= more);
    assert(input.take(taken + n) =~= input.take(taken) + left.take(n));
    assert(left.skip(n) =~= input.skip(taken + n));
    assert(is_wire_form(t, left.take(n)));
    lemma_wire_forms_push(whole.take(handled), input.take(taken), t, left.take(n));
}

/// With the account in order, what is left of a stream is what is left
/// after some of its transmissions were taken; and after all of them, when
/// no whole one is left.
pub proof fn lemma_account_end(input: Seq<u8>, handled: int, left: Seq<u8>)
    requires
        spec_account(input, handled, left),
    ensures
        spec_taken(input, left, false),
        spec_parse(left) is None ==> spec_taken(input, left, true),
{
    reveal(spec_account);
    let whole = spec_drain(input).0;
    let taken = input.len() - left.len();
    assert(are_wire_forms(whole.take(handled), input.take(taken)));
    if spec_parse(left) is None {
        assert(whole.skip(handled).len() == 0);
    }
}

} // verus!
