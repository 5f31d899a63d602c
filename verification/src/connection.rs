//! The opening handshake, as far as the session depends on it: the CONNECT
//! frame that asks for heartbeats, the CONNECTED frame that answers, and the
//! intervals that follow from the two.

use vstd::prelude::*;
use crate::bytes::{
    ascii, ascii_bytes, bytes_eq, copy_range, decimal, find_byte, first_index, lemma_first_index,
    Length, parse_decimal, spec_decimal, spec_parse_decimal,
};
use crate::frame::{Frame, FrameSpec};
use crate::header::{HeaderList, spec_lookup};
use crate::session::Negotiated;

verus! {

/// The heartbeats that one side offers, in milliseconds: how often it can
/// send one, and how often it wants to get one. Zero means never.
#[derive(Clone, Copy, Debug, PartialEq, Eq, Structural)]
pub struct Heartbeat {
    pub tx_ms: u32,
    pub rx_ms: u32,
}

/// Why a handshake failed.
#[derive(Clone, Copy, Debug, PartialEq, Eq, Structural)]
pub enum HandshakeError {
    /// The server answered with something other than a CONNECTED frame.
    NotConnected,
    /// The server's `heart-beat` header is not two numbers with a comma
    /// between them.
    BadHeartbeat,
}

/// The comma between the two numbers of a `heart-beat` header.
pub const COMMA: u8 = 44;

/// The interval for one direction: the smaller of what one side asks for
/// and what the other promises, and zero when either is zero.
pub open spec fn spec_select(request_ms: u32, promise_ms: u32) -> u32 {
    if request_ms == 0 || promise_ms == 0 {
        0
    } else if request_ms <= promise_ms {
        request_ms
    } else {
        promise_ms
    }
}

/// The intervals that follow from what client and server offer: for each
/// direction what the client's side and the server's opposite side select.
pub open spec fn spec_negotiate(client: Heartbeat, server: Heartbeat) -> Negotiated {
    Negotiated {
        tx_heartbeat_ms: spec_select(client.tx_ms, server.rx_ms),
        rx_heartbeat_ms: spec_select(client.rx_ms, server.tx_ms),
    }
}

/// The interval for one direction.
pub fn select_heartbeat(request_ms: u32, promise_ms: u32) -> (r: u32)
    ensures
        r == spec_select(request_ms, promise_ms),
{
    if request_ms == 0 || promise_ms == 0 {
        0
    } else if request_ms <= promise_ms {
        request_ms
    } else {
        promise_ms
    }
}

/// The intervals that follow from what client and server offer.
pub fn negotiate(client: Heartbeat, server: Heartbeat) -> (r: Negotiated)
    ensures
        r == spec_negotiate(client, server),
{
    Negotiated {
        tx_heartbeat_ms: select_heartbeat(client.tx_ms, server.rx_ms),
        rx_heartbeat_ms: select_heartbeat(client.rx_ms, server.tx_ms),
    }
}

/// The value of a `heart-beat` header that offers `heartbeat`.
pub open spec fn spec_heartbeat_text(heartbeat: Heartbeat) -> Seq<u8> {
    spec_decimal(heartbeat.tx_ms as nat) + seq![COMMA] + spec_decimal(heartbeat.rx_ms as nat)
}

/// The number below 2^32 that `text` gives in decimal.
pub open spec fn spec_parse_interval(text: Seq<u8>) -> Option<u32> {
    match spec_parse_decimal(text) {
        Some(n) => if n <= u32::MAX {
            Some(n as u32)
        } else {
            None
        },
        None => None,
    }
}

/// What a `heart-beat` header value offers: two numbers below 2^32 in
/// decimal, with the first comma between them.
pub open spec fn spec_parse_heartbeat(text: Seq<u8>) -> Option<Heartbeat> {
    let c = first_index(text, COMMA, 0);
    if c == -1 {
        None
    } else {
        match (
            spec_parse_interval(text.subrange(0, c)),
            spec_parse_interval(text.subrange(c + 1, text.len() as int)),
        ) {
            (Some(tx), Some(rx)) => Some(Heartbeat { tx_ms: tx, rx_ms: rx }),
            _ => None,
        }
    }
}

/// The CONNECT frame that opens a session with `host` and asks for the
/// given heartbeats.
pub open spec fn spec_connect(host: Seq<u8>, heartbeat: Heartbeat) -> FrameSpec {
    FrameSpec {
        command: ascii("CONNECT"),
        headers: seq![
            (ascii("accept-version"), ascii("1.2")),
            (ascii("host"), host),
            (ascii("heart-beat"), spec_heartbeat_text(heartbeat)),
        ],
        body: Seq::<u8>::empty(),
    }
}

/// What the server's answer to CONNECT offers: the heartbeats in the
/// `heart-beat` header of a CONNECTED frame, and none when the header is
/// missing.
pub open spec fn spec_connected(frame: FrameSpec) -> Result<Heartbeat, HandshakeError> {
    if frame.command != ascii("CONNECTED") {
        Err(HandshakeError::NotConnected)
    } else {
        match spec_lookup(frame.headers, ascii("heart-beat")) {
            None => Ok(Heartbeat { tx_ms: 0, rx_ms: 0 }),
            Some(text) => match spec_parse_heartbeat(text) {
                Some(h) => Ok(h),
                None => Err(HandshakeError::BadHeartbeat),
            },
        }
    }
}

/// The value of a `heart-beat` header that offers `heartbeat`.
pub fn heartbeat_text(heartbeat: Heartbeat) -> (r: Vec<u8>)
    ensures
        r@ == spec_heartbeat_text(heartbeat),
{
    let mut text = decimal(heartbeat.tx_ms as u64);
    text.push(COMMA);
    let mut rx = decimal(heartbeat.rx_ms as u64);
    text.append(&mut rx);
    assert(text@ =~= spec_heartbeat_text(heartbeat));
    text
}

/// The number below 2^32 that `text` gives in decimal.
pub fn parse_interval(text: &[u8]) -> (r: Option<u32>)
    ensures
        r == spec_parse_interval(text@),
{
    match parse_decimal(text) {
        Length::Fits(n) => if n <= u32::MAX as usize {
            Some(n as u32)
        } else {
            None
        },
        _ => None,
    }
}

/// What a `heart-beat` header value offers.
pub fn parse_heartbeat(text: &[u8]) -> (r: Option<Heartbeat>)
    ensures
        r == spec_parse_heartbeat(text@),
{
    match find_byte(text, COMMA, 0) {
        None => None,
        Some(c) => {
            proof {
                lemma_first_index(text@, COMMA, 0);
            }
            let first = copy_range(text, 0, c);
            let second = copy_range(text, c + 1, text.len());
            match (parse_interval(first.as_slice()), parse_interval(second.as_slice())) {
                (Some(tx), Some(rx)) => Some(Heartbeat { tx_ms: tx, rx_ms: rx }),
                _ => None,
            }
        },
    }
}

/// The CONNECT frame that opens a session with `host` and asks for the
/// given heartbeats.
pub fn connect_frame(host: &[u8], heartbeat: Heartbeat) -> (r: Frame)
    ensures
        r@ == spec_connect(host@, heartbeat),
{
    proof {
        reveal_strlit("CONNECT");
        reveal_strlit("accept-version");
        reveal_strlit("1.2");
        reveal_strlit("host");
        reveal_strlit("heart-beat");
    }
    let mut headers = HeaderList::new();
    headers.add(ascii_bytes("accept-version").as_slice(), ascii_bytes("1.2").as_slice());
    headers.add(ascii_bytes("host").as_slice(), host);
    headers.add(ascii_bytes("heart-beat").as_slice(), heartbeat_text(heartbeat).as_slice());
    let r = Frame { command: ascii_bytes("CONNECT"), headers: headers, body: Vec::new() };
    assert(r@.headers =~= spec_connect(host@, heartbeat).headers);
    assert(r@.body =~= Seq::<u8>::empty());
    r
}

/// What the server's answer to CONNECT offers.
pub fn connected(frame: &Frame) -> (r: Result<Heartbeat, HandshakeError>)
    ensures
        r == spec_connected(frame@),
{
    proof {
        reveal_strlit("CONNECTED");
        reveal_strlit("heart-beat");
    }
    if !bytes_eq(frame.command.as_slice(), ascii_bytes("CONNECTED").as_slice()) {
        return Err(HandshakeError::NotConnected);
    }
    match frame.headers.get(ascii_bytes("heart-beat").as_slice()) {
        None => Ok(Heartbeat { tx_ms: 0, rx_ms: 0 }),
        Some(text) => match parse_heartbeat(text.as_slice()) {
            Some(h) => Ok(h),
            None => Err(HandshakeError::BadHeartbeat),
        },
    }
}

/// What a client that asked for `request` runs on after the server's
/// answer `frame`.
pub fn handshake(request: Heartbeat, frame: &Frame) -> (r: Result<Negotiated, HandshakeError>)
    ensures
        r == match spec_connected(frame@) {
            Ok(server) => Ok::<Negotiated, HandshakeError>(spec_negotiate(request, server)),
            Err(e) => Err::<Negotiated, HandshakeError>(e),
        },
{
    match connected(frame) {
        Ok(server) => Ok(negotiate(request, server)),
        Err(e) => Err(e),
    }
}

} // verus!
