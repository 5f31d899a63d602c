use stomp::bytes::decimal;
use stomp::bytes::find_byte;
use stomp::bytes::parse_decimal;
use stomp::bytes::Length;
use stomp::codec::parse_transmission;
use stomp::connection::connect_frame;
use stomp::connection::connected;
use stomp::connection::handshake;
use stomp::connection::negotiate;
use stomp::connection::parse_heartbeat;
use stomp::connection::select_heartbeat;
use stomp::connection::HandshakeError;
use stomp::connection::Heartbeat;
use stomp::frame::Frame;
use stomp::frame::Transmission;
use stomp::frame_buffer::FrameBuffer;
use stomp::header::HeaderList;
use stomp::registry::Registry;
use stomp::session::acknowledgement;
use stomp::session::resubscribe_frame;
use stomp::session::Negotiated;
use stomp::session::ProtocolViolation;
use stomp::session::StompTimeout;
use stomp::subscription::AckMode;
use stomp::subscription::AckOrNack;
use stomp::subscription::MessageHandler;
use stomp::subscription::Subscription;
use stomp::subscription::ToMessageHandler;
use stomp::subscription_builder::subscribe_frame;
use stomp::timer::Timeout;
use stomp::timer::Timer;
use stomp::timer::Timers;

struct Always(AckOrNack);

impl MessageHandler for Always {
    fn on_message(&mut self, _frame: &Frame) -> AckOrNack {
        self.0
    }
}

#[test]
fn decimal_renders_numbers() {
    assert_eq!(decimal(0), b"0".to_vec());
    assert_eq!(decimal(7), b"7".to_vec());
    assert_eq!(decimal(10), b"10".to_vec());
    assert_eq!(decimal(65536), b"65536".to_vec());
    assert_eq!(decimal(4294967295), b"4294967295".to_vec());
    assert_eq!(decimal(u64::MAX), b"18446744073709551615".to_vec());
}

#[test]
fn parse_decimal_reads_lengths() {
    assert!(matches!(parse_decimal(b"0"), Length::Fits(0)));
    assert!(matches!(parse_decimal(b"0042"), Length::Fits(42)));
    assert!(matches!(parse_decimal(b"65536"), Length::Fits(65536)));
    assert!(matches!(parse_decimal(b""), Length::Invalid));
    assert!(matches!(parse_decimal(b"12a"), Length::Invalid));
    assert!(matches!(parse_decimal(b"-1"), Length::Invalid));
    assert!(matches!(parse_decimal(b" 1"), Length::Invalid));
    assert!(matches!(
        parse_decimal(b"99999999999999999999999999999999"),
        Length::TooLarge
    ));
    assert!(matches!(
        parse_decimal(b"00000000000000000000000000000007"),
        Length::Fits(7)
    ));
}

#[test]
fn find_byte_finds_the_first_from_a_position() {
    assert_eq!(find_byte(b"a:b:c", b':', 0), Some(1));
    assert_eq!(find_byte(b"a:b:c", b':', 2), Some(3));
    assert_eq!(find_byte(b"a:b:c", b':', 4), None);
    assert_eq!(find_byte(b"a:b:c", b':', 9), None);
    assert_eq!(find_byte(b"", b':', 0), None);
}

#[test]
fn header_lookup_takes_the_first_match() {
    let mut headers = HeaderList::new();
    headers.add(b"a", b"1");
    headers.add(b"b", b"2");
    headers.add(b"a", b"3");
    assert_eq!(headers.len(), 3);
    assert_eq!(headers.get(b"a"), Some(&b"1".to_vec()));
    assert_eq!(headers.get(b"b"), Some(&b"2".to_vec()));
    assert_eq!(headers.get(b"c"), None);
    assert_eq!(headers.get_subscription(), None);
    headers.add(b"subscription", b"s");
    headers.add(b"ack", b"k");
    headers.add(b"receipt-id", b"r");
    headers.add(b"receipt", b"q");
    assert_eq!(headers.get_subscription(), Some(&b"s".to_vec()));
    assert_eq!(headers.get_ack(), Some(&b"k".to_vec()));
    assert_eq!(headers.get_receipt_id(), Some(&b"r".to_vec()));
    assert_eq!(headers.get_receipt(), Some(&b"q".to_vec()));
}

#[test]
fn header_remove_key_drops_every_match() {
    let mut headers = HeaderList::new();
    headers.add(b"receipt", b"1");
    headers.add(b"b", b"2");
    headers.add(b"receipt", b"3");
    headers.add(b"c", b"4");
    headers.remove_key(b"receipt");
    assert_eq!(headers.len(), 2);
    assert_eq!(headers.headers[0].key, b"b".to_vec());
    assert_eq!(headers.headers[1].key, b"c".to_vec());
    assert_eq!(headers.headers[1].get_value().clone(), b"4".to_vec());
    headers.remove_key(b"zzz");
    assert_eq!(headers.len(), 2);
}

#[test]
fn header_concat_moves_headers() {
    let mut first = HeaderList::new();
    first.add(b"a", b"1");
    let mut second = HeaderList::new();
    second.add(b"b", b"2");
    second.add(b"c", b"3");
    let copy = second.clone();
    first.concat(&mut second);
    assert_eq!(first.len(), 3);
    assert_eq!(second.len(), 0);
    assert_eq!(copy.len(), 2);
    assert_eq!(first.headers[2].get_key().clone(), b"c".to_vec());
}

#[test]
fn frame_factories() {
    assert_eq!(Frame::send(b"/q", b"x").encode(), b"SEND\ndestination:/q\n\nx\0".to_vec());
    assert_eq!(
        Frame::subscribe(b"3", b"/q", AckMode::ClientIndividual).encode(),
        b"SUBSCRIBE\ndestination:/q\nid:3\nack:client-individual\n\n\0".to_vec()
    );
    assert_eq!(Frame::unsubscribe(b"3").encode(), b"UNSUBSCRIBE\nid:3\n\n\0".to_vec());
    assert_eq!(Frame::ack(b"a").encode(), b"ACK\nid:a\n\n\0".to_vec());
    assert_eq!(Frame::nack(b"a").encode(), b"NACK\nid:a\n\n\0".to_vec());
    assert_eq!(Frame::begin(b"t").encode(), b"BEGIN\ntransaction:t\n\n\0".to_vec());
    assert_eq!(Frame::commit(b"t").encode(), b"COMMIT\ntransaction:t\n\n\0".to_vec());
    assert_eq!(Frame::abort(b"t").encode(), b"ABORT\ntransaction:t\n\n\0".to_vec());
    assert_eq!(Frame::disconnect().encode(), b"DISCONNECT\n\n\0".to_vec());
    assert_eq!(AckMode::Auto.as_text(), b"auto".to_vec());
    assert_eq!(AckMode::Client.as_text(), b"client".to_vec());
}

#[test]
fn frame_write_appends() {
    let mut out = b"\n".to_vec();
    Frame::ack(b"a").write(&mut out);
    Frame::nack(b"b").write(&mut out);
    assert_eq!(out, b"\nACK\nid:a\n\n\0NACK\nid:b\n\n\0".to_vec());
}

#[test]
fn content_length_counts_the_body() {
    let frame = Frame::send(b"/q", &[0u8; 300]).with_content_length();
    assert_eq!(frame.headers.get(b"content-length"), Some(&b"300".to_vec()));
    let empty = Frame::send(b"/q", b"").with_content_length();
    assert_eq!(empty.encode(), b"SEND\ndestination:/q\ncontent-length:0\n\n\0".to_vec());
}

#[test]
fn parse_heartbeats_and_frames() {
    let bytes = b"\n\r\nMESSAGE\na:b:c\n:\n\nbody\0rest";
    assert!(matches!(parse_transmission(bytes), Some((Transmission::HeartBeat, 1))));
    assert!(matches!(parse_transmission(&bytes[1..]), Some((Transmission::HeartBeat, 2))));
    match parse_transmission(&bytes[3..]) {
        Some((Transmission::CompleteFrame(frame), taken)) => {
            assert_eq!(taken, bytes.len() - 3 - 4);
            assert_eq!(frame.command, b"MESSAGE".to_vec());
            assert_eq!(frame.headers.len(), 2);
            assert_eq!(frame.headers.headers[0].key, b"a".to_vec());
            assert_eq!(frame.headers.headers[0].value, b"b:c".to_vec());
            assert_eq!(frame.headers.headers[1].key, b"".to_vec());
            assert_eq!(frame.headers.headers[1].value, b"".to_vec());
            assert_eq!(frame.body, b"body".to_vec());
            assert_eq!(frame.encode(), bytes[3..3 + taken].to_vec());
        }
        _ => panic!("expected a frame"),
    }
    assert!(parse_transmission(b"rest").is_none());
}

#[test]
fn parse_waits_for_what_is_missing() {
    assert!(parse_transmission(b"").is_none());
    assert!(parse_transmission(b"\r").is_none());
    assert!(parse_transmission(b"MESSAGE").is_none());
    assert!(parse_transmission(b"MESSAGE\n").is_none());
    assert!(parse_transmission(b"MESSAGE\na:b\n").is_none());
    assert!(parse_transmission(b"MESSAGE\na:b\n\n").is_none());
    assert!(parse_transmission(b"MESSAGE\na:b\n\nbody").is_none());
    assert!(parse_transmission(b"MESSAGE\ncontent-length:4\n\nbody").is_none());
    assert!(parse_transmission(b"MESSAGE\ncontent-length:4\n\nbod\0").is_none());
    assert!(parse_transmission(b"MESSAGE\ncontent-length:4\n\nbody\0").is_some());
}

#[test]
fn parse_refuses_what_is_no_frame() {
    assert!(parse_transmission(b"MESSAGE\nno colon here\n\n\0").is_none());
    assert!(parse_transmission(b"MESSAGE\ncontent-length:2\n\nbody\0").is_none());
    assert!(parse_transmission(b"MESSAGE\r\n\r\n\0").is_none());
    assert!(parse_transmission(
        b"MESSAGE\ncontent-length:99999999999999999999999999\n\nbody\0"
    )
    .is_none());
}

#[test]
fn body_length_rules() {
    match parse_transmission(b"M\ncontent-length:0\n\n\0") {
        Some((Transmission::CompleteFrame(frame), 21)) => assert!(frame.body.is_empty()),
        _ => panic!("expected a frame"),
    }
    match parse_transmission(b"M\ncontent-length:x\n\nab\0cd\0") {
        Some((Transmission::CompleteFrame(frame), taken)) => {
            assert_eq!(frame.body, b"ab".to_vec());
            assert_eq!(taken, 23);
        }
        _ => panic!("expected a frame"),
    }
    match parse_transmission(b"M\ncontent-length:5\ncontent-length:1\n\nab\0cd\0") {
        Some((Transmission::CompleteFrame(frame), _)) => assert_eq!(frame.body, b"ab\0cd".to_vec()),
        _ => panic!("expected a frame"),
    }
}

#[test]
fn buffer_hands_out_transmissions_in_order() {
    let mut buffer = FrameBuffer::new();
    assert_eq!(buffer.len(), 0);
    let mut wire = Vec::new();
    let first = Frame::send(b"/q/a", b"one").with_content_length();
    let second = Frame::ack(b"7");
    first.write(&mut wire);
    wire.push(b'\n');
    second.write(&mut wire);
    wire.extend_from_slice(b"\r\nSEN");
    for byte in wire.iter() {
        buffer.append(&[*byte]);
    }
    assert_eq!(buffer.len(), wire.len());
    let mut seen = Vec::new();
    loop {
        match buffer.read_transmission() {
            Some(Transmission::CompleteFrame(frame)) => {
                seen.extend_from_slice(&frame.encode());
                buffer.recycle_frame(frame);
            }
            Some(Transmission::HeartBeat) => seen.push(b'!'),
            Some(Transmission::ConnectionClosed) => panic!("the buffer is open"),
            None => break,
        }
    }
    let mut expected = first.encode();
    expected.push(b'!');
    expected.extend_from_slice(&second.encode());
    expected.push(b'!');
    assert_eq!(seen, expected);
    assert_eq!(buffer.len(), 3);
    buffer.append(b"D\n\n\0");
    assert!(matches!(buffer.read_transmission(), Some(Transmission::CompleteFrame(_))));
    assert_eq!(buffer.len(), 0);
}

#[test]
fn buffer_close_and_reset() {
    let mut buffer = FrameBuffer::new();
    buffer.append(b"\nACK\nid");
    buffer.close();
    assert!(matches!(buffer.read_transmission(), Some(Transmission::HeartBeat)));
    assert!(matches!(buffer.read_transmission(), Some(Transmission::ConnectionClosed)));
    assert!(matches!(buffer.read_transmission(), Some(Transmission::ConnectionClosed)));
    assert_eq!(buffer.len(), 6);
    buffer.reset();
    assert_eq!(buffer.len(), 0);
    assert!(buffer.read_transmission().is_none());
}

#[test]
fn registry_insert_find_remove() {
    let mut registry: Registry<u32> = Registry::new();
    assert_eq!(registry.len(), 0);
    assert_eq!(registry.insert(b"a".to_vec(), 1), None);
    assert_eq!(registry.insert(b"b".to_vec(), 2), None);
    assert_eq!(registry.insert(b"c".to_vec(), 3), None);
    assert_eq!(registry.len(), 3);
    assert_eq!(registry.find(b"b"), Some(1));
    assert_eq!(registry.find(b"z"), None);
    assert_eq!(registry.insert(b"b".to_vec(), 20), Some(2));
    assert_eq!(registry.len(), 3);
    assert_eq!(registry.get(b"b"), Some(&20));
    assert_eq!(registry.keys(), vec![b"a".to_vec(), b"b".to_vec(), b"c".to_vec()]);
    *registry.value_at_mut(0) = 10;
    assert_eq!(*registry.value_at(0), 10);
    assert_eq!(registry.remove(b"a"), Some(10));
    assert_eq!(registry.remove(b"a"), None);
    assert_eq!(registry.len(), 2);
    assert_eq!(registry.key_at(0).clone(), b"b".to_vec());
    assert!(registry.contains_key(b"c"));
    assert!(!registry.contains_key(b"a"));
    assert_eq!(registry.get(b"a"), None);
}

#[test]
fn registry_insert_then_remove_restores() {
    let mut registry: Registry<u32> = Registry::new();
    registry.insert(b"1".to_vec(), 1);
    registry.insert(b"2".to_vec(), 2);
    let before = registry.keys();
    registry.insert(b"3".to_vec(), 3);
    registry.remove(b"3");
    assert_eq!(registry.keys(), before);
    assert_eq!(registry.get(b"1"), Some(&1));
    assert_eq!(registry.get(b"2"), Some(&2));
}

#[test]
fn timers_fire_in_order_of_their_due_times() {
    let mut timers = Timers::new();
    assert_eq!(timers.next_due(), None);
    let a = timers.timeout_ms(StompTimeout::SendHeartBeat, 500, 0);
    let b = timers.timeout_ms(StompTimeout::ReceiveHeartBeat, 300, 100);
    let c = timers.timeout_ms(StompTimeout::SendHeartBeat, 0, 400);
    assert_eq!((a.slot, b.slot, c.slot), (0, 1, 2));
    assert_eq!(timers.count(StompTimeout::SendHeartBeat), 2);
    assert_eq!(timers.count(StompTimeout::ReceiveHeartBeat), 1);
    assert_eq!(timers.next_due(), Some(400));
    assert_eq!(timers.earliest(), Some(Timeout { slot: 1 }));
    assert_eq!(timers.expire(399), None);
    assert_eq!(timers.expire(450), Some((b, StompTimeout::ReceiveHeartBeat)));
    assert_eq!(timers.expire(450), Some((c, StompTimeout::SendHeartBeat)));
    assert_eq!(timers.expire(450), None);
    assert_eq!(timers.get(a), Some(Timer { kind: StompTimeout::SendHeartBeat, due_ms: 500 }));
    assert_eq!(timers.get(b), None);
    let d = timers.timeout_ms(StompTimeout::ReceiveHeartBeat, 1, u64::MAX);
    assert_eq!(d.slot, 1);
    assert_eq!(
        timers.get(d),
        Some(Timer { kind: StompTimeout::ReceiveHeartBeat, due_ms: u64::MAX })
    );
    assert!(timers.clear_timeout(a));
    assert!(!timers.clear_timeout(a));
    assert!(!timers.clear_timeout(Timeout { slot: 99 }));
    assert_eq!(timers.count(StompTimeout::SendHeartBeat), 0);
    assert_eq!(timers.next_due(), Some(u64::MAX));
    assert_eq!(timers.get(Timeout { slot: 99 }), None);
}

#[test]
fn acknowledgement_by_mode() {
    let mut frame = Frame::send(b"/q", b"x");
    assert!(matches!(acknowledgement(AckMode::Auto, AckOrNack::Nack, &frame), Ok(None)));
    assert!(matches!(
        acknowledgement(AckMode::Client, AckOrNack::Ack, &frame),
        Err(ProtocolViolation::MissingAck)
    ));
    frame.headers.add(b"ack", b"m-9");
    assert!(matches!(acknowledgement(AckMode::Auto, AckOrNack::Ack, &frame), Ok(None)));
    match acknowledgement(AckMode::Client, AckOrNack::Ack, &frame) {
        Ok(Some(reply)) => assert_eq!(reply.encode(), b"ACK\nid:m-9\n\n\0".to_vec()),
        _ => panic!("expected an ACK"),
    }
    match acknowledgement(AckMode::ClientIndividual, AckOrNack::Nack, &frame) {
        Ok(Some(reply)) => assert_eq!(reply.encode(), b"NACK\nid:m-9\n\n\0".to_vec()),
        _ => panic!("expected a NACK"),
    }
}

#[test]
fn resubscribe_frame_strips_receipts() {
    let mut headers = HeaderList::new();
    headers.add(b"receipt", b"r1");
    headers.add(b"selector", b"x");
    let subscription = Subscription::new(
        b"4".to_vec(),
        b"/q/a".to_vec(),
        AckMode::Client,
        headers,
        Always(AckOrNack::Ack).to_message_handler(),
    );
    assert_eq!(
        resubscribe_frame(&subscription).encode(),
        b"SUBSCRIBE\ndestination:/q/a\nid:4\nack:client\nselector:x\n\n\0".to_vec()
    );
    assert_eq!(
        subscribe_frame(b"4", b"/q/a", AckMode::Client, &subscription.headers).encode(),
        b"SUBSCRIBE\ndestination:/q/a\nid:4\nack:client\nreceipt:r1\nselector:x\n\n\0".to_vec()
    );
}

#[test]
fn heartbeat_negotiation() {
    assert_eq!(select_heartbeat(0, 1000), 0);
    assert_eq!(select_heartbeat(1000, 0), 0);
    assert_eq!(select_heartbeat(1000, 2000), 1000);
    assert_eq!(select_heartbeat(3000, 2000), 2000);
    assert_eq!(select_heartbeat(5, 5), 5);
    let client = Heartbeat { tx_ms: 1000, rx_ms: 4000 };
    let server = Heartbeat { tx_ms: 3000, rx_ms: 2000 };
    assert_eq!(
        negotiate(client, server),
        Negotiated { tx_heartbeat_ms: 1000, rx_heartbeat_ms: 3000 }
    );
}

#[test]
fn handshake_frames() {
    let client = Heartbeat { tx_ms: 1000, rx_ms: 4000 };
    assert_eq!(
        connect_frame(b"localhost", client).encode(),
        b"CONNECT\naccept-version:1.2\nhost:localhost\nheart-beat:1000,4000\n\n\0".to_vec()
    );
    assert_eq!(parse_heartbeat(b"0,0"), Some(Heartbeat { tx_ms: 0, rx_ms: 0 }));
    assert_eq!(
        parse_heartbeat(b"4294967295,17"),
        Some(Heartbeat { tx_ms: 4294967295, rx_ms: 17 })
    );
    assert_eq!(parse_heartbeat(b"4294967296,17"), None);
    assert_eq!(parse_heartbeat(b"17"), None);
    assert_eq!(parse_heartbeat(b"1,2,3"), None);
    assert_eq!(parse_heartbeat(b",2"), None);
    let mut answer = Frame::disconnect();
    assert_eq!(connected(&answer), Err(HandshakeError::NotConnected));
    answer.command = b"CONNECTED".to_vec();
    assert_eq!(connected(&answer), Ok(Heartbeat { tx_ms: 0, rx_ms: 0 }));
    assert_eq!(
        handshake(client, &answer),
        Ok(Negotiated { tx_heartbeat_ms: 0, rx_heartbeat_ms: 0 })
    );
    answer.headers.add(b"heart-beat", b"3000,500");
    assert_eq!(
        handshake(client, &answer),
        Ok(Negotiated { tx_heartbeat_ms: 500, rx_heartbeat_ms: 3000 })
    );
    answer.headers.headers[0].value = b"fast".to_vec();
    assert_eq!(handshake(client, &answer), Err(HandshakeError::BadHeartbeat));
}
