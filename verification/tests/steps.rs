use stomp::bytes::append_range;
use stomp::bytes::ascii_bytes;
use stomp::bytes::bytes_eq;
use stomp::bytes::copy_range;
use stomp::codec::content_length;
use stomp::codec::parse_body;
use stomp::codec::parse_header;
use stomp::codec::parse_headers;
use stomp::codec::parse_transmission_reusing;
use stomp::connection::heartbeat_text;
use stomp::connection::parse_interval;
use stomp::connection::Heartbeat;
use stomp::bytes::Length;
use stomp::frame::Frame;
use stomp::frame::Transmission;
use stomp::header::Header;
use stomp::header::HeaderList;
use stomp::registry::Registry;
use stomp::session::ConnectionLost;
use stomp::session::FrameHandler;
use stomp::session::Inbound;
use stomp::session::ProtocolViolation;
use stomp::session::Session;
use stomp::session::StompTimeout;
use stomp::session::ToFrameHandler;
use stomp::subscription::AckMode;
use stomp::subscription::AckOrNack;
use stomp::subscription::MessageHandler;
use stomp::subscription::Subscription;
use stomp::subscription::ToMessageHandler;

struct Quiet;

impl FrameHandler for Quiet {
    fn on_frame(&mut self, _frame: &Frame) {}
}

impl MessageHandler for Quiet {
    fn on_message(&mut self, _frame: &Frame) -> AckOrNack {
        AckOrNack::Ack
    }
}

#[test]
fn byte_string_helpers() {
    assert!(bytes_eq(b"abc", b"abc"));
    assert!(bytes_eq(b"", b""));
    assert!(!bytes_eq(b"abc", b"abd"));
    assert!(!bytes_eq(b"abc", b"ab"));
    assert_eq!(copy_range(b"hello", 1, 4), b"ell".to_vec());
    assert_eq!(copy_range(b"hello", 2, 2), Vec::<u8>::new());
    let mut out = b"x".to_vec();
    append_range(&mut out, b"hello", 3, 5);
    assert_eq!(out, b"xlo".to_vec());
    assert_eq!(ascii_bytes("SEND"), vec![83, 69, 78, 68]);
    assert_eq!(ascii_bytes(""), Vec::<u8>::new());
}

#[test]
fn parser_steps() {
    let header = parse_header(b"a:b:c").unwrap();
    assert_eq!((header.key, header.value), (b"a".to_vec(), b"b:c".to_vec()));
    assert!(parse_header(b"abc").is_none());
    let stream = b"xx\na:1\nb:2\n\nbody\0";
    let (headers, body_at) = parse_headers(stream, 3, vec![Header::new(b"old", b"x")]).unwrap();
    assert_eq!(headers.len(), 2);
    assert_eq!(headers.headers[1].value, b"2".to_vec());
    assert_eq!(body_at, 12);
    assert!(parse_headers(stream, 12, Vec::new()).is_none());
    assert!(parse_headers(stream, 99, Vec::new()).is_none());
    assert!(parse_headers(b"a:1\nb\n\n", 0, Vec::new()).is_none());
    assert!(matches!(content_length(&headers), Length::Invalid));
    let (body, end) = parse_body(stream, &headers, body_at, b"junk".to_vec()).unwrap();
    assert_eq!(body, b"body".to_vec());
    assert_eq!(end, stream.len());
    assert!(parse_body(stream, &headers, 99, Vec::new()).is_none());
    let mut counted = HeaderList::new();
    counted.add(b"content-length", b"2");
    assert!(matches!(content_length(&counted), Length::Fits(2)));
    let (body, end) = parse_body(b"xx\0rest", &counted, 0, Vec::new()).unwrap();
    assert_eq!(body, b"xx".to_vec());
    assert_eq!(end, 3);
    assert!(parse_body(stream, &counted, 0, Vec::new()).is_none());
    assert!(parse_body(b"xx", &counted, 0, Vec::new()).is_none());
    match parse_transmission_reusing(b"ACK\nid:1\n\n\0", vec![Header::new(b"k", b"v")], b"zz".to_vec()) {
        Some((Transmission::CompleteFrame(frame), 11)) => {
            assert_eq!(frame.headers.len(), 1);
            assert!(frame.body.is_empty());
        }
        _ => panic!("expected a frame"),
    }
}

#[test]
fn heartbeat_header_text() {
    assert_eq!(heartbeat_text(Heartbeat { tx_ms: 0, rx_ms: 0 }), b"0,0".to_vec());
    assert_eq!(
        heartbeat_text(Heartbeat { tx_ms: 1000, rx_ms: 4294967295 }),
        b"1000,4294967295".to_vec()
    );
    assert_eq!(parse_interval(b"0"), Some(0));
    assert_eq!(parse_interval(b"4294967295"), Some(4294967295));
    assert_eq!(parse_interval(b"4294967296"), None);
    assert_eq!(parse_interval(b""), None);
    assert_eq!(parse_interval(b"1x"), None);
}

#[test]
fn registry_get_mut_changes_one_value() {
    let mut registry: Registry<u32> = Registry::new();
    registry.insert(b"a".to_vec(), 1);
    registry.insert(b"b".to_vec(), 2);
    *registry.get_mut(b"b").unwrap() += 40;
    assert!(registry.get_mut(b"c").is_none());
    assert_eq!(registry.get(b"a"), Some(&1));
    assert_eq!(registry.get(b"b"), Some(&42));
    assert_eq!(registry.len(), 2);
}

#[test]
fn frame_clone_and_headers() {
    let frame = Frame::send(b"/q", b"x").with_header(b"a", b"1");
    let copy = frame.clone();
    assert_eq!(copy.encode(), frame.encode());
    assert_eq!(copy.encode(), b"SEND\ndestination:/q\na:1\n\nx\0".to_vec());
}

#[test]
fn transmit_skips_the_send_handler() {
    struct Never;
    impl stomp::session::FrameHandlerMut for Never {
        fn on_frame(&mut self, frame: &mut Frame) {
            frame.command = b"CHANGED".to_vec();
        }
    }
    let mut session = Session::new(0, 0);
    session.on_before_send(Never);
    assert_eq!(session.transmit(&Frame::ack(b"1")), Ok(()));
    assert_eq!(session.take_output(), b"ACK\nid:1\n\n\0".to_vec());
    session.connection_lost();
    assert_eq!(session.transmit(&Frame::ack(b"1")), Err(ConnectionLost));
    assert!(session.output().is_empty());
}

#[test]
fn timer_steps() {
    let mut session = Session::new(200, 300);
    session.register_tx_heartbeat_timeout(0);
    assert_eq!(session.next_timeout(), Some(100));
    session.register_tx_heartbeat_timeout(50);
    assert_eq!(session.timers().count(StompTimeout::SendHeartBeat), 1);
    assert_eq!(session.next_timeout(), Some(150));
    session.register_rx_heartbeat_timeout(0);
    session.register_rx_heartbeat_timeout(10);
    assert_eq!(session.timers().count(StompTimeout::ReceiveHeartBeat), 1);
    session.clear_tx_heartbeat_timeout();
    assert_eq!(session.timers().count(StompTimeout::SendHeartBeat), 0);
    assert_eq!(session.next_timeout(), Some(610));
    session.reset_rx_heartbeat_timeout(20);
    assert_eq!(session.next_timeout(), Some(620));
    session.on_heartbeat(30);
    assert_eq!(session.next_timeout(), Some(630));
    session.clear_rx_heartbeat_timeout();
    session.clear_rx_heartbeat_timeout();
    assert_eq!(session.next_timeout(), None);
    session.send_heartbeat(1000);
    assert_eq!(session.output().clone(), b"\n".to_vec());
    assert_eq!(session.next_timeout(), Some(1100));
    session.timeout(StompTimeout::ReceiveHeartBeat, 1000);
    assert_eq!(session.output().clone(), b"\n".to_vec());
    session.timeout(StompTimeout::SendHeartBeat, 2000);
    assert_eq!(session.take_output(), b"\n\n".to_vec());
    assert_eq!(session.timers().count(StompTimeout::SendHeartBeat), 1);
    assert_eq!(session.next_timeout(), Some(2100));
}

#[test]
fn acknowledgements_are_sent() {
    let mut session = Session::new(0, 0);
    assert_eq!(session.acknowledge_frame(b"m1"), Ok(()));
    assert_eq!(session.negatively_acknowledge_frame(b"m2"), Ok(()));
    assert_eq!(session.take_output(), b"ACK\nid:m1\n\n\0NACK\nid:m2\n\n\0".to_vec());
    session.connection_lost();
    assert_eq!(session.acknowledge_frame(b"m1"), Err(ConnectionLost));
    assert_eq!(session.negatively_acknowledge_frame(b"m2"), Err(ConnectionLost));
}

#[test]
fn receipts_are_handled_once() {
    let mut session = Session::new(0, 0);
    session.add_receipt_handler(b"r1".to_vec(), Quiet.to_frame_handler());
    session.add_receipt_handler(b"r2".to_vec(), Quiet.to_frame_handler());
    session.add_receipt_handler(b"r1".to_vec(), Quiet.to_frame_handler());
    assert_eq!(session.outstanding_receipts(), vec![b"r1".to_vec(), b"r2".to_vec()]);
    let mut frame = Frame::disconnect();
    frame.command = b"RECEIPT".to_vec();
    assert_eq!(session.handle_receipt(&frame), Err(ProtocolViolation::MissingReceiptId));
    frame.headers.add(b"receipt-id", b"r1");
    assert_eq!(session.handle_receipt(&frame), Ok(()));
    assert_eq!(session.handle_receipt(&frame), Err(ProtocolViolation::UnknownReceipt));
    assert_eq!(session.outstanding_receipts(), vec![b"r2".to_vec()]);
}

#[test]
fn subscriptions_are_registered_under_their_identifiers() {
    let mut session = Session::new(0, 0);
    let first = Subscription::new(
        b"x".to_vec(),
        b"/q/a".to_vec(),
        AckMode::Auto,
        HeaderList::new(),
        Quiet.to_message_handler(),
    );
    let second = Subscription::new(
        b"x".to_vec(),
        b"/q/b".to_vec(),
        AckMode::Client,
        HeaderList::new(),
        Quiet.to_message_handler(),
    );
    session.add_subscription(first);
    session.add_subscription(second);
    assert_eq!(session.subscriptions().len(), 1);
    assert_eq!(session.subscriptions().get(b"x").unwrap().destination, b"/q/b".to_vec());
    assert!(session.output().is_empty());
}

#[test]
fn transmissions_are_taken_in_one_at_a_time() {
    let mut session = Session::new(0, 100);
    assert_eq!(session.receive(Transmission::HeartBeat, 5), Inbound::Handled);
    assert_eq!(session.next_timeout(), Some(205));
    let mut error = Frame::disconnect();
    error.command = b"ERROR".to_vec();
    assert_eq!(session.receive(Transmission::CompleteFrame(error), 6), Inbound::Handled);
    assert_eq!(session.next_timeout(), Some(206));
    let mut receipt = Frame::disconnect();
    receipt.command = b"RECEIPT".to_vec();
    assert_eq!(
        session.receive(Transmission::CompleteFrame(receipt), 7),
        Inbound::Fatal(ProtocolViolation::MissingReceiptId)
    );
    assert_eq!(session.next_timeout(), Some(207));
    assert_eq!(session.receive(Transmission::ConnectionClosed, 8), Inbound::Reconnect);
    assert!(!session.is_connected());
    assert_eq!(session.next_timeout(), None);
}
