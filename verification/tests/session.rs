use std::cell::RefCell;
use std::rc::Rc;

use stomp::frame::Frame;
use stomp::session::ConnectionLost;
use stomp::session::FrameHandler;
use stomp::session::FrameHandlerMut;
use stomp::session::Inbound;
use stomp::session::Negotiated;
use stomp::session::ProtocolViolation;
use stomp::session::ReceiptHandler;
use stomp::session::Reconnect;
use stomp::session::Session;
use stomp::session::StompTimeout;
use stomp::session::RECONNECT_DELAY_MS;
use stomp::subscription::AckMode;
use stomp::subscription::AckOrNack;
use stomp::subscription::MessageHandler;

struct Recorder {
    bodies: Rc<RefCell<Vec<Vec<u8>>>>,
    answer: AckOrNack,
}

impl MessageHandler for Recorder {
    fn on_message(&mut self, frame: &Frame) -> AckOrNack {
        self.bodies.borrow_mut().push(frame.body.clone());
        self.answer
    }
}

struct Counter {
    calls: Rc<RefCell<u32>>,
}

impl FrameHandler for Counter {
    fn on_frame(&mut self, _frame: &Frame) {
        *self.calls.borrow_mut() += 1;
    }
}

struct Stamp;

impl FrameHandlerMut for Stamp {
    fn on_frame(&mut self, frame: &mut Frame) {
        frame.headers.add(b"stamp", b"1");
    }
}

fn recorder(answer: AckOrNack) -> (Recorder, Rc<RefCell<Vec<Vec<u8>>>>) {
    let bodies = Rc::new(RefCell::new(Vec::new()));
    (Recorder { bodies: bodies.clone(), answer }, bodies)
}

fn counter() -> (Counter, Rc<RefCell<u32>>) {
    let calls = Rc::new(RefCell::new(0));
    (Counter { calls: calls.clone() }, calls)
}

#[test]
fn minimal_publish() {
    let mut session = Session::new(0, 0);
    assert_eq!(session.message(b"/q/x", b"hello").send(), Ok(()));
    assert_eq!(
        session.take_output(),
        b"SEND\ndestination:/q/x\ncontent-length:5\n\nhello\0".to_vec()
    );
    assert!(session.take_output().is_empty());
}

#[test]
fn subscribe_with_auto_ack() {
    let mut session = Session::new(0, 0);
    let (handler, bodies) = recorder(AckOrNack::Ack);
    let id = session.subscription(b"/q/y", handler).start().unwrap();
    assert_eq!(id, b"0".to_vec());
    assert_eq!(
        session.take_output(),
        b"SUBSCRIBE\ndestination:/q/y\nid:0\nack:auto\n\n\0".to_vec()
    );
    let inbound = b"MESSAGE\nsubscription:0\nmessage-id:m1\ndestination:/q/y\n\npayload\0";
    assert_eq!(session.readable(inbound, 0), Inbound::Handled);
    assert_eq!(*bodies.borrow(), vec![b"payload".to_vec()]);
    assert!(session.take_output().is_empty());
}

#[test]
fn client_ack() {
    let mut session = Session::new(0, 0);
    let (handler, bodies) = recorder(AckOrNack::Ack);
    let id = session
        .subscription(b"/q/y", handler)
        .with_ack_mode(AckMode::Client)
        .start()
        .unwrap();
    assert_eq!(id, b"0".to_vec());
    assert_eq!(
        session.take_output(),
        b"SUBSCRIBE\ndestination:/q/y\nid:0\nack:client\n\n\0".to_vec()
    );
    let inbound = b"MESSAGE\nsubscription:0\nmessage-id:m1\ndestination:/q/y\nack:a1\n\npayload\0";
    assert_eq!(session.readable(inbound, 0), Inbound::Handled);
    assert_eq!(*bodies.borrow(), vec![b"payload".to_vec()]);
    assert_eq!(session.take_output(), b"ACK\nid:a1\n\n\0".to_vec());
}

#[test]
fn client_individual_nack() {
    let mut session = Session::new(0, 0);
    let (handler, _bodies) = recorder(AckOrNack::Nack);
    session
        .subscription(b"/q/y", handler)
        .with_ack_mode(AckMode::ClientIndividual)
        .with_header(b"selector", b"a = 1")
        .start()
        .unwrap();
    assert_eq!(
        session.take_output(),
        b"SUBSCRIBE\ndestination:/q/y\nid:0\nack:client-individual\nselector:a = 1\n\n\0".to_vec()
    );
    let inbound = b"MESSAGE\nsubscription:0\nack:a7\n\nx\0";
    assert_eq!(session.readable(inbound, 0), Inbound::Handled);
    assert_eq!(session.take_output(), b"NACK\nid:a7\n\n\0".to_vec());
}

#[test]
fn receipt() {
    let mut session = Session::new(0, 0);
    let (handler, calls) = counter();
    let sent = session
        .message(b"/q/z", b"")
        .with_receipt(ReceiptHandler::new(handler))
        .send();
    assert_eq!(sent, Ok(()));
    assert_eq!(
        session.take_output(),
        b"SEND\ndestination:/q/z\nreceipt:0\ncontent-length:0\n\n\0".to_vec()
    );
    assert_eq!(session.outstanding_receipts(), vec![b"0".to_vec()]);
    assert_eq!(session.readable(b"RECEIPT\nreceipt-id:0\n\n\0", 0), Inbound::Handled);
    assert_eq!(*calls.borrow(), 1);
    assert!(session.outstanding_receipts().is_empty());
}

#[test]
fn heartbeat_framing() {
    let mut session = Session::new(1000, 1000);
    assert_eq!(session.tx_heartbeat_ms(), 500);
    assert_eq!(session.rx_heartbeat_ms(), 2000);
    session.listen(0);
    assert_eq!(session.next_timeout(), Some(500));
    assert_eq!(session.expire(499), None);
    assert!(session.output().is_empty());
    assert_eq!(session.expire(500), Some(StompTimeout::SendHeartBeat));
    assert_eq!(session.expire(500), None);
    assert_eq!(session.output().clone(), b"\n".to_vec());
    assert_eq!(session.expire(999), None);
    assert_eq!(session.expire(1000), Some(StompTimeout::SendHeartBeat));
    assert_eq!(session.take_output(), b"\n\n".to_vec());
}

#[test]
fn reconnect_with_replay() {
    let mut session = Session::new(0, 0);
    let (first, _) = recorder(AckOrNack::Ack);
    let (second, _) = recorder(AckOrNack::Ack);
    session.listen(0);
    session
        .subscription(b"/q/a", first)
        .with_header(b"receipt", b"r-1")
        .start()
        .unwrap();
    session.subscription(b"/q/b", second).start().unwrap();
    session.take_output();
    assert_eq!(session.readable(b"", 10), Inbound::Reconnect);
    assert!(!session.is_connected());
    assert_eq!(session.reconnect(None, 10), Reconnect::RetryAfter(3000));
    assert_eq!(RECONNECT_DELAY_MS, 3000);
    assert!(!session.is_connected());
    let negotiated = Negotiated { tx_heartbeat_ms: 0, rx_heartbeat_ms: 0 };
    assert_eq!(session.reconnect(Some(negotiated), 3010), Reconnect::Resumed);
    assert!(session.is_connected());
    assert_eq!(session.subscriptions().len(), 2);
    assert_eq!(
        session.take_output(),
        b"SUBSCRIBE\ndestination:/q/a\nid:0\nack:auto\n\n\0SUBSCRIBE\ndestination:/q/b\nid:1\nack:auto\n\n\0"
            .to_vec()
    );
}

#[test]
fn reconnect_takes_over_negotiated_heartbeats() {
    let mut session = Session::new(0, 0);
    session.listen(0);
    assert_eq!(session.next_timeout(), None);
    session.connection_lost();
    let negotiated = Negotiated { tx_heartbeat_ms: 200, rx_heartbeat_ms: 300 };
    assert_eq!(session.reconnect(Some(negotiated), 1000), Reconnect::Resumed);
    assert_eq!(session.tx_heartbeat_ms(), 100);
    assert_eq!(session.rx_heartbeat_ms(), 600);
    assert_eq!(session.timers().count(StompTimeout::SendHeartBeat), 1);
    assert_eq!(session.timers().count(StompTimeout::ReceiveHeartBeat), 1);
    assert_eq!(session.next_timeout(), Some(1100));
}

#[test]
fn receipt_pending_across_reconnect_is_not_fired_by_a_later_receipt() {
    let mut session = Session::new(0, 0);
    let (old_handler, old_calls) = counter();
    let (new_handler, new_calls) = counter();
    session
        .message(b"/q/z", b"")
        .with_receipt(ReceiptHandler::new(old_handler))
        .send()
        .unwrap();
    assert_eq!(session.readable(b"", 0), Inbound::Reconnect);
    let negotiated = Negotiated { tx_heartbeat_ms: 0, rx_heartbeat_ms: 0 };
    assert_eq!(session.reconnect(Some(negotiated), 0), Reconnect::Resumed);
    session
        .message(b"/q/z", b"")
        .with_receipt(ReceiptHandler::new(new_handler))
        .send()
        .unwrap();
    assert_eq!(
        session.take_output(),
        b"SEND\ndestination:/q/z\nreceipt:1\ncontent-length:0\n\n\0".to_vec()
    );
    assert_eq!(session.outstanding_receipts(), vec![b"0".to_vec(), b"1".to_vec()]);
    assert_eq!(session.readable(b"RECEIPT\nreceipt-id:1\n\n\0", 0), Inbound::Handled);
    assert_eq!(*new_calls.borrow(), 1);
    assert_eq!(*old_calls.borrow(), 0);
    assert_eq!(session.outstanding_receipts(), vec![b"0".to_vec()]);
}

#[test]
fn watchdog_is_one_after_each_inbound_transmission() {
    let mut session = Session::new(0, 250);
    assert_eq!(session.timers().count(StompTimeout::ReceiveHeartBeat), 0);
    session.listen(0);
    assert_eq!(session.timers().count(StompTimeout::ReceiveHeartBeat), 1);
    assert_eq!(session.next_timeout(), Some(500));
    assert_eq!(session.readable(b"\n", 100), Inbound::Handled);
    assert_eq!(session.timers().count(StompTimeout::ReceiveHeartBeat), 1);
    assert_eq!(session.next_timeout(), Some(600));
    assert_eq!(session.readable(b"\r\n\n", 150), Inbound::Handled);
    assert_eq!(session.timers().count(StompTimeout::ReceiveHeartBeat), 1);
    assert_eq!(session.next_timeout(), Some(650));
    assert_eq!(session.expire(650), Some(StompTimeout::ReceiveHeartBeat));
    assert_eq!(session.timers().count(StompTimeout::ReceiveHeartBeat), 0);
    assert_eq!(session.readable(b"ERROR\n\n\0", 700), Inbound::Handled);
    assert_eq!(session.timers().count(StompTimeout::ReceiveHeartBeat), 1);
    assert_eq!(session.next_timeout(), Some(1200));
}

#[test]
fn zero_receive_interval_disables_the_watchdog() {
    let mut session = Session::new(1000, 0);
    session.listen(0);
    assert_eq!(session.timers().count(StompTimeout::ReceiveHeartBeat), 0);
    assert_eq!(session.timers().count(StompTimeout::SendHeartBeat), 1);
    assert_eq!(session.readable(b"\n", 10), Inbound::Handled);
    assert_eq!(session.timers().count(StompTimeout::ReceiveHeartBeat), 0);
    assert_eq!(session.readable(b"ERROR\n\n\0", 20), Inbound::Handled);
    assert_eq!(session.timers().count(StompTimeout::ReceiveHeartBeat), 0);
}

#[test]
fn zero_send_interval_disables_heartbeats() {
    let mut session = Session::new(0, 0);
    session.listen(0);
    assert_eq!(session.next_timeout(), None);
    assert_eq!(session.expire(u64::MAX), None);
    assert!(session.output().is_empty());
}

#[test]
fn ids_count_up_in_each_namespace() {
    let mut session = Session::new(0, 0);
    assert_eq!(session.generate_subscription_id(), 0);
    assert_eq!(session.generate_subscription_id(), 1);
    assert_eq!(session.generate_receipt_id(), 0);
    assert_eq!(session.generate_transaction_id(), 0);
    assert_eq!(session.generate_subscription_id(), 2);
    assert_eq!(session.generate_receipt_id(), 1);
    assert_eq!(session.generate_transaction_id(), 1);
}

#[test]
fn subscribe_then_unsubscribe_restores_the_registry() {
    let mut session = Session::new(0, 0);
    let (handler, _) = recorder(AckOrNack::Ack);
    assert_eq!(session.subscriptions().len(), 0);
    let id = session.subscription(b"/q/a", handler).start().unwrap();
    assert_eq!(session.subscriptions().len(), 1);
    assert!(session.subscriptions().contains_key(&id));
    session.take_output();
    assert_eq!(session.unsubscribe(&id), Ok(()));
    assert_eq!(session.subscriptions().len(), 0);
    assert!(!session.subscriptions().contains_key(&id));
    assert_eq!(session.take_output(), b"UNSUBSCRIBE\nid:0\n\n\0".to_vec());
}

#[test]
fn registry_size_is_subscribes_less_unsubscribes() {
    let mut session = Session::new(0, 0);
    let mut ids = Vec::new();
    for _ in 0..5 {
        let (handler, _) = recorder(AckOrNack::Ack);
        ids.push(session.subscription(b"/q/a", handler).start().unwrap());
    }
    session.unsubscribe(&ids[1]).unwrap();
    session.unsubscribe(&ids[3]).unwrap();
    assert_eq!(session.subscriptions().len(), 3);
    assert_eq!(session.subscriptions().key_at(0).clone(), b"0".to_vec());
    assert_eq!(session.subscriptions().key_at(1).clone(), b"2".to_vec());
    assert_eq!(session.subscriptions().key_at(2).clone(), b"4".to_vec());
}

#[test]
fn disconnect_sends_a_frame_and_keeps_the_session() {
    let mut session = Session::new(0, 0);
    assert_eq!(session.disconnect(), Ok(()));
    assert_eq!(session.take_output(), b"DISCONNECT\n\n\0".to_vec());
    assert!(session.is_connected());
}

#[test]
fn send_on_a_lost_connection_fails() {
    let mut session = Session::new(0, 0);
    session.connection_lost();
    assert_eq!(session.send(Frame::disconnect()), Err(ConnectionLost));
    assert_eq!(session.message(b"/q/x", b"hello").send(), Err(ConnectionLost));
    assert_eq!(session.disconnect(), Err(ConnectionLost));
    assert!(session.begin_transaction().is_err());
    let (handler, _) = recorder(AckOrNack::Ack);
    assert_eq!(session.subscription(b"/q/a", handler).start(), Err(ConnectionLost));
    assert_eq!(session.subscriptions().len(), 0);
    assert!(session.output().is_empty());
}

#[test]
fn connection_lost_drops_buffers_and_the_watchdog() {
    let mut session = Session::new(100, 100);
    session.listen(0);
    session.message(b"/q/x", b"hello").send().unwrap();
    assert_eq!(session.readable(b"MESSAGE\nsubscr", 0), Inbound::Handled);
    session.connection_lost();
    assert!(!session.is_connected());
    assert!(session.output().is_empty());
    assert_eq!(session.timers().count(StompTimeout::ReceiveHeartBeat), 0);
    assert_eq!(session.timers().count(StompTimeout::SendHeartBeat), 1);
    let negotiated = Negotiated { tx_heartbeat_ms: 100, rx_heartbeat_ms: 100 };
    assert_eq!(session.reconnect(Some(negotiated), 0), Reconnect::Resumed);
    assert_eq!(session.readable(b"\n", 0), Inbound::Handled);
}

#[test]
fn heartbeat_on_a_lost_connection_writes_nothing() {
    let mut session = Session::new(100, 0);
    session.listen(0);
    session.connection_lost();
    assert_eq!(session.expire(50), Some(StompTimeout::SendHeartBeat));
    assert!(session.output().is_empty());
    assert_eq!(session.next_timeout(), Some(100));
}

#[test]
fn error_frame_goes_to_the_error_handler() {
    let mut session = Session::new(0, 0);
    let (handler, calls) = counter();
    session.on_error(handler);
    assert_eq!(session.readable(b"ERROR\nmessage:bad\n\noops\0", 0), Inbound::Handled);
    assert_eq!(*calls.borrow(), 1);
}

#[test]
fn before_send_handler_may_change_the_frame() {
    let mut session = Session::new(0, 0);
    session.on_before_send(Stamp);
    session.send(Frame::ack(b"a1")).unwrap();
    assert_eq!(session.take_output(), b"ACK\nid:a1\nstamp:1\n\n\0".to_vec());
}

#[test]
fn before_receive_handler_sees_the_frame_first() {
    struct Redirect;
    impl FrameHandlerMut for Redirect {
        fn on_frame(&mut self, frame: &mut Frame) {
            frame.command = b"ERROR".to_vec();
        }
    }
    let mut session = Session::new(0, 0);
    let (handler, calls) = counter();
    session.on_error(handler);
    session.on_before_receive(Redirect);
    assert_eq!(session.readable(b"MESSAGE\n\n\0", 0), Inbound::Handled);
    assert_eq!(*calls.borrow(), 1);
}

#[test]
fn receipt_without_id_is_a_violation() {
    let mut session = Session::new(0, 0);
    assert_eq!(
        session.readable(b"RECEIPT\n\n\0", 0),
        Inbound::Fatal(ProtocolViolation::MissingReceiptId)
    );
}

#[test]
fn receipt_for_unknown_id_is_a_violation() {
    let mut session = Session::new(0, 0);
    assert_eq!(
        session.readable(b"RECEIPT\nreceipt-id:9\n\n\0", 0),
        Inbound::Fatal(ProtocolViolation::UnknownReceipt)
    );
}

#[test]
fn message_without_subscription_is_a_violation() {
    let mut session = Session::new(0, 0);
    assert_eq!(
        session.readable(b"MESSAGE\nmessage-id:1\n\n\0", 0),
        Inbound::Fatal(ProtocolViolation::MissingSubscription)
    );
}

#[test]
fn message_for_unknown_subscription_is_a_violation() {
    let mut session = Session::new(0, 0);
    assert_eq!(
        session.readable(b"MESSAGE\nsubscription:4\n\n\0", 0),
        Inbound::Fatal(ProtocolViolation::UnknownSubscription)
    );
}

#[test]
fn message_without_ack_header_under_client_mode_is_a_violation() {
    let mut session = Session::new(0, 0);
    let (handler, bodies) = recorder(AckOrNack::Ack);
    session
        .subscription(b"/q/y", handler)
        .with_ack_mode(AckMode::Client)
        .start()
        .unwrap();
    session.take_output();
    assert_eq!(
        session.readable(b"MESSAGE\nsubscription:0\n\nx\0\n", 0),
        Inbound::Fatal(ProtocolViolation::MissingAck)
    );
    assert_eq!(bodies.borrow().len(), 1);
    assert!(session.output().is_empty());
}

#[test]
fn acknowledgement_on_a_lost_connection_is_a_violation() {
    let mut session = Session::new(0, 0);
    let (handler, _) = recorder(AckOrNack::Ack);
    session
        .subscription(b"/q/y", handler)
        .with_ack_mode(AckMode::Client)
        .start()
        .unwrap();
    session.connection_lost();
    let mut frame = Frame::send(b"/q/y", b"x");
    frame.command = b"MESSAGE".to_vec();
    frame.headers.add(b"subscription", b"0");
    frame.headers.add(b"ack", b"a1");
    assert_eq!(session.dispatch(&frame), Err(ProtocolViolation::AckNotSent));
}

#[test]
fn violation_stops_the_work_and_keeps_what_follows() {
    let mut session = Session::new(0, 0);
    let (handler, calls) = counter();
    session.on_error(handler);
    assert_eq!(
        session.readable(b"ERROR\n\n\0RECEIPT\n\n\0ERROR\n\n\0", 0),
        Inbound::Fatal(ProtocolViolation::MissingReceiptId)
    );
    assert_eq!(*calls.borrow(), 1);
    assert_eq!(session.readable(b"\n", 0), Inbound::Handled);
    assert_eq!(*calls.borrow(), 2);
}

#[test]
fn frame_crossing_a_read_boundary() {
    let mut session = Session::new(0, 0);
    let (handler, bodies) = recorder(AckOrNack::Ack);
    session.subscription(b"/q/y", handler).start().unwrap();
    assert_eq!(session.readable(b"MESSAGE\nsubscription:0\nconte", 0), Inbound::Handled);
    assert_eq!(session.readable(b"nt-length:4\n\na\0", 0), Inbound::Handled);
    assert!(bodies.borrow().is_empty());
    assert_eq!(session.readable(b"bc\0MESSAGE\nsubscription:0\n\n\0", 0), Inbound::Handled);
    assert_eq!(*bodies.borrow(), vec![b"a\0bc".to_vec(), Vec::new()]);
}

#[test]
fn body_as_long_as_the_read_buffer() {
    let mut session = Session::new(0, 0);
    let (handler, bodies) = recorder(AckOrNack::Ack);
    session.subscription(b"/q/y", handler).start().unwrap();
    let body = vec![7u8; 65536];
    let mut inbound = b"MESSAGE\nsubscription:0\ncontent-length:65536\n\n".to_vec();
    inbound.extend_from_slice(&body);
    inbound.push(0);
    for chunk in inbound.chunks(65536) {
        assert_eq!(session.readable(chunk, 0), Inbound::Handled);
    }
    assert_eq!(bodies.borrow().len(), 1);
    assert_eq!(bodies.borrow()[0], body);
}

#[test]
fn transaction_frames() {
    let mut session = Session::new(0, 0);
    {
        let mut transaction = session.begin_transaction().unwrap();
        assert_eq!(transaction.id, b"tx/0".to_vec());
        transaction.message(b"/q/x", b"hi").send().unwrap();
        transaction.commit().unwrap();
    }
    assert_eq!(
        session.take_output(),
        b"BEGIN\ntransaction:tx/0\n\n\0SEND\ndestination:/q/x\ntransaction:tx/0\ncontent-length:2\n\nhi\0COMMIT\ntransaction:tx/0\n\n\0"
            .to_vec()
    );
    {
        let transaction = session.begin_transaction().unwrap();
        assert_eq!(transaction.id, b"tx/1".to_vec());
        transaction.abort().unwrap();
    }
    assert_eq!(
        session.take_output(),
        b"BEGIN\ntransaction:tx/1\n\n\0ABORT\ntransaction:tx/1\n\n\0".to_vec()
    );
}

#[test]
fn message_with_header() {
    let mut session = Session::new(0, 0);
    session
        .message(b"/q/x", b"a\0b")
        .with_header(b"persistent", b"true")
        .send()
        .unwrap();
    assert_eq!(
        session.take_output(),
        b"SEND\ndestination:/q/x\npersistent:true\ncontent-length:3\n\na\0b\0".to_vec()
    );
}

#[test]
fn odd_intervals_are_halved_down_and_doubled() {
    let session = Session::new(1001, 4294967295);
    assert_eq!(session.tx_heartbeat_ms(), 500);
    assert_eq!(session.rx_heartbeat_ms(), 8589934590);
    let small = Session::new(1, 1);
    assert_eq!(small.tx_heartbeat_ms(), 0);
    assert_eq!(small.rx_heartbeat_ms(), 2);
}

#[test]
fn failures_in_words() {
    assert_eq!(
        ConnectionLost.message(),
        "Could not send frame: the connection to the server was lost."
    );
    assert_eq!(
        ProtocolViolation::MissingReceiptId.message(),
        "Received RECEIPT frame without a receipt-id"
    );
    assert_eq!(ProtocolViolation::UnknownReceipt.message(), "Received unexpected RECEIPT");
    assert_eq!(
        ProtocolViolation::MissingSubscription.message(),
        "Frame did not contain a subscription header."
    );
    assert_eq!(
        ProtocolViolation::UnknownSubscription.message(),
        "Received a message for an unknown subscription."
    );
    assert_eq!(
        ProtocolViolation::MissingAck.message(),
        "Message did not have an 'ack' header."
    );
    assert_eq!(
        ProtocolViolation::AckNotSent.message(),
        "Could not acknowledge frame: the connection to the server was lost."
    );
}

#[test]
fn replaced_handlers_are_the_ones_called() {
    let mut session = Session::new(0, 0);
    let (first, first_calls) = counter();
    let (second, second_calls) = counter();
    session.on_error(first);
    assert_eq!(session.readable(b"ERROR\n\n\0", 0), Inbound::Handled);
    session.on_error(second);
    assert_eq!(session.readable(b"ERROR\n\n\0ERROR\n\n\0", 0), Inbound::Handled);
    assert_eq!(*first_calls.borrow(), 1);
    assert_eq!(*second_calls.borrow(), 2);
}

#[test]
fn messages_go_to_the_handler_of_their_subscription() {
    let mut session = Session::new(0, 0);
    let (first, first_bodies) = recorder(AckOrNack::Ack);
    let (second, second_bodies) = recorder(AckOrNack::Ack);
    let a = session.subscription(b"/q/a", first).start().unwrap();
    let b = session.subscription(b"/q/b", second).start().unwrap();
    assert_eq!((a, b), (b"0".to_vec(), b"1".to_vec()));
    let inbound = b"MESSAGE\nsubscription:1\n\none\0MESSAGE\nsubscription:0\n\ntwo\0MESSAGE\nsubscription:1\n\nthree\0";
    assert_eq!(session.readable(inbound, 0), Inbound::Handled);
    assert_eq!(*first_bodies.borrow(), vec![b"two".to_vec()]);
    assert_eq!(*second_bodies.borrow(), vec![b"one".to_vec(), b"three".to_vec()]);
}

#[test]
fn installing_a_handler_replaces_the_one_before() {
    struct Tag(&'static [u8]);
    impl FrameHandlerMut for Tag {
        fn on_frame(&mut self, frame: &mut Frame) {
            frame.headers.add(b"tag", self.0);
        }
    }
    let mut session = Session::new(0, 0);
    session.on_before_send(Tag(b"one"));
    session.send(Frame::ack(b"a")).unwrap();
    session.on_before_send(Tag(b"two"));
    session.send(Frame::ack(b"b")).unwrap();
    assert_eq!(
        session.take_output(),
        b"ACK\nid:a\ntag:one\n\n\0ACK\nid:b\ntag:two\n\n\0".to_vec()
    );
    let (errors, calls) = counter();
    session.on_error(errors);
    session.on_before_receive(Tag(b"in"));
    session.on_before_receive(Stamp);
    assert_eq!(session.readable(b"ERROR\n\n\0", 0), Inbound::Handled);
    assert_eq!(*calls.borrow(), 1);
    session.send(Frame::ack(b"c")).unwrap();
    assert_eq!(session.take_output(), b"ACK\nid:c\ntag:two\n\n\0".to_vec());
}

#[test]
fn reconnect_keeps_every_handler() {
    let mut session = Session::new(0, 0);
    let (errors, error_calls) = counter();
    let (first, first_bodies) = recorder(AckOrNack::Ack);
    let (second, second_bodies) = recorder(AckOrNack::Ack);
    let (waiting, receipt_calls) = counter();
    session.on_error(errors);
    session.on_before_send(Stamp);
    session.subscription(b"/q/a", first).start().unwrap();
    session.subscription(b"/q/b", second).start().unwrap();
    session
        .message(b"/q/a", b"")
        .with_receipt(ReceiptHandler::new(waiting))
        .send()
        .unwrap();
    session.take_output();
    assert_eq!(session.readable(b"", 0), Inbound::Reconnect);
    let negotiated = Negotiated { tx_heartbeat_ms: 0, rx_heartbeat_ms: 0 };
    assert_eq!(session.reconnect(Some(negotiated), 0), Reconnect::Resumed);
    assert_eq!(
        session.take_output(),
        b"SUBSCRIBE\ndestination:/q/a\nid:0\nack:auto\nstamp:1\n\n\0SUBSCRIBE\ndestination:/q/b\nid:1\nack:auto\nstamp:1\n\n\0"
            .to_vec()
    );
    let inbound = b"ERROR\n\n\0MESSAGE\nsubscription:1\n\nb\0MESSAGE\nsubscription:0\n\na\0RECEIPT\nreceipt-id:0\n\n\0";
    assert_eq!(session.readable(inbound, 0), Inbound::Handled);
    assert_eq!(*error_calls.borrow(), 1);
    assert_eq!(*first_bodies.borrow(), vec![b"a".to_vec()]);
    assert_eq!(*second_bodies.borrow(), vec![b"b".to_vec()]);
    assert_eq!(*receipt_calls.borrow(), 1);
}

#[test]
fn a_decision_is_a_handler() {
    let mut session = Session::new(0, 0);
    session
        .subscription(b"/q/a", AckOrNack::Nack)
        .with_ack_mode(AckMode::Client)
        .start()
        .unwrap();
    session
        .subscription(b"/q/b", AckOrNack::Ack)
        .with_ack_mode(AckMode::ClientIndividual)
        .start()
        .unwrap();
    session.take_output();
    let inbound = b"MESSAGE\nsubscription:0\nack:x\n\n\0MESSAGE\nsubscription:1\nack:y\n\n\0";
    assert_eq!(session.readable(inbound, 0), Inbound::Handled);
    assert_eq!(session.take_output(), b"NACK\nid:x\n\n\0ACK\nid:y\n\n\0".to_vec());
}
