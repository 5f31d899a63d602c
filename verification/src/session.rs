//! The session: the long-lived state of one client connection.
//!
//! The session does no I/O. Inbound bytes are handed to it, outbound bytes
//! collect in its outbox, and its timers run on a clock that the caller
//! supplies. Whoever owns the socket moves the bytes and tells the time.

use vstd::prelude::*;
use crate::bytes::{ascii, ascii_bytes, bytes_eq, to_vec};
use crate::codec::{
    lemma_account_end, lemma_account_start, lemma_account_step, spec_account, spec_parse,
    spec_taken, TransmissionSpec,
};
use crate::frame::{
    Frame, FrameSpec, LF, spec_ack, spec_begin, spec_disconnect, spec_encode, spec_nack, spec_send,
    spec_unsubscribe, Transmission,
};
use crate::frame_buffer::FrameBuffer;
use crate::header::{HeaderList, HeaderSpec, spec_lookup};
use crate::message_builder::MessageBuilder;
use crate::model::{
    Call, dispatched, drain_step, drained, lemma_armed, lemma_cleared, lemma_dispatched_keeps,
    lemma_drained_all, lemma_drained_step, lemma_popped, lemma_rx_count, received, Route, sent,
    SessionSpec, spec_acknowledgement, spec_encode_all, spec_next_id, spec_replay_calls,
    spec_resubscribe, spec_route, spec_rx_period, spec_tx_period, steps_handled,
};
use crate::registry::{
    Entries, lemma_find, lemma_insert, lemma_map_find, lemma_map_insert, lemma_map_remove,
    lemma_remove, map_entries, Registry, spec_contains, spec_find, spec_insert, spec_remove,
};
use crate::subscription::{
    AckMode, AckOrNack, Installed, Stored, Subscription, SubscriptionSpec, ToMessageHandler,
};
use crate::subscription_builder::SubscriptionBuilder;
use crate::timer::{
    holds, lemma_earliest, spec_count, spec_due, spec_earliest, Timeout, Timer, Timers,
};
use crate::transaction::{spec_transaction_id, Transaction};

verus! {

/// What a timer of the session is for.
#[derive(Clone, Copy, Debug, PartialEq, Eq, Structural)]
pub enum StompTimeout {
    /// Time to send a heartbeat.
    SendHeartBeat,
    /// The peer has been silent for longer than it promised.
    ReceiveHeartBeat,
}

/// What the user supplies to look at a frame.
pub trait FrameHandler {
    /// Called with the frame to look at.
    fn on_frame(&mut self, frame: &Frame);
}

/// What the user supplies to look at a frame and change it.
pub trait FrameHandlerMut {
    /// Called with the frame to look at; what the handler leaves of the
    /// frame is what the session goes on with.
    fn on_frame(&mut self, frame: &mut Frame);
}

/// A frame handler as the session stores it.
pub type BoxedFrameHandler<'a> = Stored<Box<dyn FrameHandler + 'a>>;

/// A changing frame handler as the session stores it.
pub type BoxedFrameHandlerMut<'a> = Stored<Box<dyn FrameHandlerMut + 'a>>;

/// What can be turned into a stored frame handler.
pub trait ToFrameHandler<'a> {
    fn to_frame_handler(self) -> BoxedFrameHandler<'a>;
}

/// What can be turned into a stored changing frame handler.
pub trait ToFrameHandlerMut<'a> {
    fn to_frame_handler_mut(self) -> BoxedFrameHandlerMut<'a>;
}

/// A frame handler as it is stored: the handler itself, behind a pointer
/// that hides its type.
pub open spec fn stored_frame_handler<'a, T: FrameHandler + 'a>(handler: T) -> BoxedFrameHandler<
    'a,
> {
    Stored {
        handler: Box::new(handler),
        installed: Ghost(Installed { handler: Box::new(handler) }),
    }
}

/// A changing frame handler as it is stored: the handler itself, behind a
/// pointer that hides its type.
pub open spec fn stored_frame_handler_mut<'a, T: FrameHandlerMut + 'a>(
    handler: T,
) -> BoxedFrameHandlerMut<'a> {
    Stored {
        handler: Box::new(handler),
        installed: Ghost(Installed { handler: Box::new(handler) }),
    }
}

impl<'a, T: 'a> ToFrameHandler<'a> for T where T: FrameHandler {
    fn to_frame_handler(self) -> (r: BoxedFrameHandler<'a>)
        ensures
            r == stored_frame_handler(self),
    {
        let ghost as_stored = stored_frame_handler(self);
        let r: BoxedFrameHandler<'a> = Stored {
            handler: Box::new(self),
            installed: Ghost(as_stored.installed@),
        };
        r
    }
}

impl<'a, T: 'a> ToFrameHandlerMut<'a> for T where T: FrameHandlerMut {
    fn to_frame_handler_mut(self) -> (r: BoxedFrameHandlerMut<'a>)
        ensures
            r == stored_frame_handler_mut(self),
    {
        let ghost as_stored = stored_frame_handler_mut(self);
        let r: BoxedFrameHandlerMut<'a> = Stored {
            handler: Box::new(self),
            installed: Ghost(as_stored.installed@),
        };
        r
    }
}

/// A handler that leaves every frame alone: what a new session calls until
/// the user installs handlers of their own.
pub struct Ignore;

impl FrameHandler for Ignore {
    fn on_frame(&mut self, frame: &Frame) {
    }
}

impl FrameHandlerMut for Ignore {
    fn on_frame(&mut self, frame: &mut Frame) {
    }
}

/// A handler to be called once, when the receipt for a frame arrives.
pub struct ReceiptHandler<'a, T> where T: 'a + ToFrameHandler<'a> {
    /// What is to be called.
    pub handler: T,
    /// Ties the handler to the lifetime of the session that will call it.
    pub _marker: core::marker::PhantomData<&'a T>,
}

impl<'a, T> ReceiptHandler<'a, T> where T: 'a + ToFrameHandler<'a> {
    /// Wraps what is to be called when the receipt arrives.
    pub fn new(val: T) -> (r: ReceiptHandler<'a, T>)
        ensures
            r.handler == val,
    {
        ReceiptHandler { handler: val, _marker: core::marker::PhantomData }
    }
}

/// The one way in which sending fails: the connection to the server is
/// lost.
#[derive(Clone, Copy, Debug, PartialEq, Eq, Structural)]
pub struct ConnectionLost;

/// The ways in which an inbound frame can break the protocol. Each is fatal
/// to the session.
#[derive(Clone, Copy, Debug, PartialEq, Eq, Structural)]
pub enum ProtocolViolation {
    /// A RECEIPT frame without a `receipt-id` header.
    MissingReceiptId,
    /// A RECEIPT frame for a receipt that nobody waits for.
    UnknownReceipt,
    /// A message frame without a `subscription` header.
    MissingSubscription,
    /// A message frame for a subscription that does not exist.
    UnknownSubscription,
    /// A message that has to be acknowledged and has no `ack` header.
    MissingAck,
    /// The acknowledgement of a message could not be sent.
    AckNotSent,
}

impl ConnectionLost {
    /// What is wrong, in words.
    pub fn message(&self) -> (r: String)
        ensures
            r@ == "Could not send frame: the connection to the server was lost."@,
    {
        "Could not send frame: the connection to the server was lost.".to_owned()
    }
}

impl ProtocolViolation {
    /// What is wrong, in words.
    pub open spec fn spec_message(self) -> Seq<char> {
        match self {
            ProtocolViolation::MissingReceiptId => "Received RECEIPT frame without a receipt-id"@,
            ProtocolViolation::UnknownReceipt => "Received unexpected RECEIPT"@,
            ProtocolViolation::MissingSubscription => "Frame did not contain a subscription header."@,
            ProtocolViolation::UnknownSubscription => "Received a message for an unknown subscription."@,
            ProtocolViolation::MissingAck => "Message did not have an 'ack' header."@,
            ProtocolViolation::AckNotSent => "Could not acknowledge frame: the connection to the server was lost."@,
        }
    }

    /// What is wrong, in words.
    pub fn message(&self) -> (r: String)
        ensures
            r@ == self.spec_message(),
    {
        match self {
            ProtocolViolation::MissingReceiptId => "Received RECEIPT frame without a receipt-id".to_owned(),
            ProtocolViolation::UnknownReceipt => "Received unexpected RECEIPT".to_owned(),
            ProtocolViolation::MissingSubscription => "Frame did not contain a subscription header.".to_owned(),
            ProtocolViolation::UnknownSubscription => "Received a message for an unknown subscription.".to_owned(),
            ProtocolViolation::MissingAck => "Message did not have an 'ack' header.".to_owned(),
            ProtocolViolation::AckNotSent => "Could not acknowledge frame: the connection to the server was lost.".to_owned(),
        }
    }
}

/// How long a reconnect waits after a failed attempt, in milliseconds.
pub const RECONNECT_DELAY_MS: u64 = 3000;

/// How many bytes are read from the socket at a time.
pub const READ_BUFFER_SIZE: usize = 65536;

/// By how much the receive watchdog outlasts the negotiated receive
/// interval.
pub const GRACE_FACTOR: u64 = 2;

/// What makes the value of a subscription from the subscription.
pub open spec fn subscription_view<'a>() -> spec_fn(Subscription<'a>) -> SubscriptionSpec {
    |s: Subscription<'a>| s@
}

/// The values of the registered subscriptions, by identifier.
pub open spec fn subscription_views<'a>(entries: Entries<Subscription<'a>>) -> Entries<
    SubscriptionSpec,
> {
    map_entries(entries, subscription_view())
}

/// What forgets a receipt handler.
pub open spec fn receipt_mark<'a>() -> spec_fn(BoxedFrameHandler<'a>) -> () {
    |h: BoxedFrameHandler<'a>| ()
}

/// The identifiers of the registered receipt handlers.
pub open spec fn receipt_ids<'a>(entries: Entries<BoxedFrameHandler<'a>>) -> Entries<()> {
    map_entries(entries, receipt_mark())
}

/// The handlers that a session holds, each as it stands: a handler that was
/// called is what the call has left of it.
pub struct Handlers<'a> {
    /// The handler that is called with every ERROR frame.
    pub error: BoxedFrameHandler<'a>,
    /// The handler that sees every frame before it is sent.
    pub before_send: BoxedFrameHandlerMut<'a>,
    /// The handler that sees every inbound frame before it is dispatched.
    pub before_receive: BoxedFrameHandlerMut<'a>,
    /// The active subscriptions with their handlers, by identifier.
    pub subscriptions: Entries<Subscription<'a>>,
    /// The handlers that wait for a receipt, by the receipt's identifier.
    pub receipts: Entries<BoxedFrameHandler<'a>>,
}

impl<'a> Handlers<'a> {
    /// Whether `after` holds what this holds, except that the before-send
    /// handler, still the same, may have been called.
    pub open spec fn but_before_send(self, after: Handlers<'a>) -> bool {
        &&& after == (Handlers { before_send: after.before_send, ..self })
        &&& after.before_send.is_still(self.before_send)
    }
}

impl<'a> Handlers<'a> {
    /// Whether `after` holds the handlers that this holds, each in its place
    /// and still the handler that it was, whatever calls have made of it;
    /// but for the handlers that wait for a receipt, of which those are left
    /// whose receipt has not come, as they were.
    #[verifier::opaque]
    pub open spec fn still(self, after: Handlers<'a>) -> bool {
        &&& after.error.is_still(self.error)
        &&& after.before_send.is_still(self.before_send)
        &&& after.before_receive.is_still(self.before_receive)
        &&& after.subscriptions.len() == self.subscriptions.len()
        &&& forall|j: int|
            0 <= j < self.subscriptions.len() ==> {
                &&& (#[trigger] after.subscriptions[j]).0 == self.subscriptions[j].0
                &&& after.subscriptions[j].1@ == self.subscriptions[j].1@
                &&& after.subscriptions[j].1.handler.is_still(self.subscriptions[j].1.handler)
            }
        &&& forall|j: int|
            0 <= j < after.receipts.len() ==> self.receipts.contains(#[trigger] after.receipts[j])
    }

    /// Handlers that were not touched are still what they were.
    pub proof fn lemma_still_same(self)
        ensures
            self.still(self),
    {
        reveal(Handlers::still);
        assert forall|j: int| 0 <= j < self.receipts.len() implies self.receipts.contains(
            #[trigger] self.receipts[j],
        ) by {}
    }

    /// Taking in one more transmission leaves the handlers still what they
    /// were.
    pub proof fn lemma_still_received(
        self,
        before: SessionSpec,
        transmission: TransmissionSpec,
        held: Handlers<'a>,
        after: Handlers<'a>,
    )
        requires
            self.still(held),
            received_handlers(before, transmission, held, after),
        ensures
            self.still(after),
    {
        reveal(Handlers::still);
        match transmission {
            TransmissionSpec::CompleteFrame(f) => {
                let g = choose|g: FrameSpec|
                    #[trigger] dispatched_handlers(
                        before,
                        g,
                        Handlers { before_receive: after.before_receive, ..held },
                        after,
                    );
                match spec_route(g, before) {
                    Route::Receipt(id) => {
                        let i = spec_find(held.receipts, id, 0);
                        lemma_find(held.receipts, id, 0);
                        assert forall|j: int| 0 <= j < after.receipts.len() implies self.receipts.contains(
                            #[trigger] after.receipts[j],
                        ) by {
                            if i == -1 {
                                assert(after.receipts[j] == held.receipts[j]);
                            } else if j < i {
                                assert(after.receipts[j] == held.receipts[j]);
                            } else {
                                assert(after.receipts[j] == held.receipts[j + 1]);
                            }
                        }
                    },
                    Route::Message(id) => {
                        let i = spec_find(held.subscriptions, id, 0);
                        assert forall|j: int| 0 <= j < self.subscriptions.len() implies {
                            &&& (#[trigger] after.subscriptions[j]).0 == self.subscriptions[j].0
                            &&& after.subscriptions[j].1@ == self.subscriptions[j].1@
                            &&& after.subscriptions[j].1.handler.is_still(
                                self.subscriptions[j].1.handler,
                            )
                        } by {
                            assert(held.subscriptions[j].0 == self.subscriptions[j].0);
                            lemma_find(held.subscriptions, id, 0);
                            if j != i {
                                assert(after.subscriptions[j] == held.subscriptions[j]);
                            }
                        }
                    },
                    _ => {},
                }
            },
            _ => {},
        }
    }
}

/// What dispatching one frame does to the handlers that a session holds.
///
/// An ERROR frame leaves all but the error handler, which was called. A
/// RECEIPT frame takes the handler that waited for it out of the table. A
/// frame that breaks the protocol leaves everything. A message leaves all
/// but the handler of the subscription that it names, which was called and
/// stays in its place with the subscription's data, and the before-send
/// handler, which sees the acknowledgement. A handler that was called is
/// still the handler that it was.
pub open spec fn dispatched_handlers<'a>(
    before: SessionSpec,
    frame: FrameSpec,
    held: Handlers<'a>,
    after: Handlers<'a>,
) -> bool {
    match spec_route(frame, before) {
        Route::Error => after == (Handlers { error: after.error, ..held }) && after.error.is_still(
            held.error,
        ),
        Route::Receipt(id) => after == (Handlers {
            receipts: spec_remove(held.receipts, id),
            ..held
        }),
        Route::Violation(v) => after == held,
        Route::Message(id) => {
            let i = spec_find(held.subscriptions, id, 0);
            &&& 0 <= i < held.subscriptions.len()
            &&& after == (Handlers {
                before_send: after.before_send,
                subscriptions: held.subscriptions.update(i, (id, after.subscriptions[i].1)),
                ..held
            })
            &&& after.before_send.is_still(held.before_send)
            &&& after.subscriptions[i].1@ == held.subscriptions[i].1@
            &&& after.subscriptions[i].1.handler.is_still(held.subscriptions[i].1.handler)
        },
    }
}

/// What taking in one transmission does to the handlers that a session
/// holds: a heartbeat and the end of the stream leave them; with a frame the
/// before-receive handler, still the same, may have been called, and the
/// rest is as the dispatch of one frame leaves it. Which frame that is
/// remains open.
pub open spec fn received_handlers<'a>(
    before: SessionSpec,
    transmission: TransmissionSpec,
    held: Handlers<'a>,
    after: Handlers<'a>,
) -> bool {
    match transmission {
        TransmissionSpec::CompleteFrame(f) => after.before_receive.is_still(held.before_receive)
            && exists|g: FrameSpec|
            #[trigger] dispatched_handlers(
                before,
                g,
                Handlers { before_receive: after.before_receive, ..held },
                after,
            ),
        _ => after == held,
    }
}

/// The state of one client connection.
pub struct Session<'a> {
    connected: bool,
    frame_buffer: FrameBuffer,
    outbox: Vec<u8>,
    next_transaction_id: u32,
    next_subscription_id: u32,
    next_receipt_id: u32,
    rx_heartbeat_ms: u64,
    rx_heartbeat_timeout: Option<Timeout>,
    tx_heartbeat_ms: u64,
    tx_heartbeat_timeout: Option<Timeout>,
    timers: Timers,
    subscriptions: Registry<Subscription<'a>>,
    receipt_handlers: Registry<BoxedFrameHandler<'a>>,
    error_callback: BoxedFrameHandler<'a>,
    frame_send_callback: BoxedFrameHandlerMut<'a>,
    frame_receive_callback: BoxedFrameHandlerMut<'a>,
    calls: Ghost<Seq<Call>>,
}

impl<'a> View for Session<'a> {
    type V = SessionSpec;

    closed spec fn view(&self) -> SessionSpec {
        SessionSpec {
            connected: self.connected,
            pending: self.frame_buffer.pending(),
            outbox: self.outbox@,
            next_transaction_id: self.next_transaction_id,
            next_subscription_id: self.next_subscription_id,
            next_receipt_id: self.next_receipt_id,
            tx_heartbeat_ms: self.tx_heartbeat_ms,
            rx_heartbeat_ms: self.rx_heartbeat_ms,
            tx_heartbeat_timeout: self.tx_heartbeat_timeout,
            rx_heartbeat_timeout: self.rx_heartbeat_timeout,
            timers: self.timers@,
            subscriptions: subscription_views(self.subscriptions@),
            receipts: receipt_ids(self.receipt_handlers@),
            calls: self.calls@,
        }
    }
}

impl<'a> Session<'a> {
    /// Whether the session is valid: its value is well formed, and its
    /// tables are in order.
    pub closed spec fn wf(&self) -> bool {
        &&& self@.well_formed()
        &&& self.subscriptions.wf()
        &&& self.receipt_handlers.wf()
        &&& !self.frame_buffer.is_closed()
    }

    /// The handlers that the session holds, as they stand.
    pub closed spec fn handlers(&self) -> Handlers<'a> {
        Handlers {
            error: self.error_callback,
            before_send: self.frame_send_callback,
            before_receive: self.frame_receive_callback,
            subscriptions: self.subscriptions@,
            receipts: self.receipt_handlers@,
        }
    }

    /// The handler that is called with every ERROR frame, as it stands.
    pub open spec fn error_handler(&self) -> BoxedFrameHandler<'a> {
        self.handlers().error
    }

    /// The handler that sees every frame before it is sent, as it stands.
    pub open spec fn before_send_handler(&self) -> BoxedFrameHandlerMut<'a> {
        self.handlers().before_send
    }

    /// The handler that sees every inbound frame before it is dispatched, as
    /// it stands.
    pub open spec fn before_receive_handler(&self) -> BoxedFrameHandlerMut<'a> {
        self.handlers().before_receive
    }

    /// The session's value lists the subscriptions and the pending receipts
    /// that its tables of handlers hold.
    pub proof fn lemma_tables(&self)
        ensures
            self@.subscriptions == subscription_views(self.handlers().subscriptions),
            self@.receipts == receipt_ids(self.handlers().receipts),
    {
    }

    /// A valid session has a well-formed value.
    pub proof fn lemma_wf(&self)
        requires
            self.wf(),
        ensures
            self@.well_formed(),
    {
    }
}

impl<'a> Session<'a> {
    /// A session on a live connection with the negotiated heartbeat
    /// intervals, in milliseconds. It has sent and received nothing, knows
    /// no subscription, waits for no receipt, and has no timer armed. Its
    /// three handlers leave every frame alone.
    pub fn new(tx_heartbeat_ms: u32, rx_heartbeat_ms: u32) -> (r: Session<'a>)
        ensures
            r.wf(),
            r@ == (SessionSpec {
                connected: true,
                pending: Seq::<u8>::empty(),
                outbox: Seq::<u8>::empty(),
                next_transaction_id: 0,
                next_subscription_id: 0,
                next_receipt_id: 0,
                tx_heartbeat_ms: spec_tx_period(tx_heartbeat_ms),
                rx_heartbeat_ms: spec_rx_period(rx_heartbeat_ms),
                tx_heartbeat_timeout: None,
                rx_heartbeat_timeout: None,
                timers: Seq::<Option<Timer>>::empty(),
                subscriptions: Seq::<(Seq<u8>, SubscriptionSpec)>::empty(),
                receipts: Seq::<(Seq<u8>, ())>::empty(),
                calls: Seq::<Call>::empty(),
            }),
            r.handlers() == (Handlers {
                error: stored_frame_handler(Ignore),
                before_send: stored_frame_handler_mut(Ignore),
                before_receive: stored_frame_handler_mut(Ignore),
                subscriptions: Seq::<(Seq<u8>, Subscription<'a>)>::empty(),
                receipts: Seq::<(Seq<u8>, BoxedFrameHandler<'a>)>::empty(),
            }),
    {
        let r = Session {
            connected: true,
            frame_buffer: FrameBuffer::new(),
            outbox: Vec::new(),
            next_transaction_id: 0,
            next_subscription_id: 0,
            next_receipt_id: 0,
            rx_heartbeat_ms: (rx_heartbeat_ms as u64) * GRACE_FACTOR,
            rx_heartbeat_timeout: None,
            tx_heartbeat_ms: (tx_heartbeat_ms / 2) as u64,
            tx_heartbeat_timeout: None,
            timers: Timers::new(),
            subscriptions: Registry::new(),
            receipt_handlers: Registry::new(),
            error_callback: Ignore.to_frame_handler(),
            frame_send_callback: Ignore.to_frame_handler_mut(),
            frame_receive_callback: Ignore.to_frame_handler_mut(),
            calls: Ghost(Seq::empty()),
        };
        assert(r@.subscriptions =~= Seq::<(Seq<u8>, SubscriptionSpec)>::empty());
        assert(r@.receipts =~= Seq::<(Seq<u8>, ())>::empty());
        assert(r@.outbox =~= Seq::<u8>::empty());
        r
    }

    /// Whether the connection is alive.
    pub fn is_connected(&self) -> (r: bool)
        ensures
            r == self@.connected,
    {
        self.connected
    }

    /// The period of the send timer, in milliseconds; zero for none.
    pub fn tx_heartbeat_ms(&self) -> (r: u64)
        ensures
            r == self@.tx_heartbeat_ms,
    {
        self.tx_heartbeat_ms
    }

    /// The period of the receive watchdog, in milliseconds; zero for none.
    pub fn rx_heartbeat_ms(&self) -> (r: u64)
        ensures
            r == self@.rx_heartbeat_ms,
    {
        self.rx_heartbeat_ms
    }

    /// The active subscriptions.
    pub fn subscriptions(&self) -> (r: &Registry<Subscription<'a>>)
        ensures
            r@ == self.handlers().subscriptions,
            subscription_views(r@) == self@.subscriptions,
            self.wf() ==> r.wf(),
    {
        &self.subscriptions
    }

    /// The reactor's timer table.
    pub fn timers(&self) -> (r: &Timers)
        ensures
            r@ == self@.timers,
    {
        &self.timers
    }

    /// The outbound bytes that wait to be written to the socket.
    pub fn output(&self) -> (r: &Vec<u8>)
        ensures
            r@ == self@.outbox,
    {
        &self.outbox
    }

    /// Hands over the outbound bytes that wait to be written to the socket,
    /// and leaves none waiting.
    pub fn take_output(&mut self) -> (r: Vec<u8>)
        ensures
            final(self).handlers() == old(self).handlers(),
            r@ == old(self)@.outbox,
            final(self)@ == (SessionSpec { outbox: Seq::<u8>::empty(), ..old(self)@ }),
            old(self).wf() ==> final(self).wf(),
    {
        let mut out: Vec<u8> = Vec::new();
        core::mem::swap(&mut out, &mut self.outbox);
        out
    }

    /// The identifiers of the receipts that are waited for, oldest first.
    pub fn outstanding_receipts(&self) -> (r: Vec<Vec<u8>>)
        ensures
            r@.len() == self@.receipts.len(),
            forall|i: int| 0 <= i < r@.len() ==> (#[trigger] r@[i])@ == self@.receipts[i].0,
    {
        self.receipt_handlers.keys()
    }

    /// Takes the next transaction identifier.
    pub fn generate_transaction_id(&mut self) -> (r: u32)
        ensures
            final(self).handlers() == old(self).handlers(),
            r == old(self)@.next_transaction_id,
            final(self)@ == (SessionSpec {
                next_transaction_id: spec_next_id(old(self)@.next_transaction_id),
                ..old(self)@
            }),
            old(self).wf() ==> final(self).wf(),
    {
        let id = self.next_transaction_id;
        self.next_transaction_id = id.wrapping_add(1);
        id
    }

    /// Takes the next subscription identifier.
    pub fn generate_subscription_id(&mut self) -> (r: u32)
        ensures
            final(self).handlers() == old(self).handlers(),
            r == old(self)@.next_subscription_id,
            final(self)@ == (SessionSpec {
                next_subscription_id: spec_next_id(old(self)@.next_subscription_id),
                ..old(self)@
            }),
            old(self).wf() ==> final(self).wf(),
    {
        let id = self.next_subscription_id;
        self.next_subscription_id = id.wrapping_add(1);
        id
    }

    /// Takes the next receipt identifier.
    pub fn generate_receipt_id(&mut self) -> (r: u32)
        ensures
            final(self).handlers() == old(self).handlers(),
            r == old(self)@.next_receipt_id,
            final(self)@ == (SessionSpec {
                next_receipt_id: spec_next_id(old(self)@.next_receipt_id),
                ..old(self)@
            }),
            old(self).wf() ==> final(self).wf(),
    {
        let id = self.next_receipt_id;
        self.next_receipt_id = id.wrapping_add(1);
        id
    }

    /// Installs the handler that is called with every ERROR frame: what the
    /// given value turns into takes the place of the handler that was there.
    /// The other handlers stay, and so does everything else.
    pub fn on_error<T: 'a>(&mut self, handler_convertible: T) where T: ToFrameHandler<'a> + 'a
        ensures
            call_ensures(
                <T as ToFrameHandler<'a>>::to_frame_handler,
                (handler_convertible,),
                final(self).error_handler(),
            ),
            final(self).handlers() == (Handlers {
                error: final(self).error_handler(),
                ..old(self).handlers()
            }),
            final(self)@ == old(self)@,
            old(self).wf() ==> final(self).wf(),
    {
        let convert = <T as ToFrameHandler<'a>>::to_frame_handler;
        self.error_callback = convert(handler_convertible);
    }

    /// Installs the handler that may change every frame before it is sent:
    /// what the given value turns into takes the place of the handler that
    /// was there. The other handlers stay, and so does everything else.
    pub fn on_before_send<T: 'a>(&mut self, handler_convertible: T) where
        T: ToFrameHandlerMut<'a> + 'a,

        ensures
            call_ensures(
                <T as ToFrameHandlerMut<'a>>::to_frame_handler_mut,
                (handler_convertible,),
                final(self).before_send_handler(),
            ),
            final(self).handlers() == (Handlers {
                before_send: final(self).before_send_handler(),
                ..old(self).handlers()
            }),
            final(self)@ == old(self)@,
            old(self).wf() ==> final(self).wf(),
    {
        let convert = <T as ToFrameHandlerMut<'a>>::to_frame_handler_mut;
        self.frame_send_callback = convert(handler_convertible);
    }

    /// Installs the handler that may change every inbound frame before it is
    /// dispatched: what the given value turns into takes the place of the
    /// handler that was there. The other handlers stay, and so does
    /// everything else.
    pub fn on_before_receive<T: 'a>(&mut self, handler_convertible: T) where
        T: ToFrameHandlerMut<'a> + 'a,

        ensures
            call_ensures(
                <T as ToFrameHandlerMut<'a>>::to_frame_handler_mut,
                (handler_convertible,),
                final(self).before_receive_handler(),
            ),
            final(self).handlers() == (Handlers {
                before_receive: final(self).before_receive_handler(),
                ..old(self).handlers()
            }),
            final(self)@ == old(self)@,
            old(self).wf() ==> final(self).wf(),
    {
        let convert = <T as ToFrameHandlerMut<'a>>::to_frame_handler_mut;
        self.frame_receive_callback = convert(handler_convertible);
    }

    /// Puts the wire form of `frame` behind what waits in the outbox. Fails,
    /// and changes nothing, when the connection is lost.
    pub fn transmit(&mut self, frame: &Frame) -> (r: Result<(), ConnectionLost>)
        ensures
            final(self).handlers() == old(self).handlers(),
            old(self).wf() ==> final(self).wf(),
            match r {
                Ok(_) => old(self)@.connected && final(self)@ == (SessionSpec {
                    outbox: old(self)@.outbox + spec_encode(frame@),
                    ..old(self)@
                }),
                Err(_) => !old(self)@.connected && final(self)@ == old(self)@,
            },
    {
        if !self.connected {
            return Err(ConnectionLost);
        }
        frame.write(&mut self.outbox);
        Ok(())
    }

    /// Sends a frame: the handler installed with `on_before_send` sees the
    /// frame and may change it, and what it leaves is handed to `transmit`.
    /// Fails when the connection is lost; nothing is queued then.
    ///
    /// What the handler leaves of the frame is not for this contract to say:
    /// it speaks of the encoding of some frame. Of the handlers that the
    /// session holds, only the before-send handler may come out changed.
    pub fn send(&mut self, frame: Frame) -> (r: Result<(), ConnectionLost>)
        ensures
            old(self).handlers().but_before_send(final(self).handlers()),
            old(self).wf() ==> final(self).wf(),
            sent(old(self)@, frame@, r, final(self)@),
    {
        let mut mut_frame = frame;
        self.calls = Ghost(self.calls@.push(Call::BeforeSend(frame@)));
        self.frame_send_callback.handler.on_frame(&mut mut_frame);
        self.transmit(&mut_frame)
    }
}

impl<'a> Session<'a> {
    /// Clears the pending receive watchdog, if there is one.
    pub fn clear_rx_heartbeat_timeout(&mut self)
        requires
            old(self).wf(),
        ensures
            final(self).handlers() == old(self).handlers(),
            final(self).wf(),
            final(self)@ == old(self)@.cleared(StompTimeout::ReceiveHeartBeat),
    {
        proof {
            lemma_cleared(self@, StompTimeout::ReceiveHeartBeat);
        }
        match self.rx_heartbeat_timeout {
            Some(h) => {
                let _ = self.timers.clear_timeout(h);
                self.rx_heartbeat_timeout = None;
            },
            None => {},
        }
    }

    /// Clears the pending send timer, if there is one.
    pub fn clear_tx_heartbeat_timeout(&mut self)
        requires
            old(self).wf(),
        ensures
            final(self).handlers() == old(self).handlers(),
            final(self).wf(),
            final(self)@ == old(self)@.cleared(StompTimeout::SendHeartBeat),
    {
        proof {
            lemma_cleared(self@, StompTimeout::SendHeartBeat);
        }
        match self.tx_heartbeat_timeout {
            Some(h) => {
                let _ = self.timers.clear_timeout(h);
                self.tx_heartbeat_timeout = None;
            },
            None => {},
        }
    }

    /// Arms the send timer at `now_ms`, after clearing a pending one. With a
    /// send period of zero no timer is armed.
    pub fn register_tx_heartbeat_timeout(&mut self, now_ms: u64)
        requires
            old(self).wf(),
        ensures
            final(self).handlers() == old(self).handlers(),
            final(self).wf(),
            spec_count(final(self)@.timers, StompTimeout::SendHeartBeat) == final(self)@.timers_needed(
                StompTimeout::SendHeartBeat,
            ),
            spec_count(final(self)@.timers, StompTimeout::ReceiveHeartBeat) == spec_count(
                old(self)@.timers,
                StompTimeout::ReceiveHeartBeat,
            ),
            final(self)@ == old(self)@.armed(StompTimeout::SendHeartBeat, now_ms),
    {
        self.clear_tx_heartbeat_timeout();
        proof {
            lemma_cleared(old(self)@, StompTimeout::SendHeartBeat);
        }
        if self.tx_heartbeat_ms == 0 {
            return ;
        }
        let timeout = self.timers.timeout_ms(
            StompTimeout::SendHeartBeat,
            self.tx_heartbeat_ms,
            now_ms,
        );
        self.tx_heartbeat_timeout = Some(timeout);
        proof {
            lemma_armed(old(self)@, StompTimeout::SendHeartBeat, now_ms);
        }
    }

    /// Arms the receive watchdog at `now_ms`, after clearing a pending one.
    /// With a receive period of zero no timer is armed.
    pub fn register_rx_heartbeat_timeout(&mut self, now_ms: u64)
        requires
            old(self).wf(),
        ensures
            final(self).handlers() == old(self).handlers(),
            final(self).wf(),
            spec_count(final(self)@.timers, StompTimeout::ReceiveHeartBeat) == final(self)@.timers_needed(
                StompTimeout::ReceiveHeartBeat,
            ),
            spec_count(final(self)@.timers, StompTimeout::SendHeartBeat) == spec_count(
                old(self)@.timers,
                StompTimeout::SendHeartBeat,
            ),
            final(self)@ == old(self)@.armed(StompTimeout::ReceiveHeartBeat, now_ms),
    {
        self.clear_rx_heartbeat_timeout();
        proof {
            lemma_cleared(old(self)@, StompTimeout::ReceiveHeartBeat);
        }
        if self.rx_heartbeat_ms == 0 {
            return ;
        }
        let timeout = self.timers.timeout_ms(
            StompTimeout::ReceiveHeartBeat,
            self.rx_heartbeat_ms,
            now_ms,
        );
        self.rx_heartbeat_timeout = Some(timeout);
        proof {
            lemma_armed(old(self)@, StompTimeout::ReceiveHeartBeat, now_ms);
        }
    }

    /// Starts the receive watchdog over at `now_ms`: the pending one is
    /// cleared and a new one is armed.
    pub fn reset_rx_heartbeat_timeout(&mut self, now_ms: u64)
        requires
            old(self).wf(),
        ensures
            final(self).handlers() == old(self).handlers(),
            final(self).wf(),
            spec_count(final(self)@.timers, StompTimeout::ReceiveHeartBeat) == final(self)@.timers_needed(
                StompTimeout::ReceiveHeartBeat,
            ),
            spec_count(final(self)@.timers, StompTimeout::SendHeartBeat) == spec_count(
                old(self)@.timers,
                StompTimeout::SendHeartBeat,
            ),
            final(self)@ == old(self)@.armed(StompTimeout::ReceiveHeartBeat, now_ms),
    {
        self.clear_rx_heartbeat_timeout();
        proof {
            lemma_cleared(old(self)@, StompTimeout::ReceiveHeartBeat);
            assert(self@.armed(StompTimeout::ReceiveHeartBeat, now_ms) == old(self)@.armed(
                StompTimeout::ReceiveHeartBeat,
                now_ms,
            ));
        }
        self.register_rx_heartbeat_timeout(now_ms);
    }

    /// Takes note of an inbound heartbeat at `now_ms`: the receive watchdog
    /// starts over.
    pub fn on_heartbeat(&mut self, now_ms: u64)
        requires
            old(self).wf(),
        ensures
            final(self).handlers() == old(self).handlers(),
            final(self).wf(),
            spec_count(final(self)@.timers, StompTimeout::ReceiveHeartBeat) == final(self)@.timers_needed(
                StompTimeout::ReceiveHeartBeat,
            ),
            final(self)@ == old(self)@.armed(StompTimeout::ReceiveHeartBeat, now_ms),
    {
        self.reset_rx_heartbeat_timeout(now_ms);
    }
}

impl<'a> Session<'a> {
    /// Sends a heartbeat at `now_ms`: a line feed goes to the outbox, unless
    /// the connection is lost, and the send timer is armed anew.
    pub fn send_heartbeat(&mut self, now_ms: u64)
        requires
            old(self).wf(),
        ensures
            final(self).handlers() == old(self).handlers(),
            final(self).wf(),
            spec_count(final(self)@.timers, StompTimeout::SendHeartBeat) == final(self)@.timers_needed(
                StompTimeout::SendHeartBeat,
            ),
            final(self)@ == old(self)@.heartbeat_sent(now_ms),
    {
        if self.connected {
            self.outbox.push(LF);
            assert(self.outbox@ =~= old(self).outbox@ + seq![LF]);
        }
        self.register_tx_heartbeat_timeout(now_ms);
    }

    /// Acts on a timer of the given kind that has fired at `now_ms`. A send
    /// timer sends a heartbeat. A receive watchdog means that the peer has
    /// been silent for too long; the session takes no action on it, since a
    /// dead transport shows when it is next read.
    pub fn timeout(&mut self, timeout: StompTimeout, now_ms: u64)
        requires
            old(self).wf(),
        ensures
            final(self).handlers() == old(self).handlers(),
            final(self).wf(),
            final(self)@ == old(self)@.timed_out(timeout, now_ms),
    {
        match timeout {
            StompTimeout::SendHeartBeat => self.send_heartbeat(now_ms),
            StompTimeout::ReceiveHeartBeat => {},
        }
    }

    /// When the next timer of the session is due.
    pub fn next_timeout(&self) -> (r: Option<u64>)
        ensures
            match r {
                Some(due) => {
                    &&& spec_earliest(self@.timers, self@.timers.len() as int) != -1
                    &&& self@.timers[spec_earliest(
                        self@.timers,
                        self@.timers.len() as int,
                    )] matches Some(t)
                    &&& t.due_ms == due
                },
                None => spec_earliest(self@.timers, self@.timers.len() as int) == -1,
            },
    {
        self.timers.next_due()
    }

    /// Fires the timer that is due first at `now_ms`, if one is due by then,
    /// and returns its kind: the timer leaves the table, and the session
    /// acts on it as `timeout` says.
    pub fn expire(&mut self, now_ms: u64) -> (r: Option<StompTimeout>)
        requires
            old(self).wf(),
        ensures
            final(self).handlers() == old(self).handlers(),
            final(self).wf(),
            match r {
                Some(kind) => {
                    &&& spec_due(old(self)@.timers, now_ms) != -1
                    &&& holds(old(self)@.timers[spec_due(old(self)@.timers, now_ms)], kind)
                    &&& final(self)@ == old(self)@.popped(
                        spec_due(old(self)@.timers, now_ms),
                        kind,
                    ).timed_out(kind, now_ms)
                },
                None => spec_due(old(self)@.timers, now_ms) == -1 && final(self)@ == old(self)@,
            },
    {
        match self.timers.expire(now_ms) {
            None => None,
            Some((handle, kind)) => {
                proof {
                    lemma_earliest(old(self)@.timers, old(self)@.timers.len() as int);
                    lemma_popped(old(self)@, handle.slot as int, kind);
                }
                match kind {
                    StompTimeout::SendHeartBeat => {
                        self.tx_heartbeat_timeout = None;
                    },
                    StompTimeout::ReceiveHeartBeat => {
                        self.rx_heartbeat_timeout = None;
                    },
                }
                self.timeout(kind, now_ms);
                Some(kind)
            },
        }
    }

    /// Starts listening at `now_ms`: arms the send timer and the receive
    /// watchdog.
    pub fn listen(&mut self, now_ms: u64)
        requires
            old(self).wf(),
        ensures
            final(self).handlers() == old(self).handlers(),
            final(self).wf(),
            spec_count(final(self)@.timers, StompTimeout::SendHeartBeat) == final(self)@.timers_needed(
                StompTimeout::SendHeartBeat,
            ),
            spec_count(final(self)@.timers, StompTimeout::ReceiveHeartBeat) == final(self)@.timers_needed(
                StompTimeout::ReceiveHeartBeat,
            ),
            final(self)@ == old(self)@.listening(now_ms),
    {
        self.register_tx_heartbeat_timeout(now_ms);
        self.register_rx_heartbeat_timeout(now_ms);
    }
}

/// The answer that is owed for a message that a handler has decided on.
pub fn acknowledgement(ack_mode: AckMode, outcome: AckOrNack, frame: &Frame) -> (r: Result<
    Option<Frame>,
    ProtocolViolation,
>)
    ensures
        match r {
            Ok(Some(f)) => spec_acknowledgement(ack_mode, outcome, frame@) == Ok::<
                Option<FrameSpec>,
                ProtocolViolation,
            >(Some(f@)),
            Ok(None) => spec_acknowledgement(ack_mode, outcome, frame@) == Ok::<
                Option<FrameSpec>,
                ProtocolViolation,
            >(None),
            Err(v) => spec_acknowledgement(ack_mode, outcome, frame@) == Err::<
                Option<FrameSpec>,
                ProtocolViolation,
            >(v),
        },
{
    match ack_mode {
        AckMode::Auto => Ok(None),
        AckMode::Client | AckMode::ClientIndividual => match frame.headers.get_ack() {
            None => Err(ProtocolViolation::MissingAck),
            Some(ack_id) => match outcome {
                AckOrNack::Ack => Ok(Some(Frame::ack(ack_id.as_slice()))),
                AckOrNack::Nack => Ok(Some(Frame::nack(ack_id.as_slice()))),
            },
        },
    }
}

impl<'a> Session<'a> {
    /// Sends an ACK for the message that carried `ack:<ack_id>`.
    pub fn acknowledge_frame(&mut self, ack_id: &[u8]) -> (r: Result<(), ConnectionLost>)
        ensures
            old(self).handlers().but_before_send(final(self).handlers()),
            old(self).wf() ==> final(self).wf(),
            sent(old(self)@, spec_ack(ack_id@), r, final(self)@),
    {
        let ack_frame = Frame::ack(ack_id);
        self.send(ack_frame)
    }

    /// Sends a NACK for the message that carried `ack:<ack_id>`.
    pub fn negatively_acknowledge_frame(&mut self, ack_id: &[u8]) -> (r: Result<
        (),
        ConnectionLost,
    >)
        ensures
            old(self).handlers().but_before_send(final(self).handlers()),
            old(self).wf() ==> final(self).wf(),
            sent(old(self)@, spec_nack(ack_id@), r, final(self)@),
    {
        let nack_frame = Frame::nack(ack_id);
        self.send(nack_frame)
    }

    /// Hands a RECEIPT frame to the handler that waits for it, and forgets
    /// the handler. Fails when the frame names no receipt, or one that is
    /// not waited for.
    pub fn handle_receipt(&mut self, frame: &Frame) -> (r: Result<(), ProtocolViolation>)
        requires
            old(self).wf(),
        ensures
            final(self).wf(),
            match spec_lookup(frame@.headers, ascii("receipt-id")) {
                None => r == Err::<(), ProtocolViolation>(ProtocolViolation::MissingReceiptId)
                    && final(self)@ == old(self)@ && final(self).handlers() == old(self).handlers(),
                Some(id) => if spec_contains(old(self)@.receipts, id) {
                    &&& r is Ok
                    &&& final(self)@ == (SessionSpec {
                        receipts: spec_remove(old(self)@.receipts, id),
                        calls: old(self)@.calls.push(Call::Receipt(id, frame@)),
                        ..old(self)@
                    })
                    &&& final(self).handlers() == (Handlers {
                        receipts: spec_remove(old(self).handlers().receipts, id),
                        ..old(self).handlers()
                    })
                } else {
                    r == Err::<(), ProtocolViolation>(ProtocolViolation::UnknownReceipt)
                        && final(self)@ == old(self)@ && final(self).handlers() == old(
                        self,
                    ).handlers()
                },
            },
    {
        match frame.headers.get_receipt_id() {
            None => Err(ProtocolViolation::MissingReceiptId),
            Some(receipt_id) => {
                proof {
                    lemma_map_find(self.receipt_handlers@, receipt_mark(), receipt_id@, 0);
                    lemma_map_remove(self.receipt_handlers@, receipt_mark(), receipt_id@);
                    lemma_remove(old(self)@.receipts, receipt_id@);
                }
                match self.receipt_handlers.remove(receipt_id.as_slice()) {
                    None => Err(ProtocolViolation::UnknownReceipt),
                    Some(handler) => {
                        let mut handler = handler;
                        self.calls = Ghost(self.calls@.push(Call::Receipt(receipt_id@, frame@)));
                        handler.handler.on_frame(frame);
                        Ok(())
                    },
                }
            },
        }
    }

    /// Routes an inbound frame by its command and acts on it.
    ///
    /// An ERROR frame goes to the error handler. A RECEIPT frame goes to the
    /// handler that waits for it. Any other frame goes to the handler of
    /// the subscription that it names; what the handler decides is then
    /// acknowledged as the subscription's mode asks.
    pub fn dispatch(&mut self, frame: &Frame) -> (r: Result<(), ProtocolViolation>)
        requires
            old(self).wf(),
        ensures
            dispatched_handlers(old(self)@, frame@, old(self).handlers(), final(self).handlers()),
            final(self).wf(),
            dispatched(old(self)@, frame@, r, final(self)@),
    {
        proof {
            reveal_strlit("ERROR");
            reveal_strlit("RECEIPT");
        }
        let error = ascii_bytes("ERROR");
        let receipt = ascii_bytes("RECEIPT");
        if bytes_eq(frame.command.as_slice(), error.as_slice()) {
            self.calls = Ghost(self.calls@.push(Call::Error(frame@)));
            self.error_callback.handler.on_frame(frame);
            return Ok(());
        }
        if bytes_eq(frame.command.as_slice(), receipt.as_slice()) {
            return self.handle_receipt(frame);
        }
        let sub_id = match frame.headers.get_subscription() {
            None => {
                return Err(ProtocolViolation::MissingSubscription);
            },
            Some(sub_id) => sub_id,
        };
        proof {
            lemma_map_find(self.subscriptions@, subscription_view(), sub_id@, 0);
            lemma_find(self.subscriptions@, sub_id@, 0);
        }
        let index = match self.subscriptions.find(sub_id.as_slice()) {
            None => {
                return Err(ProtocolViolation::UnknownSubscription);
            },
            Some(index) => index,
        };
        let ghost entries = self.subscriptions@;
        self.calls = Ghost(self.calls@.push(Call::Message(sub_id@, frame@)));
        let subscription = self.subscriptions.value_at_mut(index);
        let ack_mode = subscription.ack_mode;
        let callback_result = subscription.handler.handler.on_message(frame);
        assert(subscription_views(self.subscriptions@) =~= subscription_views(entries));
        match acknowledgement(ack_mode, callback_result, frame) {
            Err(violation) => Err(violation),
            Ok(None) => Ok(()),
            Ok(Some(reply)) => match self.send(reply) {
                Ok(_) => Ok(()),
                Err(_) => Err(ProtocolViolation::AckNotSent),
            },
        }
    }
}

/// How the session has dealt with what came in.
#[derive(Clone, Copy, Debug, PartialEq, Eq, Structural)]
pub enum Inbound {
    /// Everything that was whole has been dealt with; the session waits for
    /// more bytes.
    Handled,
    /// The transport is dead; the connection has to be made anew.
    Reconnect,
    /// A frame broke the protocol; the session cannot go on.
    Fatal(ProtocolViolation),
}

impl<'a> Session<'a> {
    /// Takes note that the transport is dead: the connection is lost, the
    /// receive watchdog is cleared, and the bytes that came in or were to go
    /// out on the dead transport are dropped.
    pub fn connection_lost(&mut self)
        requires
            old(self).wf(),
        ensures
            final(self).handlers() == old(self).handlers(),
            final(self).wf(),
            final(self)@ == old(self)@.disconnected(),
    {
        self.connected = false;
        self.frame_buffer.reset();
        self.outbox = Vec::new();
        assert(self.outbox@ =~= Seq::<u8>::empty());
        self.clear_rx_heartbeat_timeout();
    }

    /// Takes in one transmission at `now_ms`.
    ///
    /// After a heartbeat or a frame, the table holds exactly the receive
    /// watchdog that the session needs: one with a receive period, none
    /// without.
    pub fn receive(&mut self, transmission: Transmission, now_ms: u64) -> (r: Inbound)
        requires
            old(self).wf(),
        ensures
            received_handlers(
                old(self)@,
                transmission@,
                old(self).handlers(),
                final(self).handlers(),
            ),
            final(self).wf(),
            received(old(self)@, transmission@, now_ms, r, final(self)@),
            r != Inbound::Reconnect ==> spec_count(
                final(self)@.timers,
                StompTimeout::ReceiveHeartBeat,
            ) == final(self)@.timers_needed(StompTimeout::ReceiveHeartBeat),
            r != Inbound::Reconnect ==> final(self)@.pending == old(self)@.pending,
    {
        match transmission {
            Transmission::HeartBeat => {
                self.on_heartbeat(now_ms);
                proof {
                    lemma_rx_count(self@);
                }
                Inbound::Handled
            },
            Transmission::CompleteFrame(frame) => {
                let mut frame = frame;
                self.reset_rx_heartbeat_timeout(now_ms);
                proof {
                    lemma_rx_count(self@);
                }
                self.calls = Ghost(self.calls@.push(Call::BeforeReceive(frame@)));
                let ghost armed = self@;
                self.frame_receive_callback.handler.on_frame(&mut frame);
                let ghost seen_by = self.handlers();
                let result = self.dispatch(&frame);
                let ghost seen = frame@;
                let ghost after = self@;
                let ghost left = self.handlers();
                proof {
                    lemma_dispatched_keeps(armed, seen, result, after);
                    assert(seen_by == (Handlers {
                        before_receive: left.before_receive,
                        ..old(self).handlers()
                    }));
                    assert(spec_route(seen, armed) == spec_route(seen, old(self)@));
                    assert(dispatched_handlers(old(self)@, seen, seen_by, left));
                }
                self.frame_buffer.recycle_frame(frame);
                assert(self@ == after);
                assert(self.handlers() == left);
                match result {
                    Ok(_) => {
                        assert(dispatched(armed, seen, Inbound::Handled.as_result(), after));
                        Inbound::Handled
                    },
                    Err(violation) => {
                        assert(dispatched(armed, seen, Inbound::Fatal(violation).as_result(), after));
                        Inbound::Fatal(violation)
                    },
                }
            },
            Transmission::ConnectionClosed => {
                self.connection_lost();
                Inbound::Reconnect
            },
        }
    }
}

impl<'a> Session<'a> {
    /// Takes in what was read from the socket at `now_ms`.
    ///
    /// No bytes mean that the remote host has closed the connection: the
    /// session is left disconnected, to be connected anew. Otherwise the
    /// bytes join those that wait, and every whole transmission is taken
    /// out and taken in, in order, until none is left or a frame breaks the
    /// protocol. A transmission that is not whole yet stays for the next
    /// call.
    ///
    /// Taking in bytes never changes the connection, the counters, the
    /// subscriptions, the heartbeat periods or the send timer. Once a
    /// transmission was taken in, the table holds exactly the receive
    /// watchdog that the session needs.
    #[verifier::rlimit(30)]
    pub fn readable(&mut self, bytes: &[u8], now_ms: u64) -> (r: Inbound)
        requires
            old(self).wf(),
        ensures
            bytes@.len() == 0 || spec_parse(old(self)@.pending + bytes@) is None ==> old(
                self,
            ).handlers() == final(self).handlers(),
            old(self).handlers().still(final(self).handlers()),
            final(self).wf(),
            bytes@.len() == 0 ==> r == Inbound::Reconnect && final(self)@
                == old(self)@.disconnected(),
            bytes@.len() > 0 ==> r != Inbound::Reconnect && exists|trace: Seq<SessionSpec>|
                #![trigger drained(trace, now_ms, r)]
                {
                    &&& drained(trace, now_ms, r)
                    &&& trace[0] == old(self)@.fed(bytes@)
                    &&& trace.last() == final(self)@
                },
            bytes@.len() > 0 ==> spec_taken(
                old(self)@.pending + bytes@,
                final(self)@.pending,
                r == Inbound::Handled,
            ),
            bytes@.len() > 0 ==> final(self)@ == (SessionSpec {
                pending: final(self)@.pending,
                outbox: final(self)@.outbox,
                receipts: final(self)@.receipts,
                calls: final(self)@.calls,
                timers: final(self)@.timers,
                rx_heartbeat_timeout: final(self)@.rx_heartbeat_timeout,
                ..old(self)@
            }),
            bytes@.len() > 0 && spec_parse(old(self)@.pending + bytes@) is Some ==> spec_count(
                final(self)@.timers,
                StompTimeout::ReceiveHeartBeat,
            ) == final(self)@.timers_needed(StompTimeout::ReceiveHeartBeat),
    {
        proof {
            old(self).handlers().lemma_still_same();
        }
        if bytes.len() == 0 {
            self.connection_lost();
            return Inbound::Reconnect;
        }
        self.frame_buffer.append(bytes);
        let ghost start = self@;
        let ghost mut trace: Seq<SessionSpec> = seq![start];
        let ghost input = start.pending;
        let ghost mut handled: int = 0;
        proof {
            lemma_account_start(input);
        }
        loop
            invariant
                self.wf(),
                bytes@.len() > 0,
                start == old(self)@.fed(bytes@),
                input == start.pending,
                spec_account(input, handled, self@.pending),
                old(self).handlers().still(self.handlers()),
                trace.len() >= 1,
                trace[0] == start,
                trace.last() == self@,
                steps_handled(trace, now_ms),
                self@ == (SessionSpec {
                    pending: self@.pending,
                    outbox: self@.outbox,
                    receipts: self@.receipts,
                    calls: self@.calls,
                    timers: self@.timers,
                    rx_heartbeat_timeout: self@.rx_heartbeat_timeout,
                    ..old(self)@
                }),
                trace.len() >= 2 ==> spec_count(self@.timers, StompTimeout::ReceiveHeartBeat)
                    == self@.timers_needed(StompTimeout::ReceiveHeartBeat),
                trace.len() == 1 ==> self@ == start,
                trace.len() == 1 ==> self.handlers() == old(self).handlers(),
                trace.len() >= 2 ==> spec_parse(start.pending) is Some,
            decreases self@.pending.len(),
        {
            let ghost before = self@;
            match self.frame_buffer.read_transmission() {
                None => {
                    proof {
                        lemma_drained_all(trace, now_ms);
                        lemma_account_end(input, handled, self@.pending);
                    }
                    return Inbound::Handled;
                },
                Some(transmission) => {
                    proof {
                        let n = before.pending.len() - self@.pending.len();
                        lemma_account_step(input, handled, before.pending, transmission@, n);
                        handled = handled + 1;
                    }
                    let ghost taken = self@;
                    let ghost held = self.handlers();
                    let outcome = self.receive(transmission, now_ms);
                    proof {
                        old(self).handlers().lemma_still_received(
                            taken,
                            transmission@,
                            held,
                            self.handlers(),
                        );
                        assert(drain_step(before, now_ms, outcome, self@));
                        lemma_drained_step(trace, now_ms, outcome, self@);
                        trace = trace.push(self@);
                    }
                    if outcome != Inbound::Handled {
                        proof {
                            lemma_account_end(input, handled, self@.pending);
                        }
                        return outcome;
                    }
                },
            }
        }
    }
}

/// The heartbeat intervals that a connection attempt has negotiated, in
/// milliseconds; zero disables a direction.
#[derive(Clone, Copy, Debug, PartialEq, Eq, Structural)]
pub struct Negotiated {
    pub tx_heartbeat_ms: u32,
    pub rx_heartbeat_ms: u32,
}

/// What is to be done after a connection attempt.
#[derive(Clone, Copy, Debug, PartialEq, Eq, Structural)]
pub enum Reconnect {
    /// The session runs on the new connection.
    Resumed,
    /// The attempt failed: wait this many milliseconds and try again.
    RetryAfter(u64),
}

/// The SUBSCRIBE frame that opens `subscription` again on a new connection.
pub fn resubscribe_frame(subscription: &Subscription) -> (r: Frame)
    ensures
        r@ == spec_resubscribe(subscription@),
{
    proof {
        reveal_strlit("receipt");
    }
    let mut subscribe_frame = Frame::subscribe(
        subscription.id.as_slice(),
        subscription.destination.as_slice(),
        subscription.ack_mode,
    );
    let mut headers = subscription.headers.clone();
    subscribe_frame.headers.concat(&mut headers);
    subscribe_frame.headers.remove_key(ascii_bytes("receipt").as_slice());
    subscribe_frame
}

impl<'a> Session<'a> {
    /// Acts on the outcome of one attempt to connect anew, at `now_ms`.
    ///
    /// Whatever the outcome, the dead transport is given up first, as
    /// `connection_lost` does. After a failed attempt the caller is to wait
    /// and try again. After a successful one, the session takes over the
    /// negotiated heartbeat intervals, arms both heartbeat timers, and sends
    /// a SUBSCRIBE frame for each of its subscriptions, in their order;
    /// subscriptions, counters, handlers and pending receipts stay.
    pub fn reconnect(&mut self, attempt: Option<Negotiated>, now_ms: u64) -> (r: Reconnect)
        requires
            old(self).wf(),
        ensures
            old(self).handlers().but_before_send(final(self).handlers()),
            attempt is None || old(self)@.subscriptions.len() == 0 ==> final(self).handlers() == old(
                self,
            ).handlers(),
            final(self).wf(),
            attempt is Some ==> forall|kind: StompTimeout|
                spec_count(final(self)@.timers, kind) == #[trigger] final(self)@.timers_needed(
                    kind,
                ),
            match attempt {
                None => r == Reconnect::RetryAfter(RECONNECT_DELAY_MS) && final(self)@
                    == old(self)@.disconnected(),
                Some(negotiated) => r == Reconnect::Resumed && exists|frames: Seq<FrameSpec>|
                    #![trigger spec_encode_all(frames)]
                    {
                        &&& frames.len() == old(self)@.subscriptions.len()
                        &&& final(self)@ == (SessionSpec {
                            outbox: spec_encode_all(frames),
                            calls: old(self)@.calls + spec_replay_calls(old(self)@.subscriptions),
                            ..old(self)@.reconnected(negotiated, now_ms)
                        })
                    },
            },
    {
        self.connection_lost();
        let negotiated = match attempt {
            None => {
                return Reconnect::RetryAfter(RECONNECT_DELAY_MS);
            },
            Some(negotiated) => negotiated,
        };
        self.connected = true;
        self.tx_heartbeat_ms = (negotiated.tx_heartbeat_ms / 2) as u64;
        self.rx_heartbeat_ms = (negotiated.rx_heartbeat_ms as u64) * GRACE_FACTOR;
        self.listen(now_ms);
        let ghost base = self@;
        let ghost replay = spec_replay_calls(base.subscriptions);
        let ghost mut frames: Seq<FrameSpec> = Seq::empty();
        let count = self.subscriptions.len();
        let mut i: usize = 0;
        assert(base.outbox =~= spec_encode_all(frames));
        assert(base.calls =~= base.calls + replay.take(0));
        while i < count
            invariant
                self.wf(),
                i <= count,
                count == base.subscriptions.len(),
                base.connected,
                frames.len() == i,
                replay == spec_replay_calls(base.subscriptions),
                self@ == (SessionSpec {
                    outbox: spec_encode_all(frames),
                    calls: base.calls + replay.take(i as int),
                    ..base
                }),
                old(self).handlers().but_before_send(self.handlers()),
                i == 0 ==> self.handlers() == old(self).handlers(),
                count > 0 ==> old(self)@.subscriptions.len() > 0,
            decreases count - i,
        {
            let subscribe_frame = resubscribe_frame(self.subscriptions.value_at(i));
            let ghost before = self@;
            let ghost asked = subscribe_frame@;
            assert(asked == spec_resubscribe(base.subscriptions[i as int].1));
            let result = self.send(subscribe_frame);
            proof {
                let called = SessionSpec {
                    calls: before.calls.push(Call::BeforeSend(asked)),
                    ..before
                };
                let g = choose|g: FrameSpec|
                    self@ == (SessionSpec { outbox: called.outbox + spec_encode(g), ..called });
                let more = frames.push(g);
                assert(more.drop_last() =~= frames);
                frames = more;
                assert(replay.take(i + 1) =~= replay.take(i as int).push(Call::BeforeSend(asked)));
                assert(called.calls =~= base.calls + replay.take(i + 1));
            }
            i += 1;
        }
        assert(replay.take(count as int) =~= replay);
        Reconnect::Resumed
    }

    /// Registers a subscription under its identifier. A subscription that
    /// stood under the same identifier is replaced.
    pub fn add_subscription(&mut self, subscription: Subscription<'a>)
        requires
            old(self).wf(),
        ensures
            final(self).wf(),
            final(self)@ == (SessionSpec {
                subscriptions: spec_insert(
                    old(self)@.subscriptions,
                    subscription@.id,
                    subscription@,
                ),
                ..old(self)@
            }),
            final(self).handlers() == (Handlers {
                subscriptions: spec_insert(
                    old(self).handlers().subscriptions,
                    subscription@.id,
                    subscription,
                ),
                ..old(self).handlers()
            }),
    {
        proof {
            lemma_map_insert(
                self.subscriptions@,
                subscription_view(),
                subscription@.id,
                subscription,
            );
            lemma_insert(old(self)@.subscriptions, subscription@.id, subscription@);
            lemma_find(old(self)@.subscriptions, subscription@.id, 0);
        }
        let key = subscription.id.clone();
        let _ = self.subscriptions.insert(key, subscription);
    }

    /// Registers the handler that waits for the receipt with the given
    /// identifier. A handler that waited under the same identifier is
    /// replaced.
    pub fn add_receipt_handler(&mut self, id: Vec<u8>, handler: BoxedFrameHandler<'a>)
        requires
            old(self).wf(),
        ensures
            final(self).wf(),
            final(self)@ == (SessionSpec {
                receipts: spec_insert(old(self)@.receipts, id@, ()),
                ..old(self)@
            }),
            final(self).handlers() == (Handlers {
                receipts: spec_insert(old(self).handlers().receipts, id@, handler),
                ..old(self).handlers()
            }),
    {
        proof {
            lemma_map_insert(self.receipt_handlers@, receipt_mark(), id@, handler);
            lemma_insert(old(self)@.receipts, id@, ());
        }
        let _ = self.receipt_handlers.insert(id, handler);
    }

    /// Closes the subscription with the given identifier: forgets it, and
    /// sends an UNSUBSCRIBE frame for it.
    pub fn unsubscribe(&mut self, sub_id: &[u8]) -> (r: Result<(), ConnectionLost>)
        requires
            old(self).wf(),
        ensures
            final(self).wf(),
            sent(
                SessionSpec {
                    subscriptions: spec_remove(old(self)@.subscriptions, sub_id@),
                    ..old(self)@
                },
                spec_unsubscribe(sub_id@),
                r,
                final(self)@,
            ),
            final(self).handlers() == (Handlers {
                before_send: final(self).handlers().before_send,
                subscriptions: spec_remove(old(self).handlers().subscriptions, sub_id@),
                ..old(self).handlers()
            }),
            final(self).handlers().before_send.is_still(old(self).handlers().before_send),
    {
        proof {
            lemma_map_remove(self.subscriptions@, subscription_view(), sub_id@);
            lemma_remove(old(self)@.subscriptions, sub_id@);
            lemma_find(old(self)@.subscriptions, sub_id@, 0);
        }
        let _ = self.subscriptions.remove(sub_id);
        let unsubscribe_frame = Frame::unsubscribe(sub_id);
        self.send(unsubscribe_frame)
    }

    /// Sends a DISCONNECT frame. The session itself stays as it is.
    pub fn disconnect(&mut self) -> (r: Result<(), ConnectionLost>)
        ensures
            old(self).handlers().but_before_send(final(self).handlers()),
            old(self).wf() ==> final(self).wf(),
            sent(old(self)@, spec_disconnect(), r, final(self)@),
    {
        let disconnect_frame = Frame::disconnect();
        self.send(disconnect_frame)
    }
}

impl<'a> Session<'a> {
    /// Begins a message for `destination` with `body`. Nothing is sent
    /// before the builder's `send`.
    pub fn message<'b>(&'b mut self, destination: &[u8], body: &[u8]) -> (r: MessageBuilder<
        'b,
        'a,
    >)
        ensures
            r.session@ == old(self)@,
            r.session.wf() == old(self).wf(),
            r.session.handlers() == old(self).handlers(),
            *final(r.session) == *final(self),
            r.frame@ == spec_send(destination@, body@),
    {
        let send_frame = Frame::send(destination, body);
        MessageBuilder { session: self, frame: send_frame }
    }

    /// Begins a subscription to `destination` whose messages go to the given
    /// handler. Messages are acknowledged automatically unless the builder is
    /// told otherwise. Nothing is sent before the builder's `start`.
    pub fn subscription<'b, T>(&'b mut self, destination: &[u8], handler_convertible: T) -> (r:
        SubscriptionBuilder<'b, 'a>) where T: ToMessageHandler<'a>
        ensures
            call_ensures(
                <T as ToMessageHandler<'a>>::to_message_handler,
                (handler_convertible,),
                r.handler,
            ),
            r.session@ == old(self)@,
            r.session.wf() == old(self).wf(),
            r.session.handlers() == old(self).handlers(),
            *final(r.session) == *final(self),
            r.destination@ == destination@,
            r.ack_mode == AckMode::Auto,
            r.headers@ == Seq::<HeaderSpec>::empty(),
    {
        let convert = <T as ToMessageHandler<'a>>::to_message_handler;
        SubscriptionBuilder {
            session: self,
            destination: to_vec(destination),
            ack_mode: AckMode::Auto,
            handler: convert(handler_convertible),
            headers: HeaderList::new(),
        }
    }

    /// Begins a transaction: the session takes its next transaction
    /// identifier and sends a BEGIN frame. On a lost connection there is no
    /// transaction.
    pub fn begin_transaction<'b>(&'b mut self) -> (r: Result<Transaction<'b, 'a>, ConnectionLost>)
        ensures
            r is Err && old(self).wf() ==> final(self).wf(),
            match r {
                Ok(transaction) => {
                    &&& transaction.id@ == spec_transaction_id(old(self)@.next_transaction_id)
                    &&& sent(
                        SessionSpec {
                            next_transaction_id: spec_next_id(old(self)@.next_transaction_id),
                            ..old(self)@
                        },
                        spec_begin(spec_transaction_id(old(self)@.next_transaction_id)),
                        Ok(()),
                        transaction.session@,
                    )
                    &&& old(self).wf() ==> transaction.session.wf()
                    &&& old(self).handlers().but_before_send(transaction.session.handlers())
                    &&& *final(transaction.session) == *final(self)
                },
                Err(_) => old(self).handlers().but_before_send(final(self).handlers()) && sent(
                    SessionSpec {
                        next_transaction_id: spec_next_id(old(self)@.next_transaction_id),
                        ..old(self)@
                    },
                    spec_begin(spec_transaction_id(old(self)@.next_transaction_id)),
                    Err(ConnectionLost),
                    final(self)@,
                ),
            },
    {
        let id = self.generate_transaction_id();
        let mut transaction = Transaction::new(id, self);
        match transaction.begin() {
            Ok(_) => Ok(transaction),
            Err(lost) => Err(lost),
        }
    }
}

} // verus!
