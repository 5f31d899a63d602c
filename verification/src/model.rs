//! The mathematical model of a session: its value, and what each of its
//! operations makes of that value.
//!
//! The contracts of the session speak in the terms defined here.

use vstd::prelude::*;
use crate::bytes::ascii;
use crate::codec::{spec_parse, TransmissionSpec};
use crate::frame::{FrameSpec, LF, spec_ack, spec_encode, spec_nack, spec_subscribe};
use crate::header::{lemma_without_key, spec_lookup, spec_without_key};
use crate::registry::{Entries, keys_distinct, spec_contains, spec_find, spec_remove};
use crate::session::{
    ConnectionLost, GRACE_FACTOR, Inbound, Negotiated, ProtocolViolation, StompTimeout,
};
use crate::subscription::{AckMode, AckOrNack, SubscriptionSpec};
use crate::timer::{
    holds, lemma_arm, lemma_clear, lemma_count_zero, lemma_free_slot, Slots, spec_arm, spec_clear,
    spec_count, spec_deadline, spec_free_slot, Timeout, Timer,
};

verus! {

/// One call of a handler that the user has supplied, with what was handed
/// to it.
///
/// The calls are the session's own record: the session writes an entry
/// where it makes the call. Nothing but the session's code ties the record
/// to the calls themselves, since a handler promises nothing that a proof
/// could check it against.
pub enum Call {
    /// The handler installed with `on_before_send`, with a frame that is
    /// about to be sent.
    BeforeSend(FrameSpec),
    /// The handler installed with `on_before_receive`, with a frame that
    /// came in.
    BeforeReceive(FrameSpec),
    /// The handler installed with `on_error`, with an ERROR frame.
    Error(FrameSpec),
    /// The handler that waited for the receipt with this identifier, with
    /// the RECEIPT frame.
    Receipt(Seq<u8>, FrameSpec),
    /// The handler of the subscription with this identifier, with a
    /// message.
    Message(Seq<u8>, FrameSpec),
}

/// The mathematical value of a session: everything but its handlers.
pub struct SessionSpec {
    /// Whether the connection is alive.
    pub connected: bool,
    /// Inbound bytes that were not read as transmissions yet.
    pub pending: Seq<u8>,
    /// Outbound bytes that wait to be written to the socket.
    pub outbox: Seq<u8>,
    pub next_transaction_id: u32,
    pub next_subscription_id: u32,
    pub next_receipt_id: u32,
    /// Period of the send timer; zero for none.
    pub tx_heartbeat_ms: u64,
    /// Period of the receive watchdog; zero for none.
    pub rx_heartbeat_ms: u64,
    /// Handle of the pending send timer.
    pub tx_heartbeat_timeout: Option<Timeout>,
    /// Handle of the pending receive watchdog.
    pub rx_heartbeat_timeout: Option<Timeout>,
    /// The reactor's timer table.
    pub timers: Slots,
    /// The active subscriptions, by identifier.
    pub subscriptions: Entries<SubscriptionSpec>,
    /// The identifiers of the receipts that are waited for.
    pub receipts: Entries<()>,
    /// Every call of a handler so far, oldest first.
    pub calls: Seq<Call>,
}

/// Whether the handle that the session keeps for the timer of one kind
/// agrees with the timer table: with a handle, the table holds exactly one
/// such timer, in the handle's slot; without, it holds none.
pub open spec fn timer_in_step(slots: Slots, handle: Option<Timeout>, kind: StompTimeout) -> bool {
    match handle {
        Some(h) => {
            &&& h.slot < slots.len()
            &&& holds(slots[h.slot as int], kind)
            &&& spec_count(slots, kind) == 1
        },
        None => spec_count(slots, kind) == 0,
    }
}

impl SessionSpec {
    /// Whether the value is one that a session can have: identifiers are
    /// distinct, every subscription stands under its own identifier, and
    /// the timer handles agree with the timer table.
    pub open spec fn well_formed(self) -> bool {
        &&& keys_distinct(self.subscriptions)
        &&& forall|i: int|
            0 <= i < self.subscriptions.len() ==> (#[trigger] self.subscriptions[i]).1.id
                == self.subscriptions[i].0
        &&& keys_distinct(self.receipts)
        &&& timer_in_step(self.timers, self.tx_heartbeat_timeout, StompTimeout::SendHeartBeat)
        &&& timer_in_step(self.timers, self.rx_heartbeat_timeout, StompTimeout::ReceiveHeartBeat)
    }
}

/// The identifier that follows `id` in a namespace: one more, and zero
/// after the last 32-bit value.
pub open spec fn spec_next_id(id: u32) -> u32 {
    if id == u32::MAX {
        0
    } else {
        (id + 1) as u32
    }
}

/// An identifier is followed by a strictly greater one until the counter
/// wraps.
pub proof fn lemma_ids_increase(id: u32)
    ensures
        id < u32::MAX ==> spec_next_id(id) > id,
        id == u32::MAX ==> spec_next_id(id) == 0,
{
}

/// The period of the send timer for a negotiated send interval: half of it.
pub open spec fn spec_tx_period(tx_heartbeat_ms: u32) -> u64 {
    (tx_heartbeat_ms / 2) as u64
}

/// The period of the receive watchdog for a negotiated receive interval:
/// twice as long, to allow for delay.
pub open spec fn spec_rx_period(rx_heartbeat_ms: u32) -> u64 {
    (rx_heartbeat_ms * GRACE_FACTOR) as u64
}

impl SessionSpec {
    /// The handle of the pending timer of the given kind.
    pub open spec fn handle(self, kind: StompTimeout) -> Option<Timeout> {
        match kind {
            StompTimeout::SendHeartBeat => self.tx_heartbeat_timeout,
            StompTimeout::ReceiveHeartBeat => self.rx_heartbeat_timeout,
        }
    }

    /// The period of the timer of the given kind; zero for none.
    pub open spec fn period(self, kind: StompTimeout) -> u64 {
        match kind {
            StompTimeout::SendHeartBeat => self.tx_heartbeat_ms,
            StompTimeout::ReceiveHeartBeat => self.rx_heartbeat_ms,
        }
    }

    /// This value with another handle for the timer of the given kind.
    pub open spec fn with_handle(self, kind: StompTimeout, handle: Option<Timeout>) -> SessionSpec {
        match kind {
            StompTimeout::SendHeartBeat => SessionSpec { tx_heartbeat_timeout: handle, ..self },
            StompTimeout::ReceiveHeartBeat => SessionSpec { rx_heartbeat_timeout: handle, ..self },
        }
    }

    /// The session after the pending timer of the given kind, if any, is
    /// cleared.
    pub open spec fn cleared(self, kind: StompTimeout) -> SessionSpec {
        match self.handle(kind) {
            Some(h) => SessionSpec {
                timers: spec_clear(self.timers, h.slot as int),
                ..self
            }.with_handle(kind, None),
            None => self,
        }
    }

    /// The session after the timer of the given kind is armed anew at
    /// `now_ms`: a pending one is cleared first, and with a period of zero
    /// none is armed.
    pub open spec fn armed(self, kind: StompTimeout, now_ms: u64) -> SessionSpec {
        let c = self.cleared(kind);
        if self.period(kind) == 0 {
            c
        } else {
            SessionSpec {
                timers: spec_arm(
                    c.timers,
                    Timer { kind: kind, due_ms: spec_deadline(now_ms, self.period(kind)) },
                ),
                ..c
            }.with_handle(kind, Some(Timeout { slot: spec_free_slot(c.timers, 0) as usize }))
        }
    }

    /// The number of pending timers of the given kind that a session with
    /// this value needs: one with a period, none without.
    pub open spec fn timers_needed(self, kind: StompTimeout) -> nat {
        if self.period(kind) > 0 {
            1
        } else {
            0
        }
    }
}

/// Clearing the timer of one kind keeps the session's value well formed
/// and leaves no pending timer of that kind.
pub proof fn lemma_cleared(s: SessionSpec, kind: StompTimeout)
    requires
        s.well_formed(),
    ensures
        s.cleared(kind).well_formed(),
        spec_count(s.cleared(kind).timers, kind) == 0,
        s.cleared(kind).handle(kind) is None,
        forall|other: StompTimeout|
            other != kind ==> spec_count(s.cleared(kind).timers, other) == spec_count(
                s.timers,
                other,
            ),
{
    let c = s.cleared(kind);
    match s.handle(kind) {
        Some(h) => {
            lemma_clear(s.timers, h.slot as int, StompTimeout::SendHeartBeat);
            lemma_clear(s.timers, h.slot as int, StompTimeout::ReceiveHeartBeat);
        },
        None => {},
    }
}

/// Arming the timer of one kind keeps the session's value well formed and
/// leaves exactly as many pending timers of that kind as the session needs:
/// one with a period, none without. The slot that the timer takes has to be
/// one that a handle can name.
pub proof fn lemma_armed(s: SessionSpec, kind: StompTimeout, now_ms: u64)
    requires
        s.well_formed(),
        s.period(kind) != 0 ==> spec_free_slot(s.cleared(kind).timers, 0) <= usize::MAX,
    ensures
        s.armed(kind, now_ms).well_formed(),
        spec_count(s.armed(kind, now_ms).timers, kind) == s.timers_needed(kind),
        forall|other: StompTimeout|
            other != kind ==> spec_count(s.armed(kind, now_ms).timers, other) == spec_count(
                s.timers,
                other,
            ),
{
    let c = s.cleared(kind);
    lemma_cleared(s, kind);
    if s.period(kind) != 0 {
        let timer = Timer { kind: kind, due_ms: spec_deadline(now_ms, s.period(kind)) };
        let other = match kind {
            StompTimeout::SendHeartBeat => StompTimeout::ReceiveHeartBeat,
            StompTimeout::ReceiveHeartBeat => StompTimeout::SendHeartBeat,
        };
        lemma_arm(c.timers, timer, kind);
        lemma_arm(c.timers, timer, other);
        lemma_free_slot(c.timers, 0);
        let a = s.armed(kind, now_ms);
        let slot = spec_free_slot(c.timers, 0);
        assert(a.timers[slot] == Some(timer));
        assert(a.handle(kind) == Some(Timeout { slot: slot as usize }));
        assert(timer_in_step(a.timers, a.handle(kind), kind));
        match c.handle(other) {
            Some(h) => {
                assert(c.timers[h.slot as int] is Some);
                assert(a.timers[h.slot as int] == c.timers[h.slot as int]);
            },
            None => {},
        }
        assert(timer_in_step(a.timers, a.handle(other), other));
    }
}

/// A well-formed session holds a pending receive watchdog exactly when it
/// keeps a handle for one.
pub proof fn lemma_rx_count(s: SessionSpec)
    requires
        s.well_formed(),
    ensures
        spec_count(s.timers, StompTimeout::ReceiveHeartBeat) == if s.rx_heartbeat_timeout is Some {
            1nat
        } else {
            0nat
        },
{
}

impl SessionSpec {
    /// The session after a heartbeat is sent at `now_ms`: on a live
    /// connection a line feed joins the outbox, and the send timer is armed
    /// anew.
    pub open spec fn heartbeat_sent(self, now_ms: u64) -> SessionSpec {
        SessionSpec {
            outbox: if self.connected {
                self.outbox + seq![LF]
            } else {
                self.outbox
            },
            ..self
        }.armed(StompTimeout::SendHeartBeat, now_ms)
    }

    /// The session after a timer of the given kind has fired at `now_ms`: a
    /// send timer sends a heartbeat; a receive watchdog changes nothing.
    pub open spec fn timed_out(self, kind: StompTimeout, now_ms: u64) -> SessionSpec {
        match kind {
            StompTimeout::SendHeartBeat => self.heartbeat_sent(now_ms),
            StompTimeout::ReceiveHeartBeat => self,
        }
    }

    /// The session after the timer in slot `slot`, of the given kind, has
    /// left the timer table.
    pub open spec fn popped(self, slot: int, kind: StompTimeout) -> SessionSpec {
        SessionSpec { timers: spec_clear(self.timers, slot), ..self }.with_handle(kind, None)
    }

    /// The session after listening starts at `now_ms`: both heartbeat timers
    /// are armed.
    pub open spec fn listening(self, now_ms: u64) -> SessionSpec {
        self.armed(StompTimeout::SendHeartBeat, now_ms).armed(
            StompTimeout::ReceiveHeartBeat,
            now_ms,
        )
    }
}

/// Taking a pending timer out of the table, and forgetting the handle of its
/// kind, keeps the session's value well formed.
pub proof fn lemma_popped(s: SessionSpec, slot: int, kind: StompTimeout)
    requires
        s.well_formed(),
        0 <= slot < s.timers.len(),
        holds(s.timers[slot], kind),
    ensures
        s.popped(slot, kind).well_formed(),
        spec_count(s.popped(slot, kind).timers, kind) == 0,
{
    let other = match kind {
        StompTimeout::SendHeartBeat => StompTimeout::ReceiveHeartBeat,
        StompTimeout::ReceiveHeartBeat => StompTimeout::SendHeartBeat,
    };
    if s.handle(kind) is None {
        lemma_count_zero(s.timers, kind);
        assert(!holds(s.timers[slot], kind));
    }
    lemma_clear(s.timers, slot, kind);
    lemma_clear(s.timers, slot, other);
    let p = s.popped(slot, kind);
    assert(timer_in_step(p.timers, p.handle(kind), kind));
    assert(timer_in_step(p.timers, p.handle(other), other));
}

/// What sending `frame` does to a session: a call of the send handler with
/// the frame is recorded. Then, on a live connection, the wire form of one
/// frame joins the outbox; on a lost connection sending fails and nothing
/// joins it.
///
/// Which frame joins the outbox is left open here. It is for the send
/// handler to decide, and no contract says what a handler leaves of a
/// frame; `Session::transmit` says exactly what is done with the frame
/// that is handed to it.
pub open spec fn sent(
    before: SessionSpec,
    frame: FrameSpec,
    result: Result<(), ConnectionLost>,
    after: SessionSpec,
) -> bool {
    let called = SessionSpec { calls: before.calls.push(Call::BeforeSend(frame)), ..before };
    match result {
        Ok(_) => before.connected && exists|g: FrameSpec|
            after == (SessionSpec { outbox: called.outbox + spec_encode(g), ..called }),
        Err(_) => !before.connected && after == called,
    }
}

/// Where an inbound frame goes.
pub enum Route {
    /// To the error handler.
    Error,
    /// To the handler that waits for the receipt with this identifier.
    Receipt(Seq<u8>),
    /// To the handler of the subscription with this identifier.
    Message(Seq<u8>),
    /// Nowhere: the frame breaks the protocol.
    Violation(ProtocolViolation),
}

/// Where a frame goes in a session, by its command: an ERROR frame to the
/// error handler; a RECEIPT frame to the handler that waits for the receipt
/// named in its `receipt-id` header; any other frame to the subscription
/// named in its `subscription` header. A frame that lacks the header, or
/// names what the session does not know, breaks the protocol.
pub open spec fn spec_route(frame: FrameSpec, s: SessionSpec) -> Route {
    if frame.command == ascii("ERROR") {
        Route::Error
    } else if frame.command == ascii("RECEIPT") {
        match spec_lookup(frame.headers, ascii("receipt-id")) {
            None => Route::Violation(ProtocolViolation::MissingReceiptId),
            Some(id) => if spec_contains(s.receipts, id) {
                Route::Receipt(id)
            } else {
                Route::Violation(ProtocolViolation::UnknownReceipt)
            },
        }
    } else {
        match spec_lookup(frame.headers, ascii("subscription")) {
            None => Route::Violation(ProtocolViolation::MissingSubscription),
            Some(id) => if spec_contains(s.subscriptions, id) {
                Route::Message(id)
            } else {
                Route::Violation(ProtocolViolation::UnknownSubscription)
            },
        }
    }
}

/// The answer that is owed for a message: none under `Auto`; otherwise an
/// ACK or a NACK, as the handler decided, for the identifier in the
/// message's `ack` header, and a violation when that header is missing.
pub open spec fn spec_acknowledgement(
    ack_mode: AckMode,
    outcome: AckOrNack,
    frame: FrameSpec,
) -> Result<Option<FrameSpec>, ProtocolViolation> {
    if ack_mode == AckMode::Auto {
        Ok(None)
    } else {
        match spec_lookup(frame.headers, ascii("ack")) {
            None => Err(ProtocolViolation::MissingAck),
            Some(id) => Ok(
                Some(
                    if outcome == AckOrNack::Ack {
                        spec_ack(id)
                    } else {
                        spec_nack(id)
                    },
                ),
            ),
        }
    }
}

/// What dispatching one frame does to a session.
///
/// A frame that breaks the protocol changes nothing and fails with its
/// violation. For an ERROR frame a call of the error handler is recorded.
/// For a RECEIPT frame a call of the handler that waits for its receipt is
/// recorded, and the receipt is waited for no longer. For a message a call
/// of its subscription's handler is recorded; the answer that is owed for
/// one of the two decisions that the handler can take is then sent, which
/// fails when the connection is lost.
pub open spec fn dispatched(
    before: SessionSpec,
    frame: FrameSpec,
    result: Result<(), ProtocolViolation>,
    after: SessionSpec,
) -> bool {
    match spec_route(frame, before) {
        Route::Error => result is Ok && after == (SessionSpec {
            calls: before.calls.push(Call::Error(frame)),
            ..before
        }),
        Route::Receipt(id) => result is Ok && after == (SessionSpec {
            receipts: spec_remove(before.receipts, id),
            calls: before.calls.push(Call::Receipt(id, frame)),
            ..before
        }),
        Route::Violation(v) => result == Err::<(), ProtocolViolation>(v) && after == before,
        Route::Message(id) => {
            let ack_mode = before.subscriptions[spec_find(before.subscriptions, id, 0)].1.ack_mode;
            let called = SessionSpec {
                calls: before.calls.push(Call::Message(id, frame)),
                ..before
            };
            exists|outcome: AckOrNack|
                match #[trigger] spec_acknowledgement(ack_mode, outcome, frame) {
                    Ok(None) => result is Ok && after == called,
                    Ok(Some(reply)) => if before.connected {
                        result is Ok && sent(called, reply, Ok(()), after)
                    } else {
                        result == Err::<(), ProtocolViolation>(ProtocolViolation::AckNotSent)
                            && sent(called, reply, Err(ConnectionLost), after)
                    },
                    Err(v) => result == Err::<(), ProtocolViolation>(v) && after == called,
                }
        },
    }
}

/// Dispatching a frame leaves the timers, the connection, the counters, the
/// subscriptions and the inbound bytes alone, and adds no receipt.
pub proof fn lemma_dispatched_keeps(
    before: SessionSpec,
    frame: FrameSpec,
    result: Result<(), ProtocolViolation>,
    after: SessionSpec,
)
    requires
        dispatched(before, frame, result, after),
    ensures
        after == (SessionSpec {
            outbox: after.outbox,
            receipts: after.receipts,
            calls: after.calls,
            ..before
        }),
        after.receipts == before.receipts || exists|id: Seq<u8>|
            after.receipts == spec_remove(before.receipts, id),
{
    match spec_route(frame, before) {
        Route::Receipt(id) => {
            assert(after.receipts == spec_remove(before.receipts, id));
        },
        _ => {},
    }
}

impl Inbound {
    /// What dispatching a frame returned when this is how the session dealt
    /// with the frame.
    pub open spec fn as_result(self) -> Result<(), ProtocolViolation> {
        match self {
            Inbound::Fatal(v) => Err(v),
            _ => Ok(()),
        }
    }
}

impl SessionSpec {
    /// The session after its transport was found dead: the connection is
    /// lost, the receive watchdog is cleared, and the bytes that came in or
    /// were to go out on the dead transport are dropped.
    pub open spec fn disconnected(self) -> SessionSpec {
        SessionSpec {
            connected: false,
            pending: Seq::<u8>::empty(),
            outbox: Seq::<u8>::empty(),
            ..self
        }.cleared(StompTimeout::ReceiveHeartBeat)
    }

    /// The session after `bytes` came in.
    pub open spec fn fed(self, bytes: Seq<u8>) -> SessionSpec {
        SessionSpec { pending: self.pending + bytes, ..self }
    }
}

/// What taking in one transmission at `now_ms` does to a session.
///
/// A heartbeat starts the receive watchdog over. So does a frame; a call of
/// the receive handler with the frame is recorded, and one frame is
/// dispatched. The end of the stream leaves the session disconnected, to be
/// connected anew.
///
/// Which frame is dispatched is left open here. It is for the receive
/// handler to decide, and no contract says what a handler leaves of a
/// frame; `Session::dispatch` says exactly what is done with the frame that
/// is handed to it.
pub open spec fn received(
    before: SessionSpec,
    transmission: TransmissionSpec,
    now_ms: u64,
    outcome: Inbound,
    after: SessionSpec,
) -> bool {
    match transmission {
        TransmissionSpec::HeartBeat => outcome == Inbound::Handled && after == before.armed(
            StompTimeout::ReceiveHeartBeat,
            now_ms,
        ),
        TransmissionSpec::CompleteFrame(f) => {
            let handed = SessionSpec {
                calls: before.calls.push(Call::BeforeReceive(f)),
                ..before.armed(StompTimeout::ReceiveHeartBeat, now_ms)
            };
            outcome != Inbound::Reconnect && exists|g: FrameSpec|
                #[trigger] dispatched(handed, g, outcome.as_result(), after)
        },
        TransmissionSpec::ConnectionClosed => outcome == Inbound::Reconnect && after
            == before.disconnected(),
    }
}

/// One step of working through the inbound bytes at `now_ms`: the
/// transmission at their head is taken out and taken in.
pub open spec fn drain_step(
    before: SessionSpec,
    now_ms: u64,
    outcome: Inbound,
    after: SessionSpec,
) -> bool {
    match spec_parse(before.pending) {
        Some((t, n)) => received(
            SessionSpec { pending: before.pending.skip(n), ..before },
            t,
            now_ms,
            outcome,
            after,
        ),
        None => false,
    }
}

/// Whether `trace` lists the states of a session that works through its
/// inbound bytes at `now_ms`, one transmission after another, and ends with
/// `outcome`: either every transmission was handled, and no whole one is
/// left; or the last one that was taken in ended the work.
pub open spec fn drained(trace: Seq<SessionSpec>, now_ms: u64, outcome: Inbound) -> bool {
    &&& trace.len() >= 1
    &&& forall|i: int|
        0 <= i < trace.len() - 1 ==> drain_step(
            #[trigger] trace[i],
            now_ms,
            if i == trace.len() - 2 {
                outcome
            } else {
                Inbound::Handled
            },
            trace[i + 1],
        )
    &&& outcome == Inbound::Handled ==> spec_parse(trace.last().pending) is None
    &&& outcome != Inbound::Handled ==> trace.len() >= 2
}

/// The SUBSCRIBE frame that opens a subscription again on a new connection:
/// the frame that opened it, with the subscription's own headers behind the
/// usual ones, and without any `receipt` header.
pub open spec fn spec_resubscribe(sub: SubscriptionSpec) -> FrameSpec {
    let base = spec_subscribe(sub.id, sub.destination, sub.ack_mode);
    FrameSpec {
        headers: spec_without_key(base.headers + sub.headers, ascii("receipt")),
        ..base
    }
}

/// The SUBSCRIBE frame that opens a subscription again carries no `receipt`
/// header, whatever headers the subscription has.
pub proof fn lemma_resubscribe_asks_no_receipt(sub: SubscriptionSpec)
    ensures
        spec_lookup(spec_resubscribe(sub).headers, ascii("receipt")) is None,
{
    let base = spec_subscribe(sub.id, sub.destination, sub.ack_mode);
    lemma_without_key(base.headers + sub.headers, ascii("receipt"));
}

/// The wire forms of `frames`, one after another.
pub open spec fn spec_encode_all(frames: Seq<FrameSpec>) -> Seq<u8>
    decreases frames.len(),
{
    if frames.len() == 0 {
        Seq::<u8>::empty()
    } else {
        spec_encode_all(frames.drop_last()) + spec_encode(frames.last())
    }
}

/// The calls of the send handler with which a session opens its
/// subscriptions again: one for each subscription, in their order, with the
/// SUBSCRIBE frame that opens it again.
pub open spec fn spec_replay_calls(subscriptions: Entries<SubscriptionSpec>) -> Seq<Call> {
    Seq::new(subscriptions.len(), |i: int| Call::BeforeSend(spec_resubscribe(subscriptions[i].1)))
}

impl SessionSpec {
    /// The session on a new connection that has negotiated the given
    /// heartbeat intervals at `now_ms`, before it opens its subscriptions
    /// again: connected, with nothing in its buffers, and with both
    /// heartbeat timers armed for the new periods.
    pub open spec fn reconnected(self, negotiated: Negotiated, now_ms: u64) -> SessionSpec {
        SessionSpec {
            connected: true,
            tx_heartbeat_ms: spec_tx_period(negotiated.tx_heartbeat_ms),
            rx_heartbeat_ms: spec_rx_period(negotiated.rx_heartbeat_ms),
            ..self.disconnected()
        }.listening(now_ms)
    }
}

/// Whether `trace` lists the states of a session that has handled one
/// transmission after another at `now_ms`.
pub open spec fn steps_handled(trace: Seq<SessionSpec>, now_ms: u64) -> bool {
    &&& trace.len() >= 1
    &&& forall|i: int|
        0 <= i < trace.len() - 1 ==> drain_step(
            #[trigger] trace[i],
            now_ms,
            Inbound::Handled,
            trace[i + 1],
        )
}

/// A session that has handled every transmission so far, and finds no whole
/// one left, has worked through its inbound bytes.
pub proof fn lemma_drained_all(trace: Seq<SessionSpec>, now_ms: u64)
    requires
        steps_handled(trace, now_ms),
        spec_parse(trace.last().pending) is None,
    ensures
        drained(trace, now_ms, Inbound::Handled),
{
}

/// One more step behind steps that were all handled goes on with the work
/// when it is handled too, and ends it otherwise.
pub proof fn lemma_drained_step(
    trace: Seq<SessionSpec>,
    now_ms: u64,
    outcome: Inbound,
    next: SessionSpec,
)
    requires
        steps_handled(trace, now_ms),
        drain_step(trace.last(), now_ms, outcome, next),
    ensures
        outcome == Inbound::Handled ==> steps_handled(trace.push(next), now_ms),
        outcome != Inbound::Handled ==> drained(trace.push(next), now_ms, outcome),
        spec_parse(trace[0].pending) is Some,
{
    let wider = trace.push(next);
    assert forall|i: int| 0 <= i < wider.len() - 1 implies drain_step(
        #[trigger] wider[i],
        now_ms,
        if i == wider.len() - 2 {
            outcome
        } else {
            Inbound::Handled
        },
        wider[i + 1],
    ) by {
        if i < trace.len() - 1 {
            assert(wider[i] == trace[i]);
            assert(wider[i + 1] == trace[i + 1]);
        }
    }
    if trace.len() >= 2 {
        assert(drain_step(trace[0], now_ms, Inbound::Handled, trace[1]));
    }
}

} // verus!
