//! The fluent way to subscribe: start from `Session::subscription`, choose
//! an acknowledgement mode or add headers, and finish with `start`.

use vstd::prelude::*;
use crate::bytes::{decimal, spec_decimal};
use crate::frame::{Frame, FrameSpec, spec_subscribe, spec_unsubscribe};
use crate::header::{HeaderList, HeaderSpec};
use crate::model::{sent, SessionSpec, spec_next_id};
use crate::registry::{lemma_insert_then_remove, spec_contains, spec_insert, spec_remove};
use crate::session::{ConnectionLost, Handlers, Session};
use crate::subscription::{AckMode, BoxedMessageHandler, Subscription, SubscriptionSpec};

verus! {

/// A subscription in the making, and the session that will open it.
pub struct SubscriptionBuilder<'b, 'a> {
    pub session: &'b mut Session<'a>,
    pub destination: Vec<u8>,
    pub ack_mode: AckMode,
    pub handler: BoxedMessageHandler<'a>,
    pub headers: HeaderList,
}

/// The SUBSCRIBE frame that opens a subscription: the usual headers, and
/// the subscription's own headers behind them.
pub open spec fn spec_subscribe_with(
    id: Seq<u8>,
    destination: Seq<u8>,
    ack_mode: AckMode,
    headers: Seq<HeaderSpec>,
) -> FrameSpec {
    let base = spec_subscribe(id, destination, ack_mode);
    FrameSpec { headers: base.headers + headers, ..base }
}

/// The SUBSCRIBE frame that opens a subscription with headers of its own.
pub fn subscribe_frame(id: &[u8], destination: &[u8], ack_mode: AckMode, headers: &HeaderList) -> (r:
    Frame)
    ensures
        r@ == spec_subscribe_with(id@, destination@, ack_mode, headers@),
{
    let mut frame = Frame::subscribe(id, destination, ack_mode);
    let mut own = headers.clone();
    frame.headers.concat(&mut own);
    frame
}

impl<'b, 'a> SubscriptionBuilder<'b, 'a> {
    /// Chooses how messages are acknowledged.
    pub fn with_ack_mode(self, ack_mode: AckMode) -> (r: SubscriptionBuilder<'b, 'a>)
        ensures
            *final(r.session) == *final(self.session),
            r.session@ == old(self.session)@,
            r.session.wf() == old(self.session).wf(),
            r.session.handlers() == old(self.session).handlers(),
            r.handler == self.handler,
            r.destination@ == self.destination@,
            r.ack_mode == ack_mode,
            r.headers@ == self.headers@,
    {
        let SubscriptionBuilder { session, destination, ack_mode: _, handler, headers } = self;
        SubscriptionBuilder {
            session: session,
            destination: destination,
            ack_mode: ack_mode,
            handler: handler,
            headers: headers,
        }
    }

    /// Adds the header `key:value` to the subscription.
    pub fn with_header(self, key: &[u8], value: &[u8]) -> (r: SubscriptionBuilder<'b, 'a>)
        ensures
            *final(r.session) == *final(self.session),
            r.session@ == old(self.session)@,
            r.session.wf() == old(self.session).wf(),
            r.session.handlers() == old(self.session).handlers(),
            r.handler == self.handler,
            r.destination@ == self.destination@,
            r.ack_mode == self.ack_mode,
            r.headers@ == self.headers@.push((key@, value@)),
    {
        let SubscriptionBuilder { session, destination, ack_mode, handler, headers } = self;
        let mut headers = headers;
        headers.add(key, value);
        SubscriptionBuilder {
            session: session,
            destination: destination,
            ack_mode: ack_mode,
            handler: handler,
            headers: headers,
        }
    }

    /// Opens the subscription and returns its identifier.
    ///
    /// The session takes its next subscription identifier and sends a
    /// SUBSCRIBE frame. Once the frame is sent, the session keeps the
    /// subscription under the identifier. On a lost connection nothing is
    /// sent and nothing is kept.
    pub fn start(self) -> (r: Result<Vec<u8>, ConnectionLost>)
        requires
            old(self.session).wf(),
        ensures
            final(self.session).wf(),
            started(
                old(self.session)@,
                self.destination@,
                self.ack_mode,
                self.headers@,
                r.is_ok(),
                final(self.session)@,
            ),
            r matches Ok(id) ==> id@ == spec_decimal(old(self.session)@.next_subscription_id as nat),
            match r {
                Ok(id) => exists|subscription: Subscription<'a>|
                    {
                        &&& subscription.handler == self.handler
                        &&& subscription@ == (SubscriptionSpec {
                            id: id@,
                            destination: self.destination@,
                            ack_mode: self.ack_mode,
                            headers: self.headers@,
                        })
                        &&& final(self.session).handlers().before_send.is_still(
                            old(self.session).handlers().before_send,
                        )
                        &&& final(self.session).handlers() == (Handlers {
                            before_send: final(self.session).handlers().before_send,
                            subscriptions: #[trigger] spec_insert(
                                old(self.session).handlers().subscriptions,
                                id@,
                                subscription,
                            ),
                            ..old(self.session).handlers()
                        })
                    },
                Err(_) => old(self.session).handlers().but_before_send(
                    final(self.session).handlers(),
                ),
            },
    {
        let SubscriptionBuilder { session, destination, ack_mode, handler, headers } = self;
        let next_id = session.generate_subscription_id();
        let id = decimal(next_id as u64);
        let frame = subscribe_frame(id.as_slice(), destination.as_slice(), ack_mode, &headers);
        let ghost counted = session@;
        match session.send(frame) {
            Err(lost) => Err(lost),
            Ok(_) => {
                let subscription = Subscription::new(
                    id.clone(),
                    destination,
                    ack_mode,
                    headers,
                    handler,
                );
                let ghost queued = session@;
                let ghost kept = subscription;
                session.add_subscription(subscription);
                assert(sent(counted, frame@, Ok(()), queued));
                assert(session.handlers() == (Handlers {
                    before_send: session.handlers().before_send,
                    subscriptions: spec_insert(
                        old(self.session).handlers().subscriptions,
                        id@,
                        kept,
                    ),
                    ..old(self.session).handlers()
                }));
                Ok(id)
            },
        }
    }
}

/// What starting a subscription does to a session.
///
/// The session has taken its next subscription identifier and has sent the
/// SUBSCRIBE frame. On a live connection the subscription then stands under
/// the identifier. On a lost connection sending has failed, and no
/// subscription was added.
pub open spec fn started(
    before: SessionSpec,
    destination: Seq<u8>,
    ack_mode: AckMode,
    headers: Seq<HeaderSpec>,
    ok: bool,
    after: SessionSpec,
) -> bool {
    let id = spec_decimal(before.next_subscription_id as nat);
    let counted = SessionSpec {
        next_subscription_id: spec_next_id(before.next_subscription_id),
        ..before
    };
    let frame = spec_subscribe_with(id, destination, ack_mode, headers);
    if before.connected {
        ok && exists|queued: SessionSpec|
            sent(counted, frame, Ok(()), queued) && after == (SessionSpec {
                subscriptions: spec_insert(
                    queued.subscriptions,
                    id,
                    SubscriptionSpec {
                        id: id,
                        destination: destination,
                        ack_mode: ack_mode,
                        headers: headers,
                    },
                ),
                ..queued
            })
    } else {
        !ok && sent(counted, frame, Err(ConnectionLost), after)
    }
}

/// Starting a subscription under an identifier that is not taken, and then
/// unsubscribing from it, leaves the subscriptions as they were before.
pub proof fn lemma_start_then_unsubscribe(
    before: SessionSpec,
    destination: Seq<u8>,
    ack_mode: AckMode,
    headers: Seq<HeaderSpec>,
    between: SessionSpec,
    result: Result<(), ConnectionLost>,
    after: SessionSpec,
)
    requires
        started(before, destination, ack_mode, headers, true, between),
        !spec_contains(before.subscriptions, spec_decimal(before.next_subscription_id as nat)),
        sent(
            SessionSpec {
                subscriptions: spec_remove(
                    between.subscriptions,
                    spec_decimal(before.next_subscription_id as nat),
                ),
                ..between
            },
            spec_unsubscribe(spec_decimal(before.next_subscription_id as nat)),
            result,
            after,
        ),
    ensures
        after.subscriptions == before.subscriptions,
{
    let id = spec_decimal(before.next_subscription_id as nat);
    let subscription = SubscriptionSpec {
        id: id,
        destination: destination,
        ack_mode: ack_mode,
        headers: headers,
    };
    lemma_insert_then_remove(before.subscriptions, id, subscription);
    let counted = SessionSpec {
        next_subscription_id: spec_next_id(before.next_subscription_id),
        ..before
    };
    let queued = choose|queued: SessionSpec|
        sent(
            counted,
            spec_subscribe_with(id, destination, ack_mode, headers),
            Ok(()),
            queued,
        ) && between == (SessionSpec {
            subscriptions: spec_insert(queued.subscriptions, id, subscription),
            ..queued
        });
    assert(queued.subscriptions == before.subscriptions);
}

} // verus!
