//! Subscriptions: acknowledgement policy, the user's message handler, and the
//! record that the session keeps for each active subscription.

use vstd::prelude::*;
use crate::bytes::{ascii, ascii_bytes};
use crate::frame::Frame;
use crate::header::{HeaderList, HeaderSpec};

verus! {

/// Whether an inbound MESSAGE has to be acknowledged explicitly.
#[derive(Clone, Copy, Debug, PartialEq, Eq, Structural)]
pub enum AckMode {
    Auto,
    Client,
    ClientIndividual,
}

/// What a message handler decides about a message.
#[derive(Clone, Copy, Debug, PartialEq, Eq, Structural)]
pub enum AckOrNack {
    Ack,
    Nack,
}

impl AckMode {
    /// The value of the `ack` header that announces this mode.
    pub open spec fn spec_text(self) -> Seq<u8> {
        match self {
            AckMode::Auto => ascii("auto"),
            AckMode::Client => ascii("client"),
            AckMode::ClientIndividual => ascii("client-individual"),
        }
    }

    /// The value of the `ack` header that announces this mode.
    pub fn as_text(&self) -> (r: Vec<u8>)
        ensures
            r@ == self.spec_text(),
    {
        proof {
            reveal_strlit("auto");
            reveal_strlit("client");
            reveal_strlit("client-individual");
        }
        match self {
            AckMode::Auto => ascii_bytes("auto"),
            AckMode::Client => ascii_bytes("client"),
            AckMode::ClientIndividual => ascii_bytes("client-individual"),
        }
    }
}

/// What the user supplies to consume the messages of a subscription.
pub trait MessageHandler {
    /// Called with every message of the subscription; the answer says
    /// whether the message is to be acknowledged.
    fn on_message(&mut self, frame: &Frame) -> AckOrNack;
}

/// A decision is a handler of its own: it takes that decision on every
/// message, and stays as it is.
impl MessageHandler for AckOrNack {
    fn on_message(&mut self, frame: &Frame) -> (r: AckOrNack)
        ensures
            r == *old(self),
            *final(self) == *old(self),
    {
        *self
    }
}

/// A handler as it is stored: behind a pointer that hides its type, and
/// beside it the handler as it was when it was stored. Calls change the
/// first and leave the second, so that the second tells which handler it is
/// that stands in a place.
pub struct Stored<V> {
    pub handler: V,
    pub installed: Ghost<Installed<V>>,
}

/// A handler as it was when it was stored.
pub struct Installed<V> {
    pub handler: V,
}

impl<V> Stored<V> {
    /// Whether this is the handler that `before` was, whatever calls have
    /// made of it since.
    pub open spec fn is_still(self, before: Stored<V>) -> bool {
        self.installed == before.installed
    }
}

/// A message handler as the session stores it.
pub type BoxedMessageHandler<'a> = Stored<Box<dyn MessageHandler + 'a>>;

/// What can be turned into a stored message handler.
pub trait ToMessageHandler<'a> {
    fn to_message_handler(self) -> BoxedMessageHandler<'a>;
}

/// A message handler as it is stored: the handler itself, behind a pointer
/// that hides its type.
pub open spec fn stored_message_handler<'a, T: MessageHandler + 'a>(
    handler: T,
) -> BoxedMessageHandler<'a> {
    Stored {
        handler: Box::new(handler),
        installed: Ghost(Installed { handler: Box::new(handler) }),
    }
}

impl<'a, T: 'a> ToMessageHandler<'a> for T where T: MessageHandler {
    fn to_message_handler(self) -> (r: BoxedMessageHandler<'a>)
        ensures
            r == stored_message_handler(self),
    {
        let ghost as_stored = stored_message_handler(self);
        let r: BoxedMessageHandler<'a> = Stored {
            handler: Box::new(self),
            installed: Ghost(as_stored.installed@),
        };
        r
    }
}

/// The mathematical value of a subscription: everything but its handler.
pub struct SubscriptionSpec {
    pub id: Seq<u8>,
    pub destination: Seq<u8>,
    pub ack_mode: AckMode,
    pub headers: Seq<HeaderSpec>,
}

/// An active subscription.
pub struct Subscription<'a> {
    pub id: Vec<u8>,
    pub destination: Vec<u8>,
    pub ack_mode: AckMode,
    pub headers: HeaderList,
    pub handler: BoxedMessageHandler<'a>,
}

impl<'a> View for Subscription<'a> {
    type V = SubscriptionSpec;

    open spec fn view(&self) -> SubscriptionSpec {
        SubscriptionSpec {
            id: self.id@,
            destination: self.destination@,
            ack_mode: self.ack_mode,
            headers: self.headers@,
        }
    }
}

impl<'a> Subscription<'a> {
    /// A subscription with the given parts.
    pub fn new(
        id: Vec<u8>,
        destination: Vec<u8>,
        ack_mode: AckMode,
        headers: HeaderList,
        handler: BoxedMessageHandler<'a>,
    ) -> (r: Subscription<'a>)
        ensures
            r@ == (SubscriptionSpec {
                id: id@,
                destination: destination@,
                ack_mode: ack_mode,
                headers: headers@,
            }),
            r.handler == handler,
    {
        Subscription {
            id: id,
            destination: destination,
            ack_mode: ack_mode,
            headers: headers,
            handler: handler,
        }
    }
}

} // verus!
