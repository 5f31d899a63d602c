//! Transactions: a BEGIN frame, messages that carry the transaction's
//! identifier, and a COMMIT or an ABORT frame.

use vstd::prelude::*;
use crate::bytes::{ascii, ascii_bytes, decimal, spec_decimal};
use crate::frame::{Frame, spec_abort, spec_begin, spec_commit, spec_send};
use crate::message_builder::MessageBuilder;
use crate::model::sent;
use crate::session::{ConnectionLost, Session};

verus! {

/// An open transaction, and the session that it runs in.
pub struct Transaction<'b, 'a> {
    pub id: Vec<u8>,
    pub session: &'b mut Session<'a>,
}

/// The identifier of the transaction with the given number: `tx/` and the
/// number in decimal.
pub open spec fn spec_transaction_id(id: u32) -> Seq<u8> {
    ascii("tx/") + spec_decimal(id as nat)
}

impl<'b, 'a> Transaction<'b, 'a> {
    /// The transaction with the given number in `session`. Nothing is sent
    /// yet.
    pub fn new(id: u32, session: &'b mut Session<'a>) -> (r: Transaction<'b, 'a>)
        ensures
            r.id@ == spec_transaction_id(id),
            *final(r.session) == *final(session),
            r.session@ == old(session)@,
            r.session.wf() == old(session).wf(),
            r.session.handlers() == old(session).handlers(),
    {
        proof {
            reveal_strlit("tx/");
        }
        let mut text = ascii_bytes("tx/");
        let mut digits = decimal(id as u64);
        text.append(&mut digits);
        Transaction { id: text, session: session }
    }

    /// Sends the BEGIN frame.
    pub fn begin(&mut self) -> (r: Result<(), ConnectionLost>)
        ensures
            final(self).id@ == old(self).id@,
            *final(final(self).session) == *final(old(self).session),
            old(self).session.wf() ==> final(self).session.wf(),
            old(self).session.handlers().but_before_send(final(self).session.handlers()),
            sent(old(self).session@, spec_begin(old(self).id@), r, final(self).session@),
    {
        let frame = Frame::begin(self.id.as_slice());
        self.session.send(frame)
    }

    /// A message that is part of the transaction: a SEND frame for
    /// `destination` with `body`, and with the header
    /// `transaction:<identifier>`.
    pub fn message<'c>(&'c mut self, destination: &[u8], body: &[u8]) -> (r: MessageBuilder<
        'c,
        'a,
    >)
        ensures
            final(self).id@ == old(self).id@,
            *final(final(self).session) == *final(old(self).session),
            r.session@ == old(self).session@,
            r.session.wf() == old(self).session.wf(),
            r.session.handlers() == old(self).session.handlers(),
            final(r.session)@ == final(self).session@,
            final(r.session).wf() == final(self).session.wf(),
            final(r.session).handlers() == final(self).session.handlers(),
            r.frame@ == spec_send(destination@, body@).with_header(
                ascii("transaction"),
                old(self).id@,
            ),
    {
        proof {
            reveal_strlit("transaction");
        }
        let frame = Frame::send(destination, body).with_header(
            ascii_bytes("transaction").as_slice(),
            self.id.as_slice(),
        );
        MessageBuilder { session: &mut *self.session, frame: frame }
    }

    /// Sends the COMMIT frame and ends the transaction.
    pub fn commit(self) -> (r: Result<(), ConnectionLost>)
        ensures
            old(self.session).wf() ==> final(self.session).wf(),
            old(self.session).handlers().but_before_send(final(self.session).handlers()),
            sent(old(self.session)@, spec_commit(self.id@), r, final(self.session)@),
    {
        let Transaction { id, session } = self;
        let frame = Frame::commit(id.as_slice());
        session.send(frame)
    }

    /// Sends the ABORT frame and ends the transaction.
    pub fn abort(self) -> (r: Result<(), ConnectionLost>)
        ensures
            old(self.session).wf() ==> final(self.session).wf(),
            old(self.session).handlers().but_before_send(final(self.session).handlers()),
            sent(old(self.session)@, spec_abort(self.id@), r, final(self.session)@),
    {
        let Transaction { id, session } = self;
        let frame = Frame::abort(id.as_slice());
        session.send(frame)
    }
}

} // verus!
