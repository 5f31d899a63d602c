//! The fluent way to send a message: start from `Session::message`, add
//! headers or ask for a receipt, and finish with `send`.

use vstd::prelude::*;
use crate::bytes::{ascii, ascii_bytes, decimal, spec_decimal};
use crate::frame::Frame;
use crate::model::{sent, SessionSpec, spec_next_id};
use crate::registry::spec_insert;
use crate::session::{
    BoxedFrameHandler, ConnectionLost, Handlers, ReceiptHandler, Session, ToFrameHandler,
};

verus! {

/// A message in the making, and the session that will send it.
pub struct MessageBuilder<'b, 'a> {
    pub session: &'b mut Session<'a>,
    pub frame: Frame,
}

impl<'b, 'a> MessageBuilder<'b, 'a> {
    /// Adds the header `key:value` to the message.
    pub fn with_header(self, key: &[u8], value: &[u8]) -> (r: MessageBuilder<'b, 'a>)
        ensures
            *final(r.session) == *final(self.session),
            r.session@ == old(self.session)@,
            r.session.wf() == old(self.session).wf(),
            r.session.handlers() == old(self.session).handlers(),
            r.frame@ == self.frame@.with_header(key@, value@),
    {
        let MessageBuilder { session, frame } = self;
        MessageBuilder { session: session, frame: frame.with_header(key, value) }
    }

    /// Asks for a receipt: the session takes its next receipt identifier,
    /// keeps the handler under it until the receipt arrives, and the message
    /// gets the header `receipt:<identifier>`.
    pub fn with_receipt<T>(self, handler: ReceiptHandler<'a, T>) -> (r: MessageBuilder<'b, 'a>) where
        T: 'a + ToFrameHandler<'a>,

        requires
            old(self.session).wf(),
        ensures
            r.session.wf(),
            *final(r.session) == *final(self.session),
            r.session@ == (SessionSpec {
                next_receipt_id: spec_next_id(old(self.session)@.next_receipt_id),
                receipts: spec_insert(
                    old(self.session)@.receipts,
                    spec_decimal(old(self.session)@.next_receipt_id as nat),
                    (),
                ),
                ..old(self.session)@
            }),
            r.frame@ == self.frame@.with_header(
                ascii("receipt"),
                spec_decimal(old(self.session)@.next_receipt_id as nat),
            ),
            exists|stored: BoxedFrameHandler<'a>|
                {
                    &&& call_ensures(
                        <T as ToFrameHandler<'a>>::to_frame_handler,
                        (handler.handler,),
                        stored,
                    )
                    &&& r.session.handlers() == (Handlers {
                        receipts: #[trigger] spec_insert(
                            old(self.session).handlers().receipts,
                            spec_decimal(old(self.session)@.next_receipt_id as nat),
                            stored,
                        ),
                        ..old(self.session).handlers()
                    })
                },
    {
        proof {
            reveal_strlit("receipt");
        }
        let MessageBuilder { session, frame } = self;
        let next_receipt_id = session.generate_receipt_id();
        let receipt_id = decimal(next_receipt_id as u64);
        let frame = frame.with_header(ascii_bytes("receipt").as_slice(), receipt_id.as_slice());
        let convert = <T as ToFrameHandler<'a>>::to_frame_handler;
        let stored = convert(handler.handler);
        let ghost kept = stored;
        session.add_receipt_handler(receipt_id, stored);
        assert(session.handlers() == (Handlers {
            receipts: spec_insert(
                old(self.session).handlers().receipts,
                spec_decimal(old(self.session)@.next_receipt_id as nat),
                kept,
            ),
            ..old(self.session).handlers()
        }));
        MessageBuilder { session: session, frame: frame }
    }

    /// Sends the message, with a `content-length` header behind the headers
    /// that were added.
    pub fn send(self) -> (r: Result<(), ConnectionLost>)
        ensures
            old(self.session).wf() ==> final(self.session).wf(),
            old(self.session).handlers().but_before_send(final(self.session).handlers()),
            sent(old(self.session)@, self.frame@.with_content_length(), r, final(self.session)@),
    {
        let MessageBuilder { session, frame } = self;
        session.send(frame.with_content_length())
    }
}

} // verus!
