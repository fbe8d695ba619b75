//! The relay for one request: it is made when the connection stands, and
//! queues the request line, the header section and the body for it.

use crate::server::body::{
    after_read, lemma_transfer_accounts, next_read_len, transfer, BodySource, BodyUnderRead,
};
use crate::server::config::{ConnectError, RelayConnectionInfo};
use crate::server::http_request::{HttpRequestInfo, RequestView};
use crate::server::outbox::{
    lemma_wire_concat, lemma_wire_of_writes, lemma_wire_push, wire, writes_of, Outbox, WireEvent,
};
use crate::server::wire_format::{
    encode_first_line, encode_headers, first_line, header_block, lemma_first_line_length,
};
use std::rc::Rc;
use vstd::prelude::*;
use vstd::slice::slice_to_vec;

verus! {

/// One request on its way to the upstream server.
///
/// `stream` holds what has been sent: each call below adds to its end and
/// touches nothing that is already there.
pub struct Upstream {
    pub relay: Rc<RelayConnectionInfo>,
    pub request: Rc<HttpRequestInfo>,
    pub stream: Outbox,
}

impl Upstream {
    /// Binds `relay` and `request` to a connection, if there is one.
    ///
    /// `connected` is how the attempt to reach the upstream server ended. Any
    /// failure, whatever its cause, gives `None`; success gives a relay that
    /// has sent nothing yet.
    pub fn new(
        relay: Rc<RelayConnectionInfo>,
        request: Rc<HttpRequestInfo>,
        connected: Result<(), ConnectError>,
    ) -> (upstream: Option<Upstream>)
        ensures
            upstream is Some <==> connected is Ok,
            upstream matches Some(u) ==> u.relay == relay && u.request == request
                && u.stream@ == Seq::<WireEvent>::empty(),
    {
        if connected.is_err() {
            return None;
        }
        Some(Upstream { relay, request, stream: Outbox::new() })
    }

    /// Sends the request line, as one write.
    pub fn send_first_line(&mut self)
        ensures
            final(self).stream@ == old(self).stream@.push(
                WireEvent::Write(first_line(old(self).request@)),
            ),
            final(self).relay == old(self).relay,
            final(self).request == old(self).request,
    {
        let line = encode_first_line(&*self.request);
        self.stream.write(line);
    }

    /// Sends the header section, as one write.
    pub fn send_headers(&mut self)
        ensures
            final(self).stream@ == old(self).stream@.push(
                WireEvent::Write(header_block(old(self).relay@.host, old(self).request@)),
            ),
            final(self).relay == old(self).relay,
            final(self).request == old(self).request,
    {
        let block = encode_headers(&*self.relay, &*self.request);
        self.stream.write(block);
    }

    /// Sends the body: as many bytes from `reader` as the request's content
    /// length says, each read as one write.
    ///
    /// What goes out, what is left in `reader` and how many bytes are missing
    /// is what `transfer` says. The call fails exactly when bytes are missing,
    /// and then says how many; what was read until then has gone out. In
    /// bytes: nothing of the source is lost or reordered, and on success the
    /// wire has grown by the content length, no more and no less.
    pub fn send_body(&mut self, reader: &mut BodySource) -> (result: Result<(), BodyUnderRead>)
        ensures
            final(self).stream@ == old(self).stream@ + writes_of(
                transfer(old(self).request@.content_length, old(reader)@).sent,
            ),
            final(reader)@ == transfer(old(self).request@.content_length, old(reader)@).unread,
            match result {
                Ok(_) => transfer(old(self).request@.content_length, old(reader)@).missing == 0,
                Err(under_read) => 0 < under_read.missing == transfer(
                    old(self).request@.content_length,
                    old(reader)@,
                ).missing,
            },
            wire(final(self).stream@) + final(reader)@.flatten() == wire(old(self).stream@) + old(
                reader,
            )@.flatten(),
            result is Ok ==> wire(final(self).stream@).len() == wire(old(self).stream@).len()
                + old(self).request@.content_length,
            final(self).relay == old(self).relay,
            final(self).request == old(self).request,
    {
        let ghost whole = transfer(self.request@.content_length, reader@);
        let ghost mut sent: Seq<Seq<u8>> = Seq::empty();
        let mut remaining: u64 = self.request.http_request_header.content_length;
        proof {
            assert(self.stream@ =~= old(self).stream@ + writes_of(sent));
            lemma_transfer_accounts(self.request@.content_length, reader@);
            lemma_wire_of_writes(whole.sent);
            lemma_wire_concat(self.stream@, writes_of(whole.sent));
            assert((wire(self.stream@) + whole.sent.flatten()) + whole.unread.flatten() =~= wire(
                self.stream@,
            ) + (whole.sent.flatten() + whole.unread.flatten()));
        }
        while remaining > 0
            invariant
                whole == transfer(old(self).request@.content_length, old(reader)@),
                wire(old(self).stream@ + writes_of(whole.sent)) + whole.unread.flatten() == wire(
                    old(self).stream@,
                ) + old(reader)@.flatten(),
                wire(old(self).stream@ + writes_of(whole.sent)).len() + whole.missing == wire(
                    old(self).stream@,
                ).len() + old(self).request@.content_length,
                self.relay == old(self).relay,
                self.request == old(self).request,
                self.stream@ == old(self).stream@ + writes_of(sent),
                whole.sent == sent + transfer(remaining as nat, reader@).sent,
                whole.unread == transfer(remaining as nat, reader@).unread,
                whole.missing == transfer(remaining as nat, reader@).missing,
            decreases remaining,
        {
            let ghost before = reader@;
            let chunk = reader.read(next_read_len(remaining));
            match after_read(remaining, chunk.len()) {
                Err(under_read) => {
                    proof {
                        assert(transfer(remaining as nat, before).sent == Seq::<
                            Seq<u8>,
                        >::empty());
                        assert(sent + Seq::<Seq<u8>>::empty() =~= sent);
                    }
                    return Err(under_read);
                },
                Ok(left) => {
                    self.send(chunk.as_slice());
                    proof {
                        let tail = transfer(left as nat, reader@);
                        assert(transfer(remaining as nat, before).sent == seq![chunk@]
                            + tail.sent);
                        assert(sent + (seq![chunk@] + tail.sent) =~= sent.push(chunk@)
                            + tail.sent);
                        assert(old(self).stream@ + writes_of(sent.push(chunk@)) =~= (old(
                            self,
                        ).stream@ + writes_of(sent)).push(WireEvent::Write(chunk@)));
                        sent = sent.push(chunk@);
                    }
                    remaining = left;
                },
            }
        }
        proof {
            assert(sent + Seq::<Seq<u8>>::empty() =~= sent);
        }
        Ok(())
    }

    /// Sends `buf`, as one write.
    pub fn send(&mut self, buf: &[u8])
        ensures
            final(self).stream@ == old(self).stream@.push(WireEvent::Write(buf@)),
            final(self).relay == old(self).relay,
            final(self).request == old(self).request,
    {
        self.stream.write(slice_to_vec(buf));
    }

    /// Asks for what has been sent to be pushed out.
    pub fn flush(&mut self)
        ensures
            final(self).stream@ == old(self).stream@.push(WireEvent::Flush),
            final(self).relay == old(self).relay,
            final(self).request == old(self).request,
    {
        self.stream.flush();
    }
}

/// Nothing is sent only once by itself: a second call of `send_first_line`
/// puts the request line on the wire a second time, after the first, and
/// the wire is then not what it was after one call.
pub proof fn lemma_first_line_twice(sent: Seq<WireEvent>, request: RequestView)
    ensures
        wire(
            sent.push(WireEvent::Write(first_line(request))).push(
                WireEvent::Write(first_line(request)),
            ),
        ) == wire(sent) + first_line(request) + first_line(request),
        wire(
            sent.push(WireEvent::Write(first_line(request))).push(
                WireEvent::Write(first_line(request)),
            ),
        ) != wire(sent.push(WireEvent::Write(first_line(request)))),
{
    let line = WireEvent::Write(first_line(request));
    lemma_wire_push(sent, line);
    lemma_wire_push(sent.push(line), line);
    lemma_first_line_length(request);
}

} // verus!
