//! The relay's side of the connection: what it has asked the transport to
//! do, in order, for the owner of the socket to carry out.

use vstd::prelude::*;

verus! {

/// One thing the transport is to do.
#[derive(Clone, Debug, PartialEq, Eq)]
pub enum WireOp {
    /// Write these bytes, all of them, in one go.
    Write(Vec<u8>),
    /// Push out whatever the transport still holds back.
    Flush,
}

/// A `WireOp` with its bytes as a sequence.
pub enum WireEvent {
    Write(Seq<u8>),
    Flush,
}

impl WireEvent {
    /// The bytes that this step puts on the wire.
    pub open spec fn payload(self) -> Seq<u8> {
        match self {
            WireEvent::Write(bytes) => bytes,
            WireEvent::Flush => Seq::empty(),
        }
    }
}

impl View for WireOp {
    type V = WireEvent;

    open spec fn view(&self) -> WireEvent {
        match self {
            WireOp::Write(bytes) => WireEvent::Write(bytes@),
            WireOp::Flush => WireEvent::Flush,
        }
    }
}

/// The views of a list of steps, in the same order.
pub open spec fn events(ops: Seq<WireOp>) -> Seq<WireEvent> {
    Seq::new(ops.len(), |i: int| ops[i]@)
}

/// The byte stream that a list of steps amounts to: the payloads of its
/// writes, one after the other.
pub open spec fn wire(steps: Seq<WireEvent>) -> Seq<u8>
    decreases steps.len(),
{
    if steps.len() == 0 {
        Seq::empty()
    } else {
        wire(steps.drop_last()) + steps.last().payload()
    }
}

/// One write for each of the given chunks, in their order.
pub open spec fn writes_of(chunks: Seq<Seq<u8>>) -> Seq<WireEvent> {
    Seq::new(chunks.len(), |i: int| WireEvent::Write(chunks[i]))
}

/// The steps that wait to be carried out, oldest first.
#[derive(Clone, Debug, PartialEq, Eq)]
pub struct Outbox {
    pub ops: Vec<WireOp>,
}

impl View for Outbox {
    type V = Seq<WireEvent>;

    open spec fn view(&self) -> Seq<WireEvent> {
        events(self.ops@)
    }
}

impl Outbox {
    /// An outbox with nothing in it.
    pub fn new() -> (outbox: Outbox)
        ensures
            outbox@ == Seq::<WireEvent>::empty(),
    {
        Outbox { ops: Vec::new() }
    }

    /// Queues one write of `bytes`.
    pub fn write(&mut self, bytes: Vec<u8>)
        ensures
            final(self)@ == old(self)@.push(WireEvent::Write(bytes@)),
    {
        self.ops.push(WireOp::Write(bytes));
    }

    /// Queues a flush.
    pub fn flush(&mut self)
        ensures
            final(self)@ == old(self)@.push(WireEvent::Flush),
    {
        self.ops.push(WireOp::Flush);
    }

    /// Hands out the queued steps, oldest first, and leaves the outbox empty.
    pub fn take(&mut self) -> (ops: Vec<WireOp>)
        ensures
            events(ops@) == old(self)@,
            final(self)@ == Seq::<WireEvent>::empty(),
    {
        let mut ops: Vec<WireOp> = Vec::new();
        std::mem::swap(&mut self.ops, &mut ops);
        ops
    }

    /// The byte stream that the queued steps amount to.
    pub fn bytes(&self) -> (stream: Vec<u8>)
        ensures
            stream@ == wire(self@),
    {
        let mut stream: Vec<u8> = Vec::new();
        let mut i: usize = 0;
        while i < self.ops.len()
            invariant
                i <= self.ops.len(),
                stream@ == wire(self@.take(i as int)),
            decreases self.ops.len() - i,
        {
            proof {
                let next = self@.take(i + 1);
                assert(next.drop_last() == self@.take(i as int));
                assert(next.last() == self.ops@[i as int]@);
            }
            match &self.ops[i] {
                WireOp::Write(bytes) => {
                    stream.extend_from_slice(bytes.as_slice());
                },
                WireOp::Flush => {},
            }
            i += 1;
        }
        proof {
            assert(self@.take(i as int) == self@);
        }
        stream
    }
}

/// Appending steps appends their bytes.
pub proof fn lemma_wire_concat(a: Seq<WireEvent>, b: Seq<WireEvent>)
    ensures
        wire(a + b) == wire(a) + wire(b),
    decreases b.len(),
{
    if b.len() == 0 {
        assert(a + b == a);
    } else {
        lemma_wire_concat(a, b.drop_last());
        assert((a + b).drop_last() == a + b.drop_last());
        assert((a + b).last() == b.last());
    }
}

/// A run of writes puts their chunks on the wire, one after the other.
pub proof fn lemma_wire_of_writes(chunks: Seq<Seq<u8>>)
    ensures
        wire(writes_of(chunks)) == chunks.flatten(),
    decreases chunks.len(),
{
    if chunks.len() == 0 {
    } else {
        let front = chunks.drop_last();
        lemma_wire_of_writes(front);
        front.lemma_flatten_push(chunks.last());
        assert(front.push(chunks.last()) == chunks);
        assert(writes_of(chunks).drop_last() == writes_of(front));
    }
}

/// One more step appends its payload to the byte stream.
pub proof fn lemma_wire_push(steps: Seq<WireEvent>, step: WireEvent)
    ensures
        wire(steps.push(step)) == wire(steps) + step.payload(),
{
    assert(steps.push(step).drop_last() == steps);
}

} // verus!
