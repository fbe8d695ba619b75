//! Streaming a request body: a source that hands out chunks, how much to
//! ask of it, and what to make of what it gave.

use vstd::prelude::*;
use vstd::slice::{slice_subrange, slice_to_vec};

verus! {

/// The most that is asked of a body source, and so written, in one go.
pub const TRANSFER_BUFFER: usize = 4096;

/// The body source ended while bytes of the body were still owed.
#[derive(Clone, Copy, Debug, PartialEq, Eq)]
pub struct BodyUnderRead {
    /// How many bytes of the body never came.
    pub missing: u64,
}

/// How many bytes to ask for when `remaining` bytes of the body are owed:
/// all of them if they fit the transfer buffer, else a buffer full.
pub open spec fn read_limit(remaining: nat) -> nat {
    if remaining < TRANSFER_BUFFER as nat {
        remaining
    } else {
        TRANSFER_BUFFER as nat
    }
}

/// What a source with the chunks `unread` before it returns when asked for
/// up to `max` bytes: its first chunk, or as much of it as was asked for; and
/// nothing once no chunk is left.
pub open spec fn read_data(unread: Seq<Seq<u8>>, max: nat) -> Seq<u8> {
    if unread.len() == 0 {
        Seq::empty()
    } else if unread[0].len() <= max {
        unread[0]
    } else {
        unread[0].take(max as int)
    }
}

/// What such a source has before it after that read.
pub open spec fn read_rest(unread: Seq<Seq<u8>>, max: nat) -> Seq<Seq<u8>> {
    if unread.len() == 0 {
        unread
    } else if unread[0].len() <= max {
        unread.drop_first()
    } else {
        unread.update(0, unread[0].skip(max as int))
    }
}

/// The contents of a list of chunks, in the same order.
pub open spec fn chunk_views(chunks: Seq<Vec<u8>>) -> Seq<Seq<u8>> {
    Seq::new(chunks.len(), |i: int| chunks[i]@)
}

/// A body held in memory as the chunks in which it is to arrive.
///
/// A read never crosses a chunk's end, so a short chunk gives a short read.
/// An empty chunk, like the end of the list, reads as zero bytes: the sign
/// that the source has ended.
pub struct BodySource {
    chunks: Vec<Vec<u8>>,
    next: usize,
    offset: usize,
}

impl View for BodySource {
    type V = Seq<Seq<u8>>;

    /// What is still to be read: the rest of the chunk that the source is in,
    /// then the chunks after it.
    closed spec fn view(&self) -> Seq<Seq<u8>> {
        Seq::new(
            (self.chunks.len() - self.next) as nat,
            |i: int|
                if i == 0 {
                    self.chunks@[self.next as int]@.skip(self.offset as int)
                } else {
                    self.chunks@[self.next + i]@
                },
        )
    }
}

impl BodySource {
    #[verifier::type_invariant]
    spec fn well_formed(self) -> bool {
        &&& self.next <= self.chunks.len()
        &&& self.next == self.chunks.len() ==> self.offset == 0
        &&& self.next < self.chunks.len() ==> self.offset == 0 || self.offset
            < self.chunks@[self.next as int].len()
    }

    /// A source that will hand out `chunks`, first to last.
    pub fn new(chunks: Vec<Vec<u8>>) -> (source: BodySource)
        ensures
            source@ == chunk_views(chunks@),
    {
        let source = BodySource { chunks, next: 0, offset: 0 };
        assert(source@ =~~= chunk_views(chunks@));
        source
    }

    /// Reads up to `max` bytes. An empty result means that the source has
    /// ended, or that nothing was asked for.
    pub fn read(&mut self, max: usize) -> (data: Vec<u8>)
        ensures
            data@ == read_data(old(self)@, max as nat),
            final(self)@ == read_rest(old(self)@, max as nat),
    {
        proof {
            use_type_invariant(&*self);
        }
        if self.next >= self.chunks.len() {
            return Vec::new();
        }
        let chunk = &self.chunks[self.next];
        let left = chunk.len() - self.offset;
        if left <= max {
            let data = slice_to_vec(slice_subrange(chunk.as_slice(), self.offset, chunk.len()));
            self.offset = 0;
            self.next = self.next + 1;
            assert(self@ =~~= read_rest(old(self)@, max as nat));
            data
        } else {
            let data = slice_to_vec(
                slice_subrange(chunk.as_slice(), self.offset, self.offset + max),
            );
            self.offset = self.offset + max;
            assert(data@ =~= read_data(old(self)@, max as nat));
            assert(self@ =~~= read_rest(old(self)@, max as nat));
            data
        }
    }
}

/// How a transfer ends.
pub struct Transfer {
    /// The chunks that went out, each as one write, in order.
    pub sent: Seq<Seq<u8>>,
    /// What the source still has before it afterwards.
    pub unread: Seq<Seq<u8>>,
    /// How many bytes of the body never came; zero when the transfer succeeded.
    pub missing: nat,
}

/// The transfer of a body of which `remaining` bytes are owed, from a source
/// with `unread` before it.
///
/// While bytes are owed, the source is asked for `read_limit` of them. What
/// it gives goes out as one write and is no longer owed. If it gives nothing,
/// the transfer has failed, with all that is owed missing.
pub open spec fn transfer(remaining: nat, unread: Seq<Seq<u8>>) -> Transfer
    decreases remaining,
{
    if remaining == 0 {
        Transfer { sent: Seq::empty(), unread, missing: 0 }
    } else {
        let data = read_data(unread, read_limit(remaining));
        let rest = read_rest(unread, read_limit(remaining));
        if data.len() == 0 {
            Transfer { sent: Seq::empty(), unread: rest, missing: remaining }
        } else {
            let tail = transfer((remaining - data.len()) as nat, rest);
            Transfer { sent: seq![data] + tail.sent, unread: tail.unread, missing: tail.missing }
        }
    }
}

/// A read gives no more than was asked for, and what it gives is the start
/// of what the source held: put back before the rest, nothing is lost.
pub proof fn lemma_read_conserves(unread: Seq<Seq<u8>>, max: nat)
    ensures
        read_data(unread, max).len() <= max,
        read_data(unread, max) + read_rest(unread, max).flatten() == unread.flatten(),
{
    if unread.len() == 0 {
        assert(read_data(unread, max) + unread.flatten() =~= unread.flatten());
    } else if unread[0].len() <= max {
    } else {
        let rest = read_rest(unread, max);
        assert(rest.drop_first() =~= unread.drop_first());
        assert(unread[0].take(max as int) + (unread[0].skip(max as int)
            + unread.drop_first().flatten()) =~= unread[0] + unread.drop_first().flatten());
    }
}

/// The books of a transfer balance. What went out and what is missing make
/// up what was owed; what went out, followed by what the source still holds,
/// is what the source held; and every write is a buffer full at most, and
/// never empty.
pub proof fn lemma_transfer_accounts(remaining: nat, unread: Seq<Seq<u8>>)
    ensures
        transfer(remaining, unread).sent.flatten().len() + transfer(remaining, unread).missing
            == remaining,
        transfer(remaining, unread).sent.flatten() + transfer(remaining, unread).unread.flatten()
            == unread.flatten(),
        forall|i: int|
            0 <= i < transfer(remaining, unread).sent.len() ==> 0 < (#[trigger] transfer(
                remaining,
                unread,
            ).sent[i]).len() <= TRANSFER_BUFFER,
    decreases remaining,
{
    let run = transfer(remaining, unread);
    if remaining == 0 {
        assert(run.sent.flatten() + unread.flatten() =~= unread.flatten());
    } else {
        let data = read_data(unread, read_limit(remaining));
        let rest = read_rest(unread, read_limit(remaining));
        lemma_read_conserves(unread, read_limit(remaining));
        if data.len() == 0 {
            assert(run.sent.flatten() + rest.flatten() =~= data + rest.flatten());
        } else {
            let tail = transfer((remaining - data.len()) as nat, rest);
            lemma_transfer_accounts((remaining - data.len()) as nat, rest);
            assert(run.sent.drop_first() =~= tail.sent);
            assert(run.sent.flatten() == data + tail.sent.flatten());
            assert((data + tail.sent.flatten()) + tail.unread.flatten() =~= data + (
            tail.sent.flatten() + tail.unread.flatten()));
            assert forall|i: int| 0 <= i < run.sent.len() implies 0 < (#[trigger] run.sent[i]).len()
                <= TRANSFER_BUFFER by {
                if i > 0 {
                    assert(run.sent[i] == tail.sent[i - 1]);
                }
            }
        }
    }
}

/// Computes `read_limit`.
pub fn next_read_len(remaining: u64) -> (limit: usize)
    ensures
        limit == read_limit(remaining as nat),
{
    if remaining < TRANSFER_BUFFER as u64 {
        remaining as usize
    } else {
        TRANSFER_BUFFER
    }
}

/// What is owed after a read of `size` bytes, when `remaining` were owed
/// before it: `size` fewer, or, where the read gave nothing, the failure of
/// the whole transfer.
pub fn after_read(remaining: u64, size: usize) -> (next: Result<u64, BodyUnderRead>)
    requires
        0 < remaining,
        size <= read_limit(remaining as nat),
    ensures
        size == 0 ==> next == Err::<u64, BodyUnderRead>(BodyUnderRead { missing: remaining }),
        size > 0 ==> next == Ok::<u64, BodyUnderRead>((remaining - size) as u64),
{
    if size == 0 {
        Err(BodyUnderRead { missing: remaining })
    } else {
        Ok(remaining - size as u64)
    }
}

} // verus!
