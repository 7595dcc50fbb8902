//! The byte buffer of one relay direction: a ring of fixed capacity that is
//! filled with what was read from one socket and drained into the other.
use crate::event::{IoError, ReadOutcome, WriteOutcome};
use crate::ring::{
    ring_advance, ring_capacity, ring_cursor, ring_front, ring_new, ring_remaining, ring_unread,
    ring_write,
};
use bytes::RingBuf;
use vstd::arithmetic::power2::{lemma2_to64, pow2};
use vstd::prelude::*;

verus! {

/// Number of bytes a relay buffer holds.
pub const BUFFER_CAPACITY: usize = 4096;

/// What a buffer is, mathematically: the bytes still to be delivered, oldest
/// first, the fixed capacity, and where in the ring the oldest byte lies.
pub struct BufferView {
    pub unread: Seq<u8>,
    pub capacity: nat,
    pub cursor: nat,
}

impl BufferView {
    /// An empty buffer of the given capacity.
    pub open spec fn empty(capacity: nat) -> BufferView {
        BufferView { unread: Seq::empty(), capacity, cursor: 0 }
    }

    /// The invariant of every buffer: it never holds more than its capacity.
    pub open spec fn wf(self) -> bool {
        &&& 0 < self.capacity
        &&& self.unread.len() <= self.capacity
        &&& self.cursor < self.capacity
    }

    /// Room left for new bytes.
    pub open spec fn free(self) -> nat {
        (self.capacity - self.unread.len()) as nat
    }

    pub open spec fn is_full(self) -> bool {
        self.unread.len() == self.capacity
    }

    /// How many of `offered` bytes the buffer takes in.
    pub open spec fn accepted(self, offered: nat) -> nat {
        if offered <= self.free() {
            offered
        } else {
            self.free()
        }
    }

    /// The buffer after `data` was offered to it: the bytes that fit are
    /// appended in order, the rest is not taken.
    pub open spec fn after_write(self, data: Seq<u8>) -> BufferView {
        BufferView { unread: self.unread + data.take(self.accepted(data.len()) as int), ..self }
    }

    /// How many bytes the buffer takes in of what a read yielded.
    pub open spec fn taken(self, outcome: ReadOutcome) -> nat {
        match outcome {
            ReadOutcome::Data(bytes) => self.accepted(bytes@.len()),
            _ => 0,
        }
    }

    /// The buffer after a read from a socket: bytes that were read are
    /// offered to it; a read that would block, or failed, leaves it as it
    /// is.
    pub open spec fn after_read(self, outcome: ReadOutcome) -> BufferView {
        match outcome {
            ReadOutcome::Data(bytes) => self.after_write(bytes@),
            _ => self,
        }
    }

    /// How many bytes can be handed out in one piece: the unread bytes up to
    /// the point where the ring wraps around.
    pub open spec fn front_len(self) -> nat {
        if self.unread.len() <= self.capacity - self.cursor {
            self.unread.len()
        } else {
            (self.capacity - self.cursor) as nat
        }
    }

    /// The oldest unread bytes, as far as they lie in one piece.
    pub open spec fn front(self) -> Seq<u8> {
        self.unread.take(self.front_len() as int)
    }

    /// How many bytes leave the buffer when `count` are reported as sent:
    /// never more than were handed out in one piece.
    pub open spec fn drained(self, count: nat) -> nat {
        if count <= self.front_len() {
            count
        } else {
            self.front_len()
        }
    }

    /// The buffer after `count` bytes were reported as sent: they are
    /// dropped from the front and the cursor moves on, wrapping at the
    /// capacity.
    pub open spec fn after_drain(self, count: nat) -> BufferView {
        BufferView {
            unread: self.unread.skip(self.drained(count) as int),
            capacity: self.capacity,
            cursor: (self.cursor + self.drained(count)) % self.capacity,
        }
    }

    /// How many bytes leave the buffer after what a write yielded.
    pub open spec fn sent(self, outcome: WriteOutcome) -> nat {
        match outcome {
            WriteOutcome::Written(count) => self.drained(count as nat),
            _ => 0,
        }
    }

    /// The buffer after a write to a socket: the bytes that the socket took
    /// are dropped; a write that would block, or failed, leaves it as it
    /// is.
    pub open spec fn after_sent(self, outcome: WriteOutcome) -> BufferView {
        match outcome {
            WriteOutcome::Written(count) => self.after_drain(count as nat),
            _ => self,
        }
    }

    /// Bounded buffering: offering bytes and reporting bytes as sent both
    /// keep the buffer within its capacity.
    pub proof fn lemma_bounded(self, data: Seq<u8>, count: nat)
        requires
            self.wf(),
        ensures
            self.after_write(data).wf(),
            self.after_write(data).unread.len() == self.unread.len() + self.accepted(data.len()),
            self.after_drain(count).wf(),
            self.after_drain(count).unread.len() == self.unread.len() - self.drained(count),
    {
    }

    /// Backpressure: a full buffer takes in nothing of what it is offered;
    /// once `count` bytes were reported as sent, it has room for as many
    /// again, and takes in as much of what it is offered next.
    pub proof fn lemma_backpressure(self, data: Seq<u8>, count: nat)
        requires
            self.wf(),
            self.is_full(),
        ensures
            self.free() == 0,
            self.accepted(data.len()) == 0,
            self.after_write(data) == self,
            self.after_drain(count).free() == self.drained(count),
            count > 0 ==> self.after_drain(count).free() > 0,
            self.after_drain(count).accepted(data.len()) == if data.len() <= self.drained(count) {
                data.len()
            } else {
                self.drained(count)
            },
    {
        assert(data.take(0) =~= Seq::<u8>::empty());
        assert(self.after_write(data).unread =~= self.unread);
    }

    /// First in, first out: what is handed out next is the oldest part of
    /// what is held, it is not empty unless the buffer is, and what leaves
    /// when bytes are reported as sent are the first of the bytes handed
    /// out, with the rest left in order.
    pub proof fn lemma_fifo(self, count: nat)
        requires
            self.wf(),
        ensures
            self.front().is_prefix_of(self.unread),
            self.unread.len() > 0 ==> self.front().len() > 0,
            self.unread == self.front().take(self.drained(count) as int) + self.after_drain(
                count,
            ).unread,
    {
        assert(self.unread =~= self.front().take(self.drained(count) as int) + self.after_drain(
            count,
        ).unread);
    }
}

/// A fixed-capacity ring of bytes with a read cursor and a write cursor.
pub struct ByteBuffer {
    ring: RingBuf,
}

impl View for ByteBuffer {
    type V = BufferView;

    closed spec fn view(&self) -> BufferView {
        BufferView {
            unread: ring_unread(self.ring),
            capacity: ring_capacity(self.ring),
            cursor: ring_cursor(self.ring),
        }
    }
}

impl ByteBuffer {
    /// Holds of every buffer this module hands out.
    pub open spec fn wf(&self) -> bool {
        &&& self@.wf()
        &&& self@.capacity == BUFFER_CAPACITY
    }

    /// An empty buffer of `BUFFER_CAPACITY` bytes.
    pub fn new() -> (buffer: ByteBuffer)
        ensures
            buffer.wf(),
            buffer@ == BufferView::empty(BUFFER_CAPACITY as nat),
    {
        proof {
            lemma2_to64();
            assert(BUFFER_CAPACITY == pow2(12));
        }
        ByteBuffer { ring: ring_new(BUFFER_CAPACITY) }
    }

    /// The fixed capacity.
    pub fn capacity(&self) -> (capacity: usize)
        requires
            self.wf(),
        ensures
            capacity == self@.capacity,
    {
        BUFFER_CAPACITY
    }

    /// Number of unread bytes.
    pub fn remaining(&self) -> (count: usize)
        ensures
            count == self@.unread.len(),
    {
        ring_remaining(&self.ring)
    }

    /// Whether unread bytes exist.
    pub fn has_remaining(&self) -> (any: bool)
        ensures
            any == (self@.unread.len() > 0),
    {
        ring_remaining(&self.ring) > 0
    }

    /// Room left for new bytes. Zero means that input must wait until the
    /// buffer was drained.
    pub fn free(&self) -> (count: usize)
        requires
            self.wf(),
        ensures
            count == self@.free(),
    {
        BUFFER_CAPACITY - ring_remaining(&self.ring)
    }

    /// Whether the buffer is filled to capacity.
    pub fn is_full(&self) -> (full: bool)
        requires
            self.wf(),
        ensures
            full == self@.is_full(),
    {
        ring_remaining(&self.ring) == BUFFER_CAPACITY
    }

    /// Fills the buffer from a socket, given what reading from the socket
    /// yielded: bytes that were read are taken in as far as they fit, and
    /// their number is returned; a read that would block takes in nothing;
    /// a failed read is an error.
    pub fn write_from(&mut self, outcome: &ReadOutcome) -> (taken: Result<usize, IoError>)
        requires
            old(self).wf(),
        ensures
            final(self).wf(),
            final(self)@ == old(self)@.after_read(*outcome),
            taken is Err <==> *outcome is Failed,
            taken matches Ok(count) ==> count == old(self)@.taken(*outcome),
    {
        match outcome {
            ReadOutcome::Data(bytes) => Ok(ring_write(&mut self.ring, bytes.as_slice())),
            ReadOutcome::WouldBlock => Ok(0),
            ReadOutcome::Failed => Err(IoError),
        }
    }

    /// The bytes to hand to a socket next: the oldest unread bytes, as far
    /// as they lie in one piece. Nothing is consumed.
    pub fn pending(&self) -> (front: &[u8])
        requires
            self.wf(),
        ensures
            front@ == self@.front(),
    {
        ring_front(&self.ring)
    }

    /// Drains the buffer into a socket, given what writing the pending
    /// bytes to the socket yielded: the bytes that the socket took, but no
    /// more than were pending, are dropped from the front, and their number
    /// is returned; a write that would block drops nothing; a failed write
    /// is an error.
    pub fn drain_to(&mut self, outcome: WriteOutcome) -> (sent: Result<usize, IoError>)
        requires
            old(self).wf(),
        ensures
            final(self).wf(),
            final(self)@ == old(self)@.after_sent(outcome),
            sent is Err <==> outcome is Failed,
            sent matches Ok(count) ==> count == old(self)@.sent(outcome),
    {
        match outcome {
            WriteOutcome::Written(count) => {
                let handed: usize = ring_front(&self.ring).len();
                let dropped: usize = if count <= handed {
                    count
                } else {
                    handed
                };
                ring_advance(&mut self.ring, dropped);
                Ok(dropped)
            },
            WriteOutcome::WouldBlock => Ok(0),
            WriteOutcome::Failed => Err(IoError),
        }
    }
}

} // verus!
