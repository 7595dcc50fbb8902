//! One relayed connection: the handles of its two sockets and one buffer per
//! direction. The sockets themselves stay with the caller; every operation
//! takes what a socket operation yielded and returns what is to be done
//! with the sockets next.
use crate::buffer::{BufferView, ByteBuffer, BUFFER_CAPACITY};
use crate::event::{Action, Interest, ReadOutcome, Side, WriteOutcome};
use vstd::prelude::*;

verus! {

/// What a connection pair is, mathematically.
pub struct TransportView {
    /// Handle of the accepted socket.
    pub client: usize,
    /// Handle of the socket connected to the destination.
    pub server: usize,
    /// Bytes on their way from the client to the destination.
    pub inbound: BufferView,
    /// Bytes on their way from the destination to the client.
    pub outbound: BufferView,
    /// Whether the pair was torn down.
    pub closed: bool,
}

impl TransportView {
    /// A pair right after both sockets came to exist.
    pub open spec fn fresh(client: usize, server: usize) -> TransportView {
        TransportView {
            client,
            server,
            inbound: BufferView::empty(BUFFER_CAPACITY as nat),
            outbound: BufferView::empty(BUFFER_CAPACITY as nat),
            closed: false,
        }
    }

    pub open spec fn wf(self) -> bool {
        &&& self.inbound.wf()
        &&& self.inbound.capacity == BUFFER_CAPACITY
        &&& self.outbound.wf()
        &&& self.outbound.capacity == BUFFER_CAPACITY
    }

    /// The handle of the socket at one end.
    pub open spec fn token_of(self, side: Side) -> usize {
        match side {
            Side::Client => self.client,
            Side::Server => self.server,
        }
    }

    /// The end that a handle names, if it names one of this pair.
    pub open spec fn side_of(self, token: usize) -> Option<Side> {
        if token == self.client {
            Some(Side::Client)
        } else if token == self.server {
            Some(Side::Server)
        } else {
            None
        }
    }

    /// The buffer that is filled with what is read from `side`.
    pub open spec fn intake(self, side: Side) -> BufferView {
        match side {
            Side::Client => self.inbound,
            Side::Server => self.outbound,
        }
    }

    /// The buffer that is drained into the socket at `side`.
    pub open spec fn outlet(self, side: Side) -> BufferView {
        self.intake(side.peer())
    }

    pub open spec fn with_intake(self, side: Side, buffer: BufferView) -> TransportView {
        match side {
            Side::Client => TransportView { inbound: buffer, ..self },
            Side::Server => TransportView { outbound: buffer, ..self },
        }
    }

    pub open spec fn with_outlet(self, side: Side, buffer: BufferView) -> TransportView {
        self.with_intake(side.peer(), buffer)
    }

    /// What tearing an open pair down asks for: both sockets are shut down,
    /// then both are removed from the event loop.
    pub open spec fn teardown_actions(self) -> Seq<Action> {
        seq![
            Action::Shutdown { token: self.client },
            Action::Shutdown { token: self.server },
            Action::Deregister { token: self.client },
            Action::Deregister { token: self.server },
        ]
    }

    /// What a teardown asks for: nothing, if the pair is closed already.
    pub open spec fn closing_actions(self) -> Seq<Action> {
        if self.closed {
            Seq::empty()
        } else {
            self.teardown_actions()
        }
    }

    pub open spec fn after_teardown(self) -> TransportView {
        TransportView { closed: true, ..self }
    }

    /// How many bytes may be read from the socket at `side`: the room left
    /// in the buffer that takes them.
    pub open spec fn read_budget(self, side: Side) -> nat {
        self.intake(side).free()
    }

    /// Whether a read from `side` ends the connection: on a hangup, on a
    /// failed read, and when the read returned no bytes although room was
    /// offered.
    pub open spec fn read_closes(self, side: Side, outcome: ReadOutcome, hup: bool) -> bool {
        ||| hup
        ||| outcome is Failed
        ||| (outcome matches ReadOutcome::Data(bytes) && bytes@.len() == 0 && self.read_budget(side)
            > 0)
    }

    /// The buffer for what is read from `side`, after the read.
    pub open spec fn filled(self, side: Side, outcome: ReadOutcome) -> BufferView {
        self.intake(side).after_read(outcome)
    }

    /// The pair after a read from the socket at `side`.
    pub open spec fn after_read(self, side: Side, outcome: ReadOutcome, hup: bool) -> TransportView {
        if self.closed {
            self
        } else {
            TransportView {
                closed: self.read_closes(side, outcome, hup),
                ..self.with_intake(side, self.filled(side, outcome))
            }
        }
    }

    /// What a read from the socket at `side` asks for: a teardown if it ends
    /// the connection; else, if bytes wait for the other end, that the
    /// other socket be polled for writing too.
    pub open spec fn read_actions(self, side: Side, outcome: ReadOutcome, hup: bool) -> Seq<
        Action,
    > {
        if self.closed {
            Seq::empty()
        } else if self.read_closes(side, outcome, hup) {
            self.teardown_actions()
        } else if self.filled(side, outcome).unread.len() > 0 {
            seq![Action::Reregister { token: self.token_of(side.peer()), interest: Interest::All }]
        } else {
            Seq::empty()
        }
    }

    /// The bytes to hand to the socket at `side` when it can be written.
    pub open spec fn pending(self, side: Side) -> Seq<u8> {
        self.outlet(side).front()
    }

    /// The buffer that is drained into `side`, after the write.
    pub open spec fn emptied(self, side: Side, outcome: WriteOutcome) -> BufferView {
        self.outlet(side).after_sent(outcome)
    }

    /// The pair after a write to the socket at `side`.
    pub open spec fn after_write(self, side: Side, outcome: WriteOutcome) -> TransportView {
        if self.closed {
            self
        } else {
            TransportView {
                closed: outcome is Failed,
                ..self.with_outlet(side, self.emptied(side, outcome))
            }
        }
    }

    /// What a write to the socket at `side` asks for: a teardown if it
    /// failed; else, if nothing is left to send, that the socket be polled
    /// for reading only.
    pub open spec fn write_actions(self, side: Side, outcome: WriteOutcome) -> Seq<Action> {
        if self.closed {
            Seq::empty()
        } else if outcome is Failed {
            self.teardown_actions()
        } else if self.emptied(side, outcome).unread.len() == 0 {
            seq![Action::Reregister { token: self.token_of(side), interest: Interest::Readable }]
        } else {
            Seq::empty()
        }
    }

    /// The pair after a read from the socket named by `token`. A handle
    /// that names neither socket changes nothing.
    pub open spec fn after_readable(self, token: usize, outcome: ReadOutcome, hup: bool) -> TransportView {
        match self.side_of(token) {
            Some(side) => self.after_read(side, outcome, hup),
            None => self,
        }
    }

    pub open spec fn readable_actions(self, token: usize, outcome: ReadOutcome, hup: bool) -> Seq<
        Action,
    > {
        match self.side_of(token) {
            Some(side) => self.read_actions(side, outcome, hup),
            None => Seq::empty(),
        }
    }

    /// The pair after a write to the socket named by `token`. A handle that
    /// names neither socket changes nothing.
    pub open spec fn after_writable(self, token: usize, outcome: WriteOutcome) -> TransportView {
        match self.side_of(token) {
            Some(side) => self.after_write(side, outcome),
            None => self,
        }
    }

    pub open spec fn writable_actions(self, token: usize, outcome: WriteOutcome) -> Seq<Action> {
        match self.side_of(token) {
            Some(side) => self.write_actions(side, outcome),
            None => Seq::empty(),
        }
    }
}

/// One step in the life of a pair: a read from, or a write to, the socket
/// at one of its ends, with what the socket operation yielded.
pub enum Step {
    /// A read from the socket at `side` yielded `outcome`; `hup` tells
    /// whether the socket reported a hangup.
    Read { side: Side, outcome: ReadOutcome, hup: bool },
    /// A write of the pending bytes to the socket at `side` yielded
    /// `report`.
    Wrote { side: Side, report: WriteOutcome },
}

impl TransportView {
    /// The pair after one step.
    pub open spec fn after_step(self, step: Step) -> TransportView {
        match step {
            Step::Read { side, outcome, hup } => self.after_read(side, outcome, hup),
            Step::Wrote { side, report } => self.after_write(side, report),
        }
    }

    /// The pair after a sequence of steps, taken in order.
    pub open spec fn after_steps(self, steps: Seq<Step>) -> TransportView
        decreases steps.len(),
    {
        if steps.len() == 0 {
            self
        } else {
            self.after_step(steps[0]).after_steps(steps.skip(1))
        }
    }

    /// The bytes that one step takes in from the socket at `from`: those
    /// of the bytes read there that fit into the buffer.
    pub open spec fn taken_by(self, step: Step, from: Side) -> Seq<u8> {
        match step {
            Step::Read { side, outcome: ReadOutcome::Data(bytes), hup } => if side == from
                && !self.closed {
                bytes@.take(self.intake(from).accepted(bytes@.len()) as int)
            } else {
                Seq::empty()
            },
            _ => Seq::empty(),
        }
    }

    /// The bytes that came from `from` and that one step hands on for
    /// good: those of the pending bytes that the socket at the other end
    /// reported as written.
    pub open spec fn given_by(self, step: Step, from: Side) -> Seq<u8> {
        match step {
            Step::Wrote { side, report: WriteOutcome::Written(count) } => if side == from.peer()
                && !self.closed {
                self.pending(side).take(self.outlet(side).drained(count as nat) as int)
            } else {
                Seq::empty()
            },
            _ => Seq::empty(),
        }
    }

    /// All bytes taken in from the socket at `from` over a sequence of
    /// steps, in the order in which they came.
    pub open spec fn taken(self, steps: Seq<Step>, from: Side) -> Seq<u8>
        decreases steps.len(),
    {
        if steps.len() == 0 {
            Seq::empty()
        } else {
            self.taken_by(steps[0], from) + self.after_step(steps[0]).taken(steps.skip(1), from)
        }
    }

    /// All bytes that came from `from` and were handed on to the other end
    /// over a sequence of steps, in the order in which they left.
    pub open spec fn given(self, steps: Seq<Step>, from: Side) -> Seq<u8>
        decreases steps.len(),
    {
        if steps.len() == 0 {
            Seq::empty()
        } else {
            self.given_by(steps[0], from) + self.after_step(steps[0]).given(steps.skip(1), from)
        }
    }

    /// What one step asks for.
    pub open spec fn step_actions(self, step: Step) -> Seq<Action> {
        match step {
            Step::Read { side, outcome, hup } => self.read_actions(side, outcome, hup),
            Step::Wrote { side, report } => self.write_actions(side, report),
        }
    }
}

/// A connection pair: the handles of the accepted socket and of the socket
/// connected to the destination, with one buffer per direction.
pub struct Transport {
    client_token: usize,
    server_token: usize,
    rx_buf: ByteBuffer,
    tx_buf: ByteBuffer,
    closed: bool,
}

impl View for Transport {
    type V = TransportView;

    closed spec fn view(&self) -> TransportView {
        TransportView {
            client: self.client_token,
            server: self.server_token,
            inbound: self.rx_buf@,
            outbound: self.tx_buf@,
            closed: self.closed,
        }
    }
}

impl Transport {
    /// Holds of every pair this module hands out.
    pub open spec fn wf(&self) -> bool {
        self@.wf()
    }

    /// An open pair with empty buffers for the sockets registered under the
    /// two handles.
    pub fn new(client_token: usize, server_token: usize) -> (pair: Transport)
        ensures
            pair.wf(),
            pair@ == TransportView::fresh(client_token, server_token),
    {
        Transport {
            client_token,
            server_token,
            rx_buf: ByteBuffer::new(),
            tx_buf: ByteBuffer::new(),
            closed: false,
        }
    }

    pub fn client_token(&self) -> (token: usize)
        ensures
            token == self@.client,
    {
        self.client_token
    }

    pub fn server_token(&self) -> (token: usize)
        ensures
            token == self@.server,
    {
        self.server_token
    }

    pub fn is_closed(&self) -> (closed: bool)
        ensures
            closed == self@.closed,
    {
        self.closed
    }

    /// The end of the pair that `token` names, if any.
    pub fn side_of(&self, token: usize) -> (side: Option<Side>)
        ensures
            side == self@.side_of(token),
    {
        if token == self.client_token {
            Some(Side::Client)
        } else if token == self.server_token {
            Some(Side::Server)
        } else {
            None
        }
    }

    /// How many bytes the caller may read from the socket at `side`. Zero
    /// means that the buffer is full and the read must wait.
    pub fn read_budget(&self, side: Side) -> (count: usize)
        requires
            self.wf(),
        ensures
            count == self@.read_budget(side),
    {
        match side {
            Side::Client => self.rx_buf.free(),
            Side::Server => self.tx_buf.free(),
        }
    }

    /// The bytes the caller is to write to the socket at `side`.
    pub fn pending(&self, side: Side) -> (bytes: &[u8])
        requires
            self.wf(),
        ensures
            bytes@ == self@.pending(side),
    {
        match side {
            Side::Client => self.tx_buf.pending(),
            Side::Server => self.rx_buf.pending(),
        }
    }

    /// Tears the pair down: asks for both sockets to be shut down and
    /// removed from the event loop. On a pair that is closed already this
    /// does nothing and asks for nothing.
    pub fn teardown(&mut self) -> (actions: Vec<Action>)
        ensures
            final(self)@ == old(self)@.after_teardown(),
            actions@ == old(self)@.closing_actions(),
    {
        let mut actions: Vec<Action> = Vec::new();
        if !self.closed {
            self.closed = true;
            actions.push(Action::Shutdown { token: self.client_token });
            actions.push(Action::Shutdown { token: self.server_token });
            actions.push(Action::Deregister { token: self.client_token });
            actions.push(Action::Deregister { token: self.server_token });
        }
        assert(actions@ =~= old(self)@.closing_actions());
        actions
    }

    /// The client socket was readable and `outcome` is what reading from it
    /// yielded. Bytes that were read go to the buffer for the destination,
    /// and while bytes wait there the destination socket is to be polled
    /// for writing too. A hangup, a failed read and the end of the stream
    /// tear the pair down.
    pub fn client_readable(&mut self, outcome: ReadOutcome, hup: bool) -> (actions: Vec<Action>)
        requires
            old(self).wf(),
        ensures
            final(self).wf(),
            final(self)@ == old(self)@.after_read(Side::Client, outcome, hup),
            actions@ == old(self)@.read_actions(Side::Client, outcome, hup),
    {
        if self.closed {
            return Vec::new();
        }
        let at_end: bool = match &outcome {
            ReadOutcome::Data(bytes) => bytes.len() == 0 && self.rx_buf.free() > 0,
            _ => false,
        };
        let failed: bool = self.rx_buf.write_from(&outcome).is_err();
        if hup || at_end || failed {
            return self.teardown();
        }
        let mut actions: Vec<Action> = Vec::new();
        if self.rx_buf.has_remaining() {
            actions.push(Action::Reregister { token: self.server_token, interest: Interest::All });
        }
        assert(actions@ =~= old(self)@.read_actions(Side::Client, outcome, hup));
        actions
    }

    /// The client socket was writable and `outcome` is what writing the
    /// pending bytes to it yielded. The bytes that it took leave the buffer
    /// for the client, and once nothing waits there the client socket is to
    /// be polled for reading only. A failed write tears the pair down.
    pub fn client_writable(&mut self, outcome: WriteOutcome) -> (actions: Vec<Action>)
        requires
            old(self).wf(),
        ensures
            final(self).wf(),
            final(self)@ == old(self)@.after_write(Side::Client, outcome),
            actions@ == old(self)@.write_actions(Side::Client, outcome),
    {
        if self.closed {
            return Vec::new();
        }
        if self.tx_buf.drain_to(outcome).is_err() {
            return self.teardown();
        }
        let mut actions: Vec<Action> = Vec::new();
        if !self.tx_buf.has_remaining() {
            actions.push(
                Action::Reregister { token: self.client_token, interest: Interest::Readable },
            );
        }
        assert(actions@ =~= old(self)@.write_actions(Side::Client, outcome));
        actions
    }

    /// The destination socket was readable and `outcome` is what reading
    /// from it yielded. Bytes that were read go to the buffer for the
    /// client, and while bytes wait there the client socket is to be polled
    /// for writing too. A hangup, a failed read and the end of the stream
    /// tear the pair down.
    pub fn server_readable(&mut self, outcome: ReadOutcome, hup: bool) -> (actions: Vec<Action>)
        requires
            old(self).wf(),
        ensures
            final(self).wf(),
            final(self)@ == old(self)@.after_read(Side::Server, outcome, hup),
            actions@ == old(self)@.read_actions(Side::Server, outcome, hup),
    {
        if self.closed {
            return Vec::new();
        }
        let at_end: bool = match &outcome {
            ReadOutcome::Data(bytes) => bytes.len() == 0 && self.tx_buf.free() > 0,
            _ => false,
        };
        let failed: bool = self.tx_buf.write_from(&outcome).is_err();
        if hup || at_end || failed {
            return self.teardown();
        }
        let mut actions: Vec<Action> = Vec::new();
        if self.tx_buf.has_remaining() {
            actions.push(Action::Reregister { token: self.client_token, interest: Interest::All });
        }
        assert(actions@ =~= old(self)@.read_actions(Side::Server, outcome, hup));
        actions
    }

    /// The destination socket was writable and `outcome` is what writing
    /// the pending bytes to it yielded. The bytes that it took leave the
    /// buffer for the destination, and once nothing waits there the
    /// destination socket is to be polled for reading only. A failed write
    /// tears the pair down.
    pub fn server_writable(&mut self, outcome: WriteOutcome) -> (actions: Vec<Action>)
        requires
            old(self).wf(),
        ensures
            final(self).wf(),
            final(self)@ == old(self)@.after_write(Side::Server, outcome),
            actions@ == old(self)@.write_actions(Side::Server, outcome),
    {
        if self.closed {
            return Vec::new();
        }
        if self.rx_buf.drain_to(outcome).is_err() {
            return self.teardown();
        }
        let mut actions: Vec<Action> = Vec::new();
        if !self.rx_buf.has_remaining() {
            actions.push(
                Action::Reregister { token: self.server_token, interest: Interest::Readable },
            );
        }
        assert(actions@ =~= old(self)@.write_actions(Side::Server, outcome));
        actions
    }

    /// Routes a read to the half of the pair that `token` names. A handle
    /// that names neither socket is ignored.
    pub fn readable(&mut self, token: usize, outcome: ReadOutcome, hup: bool) -> (actions: Vec<
        Action,
    >)
        requires
            old(self).wf(),
        ensures
            final(self).wf(),
            final(self)@ == old(self)@.after_readable(token, outcome, hup),
            actions@ == old(self)@.readable_actions(token, outcome, hup),
    {
        if token == self.client_token {
            self.client_readable(outcome, hup)
        } else if token == self.server_token {
            self.server_readable(outcome, hup)
        } else {
            Vec::new()
        }
    }

    /// Routes a write to the half of the pair that `token` names. A handle
    /// that names neither socket is ignored.
    pub fn writable(&mut self, token: usize, outcome: WriteOutcome) -> (actions: Vec<Action>)
        requires
            old(self).wf(),
        ensures
            final(self).wf(),
            final(self)@ == old(self)@.after_writable(token, outcome),
            actions@ == old(self)@.writable_actions(token, outcome),
    {
        if token == self.client_token {
            self.client_writable(outcome)
        } else if token == self.server_token {
            self.server_writable(outcome)
        } else {
            Vec::new()
        }
    }
}

// What holds of a pair, whatever steps it takes.
impl TransportView {
    /// Idempotent teardown: tearing a pair down a second time changes
    /// nothing and asks for nothing, and so does every step that a
    /// torn-down pair is asked to take.
    pub proof fn lemma_teardown_twice(self, step: Step)
        ensures
            self.after_teardown().after_teardown() == self.after_teardown(),
            self.after_teardown().closing_actions() == Seq::<Action>::empty(),
            self.after_teardown().after_step(step) == self.after_teardown(),
            self.after_teardown().step_actions(step) == Seq::<Action>::empty(),
    {
    }

    /// A step that ends the connection is a teardown: it asks for what a
    /// teardown asks for, once, and leaves the pair closed.
    pub proof fn lemma_closing_step_tears_down(self, step: Step)
        requires
            !self.closed,
            self.after_step(step).closed,
        ensures
            self.step_actions(step) == self.teardown_actions(),
            self.after_step(step).after_teardown() == self.after_step(step),
    {
    }

    /// Backpressure: while the buffer for the bytes from one end is full,
    /// no byte may be read there and none is taken in, whatever the read
    /// yields; once the other end has taken bytes, that many may be read
    /// again.
    pub proof fn lemma_backpressure(self, from: Side, outcome: ReadOutcome, hup: bool, count: usize)
        requires
            self.wf(),
            !self.closed,
            self.intake(from).is_full(),
        ensures
            self.read_budget(from) == 0,
            self.after_read(from, outcome, hup).intake(from) == self.intake(from),
            self.taken_by(Step::Read { side: from, outcome, hup }, from) == Seq::<u8>::empty(),
            self.after_write(from.peer(), WriteOutcome::Written(count)).read_budget(from)
                == self.intake(from).drained(count as nat),
            count > 0 ==> self.after_write(from.peer(), WriteOutcome::Written(count)).read_budget(
                from,
            ) > 0,
    {
        assert(from.peer().peer() == from);
        match outcome {
            ReadOutcome::Data(bytes) => {
                self.intake(from).lemma_backpressure(bytes@, count as nat);
                assert(bytes@.take(0) =~= Seq::<u8>::empty());
            },
            _ => {},
        }
        self.intake(from).lemma_backpressure(Seq::empty(), count as nat);
    }

    /// A step keeps the handles of a pair and the bounds of its buffers.
    pub proof fn lemma_step_wf(self, step: Step)
        requires
            self.wf(),
        ensures
            self.after_step(step).wf(),
            self.after_step(step).client == self.client,
            self.after_step(step).server == self.server,
            self.closed ==> self.after_step(step) == self,
    {
    }

    /// One step neither loses, nor repeats, nor reorders a byte: what was
    /// buffered before it, followed by what it takes in, is what it hands
    /// on, followed by what is buffered after it.
    pub proof fn lemma_step_conserves(self, step: Step, from: Side)
        requires
            self.wf(),
        ensures
            self.intake(from).unread + self.taken_by(step, from) == self.given_by(step, from)
                + self.after_step(step).intake(from).unread,
    {
        let before = self.intake(from).unread;
        let after = self.after_step(step).intake(from).unread;
        assert(from.peer().peer() == from);
        assert(before + self.taken_by(step, from) =~= self.given_by(step, from) + after);
    }

    /// Bounded buffering: whatever steps a pair takes, neither of its
    /// buffers ever holds more than its capacity.
    pub proof fn lemma_steps_bounded(self, steps: Seq<Step>)
        requires
            self.wf(),
        ensures
            self.after_steps(steps).wf(),
            self.after_steps(steps).inbound.unread.len() <= BUFFER_CAPACITY,
            self.after_steps(steps).outbound.unread.len() <= BUFFER_CAPACITY,
        decreases steps.len(),
    {
        if steps.len() > 0 {
            self.lemma_step_wf(steps[0]);
            self.after_step(steps[0]).lemma_steps_bounded(steps.skip(1));
        }
    }

    /// Relay fidelity: over any sequence of steps, the bytes buffered at
    /// the start followed by all bytes taken in from one end are exactly
    /// the bytes handed on to the other end followed by the bytes still
    /// buffered, in the same order.
    pub proof fn lemma_relay_fidelity(self, steps: Seq<Step>, from: Side)
        requires
            self.wf(),
        ensures
            self.intake(from).unread + self.taken(steps, from) == self.given(steps, from)
                + self.after_steps(steps).intake(from).unread,
        decreases steps.len(),
    {
        let held = self.intake(from).unread;
        if steps.len() == 0 {
            assert(held + self.taken(steps, from) =~= self.given(steps, from) + held);
        } else {
            let next = self.after_step(steps[0]);
            let rest = steps.skip(1);
            self.lemma_step_wf(steps[0]);
            self.lemma_step_conserves(steps[0], from);
            next.lemma_relay_fidelity(rest, from);
            assert(held + self.taken(steps, from) =~= (held + self.taken_by(steps[0], from))
                + next.taken(rest, from));
            assert(self.given(steps, from) + self.after_steps(steps).intake(from).unread
                =~= self.given_by(steps[0], from) + (next.given(rest, from) + next.after_steps(
                rest,
            ).intake(from).unread));
            assert((self.given_by(steps[0], from) + next.intake(from).unread) + next.taken(
                rest,
                from,
            ) =~= self.given_by(steps[0], from) + (next.intake(from).unread + next.taken(
                rest,
                from,
            )));
        }
    }

    /// Relay fidelity for a new connection: all bytes taken in from one
    /// end are the bytes handed on to the other end followed by the bytes
    /// still buffered. So what the other end was handed is at every moment
    /// the beginning of what this end sent, byte for byte.
    pub proof fn lemma_relay_fidelity_fresh(
        client: usize,
        server: usize,
        steps: Seq<Step>,
        from: Side,
    )
        ensures
            ({
                let pair = TransportView::fresh(client, server);
                &&& pair.taken(steps, from) == pair.given(steps, from) + pair.after_steps(
                    steps,
                ).intake(from).unread
                &&& pair.given(steps, from).is_prefix_of(pair.taken(steps, from))
            }),
    {
        let pair = TransportView::fresh(client, server);
        pair.lemma_relay_fidelity(steps, from);
        assert(pair.intake(from).unread + pair.taken(steps, from) =~= pair.taken(steps, from));
    }

    /// Nothing that was read within the budget is left out: if a read
    /// yields no more bytes than may be read, all of them are taken in.
    pub proof fn lemma_within_budget_all_taken(self, side: Side, bytes: Vec<u8>, hup: bool)
        requires
            self.wf(),
            !self.closed,
            bytes@.len() <= self.read_budget(side),
        ensures
            self.taken_by(Step::Read { side, outcome: ReadOutcome::Data(bytes), hup }, side)
                == bytes@,
            self.after_read(side, ReadOutcome::Data(bytes), hup).intake(side).unread
                == self.intake(side).unread + bytes@,
    {
        assert(bytes@.take(bytes@.len() as int) =~= bytes@);
    }
}

} // verus!
