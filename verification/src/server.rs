//! The dispatcher: it owns the connection table and turns each readiness
//! notification, together with what the socket operation yielded, into the
//! next state of the table and the actions to perform on the sockets.
use crate::event::{
    AcceptOutcome, Action, Address, Event, Interest, ReadOutcome, ReadPlan, Side, WriteOutcome,
};
use crate::table::{ConnectionTable, TableView};
use crate::transport::{Step, TransportView};
use vstd::prelude::*;

verus! {

/// The handle under which the listening socket is registered. It lies below
/// every handle of the connection table.
pub const PROXY: usize = 0;

impl Event {
    /// Whether the event is about the socket registered under `handle`.
    pub open spec fn names(self, handle: usize) -> bool {
        match self {
            Event::Accepted(_) => false,
            Event::Readable(token, _, _) => token == handle,
            Event::Writable(token, _) => token == handle,
        }
    }

    /// The step that the event is for a pair of which it names the socket
    /// at `side`. Taking in a connection is a step of no pair.
    pub open spec fn step(self, side: Side) -> Option<Step> {
        match self {
            Event::Accepted(_) => None,
            Event::Readable(_, outcome, hup) => Some(Step::Read { side, outcome, hup }),
            Event::Writable(_, report) => Some(Step::Wrote { side, report }),
        }
    }
}

// What the dispatcher does to its table, as functions of the table.
impl TableView {
    /// No pair in the table is torn down: a pair leaves the table in the
    /// step that closes it.
    pub open spec fn all_open(self) -> bool {
        forall|handle: usize| #[trigger] self.resolves(handle) ==> !self.pairs[handle].closed
    }

    /// The end of its pair that a handle in use names.
    pub open spec fn side_of(self, token: usize) -> Side {
        if token == self.pairs[token].client {
            Side::Client
        } else {
            Side::Server
        }
    }

    /// How many bytes may be read from the socket registered under `token`,
    /// if the handle resolves.
    pub open spec fn read_budget(self, token: usize) -> Option<nat> {
        if self.resolves(token) {
            Some(self.pairs[token].read_budget(self.side_of(token)))
        } else {
            None
        }
    }

    /// The bytes to write to the socket registered under `token`, if the
    /// handle resolves.
    pub open spec fn pending(self, token: usize) -> Option<Seq<u8>> {
        if self.resolves(token) {
            Some(self.pairs[token].pending(self.side_of(token)))
        } else {
            None
        }
    }

    /// The table after an attempt to take in a new connection: a pair is
    /// added if both sockets exist and two handles are free.
    pub open spec fn after_accepted(self, outcome: AcceptOutcome) -> TableView {
        if outcome is Connected && self.can_allocate() {
            self.after_allocate()
        } else {
            self
        }
    }

    /// What an attempt to take in a new connection asks for: nothing if no
    /// client was accepted; that the sockets be closed if the destination
    /// could not be reached or the table is full; else that both sockets be
    /// registered for reading under the handles of the new pair.
    pub open spec fn accepted_actions(self, outcome: AcceptOutcome) -> Seq<Action> {
        match outcome {
            AcceptOutcome::AcceptFailed => Seq::empty(),
            AcceptOutcome::ConnectFailed => seq![Action::Discard],
            AcceptOutcome::Connected => if self.can_allocate() {
                seq![
                    Action::Register {
                        token: self.vacant[0],
                        side: Side::Client,
                        interest: Interest::Readable,
                    },
                    Action::Register {
                        token: self.vacant[1],
                        side: Side::Server,
                        interest: Interest::Readable,
                    },
                ]
            } else {
                seq![Action::Discard]
            },
        }
    }

    /// The table once a pair has taken a step: its new state shows under
    /// both handles, or, if the step closed it, both handles are released.
    pub open spec fn settled(self, pair: TransportView) -> TableView {
        if pair.closed {
            self.after_release(pair.client, pair.server)
        } else {
            self.with_pair(pair)
        }
    }

    /// The table after a read from the socket registered under `token`. A
    /// handle that does not resolve changes nothing.
    pub open spec fn after_readable(self, token: usize, outcome: ReadOutcome, hup: bool) -> TableView {
        if self.resolves(token) {
            self.settled(self.pairs[token].after_readable(token, outcome, hup))
        } else {
            self
        }
    }

    /// What a read from the socket registered under `token` asks for. A
    /// handle that does not resolve asks for nothing.
    pub open spec fn readable_actions(self, token: usize, outcome: ReadOutcome, hup: bool) -> Seq<
        Action,
    > {
        if self.resolves(token) {
            self.pairs[token].readable_actions(token, outcome, hup)
        } else {
            Seq::empty()
        }
    }

    /// The table after a write to the socket registered under `token`. A
    /// handle that does not resolve changes nothing.
    pub open spec fn after_writable(self, token: usize, outcome: WriteOutcome) -> TableView {
        if self.resolves(token) {
            self.settled(self.pairs[token].after_writable(token, outcome))
        } else {
            self
        }
    }

    /// What a write to the socket registered under `token` asks for. A
    /// handle that does not resolve asks for nothing.
    pub open spec fn writable_actions(self, token: usize, outcome: WriteOutcome) -> Seq<Action> {
        if self.resolves(token) {
            self.pairs[token].writable_actions(token, outcome)
        } else {
            Seq::empty()
        }
    }

    /// The table after one event.
    pub open spec fn after_event(self, event: Event) -> TableView {
        match event {
            Event::Accepted(outcome) => self.after_accepted(outcome),
            Event::Readable(token, outcome, hup) => self.after_readable(token, outcome, hup),
            Event::Writable(token, outcome) => self.after_writable(token, outcome),
        }
    }

    /// What one event asks for.
    pub open spec fn event_actions(self, event: Event) -> Seq<Action> {
        match event {
            Event::Accepted(outcome) => self.accepted_actions(outcome),
            Event::Readable(token, outcome, hup) => self.readable_actions(token, outcome, hup),
            Event::Writable(token, outcome) => self.writable_actions(token, outcome),
        }
    }

    /// The table after a sequence of events, handled in order.
    pub open spec fn after_events(self, events: Seq<Event>) -> TableView
        decreases events.len(),
    {
        if events.len() == 0 {
            self
        } else {
            self.after_event(events[0]).after_events(events.skip(1))
        }
    }
}

/// What the dispatcher is, mathematically: the two addresses it was made
/// with and its connection table.
pub struct ServerView {
    /// The address the listener is bound to.
    pub src: Address,
    /// The address every connection is relayed to.
    pub dst: Address,
    pub table: TableView,
}

impl ServerView {
    /// The dispatcher with another table and the same addresses.
    pub open spec fn with_table(self, table: TableView) -> ServerView {
        ServerView { table, ..self }
    }

    /// What is to be done when the socket under `token` is readable: the
    /// listener accepts, a socket of a connection is read as far as its
    /// buffer has room, a handle that is not in use is ignored.
    pub open spec fn read_plan(self, token: usize) -> ReadPlan {
        if token == PROXY {
            ReadPlan::Accept { destination: self.dst }
        } else {
            match self.table.read_budget(token) {
                Some(budget) => ReadPlan::Read { budget: budget as usize },
                None => ReadPlan::Ignore,
            }
        }
    }
}

/// The relay's dispatcher.
pub struct RoxyServer {
    src: Address,
    dst: Address,
    transports: ConnectionTable,
}

impl View for RoxyServer {
    type V = ServerView;

    closed spec fn view(&self) -> ServerView {
        ServerView { src: self.src, dst: self.dst, table: self.transports@ }
    }
}

impl RoxyServer {
    /// Holds of every dispatcher this module hands out.
    pub closed spec fn wf(&self) -> bool {
        &&& self.transports.wf()
        &&& self.transports@.all_open()
    }

    /// A well-formed dispatcher presents a well-formed table in which no
    /// pair is torn down.
    pub proof fn lemma_view_wf(&self)
        requires
            self.wf(),
        ensures
            self@.table.wf(),
            self@.table.all_open(),
    {
        self.transports.lemma_view_wf();
    }

    /// A dispatcher without connections that listens on `src` and relays
    /// to `dst`.
    pub fn new(src: Address, dst: Address) -> (server: RoxyServer)
        ensures
            server.wf(),
            server@ == (ServerView { src, dst, table: TableView::initial() }),
    {
        RoxyServer { src, dst, transports: ConnectionTable::new() }
    }

    /// The address to listen on.
    pub fn src(&self) -> (address: Address)
        ensures
            address == self@.src,
    {
        self.src
    }

    /// The address to relay to.
    pub fn dst(&self) -> (address: Address)
        ensures
            address == self@.dst,
    {
        self.dst
    }

    /// What the caller is to do when the socket under `token` is readable,
    /// before it reports what that yielded.
    pub fn read_plan(&self, token: usize) -> (plan: ReadPlan)
        requires
            self.wf(),
        ensures
            plan == self@.read_plan(token),
    {
        if token == PROXY {
            return ReadPlan::Accept { destination: self.dst };
        }
        proof {
            self.transports.lemma_view_wf();
            if self@.table.resolves(token) {
                assert(self@.table.linked(token));
            }
        }
        match self.transports.resolve(token) {
            Ok(pair) => match pair.side_of(token) {
                Some(side) => ReadPlan::Read { budget: pair.read_budget(side) },
                None => ReadPlan::Ignore,
            },
            Err(_) => ReadPlan::Ignore,
        }
    }

    /// The bytes the caller is to write to the socket registered under
    /// `token` when it is writable. Nothing for a handle that is not in
    /// use.
    pub fn pending(&self, token: usize) -> (bytes: Option<&[u8]>)
        requires
            self.wf(),
        ensures
            match bytes {
                Some(front) => self@.table.pending(token) == Some(front@),
                None => self@.table.pending(token) is None,
            },
    {
        proof {
            self.transports.lemma_view_wf();
            if self@.table.resolves(token) {
                assert(self@.table.linked(token));
            }
        }
        match self.transports.resolve(token) {
            Ok(pair) => match pair.side_of(token) {
                Some(side) => Some(pair.pending(side)),
                None => None,
            },
            Err(_) => None,
        }
    }

    /// The listener was readable and `outcome` is what accepting the
    /// pending connection and connecting to the destination yielded.
    pub fn accepted(&mut self, outcome: AcceptOutcome) -> (actions: Vec<Action>)
        requires
            old(self).wf(),
        ensures
            final(self).wf(),
            final(self)@ == old(self)@.with_table(old(self)@.table.after_accepted(outcome)),
            actions@ == old(self)@.table.accepted_actions(outcome),
    {
        let mut actions: Vec<Action> = Vec::new();
        match outcome {
            AcceptOutcome::AcceptFailed => {},
            AcceptOutcome::ConnectFailed => {
                actions.push(Action::Discard);
            },
            AcceptOutcome::Connected => {
                proof {
                    self.transports.lemma_view_wf();
                    old(self)@.table.lemma_event_wf(Event::Accepted(outcome));
                }
                match self.transports.allocate_pair() {
                    Ok((client, server)) => {
                        actions.push(
                            Action::Register {
                                token: client,
                                side: Side::Client,
                                interest: Interest::Readable,
                            },
                        );
                        actions.push(
                            Action::Register {
                                token: server,
                                side: Side::Server,
                                interest: Interest::Readable,
                            },
                        );
                    },
                    Err(_) => {
                        actions.push(Action::Discard);
                    },
                }
            },
        }
        assert(actions@ =~= old(self)@.table.accepted_actions(outcome));
        actions
    }

    /// The socket registered under `token` was readable and `outcome` is
    /// what reading from it yielded. A handle that is not in use is
    /// ignored.
    pub fn readable(&mut self, token: usize, outcome: ReadOutcome, hup: bool) -> (actions: Vec<
        Action,
    >)
        requires
            old(self).wf(),
        ensures
            final(self).wf(),
            final(self)@ == old(self)@.with_table(
                old(self)@.table.after_readable(token, outcome, hup),
            ),
            actions@ == old(self)@.table.readable_actions(token, outcome, hup),
    {
        let ghost before = self.transports@;
        proof {
            self.transports.lemma_view_wf();
            if before.resolves(token) {
                before.lemma_settled(token, before.pairs[token].after_readable(token, outcome, hup));
            }
        }
        let (actions, closed) = match self.transports.resolve_mut(token) {
            Err(_) => {
                return Vec::new();
            },
            Ok(pair) => {
                let actions = pair.readable(token, outcome, hup);
                let closed = if pair.is_closed() {
                    Some((pair.client_token(), pair.server_token()))
                } else {
                    None
                };
                (actions, closed)
            },
        };
        if let Some((client, server)) = closed {
            let _ = self.transports.release(client, server);
        }
        actions
    }

    /// The socket registered under `token` was writable and `outcome` is
    /// what writing the pending bytes to it yielded. A handle that is not
    /// in use is ignored.
    pub fn writable(&mut self, token: usize, outcome: WriteOutcome) -> (actions: Vec<Action>)
        requires
            old(self).wf(),
        ensures
            final(self).wf(),
            final(self)@ == old(self)@.with_table(old(self)@.table.after_writable(token, outcome)),
            actions@ == old(self)@.table.writable_actions(token, outcome),
    {
        let ghost before = self.transports@;
        proof {
            self.transports.lemma_view_wf();
            if before.resolves(token) {
                before.lemma_settled(token, before.pairs[token].after_writable(token, outcome));
            }
        }
        let (actions, closed) = match self.transports.resolve_mut(token) {
            Err(_) => {
                return Vec::new();
            },
            Ok(pair) => {
                let actions = pair.writable(token, outcome);
                let closed = if pair.is_closed() {
                    Some((pair.client_token(), pair.server_token()))
                } else {
                    None
                };
                (actions, closed)
            },
        };
        if let Some((client, server)) = closed {
            let _ = self.transports.release(client, server);
        }
        actions
    }

    /// Handles one event: the single step function of the dispatcher.
    pub fn handle(&mut self, event: Event) -> (actions: Vec<Action>)
        requires
            old(self).wf(),
        ensures
            final(self).wf(),
            final(self)@ == old(self)@.with_table(old(self)@.table.after_event(event)),
            actions@ == old(self)@.table.event_actions(event),
    {
        match event {
            Event::Accepted(outcome) => self.accepted(outcome),
            Event::Readable(token, outcome, hup) => self.readable(token, outcome, hup),
            Event::Writable(token, outcome) => self.writable(token, outcome),
        }
    }
}

// What holds of the dispatcher, whatever the events.
impl TableView {
    /// Settling a pair that took a step keeps the table well formed, with
    /// no closed pair in it, and touches no other pair. If the step closed
    /// the pair, both of its handles are free afterwards, and it makes no
    /// difference whether its last state was stored before the release.
    pub proof fn lemma_settled(self, token: usize, pair: TransportView)
        requires
            self.wf(),
            self.all_open(),
            self.resolves(token),
            pair.wf(),
            pair.client == self.pairs[token].client,
            pair.server == self.pairs[token].server,
        ensures
            self.settled(pair).wf(),
            self.settled(pair).all_open(),
            self.with_pair(pair).after_release(pair.client, pair.server) == self.after_release(
                pair.client,
                pair.server,
            ),
            pair.closed ==> self.settled(pair).is_free(pair.client) && self.settled(pair).is_free(
                pair.server,
            ),
            forall|handle: usize| #[trigger]
                self.resolves(handle) && handle != pair.client && handle != pair.server
                    ==> self.settled(pair).resolves(handle) && self.settled(pair).pairs[handle]
                    == self.pairs[handle],
    {
        assert(self.linked(token));
        assert(self.linked(pair.client));
        self.lemma_with_pair(token, pair);
        self.lemma_release(pair.client, pair.server);
        assert(self.with_pair(pair).after_release(pair.client, pair.server).pairs
            =~= self.after_release(pair.client, pair.server).pairs);
        assert forall|handle: usize| #[trigger]
            self.settled(pair).resolves(handle) implies !self.settled(pair).pairs[handle].closed by {
            if handle != pair.client && handle != pair.server {
                assert(self.resolves(handle));
            }
        }
    }

    /// An event about a handle in use is one step of the pair that the
    /// handle leads to: it asks for what the step asks for, and the pair
    /// is then settled in the table. Unless the step closed it, both
    /// handles lead to the pair as it is after the step.
    pub proof fn lemma_event_is_step(self, event: Event, token: usize)
        requires
            self.wf(),
            self.all_open(),
            self.resolves(token),
            event.names(token),
        ensures
            event.step(self.side_of(token)) is Some,
            ({
                let pair = self.pairs[token];
                let step = event.step(self.side_of(token)).unwrap();
                let next = self.after_event(event);
                &&& self.event_actions(event) == pair.step_actions(step)
                &&& next == self.settled(pair.after_step(step))
                &&& !pair.after_step(step).closed ==> next.resolves(pair.client) && next.resolves(
                    pair.server,
                ) && next.pairs[pair.client] == pair.after_step(step) && next.pairs[pair.server]
                    == pair.after_step(step)
            }),
    {
        assert(self.linked(token));
    }

    /// Every event keeps the table well formed, with no closed pair in it.
    pub proof fn lemma_event_wf(self, event: Event)
        requires
            self.wf(),
            self.all_open(),
        ensures
            self.after_event(event).wf(),
            self.after_event(event).all_open(),
    {
        match event {
            Event::Accepted(outcome) => {
                if outcome is Connected && self.can_allocate() {
                    self.lemma_allocate();
                    let next = self.after_allocate();
                    assert forall|handle: usize| #[trigger]
                        next.resolves(handle) implies !next.pairs[handle].closed by {
                        if handle != self.vacant[0] && handle != self.vacant[1] {
                            assert(self.resolves(handle));
                        }
                    }
                }
            },
            Event::Readable(token, outcome, hup) => {
                if self.resolves(token) {
                    assert(self.linked(token));
                    self.lemma_settled(token, self.pairs[token].after_readable(token, outcome, hup));
                }
            },
            Event::Writable(token, outcome) => {
                if self.resolves(token) {
                    assert(self.linked(token));
                    self.lemma_settled(token, self.pairs[token].after_writable(token, outcome));
                }
            },
        }
    }

    /// Independent closure, first half: an event that ends a connection,
    /// on whichever of its two sockets, asks for both sockets to be shut
    /// down and removed from the event loop, and frees both handles, which
    /// are then the next to be given out.
    pub proof fn lemma_closure_releases_pair(self, event: Event, token: usize)
        requires
            self.wf(),
            self.all_open(),
            self.resolves(token),
            event.names(token),
            self.pairs[token].after_step(event.step(self.side_of(token)).unwrap()).closed,
        ensures
            ({
                let pair = self.pairs[token];
                let next = self.after_event(event);
                &&& self.event_actions(event) == pair.teardown_actions()
                &&& next.is_free(pair.client)
                &&& next.is_free(pair.server)
                &&& next.vacant == seq![pair.server, pair.client] + self.vacant
            }),
    {
        assert(self.linked(token));
        assert(self.linked(self.pairs[token].client));
    }

    /// A hangup ends the connection, whatever was read, and so do a failed
    /// read and a failed write.
    pub proof fn lemma_hangup_and_failure_close(self, token: usize, outcome: ReadOutcome)
        requires
            self.wf(),
            self.all_open(),
            self.resolves(token),
        ensures
            ({
                let pair = self.pairs[token];
                let side = self.side_of(token);
                &&& pair.after_step(Step::Read { side, outcome, hup: true }).closed
                &&& pair.after_step(
                    Step::Read { side, outcome: ReadOutcome::Failed, hup: false },
                ).closed
                &&& pair.after_step(Step::Wrote { side, report: WriteOutcome::Failed }).closed
            }),
    {
    }

    /// Independent closure, second half: an event about a handle that is
    /// not in use changes nothing and asks for nothing, and nothing is to
    /// be read from or written to the socket it names.
    pub proof fn lemma_stale_event_ignored(self, event: Event, token: usize)
        requires
            event.names(token),
            !self.resolves(token),
        ensures
            self.after_event(event) == self,
            self.event_actions(event) == Seq::<Action>::empty(),
            self.read_budget(token) is None,
            self.pending(token) is None,
    {
    }

    /// Idempotent teardown at the dispatcher: after a hangup on a socket
    /// of a pair, a second hangup notification for either of its handles,
    /// like any other event about them, changes nothing and asks for
    /// nothing.
    pub proof fn lemma_duplicate_hangup_ignored(
        self,
        token: usize,
        outcome: ReadOutcome,
        later: Event,
    )
        requires
            self.wf(),
            self.all_open(),
            self.resolves(token),
            later.names(self.pairs[token].client) || later.names(self.pairs[token].server),
        ensures
            ({
                let next = self.after_readable(token, outcome, true);
                &&& next.after_event(later) == next
                &&& next.event_actions(later) == Seq::<Action>::empty()
            }),
    {
        let pair = self.pairs[token];
        let hangup = Event::Readable(token, outcome, true);
        self.lemma_hangup_and_failure_close(token, outcome);
        self.lemma_closure_releases_pair(hangup, token);
        let next = self.after_event(hangup);
        if later.names(pair.client) {
            next.lemma_stale_event_ignored(later, pair.client);
        } else {
            next.lemma_stale_event_ignored(later, pair.server);
        }
    }

    /// Connection isolation: an event that is not about one of the two
    /// handles of a pair, whatever it reports, leaves that pair in the
    /// table and its state untouched.
    pub proof fn lemma_isolation(self, event: Event, other: usize)
        requires
            self.wf(),
            self.all_open(),
            self.resolves(other),
            !event.names(self.pairs[other].client),
            !event.names(self.pairs[other].server),
        ensures
            self.after_event(event).resolves(other),
            self.after_event(event).pairs[other] == self.pairs[other],
    {
        assert(self.linked(other));
        match event {
            Event::Accepted(outcome) => {
                if outcome is Connected && self.can_allocate() {
                    self.lemma_allocate();
                }
            },
            Event::Readable(token, outcome, hup) => {
                if self.resolves(token) {
                    assert(self.linked(token));
                    self.lemma_settled(token, self.pairs[token].after_readable(token, outcome, hup));
                }
            },
            Event::Writable(token, outcome) => {
                if self.resolves(token) {
                    assert(self.linked(token));
                    self.lemma_settled(token, self.pairs[token].after_writable(token, outcome));
                }
            },
        }
    }

    /// Connection isolation over time: however many events are handled,
    /// and whatever they report, a pair that none of them is about stays
    /// in the table with its state untouched.
    pub proof fn lemma_isolation_over_time(self, events: Seq<Event>, other: usize)
        requires
            self.wf(),
            self.all_open(),
            self.resolves(other),
            forall|i: int|
                0 <= i < events.len() ==> !(#[trigger] events[i]).names(self.pairs[other].client)
                    && !events[i].names(self.pairs[other].server),
        ensures
            self.after_events(events).wf(),
            self.after_events(events).all_open(),
            self.after_events(events).resolves(other),
            self.after_events(events).pairs[other] == self.pairs[other],
        decreases events.len(),
    {
        if events.len() > 0 {
            let next = self.after_event(events[0]);
            self.lemma_event_wf(events[0]);
            self.lemma_isolation(events[0], other);
            assert forall|i: int| 0 <= i < events.skip(1).len() implies !(#[trigger] events.skip(
                1,
            )[i]).names(next.pairs[other].client) && !events.skip(1)[i].names(
                next.pairs[other].server,
            ) by {
                assert(events.skip(1)[i] == events[i + 1]);
            }
            next.lemma_isolation_over_time(events.skip(1), other);
        }
    }

    /// Capacity exhaustion: while fewer than two handles are free, a new
    /// connection is refused, whatever the attempt yielded: the table stays
    /// as it is, so every pair in it is undisturbed, and the sockets of
    /// the attempt, if any exist, are to be closed.
    pub proof fn lemma_full_table_refuses(self, outcome: AcceptOutcome)
        requires
            !self.can_allocate(),
        ensures
            self.after_accepted(outcome) == self,
            self.accepted_actions(outcome) == if outcome is AcceptFailed {
                Seq::<Action>::empty()
            } else {
                seq![Action::Discard]
            },
    {
    }
}

} // verus!
