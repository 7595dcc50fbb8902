//! The connection table: a fixed pool of handles, two of which name each
//! connection pair. Both handles of a pair lead to the one record of it.
use crate::slots::{slab_entries, slab_get, slab_insert, slab_new, slab_remove, slab_vacant, SlotPool};
use crate::transport::{Transport, TransportView};
use vstd::prelude::*;

verus! {

/// The lowest handle the table gives out. Handles below it are left to the
/// caller; the listener has one of them.
pub const FIRST_HANDLE: usize = 1024;

/// The number of handles in the table. Each pair takes two.
pub const MAX_HANDLES: usize = 4096;

/// Stored in the slot of a client handle: the pair's record lies under
/// this very handle. The slot of a server handle stores the client handle
/// of its pair, which is never this value.
const OWN_SLOT: usize = 0;

/// Why the table turned a request down.
#[derive(Clone, Copy, Debug, PartialEq, Eq, Structural)]
pub enum TableError {
    /// Fewer than two handles are free.
    TableFull,
    /// The handle was never given out, or was released since.
    UnknownHandle,
}

/// Whether a number is one of the table's handles, in use or not.
pub open spec fn is_handle(handle: usize) -> bool {
    FIRST_HANDLE <= handle < FIRST_HANDLE + MAX_HANDLES
}

/// What the table is, mathematically: the pair that each handle in use
/// leads to, and the free handles in the order in which they will be given
/// out.
pub struct TableView {
    pub pairs: Map<usize, TransportView>,
    pub vacant: Seq<usize>,
}

impl TableView {
    /// The table before any connection: every handle is free, and they are
    /// given out in ascending order.
    pub open spec fn initial() -> TableView {
        TableView {
            pairs: Map::empty(),
            vacant: Seq::new(MAX_HANDLES as nat, |i: int| (FIRST_HANDLE + i) as usize),
        }
    }

    /// Whether `handle` is in use.
    pub open spec fn resolves(self, handle: usize) -> bool {
        self.pairs.dom().contains(handle)
    }

    /// What must hold of a handle in use: it is one of the two handles of
    /// the pair it leads to, and both of them lead to that same pair.
    pub open spec fn linked(self, handle: usize) -> bool {
        let pair = self.pairs[handle];
        &&& pair.wf()
        &&& (handle == pair.client || handle == pair.server)
        &&& pair.client != pair.server
        &&& self.resolves(pair.client)
        &&& self.resolves(pair.server)
        &&& self.pairs[pair.client] == pair
        &&& self.pairs[pair.server] == pair
    }

    /// The invariant of the table: every handle in use is linked to its
    /// pair, and every handle of the table is either in use or listed once
    /// among the free ones.
    pub open spec fn wf(self) -> bool {
        &&& forall|handle: usize| #[trigger]
            self.resolves(handle) ==> is_handle(handle) && self.linked(handle)
        &&& self.vacant.no_duplicates()
        &&& forall|j: int|
            0 <= j < self.vacant.len() ==> is_handle(#[trigger] self.vacant[j]) && !self.resolves(
                self.vacant[j],
            )
        &&& forall|handle: usize|
            is_handle(handle) ==> #[trigger] self.resolves(handle) || self.vacant.contains(handle)
    }

    /// Whether a handle of the table is free.
    pub open spec fn is_free(self, handle: usize) -> bool {
        is_handle(handle) && !self.resolves(handle)
    }

    /// Whether two handles are free for a new pair.
    pub open spec fn can_allocate(self) -> bool {
        self.vacant.len() >= 2
    }

    /// The table after a new pair took the first two free handles.
    pub open spec fn after_allocate(self) -> TableView {
        let client = self.vacant[0];
        let server = self.vacant[1];
        let pair = TransportView::fresh(client, server);
        TableView {
            pairs: self.pairs.insert(client, pair).insert(server, pair),
            vacant: self.vacant.skip(2),
        }
    }

    /// The table with the state of one of its pairs replaced, under both
    /// handles of that pair.
    pub open spec fn with_pair(self, pair: TransportView) -> TableView {
        TableView {
            pairs: self.pairs.insert(pair.client, pair).insert(pair.server, pair),
            vacant: self.vacant,
        }
    }

    /// Whether `client` and `server` are, in this order, the two handles of
    /// a pair in the table.
    pub open spec fn is_pair(self, client: usize, server: usize) -> bool {
        &&& self.resolves(client)
        &&& self.pairs[client].client == client
        &&& self.pairs[client].server == server
    }

    /// The table after the two handles of a pair were released: neither
    /// resolves any more, and both are the next to be given out. Handles
    /// that are not a pair change nothing.
    pub open spec fn after_release(self, client: usize, server: usize) -> TableView {
        if self.is_pair(client, server) {
            TableView {
                pairs: self.pairs.remove(client).remove(server),
                vacant: seq![server, client] + self.vacant,
            }
        } else {
            self
        }
    }
}

/// The connection table.
pub struct ConnectionTable {
    slots: SlotPool,
    pairs: Vec<Option<Transport>>,
}

impl View for ConnectionTable {
    type V = TableView;

    closed spec fn view(&self) -> TableView {
        TableView {
            pairs: Map::new(
                |handle: usize| slab_entries(self.slots).dom().contains(handle),
                |handle: usize| self.record(self.home(handle)),
            ),
            vacant: slab_vacant(self.slots),
        }
    }
}

impl ConnectionTable {
    /// The handle under which the record of `handle`'s pair lies.
    closed spec fn home(&self, handle: usize) -> usize {
        let link = slab_entries(self.slots)[handle];
        if link == OWN_SLOT {
            handle
        } else {
            link
        }
    }

    /// The record that lies under a client handle.
    closed spec fn record(&self, home: usize) -> TransportView {
        self.pairs@[home - FIRST_HANDLE].unwrap()@
    }

    /// What must hold of a slot in use.
    closed spec fn slot_ok(&self, handle: usize) -> bool {
        let home = self.home(handle);
        &&& is_handle(handle)
        &&& is_handle(home)
        &&& self.pairs@[home - FIRST_HANDLE] is Some
        &&& self.record(home).client == home
        &&& (handle == home || handle == self.record(home).server)
    }

    /// What must hold of a record.
    closed spec fn record_ok(&self, index: int) -> bool {
        let pair = self.pairs@[index].unwrap();
        let entries = slab_entries(self.slots);
        &&& pair.wf()
        &&& pair@.client == FIRST_HANDLE + index
        &&& pair@.client != pair@.server
        &&& entries.dom().contains(pair@.client)
        &&& entries.dom().contains(pair@.server)
        &&& entries[pair@.client] == OWN_SLOT
        &&& entries[pair@.server] == pair@.client
    }

    /// The invariant that ties the pool of slots to the records.
    pub closed spec fn wf(&self) -> bool {
        let entries = slab_entries(self.slots);
        let vacant = slab_vacant(self.slots);
        &&& self.pairs@.len() == MAX_HANDLES
        &&& forall|handle: usize| #[trigger]
            entries.dom().contains(handle) ==> self.slot_ok(handle)
        &&& forall|index: int|
            0 <= index < MAX_HANDLES && #[trigger] self.pairs@[index] is Some ==> self.record_ok(
                index,
            )
        &&& forall|handle: usize|
            is_handle(handle) ==> #[trigger] entries.dom().contains(handle) || vacant.contains(
                handle,
            )
        &&& vacant.no_duplicates()
        &&& forall|j: int|
            0 <= j < vacant.len() ==> is_handle(#[trigger] vacant[j]) && !entries.dom().contains(
                vacant[j],
            )
    }

    /// A well-formed table presents a well-formed view.
    pub proof fn lemma_view_wf(&self)
        requires
            self.wf(),
        ensures
            self@.wf(),
    {
        assert forall|handle: usize| #[trigger] self@.resolves(handle) implies self@.linked(
            handle,
        ) by {
            assert(self.slot_ok(handle));
            let home = self.home(handle);
            assert(self.pairs@[home - FIRST_HANDLE] is Some);
            assert(self.record_ok(home - FIRST_HANDLE));
        }
    }

    /// Replacing the record of a pair by one with the same handles keeps
    /// the table well formed, and shows under both handles of the pair.
    proof fn lemma_record_changed(
        before: ConnectionTable,
        after: ConnectionTable,
        handle: usize,
        pair: Transport,
    )
        requires
            before.wf(),
            slab_entries(before.slots).dom().contains(handle),
            after.slots == before.slots,
            after.pairs@ == before.pairs@.update(
                before.home(handle) - FIRST_HANDLE,
                Some(pair),
            ),
            pair.wf(),
            pair@.client == before.record(before.home(handle)).client,
            pair@.server == before.record(before.home(handle)).server,
        ensures
            after.wf(),
            after@ == before@.with_pair(pair@),
    {
        let entries = slab_entries(before.slots);
        let home = before.home(handle);
        let at = home - FIRST_HANDLE;
        assert(before.slot_ok(handle));
        assert(before.record_ok(at));
        assert forall|other: usize| #[trigger] entries.dom().contains(other) implies after.slot_ok(
            other,
        ) by {
            assert(before.slot_ok(other));
        }
        assert forall|index: int|
            0 <= index < MAX_HANDLES && #[trigger] after.pairs@[index] is Some implies after.record_ok(
            index,
        ) by {
            if index != at {
                assert(before.pairs@[index] is Some);
                assert(before.record_ok(index));
            }
        }
        assert forall|other: usize| #[trigger]
            entries.dom().contains(other) implies after@.pairs[other] == before@.with_pair(
            pair@,
        ).pairs[other] by {
            assert(before.slot_ok(other));
            let other_home = before.home(other);
            assert(before.record_ok(other_home - FIRST_HANDLE));
        }
        assert(after@.pairs =~= before@.with_pair(pair@).pairs);
    }

    /// Whether a handle of the pool is free.
    closed spec fn slot_free(&self, handle: usize) -> bool {
        &&& is_handle(handle)
        &&& !slab_entries(self.slots).dom().contains(handle)
        &&& slab_vacant(self.slots).contains(handle)
    }

    /// Putting a fresh record under the first two free handles keeps the
    /// table well formed.
    proof fn lemma_pair_added(
        before: ConnectionTable,
        after: ConnectionTable,
        client: usize,
        server: usize,
    )
        requires
            before.wf(),
            slab_vacant(before.slots).len() >= 2,
            client == slab_vacant(before.slots)[0],
            server == slab_vacant(before.slots)[1],
            slab_vacant(after.slots) == slab_vacant(before.slots).skip(1).skip(1),
            slab_entries(after.slots) == slab_entries(before.slots).insert(
                client,
                OWN_SLOT,
            ).insert(server, client),
            after.pairs@.len() == MAX_HANDLES,
            after.pairs@[client - FIRST_HANDLE] is Some,
            after.pairs@[client - FIRST_HANDLE].unwrap().wf(),
            after.pairs@[client - FIRST_HANDLE].unwrap()@ == TransportView::fresh(client, server),
            forall|index: int|
                0 <= index < MAX_HANDLES && index != client - FIRST_HANDLE
                    ==> after.pairs@[index] == before.pairs@[index],
        ensures
            after.wf(),
            after@ == before@.after_allocate(),
    {
        let entries = slab_entries(before.slots);
        let vacant = slab_vacant(before.slots);
        assert(vacant.skip(1).skip(1) =~= vacant.skip(2));
        assert(before.pairs@[client - FIRST_HANDLE] is None) by {
            if before.pairs@[client - FIRST_HANDLE] is Some {
                assert(before.record_ok(client - FIRST_HANDLE));
            }
        }
        assert forall|handle: usize| #[trigger]
            slab_entries(after.slots).dom().contains(handle) implies after.slot_ok(handle) by {
            if handle != client && handle != server {
                assert(before.slot_ok(handle));
            }
        }
        assert forall|index: int|
            0 <= index < MAX_HANDLES && #[trigger] after.pairs@[index] is Some implies after.record_ok(
            index,
        ) by {
            if index != client - FIRST_HANDLE {
                assert(before.record_ok(index));
            }
        }
        assert forall|handle: usize| is_handle(handle) implies #[trigger] slab_entries(
            after.slots,
        ).dom().contains(handle) || slab_vacant(after.slots).contains(handle) by {
            if !entries.dom().contains(handle) && handle != client && handle != server {
                assert(vacant.contains(handle));
                let j = choose|j: int| 0 <= j < vacant.len() && vacant[j] == handle;
                assert(vacant.skip(2)[j - 2] == handle);
            }
        }
        assert forall|handle: usize| #[trigger]
            slab_entries(after.slots).dom().contains(handle) implies after@.pairs[handle]
            == before@.after_allocate().pairs[handle] by {
            if handle != client && handle != server {
                assert(before.slot_ok(handle));
            }
        }
        assert(after@.pairs =~= before@.after_allocate().pairs);
    }

    /// Emptying both slots of a pair and dropping its record keeps the
    /// table well formed.
    proof fn lemma_pair_removed(
        before: ConnectionTable,
        after: ConnectionTable,
        client: usize,
        server: usize,
    )
        requires
            before.wf(),
            before@.is_pair(client, server),
            slab_vacant(after.slots) == seq![server] + (seq![client] + slab_vacant(before.slots)),
            slab_entries(after.slots) == slab_entries(before.slots).remove(client).remove(server),
            after.pairs@ == before.pairs@.update(client - FIRST_HANDLE, None),
        ensures
            after.wf(),
            after@ == before@.after_release(client, server),
    {
        let entries = slab_entries(before.slots);
        let vacant = slab_vacant(before.slots);
        before.lemma_view_wf();
        assert(before@.linked(client));
        assert(before.slot_ok(client));
        assert(before.slot_ok(server));
        assert(before.record_ok(before.home(client) - FIRST_HANDLE));
        assert(before.home(client) == client);
        assert(slab_vacant(after.slots) =~= seq![server, client] + vacant);
        assert forall|handle: usize| #[trigger]
            slab_entries(after.slots).dom().contains(handle) implies after.slot_ok(handle) by {
            assert(before.slot_ok(handle));
            assert(before.record_ok(before.home(handle) - FIRST_HANDLE));
        }
        assert forall|index: int|
            0 <= index < MAX_HANDLES && #[trigger] after.pairs@[index] is Some implies after.record_ok(
            index,
        ) by {
            assert(before.record_ok(index));
        }
        assert forall|handle: usize| is_handle(handle) implies #[trigger] slab_entries(
            after.slots,
        ).dom().contains(handle) || slab_vacant(after.slots).contains(handle) by {
            if handle == client {
                assert(slab_vacant(after.slots)[1] == client);
            } else if handle == server {
                assert(slab_vacant(after.slots)[0] == server);
            } else if !entries.dom().contains(handle) {
                let j = choose|j: int| 0 <= j < vacant.len() && vacant[j] == handle;
                assert(slab_vacant(after.slots)[j + 2] == handle);
            }
        }
        assert forall|handle: usize| #[trigger]
            slab_entries(after.slots).dom().contains(handle) implies after@.pairs[handle]
            == before@.after_release(client, server).pairs[handle] by {
            assert(before.slot_ok(handle));
            assert(before.record_ok(before.home(handle) - FIRST_HANDLE));
        }
        assert(after@.pairs =~= before@.after_release(client, server).pairs);
    }

    /// An empty table.
    pub fn new() -> (table: ConnectionTable)
        ensures
            table.wf(),
            table@ == TableView::initial(),
    {
        let slots = slab_new(FIRST_HANDLE, MAX_HANDLES);
        let mut pairs: Vec<Option<Transport>> = Vec::new();
        let mut filled: usize = 0;
        while filled < MAX_HANDLES
            invariant
                filled <= MAX_HANDLES,
                pairs@.len() == filled,
                forall|index: int| 0 <= index < filled ==> pairs@[index] is None,
            decreases MAX_HANDLES - filled,
        {
            pairs.push(None);
            filled = filled + 1;
        }
        let table = ConnectionTable { slots, pairs };
        proof {
            let vacant = slab_vacant(table.slots);
            assert forall|handle: usize| is_handle(handle) implies vacant.contains(handle) by {
                assert(vacant[handle - FIRST_HANDLE] == handle);
            }
            assert(table@.pairs =~= TableView::initial().pairs);
        }
        table
    }

    /// The pair that `handle` leads to.
    pub fn resolve(&self, handle: usize) -> (found: Result<&Transport, TableError>)
        requires
            self.wf(),
        ensures
            match found {
                Ok(pair) => self@.resolves(handle) && pair@ == self@.pairs[handle] && pair.wf(),
                Err(error) => !self@.resolves(handle) && error == TableError::UnknownHandle,
            },
    {
        if handle < FIRST_HANDLE || handle >= FIRST_HANDLE + MAX_HANDLES {
            proof {
                if slab_entries(self.slots).dom().contains(handle) {
                    assert(self.slot_ok(handle));
                }
            }
            return Err(TableError::UnknownHandle);
        }
        match slab_get(&self.slots, handle) {
            None => Err(TableError::UnknownHandle),
            Some(link) => {
                let home: usize = if link == OWN_SLOT {
                    handle
                } else {
                    link
                };
                assert(self.slot_ok(handle));
                assert(self.record_ok(home - FIRST_HANDLE));
                match &self.pairs[home - FIRST_HANDLE] {
                    Some(pair) => Ok(pair),
                    None => Err(TableError::UnknownHandle),
                }
            },
        }
    }

    /// The pair that `handle` leads to, for changing its state.
    pub fn resolve_mut(&mut self, handle: usize) -> (found: Result<&mut Transport, TableError>)
        requires
            old(self).wf(),
        ensures
            match found {
                Ok(pair) => {
                    &&& old(self)@.resolves(handle)
                    &&& pair@ == old(self)@.pairs[handle]
                    &&& pair.wf()
                    &&& final(pair).wf() && final(pair)@.client == pair@.client
                        && final(pair)@.server == pair@.server
                        ==> final(self).wf() && final(self)@ == old(self)@.with_pair(final(pair)@)
                },
                Err(error) => {
                    &&& !old(self)@.resolves(handle)
                    &&& error == TableError::UnknownHandle
                    &&& final(self).wf()
                    &&& final(self)@ == old(self)@
                },
            },
    {
        if handle < FIRST_HANDLE || handle >= FIRST_HANDLE + MAX_HANDLES {
            proof {
                if slab_entries(self.slots).dom().contains(handle) {
                    assert(self.slot_ok(handle));
                }
            }
            return Err(TableError::UnknownHandle);
        }
        match slab_get(&self.slots, handle) {
            None => Err(TableError::UnknownHandle),
            Some(link) => {
                let home: usize = if link == OWN_SLOT {
                    handle
                } else {
                    link
                };
                assert(self.slot_ok(handle));
                assert(self.record_ok(home - FIRST_HANDLE));
                proof {
                    let before = *self;
                    assert forall|after: ConnectionTable, record: Transport|
                        after.slots == before.slots && after.pairs@ == before.pairs@.update(
                            home - FIRST_HANDLE,
                            Some(record),
                        ) && #[trigger] record.wf() && record@.client == before.record(home).client
                            && record@.server == before.record(home).server implies #[trigger] after.wf()
                        && after@ == before@.with_pair(record@) by {
                        Self::lemma_record_changed(before, after, handle, record);
                    }
                }
                match &mut self.pairs[home - FIRST_HANDLE] {
                    Some(pair) => Ok(pair),
                    None => Err(TableError::UnknownHandle),
                }
            },
        }
    }

    /// Takes the first two free handles for a new pair with empty buffers:
    /// the first for its client socket, the second for its server socket.
    /// When fewer than two handles are free, nothing changes.
    pub fn allocate_pair(&mut self) -> (allocated: Result<(usize, usize), TableError>)
        requires
            old(self).wf(),
        ensures
            final(self).wf(),
            match allocated {
                Ok((client, server)) => {
                    &&& old(self)@.can_allocate()
                    &&& client == old(self)@.vacant[0]
                    &&& server == old(self)@.vacant[1]
                    &&& final(self)@ == old(self)@.after_allocate()
                },
                Err(error) => {
                    &&& !old(self)@.can_allocate()
                    &&& error == TableError::TableFull
                    &&& final(self)@ == old(self)@
                },
            },
    {
        let ghost before = *self;
        let client: usize = match slab_insert(&mut self.slots, OWN_SLOT) {
            Some(client) => client,
            None => {
                proof {
                    assert(self@.pairs =~= before@.pairs);
                }
                return Err(TableError::TableFull);
            },
        };
        let server: usize = match slab_insert(&mut self.slots, client) {
            Some(server) => server,
            None => {
                slab_remove(&mut self.slots, client);
                proof {
                    assert(slab_vacant(self.slots) =~= slab_vacant(before.slots));
                    assert(slab_entries(self.slots) =~= slab_entries(before.slots));
                    assert(self@.pairs =~= before@.pairs);
                }
                return Err(TableError::TableFull);
            },
        };
        assert(before.slot_free(client) && before.slot_free(server)) by {
            assert(slab_vacant(before.slots)[0] == client);
            assert(slab_vacant(before.slots)[1] == server);
        }
        self.pairs[client - FIRST_HANDLE] = Some(Transport::new(client, server));
        proof {
            Self::lemma_pair_added(before, *self, client, server);
        }
        Ok((client, server))
    }

    /// Releases the two handles of a pair and drops its record. Neither
    /// handle resolves afterwards, until it is given out again. Handles
    /// that are not the client and server handle of one pair are refused,
    /// and nothing changes.
    pub fn release(&mut self, client: usize, server: usize) -> (released: Result<(), TableError>)
        requires
            old(self).wf(),
        ensures
            final(self).wf(),
            final(self)@ == old(self)@.after_release(client, server),
            released is Ok <==> old(self)@.is_pair(client, server),
            released matches Err(error) ==> error == TableError::UnknownHandle,
    {
        let ghost before = *self;
        let paired: bool = match self.resolve(client) {
            Ok(pair) => pair.client_token() == client && pair.server_token() == server,
            Err(_) => false,
        };
        if !paired {
            return Err(TableError::UnknownHandle);
        }
        proof {
            self.lemma_view_wf();
            assert(self@.linked(client));
        }
        slab_remove(&mut self.slots, client);
        slab_remove(&mut self.slots, server);
        self.pairs[client - FIRST_HANDLE] = None;
        proof {
            Self::lemma_pair_removed(before, *self, client, server);
        }
        Ok(())
    }
}

// What holds of the table, whatever is taken in and released.
impl TableView {
    /// A pair can be taken in exactly if two different handles are free.
    pub proof fn lemma_room_for_a_pair(self)
        requires
            self.wf(),
        ensures
            self.can_allocate() <==> exists|first: usize, second: usize|
                first != second && #[trigger] self.is_free(first) && #[trigger] self.is_free(
                    second,
                ),
    {
        if self.can_allocate() {
            assert(self.is_free(self.vacant[0]) && self.is_free(self.vacant[1]));
        }
        if exists|first: usize, second: usize|
            first != second && #[trigger] self.is_free(first) && #[trigger] self.is_free(second) {
            let (first, second) = choose|first: usize, second: usize|
                first != second && #[trigger] self.is_free(first) && #[trigger] self.is_free(
                    second,
                );
            assert(self.resolves(first) || self.vacant.contains(first));
            assert(self.resolves(second) || self.vacant.contains(second));
        }
    }

    /// Taking in a pair keeps the table well formed: the two handles given
    /// out lead to the new pair, and every other handle leads where it led.
    pub proof fn lemma_allocate(self)
        requires
            self.wf(),
            self.can_allocate(),
        ensures
            self.after_allocate().wf(),
            self.after_allocate().is_pair(self.vacant[0], self.vacant[1]),
            self.after_allocate().pairs[self.vacant[0]] == TransportView::fresh(
                self.vacant[0],
                self.vacant[1],
            ),
            forall|handle: usize| #[trigger]
                self.resolves(handle) ==> self.after_allocate().resolves(handle)
                    && self.after_allocate().pairs[handle] == self.pairs[handle],
    {
        let next = self.after_allocate();
        let client = self.vacant[0];
        let server = self.vacant[1];
        assert(!self.resolves(client) && !self.resolves(server));
        assert forall|handle: usize| #[trigger] next.resolves(handle) implies is_handle(handle)
            && next.linked(handle) by {
            if handle != client && handle != server {
                assert(self.resolves(handle));
                assert(self.linked(handle));
            }
        }
        assert forall|j: int| 0 <= j < next.vacant.len() implies is_handle(
            #[trigger] next.vacant[j],
        ) && !next.resolves(next.vacant[j]) by {
            assert(next.vacant[j] == self.vacant[j + 2]);
        }
        assert forall|handle: usize| is_handle(handle) implies #[trigger] next.resolves(handle)
            || next.vacant.contains(handle) by {
            if !next.resolves(handle) {
                assert(self.resolves(handle) || self.vacant.contains(handle));
                let j = choose|j: int| 0 <= j < self.vacant.len() && self.vacant[j] == handle;
                assert(next.vacant[j - 2] == handle);
            }
        }
    }

    /// Replacing the state of a pair by one with the same handles keeps the
    /// table well formed, and every handle of another pair leads where it
    /// led.
    pub proof fn lemma_with_pair(self, token: usize, pair: TransportView)
        requires
            self.wf(),
            self.resolves(token),
            pair.wf(),
            pair.client == self.pairs[token].client,
            pair.server == self.pairs[token].server,
        ensures
            self.with_pair(pair).wf(),
            self.with_pair(pair).vacant == self.vacant,
            forall|handle: usize|
                self.with_pair(pair).resolves(handle) <==> #[trigger] self.resolves(handle),
            forall|handle: usize| #[trigger]
                self.resolves(handle) && handle != pair.client && handle != pair.server
                    ==> self.with_pair(pair).pairs[handle] == self.pairs[handle],
    {
        let next = self.with_pair(pair);
        assert(self.linked(token));
        assert forall|handle: usize| #[trigger] next.resolves(handle) implies is_handle(handle)
            && next.linked(handle) by {
            assert(self.resolves(handle));
            assert(self.linked(handle));
            assert(self.linked(pair.client));
        }
        assert forall|handle: usize| is_handle(handle) implies #[trigger] next.resolves(handle)
            || next.vacant.contains(handle) by {
            assert(self.resolves(handle) || self.vacant.contains(handle));
        }
    }

    /// Releasing a pair keeps the table well formed: neither of its handles
    /// resolves any more, both are free, and every other handle leads where
    /// it led.
    pub proof fn lemma_release(self, client: usize, server: usize)
        requires
            self.wf(),
        ensures
            self.after_release(client, server).wf(),
            self.is_pair(client, server) ==> self.after_release(client, server).is_free(client)
                && self.after_release(client, server).is_free(server),
            forall|handle: usize| #[trigger]
                self.resolves(handle) && handle != client && handle != server
                    ==> self.after_release(client, server).resolves(handle) && self.after_release(
                    client,
                    server,
                ).pairs[handle] == self.pairs[handle],
    {
        let next = self.after_release(client, server);
        if self.is_pair(client, server) {
            assert(self.linked(client));
            assert forall|handle: usize| #[trigger] next.resolves(handle) implies is_handle(
                handle,
            ) && next.linked(handle) by {
                assert(self.resolves(handle));
                assert(self.linked(handle));
            }
            assert forall|i: int, j: int|
                0 <= i < next.vacant.len() && 0 <= j < next.vacant.len() && i != j implies next.vacant[i]
                != next.vacant[j] by {
                if i >= 2 {
                    assert(next.vacant[i] == self.vacant[i - 2]);
                }
                if j >= 2 {
                    assert(next.vacant[j] == self.vacant[j - 2]);
                }
            }
            assert forall|j: int| 0 <= j < next.vacant.len() implies is_handle(
                #[trigger] next.vacant[j],
            ) && !next.resolves(next.vacant[j]) by {
                if j >= 2 {
                    assert(next.vacant[j] == self.vacant[j - 2]);
                }
            }
            assert forall|handle: usize| is_handle(handle) implies #[trigger] next.resolves(
                handle,
            ) || next.vacant.contains(handle) by {
                if handle == client {
                    assert(next.vacant[1] == client);
                } else if handle == server {
                    assert(next.vacant[0] == server);
                } else if !next.resolves(handle) {
                    assert(self.resolves(handle) || self.vacant.contains(handle));
                    let j = choose|j: int| 0 <= j < self.vacant.len() && self.vacant[j] == handle;
                    assert(next.vacant[j + 2] == handle);
                }
            }
        }
    }

    /// Idempotent release: releasing the handles of a pair a second time
    /// finds no pair under them and changes nothing.
    pub proof fn lemma_release_twice(self, client: usize, server: usize)
        requires
            self.wf(),
        ensures
            !self.after_release(client, server).is_pair(client, server),
            self.after_release(client, server).after_release(client, server) == self.after_release(
                client,
                server,
            ),
    {
    }
}

} // verus!
