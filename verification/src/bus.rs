//! The registry of websocket clients that take part in the exchange of sync
//! frames.

use vstd::prelude::*;

use crate::keys::{PeerId, RoomId};
use crate::table::{entries_of, lists, numbered, Table};

verus! {

/// Registry of the sync clients that are connected by websocket. `S` is what
/// frames for a client are handed to.
///
/// Every client of a room gets the frames that are pushed to the room. A client
/// that has named its writer key gets the frames for that writer too.
pub struct SyncBus<S> {
    next_id: u64,
    rooms: Table<[u8; 32], Table<u64, S>>,
    writers: Table<[u8; 32], S>,
}

/// What a [`SyncBus`] stands for.
pub struct BusView<S> {
    pub next_id: u64,
    pub rooms: Map<Seq<u8>, Map<u64, S>>,
    pub writers: Map<Seq<u8>, S>,
}

impl<S> View for SyncBus<S> {
    type V = BusView<S>;

    closed spec fn view(&self) -> BusView<S> {
        BusView {
            next_id: self.next_id,
            rooms: self.rooms@.map_values(|t: Table<u64, S>| t@),
            writers: self.writers@,
        }
    }
}

/// A bus that no client has joined.
pub open spec fn empty_bus<S>() -> BusView<S> {
    BusView { next_id: 0, rooms: Map::empty(), writers: Map::empty() }
}

/// The clients of a room.
pub open spec fn clients_of<S>(bus: BusView<S>, room: Seq<u8>) -> Map<u64, S> {
    if bus.rooms.contains_key(room) {
        bus.rooms[room]
    } else {
        Map::empty()
    }
}

/// A bus after a client has joined a room, under the next id.
pub open spec fn joined<S>(bus: BusView<S>, room: Seq<u8>, tx: S) -> BusView<S> {
    let id = (bus.next_id + 1) as u64;
    BusView { next_id: id, rooms: bus.rooms.insert(room, clients_of(bus, room).insert(id, tx)), ..bus }
}

/// A bus after a client has left a room. A room without clients is dropped.
pub open spec fn left<S>(bus: BusView<S>, room: Seq<u8>, id: u64, writer: Option<Seq<u8>>) -> BusView<S> {
    let rest = clients_of(bus, room).remove(id);
    BusView {
        rooms: if rest == Map::<u64, S>::empty() {
            bus.rooms.remove(room)
        } else {
            bus.rooms.insert(room, rest)
        },
        writers: match writer {
            Some(w) => bus.writers.remove(w),
            None => bus.writers,
        },
        ..bus
    }
}

/// An optional key as optional bytes.
pub open spec fn opt_key(key: Option<[u8; 32]>) -> Option<Seq<u8>> {
    match key {
        Some(k) => Some(k@),
        None => None,
    }
}

impl<S> Default for SyncBus<S> {
    fn default() -> (r: Self)
        ensures
            r@ == empty_bus::<S>(),
    {
        let r = SyncBus { next_id: 0, rooms: Table::new(), writers: Table::new() };
        assert(r@.rooms =~= Map::empty());
        r
    }
}

impl<S> SyncBus<S> {
    /// Whether every id was given out.
    pub fn is_full(&self) -> (r: bool)
        ensures
            r == (self@.next_id == u64::MAX),
    {
        self.next_id == u64::MAX
    }

    /// Registers a websocket client for `room` and gives it an id.
    pub fn join(&mut self, room: RoomId, tx: S) -> (r: u64)
        requires
            old(self)@.next_id < u64::MAX,
        ensures
            r == old(self)@.next_id + 1,
            final(self)@ == joined(old(self)@, room@, tx),
    {
        self.next_id = self.next_id + 1;
        let id = self.next_id;
        let mut clients = match self.rooms.remove(&room) {
            Some(clients) => clients,
            None => Table::new(),
        };
        let _ = clients.insert(id, tx);
        let _ = self.rooms.insert(room, clients);
        assert(self@.rooms =~= joined(old(self)@, room@, tx).rooms);
        id
    }

    /// Binds a client's writer key to it, so that frames for the writer reach it.
    pub fn bind_writer(&mut self, writer: PeerId, tx: S)
        ensures
            final(self)@ == (BusView { writers: old(self)@.writers.insert(writer@, tx), ..old(self)@ }),
    {
        let _ = self.writers.insert(writer, tx);
    }

    /// Takes a client, and the writer that it was bound to, off the bus.
    pub fn leave(&mut self, room: RoomId, id: u64, writer: Option<PeerId>)
        ensures
            final(self)@ == left(old(self)@, room@, id, opt_key(writer)),
    {
        match self.rooms.remove(&room) {
            Some(mut clients) => {
                let _ = clients.remove(&id);
                if !clients.is_empty() {
                    let _ = self.rooms.insert(room, clients);
                }
            },
            None => {
                assert(Map::<u64, S>::empty().remove(id) =~= Map::<u64, S>::empty());
            },
        }
        if let Some(w) = writer {
            let _ = self.writers.remove(&w);
        }
        assert(self@.rooms =~= left(old(self)@, room@, id, opt_key(writer)).rooms);
    }

    /// The clients that a frame for the whole room goes to.
    pub fn push_room(&self, room: &RoomId) -> (r: Vec<(u64, &S)>)
        ensures
            lists(numbered(r@), clients_of(self@, room@)),
    {
        let mut r: Vec<(u64, &S)> = Vec::new();
        match self.rooms.get(room) {
            Some(clients) => {
                let listed = clients.entries();
                let ghost all = entries_of(listed@);
                let mut i: usize = 0;
                while i < listed.len()
                    invariant
                        i <= listed@.len(),
                        r@.len() == i,
                        all == entries_of(listed@),
                        forall|j: int| 0 <= j < i ==> (#[trigger] r@[j]).0 == all[j].0 && *r@[j].1 == all[j].1,
                    decreases listed@.len() - i,
                {
                    let (id, tx) = listed[i];
                    r.push((*id, tx));
                    i = i + 1;
                }
                assert(numbered(r@) =~= all);
            },
            None => {},
        }
        r
    }

    /// The client that a frame for one writer goes to; nothing where no client is
    /// bound to it.
    pub fn send_writer(&self, writer: &PeerId) -> (r: Option<&S>)
        ensures
            r is Some <==> self@.writers.contains_key(writer@),
            r matches Some(tx) ==> *tx == self@.writers[writer@],
    {
        self.writers.get(writer)
    }
}

// --- laws --------------------------------------------------------------------------

/// A bus that joining and leaving can lead to: the ids were all given out, and no
/// room is kept without clients.
pub open spec fn is_bus<S>(bus: BusView<S>) -> bool {
    &&& forall|room: Seq<u8>| #[trigger] bus.rooms.contains_key(room) ==> bus.rooms[room] != Map::<u64, S>::empty()
    &&& forall|room: Seq<u8>, id: u64|
        bus.rooms.contains_key(room) && #[trigger] bus.rooms[room].contains_key(id) ==> id <= bus.next_id
}

/// Joining, binding and leaving keep a bus a bus, from the empty one on.
pub proof fn law_bus_stays_a_bus<S>(bus: BusView<S>, room: Seq<u8>, tx: S, id: u64, writer: Option<Seq<u8>>)
    requires
        is_bus(bus),
        bus.next_id < u64::MAX,
    ensures
        is_bus(empty_bus::<S>()),
        is_bus(joined(bus, room, tx)),
        is_bus(left(bus, room, id, writer)),
{
    let after = joined(bus, room, tx);
    let new = (bus.next_id + 1) as u64;
    assert forall|r: Seq<u8>| #[trigger] after.rooms.contains_key(r) implies after.rooms[r] != Map::<
        u64,
        S,
    >::empty() by {
        if r == room {
            assert(after.rooms[r].contains_key(new));
        }
    }
    assert forall|r: Seq<u8>, i: u64| after.rooms.contains_key(r) && #[trigger] after.rooms[r].contains_key(
        i,
    ) implies i <= after.next_id by {
        if r == room {
            assert(i == new || clients_of(bus, room).contains_key(i));
        }
        if bus.rooms.contains_key(r) && i != new {
            assert(bus.rooms[r].contains_key(i));
        }
    }
    let gone = left(bus, room, id, writer);
    assert forall|r: Seq<u8>, i: u64| gone.rooms.contains_key(r) && #[trigger] gone.rooms[r].contains_key(
        i,
    ) implies i <= gone.next_id by {
        if r == room {
            assert(clients_of(bus, room).contains_key(i));
            assert(bus.rooms[r].contains_key(i));
        } else {
            assert(bus.rooms[r].contains_key(i));
        }
    }
}

/// The id that a client gets when it joins is no other client's.
pub proof fn law_new_id_is_fresh<S>(bus: BusView<S>, room: Seq<u8>)
    requires
        is_bus(bus),
        bus.next_id < u64::MAX,
    ensures
        !clients_of(bus, room).contains_key((bus.next_id + 1) as u64),
{
    let id = (bus.next_id + 1) as u64;
    if bus.rooms.contains_key(room) && bus.rooms[room].contains_key(id) {
        assert(id <= bus.next_id);
    }
}

/// A client that joins and leaves again leaves no trace in the rooms.
pub proof fn law_leaving_undoes_joining<S>(bus: BusView<S>, room: Seq<u8>, tx: S)
    requires
        is_bus(bus),
        bus.next_id < u64::MAX,
    ensures
        left(joined(bus, room, tx), room, (bus.next_id + 1) as u64, None).rooms == bus.rooms,
        left(joined(bus, room, tx), room, (bus.next_id + 1) as u64, None).writers == bus.writers,
{
    let id = (bus.next_id + 1) as u64;
    law_new_id_is_fresh(bus, room);
    let rest = clients_of(joined(bus, room, tx), room).remove(id);
    assert(rest =~= clients_of(bus, room));
    assert(left(joined(bus, room, tx), room, id, None).rooms =~= bus.rooms);
}

/// What happens in one room leaves the clients of every other room alone.
pub proof fn law_rooms_are_apart<S>(
    bus: BusView<S>,
    room: Seq<u8>,
    other: Seq<u8>,
    tx: S,
    id: u64,
    writer: Option<Seq<u8>>,
)
    requires
        room != other,
    ensures
        clients_of(joined(bus, room, tx), other) == clients_of(bus, other),
        clients_of(left(bus, room, id, writer), other) == clients_of(bus, other),
{
}

} // verus!
