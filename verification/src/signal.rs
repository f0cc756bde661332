//! The hub through which the browser clients of a room find each other, and the
//! text frames that it sends.

use vstd::prelude::*;

use crate::table::{entries_of, lists, numbered, Table};
use crate::text::{decimal, decimal_text};

verus! {

/// Per-room hub of connected websocket clients. `S` is what text frames for a
/// client are handed to.
pub struct SignalHub<S> {
    next_id: u64,
    rooms: Table<String, Table<u64, S>>,
}

/// What a [`SignalHub`] stands for.
pub struct HubView<S> {
    pub next_id: u64,
    pub rooms: Map<Seq<char>, Map<u64, S>>,
}

impl<S> View for SignalHub<S> {
    type V = HubView<S>;

    closed spec fn view(&self) -> HubView<S> {
        HubView { next_id: self.next_id, rooms: self.rooms@.map_values(|t: Table<u64, S>| t@) }
    }
}

/// A hub that no client has joined.
pub open spec fn empty_hub<S>() -> HubView<S> {
    HubView { next_id: 0, rooms: Map::empty() }
}

/// The clients of a room.
pub open spec fn members<S>(hub: HubView<S>, room: Seq<char>) -> Map<u64, S> {
    if hub.rooms.contains_key(room) {
        hub.rooms[room]
    } else {
        Map::empty()
    }
}

/// The id that the hub gives out after `id`. The ids start over behind the last.
pub open spec fn id_after(id: u64) -> u64 {
    if id == u64::MAX {
        0
    } else {
        (id + 1) as u64
    }
}

/// A hub after a client has joined a room, under the next id.
pub open spec fn hub_joined<S>(hub: HubView<S>, room: Seq<char>, tx: S) -> HubView<S> {
    HubView {
        next_id: id_after(hub.next_id),
        rooms: hub.rooms.insert(room, members(hub, room).insert(hub.next_id, tx)),
    }
}

/// A hub after a client has left a room. A room without clients is dropped.
pub open spec fn hub_left<S>(hub: HubView<S>, room: Seq<char>, id: u64) -> HubView<S> {
    let rest = members(hub, room).remove(id);
    HubView {
        rooms: if rest == Map::<u64, S>::empty() {
            hub.rooms.remove(room)
        } else {
            hub.rooms.insert(room, rest)
        },
        ..hub
    }
}

/// `ids` lists the keys of `m`, each once.
pub open spec fn lists_ids<S>(ids: Seq<u64>, m: Map<u64, S>) -> bool {
    &&& ids.no_duplicates()
    &&& forall|id: u64| #[trigger] m.contains_key(id) <==> ids.contains(id)
}

impl<S> Default for SignalHub<S> {
    fn default() -> (r: Self)
        ensures
            r@ == empty_hub::<S>(),
    {
        let r = SignalHub { next_id: 0, rooms: Table::new() };
        assert(r@.rooms =~= Map::empty());
        r
    }
}

impl<S> SignalHub<S> {
    /// Takes a client into `room`. Hands back its id and the ids of the clients
    /// that were there before it.
    pub fn join(&mut self, room: &str, tx: S) -> (r: (u64, Vec<u64>))
        ensures
            r.0 == old(self)@.next_id,
            lists_ids(r.1@, members(old(self)@, room@)),
            final(self)@ == hub_joined(old(self)@, room@, tx),
    {
        let id = self.next_id;
        self.next_id = self.next_id.wrapping_add(1);
        let name = room.to_owned();
        let mut clients = match self.rooms.remove(&name) {
            Some(clients) => clients,
            None => Table::new(),
        };
        assert(clients@ == members(old(self)@, room@));
        let mut peers: Vec<u64> = Vec::new();
        let listed = clients.entries();
        let ghost all = entries_of(listed@);
        let mut i: usize = 0;
        while i < listed.len()
            invariant
                i <= listed@.len(),
                peers@.len() == i,
                all == entries_of(listed@),
                forall|j: int| 0 <= j < i ==> #[trigger] peers@[j] == all[j].0,
            decreases listed@.len() - i,
        {
            peers.push(*listed[i].0);
            i = i + 1;
        }
        proof {
            let m = clients@;
            assert forall|k: u64| #[trigger] m.contains_key(k) <==> peers@.contains(k) by {
                if m.contains_key(k) {
                    let j = choose|j: int| 0 <= j < all.len() && all[j] == (k, m[k]);
                    assert(peers@[j] == k);
                }
                if peers@.contains(k) {
                    let j = choose|j: int| 0 <= j < peers@.len() && peers@[j] == k;
                    assert(m.contains_key(all[j].0));
                }
            }
            assert forall|a: int, b: int| 0 <= a < peers@.len() && 0 <= b < peers@.len() && a != b implies peers@[a]
                != peers@[b] by {
                if a < b {
                    assert(all[a].0 != all[b].0);
                } else {
                    assert(all[b].0 != all[a].0);
                }
            }
        }
        let _ = clients.insert(id, tx);
        let _ = self.rooms.insert(name, clients);
        assert(self@.rooms =~= hub_joined(old(self)@, room@, tx).rooms);
        (id, peers)
    }

    /// Takes a client out of `room`.
    pub fn leave(&mut self, room: &str, id: u64)
        ensures
            final(self)@ == hub_left(old(self)@, room@, id),
    {
        let name = room.to_owned();
        match self.rooms.remove(&name) {
            Some(mut clients) => {
                let _ = clients.remove(&id);
                if !clients.is_empty() {
                    let _ = self.rooms.insert(name, clients);
                }
            },
            None => {
                assert(Map::<u64, S>::empty().remove(id) =~= Map::<u64, S>::empty());
            },
        }
        assert(self@.rooms =~= hub_left(old(self)@, room@, id).rooms);
    }

    /// The clients of `room` other than `id`: those that are told when `id` has
    /// joined or left.
    pub fn others(&self, room: &str, id: u64) -> (r: Vec<(u64, &S)>)
        ensures
            lists(numbered(r@), members(self@, room@).remove(id)),
    {
        let mut r: Vec<(u64, &S)> = Vec::new();
        match self.rooms.get(&room.to_owned()) {
            Some(clients) => {
                let listed = clients.entries();
                let ghost all = entries_of(listed@);
                let ghost mut from: Seq<int> = Seq::empty();
                let mut i: usize = 0;
                while i < listed.len()
                    invariant
                        i <= listed@.len(),
                        all == entries_of(listed@),
                        r@.len() == from.len(),
                        forall|j: int|
                            0 <= j < from.len() ==> 0 <= #[trigger] from[j] < i && r@[j].0 == all[from[j]].0
                                && *r@[j].1 == all[from[j]].1 && r@[j].0 != id,
                        forall|a: int, b: int| 0 <= a < b < from.len() ==> #[trigger] from[a] < #[trigger] from[b],
                        forall|x: int| 0 <= x < i && (#[trigger] all[x]).0 != id ==> from.contains(x),
                    decreases listed@.len() - i,
                {
                    let (other, tx) = listed[i];
                    let ghost before = from;
                    if *other != id {
                        r.push((*other, tx));
                        proof {
                            from = from.push(i as int);
                            assert(from[before.len() as int] == i);
                        }
                    }
                    proof {
                        assert forall|x: int| 0 <= x < i + 1 && (#[trigger] all[x]).0 != id implies from.contains(
                            x,
                        ) by {
                            if x < i {
                                let y = choose|y: int| 0 <= y < before.len() && before[y] == x;
                                assert(from[y] == x);
                            }
                        }
                    }
                    i = i + 1;
                }
                proof {
                    let m = members(self@, room@).remove(id);
                    let out = numbered(r@);
                    assert forall|k: u64| #[trigger] m.contains_key(k) implies out.contains((k, m[k])) by {
                        assert(clients@.contains_key(k));
                        let x = choose|x: int| 0 <= x < all.len() && all[x] == (k, clients@[k]);
                        assert(from.contains(x));
                        let y = choose|y: int| 0 <= y < from.len() && from[y] == x;
                        assert(out[y] == (k, m[k]));
                    }
                    assert forall|y: int| 0 <= y < out.len() implies m.contains_key((#[trigger] out[y]).0)
                        && m[out[y].0] == out[y].1 by {
                        let x = from[y];
                        assert(clients@.contains_key(all[x].0));
                    }
                    assert forall|a: int, b: int| 0 <= a < b < out.len() implies (#[trigger] out[a]).0 != (
                    #[trigger] out[b]).0 by {
                        assert(all[from[a]].0 != all[from[b]].0);
                    }
                }
            },
            None => {},
        }
        r
    }

    /// The client of `room` that a signal for `to` goes to.
    pub fn relay(&self, room: &str, to: u64) -> (r: Option<&S>)
        ensures
            r is Some <==> members(self@, room@).contains_key(to),
            r matches Some(tx) ==> *tx == members(self@, room@)[to],
    {
        match self.rooms.get(&room.to_owned()) {
            Some(clients) => clients.get(&to),
            None => None,
        }
    }
}

/// A client that joins and leaves again leaves no trace in the rooms, unless its
/// id was taken, which takes as many clients as there are ids.
pub proof fn law_leaving_the_hub_undoes_joining<S>(hub: HubView<S>, room: Seq<char>, tx: S)
    requires
        hub.rooms.contains_key(room) ==> hub.rooms[room] != Map::<u64, S>::empty(),
        !members(hub, room).contains_key(hub.next_id),
    ensures
        hub_left(hub_joined(hub, room, tx), room, hub.next_id).rooms == hub.rooms,
{
    let rest = members(hub_joined(hub, room, tx), room).remove(hub.next_id);
    assert(rest =~= members(hub, room));
    assert(hub_left(hub_joined(hub, room, tx), room, hub.next_id).rooms =~= hub.rooms);
}

// --- the text frames that the server sends -------------------------------------------

/// The numbers of a JSON array.
pub open spec fn numbers_text(ids: Seq<u64>) -> Seq<char>
    decreases ids.len(),
{
    if ids.len() == 0 {
        Seq::empty()
    } else if ids.len() == 1 {
        decimal(ids[0] as nat)
    } else {
        numbers_text(ids.drop_last()).push(',') + decimal(ids.last() as nat)
    }
}

/// The frame that greets a client: its id, and the clients before it.
pub fn welcome_text(you: u64, peers: &Vec<u64>) -> (r: String)
    ensures
        r@ == "{\"peers\":["@ + numbers_text(peers@) + "],\"t\":\"welcome\",\"you\":"@ + decimal(you as nat) + "}"@,
{
    let mut r = String::new();
    r.push_str("{\"peers\":[");
    let ghost head = r@;
    let mut i: usize = 0;
    assert(peers@.take(0) =~= Seq::empty());
    while i < peers.len()
        invariant
            i <= peers@.len(),
            r@ == head + numbers_text(peers@.take(i as int)),
        decreases peers@.len() - i,
    {
        let ghost before = r@;
        if i > 0 {
            r.push(',');
        }
        let n = decimal_text(peers[i]);
        r.push_str(n.as_str());
        proof {
            let now = peers@.take(i + 1);
            assert(now.drop_last() =~= peers@.take(i as int));
            assert(now.last() == peers@[i as int]);
            if i == 0 {
                assert(numbers_text(peers@.take(0)) =~= Seq::<char>::empty());
            }
            assert(r@ =~= head + numbers_text(now));
        }
        i = i + 1;
    }
    assert(peers@.take(i as int) =~= peers@);
    r.push_str("],\"t\":\"welcome\",\"you\":");
    let id = decimal_text(you);
    r.push_str(id.as_str());
    r.push_str("}");
    proof {
        reveal_strlit("{\"peers\":[");
        assert(head =~= "{\"peers\":["@);
    }
    r
}

/// The frame that tells the clients of a room of a new one.
pub fn peer_joined_text(id: u64) -> (r: String)
    ensures
        r@ == "{\"id\":"@ + decimal(id as nat) + ",\"t\":\"peer-joined\"}"@,
{
    let mut r = "{\"id\":".to_owned();
    let n = decimal_text(id);
    r.push_str(n.as_str());
    r.push_str(",\"t\":\"peer-joined\"}");
    r
}

/// The frame that tells the clients of a room of one that is gone.
pub fn peer_left_text(id: u64) -> (r: String)
    ensures
        r@ == "{\"id\":"@ + decimal(id as nat) + ",\"t\":\"peer-left\"}"@,
{
    let mut r = "{\"id\":".to_owned();
    let n = decimal_text(id);
    r.push_str(n.as_str());
    r.push_str(",\"t\":\"peer-left\"}");
    r
}

/// The frame that carries a signal of one client to another. `data` is a JSON
/// text.
pub fn signal_text(from: u64, data: &str) -> (r: String)
    ensures
        r@ == "{\"data\":"@ + data@ + ",\"from\":"@ + decimal(from as nat) + ",\"t\":\"signal\"}"@,
{
    let mut r = "{\"data\":".to_owned();
    r.push_str(data);
    r.push_str(",\"from\":");
    let n = decimal_text(from);
    r.push_str(n.as_str());
    r.push_str(",\"t\":\"signal\"}");
    r
}

} // verus!
