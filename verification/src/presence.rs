//! Node presence: what a node announces, what it makes of an announcement, and
//! the directory of the nodes it has heard of.

use vstd::prelude::*;

use crate::engine::RoomSummary;
use crate::keys::{key_of_text, parse_key, same_key, says_why, KeyError, NodeKey, RoomId};
use crate::text::{copy_opt_text, lemma_text_lt_total, opt_text, same_text, text_lt, utf8};
use crate::text_map::{lemma_listing_is_unique, lists_keys, sorted_keys, texts, TextMap};

verus! {

/// All nodes of the network meet on this topic.
pub const PRESENCE_TOPIC: &'static str = "terminusdb-p2p-rooms/presence/v1";

/// The context under which the seed of the gossip endpoint is derived.
pub const GOSSIP_CONTEXT: &'static str = "terminusdb-p2p-rooms/gossip/v1";

/// How many seconds lie between two announcements.
pub const ANNOUNCE_INTERVAL_SECS: u64 = 5;

/// A node that was not heard of for so many nanoseconds is forgotten.
pub const PEER_EXPIRY_NANOS: u64 = 30_000_000_000;

/// A room, as it is announced.
#[derive(Clone, Debug, PartialEq, Eq)]
pub struct RoomAd {
    pub id: String,
    pub title: Option<String>,
    pub app: Option<String>,
}

/// One node's presence announcement.
#[derive(Clone, Debug, PartialEq, Eq)]
pub struct HostInfo {
    pub name: String,
    /// Gossip endpoint id (hex).
    pub gossip_id: String,
    /// Endpoint id for rooms, which is the writer key (hex).
    pub roomnet_id: String,
    /// URL at which browsers reach this node.
    pub http_url: Option<String>,
    pub rooms: Vec<RoomAd>,
    pub seq: u64,
}

/// What a [`RoomAd`] stands for.
pub struct AdView {
    pub id: Seq<char>,
    pub title: Option<Seq<char>>,
    pub app: Option<Seq<char>>,
}

/// What a [`HostInfo`] stands for.
pub struct HostView {
    pub name: Seq<char>,
    pub gossip_id: Seq<char>,
    pub roomnet_id: Seq<char>,
    pub http_url: Option<Seq<char>>,
    pub rooms: Seq<AdView>,
    pub seq: u64,
}

impl View for RoomAd {
    type V = AdView;

    open spec fn view(&self) -> AdView {
        AdView { id: self.id@, title: opt_text(self.title), app: opt_text(self.app) }
    }
}

/// The rooms of an announcement.
pub open spec fn ads_view(ads: Seq<RoomAd>) -> Seq<AdView> {
    ads.map_values(|ad: RoomAd| ad@)
}

impl View for HostInfo {
    type V = HostView;

    open spec fn view(&self) -> HostView {
        HostView {
            name: self.name@,
            gossip_id: self.gossip_id@,
            roomnet_id: self.roomnet_id@,
            http_url: opt_text(self.http_url),
            rooms: ads_view(self.rooms@),
            seq: self.seq,
        }
    }
}

fn copy_host(info: &HostInfo) -> (r: HostInfo)
    ensures
        r@ == info@,
{
    let mut rooms: Vec<RoomAd> = Vec::new();
    let mut i: usize = 0;
    while i < info.rooms.len()
        invariant
            i <= info.rooms@.len(),
            rooms@.len() == i,
            forall|j: int| 0 <= j < i ==> (#[trigger] rooms@[j])@ == info.rooms@[j]@,
        decreases info.rooms@.len() - i,
    {
        let ad = &info.rooms[i];
        rooms.push(RoomAd { id: ad.id.clone(), title: copy_opt_text(&ad.title), app: copy_opt_text(&ad.app) });
        i = i + 1;
    }
    assert(ads_view(rooms@) =~= ads_view(info.rooms@));
    HostInfo {
        name: info.name.clone(),
        gossip_id: info.gossip_id.clone(),
        roomnet_id: info.roomnet_id.clone(),
        http_url: copy_opt_text(&info.http_url),
        rooms,
        seq: info.seq,
    }
}

// --- the directory -------------------------------------------------------------------

/// A node that was heard of, and when.
struct Heard {
    info: HostInfo,
    at: u64,
}

impl View for Heard {
    type V = (HostView, u64);

    closed spec fn view(&self) -> (HostView, u64) {
        (self.info@, self.at)
    }
}

/// The nodes that were heard of. Times are nanoseconds of one clock.
pub struct Directory {
    /// By gossip id.
    peers: TextMap<Heard>,
}

impl View for Directory {
    type V = Map<Seq<char>, (HostView, u64)>;

    closed spec fn view(&self) -> Map<Seq<char>, (HostView, u64)> {
        self.peers@
    }
}

/// What was heard at `at` still counts at `now`.
pub open spec fn is_fresh(at: u64, now: u64) -> bool {
    now - at < PEER_EXPIRY_NANOS
}

/// Those of `keys` that still count at `now`.
pub open spec fn fresh(keys: Seq<Seq<char>>, peers: Map<Seq<char>, (HostView, u64)>, now: u64) -> Seq<Seq<char>>
    decreases keys.len(),
{
    if keys.len() == 0 {
        Seq::empty()
    } else {
        let rest = fresh(keys.drop_last(), peers, now);
        if is_fresh(peers[keys.last()].1, now) {
            rest.push(keys.last())
        } else {
            rest
        }
    }
}

/// The directory after an announcement.
pub open spec fn recorded(peers: Map<Seq<char>, (HostView, u64)>, info: HostView, now: u64) -> Map<
    Seq<char>,
    (HostView, u64),
> {
    peers.insert(info.gossip_id, (info, now))
}

/// The directory without the nodes that do not count any more.
pub open spec fn expired(peers: Map<Seq<char>, (HostView, u64)>, now: u64) -> Map<Seq<char>, (HostView, u64)> {
    Map::new(|k: Seq<char>| peers.contains_key(k) && is_fresh(peers[k].1, now), |k: Seq<char>| peers[k])
}

fn counts(at: u64, now: u64) -> (r: bool)
    ensures
        r == is_fresh(at, now),
{
    now < at || now - at < PEER_EXPIRY_NANOS
}

impl Default for Directory {
    fn default() -> (r: Self)
        ensures
            r@ == Map::<Seq<char>, (HostView, u64)>::empty(),
    {
        Directory { peers: TextMap::new() }
    }
}

impl Directory {
    /// The nodes that were heard of lately, in the order of their gossip ids.
    pub fn hosts(&self, now: u64) -> (r: Vec<HostInfo>)
        ensures
            lists_keys(sorted_keys(self@), self@),
            ({
                let keys = fresh(sorted_keys(self@), self@, now);
                &&& r@.len() == keys.len()
                &&& forall|i: int| 0 <= i < r@.len() ==> (#[trigger] r@[i])@ == self@[keys[i]].0
            }),
    {
        let n = self.peers.len();
        let ghost keys = self.peers.keys_in_order();
        let mut r: Vec<HostInfo> = Vec::new();
        let mut i: usize = 0;
        proof {
            lemma_listing_is_unique(keys, sorted_keys(self@), self@);
            assert(keys.take(0) =~= Seq::empty());
        }
        while i < n
            invariant
                i <= n == keys.len(),
                keys == self.peers.keys_in_order(),
                r@.len() == fresh(keys.take(i as int), self@, now).len(),
                forall|j: int|
                    0 <= j < r@.len() ==> (#[trigger] r@[j])@ == self@[fresh(keys.take(i as int), self@, now)[j]].0,
            decreases n - i,
        {
            let (_, heard) = self.peers.entry(i);
            if counts(heard.at, now) {
                r.push(copy_host(&heard.info));
            }
            assert(keys.take(i + 1).drop_last() =~= keys.take(i as int));
            assert(keys.take(i + 1).last() == keys[i as int]);
            i = i + 1;
        }
        assert(keys.take(n as int) =~= keys);
        r
    }

    /// Takes an announcement in. Whether the node was not in the directory before.
    pub fn record(&mut self, info: HostInfo, now: u64) -> (r: bool)
        ensures
            final(self)@ == recorded(old(self)@, info@, now),
            r == !old(self)@.contains_key(info@.gossip_id),
    {
        let new = !self.peers.contains_key(info.gossip_id.as_str());
        let key = info.gossip_id.clone();
        self.peers.insert(key, Heard { info, at: now });
        new
    }

    /// Forgets the nodes that were not heard of lately.
    pub fn expire(&mut self, now: u64)
        ensures
            final(self)@ == expired(old(self)@, now),
    {
        let keys = self.peers.keys();
        let ghost all = texts(keys@);
        let ghost given = self@;
        let mut i: usize = 0;
        while i < keys.len()
            invariant
                i <= keys@.len(),
                all == texts(keys@),
                given == old(self)@,
                lists_keys(all, given),
                forall|k: Seq<char>| #[trigger]
                    self@.contains_key(k) <==> given.contains_key(k) && (is_fresh(given[k].1, now) || exists|j: int|
                        i <= j < all.len() && #[trigger] all[j] == k),
                forall|k: Seq<char>| #[trigger] self@.contains_key(k) ==> self@[k] == given[k],
            decreases keys@.len() - i,
        {
            let ghost before = self@;
            let key = keys[i].as_str();
            let ghost k0 = all[i as int];
            assert(key@ == k0);
            let stale = match self.peers.get(key) {
                Some(heard) => !counts(heard.at, now),
                None => false,
            };
            proof {
                assert(all.contains(k0));
                assert(given.contains_key(k0));
                assert(before.contains_key(k0));
            }
            if stale {
                let _ = self.peers.remove(key);
            }
            proof {
                assert forall|k: Seq<char>| #[trigger] self@.contains_key(k) <==> given.contains_key(k) && (is_fresh(
                    given[k].1,
                    now,
                ) || exists|j: int| i + 1 <= j < all.len() && #[trigger] all[j] == k) by {
                    if k == k0 {
                        if exists|j: int| i + 1 <= j < all.len() && #[trigger] all[j] == k {
                            let j = choose|j: int| i + 1 <= j < all.len() && #[trigger] all[j] == k;
                            lemma_text_lt_total(all[i as int], all[j]);
                            assert(text_lt(all[i as int], all[j]));
                        }
                    } else {
                        assert(self@.contains_key(k) == before.contains_key(k));
                        if exists|j: int| i <= j < all.len() && #[trigger] all[j] == k {
                            let j = choose|j: int| i <= j < all.len() && #[trigger] all[j] == k;
                            assert(i + 1 <= j);
                        }
                    }
                }
            }
            i = i + 1;
        }
        assert(self@ =~= expired(given, now));
    }
}

/// Every node stands in the directory under its own gossip id, and taking in an
/// announcement and forgetting keep it so.
pub open spec fn is_directory(peers: Map<Seq<char>, (HostView, u64)>) -> bool {
    forall|k: Seq<char>| #[trigger] peers.contains_key(k) ==> peers[k].0.gossip_id == k
}

/// A directory stays one, from the empty one on.
pub proof fn law_directory_stays_one(peers: Map<Seq<char>, (HostView, u64)>, info: HostView, now: u64)
    requires
        is_directory(peers),
    ensures
        is_directory(Map::empty()),
        is_directory(recorded(peers, info, now)),
        is_directory(expired(peers, now)),
{
    let e = expired(peers, now);
    assert forall|k: Seq<char>| #[trigger] e.contains_key(k) implies e[k].0.gossip_id == k by {
        assert(peers.contains_key(k));
    }
}

/// Forgetting changes nothing of what is listed at the same moment: a node that
/// is not forgotten stands there as before, and one that is was not listed.
pub proof fn law_forgetting_is_invisible(peers: Map<Seq<char>, (HostView, u64)>, now: u64, k: Seq<char>)
    ensures
        expired(peers, now).contains_key(k) <==> peers.contains_key(k) && is_fresh(peers[k].1, now),
        expired(peers, now).contains_key(k) ==> expired(peers, now)[k] == peers[k],
        expired(expired(peers, now), now) == expired(peers, now),
{
    assert(expired(expired(peers, now), now) =~= expired(peers, now));
}

// --- announcements -------------------------------------------------------------------

/// The rooms of a node, as they are announced.
pub open spec fn ads_of(rooms: Seq<RoomSummary>) -> Seq<AdView> {
    rooms.map_values(|r: RoomSummary| AdView { id: r.id@, title: opt_text(r.title), app: opt_text(r.app) })
}

/// What a node says of itself.
pub fn introduce(
    name: &str,
    gossip_id: &str,
    roomnet_id: &str,
    http_url: &Option<String>,
    rooms: &Vec<RoomSummary>,
    seq: u64,
) -> (r: HostInfo)
    ensures
        r@ == (HostView {
            name: name@,
            gossip_id: gossip_id@,
            roomnet_id: roomnet_id@,
            http_url: opt_text(*http_url),
            rooms: ads_of(rooms@),
            seq,
        }),
{
    let mut ads: Vec<RoomAd> = Vec::new();
    let mut i: usize = 0;
    while i < rooms.len()
        invariant
            i <= rooms@.len(),
            ads@.len() == i,
            forall|j: int| 0 <= j < i ==> (#[trigger] ads@[j])@ == ads_of(rooms@)[j],
        decreases rooms@.len() - i,
    {
        let room = &rooms[i];
        ads.push(RoomAd { id: room.id.clone(), title: copy_opt_text(&room.title), app: copy_opt_text(&room.app) });
        i = i + 1;
    }
    assert(ads_view(ads@) =~= ads_of(rooms@));
    HostInfo {
        name: name.to_owned(),
        gossip_id: gossip_id.to_owned(),
        roomnet_id: roomnet_id.to_owned(),
        http_url: copy_opt_text(http_url),
        rooms: ads,
        seq,
    }
}

/// What a node does on an announcement: a peer to add, and the rooms to follow
/// from it.
#[derive(Clone, Debug, PartialEq, Eq)]
pub struct Welcome {
    pub peer: NodeKey,
    pub joins: Vec<RoomId>,
}

/// The keys of a list.
pub open spec fn keys_view(keys: Seq<[u8; 32]>) -> Seq<Seq<u8>> {
    keys.map_values(|k: [u8; 32]| k@)
}

/// The announced rooms that are not here and whose ids are keys, in the order in
/// which they were announced.
pub open spec fn rooms_to_join(ads: Seq<AdView>, known: Seq<Seq<char>>) -> Seq<Seq<u8>>
    decreases ads.len(),
{
    if ads.len() == 0 {
        Seq::empty()
    } else {
        let rest = rooms_to_join(ads.drop_last(), known);
        match key_of_text(utf8(ads.last().id)) {
            Some(id) => if known.contains(ads.last().id) {
                rest
            } else {
                rest.push(id)
            },
            None => rest,
        }
    }
}

fn is_among(id: &String, known: &Vec<String>) -> (r: bool)
    ensures
        r == texts(known@).contains(id@),
{
    let mut i: usize = 0;
    while i < known.len()
        invariant
            i <= known@.len(),
            forall|j: int| 0 <= j < i ==> (#[trigger] known@[j])@ != id@,
        decreases known@.len() - i,
    {
        if same_text(known[i].as_str(), id.as_str()) {
            assert(texts(known@)[i as int] == id@);
            return true;
        }
        i = i + 1;
    }
    proof {
        if texts(known@).contains(id@) {
            let j = choose|j: int| 0 <= j < texts(known@).len() && texts(known@)[j] == id@;
            assert(known@[j]@ == id@);
        }
    }
    false
}

/// Something is done on an announcement: it is not this node's own, and the
/// announced key is one.
pub open spec fn is_welcome(own_gossip_id: Seq<char>, info: HostView) -> bool {
    info.gossip_id != own_gossip_id && key_of_text(utf8(info.roomnet_id)) is Some
}

/// `w` is what is done on an announcement.
pub open spec fn welcomes(w: Welcome, replicate: bool, known: Seq<Seq<char>>, info: HostView) -> bool {
    &&& key_of_text(utf8(info.roomnet_id)) == Some(w.peer@)
    &&& keys_view(w.joins@) == if replicate {
        rooms_to_join(info.rooms, known)
    } else {
        Seq::empty()
    }
}

/// What to do on an announcement: nothing on this node's own, and nothing where
/// the announced key is none. Otherwise the sender becomes a peer, and with
/// `replicate` every room it has and this node has not is followed from it.
/// `known` are the ids of the rooms that are here.
pub fn welcome(own_gossip_id: &str, replicate: bool, known: &Vec<String>, info: &HostInfo) -> (r: Option<Welcome>)
    ensures
        r is Some <==> is_welcome(own_gossip_id@, info@),
        r matches Some(w) ==> welcomes(w, replicate, texts(known@), info@),
{
    if same_text(info.gossip_id.as_str(), own_gossip_id) {
        return None;
    }
    let peer = match parse_key(info.roomnet_id.as_str()) {
        Ok(key) => key,
        Err(_) => {
            return None;
        },
    };
    let mut joins: Vec<RoomId> = Vec::new();
    assert(keys_view(joins@) =~= Seq::empty());
    if replicate {
        let ghost ads = info@.rooms;
        let mut i: usize = 0;
        assert(ads.take(0) =~= Seq::empty());
        while i < info.rooms.len()
            invariant
                i <= info.rooms@.len(),
                ads == info@.rooms,
                keys_view(joins@) == rooms_to_join(ads.take(i as int), texts(known@)),
            decreases info.rooms@.len() - i,
        {
            let id = &info.rooms[i].id;
            let ghost before = joins@;
            proof {
                assert(ads.take(i + 1).drop_last() =~= ads.take(i as int));
                assert(ads.take(i + 1).last() == ads[i as int]);
                assert(ads[i as int].id == id@);
            }
            if !is_among(id, known) {
                if let Ok(room) = parse_key(id.as_str()) {
                    joins.push(room);
                    assert(keys_view(joins@) =~= keys_view(before).push(room@));
                }
            }
            i = i + 1;
        }
        assert(ads.take(i as int) =~= ads);
    }
    Some(Welcome { peer, joins })
}

impl Directory {
    /// Takes an announcement in and says what to do on it. Where there is nothing
    /// to do, the directory stays as it is; otherwise the sender stands in it with
    /// what it announced. The second part of the answer: whether the sender was not
    /// in the directory before.
    pub fn hear(
        &mut self,
        own_gossip_id: &str,
        replicate: bool,
        known: &Vec<String>,
        info: HostInfo,
        now: u64,
    ) -> (r: Option<(Welcome, bool)>)
        ensures
            r is Some <==> is_welcome(own_gossip_id@, info@),
            final(self)@ == if is_welcome(own_gossip_id@, info@) {
                recorded(old(self)@, info@, now)
            } else {
                old(self)@
            },
            r matches Some((w, new)) ==> {
                &&& welcomes(w, replicate, texts(known@), info@)
                &&& new == !old(self)@.contains_key(info@.gossip_id)
            },
    {
        match welcome(own_gossip_id, replicate, known, &info) {
            Some(w) => {
                let new = self.record(info, now);
                Some((w, new))
            },
            None => None,
        }
    }
}

/// With replication, every room that is announced is here or is joined, so that
/// any room is reachable through any host.
pub proof fn law_announced_rooms_are_reachable(ads: Seq<AdView>, known: Seq<Seq<char>>, i: int)
    requires
        0 <= i < ads.len(),
        key_of_text(utf8(ads[i].id)) is Some,
    ensures
        known.contains(ads[i].id) || rooms_to_join(ads, known).contains(key_of_text(utf8(ads[i].id))->0),
    decreases ads.len(),
{
    let init = ads.drop_last();
    let all = rooms_to_join(ads, known);
    let rest = rooms_to_join(init, known);
    let id = key_of_text(utf8(ads[i].id))->0;
    if i == ads.len() - 1 {
        if !known.contains(ads[i].id) {
            assert(all[rest.len() as int] == id);
        }
    } else {
        assert(init[i] == ads[i]);
        law_announced_rooms_are_reachable(init, known, i);
        if rest.contains(id) {
            let j = choose|j: int| 0 <= j < rest.len() && rest[j] == id;
            assert(all[j] == id);
        }
    }
}

// --- identities ----------------------------------------------------------------------

/// The BLAKE3 hash of bytes.
pub uninterp spec fn blake3_hash(input: Seq<u8>) -> Seq<u8>;

/// The key that BLAKE3 derives from key material under a context.
pub uninterp spec fn blake3_key(context: Seq<char>, material: Seq<u8>) -> Seq<u8>;

/// 32 bytes are an endpoint id: they are the compressed form of a point of the
/// curve.
pub uninterp spec fn is_endpoint_key(key: Seq<u8>) -> bool;

/// `blake3::hash` depends on its input alone.
#[verifier::external_body]
fn hash_bytes(input: &[u8]) -> (r: [u8; 32])
    ensures
        r@ == blake3_hash(input@),
{
    *blake3::hash(input).as_bytes()
}

/// `blake3::derive_key` depends on the context and the key material alone.
#[verifier::external_body]
fn derive_key(context: &str, key_material: &[u8]) -> (r: [u8; 32])
    ensures
        r@ == blake3_key(context@, key_material@),
{
    blake3::derive_key(context, key_material)
}

/// `iroh::EndpointId::from_bytes` takes bytes or refuses them by the bytes alone,
/// and keeps what it takes as it is.
#[verifier::external_body]
fn endpoint_of(key: &[u8; 32]) -> (r: Option<[u8; 32]>)
    ensures
        r is Some <==> is_endpoint_key(key@),
        r matches Some(id) ==> id@ == key@,
{
    iroh::EndpointId::from_bytes(key).ok().map(|id| *id.as_bytes())
}

/// The topic on which the nodes meet.
pub fn presence_topic() -> (r: [u8; 32])
    ensures
        r@ == blake3_hash(utf8(PRESENCE_TOPIC@)),
{
    hash_bytes(PRESENCE_TOPIC.as_bytes())
}

/// The seed of the gossip endpoint, derived from the seed of the node, so that
/// one seed pins both identities.
pub fn gossip_seed(seed: &[u8; 32]) -> (r: [u8; 32])
    ensures
        r@ == blake3_key(GOSSIP_CONTEXT@, seed@),
{
    derive_key(GOSSIP_CONTEXT, seed.as_slice())
}

/// Why a text is not an endpoint id.
#[derive(Clone, Copy, Debug, PartialEq, Eq)]
pub enum EndpointIdError {
    Key(KeyError),
    NotAnEndpoint,
}

/// Reads an endpoint id in hex.
pub fn parse_endpoint_id(hex_str: &str) -> (r: Result<NodeKey, EndpointIdError>)
    ensures
        match r {
            Ok(id) => key_of_text(utf8(hex_str@)) == Some(id@) && is_endpoint_key(id@),
            Err(EndpointIdError::Key(e)) => key_of_text(utf8(hex_str@)) is None && says_why(e, utf8(hex_str@)),
            Err(EndpointIdError::NotAnEndpoint) => key_of_text(utf8(hex_str@)) matches Some(k) && !is_endpoint_key(k),
        },
{
    match parse_key(hex_str) {
        Ok(key) => endpoint_id(endpoint_of(&key)),
        Err(e) => Err(EndpointIdError::Key(e)),
    }
}

/// The endpoint id of a key, by what the curve says of it.
pub fn endpoint_id(point: Option<[u8; 32]>) -> (r: Result<NodeKey, EndpointIdError>)
    ensures
        match point {
            Some(id) => r == Ok::<NodeKey, EndpointIdError>(id),
            None => r == Err::<NodeKey, EndpointIdError>(EndpointIdError::NotAnEndpoint),
        },
{
    match point {
        Some(id) => Ok(id),
        None => Err(EndpointIdError::NotAnEndpoint),
    }
}

/// The indexers of the rooms of a node: its own key, then the others in the order
/// given, each once.
pub open spec fn indexers_of(own: Seq<u8>, extras: Seq<Seq<u8>>) -> Seq<Seq<u8>>
    decreases extras.len(),
{
    if extras.len() == 0 {
        seq![own]
    } else {
        let rest = indexers_of(own, extras.drop_last());
        if rest.contains(extras.last()) {
            rest
        } else {
            rest.push(extras.last())
        }
    }
}

/// The keys that texts stand for, one by one.
pub open spec fn all_keys(extras: Seq<Seq<char>>, keys: Seq<Seq<u8>>) -> bool {
    &&& keys.len() == extras.len()
    &&& forall|i: int| 0 <= i < extras.len() ==> key_of_text(utf8(#[trigger] extras[i])) == Some(keys[i])
}

/// The indexer set of a node. It fails on the first text that is no key.
pub fn indexer_set(own: NodeKey, extras: &Vec<String>) -> (r: Result<Vec<NodeKey>, KeyError>)
    ensures
        match r {
            Ok(set) => exists|keys: Seq<Seq<u8>>| #[trigger]
                all_keys(texts(extras@), keys) && keys_view(set@) == indexers_of(own@, keys),
            Err(e) => exists|i: int|
                {
                    &&& 0 <= i < extras@.len()
                    &&& key_of_text(utf8((#[trigger] extras@[i])@)) is None
                    &&& says_why(e, utf8(extras@[i]@))
                    &&& forall|j: int| 0 <= j < i ==> key_of_text(utf8((#[trigger] extras@[j])@)) is Some
                },
        },
{
    let mut set: Vec<NodeKey> = Vec::new();
    set.push(own);
    let ghost mut keys: Seq<Seq<u8>> = Seq::empty();
    assert(keys_view(set@) =~= seq![own@]);
    let mut i: usize = 0;
    while i < extras.len()
        invariant
            i <= extras@.len(),
            keys.len() == i,
            forall|j: int| 0 <= j < i ==> key_of_text(utf8((#[trigger] extras@[j])@)) == Some(keys[j]),
            keys_view(set@) == indexers_of(own@, keys),
        decreases extras@.len() - i,
    {
        let key = match parse_key(extras[i].as_str()) {
            Ok(key) => key,
            Err(e) => {
                assert(key_of_text(utf8(extras@[i as int]@)) is None);
                return Err(e);
            },
        };
        let mut there = false;
        let mut j: usize = 0;
        while j < set.len()
            invariant
                j <= set@.len(),
                there <==> exists|x: int| 0 <= x < j && (#[trigger] set@[x])@ == key@,
            decreases set@.len() - j,
        {
            if same_key(&set[j], &key) {
                there = true;
            }
            j = j + 1;
        }
        let ghost before = set@;
        let ghost earlier = keys;
        proof {
            keys = keys.push(key@);
            assert(keys.drop_last() =~= earlier);
            if there {
                let x = choose|x: int| 0 <= x < before.len() && (#[trigger] before[x])@ == key@;
                assert(keys_view(before)[x] == key@);
            } else {
                if keys_view(before).contains(key@) {
                    let x = choose|x: int| 0 <= x < before.len() && keys_view(before)[x] == key@;
                    assert(before[x]@ == key@);
                }
            }
        }
        if !there {
            set.push(key);
            assert(keys_view(set@) =~= keys_view(before).push(key@));
        }
        i = i + 1;
    }
    assert(all_keys(texts(extras@), keys));
    Ok(set)
}

/// The node itself is always one of its indexers, every key given is one, and
/// none is one twice.
pub proof fn law_indexers_are_a_set(own: Seq<u8>, extras: Seq<Seq<u8>>)
    ensures
        indexers_of(own, extras).len() >= 1,
        indexers_of(own, extras)[0] == own,
        indexers_of(own, extras).no_duplicates(),
        forall|k: Seq<u8>| #[trigger] indexers_of(own, extras).contains(k) <==> k == own || extras.contains(k),
    decreases extras.len(),
{
    let all = indexers_of(own, extras);
    if extras.len() == 0 {
        assert(all[0] == own);
    } else {
        let init = extras.drop_last();
        let last = extras.last();
        let rest = indexers_of(own, init);
        law_indexers_are_a_set(own, init);
        assert(init.push(last) =~= extras);
        assert forall|k: Seq<u8>| extras.contains(k) <==> init.contains(k) || k == last by {
            if init.contains(k) {
                let i = choose|i: int| 0 <= i < init.len() && init[i] == k;
                assert(extras[i] == k);
            }
            assert(extras[extras.len() - 1] == last);
        }
        if !rest.contains(last) {
            assert forall|k: Seq<u8>| #[trigger] all.contains(k) <==> rest.contains(k) || k == last by {
                if rest.contains(k) {
                    let i = choose|i: int| 0 <= i < rest.len() && rest[i] == k;
                    assert(all[i] == k);
                }
                assert(all[rest.len() as int] == last);
            }
        }
    }
}

} // verus!
