//! The room engine: what a serving node does on a command, on a frame and on a
//! tick. The room server and the transport are the caller's; the engine decides
//! what is asked of them and what comes of their answers.

use vstd::prelude::*;

use crate::bus::{clients_of, SyncBus};
use crate::envelope::{decode_envelope, decoded, encode_envelope, envelope_text};
use crate::keys::{hex_encode, hex_text, key_text, NodeKey, PeerId, RoomId};
use crate::op::{EnvelopeView, OpEnvelope, OpView, RoomOp, ENVELOPE_VERSION, MAIN_BRANCH};
use crate::state::{NodeId, RoomState, RoomView};
use crate::table::{entries_of, lists, numbered, Table};
use crate::text::{copy_opt_text, opt_text, text_lt};
use crate::text_map::{lists_keys, texts, Plain, TextMap};

verus! {

/// How many milliseconds lie between two ticks of the engine.
pub const TICK_MILLIS: u64 = 50;

/// Every so many ticks, each room is announced.
pub const ANNOUNCE_EVERY_TICKS: u64 = 40;

// --- what the engine hands out -------------------------------------------------------

/// Compact room listing for the HTTP API and presence announcements.
#[derive(Clone, Debug)]
pub struct RoomSummary {
    pub id: String,
    pub title: Option<String>,
    pub app: Option<String>,
    pub branches: Vec<String>,
    pub origin: &'static str,
    pub ops: u64,
    pub finalized_ops: usize,
}

/// Full state answer for one room.
#[derive(Clone, Debug)]
pub struct Snapshot {
    pub live: RoomState,
    pub finalized: RoomState,
    pub finalized_len: usize,
}

/// One entry of one writer's log.
#[derive(Clone, Debug)]
pub struct LogEntry {
    pub seq: u64,
    /// Causal references recorded in the entry.
    pub heads: Vec<HeadRef>,
    /// Raw payload bytes in hex, exactly as the ledger holds them.
    pub payload_hex: String,
    /// The envelope in the payload, where there is one.
    pub envelope: Option<OpEnvelope>,
}

#[derive(Clone, Debug)]
pub struct HeadRef {
    pub writer: String,
    pub seq: u64,
}

/// One writer's complete log within a room.
#[derive(Clone, Debug)]
pub struct WriterLog {
    pub writer: String,
    pub len: u64,
    pub entries: Vec<LogEntry>,
}

/// Live-state push event for websocket subscribers.
#[derive(Clone, Debug)]
pub struct RoomEvent {
    pub room: RoomId,
    pub live: RoomState,
    pub finalized_len: usize,
}

/// A room state headed for the materialiser.
#[derive(Clone, Debug)]
pub struct MatJob {
    pub room: RoomId,
    pub version: u64,
    pub state: RoomState,
}

/// What a [`MatJob`] stands for.
pub struct JobView {
    pub room: Seq<u8>,
    pub version: u64,
    pub state: RoomView,
}

impl View for MatJob {
    type V = JobView;

    open spec fn view(&self) -> JobView {
        JobView { room: self.room@, version: self.version, state: self.state@ }
    }
}

/// Where a room of this node comes from.
#[derive(Clone, Copy, Debug, PartialEq, Eq)]
pub enum Origin {
    /// It was created here.
    Original,
    /// It is followed from another node.
    Replicated,
}

/// How an [`Origin`] is called in listings.
pub open spec fn origin_name(origin: Origin) -> Seq<char> {
    match origin {
        Origin::Original => "original"@,
        Origin::Replicated => "replica"@,
    }
}

/// The listing of one room, from its live state.
pub fn summarise(id: &RoomId, live: &RoomState, origin: Origin, finalized_len: usize) -> (r: RoomSummary)
    ensures
        r.id@ == hex_text(id@),
        opt_text(r.title) == live@.title,
        opt_text(r.app) == live@.app,
        lists_keys(texts(r.branches@), live@.branches),
        r.origin@ == origin_name(origin),
        r.ops == live@.ops_applied,
        r.finalized_ops == finalized_len,
{
    RoomSummary {
        id: key_text(id),
        title: copy_opt_text(&live.title),
        app: copy_opt_text(&live.app),
        branches: live.branch_names(),
        origin: match origin {
            Origin::Original => "original",
            Origin::Replicated => "replica",
        },
        ops: live.ops_applied,
        finalized_ops: finalized_len,
    }
}

/// The answer to a request for the state of a room.
pub fn take_snapshot(live: &RoomState, finalized: &RoomState, finalized_len: usize) -> (r: Snapshot)
    ensures
        r.live@ == live@,
        r.finalized@ == finalized@,
        r.finalized_len == finalized_len,
{
    Snapshot { live: live.duplicate(), finalized: finalized.duplicate(), finalized_len }
}

// --- routing -------------------------------------------------------------------------

/// Where a room wants a message to go.
#[derive(Clone, Copy, Debug, PartialEq, Eq)]
pub enum Fanout {
    /// To the websocket clients of the room.
    Clients,
    /// To one peer.
    Peer(PeerId),
    /// To every peer.
    Gossip,
}

/// Where a message goes.
pub struct Route<'a, S> {
    /// The websocket clients that get its frame.
    pub push: Vec<(u64, &'a S)>,
    /// The websocket client that is tried with its frame.
    pub writer: Option<&'a S>,
    /// The peers it is dispatched to.
    pub dispatch: Option<Fanout>,
    /// The peers it is dispatched to if the client under `writer` is gone.
    pub fallback: Option<Fanout>,
}

/// Whether a message for `to` goes to all websocket clients of its room.
pub open spec fn is_pushed(to: Fanout) -> bool {
    !(to is Peer)
}

/// The peers that a message for `to` is dispatched to. `bound`: a websocket client
/// is bound to the peer that it is for.
///
/// Blocks prove themselves, so a block for the websocket clients is relayed to
/// the peers: without that, what a browser writes would never leave its node.
pub open spec fn dispatched(to: Fanout, is_block: bool, bound: bool) -> Option<Fanout> {
    match to {
        Fanout::Clients => if is_block {
            Some(Fanout::Gossip)
        } else {
            None
        },
        Fanout::Peer(p) => if bound {
            None
        } else {
            Some(to)
        },
        Fanout::Gossip => Some(to),
    }
}

/// Ships one message of a room to wherever its fanout says: websocket clients,
/// peers, or both.
pub fn route<'a, S>(bus: &'a SyncBus<S>, room: &RoomId, to: Fanout, is_block: bool) -> (r: Route<'a, S>)
    ensures
        is_pushed(to) ==> lists(numbered(r.push@), clients_of(bus@, room@)),
        !is_pushed(to) ==> r.push@.len() == 0,
        match to {
            Fanout::Peer(p) => {
                &&& r.writer is Some <==> bus@.writers.contains_key(p@)
                &&& r.writer matches Some(tx) ==> *tx == bus@.writers[p@]
            },
            _ => r.writer is None,
        },
        r.dispatch == dispatched(to, is_block, r.writer is Some),
        r.fallback == if r.writer is Some {
            Some(to)
        } else {
            None
        },
{
    match to {
        Fanout::Clients => Route {
            push: bus.push_room(room),
            writer: None,
            dispatch: if is_block {
                Some(Fanout::Gossip)
            } else {
                None
            },
            fallback: None,
        },
        Fanout::Peer(p) => {
            // Websocket-bound writers first; the peer is dialled where there is none.
            match bus.send_writer(&p) {
                Some(tx) => Route { push: Vec::new(), writer: Some(tx), dispatch: None, fallback: Some(to) },
                None => Route { push: Vec::new(), writer: None, dispatch: Some(to), fallback: None },
            }
        },
        Fanout::Gossip => Route { push: bus.push_room(room), writer: None, dispatch: Some(to), fallback: None },
    }
}

/// A message reaches peers unless it is one for the websocket clients alone: a
/// message for a peer is dispatched to it or, where a websocket client is bound
/// to it, tried there and then dispatched if that fails.
pub proof fn law_messages_for_peers_get_out(to: Fanout, is_block: bool, bound: bool)
    ensures
        to is Gossip || to is Peer ==> dispatched(to, is_block, bound) == Some(to) || bound,
        to is Gossip ==> dispatched(to, is_block, bound) == Some(to),
        to is Clients ==> (dispatched(to, is_block, bound) is Some <==> is_block),
{
}

// --- commands ------------------------------------------------------------------------

/// What is asked of the engine.
#[derive(Clone, Debug)]
pub enum EngineCmd {
    Host { room: RoomId },
    Join { room: RoomId, origin: Option<NodeKey> },
    Append { room: RoomId, payload: Vec<u8> },
    /// A sync frame from a websocket client.
    ClientSync { room: RoomId, from: PeerId },
    Snapshot { room: RoomId },
    Logs { room: RoomId },
    List,
    AddPeer { peer: NodeKey },
}

/// What the caller does for a command.
#[derive(Debug)]
pub enum Plan {
    /// Nothing: the room is not here.
    Refuse,
    Host(RoomId),
    /// Follow the room, with `peer` as a peer from now on.
    Join { room: RoomId, peer: Option<NodeKey> },
    Append { room: RoomId, payload: Vec<u8> },
    Ingest(Ingest),
    Snapshot(RoomId),
    Logs(RoomId),
    List,
    AddPeer(NodeKey),
}

/// What becomes of a sync message for a room.
#[derive(Clone, Copy, Debug, PartialEq, Eq, Structural)]
pub enum Ingest {
    /// The room is not here, and this node follows no room unasked.
    Drop,
    /// It is fed to its room.
    Feed,
    /// The room is followed from now on. Then, if it is here, the message is fed
    /// to it.
    FollowAndFeed,
}

/// The part of a [`Plan`] that a command settles, by the command.
pub open spec fn planned(cmd: EngineCmd, served: bool, auto_replicate: bool, plan: Plan) -> bool {
    match cmd {
        EngineCmd::Host { room } => plan == Plan::Host(room),
        EngineCmd::Join { room, origin } => plan == (Plan::Join { room, peer: origin }),
        EngineCmd::Append { room, payload } => if served {
            plan == (Plan::Append { room, payload })
        } else {
            plan == Plan::Refuse
        },
        EngineCmd::ClientSync { .. } => plan == Plan::Ingest(ingested(served, auto_replicate)),
        EngineCmd::Snapshot { room } => if served {
            plan == Plan::Snapshot(room)
        } else {
            plan == Plan::Refuse
        },
        EngineCmd::Logs { room } => if served {
            plan == Plan::Logs(room)
        } else {
            plan == Plan::Refuse
        },
        EngineCmd::List => plan == Plan::List,
        EngineCmd::AddPeer { peer } => plan == Plan::AddPeer(peer),
    }
}

/// What becomes of a sync message.
pub open spec fn ingested(served: bool, auto_replicate: bool) -> Ingest {
    if served {
        Ingest::Feed
    } else if auto_replicate {
        Ingest::FollowAndFeed
    } else {
        Ingest::Drop
    }
}

/// What follows from the outcome of a plan.
#[derive(Clone, Copy, Debug, PartialEq, Eq)]
pub struct Settled {
    /// The room that is announced now.
    pub announce: Option<RoomId>,
    /// What is answered.
    pub reply: bool,
}

/// What follows from how a plan went.
pub open spec fn settled(plan: Plan, ok: bool) -> Option<Settled> {
    match plan {
        Plan::Refuse => Some(Settled { announce: None, reply: false }),
        Plan::Host(room) => Some(
            Settled {
                announce: if ok {
                    Some(room)
                } else {
                    None
                },
                reply: ok,
            },
        ),
        Plan::Join { room, .. } => Some(
            Settled {
                announce: if ok {
                    Some(room)
                } else {
                    None
                },
                reply: ok,
            },
        ),
        Plan::Append { .. } => Some(Settled { announce: None, reply: ok }),
        _ => None,
    }
}

/// What follows once the server has hosted, joined or appended, or refused to. A
/// room that was hosted or joined is announced. `None` for a plan that is not
/// answered with success or failure.
pub fn settle(plan: &Plan, ok: bool) -> (r: Option<Settled>)
    ensures
        match *plan {
            Plan::Refuse => r == Some(Settled { announce: None, reply: false }),
            Plan::Host(room) => r == Some(Settled { announce: if ok { Some(room) } else { None }, reply: ok }),
            Plan::Join { room, .. } => r == Some(
                Settled { announce: if ok { Some(room) } else { None }, reply: ok },
            ),
            Plan::Append { .. } => r == Some(Settled { announce: None, reply: ok }),
            _ => r is None,
        },
        r == settled(*plan, ok),
{
    match plan {
        Plan::Refuse => Some(Settled { announce: None, reply: false }),
        Plan::Host(room) => Some(
            Settled {
                announce: if ok {
                    Some(*room)
                } else {
                    None
                },
                reply: ok,
            },
        ),
        Plan::Join { room, .. } => Some(
            Settled {
                announce: if ok {
                    Some(*room)
                } else {
                    None
                },
                reply: ok,
            },
        ),
        Plan::Append { .. } => Some(Settled { announce: None, reply: ok }),
        _ => None,
    }
}

// --- the engine ----------------------------------------------------------------------

/// The state of the engine.
pub struct Engine {
    /// Follow any room that frames or announcements are seen for.
    auto_replicate: bool,
    /// Materialise the live state instead of the finalized one.
    mat_live: bool,
    last_activity: Table<[u8; 32], u64>,
    /// Rooms that have taken in a block of a browser writer since the last
    /// anchor. The next tick appends a checkpoint to each: the entry of this node
    /// refers to those blocks, and thereby finalizes them.
    needs_anchor: Table<[u8; 32], ()>,
}

/// What an [`Engine`] stands for.
pub struct EngineView {
    pub auto_replicate: bool,
    pub mat_live: bool,
    pub last_activity: Map<Seq<u8>, u64>,
    pub needs_anchor: Set<Seq<u8>>,
}

impl View for Engine {
    type V = EngineView;

    closed spec fn view(&self) -> EngineView {
        EngineView {
            auto_replicate: self.auto_replicate,
            mat_live: self.mat_live,
            last_activity: self.last_activity@,
            needs_anchor: self.needs_anchor@.dom(),
        }
    }
}

/// What a tick brings for one room.
pub struct RoomTick {
    /// What the materialiser gets.
    pub job: Option<MatJob>,
    /// What the subscribers get.
    pub event: Option<RoomEvent>,
}

/// The engine after a sync frame from a websocket client.
pub open spec fn fed(engine: EngineView, room: Seq<u8>, is_block: bool, taken: bool) -> EngineView {
    if is_block && taken {
        EngineView { needs_anchor: engine.needs_anchor.insert(room), ..engine }
    } else {
        engine
    }
}

/// Whether the activity of a room is another than at the last tick.
pub open spec fn is_active(engine: EngineView, room: Seq<u8>, activity: u64) -> bool {
    !(engine.last_activity.contains_key(room) && engine.last_activity[room] == activity)
}

/// What the materialiser gets of a room: its live state on any activity, or its
/// finalized state when more of it is final.
pub open spec fn job_for(
    engine: EngineView,
    room: Seq<u8>,
    finalized_to: Option<u64>,
    activity: u64,
    live: RoomView,
    finalized: RoomView,
) -> Option<JobView> {
    if engine.mat_live {
        if is_active(engine, room, activity) {
            Some(JobView { room, version: live.ops_applied, state: live })
        } else {
            None
        }
    } else {
        match finalized_to {
            Some(version) => Some(JobView { room, version, state: finalized }),
            None => None,
        }
    }
}

impl Engine {
    pub fn new(auto_replicate: bool, mat_live: bool) -> (r: Self)
        ensures
            r@ == (EngineView { auto_replicate, mat_live, last_activity: Map::empty(), needs_anchor: Set::empty() }),
    {
        let r = Engine { auto_replicate, mat_live, last_activity: Table::new(), needs_anchor: Table::new() };
        assert(r@.needs_anchor =~= Set::empty());
        r
    }

    /// What is to be done for a command. `served`: the room that it is about is
    /// here.
    pub fn on_command(&self, cmd: EngineCmd, served: bool) -> (r: Plan)
        ensures
            planned(cmd, served, self@.auto_replicate, r),
    {
        match cmd {
            EngineCmd::Host { room } => Plan::Host(room),
            EngineCmd::Join { room, origin } => Plan::Join { room, peer: origin },
            EngineCmd::Append { room, payload } => if served {
                Plan::Append { room, payload }
            } else {
                Plan::Refuse
            },
            EngineCmd::ClientSync { .. } => Plan::Ingest(self.ingest(served)),
            EngineCmd::Snapshot { room } => if served {
                Plan::Snapshot(room)
            } else {
                Plan::Refuse
            },
            EngineCmd::Logs { room } => if served {
                Plan::Logs(room)
            } else {
                Plan::Refuse
            },
            EngineCmd::List => Plan::List,
            EngineCmd::AddPeer { peer } => Plan::AddPeer(peer),
        }
    }

    /// What becomes of a sync message, from a peer or from a websocket client.
    pub fn ingest(&self, served: bool) -> (r: Ingest)
        ensures
            r == ingested(served, self@.auto_replicate),
    {
        if served {
            Ingest::Feed
        } else if self.auto_replicate {
            Ingest::FollowAndFeed
        } else {
            Ingest::Drop
        }
    }

    /// Notes what became of a sync frame from a websocket client: a block that its
    /// room took in marks the room for the next anchor. A block that was dropped or
    /// that the room refused marks nothing.
    pub fn note_fed(&mut self, room: RoomId, is_block: bool, taken: bool)
        ensures
            final(self)@ == (EngineView {
                needs_anchor: if is_block && taken {
                    old(self)@.needs_anchor.insert(room@)
                } else {
                    old(self)@.needs_anchor
                },
                ..old(self)@
            }),
            final(self)@ == fed(old(self)@, room@, is_block, taken),
    {
        if is_block && taken {
            let _ = self.needs_anchor.insert(room, ());
            assert(self@.needs_anchor =~= old(self)@.needs_anchor.insert(room@));
        }
    }

    /// The rooms that are anchored now, each once. After this none is marked.
    pub fn take_anchors(&mut self) -> (r: Vec<RoomId>)
        ensures
            forall|room: Seq<u8>| #[trigger]
                old(self)@.needs_anchor.contains(room) <==> exists|i: int| 0 <= i < r@.len() && #[trigger] r@[i]@ == room,
            forall|i: int, j: int| 0 <= i < j < r@.len() ==> #[trigger] r@[i]@ != #[trigger] r@[j]@,
            final(self)@ == (EngineView { needs_anchor: Set::empty(), ..old(self)@ }),
    {
        let mut marked: Table<[u8; 32], ()> = Table::new();
        std::mem::swap(&mut self.needs_anchor, &mut marked);
        assert(self@.needs_anchor =~= Set::empty());
        let listed = marked.entries();
        let ghost all = entries_of(listed@);
        let mut r: Vec<RoomId> = Vec::new();
        let mut i: usize = 0;
        while i < listed.len()
            invariant
                i <= listed@.len(),
                r@.len() == i,
                all == entries_of(listed@),
                forall|j: int| 0 <= j < i ==> (#[trigger] r@[j])@ == all[j].0,
            decreases listed@.len() - i,
        {
            r.push(*listed[i].0);
            i = i + 1;
        }
        proof {
            assert forall|room: Seq<u8>| #[trigger] old(self)@.needs_anchor.contains(room) <==> exists|j: int|
                0 <= j < r@.len() && #[trigger] r@[j]@ == room by {
                if old(self)@.needs_anchor.contains(room) {
                    assert(marked@.contains_key(room));
                    let j = choose|j: int| 0 <= j < all.len() && all[j] == (room, marked@[room]);
                    assert(r@[j]@ == room);
                }
                if exists|j: int| 0 <= j < r@.len() && #[trigger] r@[j]@ == room {
                    let j = choose|j: int| 0 <= j < r@.len() && #[trigger] r@[j]@ == room;
                    assert(marked@.contains_key(all[j].0));
                }
            }
            assert forall|a: int, b: int| 0 <= a < b < r@.len() implies #[trigger] r@[a]@ != #[trigger] r@[b]@ by {
                assert(all[a].0 != all[b].0);
            }
        }
        r
    }

    /// What a tick brings for one room. `finalized_to`: the version that its
    /// finalized state has now, where more of it is final than at the last tick.
    pub fn tick_room(
        &mut self,
        room: RoomId,
        finalized_to: Option<u64>,
        activity: u64,
        live: &RoomState,
        finalized: &RoomState,
        finalized_len: usize,
    ) -> (r: RoomTick)
        ensures
            final(self)@ == (EngineView {
                last_activity: old(self)@.last_activity.insert(room@, activity),
                ..old(self)@
            }),
            match (r.job, job_for(old(self)@, room@, finalized_to, activity, live@, finalized@)) {
                (Some(job), Some(expected)) => job@ == expected,
                (None, None) => true,
                _ => false,
            },
            r.event is Some <==> is_active(old(self)@, room@, activity),
            r.event matches Some(e) ==> e.room == room && e.live@ == live@ && e.finalized_len == finalized_len,
    {
        let earlier = self.last_activity.insert(room, activity);
        let active = match earlier {
            Some(a) => a != activity,
            None => true,
        };
        let job = if self.mat_live {
            if active {
                Some(MatJob { room, version: live.ops_applied, state: live.duplicate() })
            } else {
                None
            }
        } else {
            match finalized_to {
                Some(version) => Some(MatJob { room, version, state: finalized.duplicate() }),
                None => None,
            }
        };
        let event = if active {
            Some(RoomEvent { room, live: live.duplicate(), finalized_len })
        } else {
            None
        };
        RoomTick { job, event }
    }
}

/// Whether the rooms are announced at a tick.
pub fn announces_at(tick: u64) -> (r: bool)
    ensures
        r == (tick % ANNOUNCE_EVERY_TICKS == 0),
{
    tick % ANNOUNCE_EVERY_TICKS == 0
}

/// The envelope of an anchor.
pub open spec fn anchor_envelope() -> EnvelopeView {
    EnvelopeView { v: ENVELOPE_VERSION, branch: MAIN_BRANCH@, op: OpView::Checkpoint }
}

/// The payload of an anchor: an entry that refers to what was taken in, and
/// folds to nothing.
pub fn anchor_payload() -> (r: Vec<u8>)
    ensures
        r@ == envelope_text(anchor_envelope()),
        decoded(r@) == Some(anchor_envelope()),
{
    encode_envelope(&OpEnvelope::main(RoomOp::Checkpoint))
}

/// A tick with the activity of the last one, and nothing more final, brings
/// nothing.
pub proof fn law_quiet_room_brings_nothing(
    engine: EngineView,
    room: Seq<u8>,
    activity: u64,
    live: RoomView,
    finalized: RoomView,
)
    requires
        engine.last_activity.contains_key(room),
        engine.last_activity[room] == activity,
    ensures
        !is_active(engine, room, activity),
        job_for(engine, room, None, activity, live, finalized) is None,
{
}

// --- logs ----------------------------------------------------------------------------

/// How long the log of a writer is, from the nodes that were linearized: one more
/// than the highest place in it that occurs, 0 where none does.
pub open spec fn log_len(order: Seq<NodeId>, writer: Seq<u8>) -> u64
    decreases order.len(),
{
    if order.len() == 0 {
        0
    } else {
        let rest = log_len(order.drop_last(), writer);
        let node = order.last();
        if node.key@ == writer && node.seq >= rest {
            (node.seq + 1) as u64
        } else {
            rest
        }
    }
}

/// A writer, and how long its log is.
#[derive(Clone, Copy, Debug, PartialEq, Eq)]
pub struct WriterLen {
    pub writer: NodeKey,
    pub len: u64,
}

impl View for WriterLen {
    type V = (Seq<u8>, u64);

    open spec fn view(&self) -> (Seq<u8>, u64) {
        (self.writer@, self.len)
    }
}

/// `writer` has a node in `order`.
pub open spec fn occurs(order: Seq<NodeId>, writer: Seq<u8>) -> bool {
    exists|i: int| 0 <= i < order.len() && (#[trigger] order[i]).key@ == writer
}

/// `m` holds, under their hex keys, the writers of `order` and their lengths.
spec fn measures(m: Map<Seq<char>, (Seq<u8>, u64)>, order: Seq<NodeId>) -> bool {
    &&& forall|k: Seq<char>| #[trigger]
        m.contains_key(k) ==> k == hex_text(m[k].0) && occurs(order, m[k].0) && m[k].1 == log_len(order, m[k].0)
    &&& forall|w: Seq<u8>| #[trigger] occurs(order, w) ==> m.contains_key(hex_text(w))
}

proof fn lemma_len_of_absent(order: Seq<NodeId>, w: Seq<u8>)
    requires
        !occurs(order, w),
    ensures
        log_len(order, w) == 0,
    decreases order.len(),
{
    if order.len() > 0 {
        assert(order[order.len() - 1].key@ != w);
        let rest = order.drop_last();
        assert(!occurs(rest, w)) by {
            if occurs(rest, w) {
                let i = choose|i: int| 0 <= i < rest.len() && (#[trigger] rest[i]).key@ == w;
                assert(order[i].key@ == w);
            }
        }
        lemma_len_of_absent(rest, w);
    }
}

proof fn lemma_measures_one_more(
    before: Map<Seq<char>, (Seq<u8>, u64)>,
    after: Map<Seq<char>, (Seq<u8>, u64)>,
    order: Seq<NodeId>,
    node: NodeId,
)
    requires
        measures(before, order),
        node.seq < u64::MAX,
        after == before.insert(
            hex_text(node.key@),
            (
                node.key@,
                if log_len(order, node.key@) > node.seq {
                    log_len(order, node.key@)
                } else {
                    (node.seq + 1) as u64
                },
            ),
        ),
    ensures
        measures(after, order.push(node)),
{
    let longer = order.push(node);
    let w = node.key@;
    assert(longer.drop_last() =~= order);
    assert(longer[order.len() as int].key@ == w);
    assert(occurs(longer, w));
    assert forall|x: Seq<u8>| occurs(order, x) implies occurs(longer, x) by {
        let i = choose|i: int| 0 <= i < order.len() && (#[trigger] order[i]).key@ == x;
        assert(longer[i].key@ == x);
    }
    assert forall|k: Seq<char>| #[trigger] after.contains_key(k) implies k == hex_text(after[k].0) && occurs(
        longer,
        after[k].0,
    ) && after[k].1 == log_len(longer, after[k].0) by {
        if k != hex_text(w) {
            assert(before.contains_key(k));
        }
    }
    assert forall|x: Seq<u8>| #[trigger] occurs(longer, x) implies after.contains_key(hex_text(x)) by {
        let i = choose|i: int| 0 <= i < longer.len() && (#[trigger] longer[i]).key@ == x;
        if i < order.len() {
            assert(order[i].key@ == x);
            assert(occurs(order, x));
        }
    }
}

/// The writers that occur in a linearized order, with the lengths of their logs,
/// in the order of their hex keys.
pub fn log_lengths(order: &Vec<NodeId>) -> (r: Vec<WriterLen>)
    requires
        forall|i: int| 0 <= i < order@.len() ==> (#[trigger] order@[i]).seq < u64::MAX,
    ensures
        forall|i: int|
            0 <= i < r@.len() ==> occurs(order@, (#[trigger] r@[i]).writer@) && r@[i].len == log_len(
                order@,
                r@[i].writer@,
            ),
        forall|w: Seq<u8>| #[trigger]
            occurs(order@, w) ==> exists|i: int| 0 <= i < r@.len() && (#[trigger] r@[i]).writer@ == w,
        forall|i: int, j: int|
            0 <= i < j < r@.len() ==> text_lt(hex_text((#[trigger] r@[i]).writer@), hex_text((#[trigger] r@[j]).writer@)),
{
    let mut lens: TextMap<WriterLen> = TextMap::new();
    let mut n: usize = 0;
    assert(order@.take(0) =~= Seq::empty());
    while n < order.len()
        invariant
            n <= order@.len(),
            forall|i: int| 0 <= i < order@.len() ==> (#[trigger] order@[i]).seq < u64::MAX,
            measures(lens@, order@.take(n as int)),
        decreases order@.len() - n,
    {
        let node = order[n];
        let hex = key_text(&node.key);
        let ghost before = lens@;
        let ghost seen = order@.take(n as int);
        let known: u64 = match lens.get(hex.as_str()) {
            Some(w) => {
                proof {
                    crate::keys::law_hex_tells_bytes_apart(w.writer@, node.key@);
                }
                w.len
            },
            None => {
                proof {
                    if occurs(seen, node.key@) {
                        assert(before.contains_key(hex_text(node.key@)));
                    }
                    lemma_len_of_absent(seen, node.key@);
                }
                0
            },
        };
        assert(known == log_len(seen, node.key@));
        let len: u64 = if known > node.seq {
            known
        } else {
            node.seq + 1
        };
        lens.insert(hex, WriterLen { writer: node.key, len });
        proof {
            lemma_measures_one_more(before, lens@, seen, node);
            assert(order@.take(n + 1) =~= seen.push(node));
        }
        n = n + 1;
    }
    assert(order@.take(n as int) =~= order@);
    let m = lens.len();
    let ghost keys = lens.keys_in_order();
    let mut r: Vec<WriterLen> = Vec::new();
    let mut i: usize = 0;
    while i < m
        invariant
            i <= m == keys.len(),
            keys == lens.keys_in_order(),
            lists_keys(keys, lens@),
            r@.len() == i,
            forall|j: int| 0 <= j < i ==> (#[trigger] r@[j])@ == lens@[keys[j]],
        decreases m - i,
    {
        r.push(*lens.entry(i).1);
        i = i + 1;
    }
    proof {
        assert forall|j: int| 0 <= j < r@.len() implies hex_text((#[trigger] r@[j]).writer@) == keys[j] && occurs(
            order@,
            r@[j].writer@,
        ) && r@[j].len == log_len(order@, r@[j].writer@) by {
            assert(keys.contains(keys[j]));
            assert(lens@.contains_key(keys[j]));
            assert(r@[j]@ == lens@[keys[j]]);
        }
        assert forall|w: Seq<u8>| #[trigger] occurs(order@, w) implies exists|j: int|
            0 <= j < r@.len() && (#[trigger] r@[j]).writer@ == w by {
            assert(keys.contains(hex_text(w)));
            let j = choose|j: int| 0 <= j < keys.len() && keys[j] == hex_text(w);
            assert(hex_text(r@[j].writer@) == keys[j]);
            crate::keys::law_hex_tells_bytes_apart(r@[j].writer@, w);
        }
        assert forall|a: int, b: int| 0 <= a < b < r@.len() implies text_lt(
            hex_text((#[trigger] r@[a]).writer@),
            hex_text((#[trigger] r@[b]).writer@),
        ) by {
            assert(text_lt(keys[a], keys[b]));
        }
    }
    r
}

/// An entry of a log as the ledger holds it.
#[derive(Clone, Debug)]
pub struct RawEntry {
    pub heads: Vec<NodeId>,
    pub payload: Vec<u8>,
}

/// `e` shows the entry `raw` at place `seq`.
pub open spec fn shows(e: LogEntry, raw: RawEntry, seq: int) -> bool {
    &&& e.seq == seq
    &&& e.heads@.len() == raw.heads@.len()
    &&& forall|i: int|
        0 <= i < raw.heads@.len() ==> (#[trigger] e.heads@[i]).writer@ == hex_text(raw.heads@[i].key@) && e.heads@[i].seq
            == raw.heads@[i].seq
    &&& e.payload_hex@ == hex_text(raw.payload@)
    &&& match e.envelope {
        Some(env) => decoded(raw.payload@) == Some(env@),
        None => decoded(raw.payload@) is None,
    }
}

/// One writer's log, with causal heads, raw payloads and the envelopes in them.
pub fn writer_log(writer: &NodeKey, len: u64, entries: &Vec<RawEntry>) -> (r: WriterLog)
    ensures
        r.writer@ == hex_text(writer@),
        r.len == len,
        r.entries@.len() == entries@.len(),
        forall|i: int| 0 <= i < entries@.len() ==> shows(#[trigger] r.entries@[i], entries@[i], i),
{
    let mut shown: Vec<LogEntry> = Vec::new();
    let mut i: usize = 0;
    while i < entries.len()
        invariant
            i <= entries@.len(),
            shown@.len() == i,
            forall|j: int| 0 <= j < i ==> shows(#[trigger] shown@[j], entries@[j], j),
        decreases entries@.len() - i,
    {
        let raw = &entries[i];
        let mut heads: Vec<HeadRef> = Vec::new();
        let mut h: usize = 0;
        while h < raw.heads.len()
            invariant
                h <= raw.heads@.len(),
                heads@.len() == h,
                forall|j: int|
                    0 <= j < h ==> (#[trigger] heads@[j]).writer@ == hex_text(raw.heads@[j].key@) && heads@[j].seq
                        == raw.heads@[j].seq,
            decreases raw.heads@.len() - h,
        {
            heads.push(HeadRef { writer: key_text(&raw.heads[h].key), seq: raw.heads[h].seq });
            h = h + 1;
        }
        let entry = LogEntry {
            seq: i as u64,
            heads,
            envelope: decode_envelope(raw.payload.as_slice()),
            payload_hex: hex_encode(raw.payload.as_slice()),
        };
        assert(shows(entry, *raw, i as int));
        shown.push(entry);
        i = i + 1;
    }
    WriterLog { writer: key_text(writer), len, entries: shown }
}

/// The log that is handed out is enough to audit the fold: every payload can be
/// read back from it exactly.
pub proof fn law_logs_can_be_audited(e: LogEntry, raw: RawEntry, seq: int)
    requires
        shows(e, raw, seq),
    ensures
        crate::keys::unhex(crate::text::utf8(e.payload_hex@)) == Some(raw.payload@),
{
    crate::keys::law_hex_is_read_back(raw.payload@);
}

} // verus!
