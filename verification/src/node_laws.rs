//! What the decisions of a node are for: commands, ticks, routing, announcements and the
//! writing of rooms.

use vstd::prelude::*;

use crate::bus::{clients_of, joined, left, BusView};
use crate::engine::{
    anchor_envelope, dispatched, fed, ingested, is_active, is_pushed, job_for, log_len, occurs, origin_name, planned,
        settled, shows,
    EngineCmd, EngineView, Fanout, Ingest, LogEntry, Origin, Plan, RawEntry, RoomSummary,
    ANNOUNCE_EVERY_TICKS, TICK_MILLIS,
};
use crate::envelope::decoded;
use crate::fold::step;
use crate::keys::{key_of_text, law_hex_is_read_back, unhex};
use crate::materialise::{forks_for, known_after, next_plan, with_fork, with_written, MaterialiserView};
use crate::op::MAIN_BRANCH;
use crate::presence::{
    ads_of, fresh, indexers_of, is_fresh, is_welcome, keys_view, recorded, rooms_to_join, welcomes, AdView, HostView,
    Welcome, ANNOUNCE_INTERVAL_SECS, GOSSIP_CONTEXT, PRESENCE_TOPIC,
};
use crate::room_sync::{advanced, is_sync, names, Asked, StepView, SyncView};
use crate::session::{asked, asked_in, object_in, session_after, ActionView, SessionView};
use crate::signal::{hub_joined, hub_left, id_after, members, numbers_text, HubView};
use crate::state::{NodeId, RoomView};
use crate::text::{decimal, opt_text, text_lt, utf8};

verus! {

// --- routing -------------------------------------------------------------------------

/// A message for the clients goes to them, and a block goes on from there to every peer;
/// a message for every peer goes to the clients and to every peer; one for a peer goes to
/// no other, and is dispatched to it unless a client is bound to it.
pub proof fn law_messages_go_where_they_are_for(peer: [u8; 32], is_block: bool, bound: bool)
    ensures
        is_pushed(Fanout::Clients),
        is_pushed(Fanout::Gossip),
        !is_pushed(Fanout::Peer(peer)),
        dispatched(Fanout::Clients, is_block, bound) == if is_block {
            Some(Fanout::Gossip)
        } else {
            None::<Fanout>
        },
        dispatched(Fanout::Gossip, is_block, bound) == Some(Fanout::Gossip),
        dispatched(Fanout::Peer(peer), is_block, false) == Some(Fanout::Peer(peer)),
        dispatched(Fanout::Peer(peer), is_block, true) is None,
{
}

// --- commands and ticks --------------------------------------------------------------

/// A command is planned for the room, the peer and the payload that it names. What needs
/// the room to be here is refused where it is not, and nothing else is.
pub proof fn law_commands_are_planned_as_given(cmd: EngineCmd, served: bool, auto_replicate: bool, plan: Plan)
    requires
        planned(cmd, served, auto_replicate, plan),
    ensures
        cmd matches EngineCmd::Host { room } ==> (plan matches Plan::Host(r) && r == room),
        cmd matches EngineCmd::Join { room, origin } ==> (plan matches Plan::Join { room: r, peer } && r == room && peer
            == origin),
        cmd matches EngineCmd::Append { room, payload } ==> (served ==> (plan matches Plan::Append {
            room: r,
            payload: p,
        } && r == room && p == payload)),
        cmd matches EngineCmd::Snapshot { room } ==> (served ==> (plan matches Plan::Snapshot(r) && r == room)),
        cmd matches EngineCmd::Logs { room } ==> (served ==> (plan matches Plan::Logs(r) && r == room)),
        cmd is ClientSync ==> plan is Ingest,
        cmd is List ==> plan is List,
        cmd matches EngineCmd::AddPeer { peer } ==> (plan matches Plan::AddPeer(p) && p == peer),
        plan is Refuse <==> !served && (cmd is Append || cmd is Snapshot || cmd is Logs),
        plan matches Plan::Ingest(what) ==> what == ingested(served, auto_replicate),
{
}

/// A message for a room that is here is fed to it, whatever else; for one that is not, it
/// is dropped unless this node follows rooms unasked.
pub proof fn law_messages_are_fed_to_rooms_that_are_here(auto_replicate: bool)
    ensures
        ingested(true, auto_replicate) == Ingest::Feed,
        ingested(false, true) == Ingest::FollowAndFeed,
        ingested(false, false) == Ingest::Drop,
{
}

/// A room is active at a tick exactly where its activity is another than the one that was
/// noted last; noting the activity of one room says nothing of another.
pub proof fn law_activity_is_what_changed(engine: EngineView, room: Seq<u8>, other: Seq<u8>, noted: u64, activity: u64)
    ensures
        ({
            let after = EngineView { last_activity: engine.last_activity.insert(room, noted), ..engine };
            &&& is_active(after, room, activity) <==> activity != noted
            &&& other != room ==> is_active(after, other, activity) == is_active(engine, other, activity)
        }),
        !engine.last_activity.contains_key(room) ==> is_active(engine, room, activity),
{
}

/// Where the live state is materialised, every activity brings it, at the number of its
/// entries; where the finalized one is, exactly what was finalized brings it, at its
/// version.
pub proof fn law_jobs_carry_the_state(
    engine: EngineView,
    room: Seq<u8>,
    finalized_to: Option<u64>,
    activity: u64,
    live: RoomView,
    finalized: RoomView,
)
    ensures
        ({
            let job = job_for(engine, room, finalized_to, activity, live, finalized);
            &&& engine.mat_live ==> (job is Some <==> is_active(engine, room, activity))
            &&& !engine.mat_live ==> (job is Some <==> finalized_to is Some)
            &&& (job matches Some(j) ==> {
                &&& j.room == room
                &&& engine.mat_live ==> j.state == live && j.version == live.ops_applied
                &&& !engine.mat_live ==> j.state == finalized && finalized_to == Some(j.version)
            })
        }),
{
}

/// A room is announced exactly where it was hosted or joined; what was hosted, joined or
/// appended is answered by how it went, and what was refused is answered so.
pub proof fn law_success_is_answered(plan: Plan, ok: bool)
    ensures
        plan matches Plan::Host(room) ==> (settled(plan, ok) matches Some(s) && s.reply == ok && (ok ==> s.announce
            == Some(room)) && (!ok ==> s.announce is None)),
        plan matches Plan::Join { room, .. } ==> (settled(plan, ok) matches Some(s) && s.reply == ok && (ok
            ==> s.announce
            == Some(room)) && (!ok ==> s.announce is None)),
        plan is Append ==> (settled(plan, ok) matches Some(s) && s.reply == ok && s.announce is None),
        plan is Refuse ==> (settled(plan, ok) matches Some(s) && !s.reply && s.announce is None),
        plan is Ingest || plan is Snapshot || plan is Logs || plan is List || plan is AddPeer ==> settled(
            plan,
            ok,
        ) is None,
{
}

/// A block of a browser that its room took in marks that room, and no other, for the next
/// anchor; nothing else marks one.
pub proof fn law_taken_blocks_are_anchored(
    engine: EngineView,
    room: Seq<u8>,
    other: Seq<u8>,
    is_block: bool,
    taken: bool,
)
    ensures
        is_block && taken ==> fed(engine, room, is_block, taken).needs_anchor.contains(room),
        !is_block || !taken ==> fed(engine, room, is_block, taken) == engine,
        other != room ==> (fed(engine, room, is_block, taken).needs_anchor.contains(other)
            <==> engine.needs_anchor.contains(other)),
        fed(engine, room, is_block, taken).last_activity == engine.last_activity,
{
}

/// A session keeps the writer that its client named last; every other action leaves it.
pub proof fn law_session_keeps_the_named_writer(session: SessionView, action: ActionView)
    ensures
        action matches ActionView::Bind(key) ==> session_after(session, action).writer == Some(key),
        !(action is Bind) ==> session_after(session, action).writer == session.writer,
        session_after(session, action).room == session.room,
        session_after(session, action).client_id == session.client_id,
{
}

/// A frame that is no JSON object asks for nothing; one that is asks for what its members
/// say.
pub proof fn law_frames_are_read_by_their_members(client_id: u64, raw: Seq<char>)
    ensures
        object_in(raw) is None ==> asked_in(client_id, raw) is Ignore,
        object_in(raw) matches Some(fields) ==> asked_in(client_id, raw) == asked(client_id, fields),
{
}

/// The rooms are announced every two seconds, the node every five.
pub proof fn law_announcements_keep_their_pace()
    ensures
        ANNOUNCE_EVERY_TICKS * TICK_MILLIS == 2000,
        TICK_MILLIS == 50,
        ANNOUNCE_INTERVAL_SECS == 5,
{
}

/// The nodes of this library find each other under these names.
pub proof fn law_nodes_meet_under_fixed_names()
    ensures
        PRESENCE_TOPIC@ == "terminusdb-p2p-rooms/presence/v1"@,
        GOSSIP_CONTEXT@ == "terminusdb-p2p-rooms/gossip/v1"@,
{
}

/// An anchor, taken in, changes nothing but the count of entries.
pub proof fn law_anchor_changes_nothing(room: RoomView, key: Seq<u8>, payload: Seq<u8>)
    requires
        decoded(payload) == Some(anchor_envelope()),
    ensures
        step(room, key, payload).title == room.title,
        step(room, key, payload).app == room.app,
        step(room, key, payload).nicks == room.nicks,
        step(room, key, payload).branches == room.branches,
        anchor_envelope().branch == "main"@,
        anchor_envelope().v == 1,
{
}

/// A room that was created here is told from one that is followed.
pub proof fn law_origins_are_told_apart()
    ensures
        origin_name(Origin::Original) == "original"@,
        origin_name(Origin::Replicated) == "replica"@,
{
}

// --- logs ----------------------------------------------------------------------------

/// The log of a writer is as long as its highest place says: every place of the writer
/// lies in it, and its last place is one of them; without any it is empty.
pub proof fn law_log_reaches_the_highest_place(order: Seq<NodeId>, writer: Seq<u8>)
    requires
        forall|i: int| 0 <= i < order.len() ==> (#[trigger] order[i]).seq < u64::MAX,
    ensures
        forall|i: int|
            0 <= i < order.len() && (#[trigger] order[i]).key@ == writer ==> order[i].seq < log_len(order, writer),
        occurs(order, writer) ==> exists|i: int|
            0 <= i < order.len() && (#[trigger] order[i]).key@ == writer && order[i].seq + 1 == log_len(order, writer),
        !occurs(order, writer) ==> log_len(order, writer) == 0,
    decreases order.len(),
{
    if order.len() > 0 {
        let init = order.drop_last();
        let last = order.len() - 1;
        assert forall|i: int| 0 <= i < init.len() implies (#[trigger] init[i]).seq < u64::MAX by {
            assert(init[i] == order[i]);
        }
        law_log_reaches_the_highest_place(init, writer);
        let rest = log_len(init, writer);
        let all = log_len(order, writer);
        assert(order[last].seq < u64::MAX);
        assert forall|i: int| 0 <= i < order.len()
            && (#[trigger] order[i]).key@ == writer implies order[i].seq < all by {
            if i < last {
                assert(init[i] == order[i]);
            }
        }
        if occurs(init, writer) {
            let i = choose|i: int|
                0 <= i < init.len() && (#[trigger] init[i]).key@ == writer && init[i].seq + 1 == rest;
            assert(order[i] == init[i]);
            assert(occurs(order, writer));
        }
        if order[last].key@ == writer {
            assert(occurs(order, writer));
            assert(order[last].seq + 1 == all || all == rest);
            if all == rest && order[last].seq < rest && !occurs(init, writer) {
                assert(rest == 0);
            }
        } else if occurs(order, writer) {
            let i = choose|i: int| 0 <= i < order.len() && (#[trigger] order[i]).key@ == writer;
            assert(init[i] == order[i]);
            assert(occurs(init, writer));
        }
    }
}

/// An entry is shown as it is: its place, the places it refers to with their writers, its
/// payload, and the envelope in it.
pub proof fn law_entry_is_shown_as_it_is(e: LogEntry, raw: RawEntry, seq: int)
    requires
        shows(e, raw, seq),
    ensures
        e.seq == seq,
        e.heads@.len() == raw.heads@.len(),
        forall|i: int|
            0 <= i < raw.heads@.len() ==> unhex(utf8((#[trigger] e.heads@[i]).writer@)) == Some(raw.heads@[i].key@)
                && e.heads@[i].seq == raw.heads@[i].seq,
        unhex(utf8(e.payload_hex@)) == Some(raw.payload@),
        e.envelope matches Some(env) ==> decoded(raw.payload@) == Some(env@),
        e.envelope is None ==> decoded(raw.payload@) is None,
{
    law_hex_is_read_back(raw.payload@);
    assert forall|i: int| 0 <= i < raw.heads@.len() implies unhex(utf8((#[trigger] e.heads@[i]).writer@)) == Some(
        raw.heads@[i].key@,
    ) && e.heads@[i].seq == raw.heads@[i].seq by {
        law_hex_is_read_back(raw.heads@[i].key@);
    }
}

// --- the bus and the hub -------------------------------------------------------------

/// A client that joins a room is one of its clients, under the next id, and gets what is
/// for the room; all clients before it stay, and so do the bound writers.
pub proof fn law_client_that_joins_is_there<S>(bus: BusView<S>, room: Seq<u8>, tx: S)
    requires
        bus.next_id < u64::MAX,
    ensures
        ({
            let id = (bus.next_id + 1) as u64;
            let before = clients_of(bus, room);
            let after = clients_of(joined(bus, room, tx), room);
            &&& joined(bus, room, tx).next_id == id
            &&& after.contains_key(id) && after[id] == tx
            &&& forall|other: u64| other != id
                ==> (#[trigger] after.contains_key(other) <==> before.contains_key(other))
            &&& forall|other: u64| other != id && #[trigger] before.contains_key(other)
                ==> after[other] == before[other]
            &&& joined(bus, room, tx).writers == bus.writers
        }),
{
}

/// A client that leaves a room is none of its clients, and the writer that it was bound to
/// is bound no more; every other client and writer stays, and no id is given out again.
pub proof fn law_client_that_leaves_is_gone<S>(bus: BusView<S>, room: Seq<u8>, id: u64, writer: Option<Seq<u8>>)
    ensures
        ({
            let before = clients_of(bus, room);
            let after = clients_of(left(bus, room, id, writer), room);
            let writers = left(bus, room, id, writer).writers;
            &&& !after.contains_key(id)
            &&& forall|other: u64| other != id
                ==> (#[trigger] after.contains_key(other) <==> before.contains_key(other))
            &&& forall|other: u64| other != id && #[trigger] before.contains_key(other)
                ==> after[other] == before[other]
            &&& writer matches Some(w) ==> !writers.contains_key(w)
            &&& forall|w: Seq<u8>| writer != Some(w)
                ==> (#[trigger] writers.contains_key(w) <==> bus.writers.contains_key(
                w,
            ))
            &&& forall|w: Seq<u8>| writer != Some(w) && #[trigger] bus.writers.contains_key(w) ==> writers[w]
                == bus.writers[w]
            &&& left(bus, room, id, writer).next_id == bus.next_id
        }),
{
    let rest = clients_of(bus, room).remove(id);
    assert forall|other: u64| other != id && #[trigger] clients_of(bus, room).contains_key(other) implies rest
        != Map::<u64, S>::empty() by {
        assert(rest.contains_key(other));
    }
}

/// A client that joins a room of the hub is one of its members, under the next id; all
/// members before it stay, and so does every other room.
pub proof fn law_member_that_joins_is_there<S>(hub: HubView<S>, room: Seq<char>, other_room: Seq<char>, tx: S)
    ensures
        ({
            let id = hub.next_id;
            let before = members(hub, room);
            let after = members(hub_joined(hub, room, tx), room);
            &&& after.contains_key(id) && after[id] == tx
            &&& forall|other: u64| other != id
                ==> (#[trigger] after.contains_key(other) <==> before.contains_key(other))
            &&& forall|other: u64| other != id && #[trigger] before.contains_key(other)
                ==> after[other] == before[other]
            &&& other_room != room ==> members(hub_joined(hub, room, tx), other_room) == members(hub, other_room)
            &&& hub.next_id < u64::MAX ==> hub_joined(hub, room, tx).next_id == hub.next_id + 1
        }),
{
}

/// A client that leaves a room of the hub is none of its members; every other member and
/// every other room stays, and the ids go on.
pub proof fn law_member_that_leaves_is_gone<S>(hub: HubView<S>, room: Seq<char>, other_room: Seq<char>, id: u64)
    ensures
        ({
            let before = members(hub, room);
            let after = members(hub_left(hub, room, id), room);
            &&& !after.contains_key(id)
            &&& forall|other: u64| other != id
                ==> (#[trigger] after.contains_key(other) <==> before.contains_key(other))
            &&& forall|other: u64| other != id && #[trigger] before.contains_key(other)
                ==> after[other] == before[other]
            &&& other_room != room ==> members(hub_left(hub, room, id), other_room) == members(hub, other_room)
            &&& hub_left(hub, room, id).next_id == hub.next_id
        }),
{
    let rest = members(hub, room).remove(id);
    assert forall|other: u64| other != id && #[trigger] members(hub, room).contains_key(other) implies rest != Map::<
        u64,
        S,
    >::empty() by {
        assert(rest.contains_key(other));
    }
}

/// The ids of the hub are given out one after the other.
pub proof fn law_hub_counts_on(id: u64)
    ensures
        id < u64::MAX ==> id_after(id) == id + 1,
        id_after(u64::MAX) == 0,
{
}

/// Numbers are listed in their order, with a comma between each two.
pub proof fn law_numbers_are_listed_in_order(ids: Seq<u64>, more: u64)
    ensures
        numbers_text(seq![more]) == decimal(more as nat),
        ids.len() > 0 ==> numbers_text(ids.push(more)) == numbers_text(ids) + seq![','] + decimal(more as nat),
        numbers_text(Seq::empty()).len() == 0,
{
    if ids.len() > 0 {
        assert(ids.push(more).drop_last() =~= ids);
        assert(numbers_text(ids).push(',') + decimal(more as nat) =~= numbers_text(ids) + seq![','] + decimal(
            more as nat,
        ));
    }
}

// --- presence ------------------------------------------------------------------------

/// A node counts for 30 seconds after it was heard of.
pub proof fn law_nodes_count_for_thirty_seconds(at: u64, now: u64)
    ensures
        is_fresh(at, now) <==> now < at + 30 * 1_000_000_000,
{
}

/// The nodes that count are those that were heard of lately, all of them, in the order of
/// the list.
pub proof fn law_nodes_that_count_are_listed(
    keys: Seq<Seq<char>>,
    peers: Map<Seq<char>, (HostView, u64)>,
    now: u64,
)
    requires
        forall|i: int, j: int| 0 <= i < j < keys.len() ==> text_lt(#[trigger] keys[i], #[trigger] keys[j]),
    ensures
        forall|k: Seq<char>| #[trigger]
            fresh(keys, peers, now).contains(k) <==> keys.contains(k) && is_fresh(peers[k].1, now),
        forall|i: int, j: int|
            0 <= i < j < fresh(keys, peers, now).len() ==> text_lt(
                #[trigger] fresh(keys, peers, now)[i],
                #[trigger] fresh(keys, peers, now)[j],
            ),
    decreases keys.len(),
{
    if keys.len() > 0 {
        let init = keys.drop_last();
        let last = keys.last();
        assert forall|i: int, j: int| 0 <= i < j < init.len() implies text_lt(#[trigger] init[i],
            #[trigger] init[j]) by {
            assert(text_lt(keys[i], keys[j]));
        }
        law_nodes_that_count_are_listed(init, peers, now);
        let rest = fresh(init, peers, now);
        let all = fresh(keys, peers, now);
        assert forall|k: Seq<char>| keys.contains(k) <==> init.contains(k) || k == last by {
            if keys.contains(k) {
                let i = choose|i: int| 0 <= i < keys.len() && keys[i] == k;
                if i < init.len() {
                    assert(init[i] == k);
                }
            }
            if init.contains(k) {
                let i = choose|i: int| 0 <= i < init.len() && init[i] == k;
                assert(keys[i] == k);
            }
            assert(keys[keys.len() - 1] == last);
        }
        if is_fresh(peers[last].1, now) {
            assert forall|k: Seq<char>| #[trigger] all.contains(k) <==> rest.contains(k) || k == last by {
                if rest.contains(k) {
                    let i = choose|i: int| 0 <= i < rest.len() && rest[i] == k;
                    assert(all[i] == k);
                }
                assert(all[rest.len() as int] == last);
            }
            assert forall|i: int, j: int| 0 <= i < j < all.len() implies text_lt(#[trigger] all[i],
                #[trigger] all[j]) by {
                if j < rest.len() {
                    assert(text_lt(rest[i], rest[j]));
                } else {
                    assert(rest.contains(rest[i]));
                    assert(init.contains(rest[i]));
                    let x = choose|x: int| 0 <= x < init.len() && init[x] == rest[i];
                    assert(text_lt(keys[x], keys[keys.len() - 1]));
                }
            }
        }
    }
}

/// A node that announced itself stands in the directory with what it announced and when;
/// every other node stays.
pub proof fn law_announcement_is_recorded(
    peers: Map<Seq<char>, (HostView, u64)>,
    info: HostView,
    now: u64,
    other: Seq<char>,
)
    ensures
        recorded(peers, info, now).contains_key(info.gossip_id),
        recorded(peers, info, now)[info.gossip_id].0 == info,
        recorded(peers, info, now)[info.gossip_id].1 == now,
        other != info.gossip_id ==> (recorded(peers, info, now).contains_key(other) <==> peers.contains_key(other)),
        other != info.gossip_id && peers.contains_key(other) ==> recorded(peers, info, now)[other] == peers[other],
{
}

/// Every announcement but this node's own is welcome, where the key that it names is one.
pub proof fn law_others_are_welcome(own: Seq<char>, info: HostView)
    ensures
        info.gossip_id == own ==> !is_welcome(own, info),
        info.gossip_id != own ==> (is_welcome(own, info) <==> key_of_text(utf8(info.roomnet_id)) is Some),
{
}

/// The sender of an announcement becomes a peer by the key that it names; its rooms are
/// joined only with replication.
pub proof fn law_sender_becomes_a_peer(w: Welcome, replicate: bool, known: Seq<Seq<char>>, info: HostView)
    requires
        welcomes(w, replicate, known, info),
    ensures
        key_of_text(utf8(info.roomnet_id)) == Some(w.peer@),
        !replicate ==> w.joins@.len() == 0,
        replicate ==> keys_view(w.joins@) == rooms_to_join(info.rooms, known),
{
    if !replicate {
        assert(keys_view(w.joins@).len() == 0);
    }
}

/// Of the announced rooms, in their order, each that is a key and is not here is joined,
/// and no other.
pub proof fn law_unknown_rooms_are_joined_in_order(ads: Seq<AdView>, ad: AdView, known: Seq<Seq<char>>)
    ensures
        rooms_to_join(Seq::empty(), known).len() == 0,
        known.contains(ad.id) || key_of_text(utf8(ad.id)) is None ==> rooms_to_join(ads.push(ad), known)
            == rooms_to_join(ads, known),
        !known.contains(ad.id) ==> (key_of_text(utf8(ad.id)) matches Some(room) ==> rooms_to_join(ads.push(ad), known)
            == rooms_to_join(ads, known).push(room)),
{
    assert(ads.push(ad).drop_last() =~= ads);
}

/// A node announces each of its rooms, in their order, with its id, its title and its app.
pub proof fn law_every_room_is_announced(rooms: Seq<RoomSummary>, i: int)
    requires
        0 <= i < rooms.len(),
    ensures
        ads_of(rooms).len() == rooms.len(),
        ads_of(rooms)[i].id == rooms[i].id@,
        ads_of(rooms)[i].title == opt_text(rooms[i].title),
        ads_of(rooms)[i].app == opt_text(rooms[i].app),
{
}

/// The indexers stand in the order in which they were given, behind the node itself: more
/// of them only add to the end.
pub proof fn law_indexers_keep_their_order(own: Seq<u8>, extras: Seq<Seq<u8>>, key: Seq<u8>)
    ensures
        indexers_of(own, extras).contains(key) ==> indexers_of(own, extras.push(key)) == indexers_of(own, extras),
        !indexers_of(own, extras).contains(key) ==> indexers_of(own, extras.push(key)) == indexers_of(own, extras).push(
            key,
        ),
        indexers_of(own, Seq::empty()) == seq![own],
{
    assert(extras.push(key).drop_last() =~= extras);
}

// --- writing a room ------------------------------------------------------------------

/// The writing of a room begins with connecting, and notes nothing by that.
pub proof fn law_sync_begins_with_connecting(s: SyncView, mat: MaterialiserView, org: Seq<char>, ok: bool)
    requires
        s.asked is Nothing,
    ensures
        advanced(s, mat, org, ok).2 is Connect,
        advanced(s, mat, org, ok).0.asked is Connect,
        advanced(s, mat, org, ok).1 == mat,
{
}

/// A failure to connect, to make the database or to write ends the writing; a fork that
/// could not be made does not: what is asked next is the same as if it could. What has
/// ended stays so.
pub proof fn law_failures_end_the_sync(s: SyncView, mat: MaterialiserView, org: Seq<char>)
    requires
        is_sync(s),
    ensures
        s.asked is Connect || s.asked is Prepare || s.asked is Write ==> advanced(s, mat, org, false).2 is Failed
            && advanced(s, mat, org, false).0.asked is End,
        s.asked is Fork ==> advanced(s, mat, org, false).0 == advanced(s, mat, org, true).0 && !(advanced(
            s,
            mat,
            org,
            false,
        ).2 is Failed),
        s.asked is End ==> advanced(s, mat, org, true).2 is Done && advanced(s, mat, org, false).2 is Done,
        !(advanced(s, mat, org, true).2 is Failed),
{
}

/// A database is made once: it is made after connecting exactly where it is not ready, and
/// is ready, with `main`, once it was made.
pub proof fn law_database_is_made_once(s: SyncView, mat: MaterialiserView, org: Seq<char>)
    ensures
        s.asked is Connect ==> (advanced(s, mat, org, true).2 is Prepare <==> !mat.ensured_dbs.contains(s.db)),
        s.asked is Prepare ==> advanced(s, mat, org, true).1.ensured_dbs == mat.ensured_dbs.insert(s.db),
        s.asked is Prepare ==> advanced(s, mat, org, true).1.known_branches.contains((s.db, MAIN_BRANCH@)),
        !(s.asked is Prepare) ==> advanced(s, mat, org, true).1.ensured_dbs == mat.ensured_dbs,
{
}

/// Once the database is ready, the branches that it is not known to have are made, in their
/// order, and then every branch is written, in the order of the names.
pub proof fn law_branches_are_made_and_then_written(s: SyncView, mat: MaterialiserView, org: Seq<char>)
    requires
        is_sync(s),
        names(s).len() < usize::MAX,
        s.forks.len() < usize::MAX,
    ensures
        s.asked is Connect && mat.ensured_dbs.contains(s.db) ==> {
            let forks = forks_for(org, s.db, s.job.state, mat.known_branches);
            let (next, noted, step) = advanced(s, mat, org, true);
            &&& next.forks == forks
            &&& noted.known_branches == known_after(mat.known_branches, s.db, s.job.state)
            &&& noted.written == mat.written
            &&& forks.len() > 0 ==> step == StepView::Fork(forks[0])
            &&& forks.len() == 0 && names(s).len() > 0
                ==> (step matches StepView::Write { name, .. } && name == names(s)[0])
        },
        s.asked matches Asked::Fork(i) ==> {
            let (next, noted, step) = advanced(s, mat, org, true);
            &&& noted == with_fork(mat, s.db, s.forks[i as int].parent, s.forks[i as int].name)
            &&& i + 1 < s.forks.len() ==> step == StepView::Fork(s.forks[i + 1])
            &&& i + 1 == s.forks.len() && names(s).len() > 0 ==> (step matches StepView::Write { name, plan } && name
                == names(s)[0] && plan == next_plan(noted, s.db, name, s.job.state.branches[name], s.job))
        },
        s.asked matches Asked::Write(i) ==> {
            let (next, noted, step) = advanced(s, mat, org, true);
            let done = names(s)[i as int];
            &&& noted == with_written(mat, s.db, done, s.job.state.branches[done], s.job)
            &&& i + 1 < names(s).len()
                ==> (step matches StepView::Write { name, plan } && name == names(s)[i + 1] && plan
                == next_plan(noted, s.db, name, s.job.state.branches[name], s.job))
            &&& i + 1 == names(s).len() ==> step is Done
        },
        advanced(s, mat, org, true).0.db == s.db,
        advanced(s, mat, org, true).0.job == s.job,
{
}

} // verus!
