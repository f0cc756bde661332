use terminus_rooms::bus::SyncBus;
use terminus_rooms::client::{append_payload, frames_json, open_request, sender_key, OutFrame};
use terminus_rooms::engine::{
    anchor_payload, announces_at, log_lengths, route, settle, summarise, take_snapshot, writer_log, Engine, EngineCmd,
    Fanout, Ingest, Origin, Plan, RawEntry, Settled,
};
use terminus_rooms::http::{
    append_request, appended, create_room, created, found, join_request, joined, key_error_text, opening_ops, room_of,
    room_state, tdb_answer, tdb_queries, ApiError, DocCounts,
};
use terminus_rooms::keys::{key_text, parse_key, HexError, KeyError};
use terminus_rooms::materialise::MatRoomStatus;
use terminus_rooms::presence::{
    endpoint_id, gossip_seed, indexer_set, introduce, parse_endpoint_id, presence_topic, welcome, Directory,
    EndpointIdError, HostInfo, RoomAd, PEER_EXPIRY_NANOS,
};
use terminus_rooms::session::{ask, ClientAction, ClientSession, Field};
use terminus_rooms::signal::{peer_joined_text, peer_left_text, signal_text, welcome_text, SignalHub};
use terminus_rooms::{decode_envelope, encode_envelope, NodeId, OpEnvelope, RoomOp, RoomState};

fn sorted<T: Ord>(mut v: Vec<T>) -> Vec<T> {
    v.sort();
    v
}

fn room_with(ops: Vec<(&str, RoomOp)>) -> RoomState {
    let mut state = RoomState::default();
    for (branch, op) in ops {
        state.apply_payload(NodeId::new([1; 32], 0), &encode_envelope(&OpEnvelope::new(branch, op)));
    }
    state
}

fn post(text: &str) -> RoomOp {
    RoomOp::ChatPost { text: text.into(), nick: None }
}

// --- bus and routing ---

#[test]
fn the_bus_reaches_those_who_joined_and_have_not_left() {
    let mut bus: SyncBus<&str> = SyncBus::default();
    let a = bus.join([1; 32], "a");
    let b = bus.join([1; 32], "b");
    let c = bus.join([2; 32], "c");
    assert_eq!((a, b, c), (1, 2, 3));
    let reached: Vec<(u64, &str)> = bus.push_room(&[1; 32]).into_iter().map(|(id, tx)| (id, *tx)).collect();
    assert_eq!(sorted(reached), vec![(1, "a"), (2, "b")]);
    bus.leave([1; 32], a, None);
    assert_eq!(bus.push_room(&[1; 32]), vec![(2, &"b")]);
    bus.leave([1; 32], b, None);
    assert!(bus.push_room(&[1; 32]).is_empty());
    assert_eq!(bus.push_room(&[2; 32]), vec![(3, &"c")]);
    assert_eq!(bus.join([1; 32], "d"), 4);
}

#[test]
fn a_writer_is_reached_until_its_client_leaves() {
    let mut bus: SyncBus<&str> = SyncBus::default();
    let id = bus.join([1; 32], "a");
    assert_eq!(bus.send_writer(&[7; 32]), None);
    bus.bind_writer([7; 32], "a");
    assert_eq!(bus.send_writer(&[7; 32]), Some(&"a"));
    bus.bind_writer([7; 32], "b");
    assert_eq!(bus.send_writer(&[7; 32]), Some(&"b"));
    bus.leave([9; 32], id, Some([7; 32]));
    assert_eq!(bus.send_writer(&[7; 32]), None);
    assert_eq!(bus.push_room(&[1; 32]).len(), 1);
}

#[test]
fn messages_go_where_their_fanout_says() {
    let mut bus: SyncBus<&str> = SyncBus::default();
    bus.join([1; 32], "a");
    bus.bind_writer([7; 32], "w");

    let r = route(&bus, &[1; 32], Fanout::Clients, false);
    assert_eq!((r.push.len(), r.writer, r.dispatch, r.fallback), (1, None, None, None));
    let r = route(&bus, &[1; 32], Fanout::Clients, true);
    assert_eq!((r.push.len(), r.dispatch), (1, Some(Fanout::Gossip)));
    let r = route(&bus, &[1; 32], Fanout::Gossip, false);
    assert_eq!((r.push.len(), r.dispatch, r.fallback), (1, Some(Fanout::Gossip), None));
    let r = route(&bus, &[1; 32], Fanout::Peer([7; 32]), false);
    assert_eq!((r.push.len(), r.writer, r.dispatch), (0, Some(&"w"), None));
    assert_eq!(r.fallback, Some(Fanout::Peer([7; 32])));
    let r = route(&bus, &[1; 32], Fanout::Peer([8; 32]), true);
    assert_eq!((r.push.len(), r.writer, r.dispatch), (0, None, Some(Fanout::Peer([8; 32]))));
    assert_eq!(r.fallback, None);
}

// --- engine ---

#[test]
fn commands_become_plans() {
    let mut engine = Engine::new(true, false);
    let room = [1; 32];
    assert!(matches!(engine.on_command(EngineCmd::Host { room }, false), Plan::Host(r) if r == room));
    let plan = engine.on_command(EngineCmd::Join { room, origin: Some([2; 32]) }, false);
    assert!(matches!(plan, Plan::Join { room: r, peer: Some(p) } if r == room && p == [2; 32]));
    assert_eq!(settle(&plan, true), Some(Settled { announce: Some(room), reply: true }));
    assert_eq!(settle(&plan, false), Some(Settled { announce: None, reply: false }));
    let refused = engine.on_command(EngineCmd::Append { room, payload: vec![1] }, false);
    assert!(matches!(refused, Plan::Refuse));
    assert_eq!(settle(&refused, true), Some(Settled { announce: None, reply: false }));
    let plan = engine.on_command(EngineCmd::Append { room, payload: vec![1] }, true);
    assert!(matches!(&plan, Plan::Append { payload, .. } if *payload == vec![1]));
    assert_eq!(settle(&plan, true), Some(Settled { announce: None, reply: true }));
    assert!(matches!(engine.on_command(EngineCmd::Snapshot { room }, false), Plan::Refuse));
    assert!(matches!(engine.on_command(EngineCmd::Snapshot { room }, true), Plan::Snapshot(_)));
    assert!(matches!(engine.on_command(EngineCmd::Logs { room }, true), Plan::Logs(_)));
    assert!(matches!(engine.on_command(EngineCmd::Logs { room }, false), Plan::Refuse));
    assert!(matches!(engine.on_command(EngineCmd::List, false), Plan::List));
    assert!(matches!(engine.on_command(EngineCmd::AddPeer { peer: [3; 32] }, false), Plan::AddPeer(_)));
    assert_eq!(settle(&Plan::List, true), None);
    assert!(engine.take_anchors().is_empty());
}

#[test]
fn blocks_that_were_taken_in_mark_their_room_for_an_anchor() {
    let mut engine = Engine::new(false, false);
    let sync = |room| EngineCmd::ClientSync { room, from: [9; 32] };
    assert!(matches!(engine.on_command(sync([1; 32]), true), Plan::Ingest(Ingest::Feed)));
    assert!(matches!(engine.on_command(sync([2; 32]), false), Plan::Ingest(Ingest::Drop)));
    assert!(engine.take_anchors().is_empty());
    engine.note_fed([1; 32], false, true);
    engine.note_fed([2; 32], true, false);
    assert!(engine.take_anchors().is_empty());
    engine.note_fed([1; 32], true, true);
    engine.note_fed([3; 32], true, true);
    engine.note_fed([1; 32], true, true);
    engine.note_fed([1; 32], true, false);
    assert_eq!(sorted(engine.take_anchors()), vec![[1; 32], [3; 32]]);
    assert!(engine.take_anchors().is_empty());
    assert_eq!(Engine::new(true, false).ingest(false), Ingest::FollowAndFeed);
    assert_eq!(decode_envelope(&anchor_payload()), Some(OpEnvelope::main(RoomOp::Checkpoint)));
}

#[test]
fn ticks_bring_changes_once() {
    let live = room_with(vec![("main", post("a")), ("main", post("b"))]);
    let finalized = room_with(vec![("main", post("a"))]);
    let room = [1; 32];

    let mut engine = Engine::new(false, false);
    let t = engine.tick_room(room, Some(1), 5, &live, &finalized, 1);
    let job = t.job.unwrap();
    assert_eq!((job.room, job.version, &job.state), (room, 1, &finalized));
    let event = t.event.unwrap();
    assert_eq!((event.room, &event.live, event.finalized_len), (room, &live, 1));
    let quiet = engine.tick_room(room, None, 5, &live, &finalized, 1);
    assert!(quiet.job.is_none() && quiet.event.is_none());
    let more = engine.tick_room(room, None, 6, &live, &finalized, 1);
    assert!(more.job.is_none() && more.event.is_some());

    let mut engine = Engine::new(false, true);
    let t = engine.tick_room(room, None, 0, &live, &finalized, 1);
    let job = t.job.unwrap();
    assert_eq!((job.version, &job.state), (2, &live));
    assert!(engine.tick_room(room, Some(9), 0, &live, &finalized, 1).job.is_none());

    assert!(announces_at(0) && announces_at(40) && announces_at(80));
    assert!(!announces_at(1) && !announces_at(39));
}

#[test]
fn rooms_are_listed_by_their_live_state() {
    let live = room_with(vec![
        ("main", RoomOp::SetTitle { title: "t".into() }),
        ("main", RoomOp::BranchCreate { name: "dev".into() }),
    ]);
    let s = summarise(&[0xab; 32], &live, Origin::Replicated, 7);
    assert_eq!(s.id, "ab".repeat(32));
    assert_eq!((s.title.as_deref(), s.app, s.origin), (Some("t"), None, "replica"));
    assert_eq!(s.branches, vec!["dev", "main"]);
    assert_eq!((s.ops, s.finalized_ops), (2, 7));
    assert_eq!(summarise(&[0; 32], &live, Origin::Original, 0).origin, "original");
    let snap = take_snapshot(&live, &RoomState::default(), 3);
    assert_eq!((snap.live, snap.finalized, snap.finalized_len), (live, RoomState::default(), 3));
}

#[test]
fn logs_are_grouped_by_writer() {
    let order = vec![
        NodeId::new([0xf0; 32], 0),
        NodeId::new([0x0f; 32], 4),
        NodeId::new([0xf0; 32], 1),
        NodeId::new([0x0f; 32], 2),
    ];
    let lens: Vec<([u8; 32], u64)> = log_lengths(&order).into_iter().map(|w| (w.writer, w.len)).collect();
    assert_eq!(lens, vec![([0x0f; 32], 5), ([0xf0; 32], 2)]);
    assert!(log_lengths(&Vec::new()).is_empty());

    let payload = encode_envelope(&OpEnvelope::main(post("x")));
    let entries = vec![
        RawEntry { heads: Vec::new(), payload: payload.clone() },
        RawEntry { heads: vec![NodeId::new([2; 32], 9)], payload: vec![0, 255] },
    ];
    let log = writer_log(&[1; 32], 2, &entries);
    assert_eq!((log.writer.as_str(), log.len), (key_text(&[1; 32]).as_str(), 2));
    assert_eq!(log.entries[0].seq, 0);
    assert_eq!(hex::decode(&log.entries[0].payload_hex).unwrap(), payload);
    assert_eq!(log.entries[0].envelope, Some(OpEnvelope::main(post("x"))));
    assert_eq!(log.entries[1].seq, 1);
    assert_eq!(log.entries[1].payload_hex, "00ff");
    assert_eq!(log.entries[1].envelope, None);
    assert_eq!(log.entries[1].heads[0].writer, key_text(&[2; 32]));
    assert_eq!(log.entries[1].heads[0].seq, 9);
}

// --- presence ---

fn host(gossip_id: &str, roomnet_id: &str, rooms: Vec<&str>) -> HostInfo {
    HostInfo {
        name: "n".into(),
        gossip_id: gossip_id.into(),
        roomnet_id: roomnet_id.into(),
        http_url: None,
        rooms: rooms.into_iter().map(|id| RoomAd { id: id.into(), title: None, app: None }).collect(),
        seq: 1,
    }
}

#[test]
fn the_directory_lists_whom_it_heard_lately() {
    let mut d = Directory::default();
    assert!(d.record(host("b", "x", vec![]), 10));
    assert!(d.record(host("a", "x", vec!["r"]), 20));
    assert!(!d.record(host("b", "y", vec![]), 30));
    let ids: Vec<String> = d.hosts(40).into_iter().map(|h| h.gossip_id).collect();
    assert_eq!(ids, vec!["a", "b"]);
    assert_eq!(d.hosts(40)[0], host("a", "x", vec!["r"]));
    assert_eq!(d.hosts(40)[1].roomnet_id, "y");
    let late = 20 + PEER_EXPIRY_NANOS;
    assert_eq!(d.hosts(late - 1).len(), 2);
    assert_eq!(d.hosts(late).len(), 1);
    d.expire(late);
    assert_eq!(d.hosts(0).len(), 1);
    assert_eq!(d.hosts(0)[0].gossip_id, "b");
    assert!(d.record(host("a", "x", vec![]), late));
}

#[test]
fn announcements_bring_peers_and_rooms() {
    let key = key_text(&[5; 32]);
    let r1 = key_text(&[1; 32]);
    let r2 = key_text(&[2; 32]);
    let info = host("them", &key, vec![&r1, "not a key", &r2, &r2]);
    let known = vec![r1.clone()];
    let w = welcome("me", true, &known, &info).unwrap();
    assert_eq!(w.peer, [5; 32]);
    assert_eq!(w.joins, vec![[2; 32], [2; 32]]);
    assert!(welcome("me", false, &known, &info).unwrap().joins.is_empty());
    assert_eq!(welcome("them", true, &known, &info), None);
    assert_eq!(welcome("me", true, &known, &host("them", "00", vec![&r2])), None);
}

#[test]
fn only_those_who_are_welcomed_are_listed() {
    let key = key_text(&[5; 32]);
    let room = key_text(&[2; 32]);
    let none = vec![];
    let mut d = Directory::default();
    assert_eq!(d.hear("me", true, &none, host("me", &key, vec![&room]), 1), None);
    assert_eq!(d.hear("me", true, &none, host("them", "00", vec![&room]), 1), None);
    assert!(d.hosts(1).is_empty());
    let (w, new) = d.hear("me", true, &none, host("them", &key, vec![&room]), 1).unwrap();
    assert_eq!((w.peer, w.joins, new), ([5; 32], vec![[2; 32]], true));
    let (w, new) = d.hear("me", false, &none, host("them", &key, vec![]), 2).unwrap();
    assert_eq!((w.joins.len(), new), (0, false));
    assert_eq!(d.hosts(2), vec![host("them", &key, vec![])]);
    assert_eq!(d.hear("me", true, &none, host("them", "", vec![]), 3), None);
    assert_eq!(d.hosts(3), vec![host("them", &key, vec![])]);
}

#[test]
fn keys_are_written_in_lower_case() {
    let text = "aBCdeF0123456789".repeat(4);
    let key = parse_key(&text).unwrap();
    assert_eq!(key_text(&key), text.to_lowercase());
    assert_eq!(parse_key(&text.to_lowercase()), Ok(key));
}

#[test]
fn counts_are_asked_for_and_answered_by_branch() {
    let status = MatRoomStatus {
        db: "room_1".into(),
        last_version: 7,
        branches: vec!["dev".into(), "main".into()],
        last_error: Some("late".into()),
    };
    let counts = |chat| DocCounts { chat, todos: 1, files: 2 };
    assert_eq!(tdb_queries(&Some(status.clone()), true), vec!["dev", "main"]);
    assert!(tdb_queries(&Some(status.clone()), false).is_empty());
    assert!(tdb_queries(&None, true).is_empty());

    assert!(tdb_answer(None, vec![("main".into(), Some(counts(1)))]).is_none());
    let counted = vec![("main".to_string(), Some(counts(3))), ("dev".to_string(), None)];
    let answer = tdb_answer(Some(status.clone()), counted).unwrap();
    assert_eq!((answer.db.as_str(), answer.last_version, answer.last_error.as_deref()), ("room_1", 7, Some("late")));
    assert_eq!(answer.branch_doc_counts.keys(), vec!["main"]);
    assert_eq!(answer.branch_doc_counts.get("main"), Some(&counts(3)));
    let twice = vec![("main".to_string(), Some(counts(3))), ("main".to_string(), Some(counts(4)))];
    assert_eq!(tdb_answer(Some(status), twice).unwrap().branch_doc_counts.get("main"), Some(&counts(4)));
}

#[test]
fn a_node_introduces_itself_with_its_rooms() {
    let live = room_with(vec![("main", RoomOp::SetApp { app: "fs".into() })]);
    let rooms = vec![summarise(&[1; 32], &live, Origin::Original, 0)];
    let me = introduce("alpha", "g", "r", &Some("http://h".to_string()), &rooms, 3);
    assert_eq!(
        me,
        HostInfo {
            name: "alpha".into(),
            gossip_id: "g".into(),
            roomnet_id: "r".into(),
            http_url: Some("http://h".into()),
            rooms: vec![RoomAd { id: key_text(&[1; 32]), title: None, app: Some("fs".into()) }],
            seq: 3,
        }
    );
}

#[test]
fn identities_are_derived_from_the_seed() {
    assert_eq!(presence_topic(), *blake3::hash(b"terminusdb-p2p-rooms/presence/v1").as_bytes());
    assert_eq!(gossip_seed(&[3; 32]), blake3::derive_key("terminusdb-p2p-rooms/gossip/v1", &[3; 32]));
    assert_ne!(gossip_seed(&[3; 32]), gossip_seed(&[4; 32]));
}

#[test]
fn endpoint_ids_are_points_of_the_curve() {
    let public = *iroh::SecretKey::from_bytes(&[1; 32]).public().as_bytes();
    assert_eq!(parse_endpoint_id(&hex::encode(public)), Ok(public));
    let mut refused = [0u8; 32];
    refused[0] = 2;
    assert!(iroh::EndpointId::from_bytes(&refused).is_err());
    assert_eq!(parse_endpoint_id(&hex::encode(refused)), Err(EndpointIdError::NotAnEndpoint));
    assert_eq!(parse_endpoint_id("00"), Err(EndpointIdError::Key(KeyError::WrongLength)));
    assert_eq!(endpoint_id(None), Err(EndpointIdError::NotAnEndpoint));
    assert_eq!(endpoint_id(Some([1; 32])), Ok([1; 32]));
}

#[test]
fn the_indexers_are_a_set_with_the_node_itself() {
    let extras = vec![key_text(&[2; 32]), key_text(&[1; 32]), key_text(&[2; 32]), key_text(&[3; 32])];
    assert_eq!(indexer_set([1; 32], &extras), Ok(vec![[1; 32], [2; 32], [3; 32]]));
    assert_eq!(indexer_set([1; 32], &Vec::new()), Ok(vec![[1; 32]]));
    let bad = vec![key_text(&[2; 32]), "0".to_string(), "zz".to_string()];
    assert_eq!(indexer_set([1; 32], &bad), Err(KeyError::NotHex(HexError::OddLength)));
}

// --- http ---

fn error(status: u16, message: &str) -> ApiError {
    ApiError { status, message: message.into() }
}

#[test]
fn errors_say_what_is_wrong() {
    assert_eq!(room_of("0").unwrap_err(), error(400, "invalid hex: Odd number of digits"));
    assert_eq!(room_of("0g").unwrap_err(), error(400, "invalid hex: Invalid character 'g' at position 1"));
    assert_eq!(room_of("00\n0").unwrap_err(), error(400, "invalid hex: Invalid character '\\n' at position 2"));
    assert_eq!(
        room_of("00").unwrap_err(),
        error(400, "expected 32 bytes: could not convert slice to array")
    );
    assert_eq!(key_error_text(&KeyError::NotHex(HexError::InvalidStringLength)), "invalid hex: Invalid string length");
    assert_eq!(found::<u8>(None).unwrap_err(), error(404, "room not found on this node"));
    assert_eq!(found(Some(1)).unwrap(), 1);
    assert_eq!(created(&[1; 32], false).unwrap_err(), error(500, "failed to host room"));
    assert_eq!(created(&[1; 32], true).unwrap(), key_text(&[1; 32]));
    assert_eq!(joined(false).unwrap_err(), error(500, "failed to join room"));
    assert!(joined(true).is_ok());
    assert_eq!(appended(false).unwrap_err(), error(404, "room not found on this node"));
    assert!(appended(true).is_ok());
    assert_eq!(room_of(&key_text(&[9; 32])).unwrap(), [9; 32]);
}

#[test]
fn a_new_room_starts_with_title_and_app() {
    let read = |payloads: Vec<Vec<u8>>| -> Vec<RoomOp> {
        payloads.iter().map(|p| decode_envelope(p).unwrap().op).collect()
    };
    assert_eq!(
        read(create_room(Some("t".into()), Some("fs".into()))),
        vec![RoomOp::SetTitle { title: "t".into() }, RoomOp::SetApp { app: "fs".into() }]
    );
    assert_eq!(read(create_room(None, Some("fs".into()))), vec![RoomOp::SetApp { app: "fs".into() }]);
    assert!(create_room(Some("".into()), Some("".into())).is_empty());
    assert!(create_room(None, None).is_empty());
    assert_eq!(opening_ops(Some("t".into()), Some("".into())), vec![RoomOp::SetTitle { title: "t".into() }]);
}

#[test]
fn requests_are_read() {
    let id = key_text(&[1; 32]);
    let j = join_request(&id, &Some(key_text(&[2; 32]))).ok().unwrap();
    assert_eq!((j.room, j.origin), ([1; 32], Some([2; 32])));
    assert_eq!(join_request(&id, &None).ok().unwrap().origin, None);
    assert_eq!(
        join_request("0", &Some("zz".into())).err(),
        Some(error(400, "invalid hex: Odd number of digits"))
    );
    assert_eq!(
        join_request(&id, &Some("zz".into())).err(),
        Some(error(400, "invalid hex: Invalid character 'z' at position 0"))
    );
    let a = append_request(&id, "dev", post("x")).ok().unwrap();
    assert_eq!(a.room, [1; 32]);
    assert_eq!(decode_envelope(&a.payload), Some(OpEnvelope::new("dev", post("x"))));
    assert_eq!(
        append_request(&id, "main", RoomOp::BranchCreate { name: "bad name".into() }).err(),
        Some(error(400, "branch names must be 1-64 chars of [a-zA-Z0-9_-]"))
    );
    assert!(append_request(&id, "main", RoomOp::BranchCreate { name: "ok".into() }).is_ok());
    assert!(append_request("", "main", post("x")).is_err());
}

#[test]
fn a_branch_of_either_view_is_answered() {
    let live = room_with(vec![
        ("main", RoomOp::SetTitle { title: "t".into() }),
        ("main", RoomOp::BranchCreate { name: "dev".into() }),
        ("dev", post("x")),
    ]);
    let finalized = room_with(vec![("main", post("y"))]);
    let snap = take_snapshot(&live, &finalized, 1);
    let a = room_state(&snap, None, &None).unwrap();
    assert_eq!((a.title.as_deref(), a.branch.as_str(), a.ops, a.finalized_len), (Some("t"), "main", 3, 1));
    assert_eq!(a.branches, vec!["dev", "main"]);
    let a = room_state(&snap, Some("dev".into()), &Some("live".into())).unwrap();
    assert_eq!(a.state.chat[0].text, "x");
    let a = room_state(&snap, None, &Some("finalized".into())).unwrap();
    assert_eq!((a.state.chat[0].text.as_str(), a.ops), ("y", 1));
    let e = room_state(&snap, Some("dev".into()), &Some("finalized".into())).unwrap_err();
    assert_eq!(e, error(404, "room not found on this node"));
}

// --- signalling and sessions ---

#[test]
fn clients_of_a_room_find_each_other() {
    let mut hub: SignalHub<&str> = SignalHub::default();
    assert_eq!(hub.join("r", "a"), (0, vec![]));
    assert_eq!(hub.join("r", "b"), (1, vec![0]));
    assert_eq!(hub.join("s", "c"), (2, vec![]));
    let (id, peers) = hub.join("r", "d");
    assert_eq!((id, sorted(peers)), (3, vec![0, 1]));
    let told: Vec<(u64, &str)> = hub.others("r", 3).into_iter().map(|(id, tx)| (id, *tx)).collect();
    assert_eq!(sorted(told), vec![(0, "a"), (1, "b")]);
    assert_eq!(hub.relay("r", 1), Some(&"b"));
    assert_eq!(hub.relay("r", 2), None);
    assert_eq!(hub.relay("nowhere", 1), None);
    hub.leave("r", 1);
    assert_eq!(hub.relay("r", 1), None);
    assert_eq!(hub.others("r", 1).len(), 2);
    hub.leave("s", 2);
    assert!(hub.others("s", 9).is_empty());
}

#[test]
fn server_frames_are_exact() {
    assert_eq!(welcome_text(7, &vec![]), r#"{"peers":[],"t":"welcome","you":7}"#);
    assert_eq!(welcome_text(0, &vec![10, 2, 300]), r#"{"peers":[10,2,300],"t":"welcome","you":0}"#);
    assert_eq!(peer_joined_text(12), r#"{"id":12,"t":"peer-joined"}"#);
    assert_eq!(peer_left_text(u64::MAX), r#"{"id":18446744073709551615,"t":"peer-left"}"#);
    assert_eq!(signal_text(3, r#"{"sdp":"x"}"#), r#"{"data":{"sdp":"x"},"from":3,"t":"signal"}"#);
}

#[test]
fn frames_of_clients_are_understood() {
    let mut s = ClientSession::new([1; 32], 5);
    assert_eq!(
        s.on_text(r#"{"t":"signal","to":2,"data":{"b":[1,"x"],"a":null}}"#),
        ClientAction::Relay { to: 2, frame: r#"{"data":{"a":null,"b":[1,"x"]},"from":5,"t":"signal"}"#.into() }
    );
    assert_eq!(
        s.on_text(r#"{"t":"signal","to":2}"#),
        ClientAction::Relay { to: 2, frame: r#"{"data":null,"from":5,"t":"signal"}"#.into() }
    );
    assert_eq!(s.on_text(r#"{"t":"signal","to":"2"}"#), ClientAction::Ignore);
    assert_eq!(s.on_text(r#"{"t":"signal","to":-2}"#), ClientAction::Ignore);
    assert_eq!(s.on_text("nonsense"), ClientAction::Ignore);
    assert_eq!(s.on_text("[1]"), ClientAction::Ignore);
    assert_eq!(s.on_text(r#"{"t":"other"}"#), ClientAction::Ignore);
    assert_eq!(s.on_text(r#"{"t":1}"#), ClientAction::Ignore);

    assert_eq!(s.writer(), None);
    let key = key_text(&[8; 32]);
    assert_eq!(s.on_text(&format!(r#"{{"t":"writer","key":"{key}"}}"#)), ClientAction::Bind([8; 32]));
    assert_eq!(s.writer(), Some([8; 32]));
    assert_eq!(s.on_text(r#"{"t":"writer","key":"00"}"#), ClientAction::Ignore);
    assert_eq!(s.writer(), Some([8; 32]));

    let append = s.on_text(r#"{"t":"append","branch":"dev","op":{"text":"x","kind":"chat.post"}}"#);
    assert_eq!(append, ClientAction::Append(encode_envelope(&OpEnvelope::new("dev", post("x")))));
    let append = s.on_text(r#"{"t":"append","branch":7,"op":{"text":"x","kind":"chat.post"}}"#);
    assert_eq!(append, ClientAction::Append(encode_envelope(&OpEnvelope::main(post("x")))));
    assert_eq!(s.on_text(r#"{"t":"append"}"#), ClientAction::Ignore);
    assert_eq!(
        s.on_text(r#"{"t":"append","op":{"kind":"branch.create","name":"bad name"}}"#),
        ClientAction::Ignore
    );
    assert!(s.follows(&[1; 32]) && !s.follows(&[2; 32]));

    let field = |name: &str, text: &str| Field {
        name: name.into(),
        text: Some(text.into()),
        number: None,
        json: String::new(),
    };
    assert_eq!(ask(0, &vec![field("t", "writer"), field("key", &key)]), ClientAction::Bind([8; 32]));
    assert_eq!(ask(0, &vec![]), ClientAction::Ignore);
}

// --- browser client ---

#[test]
fn replicas_are_opened_with_seed_and_indexers() {
    let json = format!(r#"["{}", "{}"]"#, key_text(&[1; 32]), key_text(&[2; 32]));
    let r = open_request(&[7; 32], &json).unwrap();
    assert_eq!((r.seed, r.indexers), ([7; 32], vec![[1; 32], [2; 32]]));
    assert!(open_request(&[7; 32], "[]").unwrap().indexers.is_empty());
    assert_eq!(open_request(&[7; 31], "nonsense").unwrap_err(), "seed must be 32 bytes");
    let parse_error = serde_json::from_str::<Vec<String>>("{}").unwrap_err();
    assert_eq!(open_request(&[7; 32], "{}").unwrap_err(), format!("indexers_json: {parse_error}"));
    assert_eq!(open_request(&[7; 32], r#"["0"]"#).unwrap_err(), "indexer key: Odd number of digits");
    assert_eq!(
        open_request(&[7; 32], r#"["0x"]"#).unwrap_err(),
        "indexer key: Invalid character 'x' at position 1"
    );
    assert_eq!(open_request(&[7; 32], r#"["00"]"#).unwrap_err(), "indexer key must be 32 bytes");
}

#[test]
fn frames_are_shipped_as_json() {
    assert_eq!(frames_json(&Vec::new()), "[]");
    let outs = vec![
        OutFrame { to: Fanout::Gossip, frame: vec![0, 255] },
        OutFrame { to: Fanout::Clients, frame: vec![] },
        OutFrame { to: Fanout::Peer([0xab; 32]), frame: vec![16] },
    ];
    let text = frames_json(&outs);
    assert_eq!(
        text,
        format!(
            r#"[{{"frame":"00ff","to":"gossip"}},{{"frame":"","to":"clients"}},{{"frame":"10","to":"{}"}}]"#,
            "ab".repeat(32)
        )
    );
    let v: serde_json::Value = serde_json::from_str(&text).unwrap();
    assert_eq!(v.to_string(), text);
}

#[test]
fn ops_and_senders_are_read() {
    let payload = append_payload("dev", r#"{"kind":"chat.post","text":"from a"}"#).unwrap();
    assert_eq!(decode_envelope(&payload), Some(OpEnvelope::new("dev", post("from a"))));
    assert_eq!(append_payload("dev", "{}"), None);
    assert_eq!(sender_key(&key_text(&[4; 32])), Ok([4; 32]));
    assert_eq!(sender_key("00"), Err("from must be a 32-byte hex key".to_string()));
    assert_eq!(sender_key("xyz"), Err("from must be a 32-byte hex key".to_string()));
}
