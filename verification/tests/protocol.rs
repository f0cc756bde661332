use terminus_rooms::{
    decode_envelope, encode_envelope, FsNode, NodeId, OpEnvelope, RoomOp, RoomProjection, RoomState, MAIN_BRANCH,
};

fn node(key_byte: u8, seq: u64) -> NodeId {
    NodeId::new([key_byte; 32], seq)
}

fn apply(state: &mut RoomState, key: u8, seq: u64, branch: &str, op: RoomOp) {
    state.apply_payload(node(key, seq), &encode_envelope(&OpEnvelope::new(branch, op)));
}

fn reprinted(text: &str) -> String {
    let value: serde_json::Value = serde_json::from_str(text).unwrap();
    value.to_string()
}

#[test]
fn roundtrip() {
    let env = OpEnvelope::new("dev", RoomOp::ChatPost { text: "hi".into(), nick: None });
    let bytes = encode_envelope(&env);
    assert_eq!(decode_envelope(&bytes), Some(env));
}

#[test]
fn json_shape_is_js_friendly() {
    let env = OpEnvelope::main(RoomOp::TodoAdd { id: "a1".into(), title: "milk".into() });
    let v: serde_json::Value = serde_json::from_slice(&encode_envelope(&env)).unwrap();
    assert_eq!(v["branch"], "main");
    assert_eq!(v["op"]["kind"], "todo.add");
    assert_eq!(v["op"]["title"], "milk");
}

#[test]
fn garbage_and_future_versions_are_skipped() {
    assert_eq!(decode_envelope(b"not json"), None);
    let future = reprinted(r#"{"v": 999, "branch": "main", "op": {"kind": "chat.post", "text": "x"}}"#);
    assert_eq!(decode_envelope(future.as_bytes()), None);
    let unknown_kind = reprinted(r#"{"v": 1, "branch": "main", "op": {"kind": "nope"}}"#);
    assert_eq!(decode_envelope(unknown_kind.as_bytes()), None);
}

#[test]
fn missing_branch_defaults_to_main() {
    let raw = reprinted(r#"{"v": 1, "op": {"kind": "chat.post", "text": "x"}}"#);
    let env = decode_envelope(raw.as_bytes()).unwrap();
    assert_eq!(env.branch, MAIN_BRANCH);
}

#[test]
fn chat_folds_in_order() {
    let mut s = RoomState::default();
    apply(&mut s, 1, 0, "main", RoomOp::ChatSetNick { nick: "alice".into() });
    apply(&mut s, 1, 1, "main", RoomOp::ChatPost { text: "hello".into(), nick: None });
    apply(&mut s, 2, 0, "main", RoomOp::ChatPost { text: "hi".into(), nick: None });
    assert_eq!(s.nicks.get(&hex::encode([1u8; 32])).unwrap(), "alice");
    let chat = &s.branches.get("main").unwrap().chat;
    assert_eq!(chat.len(), 2);
    assert_eq!(chat[0].text, "hello");
    assert_eq!(chat[1].at_op, 2);
}

#[test]
fn branch_create_forks_state_and_diverges() {
    let mut s = RoomState::default();
    apply(&mut s, 1, 0, "main", RoomOp::TodoAdd { id: "t1".into(), title: "shared".into() });
    apply(&mut s, 1, 1, "main", RoomOp::BranchCreate { name: "dev".into() });
    apply(&mut s, 1, 2, "dev", RoomOp::TodoAdd { id: "t2".into(), title: "dev only".into() });
    apply(&mut s, 1, 3, "main", RoomOp::TodoSetDone { id: "t1".into(), done: true });

    let main = s.branches.get("main").unwrap();
    let dev = s.branches.get("dev").unwrap();
    assert_eq!(dev.forked_from.as_deref(), Some("main"));
    assert!(dev.todos.contains_key("t1"), "fork carries state over");
    assert!(dev.todos.contains_key("t2"));
    assert!(!main.todos.contains_key("t2"), "main unaffected by dev op");
    assert!(main.todos.get("t1").unwrap().done);
    assert!(!dev.todos.get("t1").unwrap().done, "post-fork main op does not leak into dev");
}

#[test]
fn branch_create_ignores_duplicates_and_bad_sources() {
    let mut s = RoomState::default();
    apply(&mut s, 1, 0, "nope", RoomOp::BranchCreate { name: "dev".into() });
    assert!(!s.branches.contains_key("dev"), "unknown source branch ignored");
    apply(&mut s, 1, 1, "main", RoomOp::BranchCreate { name: "dev".into() });
    apply(&mut s, 1, 2, "dev", RoomOp::ChatPost { text: "x".into(), nick: None });
    apply(&mut s, 2, 0, "main", RoomOp::BranchCreate { name: "dev".into() });
    assert_eq!(s.branches.get("dev").unwrap().chat.len(), 1, "duplicate create does not reset the branch");
    apply(&mut s, 1, 3, "main", RoomOp::BranchCreate { name: "bad name!".into() });
    assert_eq!(s.branches.len(), 2);
}

#[test]
fn ops_on_unknown_branch_are_skipped_but_counted() {
    let mut s = RoomState::default();
    apply(&mut s, 1, 0, "ghost", RoomOp::ChatPost { text: "x".into(), nick: None });
    assert_eq!(s.branches.get("main").unwrap().chat.len(), 0);
    assert_eq!(s.ops_applied, 1);
}

#[test]
fn fs_write_creates_parents_and_move_is_recursive() {
    let mut s = RoomState::default();
    apply(&mut s, 1, 0, "main", RoomOp::FsWrite { path: "src/lib.rs".into(), content: "x".into() });
    apply(&mut s, 1, 1, "main", RoomOp::FsMove { from: "/src".into(), to: "/lib".into() });
    let files = &s.branches.get("main").unwrap().files;
    assert!(matches!(files.get("/lib"), Some(FsNode::Dir)));
    assert!(matches!(files.get("/lib/lib.rs"), Some(FsNode::File { .. })));
    assert!(files.get("/src").is_none());

    let mut s2 = RoomState::default();
    apply(&mut s2, 1, 0, "main", RoomOp::FsWrite { path: "../evil".into(), content: "x".into() });
    assert!(s2.branches.get("main").unwrap().files.is_empty(), "traversal rejected");
}

#[test]
fn fs_remove_is_recursive() {
    let mut s = RoomState::default();
    apply(&mut s, 1, 0, "main", RoomOp::FsWrite { path: "/a/b/c.txt".into(), content: "x".into() });
    apply(&mut s, 1, 1, "main", RoomOp::FsRemove { path: "/a".into() });
    assert!(s.branches.get("main").unwrap().files.is_empty());
}

/// One writer's log: its key and its payloads.
struct Writer {
    key: [u8; 32],
    log: Vec<Vec<u8>>,
}

fn append(writer: &mut Writer, branch: &str, op: RoomOp) {
    writer.log.push(encode_envelope(&OpEnvelope::new(branch, op)));
}

/// All entries of the smaller key, then all of the larger.
fn linearized(lo: &Writer, hi: &Writer) -> Vec<(NodeId, Vec<u8>)> {
    let mut order = Vec::new();
    for writer in [lo, hi] {
        for (seq, payload) in writer.log.iter().enumerate() {
            order.push((NodeId::new(writer.key, seq as u64), payload.clone()));
        }
    }
    order
}

#[test]
fn replicas_of_two_writers_converge_across_branches() {
    let k1 = *iroh::SecretKey::from_bytes(&[1; 32]).public().as_bytes();
    let k2 = *iroh::SecretKey::from_bytes(&[2; 32]).public().as_bytes();
    let (lo_key, hi_key) = if k1 <= k2 { (k1, k2) } else { (k2, k1) };
    let mut lo = Writer { key: lo_key, log: Vec::new() };
    let mut hi = Writer { key: hi_key, log: Vec::new() };

    append(&mut lo, "main", RoomOp::SetTitle { title: "demo".into() });
    append(&mut lo, "main", RoomOp::ChatPost { text: "first post".into(), nick: None });
    append(&mut lo, "main", RoomOp::BranchCreate { name: "experiment".into() });
    append(&mut lo, "experiment", RoomOp::ChatPost { text: "lo on branch".into(), nick: None });
    let early = linearized(&lo, &hi);

    append(&mut hi, "main", RoomOp::ChatPost { text: "hi on main".into(), nick: None });
    append(&mut hi, "experiment", RoomOp::ChatPost { text: "hi on branch".into(), nick: None });
    let order = linearized(&lo, &hi);

    // One replica folds the whole order; the other had folded its beginning, and
    // goes on from a checkpoint of that.
    let mut whole = RoomProjection::default();
    for (node, payload) in &order {
        whole.apply(*node, payload);
    }
    let mut first = RoomProjection::default();
    for (node, payload) in &early {
        first.apply(*node, payload);
    }
    let mut rest = RoomProjection::default();
    rest.reset_to(first.snapshot());
    for (node, payload) in &order[early.len()..] {
        rest.apply(*node, payload);
    }
    let a: &RoomState = whole.snapshot();
    let b: &RoomState = rest.snapshot();
    assert_eq!(a, b, "replicas converge on identical folded state");

    assert_eq!(a.title.as_deref(), Some("demo"));
    assert_eq!(a.branch_names(), vec!["experiment", "main"]);
    let main = a.branches.get("main").unwrap();
    let exp = a.branches.get("experiment").unwrap();
    assert_eq!(exp.forked_from.as_deref(), Some("main"));

    let main_texts: Vec<&str> = main.chat.iter().map(|m| m.text.as_str()).collect();
    let exp_texts: Vec<&str> = exp.chat.iter().map(|m| m.text.as_str()).collect();
    assert_eq!(main_texts, vec!["first post", "hi on main"]);
    assert_eq!(exp_texts, vec!["first post", "lo on branch", "hi on branch"]);

    append(&mut lo, "main", RoomOp::ChatPost { text: "seal".into(), nick: None });
    append(&mut hi, "main", RoomOp::ChatPost { text: "seal2".into(), nick: None });
    let sealed = linearized(&lo, &hi);
    let mut x = RoomProjection::default();
    let mut y = RoomProjection::default();
    for (node, payload) in &sealed {
        x.apply(*node, payload);
        y.apply(*node, payload);
    }
    assert_eq!(x.snapshot().ops_applied, 8);
    assert_eq!(x.snapshot(), y.snapshot());
}
