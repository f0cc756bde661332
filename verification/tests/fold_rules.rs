use terminus_rooms::keys::{key_text, parse_key, HexError, KeyError};
use terminus_rooms::path::normalize_path;
use terminus_rooms::{
    encode_envelope, valid_branch_name, BranchState, FsNode, NodeId, OpEnvelope, RoomOp, RoomProjection, RoomState,
};

struct Log {
    entries: Vec<(NodeId, Vec<u8>)>,
}

impl Log {
    fn new() -> Log {
        Log { entries: Vec::new() }
    }

    fn push(&mut self, key: u8, branch: &str, op: RoomOp) {
        let seq = self.entries.len() as u64;
        self.entries.push((NodeId::new([key; 32], seq), encode_envelope(&OpEnvelope::new(branch, op))));
    }

    fn fold(&self) -> RoomState {
        let mut state = RoomState::default();
        for (node, payload) in &self.entries {
            state.apply_payload(*node, payload);
        }
        state
    }
}

fn write(path: &str, content: &str) -> RoomOp {
    RoomOp::FsWrite { path: path.into(), content: content.into() }
}

fn mv(from: &str, to: &str) -> RoomOp {
    RoomOp::FsMove { from: from.into(), to: to.into() }
}

fn main_of(state: &RoomState) -> &BranchState {
    state.branches.get("main").unwrap()
}

fn paths(state: &RoomState) -> Vec<String> {
    main_of(state).files.keys()
}

#[test]
fn a_new_room_has_main_alone() {
    let s = RoomState::default();
    assert_eq!(s.branch_names(), vec!["main"]);
    assert_eq!(s.ops_applied, 0);
    assert_eq!(s.title, None);
    assert_eq!(*main_of(&s), BranchState::default());
}

#[test]
fn replay_from_a_checkpoint_is_replay_of_the_whole() {
    let mut log = Log::new();
    log.push(1, "main", RoomOp::SetTitle { title: "a".into() });
    log.push(2, "main", write("/x/y", "1"));
    log.push(1, "main", RoomOp::BranchCreate { name: "dev".into() });
    log.push(2, "dev", mv("/x", "/z"));
    log.push(1, "main", RoomOp::ChatSetNick { nick: "n".into() });
    let whole = log.fold();
    for cut in 0..log.entries.len() + 1 {
        let mut first = RoomProjection::default();
        for (node, payload) in &log.entries[..cut] {
            first.apply(*node, payload);
        }
        let mut second = RoomProjection::default();
        second.apply(NodeId::new([9; 32], 0), b"garbage");
        second.reset_to(first.snapshot());
        for (node, payload) in &log.entries[cut..] {
            second.apply(*node, payload);
        }
        assert_eq!(*second.snapshot(), whole);
        assert_eq!(*second.clone().snapshot(), whole);
    }
}

#[test]
fn garbage_is_only_counted() {
    let mut s = RoomState::default();
    for payload in [&b""[..], b"not json", b"{}", b"\xff\xff"] {
        s.apply_payload(NodeId::new([1; 32], 0), payload);
    }
    assert_eq!(s.ops_applied, 4);
    let mut counted = RoomState::default();
    counted.ops_applied = 4;
    assert_eq!(s, counted);
}

#[test]
fn a_checkpoint_folds_to_nothing() {
    let mut s = RoomState::default();
    s.apply_payload(NodeId::new([1; 32], 0), &terminus_rooms::engine::anchor_payload());
    let mut counted = RoomState::default();
    counted.ops_applied = 1;
    assert_eq!(s, counted);
}

#[test]
fn an_envelope_is_folded_as_its_payload_is() {
    let env = OpEnvelope::new("main", write("/a", "x"));
    let mut by_payload = RoomState::default();
    by_payload.apply_payload(NodeId::new([3; 32], 0), &encode_envelope(&env));
    let mut by_envelope = RoomState::default();
    by_envelope.apply_envelope(NodeId::new([3; 32], 0), Some(env));
    assert_eq!(by_envelope, by_payload);
    by_envelope.apply_envelope(NodeId::new([3; 32], 1), None);
    assert_eq!(by_envelope.ops_applied, 2);
    assert_eq!(by_envelope.branches, by_payload.branches);
}

#[test]
fn room_ops_ignore_the_branch_pointer() {
    let mut log = Log::new();
    log.push(7, "ghost", RoomOp::SetTitle { title: "t".into() });
    log.push(7, "ghost", RoomOp::SetApp { app: "fs".into() });
    log.push(7, "ghost", RoomOp::ChatSetNick { nick: "n".into() });
    let s = log.fold();
    assert_eq!(s.title.as_deref(), Some("t"));
    assert_eq!(s.app.as_deref(), Some("fs"));
    assert_eq!(s.nicks.get(&key_text(&[7; 32])).unwrap(), "n");
}

#[test]
fn a_fork_has_what_its_source_had() {
    let mut log = Log::new();
    log.push(1, "main", RoomOp::ChatPost { text: "x".into(), nick: Some("n".into()) });
    log.push(1, "main", write("/a", "1"));
    log.push(2, "main", RoomOp::BranchCreate { name: "dev".into() });
    let s = log.fold();
    let dev = s.branches.get("dev").unwrap();
    assert_eq!(dev.forked_from.as_deref(), Some("main"));
    assert_eq!(dev.forked_at_op, 2);
    assert_eq!(dev.chat, main_of(&s).chat);
    assert_eq!(dev.files, main_of(&s).files);
    assert_eq!(dev.chat[0].author, key_text(&[1; 32]));
    assert_eq!(dev.chat[0].nick.as_deref(), Some("n"));
}

#[test]
fn the_first_todo_wins_and_todos_are_apart() {
    let mut log = Log::new();
    log.push(1, "main", RoomOp::TodoAdd { id: "a".into(), title: "one".into() });
    log.push(2, "main", RoomOp::TodoAdd { id: "a".into(), title: "two".into() });
    log.push(2, "main", RoomOp::TodoAdd { id: "b".into(), title: "three".into() });
    log.push(2, "main", RoomOp::TodoSetDone { id: "b".into(), done: true });
    log.push(2, "main", RoomOp::TodoRetitle { id: "b".into(), title: "four".into() });
    log.push(2, "main", RoomOp::TodoSetDone { id: "zzz".into(), done: true });
    log.push(2, "main", RoomOp::TodoRetitle { id: "zzz".into(), title: "x".into() });
    let s = log.fold();
    let a = main_of(&s).todos.get("a").unwrap();
    assert_eq!((a.title.as_str(), a.done, a.created_at_op), ("one", false, 0));
    assert_eq!(a.author, key_text(&[1; 32]));
    let b = main_of(&s).todos.get("b").unwrap();
    assert_eq!((b.title.as_str(), b.done, b.created_at_op), ("four", true, 2));
    assert_eq!(main_of(&s).todos.len(), 2);
    log.push(1, "main", RoomOp::TodoRemove { id: "a".into() });
    log.push(1, "main", RoomOp::TodoRemove { id: "zzz".into() });
    assert_eq!(main_of(&log.fold()).todos.keys(), vec!["b"]);
}

#[test]
fn branch_names_keep_to_an_alphabet() {
    assert!(valid_branch_name("a"));
    assert!(valid_branch_name("Az09_-"));
    assert!(valid_branch_name(&"x".repeat(64)));
    assert!(!valid_branch_name(&"x".repeat(65)));
    assert!(!valid_branch_name(""));
    assert!(!valid_branch_name("a b"));
    assert!(!valid_branch_name("a/b"));
    assert!(!valid_branch_name("é"));
    assert!(!valid_branch_name("@"));
    assert!(!valid_branch_name("["));
}

#[test]
fn paths_have_one_form() {
    assert_eq!(normalize_path("a/b").as_deref(), Some("/a/b"));
    assert_eq!(normalize_path("//a/b//").as_deref(), Some("/a/b"));
    assert_eq!(normalize_path("/a//b"), None);
    assert_eq!(normalize_path("//a///b//"), None);
    assert_eq!(normalize_path("/a/b").as_deref(), Some("/a/b"));
    assert_eq!(normalize_path("...").as_deref(), Some("/..."));
    assert_eq!(normalize_path("é/😀").as_deref(), Some("/é/😀"));
    assert_eq!(normalize_path(""), None);
    assert_eq!(normalize_path("///"), None);
    assert_eq!(normalize_path("a/../b"), None);
    assert_eq!(normalize_path("./a"), None);
}

#[test]
fn a_write_is_there_with_its_directories() {
    let mut log = Log::new();
    log.push(3, "main", write("a/b/c", "one"));
    log.push(4, "main", write("a/b/c/", "two"));
    let s = log.fold();
    assert_eq!(paths(&s), vec!["/a", "/a/b", "/a/b/c"]);
    assert_eq!(
        main_of(&s).files.get("/a/b/c"),
        Some(&FsNode::File { content: "two".into(), author: key_text(&[4; 32]), modified_at_op: 1 })
    );
}

#[test]
fn a_path_with_an_empty_segment_does_nothing() {
    let mut log = Log::new();
    log.push(1, "main", write("/a", "x"));
    log.push(1, "main", write("/a//b", "y"));
    log.push(1, "main", RoomOp::FsMkdir { path: "c//d".into() });
    log.push(1, "main", RoomOp::FsMove { from: "/a".into(), to: "/e//f".into() });
    log.push(1, "main", RoomOp::FsRemove { path: "/a//".into() });
    let s = log.fold();
    assert_eq!(s.ops_applied, 5);
    assert!(paths(&s).is_empty());
}

#[test]
fn a_fork_has_what_its_parent_had_said() {
    let post = |text: &str| RoomOp::ChatPost { text: text.into(), nick: None };
    let fork = |name: &str| RoomOp::BranchCreate { name: name.into() };
    let mut log = Log::new();
    log.push(1, "main", post("a"));
    log.push(1, "main", fork("z"));
    log.push(1, "z", post("b"));
    log.push(1, "z", fork("y"));
    log.push(1, "z", post("c"));
    log.push(1, "main", post("d"));
    log.push(1, "y", post("e"));
    let s = log.fold();
    let said = |name: &str| s.branches.get(name).unwrap().chat.iter().map(|m| m.text.clone()).collect::<Vec<_>>();
    assert_eq!((said("main"), said("z")), (vec!["a".to_string(), "d".into()], vec!["a".to_string(), "b".into(), "c".into()]));
    assert_eq!(said("y"), vec!["a", "b", "e"]);
    let y = s.branches.get("y").unwrap();
    assert_eq!((y.forked_from.as_deref(), y.forked_at_op), (Some("z"), 3));
    assert!(s.branches.get("z").unwrap().forked_at_op < y.forked_at_op);
}

#[test]
fn mkdir_leaves_what_is_there() {
    let mut log = Log::new();
    log.push(1, "main", write("/a", "x"));
    log.push(1, "main", RoomOp::FsMkdir { path: "/a".into() });
    log.push(1, "main", RoomOp::FsMkdir { path: "/b/c".into() });
    let s = log.fold();
    assert!(matches!(main_of(&s).files.get("/a"), Some(FsNode::File { .. })));
    assert_eq!(paths(&s), vec!["/a", "/b", "/b/c"]);
}

#[test]
fn removal_takes_the_subtree_and_nothing_else() {
    let mut log = Log::new();
    log.push(1, "main", write("/a/x", "1"));
    log.push(1, "main", write("/ab/x", "2"));
    log.push(1, "main", RoomOp::FsRemove { path: "a/".into() });
    assert_eq!(paths(&log.fold()), vec!["/ab", "/ab/x"]);
}

#[test]
fn moves_that_make_no_sense_change_nothing() {
    let mut log = Log::new();
    log.push(1, "main", write("/a/x", "1"));
    log.push(1, "main", write("/b", "2"));
    let before = paths(&log.fold());
    for (from, to) in [("/a", "/a"), ("/a", "/a/y"), ("/a", "/b"), ("/nothing", "/c"), ("/a", ".."), ("", "/c")] {
        log.push(1, "main", mv(from, to));
    }
    assert_eq!(paths(&log.fold()), before);
}

#[test]
fn a_move_there_and_back_restores_the_tree() {
    let mut log = Log::new();
    log.push(1, "main", write("/a/x", "1"));
    log.push(1, "main", write("/a/y/z", "2"));
    log.push(1, "main", write("/ab", "3"));
    let before = log.fold();
    log.push(1, "main", mv("/a", "/q/r"));
    let there = log.fold();
    assert_eq!(paths(&there), vec!["/ab", "/q", "/q/r", "/q/r/x", "/q/r/y", "/q/r/y/z"]);
    assert_eq!(main_of(&there).files.get("/q/r/x"), main_of(&before).files.get("/a/x"));
    log.push(1, "main", mv("/q/r", "/a"));
    log.push(1, "main", RoomOp::FsRemove { path: "/q".into() });
    assert_eq!(main_of(&log.fold()).files, main_of(&before).files);
}

#[test]
fn branches_sort_by_name() {
    let mut log = Log::new();
    for name in ["b", "a", "Z", "aa", "_"] {
        log.push(1, "main", RoomOp::BranchCreate { name: name.into() });
    }
    assert_eq!(log.fold().branch_names(), vec!["Z", "_", "a", "aa", "b", "main"]);
}

#[test]
fn keys_have_a_hex_form() {
    let mut key = [0u8; 32];
    for (i, b) in key.iter_mut().enumerate() {
        *b = (i * 37) as u8;
    }
    let text = key_text(&key);
    assert_eq!(text, hex::encode(key));
    assert_eq!(parse_key(&text), Ok(key));
    assert_eq!(parse_key(&text.to_uppercase()), Ok(key));
    assert_eq!(parse_key("abc"), Err(KeyError::NotHex(HexError::OddLength)));
    assert_eq!(
        parse_key("0g"),
        Err(KeyError::NotHex(HexError::InvalidHexCharacter { c: 'g', index: 1 }))
    );
    assert_eq!(parse_key("00ff"), Err(KeyError::WrongLength));
    assert_eq!(parse_key(""), Err(KeyError::WrongLength));
}
