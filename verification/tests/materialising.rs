use std::collections::BTreeMap;

use terminus_rooms::engine::MatJob;
use terminus_rooms::materialise::{
    coalesce, plan_branch, room_db_name, BranchPlan, ChatMessageDoc, FsNodeDoc, MatRoomStatus, Materialiser, NewBranch,
    RoomMeta, TodoItemDoc,
};
use terminus_rooms::room_sync::{RoomSync, Step};
use terminus_rooms::{encode_envelope, BranchState, NodeId, OpEnvelope, RoomOp, RoomState};

fn apply(state: &mut RoomState, branch: &str, op: RoomOp) {
    state.apply_payload(NodeId::new([1; 32], 0), &encode_envelope(&OpEnvelope::new(branch, op)));
}

fn job(room: u8, version: u64, state: &RoomState) -> MatJob {
    MatJob { room: [room; 32], version, state: state.clone() }
}

fn main_of(state: &RoomState) -> &BranchState {
    state.branches.get("main").unwrap()
}

fn author() -> String {
    "01".repeat(32)
}

#[derive(Clone, Default, PartialEq, Debug)]
struct Documents {
    meta: Option<RoomMeta>,
    chat: BTreeMap<String, ChatMessageDoc>,
    todos: BTreeMap<String, TodoItemDoc>,
    files: BTreeMap<String, FsNodeDoc>,
}

fn perform(db: &mut Documents, plan: &BranchPlan) {
    db.meta = Some(plan.meta.clone());
    for d in &plan.chat {
        db.chat.insert(d.id.clone(), d.clone());
    }
    for d in &plan.todos {
        db.todos.insert(d.id.clone(), d.clone());
    }
    for id in &plan.gone_todos {
        assert!(db.todos.remove(id).is_some());
    }
    for d in &plan.files {
        db.files.insert(d.id.clone(), d.clone());
    }
    for id in &plan.gone_files {
        assert!(db.files.remove(id).is_some());
    }
}

#[test]
fn databases_are_named_by_their_room() {
    let mut room = [0u8; 32];
    room[0] = 0xab;
    room[7] = 0x01;
    assert_eq!(room_db_name(&room), "room_ab00000000000001");
}

#[test]
fn documents_are_exact() {
    let mut s = RoomState::default();
    apply(&mut s, "main", RoomOp::SetTitle { title: "T".into() });
    apply(&mut s, "main", RoomOp::ChatPost { text: "hi".into(), nick: Some("al".into()) });
    apply(&mut s, "main", RoomOp::TodoAdd { id: "a".into(), title: "milk".into() });
    apply(&mut s, "main", RoomOp::FsWrite { path: "/d/f".into(), content: "x".into() });
    let plan = plan_branch(&BranchState::default(), &BranchState::default(), None, main_of(&s), "main", &job(1, 4, &s)).unwrap();
    assert_eq!(plan.author, "tdb-room-node");
    assert_eq!(plan.message, format!("materialise room {} v4", author()));
    assert_eq!(
        (plan.meta.id.as_str(), plan.meta.room.as_str(), plan.meta.title.as_str()),
        ("meta", author().as_str(), "T")
    );
    assert_eq!(
        (plan.meta.app.as_str(), plan.meta.branch.as_str(), plan.meta.forked_from.as_str(), plan.meta.version),
        ("", "main", "", 4)
    );
    assert_eq!(
        plan.chat,
        vec![ChatMessageDoc { id: "chat_1".into(), author: author(), nick: "al".into(), text: "hi".into(), at_op: 1 }]
    );
    assert_eq!(
        plan.todos,
        vec![TodoItemDoc {
            id: "todo_61".into(),
            key: "a".into(),
            title: "milk".into(),
            done: false,
            author: author(),
            created_at_op: 2,
        }]
    );
    assert_eq!(
        plan.files,
        vec![
            FsNodeDoc {
                id: "fs_2f64".into(),
                path: "/d".into(),
                is_dir: true,
                content: "".into(),
                author: "".into(),
                modified_at_op: 0,
            },
            FsNodeDoc {
                id: "fs_2f642f66".into(),
                path: "/d/f".into(),
                is_dir: false,
                content: "x".into(),
                author: author(),
                modified_at_op: 3,
            },
        ]
    );
    assert!(plan.gone_todos.is_empty() && plan.gone_files.is_empty());
}

#[test]
fn versions_are_cut_to_their_low_bits() {
    let s = RoomState::default();
    let plan = plan_branch(&BranchState::default(), &BranchState::default(), None, main_of(&s), "main", &job(1, 1, &s)).unwrap();
    assert_eq!(plan.meta.version, 1);
    let mut other = s.clone();
    apply(&mut other, "main", RoomOp::ChatPost { text: "x".into(), nick: None });
    let plan = plan_branch(&BranchState::default(), &BranchState::default(), None, main_of(&other), "main", &job(1, 0x1_8000_0001, &other)).unwrap();
    assert_eq!(plan.meta.version, i32::MIN + 1);
}

#[test]
fn unchanged_branches_are_not_written_but_for_the_first_version() {
    let s = RoomState::default();
    let b = main_of(&s);
    let written = |version| plan_branch(b, b, None, b, "main", &job(1, version, &s)).unwrap().meta;
    assert!(plan_branch(b, b, Some(&written(0)), b, "main", &job(1, 0, &s)).is_some());
    assert!(plan_branch(b, b, Some(&written(1)), b, "main", &job(1, 1, &s)).is_some());
    assert!(plan_branch(b, b, Some(&written(2)), b, "main", &job(1, 2, &s)).is_none());
    assert!(plan_branch(b, b, None, b, "main", &job(1, 2, &s)).is_some());
}

#[test]
fn the_header_follows_title_app_and_version() {
    let mut s = RoomState::default();
    apply(&mut s, "main", RoomOp::ChatPost { text: "a".into(), nick: None });
    apply(&mut s, "main", RoomOp::BranchCreate { name: "dev".into() });
    let mut mat = Materialiser::default();
    let first = job(1, 2, &s);
    for name in ["main", "dev"] {
        mat.note_written("db", name, s.branches.get(name).unwrap(), &first);
        assert!(mat.plan("db", name, s.branches.get(name).unwrap(), &first).is_none());
    }
    // The title is the room's: every branch gets it, though no branch changed.
    apply(&mut s, "main", RoomOp::SetTitle { title: "T".into() });
    let titled = job(1, 2, &s);
    let plan = mat.plan("db", "dev", s.branches.get("dev").unwrap(), &titled).unwrap();
    assert_eq!((plan.meta.title.as_str(), plan.meta.forked_from.as_str(), plan.meta.version), ("T", "main", 2));
    assert!(plan.chat.is_empty() && plan.todos.is_empty() && plan.files.is_empty());
    assert!(plan.gone_todos.is_empty() && plan.gone_files.is_empty());
    mat.note_written("db", "dev", s.branches.get("dev").unwrap(), &titled);
    apply(&mut s, "main", RoomOp::SetApp { app: "chat".into() });
    let plan = mat.plan("db", "dev", s.branches.get("dev").unwrap(), &job(1, 2, &s)).unwrap();
    assert_eq!(plan.meta.app, "chat");
    let plan = mat.plan("db", "main", main_of(&s), &job(1, 9, &s)).unwrap();
    assert_eq!((plan.meta.version, plan.chat.len()), (9, 0));
}

#[test]
fn the_database_follows_the_branch() {
    let mut s = RoomState::default();
    let ops = vec![
        RoomOp::ChatPost { text: "a".into(), nick: None },
        RoomOp::TodoAdd { id: "t".into(), title: "x".into() },
        RoomOp::TodoAdd { id: "u".into(), title: "y".into() },
        RoomOp::TodoSetDone { id: "t".into(), done: true },
        RoomOp::FsWrite { path: "/a/b".into(), content: "1".into() },
        RoomOp::FsMove { from: "/a".into(), to: "/c/d".into() },
        RoomOp::TodoRemove { id: "u".into() },
        RoomOp::ChatPost { text: "b".into(), nick: None },
        RoomOp::FsRemove { path: "/c/d".into() },
    ];
    let mut followed = Documents::default();
    let mut prev = BranchState::default();
    let mut header = None;
    for op in ops {
        apply(&mut s, "main", op);
        let j = job(1, s.ops_applied, &s);
        let plan = plan_branch(&prev, &prev, header.as_ref(), main_of(&s), "main", &j).unwrap();
        perform(&mut followed, &plan);
        let mut fresh = Documents::default();
        perform(&mut fresh, &plan_branch(&BranchState::default(), &BranchState::default(), None, main_of(&s), "main", &j).unwrap());
        assert_eq!(followed, fresh);
        prev = main_of(&s).clone();
        header = Some(plan.meta);
        let again = job(1, s.ops_applied + 1, &s);
        let plan = plan_branch(&prev, &prev, header.as_ref(), main_of(&s), "main", &again).unwrap();
        assert_eq!(plan.meta.version as u64, s.ops_applied + 1);
        let mut unchanged = Documents::default();
        perform(&mut unchanged, &plan);
        assert_eq!(unchanged, Documents { meta: Some(plan.meta.clone()), ..Documents::default() });
        assert!(plan_branch(&prev, &prev, Some(&plan.meta), main_of(&s), "main", &again).is_none());
    }
    assert_eq!(followed.chat.len(), 2);
    assert_eq!(followed.todos.len(), 1);
    assert_eq!(followed.files.keys().cloned().collect::<Vec<_>>(), vec!["fs_2f63"]);
}

#[test]
fn branches_are_made_once_from_their_parents() {
    let mut s = RoomState::default();
    apply(&mut s, "main", RoomOp::BranchCreate { name: "dev".into() });
    apply(&mut s, "dev", RoomOp::BranchCreate { name: "alt".into() });
    let mut mat = Materialiser::default();
    assert!(!mat.is_ready("db"));
    mat.note_ready("db");
    assert!(mat.is_ready("db") && !mat.is_ready("other"));
    let path = |name: &str| format!("org/db/local/branch/{name}");
    let fork = |name: &str, parent: &str| NewBranch {
        name: name.into(),
        parent: parent.into(),
        path: path(name),
        origin: path(parent),
    };
    // The parent comes first, whatever the names are.
    assert_eq!(mat.new_branches("org", "db", &s), vec![fork("dev", "main"), fork("alt", "dev")]);
    apply(&mut s, "alt", RoomOp::BranchCreate { name: "zeta".into() });
    apply(&mut s, "zeta", RoomOp::BranchCreate { name: "beta".into() });
    apply(&mut s, "main", RoomOp::BranchCreate { name: "again".into() });
    assert_eq!(
        mat.new_branches("org", "db", &s),
        vec![fork("zeta", "alt"), fork("beta", "zeta"), fork("again", "main")]
    );
    assert!(mat.new_branches("org", "db", &s).is_empty());
    let unprepared = mat.new_branches("org", "other", &RoomState::default());
    assert_eq!(unprepared[0].origin, "org/other/local/branch/main");
}

#[test]
fn what_was_written_is_not_written_again() {
    let mut s = RoomState::default();
    apply(&mut s, "main", RoomOp::ChatPost { text: "a".into(), nick: None });
    apply(&mut s, "main", RoomOp::ChatPost { text: "b".into(), nick: None });
    let mut mat = Materialiser::default();
    let j = job(1, 2, &s);
    assert_eq!(mat.plan("db", "main", main_of(&s), &j).unwrap().chat.len(), 2);
    mat.note_written("db", "main", main_of(&s), &j);
    assert!(mat.plan("db", "main", main_of(&s), &j).is_none());
    assert_eq!(mat.plan("db", "dev", main_of(&s), &j).unwrap().chat.len(), 2);
    assert_eq!(mat.plan("db2", "main", main_of(&s), &j).unwrap().chat.len(), 2);
    apply(&mut s, "main", RoomOp::ChatPost { text: "c".into(), nick: None });
    let plan = mat.plan("db", "main", main_of(&s), &job(1, 3, &s)).unwrap();
    assert_eq!(plan.chat.iter().map(|d| d.id.clone()).collect::<Vec<_>>(), vec!["chat_2"]);
}

#[test]
fn only_the_newest_job_of_a_room_counts() {
    let s = RoomState::default();
    let jobs = vec![job(1, 1, &s), job(2, 5, &s), job(1, 3, &s), job(2, 4, &s)];
    let mut kept: Vec<(u8, u64)> = coalesce(jobs).into_iter().map(|j| (j.room[0], j.version)).collect();
    kept.sort();
    assert_eq!(kept, vec![(1, 3), (2, 4)]);
    assert!(coalesce(Vec::new()).is_empty());
}

#[test]
fn a_failure_leaves_the_last_success() {
    let mut s = RoomState::default();
    apply(&mut s, "main", RoomOp::BranchCreate { name: "dev".into() });
    let mut status = MatRoomStatus::default();
    status.note("db", &job(1, 2, &s), Ok(()));
    assert_eq!((status.db.as_str(), status.last_version, status.last_error.as_deref()), ("db", 2, None));
    assert_eq!(status.branches, vec!["dev", "main"]);
    status.note("db", &job(1, 9, &RoomState::default()), Err("down".into()));
    assert_eq!((status.last_version, status.last_error.as_deref()), (2, Some("down")));
    assert_eq!(status.branches, vec!["dev", "main"]);
    status.note("db", &job(1, 9, &RoomState::default()), Ok(()));
    assert_eq!((status.last_version, status.last_error.as_deref()), (9, None));
}

fn steps(mat: &mut Materialiser, job: MatJob, fail_at: Option<usize>) -> Vec<String> {
    let mut sync = RoomSync::new(job);
    let mut taken = Vec::new();
    loop {
        let ok = fail_at != Some(taken.len());
        let step = sync.advance(mat, "org", ok);
        let done = matches!(step, Step::Done | Step::Failed);
        taken.push(match step {
            Step::Connect => "connect".to_string(),
            Step::Prepare => format!("prepare {}", sync.db()),
            Step::Fork(f) => format!("fork {}", f.name),
            Step::Write { name, plan } => match plan {
                Some(p) => format!("write {name} v{} {}", p.meta.version, p.chat.len()),
                None => format!("write {name} -"),
            },
            Step::Done => "done".to_string(),
            Step::Failed => "failed".to_string(),
        });
        if done {
            return taken;
        }
    }
}

#[test]
fn a_room_is_written_step_by_step() {
    let mut s = RoomState::default();
    apply(&mut s, "main", RoomOp::ChatPost { text: "a".into(), nick: None });
    apply(&mut s, "main", RoomOp::BranchCreate { name: "dev".into() });
    let mut mat = Materialiser::default();
    assert_eq!(
        steps(&mut mat, job(1, 2, &s), None),
        vec!["connect", "prepare room_0101010101010101", "fork dev", "write dev v2 1", "write main v2 1", "done"]
    );
    assert_eq!(
        steps(&mut mat, job(1, 2, &s), None),
        vec!["connect", "write dev -", "write main -", "done"]
    );
    assert_eq!(
        steps(&mut mat, job(1, 3, &s), None),
        vec!["connect", "write dev v3 0", "write main v3 0", "done"]
    );
    apply(&mut s, "dev", RoomOp::ChatPost { text: "b".into(), nick: None });
    assert_eq!(
        steps(&mut mat, job(1, 3, &s), None),
        vec!["connect", "write dev v3 1", "write main -", "done"]
    );
    assert_eq!(RoomSync::new(job(1, 3, &s)).job().version, 3);
}

#[test]
fn what_failed_is_tried_again() {
    let mut s = RoomState::default();
    apply(&mut s, "main", RoomOp::ChatPost { text: "a".into(), nick: None });
    apply(&mut s, "main", RoomOp::BranchCreate { name: "dev".into() });
    let db = "prepare room_0101010101010101";
    let mut mat = Materialiser::default();
    assert_eq!(steps(&mut mat, job(1, 2, &s), Some(1)), vec!["connect", "failed"]);
    assert_eq!(steps(&mut mat, job(1, 2, &s), Some(2)), vec!["connect", db, "failed"]);
    // A branch that could not be made is taken to be there; a write that failed
    // is made again, and the one before it is not.
    assert_eq!(
        steps(&mut mat, job(1, 2, &s), Some(3)),
        vec!["connect", db, "fork dev", "write dev v2 1", "write main v2 1", "done"]
    );
    let mut mat = Materialiser::default();
    assert_eq!(
        steps(&mut mat, job(1, 2, &s), Some(5)),
        vec!["connect", db, "fork dev", "write dev v2 1", "write main v2 1", "failed"]
    );
    assert_eq!(
        steps(&mut mat, job(1, 2, &s), None),
        vec!["connect", "write dev -", "write main v2 1", "done"]
    );
}

/// Carries the steps of a sync out on the branches of a database.
fn carry_out(mat: &mut Materialiser, db: &mut BTreeMap<String, Documents>, job: MatJob) {
    let mut sync = RoomSync::new(job);
    loop {
        match sync.advance(mat, "org", true) {
            Step::Connect => {}
            Step::Prepare => {
                db.insert("main".to_string(), Documents::default());
            }
            Step::Fork(f) => {
                let copy = db[&f.parent].clone();
                assert!(db.insert(f.name, copy).is_none());
            }
            Step::Write { name, plan } => {
                if let Some(plan) = plan {
                    perform(db.get_mut(&name).unwrap(), &plan);
                }
            }
            Step::Done => return,
            Step::Failed => panic!("nothing failed"),
        }
    }
}

/// What an empty branch of a database holds once a branch is written to it.
fn fresh(s: &RoomState, name: &str, version: u64) -> Documents {
    let nothing = BranchState::default();
    let branch = s.branches.get(name).unwrap();
    let mut docs = Documents::default();
    perform(&mut docs, &plan_branch(&nothing, &nothing, None, branch, name, &job(1, version, s)).unwrap());
    docs
}

#[test]
fn a_fork_loses_what_its_parent_had_and_it_has_not() {
    let mut s = RoomState::default();
    apply(&mut s, "main", RoomOp::ChatPost { text: "a".into(), nick: None });
    apply(&mut s, "main", RoomOp::TodoAdd { id: "t".into(), title: "x".into() });
    apply(&mut s, "main", RoomOp::FsWrite { path: "/a/b".into(), content: "1".into() });
    let mut mat = Materialiser::default();
    let mut db: BTreeMap<String, Documents> = BTreeMap::new();
    carry_out(&mut mat, &mut db, job(1, s.ops_applied, &s));

    // Between two jobs, two branches are forked, and lose what their parent has.
    apply(&mut s, "main", RoomOp::BranchCreate { name: "dev".into() });
    apply(&mut s, "dev", RoomOp::TodoRemove { id: "t".into() });
    apply(&mut s, "dev", RoomOp::BranchCreate { name: "alt".into() });
    apply(&mut s, "alt", RoomOp::FsRemove { path: "/a".into() });
    apply(&mut s, "alt", RoomOp::ChatPost { text: "b".into(), nick: None });
    carry_out(&mut mat, &mut db, job(1, s.ops_applied, &s));

    for name in ["main", "dev", "alt"] {
        assert_eq!(db[name], fresh(&s, name, s.ops_applied));
    }
    assert_eq!((db["main"].todos.len(), db["dev"].todos.len(), db["alt"].todos.len()), (1, 0, 0));
    assert_eq!((db["dev"].files.len(), db["alt"].files.len(), db["alt"].chat.len()), (2, 0, 2));
    assert_eq!(db["alt"].meta.as_ref().map(|m| m.forked_from.as_str()), Some("dev"));
}

fn post(text: &str) -> RoomOp {
    RoomOp::ChatPost { text: text.into(), nick: None }
}

fn said(docs: &Documents) -> Vec<(&str, &str)> {
    docs.chat.values().map(|d| (d.id.as_str(), d.text.as_str())).collect()
}

#[test]
fn messages_of_a_fork_land_whatever_came_before_them() {
    // The larger key posts on main, and main is written.
    let mut first = RoomState::default();
    apply(&mut first, "main", post("a"));
    apply(&mut first, "main", post("b"));
    let mut mat = Materialiser::default();
    let mut db: BTreeMap<String, Documents> = BTreeMap::new();
    carry_out(&mut mat, &mut db, job(1, first.ops_applied, &first));
    assert_eq!(said(&db["main"]), vec![("chat_0", "a"), ("chat_1", "b")]);

    // The smaller key forks a branch and posts on it. Its entries come first now.
    let mut s = RoomState::default();
    apply(&mut s, "main", RoomOp::BranchCreate { name: "dev".into() });
    apply(&mut s, "dev", post("x"));
    apply(&mut s, "main", post("a"));
    apply(&mut s, "main", post("b"));
    carry_out(&mut mat, &mut db, job(1, s.ops_applied, &s));
    assert_eq!(said(&db["dev"]), vec![("chat_0", "a"), ("chat_1", "x")]);
    for name in ["main", "dev"] {
        for (id, doc) in &fresh(&s, name, s.ops_applied).chat {
            assert_eq!(db[name].chat.get(id), Some(doc));
        }
    }
    let quiet = steps(&mut mat, job(1, s.ops_applied, &s), None);
    assert_eq!(quiet, vec!["connect", "write dev -", "write main -", "done"]);
}

#[test]
fn messages_that_came_in_between_land() {
    let mut first = RoomState::default();
    for text in ["a", "b", "c"] {
        apply(&mut first, "main", post(text));
    }
    let mut s = RoomState::default();
    for text in ["a", "x", "b", "c"] {
        apply(&mut s, "main", post(text));
    }
    let mut mat = Materialiser::default();
    mat.note_written("db", "main", main_of(&first), &job(1, 3, &first));
    let plan = mat.plan("db", "main", main_of(&s), &job(1, 4, &s)).unwrap();
    let texts: Vec<&str> = plan.chat.iter().map(|d| d.text.as_str()).collect();
    assert_eq!(texts, vec!["x", "b", "c"]);
    // A chat that became shorter has nothing that is not written.
    let plan = mat.plan("db", "main", main_of(&RoomState::default()), &job(1, 4, &s)).unwrap();
    assert!(plan.chat.is_empty());
}

#[test]
fn the_first_writes_of_a_fork_save_everything() {
    let mut s = RoomState::default();
    apply(&mut s, "main", post("a"));
    apply(&mut s, "main", RoomOp::TodoAdd { id: "t".into(), title: "x".into() });
    apply(&mut s, "main", RoomOp::TodoAdd { id: "u".into(), title: "y".into() });
    apply(&mut s, "main", RoomOp::FsWrite { path: "/f".into(), content: "1".into() });
    let mut mat = Materialiser::default();
    mat.note_written("db", "main", main_of(&s), &job(1, 4, &s));
    apply(&mut s, "main", RoomOp::BranchCreate { name: "dev".into() });
    apply(&mut s, "dev", RoomOp::TodoRemove { id: "u".into() });
    mat.note_forked("db", "main", "dev");
    let dev = s.branches.get("dev").unwrap();
    let plan = mat.plan("db", "dev", dev, &job(1, 6, &s)).unwrap();
    assert_eq!((plan.chat.len(), plan.todos.len(), plan.files.len()), (1, 1, 1));
    assert_eq!((plan.gone_todos, plan.gone_files.len()), (vec!["todo_75".to_string()], 0));
    // As long as these writes fail, they are all made again.
    assert_eq!(mat.plan("db", "dev", dev, &job(1, 6, &s)).unwrap().todos.len(), 1);
    mat.note_written("db", "dev", dev, &job(1, 6, &s));
    assert!(mat.plan("db", "dev", dev, &job(1, 6, &s)).is_none());
    // A branch that is forked from one that was not written yet has to lose the same.
    mat.note_forked("db", "main", "one");
    mat.note_forked("db", "one", "two");
    assert_eq!(mat.plan("db", "two", dev, &job(1, 6, &s)).unwrap().gone_todos, vec!["todo_75"]);
}
