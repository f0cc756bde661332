//! The deterministic fold: room state as a pure function of the linearized op
//! stream.
//!
//! Everything here depends on the prior state and on the entry alone, so that
//! every replica that folds the same order lands on the same state.

use vstd::prelude::*;

use crate::envelope::{decode_envelope, decoded};
use crate::keys::{hex_text, key_text};
use crate::op::{EnvelopeView, OpEnvelope, OpView, RoomOp};
use crate::path::{normal_form, normalize_path};
use crate::state::{
    chat_view, BranchState, BranchView, ChatMessage, ChatView, FsNode, FsView, NodeId, RoomState, RoomView,
    TodoItem, TodoView,
};
use crate::text::chars_of;
use crate::text_map::Plain;
use crate::tree::{ensure_parent_dirs, move_tree, moved, remove_tree, with_ancestors, without};

verus! {

/// A character that may stand in the name of a branch.
pub open spec fn is_branch_char(c: char) -> bool {
    ('a' <= c && c <= 'z') || ('A' <= c && c <= 'Z') || ('0' <= c && c <= '9') || c == '_' || c == '-'
}

/// A name that a branch may have: 1 to 64 letters, digits, `_` and `-`.
pub open spec fn is_branch_name(name: Seq<char>) -> bool {
    &&& 1 <= name.len() <= 64
    &&& forall|i: int| 0 <= i < name.len() ==> is_branch_char(#[trigger] name[i])
}

/// Branch names become database branch names and URL path segments, so they
/// keep to a safe alphabet.
pub fn valid_branch_name(name: &str) -> (r: bool)
    ensures
        r == is_branch_name(name@),
{
    let chars = chars_of(name);
    if chars.len() == 0 || chars.len() > 64 {
        return false;
    }
    let mut i: usize = 0;
    while i < chars.len()
        invariant
            chars@ == name@,
            i <= chars@.len(),
            forall|j: int| 0 <= j < i ==> is_branch_char(#[trigger] name@[j]),
        decreases chars@.len() - i,
    {
        let c = chars[i];
        let ok = ('a' <= c && c <= 'z') || ('A' <= c && c <= 'Z') || ('0' <= c && c <= '9') || c == '_' || c == '-';
        if !ok {
            assert(!is_branch_char(name@[i as int]));
            return false;
        }
        i = i + 1;
    }
    true
}

/// A branch after an op of `author`, the `at_op`th of the room. Ops of the
/// room, not of a branch, leave it alone.
pub open spec fn branch_after(b: BranchView, op: OpView, author: Seq<char>, at_op: u64) -> BranchView {
    match op {
        OpView::ChatPost { text, nick } => BranchView {
            chat: b.chat.push(ChatView { author, nick, text, at_op }),
            ..b
        },
        // The first writer wins: a later add with the same id changes nothing.
        OpView::TodoAdd { id, title } => if b.todos.contains_key(id) {
            b
        } else {
            BranchView {
                todos: b.todos.insert(id, TodoView { id, title, done: false, author, created_at_op: at_op }),
                ..b
            }
        },
        OpView::TodoSetDone { id, done } => if b.todos.contains_key(id) {
            BranchView { todos: b.todos.insert(id, TodoView { done, ..b.todos[id] }), ..b }
        } else {
            b
        },
        OpView::TodoRetitle { id, title } => if b.todos.contains_key(id) {
            BranchView { todos: b.todos.insert(id, TodoView { title, ..b.todos[id] }), ..b }
        } else {
            b
        },
        OpView::TodoRemove { id } => BranchView { todos: b.todos.remove(id), ..b },
        OpView::FsWrite { path, content } => match normal_form(path) {
            Some(p) => BranchView {
                files: with_ancestors(b.files, p).insert(p, FsView::File { content, author, modified_at_op: at_op }),
                ..b
            },
            None => b,
        },
        OpView::FsMkdir { path } => match normal_form(path) {
            Some(p) => {
                let files = with_ancestors(b.files, p);
                BranchView {
                    files: if files.contains_key(p) {
                        files
                    } else {
                        files.insert(p, FsView::Dir)
                    },
                    ..b
                }
            },
            None => b,
        },
        OpView::FsRemove { path } => match normal_form(path) {
            Some(p) => BranchView { files: without(b.files, p), ..b },
            None => b,
        },
        OpView::FsMove { from, to } => match (normal_form(from), normal_form(to)) {
            (Some(f), Some(t)) => BranchView { files: moved(b.files, f, t), ..b },
            _ => b,
        },
        _ => b,
    }
}

/// A room after an op in an envelope, the `at_op`th of the room.
pub open spec fn room_after(room: RoomView, env: EnvelopeView, author: Seq<char>, at_op: u64) -> RoomView {
    match env.op {
        OpView::SetTitle { title } => RoomView { title: Some(title), ..room },
        OpView::SetApp { app } => RoomView { app: Some(app), ..room },
        OpView::Checkpoint => room,
        OpView::ChatSetNick { nick } => RoomView { nicks: room.nicks.insert(author, nick), ..room },
        OpView::BranchCreate { name } => if is_branch_name(name) && !room.branches.contains_key(name)
            && room.branches.contains_key(env.branch) {
            let forked = BranchView {
                forked_from: Some(env.branch),
                forked_at_op: at_op,
                ..room.branches[env.branch]
            };
            RoomView { branches: room.branches.insert(name, forked), ..room }
        } else {
            room
        },
        op => if room.branches.contains_key(env.branch) {
            RoomView {
                branches: room.branches.insert(
                    env.branch,
                    branch_after(room.branches[env.branch], op, author, at_op),
                ),
                ..room
            }
        } else {
            room
        },
    }
}

/// A room after an entry of the log with this envelope, if any. An entry without
/// one changes nothing, but is counted.
pub open spec fn stepped(room: RoomView, key: Seq<u8>, env: Option<EnvelopeView>) -> RoomView {
    let counted = RoomView { ops_applied: (room.ops_applied + 1) as u64, ..room };
    match env {
        Some(env) => room_after(counted, env, hex_text(key), room.ops_applied),
        None => counted,
    }
}

/// A room after an entry of the log.
pub open spec fn step(room: RoomView, key: Seq<u8>, payload: Seq<u8>) -> RoomView {
    stepped(room, key, decoded(payload))
}

/// What an envelope stands for, if there is one.
pub open spec fn opt_envelope(env: Option<OpEnvelope>) -> Option<EnvelopeView> {
    match env {
        Some(env) => Some(env@),
        None => None,
    }
}

impl BranchState {
    /// Applies an op to this branch.
    pub fn apply(&mut self, op: RoomOp, author: String, at_op: u64)
        ensures
            final(self)@ == branch_after(old(self)@, op@, author@, at_op),
    {
        match op {
            RoomOp::ChatPost { text, nick } => {
                let m = ChatMessage { author, nick, text, at_op };
                let ghost before = self.chat@;
                let ghost v = m@;
                self.chat.push(m);
                assert(chat_view(self.chat@) =~= chat_view(before).push(v));
            },
            RoomOp::TodoAdd { id, title } => {
                let key = id.clone();
                self.todos.insert_if_absent(
                    key,
                    TodoItem { id, title, done: false, author, created_at_op: at_op },
                );
            },
            RoomOp::TodoSetDone { id, done } => {
                if let Some(mut item) = self.todos.remove(id.as_str()) {
                    item.done = done;
                    self.todos.insert(id, item);
                }
                assert(self@.todos =~= branch_after(old(self)@, op@, author@, at_op).todos);
            },
            RoomOp::TodoRetitle { id, title } => {
                if let Some(mut item) = self.todos.remove(id.as_str()) {
                    item.title = title;
                    self.todos.insert(id, item);
                }
                assert(self@.todos =~= branch_after(old(self)@, op@, author@, at_op).todos);
            },
            RoomOp::TodoRemove { id } => {
                let _ = self.todos.remove(id.as_str());
            },
            RoomOp::FsWrite { path, content } => {
                if let Some(p) = normalize_path(path.as_str()) {
                    ensure_parent_dirs(&mut self.files, p.as_str());
                    self.files.insert(p, FsNode::File { content, author, modified_at_op: at_op });
                }
            },
            RoomOp::FsMkdir { path } => {
                if let Some(p) = normalize_path(path.as_str()) {
                    ensure_parent_dirs(&mut self.files, p.as_str());
                    self.files.insert_if_absent(p, FsNode::Dir);
                }
            },
            RoomOp::FsRemove { path } => {
                if let Some(p) = normalize_path(path.as_str()) {
                    remove_tree(&mut self.files, p.as_str());
                }
            },
            RoomOp::FsMove { from, to } => {
                if let (Some(f), Some(t)) = (normalize_path(from.as_str()), normalize_path(to.as_str())) {
                    move_tree(&mut self.files, f.as_str(), t.as_str());
                }
            },
            RoomOp::SetTitle { .. } | RoomOp::SetApp { .. } | RoomOp::Checkpoint | RoomOp::ChatSetNick { .. }
            | RoomOp::BranchCreate { .. } => {},
        }
    }

    /// Makes every missing directory on the way to `path`.
    pub fn ensure_parent_dirs(&mut self, path: &str)
        ensures
            final(self)@ == (BranchView { files: with_ancestors(old(self)@.files, path@), ..old(self)@ }),
    {
        ensure_parent_dirs(&mut self.files, path);
    }
}

impl RoomState {
    /// Folds one linearized log entry into the state.
    ///
    /// Invalid payloads (undecodable, unknown branch, duplicate branch name, bad
    /// path) are skipped, but still count towards `ops_applied`, so that op
    /// positions stay stable.
    pub fn apply_payload(&mut self, node: NodeId, payload: &[u8])
        requires
            old(self).ops_applied < u64::MAX,
        ensures
            final(self)@ == step(old(self)@, node.key@, payload@),
    {
        self.apply_envelope(node, decode_envelope(payload));
    }

    /// Folds one entry into the state, by the envelope that its payload holds.
    pub fn apply_envelope(&mut self, node: NodeId, env: Option<OpEnvelope>)
        requires
            old(self).ops_applied < u64::MAX,
        ensures
            final(self)@ == stepped(old(self)@, node.key@, opt_envelope(env)),
    {
        let at_op = self.ops_applied;
        self.ops_applied = self.ops_applied + 1;
        let ghost counted = self@;
        let env = match env {
            Some(env) => env,
            None => {
                return;
            },
        };
        let author = key_text(&node.key);
        let ghost e = env@;
        match env.op {
            RoomOp::SetTitle { title } => {
                self.title = Some(title);
            },
            RoomOp::SetApp { app } => {
                self.app = Some(app);
            },
            RoomOp::Checkpoint => {},
            RoomOp::ChatSetNick { nick } => {
                self.nicks.insert(author, nick);
            },
            RoomOp::BranchCreate { name } => {
                if !valid_branch_name(name.as_str()) || self.branches.contains_key(name.as_str()) {
                    return;
                }
                let mut forked = match self.branches.get(env.branch.as_str()) {
                    Some(source) => source.duplicate(),
                    None => {
                        return;
                    },
                };
                forked.forked_from = Some(env.branch);
                forked.forked_at_op = at_op;
                self.branches.insert(name, forked);
            },
            op => {
                if let Some(mut branch) = self.branches.remove(env.branch.as_str()) {
                    branch.apply(op, author, at_op);
                    self.branches.insert(env.branch, branch);
                }
                assert(self@.branches =~= room_after(counted, e, author@, at_op).branches);
            },
        }
    }
}

} // verus!
