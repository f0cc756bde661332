//! What the fold keeps, whatever the log holds.

use vstd::prelude::*;

use crate::envelope::decoded;
use crate::fold::{branch_after, is_branch_name, step};
use crate::keys::hex_text;
use crate::op::{OpView, MAIN_BRANCH};
use crate::path::{is_ancestor, normal_form};
use crate::path_laws::law_normal_form_is_normal;
use crate::state::{empty_room, BranchView, ChatView, FsView, RoomView};
use crate::tree::with_ancestors;
use crate::tree_laws::{
    is_tree, lemma_insert_is_tree, lemma_relocated_is_tree, lemma_with_ancestors_is_tree, lemma_without_is_tree,
};

verus! {

/// An entry of the linearized log: the key of its writer and its payload.
pub type Entry = (Seq<u8>, Seq<u8>);

/// A room after the entries of a log, in their order.
pub open spec fn fold(room: RoomView, log: Seq<Entry>) -> RoomView
    decreases log.len(),
{
    if log.len() == 0 {
        room
    } else {
        let before = fold(room, log.drop_last());
        step(before, log.last().0, log.last().1)
    }
}

// --- the whole log -----------------------------------------------------------------

/// Folding a log from a checkpoint: the state after the first part, taken up and
/// continued with the rest, is the state after the whole.
pub proof fn law_checkpoint_replay(room: RoomView, first: Seq<Entry>, rest: Seq<Entry>)
    ensures
        fold(fold(room, first), rest) == fold(room, first + rest),
    decreases rest.len(),
{
    if rest.len() == 0 {
        assert(first + rest =~= first);
    } else {
        law_checkpoint_replay(room, first, rest.drop_last());
        assert((first + rest).drop_last() =~= first + rest.drop_last());
        assert((first + rest).last() == rest.last());
    }
}

/// Every entry is counted, understood or not.
pub proof fn law_every_entry_is_counted(room: RoomView, log: Seq<Entry>)
    requires
        room.ops_applied + log.len() <= u64::MAX,
    ensures
        fold(room, log).ops_applied == room.ops_applied + log.len(),
    decreases log.len(),
{
    if log.len() > 0 {
        law_every_entry_is_counted(room, log.drop_last());
    }
}

/// An entry that is not understood changes nothing but the count.
pub proof fn law_garbage_is_only_counted(room: RoomView, key: Seq<u8>, payload: Seq<u8>)
    requires
        decoded(payload) is None,
    ensures
        step(room, key, payload) == (RoomView { ops_applied: (room.ops_applied + 1) as u64, ..room }),
{
}

/// What an op can change of the branches: an op on a branch that is not there
/// changes none.
pub proof fn law_op_on_unknown_branch_is_skipped(room: RoomView, key: Seq<u8>, payload: Seq<u8>)
    requires
        decoded(payload) is Some,
        !room.branches.contains_key(decoded(payload)->0.branch),
    ensures
        step(room, key, payload).branches == room.branches,
{
}

/// A checkpoint folds to nothing.
pub proof fn law_checkpoint_folds_to_nothing(room: RoomView, key: Seq<u8>, payload: Seq<u8>)
    requires
        decoded(payload) is Some,
        decoded(payload)->0.op is Checkpoint,
    ensures
        step(room, key, payload) == (RoomView { ops_applied: (room.ops_applied + 1) as u64, ..room }),
{
}

/// Only the ops that record their author, a nick, a message, an item or a file,
/// depend on who wrote the entry.
pub proof fn law_only_authored_ops_depend_on_the_writer(room: RoomView, key: Seq<u8>, other: Seq<u8>, payload: Seq<u8>)
    requires
        decoded(payload) is Some,
        match decoded(payload)->0.op {
            OpView::ChatSetNick { .. } | OpView::ChatPost { .. } | OpView::TodoAdd { .. } | OpView::FsWrite { .. } => false,
            _ => true,
        },
    ensures
        step(room, key, payload) == step(room, other, payload),
{
}

// --- branches ----------------------------------------------------------------------

/// A branch that is there stays there, and an op changes it only where the op
/// names it: branches diverge, and what happens on one does not leak into another.
pub proof fn law_branches_are_apart(room: RoomView, key: Seq<u8>, payload: Seq<u8>, name: Seq<char>)
    requires
        room.branches.contains_key(name),
    ensures
        step(room, key, payload).branches.contains_key(name),
        decoded(payload) matches Some(env) ==> env.branch != name ==> step(room, key, payload).branches[name]
            == room.branches[name],
{
}

/// The fork of a branch has all that the branch had at that point; the branch it
/// was forked from is as it was.
pub proof fn law_fork_carries_the_state_over(room: RoomView, key: Seq<u8>, payload: Seq<u8>)
    requires
        decoded(payload) matches Some(env) && env.op matches OpView::BranchCreate { name } && is_branch_name(name)
            && !room.branches.contains_key(name) && room.branches.contains_key(env.branch),
    ensures
        ({
            let env = decoded(payload)->0;
            let name = env.op->BranchCreate_name;
            let after = step(room, key, payload);
            &&& after.branches.contains_key(name)
            &&& after.branches[name].chat == room.branches[env.branch].chat
            &&& after.branches[name].todos == room.branches[env.branch].todos
            &&& after.branches[name].files == room.branches[env.branch].files
            &&& after.branches[name].forked_from == Some(env.branch)
            &&& after.branches[name].forked_at_op == room.ops_applied
            &&& after.branches[env.branch] == room.branches[env.branch]
        }),
{
}

/// Creating a branch that is there, under a name that no branch may have or from
/// a branch that is not there changes no branch.
pub proof fn law_refused_fork_changes_nothing(room: RoomView, key: Seq<u8>, payload: Seq<u8>)
    requires
        decoded(payload) matches Some(env) && env.op matches OpView::BranchCreate { name } && (!is_branch_name(name)
            || room.branches.contains_key(name) || !room.branches.contains_key(env.branch)),
    ensures
        step(room, key, payload) == (RoomView { ops_applied: (room.ops_applied + 1) as u64, ..room }),
{
}

/// No branch is ever lost, and a chat only grows at its end.
pub proof fn law_chats_only_grow(room: RoomView, log: Seq<Entry>, name: Seq<char>)
    requires
        room.branches.contains_key(name),
    ensures
        fold(room, log).branches.contains_key(name),
        room.branches[name].chat.is_prefix_of(fold(room, log).branches[name].chat),
    decreases log.len(),
{
    if log.len() > 0 {
        law_chats_only_grow(room, log.drop_last(), name);
        let before = fold(room, log.drop_last());
        lemma_chat_grows(before, log.last(), name);
        lemma_prefix_of_prefix(
            room.branches[name].chat,
            before.branches[name].chat,
            fold(room, log).branches[name].chat,
        );
    }
}

proof fn lemma_prefix_of_prefix(a: Seq<ChatView>, b: Seq<ChatView>, c: Seq<ChatView>)
    requires
        a.is_prefix_of(b),
        b.is_prefix_of(c),
    ensures
        a.is_prefix_of(c),
{
    assert(a =~= b.subrange(0, a.len() as int));
    assert(b =~= c.subrange(0, b.len() as int));
    assert(a =~= c.subrange(0, a.len() as int)) by {
        assert forall|i: int| 0 <= i < a.len() implies a[i] == c[i] by {
            assert(a[i] == b.subrange(0, a.len() as int)[i]);
            assert(b[i] == c.subrange(0, b.len() as int)[i]);
        }
    }
}

proof fn lemma_chat_grows(room: RoomView, entry: Entry, name: Seq<char>)
    requires
        room.branches.contains_key(name),
    ensures
        step(room, entry.0, entry.1).branches.contains_key(name),
        room.branches[name].chat.is_prefix_of(step(room, entry.0, entry.1).branches[name].chat),
{
    let before = room.branches[name].chat;
    let after = step(room, entry.0, entry.1).branches[name].chat;
    assert(after == before || (after.len() == before.len() + 1 && after.drop_last() =~= before));
    assert(before =~= after.subrange(0, before.len() as int));
}

// --- todos -------------------------------------------------------------------------

/// The first writer wins: adding an item under an id that is taken changes
/// nothing.
pub proof fn law_first_add_wins(b: BranchView, id: Seq<char>, title: Seq<char>, author: Seq<char>, at_op: u64)
    requires
        b.todos.contains_key(id),
    ensures
        branch_after(b, OpView::TodoAdd { id, title }, author, at_op) == b,
{
}

/// An op on one item leaves every other item as it is.
pub proof fn law_todos_are_apart(b: BranchView, op: OpView, author: Seq<char>, at_op: u64, other: Seq<char>)
    requires
        match op {
            OpView::TodoAdd { id, .. } => id != other,
            OpView::TodoSetDone { id, .. } => id != other,
            OpView::TodoRetitle { id, .. } => id != other,
            OpView::TodoRemove { id } => id != other,
            _ => true,
        },
    ensures
        branch_after(b, op, author, at_op).todos.contains_key(other) <==> b.todos.contains_key(other),
        b.todos.contains_key(other) ==> branch_after(b, op, author, at_op).todos[other] == b.todos[other],
{
}

// --- the invariant -----------------------------------------------------------------

/// A branch of a room that has seen `ops` entries.
pub open spec fn is_branch(b: BranchView, ops: u64) -> bool {
    &&& b.forked_from is Some ==> b.forked_at_op < ops
    &&& forall|i: int| 0 <= i < b.chat.len() ==> (#[trigger] b.chat[i]).at_op < ops
    &&& forall|i: int, j: int| 0 <= i < j < b.chat.len() ==> (#[trigger] b.chat[i]).at_op < (#[trigger] b.chat[j]).at_op
    &&& forall|id: Seq<char>| #[trigger]
        b.todos.contains_key(id) ==> b.todos[id].id == id && b.todos[id].created_at_op < ops
    &&& is_tree(b.files)
    &&& forall|p: Seq<char>| #[trigger]
        b.files.contains_key(p) ==> (b.files[p] matches FsView::File { modified_at_op, .. } ==> modified_at_op < ops)
}

/// The messages of a chat that were posted before a place in the log.
pub open spec fn said_before(chat: Seq<ChatView>, op: u64) -> Seq<ChatView>
    decreases chat.len(),
{
    if chat.len() == 0 {
        chat
    } else {
        let rest = said_before(chat.drop_last(), op);
        if chat.last().at_op < op {
            rest.push(chat.last())
        } else {
            rest
        }
    }
}

/// `b`, a branch of this name, was forked from another branch that is there and
/// that was there before it; up to the fork the two have the same messages.
pub open spec fn is_fork(room: RoomView, name: Seq<char>, b: BranchView, parent: Seq<char>) -> bool {
    &&& parent != name
    &&& room.branches.contains_key(parent)
    &&& parent == MAIN_BRANCH@ || room.branches[parent].forked_at_op < b.forked_at_op
    &&& said_before(b.chat, b.forked_at_op) == said_before(room.branches[parent].chat, b.forked_at_op)
}

/// A room that a fold can reach: it has `main`; every branch has a name that a
/// branch may have; every branch but `main` was forked from another branch that
/// was there before it, and has the messages of that branch up to the fork;
/// messages carry their places in the log, in order; items lie under their ids;
/// files form a tree.
pub open spec fn is_room(room: RoomView) -> bool {
    &&& room.branches.contains_key(MAIN_BRANCH@)
    &&& forall|name: Seq<char>| #[trigger]
        room.branches.contains_key(name) ==> {
            &&& is_branch_name(name)
            &&& is_branch(room.branches[name], room.ops_applied)
            &&& room.branches[name].forked_from is None <==> name == MAIN_BRANCH@
            &&& (room.branches[name].forked_from matches Some(parent) ==> is_fork(room, name, room.branches[name], parent))
        }
}

proof fn lemma_main_is_branch_name()
    ensures
        is_branch_name(MAIN_BRANCH@),
{
    reveal_strlit("main");
}

/// A room that nothing has happened in is one that a fold can reach.
pub proof fn law_empty_room_is_a_room()
    ensures
        is_room(empty_room()),
{
    lemma_main_is_branch_name();
}

proof fn lemma_later_branch(b: BranchView, ops: u64, later: u64)
    requires
        is_branch(b, ops),
        ops <= later,
    ensures
        is_branch(b, later),
{
    assert forall|i: int| 0 <= i < b.chat.len() implies (#[trigger] b.chat[i]).at_op < later by {}
    assert forall|p: Seq<char>| #[trigger] b.files.contains_key(p) implies (b.files[p] matches FsView::File {
        modified_at_op,
        ..
    } ==> modified_at_op < later) by {}
}

proof fn lemma_write_keeps_tree(b: BranchView, path: Seq<char>, node: FsView)
    requires
        is_tree(b.files),
        normal_form(path) is Some,
    ensures
        is_tree(with_ancestors(b.files, normal_form(path)->0)),
        is_tree(with_ancestors(b.files, normal_form(path)->0).insert(normal_form(path)->0, node)),
{
    let p = normal_form(path)->0;
    law_normal_form_is_normal(path);
    lemma_with_ancestors_is_tree(b.files, p);
    lemma_insert_is_tree(with_ancestors(b.files, p), p, node);
}

/// What an op of the branch does keeps a branch a branch.
pub(crate) proof fn lemma_branch_after_is_branch(b: BranchView, op: OpView, author: Seq<char>, at_op: u64)
    requires
        is_branch(b, at_op),
        at_op < u64::MAX,
    ensures
        is_branch(branch_after(b, op, author, at_op), (at_op + 1) as u64),
{
    let after = branch_after(b, op, author, at_op);
    let ops = (at_op + 1) as u64;
    lemma_later_branch(b, at_op, ops);
    match op {
        OpView::FsWrite { path, content } => {
            if normal_form(path) is Some {
                let p = normal_form(path)->0;
                lemma_write_keeps_tree(b, path, after.files[p]);
                assert forall|k: Seq<char>| #[trigger] after.files.contains_key(k) implies (
                after.files[k] matches FsView::File { modified_at_op, .. } ==> modified_at_op < ops) by {
                    assert(k == p || with_ancestors(b.files, p).contains_key(k));
                    if k != p && b.files.contains_key(k) {
                        assert(after.files[k] == b.files[k]);
                    }
                }
            }
        },
        OpView::FsMkdir { path } => {
            if normal_form(path) is Some {
                let p = normal_form(path)->0;
                lemma_write_keeps_tree(b, path, FsView::Dir);
                assert forall|k: Seq<char>| #[trigger] after.files.contains_key(k) implies (
                after.files[k] matches FsView::File { modified_at_op, .. } ==> modified_at_op < ops) by {
                    if b.files.contains_key(k) {
                        assert(after.files[k] == b.files[k]);
                    }
                }
            }
        },
        OpView::FsRemove { path } => {
            if normal_form(path) is Some {
                lemma_without_is_tree(b.files, normal_form(path)->0);
                assert forall|k: Seq<char>| #[trigger] after.files.contains_key(k) implies (
                after.files[k] matches FsView::File { modified_at_op, .. } ==> modified_at_op < ops) by {
                    assert(b.files.contains_key(k));
                }
            }
        },
        OpView::FsMove { from, to } => {
            if normal_form(from) is Some && normal_form(to) is Some {
                law_normal_form_is_normal(from);
                law_normal_form_is_normal(to);
                lemma_relocated_is_tree(b.files, normal_form(from)->0, normal_form(to)->0);
                assert forall|k: Seq<char>| #[trigger] after.files.contains_key(k) implies (
                after.files[k] matches FsView::File { modified_at_op, .. } ==> modified_at_op < ops) by {
                    assert(b.files.contains_key(k) || b.files.contains_key(
                        crate::path::rebased(k, normal_form(to)->0, normal_form(from)->0),
                    ) || after.files[k] == FsView::Dir);
                }
            }
        },
        _ => {},
    }
}

/// What is posted later leaves what was said before.
proof fn lemma_later_messages(b: BranchView, op: OpView, author: Seq<char>, at_op: u64, before: u64)
    requires
        before <= at_op,
    ensures
        said_before(branch_after(b, op, author, at_op).chat, before) == said_before(b.chat, before),
{
    let after = branch_after(b, op, author, at_op);
    if op is ChatPost {
        assert(after.chat.drop_last() =~= b.chat);
    } else {
        assert(after.chat == b.chat);
    }
}

proof fn lemma_step_keeps_a_fork(room: RoomView, key: Seq<u8>, payload: Seq<u8>, name: Seq<char>)
    requires
        is_room(room),
        room.ops_applied < u64::MAX,
        step(room, key, payload).branches.contains_key(name),
        step(room, key, payload).branches[name].forked_from is Some,
    ensures
        is_fork(
            step(room, key, payload),
            name,
            step(room, key, payload).branches[name],
            step(room, key, payload).branches[name].forked_from->0,
        ),
{
    let after = step(room, key, payload);
    let b = after.branches[name];
    let parent = b.forked_from->0;
    let at_op = room.ops_applied;
    if room.branches.contains_key(name) {
        let old_b = room.branches[name];
        assert(is_branch(old_b, at_op));
        assert(b.forked_from == old_b.forked_from && b.forked_at_op == old_b.forked_at_op);
        assert(is_fork(room, name, old_b, parent));
        if decoded(payload) is Some {
            let env = decoded(payload)->0;
            let author = hex_text(key);
            lemma_later_messages(old_b, env.op, author, at_op, b.forked_at_op);
            lemma_later_messages(room.branches[parent], env.op, author, at_op, b.forked_at_op);
        }
    } else {
        assert(room.branches.contains_key(parent));
        assert(is_branch(room.branches[parent], at_op));
    }
}

/// Every entry, whatever it holds, keeps a room one that a fold can reach.
pub proof fn law_step_keeps_a_room(room: RoomView, key: Seq<u8>, payload: Seq<u8>)
    requires
        is_room(room),
        room.ops_applied < u64::MAX,
    ensures
        is_room(step(room, key, payload)),
{
    let after = step(room, key, payload);
    assert forall|name: Seq<char>| #[trigger] after.branches.contains_key(name) implies {
        &&& is_branch_name(name)
        &&& is_branch(after.branches[name], after.ops_applied)
        &&& after.branches[name].forked_from is None <==> name == MAIN_BRANCH@
        &&& (after.branches[name].forked_from matches Some(parent) ==> is_fork(
            after,
            name,
            after.branches[name],
            parent,
        ))
    } by {
        let at_op = room.ops_applied;
        let ops = (at_op + 1) as u64;
        assert(after.ops_applied == ops);
        if room.branches.contains_key(name) {
            lemma_later_branch(room.branches[name], at_op, ops);
            if decoded(payload) is Some {
                let env = decoded(payload)->0;
                lemma_branch_after_is_branch(room.branches[name], env.op, hex_text(key), at_op);
            }
        } else {
            let env = decoded(payload)->0;
            assert(room.branches.contains_key(env.branch));
            lemma_later_branch(room.branches[env.branch], at_op, ops);
        }
        if after.branches[name].forked_from is Some {
            lemma_step_keeps_a_fork(room, key, payload, name);
        }
    }
}

/// What a branch had said when a fork of it was yet to come, the fork has said
/// too.
pub proof fn law_fork_starts_from_its_parent(room: RoomView, log: Seq<Entry>, parent: Seq<char>, child: Seq<char>)
    requires
        room.branches.contains_key(parent),
        !room.branches.contains_key(child),
        fold(room, log).branches.contains_key(child),
        fold(room, log).branches[child].forked_from == Some(parent),
    ensures
        room.branches[parent].chat.is_prefix_of(fold(room, log).branches[child].chat),
    decreases log.len(),
{
    if log.len() > 0 {
        let before = fold(room, log.drop_last());
        let after = fold(room, log);
        let start = room.branches[parent].chat;
        let last = after.branches[child].chat;
        if before.branches.contains_key(child) {
            law_fork_starts_from_its_parent(room, log.drop_last(), parent, child);
            lemma_chat_grows(before, log.last(), child);
            lemma_prefix_of_prefix(start, before.branches[child].chat, last);
        } else {
            law_chats_only_grow(room, log.drop_last(), parent);
            assert(last == before.branches[parent].chat);
        }
    }
}

/// Every log, whatever it holds, keeps a room one that a fold can reach.
pub proof fn law_log_keeps_a_room(room: RoomView, log: Seq<Entry>)
    requires
        is_room(room),
        room.ops_applied + log.len() <= u64::MAX,
    ensures
        is_room(fold(room, log)),
        fold(room, log).ops_applied == room.ops_applied + log.len(),
    decreases log.len(),
{
    if log.len() > 0 {
        law_log_keeps_a_room(room, log.drop_last());
        law_step_keeps_a_room(fold(room, log.drop_last()), log.last().0, log.last().1);
    }
}

/// Every log that starts from an empty room, whatever it holds, leads to a room
/// with all of these properties.
pub proof fn law_every_log_leads_to_a_room(log: Seq<Entry>)
    requires
        log.len() <= u64::MAX,
    ensures
        is_room(fold(empty_room(), log)),
        fold(empty_room(), log).ops_applied == log.len(),
{
    law_empty_room_is_a_room();
    law_log_keeps_a_room(empty_room(), log);
}

/// After a write the file is there with what was written, and the directories on
/// the way to it are there.
pub proof fn law_write_is_read_back(
    b: BranchView,
    path: Seq<char>,
    content: Seq<char>,
    author: Seq<char>,
    at_op: u64,
)
    requires
        normal_form(path) is Some,
    ensures
        ({
            let after = branch_after(b, OpView::FsWrite { path, content }, author, at_op);
            let p = normal_form(path)->0;
            &&& after.files.contains_key(p)
            &&& after.files[p] == (FsView::File { content, author, modified_at_op: at_op })
            &&& forall|q: Seq<char>| #[trigger] is_ancestor(q, p) ==> after.files.contains_key(q)
            &&& forall|k: Seq<char>| #[trigger]
                b.files.contains_key(k) && k != p ==> after.files.contains_key(k) && after.files[k] == b.files[k]
        }),
{
}

} // verus!
