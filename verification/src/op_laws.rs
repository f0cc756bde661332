//! What each op of the vocabulary is for: what a branch, and the room that it is in,
//! is like after the op.

use vstd::prelude::*;

use crate::envelope::decoded;
use crate::fold::{branch_after, is_branch_name, step};
use crate::keys::hex_text;
use crate::op::OpView;
use crate::path::{at_or_beneath, is_ancestor, normal_form};
use crate::path_laws::{
    law_ancestors_are_what_it_lies_beneath, law_normal_form_is_normal, lemma_beneath_is_ancestor,
};
use crate::state::{BranchView, FsView, RoomView};
use crate::tree::{lands_at, moved, occupied, relocated, with_ancestors, without};
use crate::tree_laws::{is_tree, law_move_carries_the_whole_subtree};

verus! {

// --- chat ----------------------------------------------------------------------------

/// A post is said at the end of the chat, by its author, under the nick that it
/// carries, with its place in the log. What was said before stays, and so does all
/// else.
pub proof fn law_post_is_said_last(
    b: BranchView,
    text: Seq<char>,
    nick: Option<Seq<char>>,
    author: Seq<char>,
    at_op: u64,
)
    ensures
        ({
            let after = branch_after(b, OpView::ChatPost { text, nick }, author, at_op);
            &&& after.chat.len() == b.chat.len() + 1
            &&& forall|i: int| 0 <= i < b.chat.len() ==> #[trigger] after.chat[i] == b.chat[i]
            &&& after.chat[b.chat.len() as int].text == text
            &&& after.chat[b.chat.len() as int].nick == nick
            &&& after.chat[b.chat.len() as int].author == author
            &&& after.chat[b.chat.len() as int].at_op == at_op
            &&& after.todos == b.todos && after.files == b.files
            &&& after.forked_from == b.forked_from && after.forked_at_op == b.forked_at_op
        }),
{
}

/// The same of the room after the entry of the log.
pub proof fn law_post_is_said_last_in_a_room(
    room: RoomView,
    key: Seq<u8>,
    payload: Seq<u8>,
    branch: Seq<char>,
    text: Seq<char>,
    nick: Option<Seq<char>>,
)
    requires
        decoded(payload) matches Some(env) && env.branch == branch && env.op == (OpView::ChatPost { text, nick }),
        room.branches.contains_key(branch),
    ensures
        ({
            let b = room.branches[branch];
            let author = hex_text(key);
            let at_op = room.ops_applied;
            let after = step(room, key, payload).branches[branch];
            &&& after.chat.len() == b.chat.len() + 1
            &&& forall|i: int| 0 <= i < b.chat.len() ==> #[trigger] after.chat[i] == b.chat[i]
            &&& after.chat[b.chat.len() as int].text == text
            &&& after.chat[b.chat.len() as int].nick == nick
            &&& after.chat[b.chat.len() as int].author == author
            &&& after.chat[b.chat.len() as int].at_op == at_op
            &&& after.todos == b.todos && after.files == b.files
            &&& after.forked_from == b.forked_from && after.forked_at_op == b.forked_at_op
        }),
{
    law_post_is_said_last(room.branches[branch], text, nick, hex_text(key), room.ops_applied);
}

// --- todos ---------------------------------------------------------------------------

/// An item that is added under a free id is there, with its title, not done, by its
/// author, with its place in the log; every other item, and all else, stays.
pub proof fn law_added_item_is_open(b: BranchView, id: Seq<char>, title: Seq<char>, author: Seq<char>, at_op: u64)
    requires
        !b.todos.contains_key(id),
    ensures
        ({
            let after = branch_after(b, OpView::TodoAdd { id, title }, author, at_op);
            &&& after.todos.contains_key(id)
            &&& after.todos[id].id == id
            &&& after.todos[id].title == title
            &&& !after.todos[id].done
            &&& after.todos[id].author == author
            &&& after.todos[id].created_at_op == at_op
            &&& after.chat == b.chat && after.files == b.files
            &&& after.forked_from == b.forked_from && after.forked_at_op == b.forked_at_op
            &&& forall|other: Seq<char>| other != id
                ==> (#[trigger] after.todos.contains_key(other) <==> b.todos.contains_key(
                other,
            ))
            &&& forall|other: Seq<char>| other != id && #[trigger]
                b.todos.contains_key(other) ==> after.todos[other] == b.todos[other]
        }),
{
}

/// The same of the room after the entry of the log.
pub proof fn law_added_item_is_open_in_a_room(
    room: RoomView,
    key: Seq<u8>,
    payload: Seq<u8>,
    branch: Seq<char>,
    id: Seq<char>,
    title: Seq<char>,
)
    requires
        decoded(payload) matches Some(env) && env.branch == branch && env.op == (OpView::TodoAdd { id, title }),
        room.branches.contains_key(branch),
        !room.branches[branch].todos.contains_key(id),
    ensures
        ({
            let b = room.branches[branch];
            let author = hex_text(key);
            let at_op = room.ops_applied;
            let after = step(room, key, payload).branches[branch];
            &&& after.todos.contains_key(id)
            &&& after.todos[id].id == id
            &&& after.todos[id].title == title
            &&& !after.todos[id].done
            &&& after.todos[id].author == author
            &&& after.todos[id].created_at_op == at_op
            &&& after.chat == b.chat && after.files == b.files
            &&& after.forked_from == b.forked_from && after.forked_at_op == b.forked_at_op
            &&& forall|other: Seq<char>| other != id
                ==> (#[trigger] after.todos.contains_key(other) <==> b.todos.contains_key(
                other,
            ))
            &&& forall|other: Seq<char>| other != id && #[trigger]
                b.todos.contains_key(other) ==> after.todos[other] == b.todos[other]
        }),
{
    law_added_item_is_open(room.branches[branch], id, title, hex_text(key), room.ops_applied);
}

/// Adding under an id that is taken changes nothing of the branch.
pub proof fn law_taken_id_is_not_added_again(
    b: BranchView,
    id: Seq<char>,
    title: Seq<char>,
    author: Seq<char>,
    at_op: u64,
)
    requires
        b.todos.contains_key(id),
    ensures
        ({
            let after = branch_after(b, OpView::TodoAdd { id, title }, author, at_op);
            after == b
        }),
{
}

/// The same of the room after the entry of the log.
pub proof fn law_taken_id_is_not_added_again_in_a_room(
    room: RoomView,
    key: Seq<u8>,
    payload: Seq<u8>,
    branch: Seq<char>,
    id: Seq<char>,
    title: Seq<char>,
)
    requires
        decoded(payload) matches Some(env) && env.branch == branch && env.op == (OpView::TodoAdd { id, title }),
        room.branches.contains_key(branch),
        room.branches[branch].todos.contains_key(id),
    ensures
        ({
            let b = room.branches[branch];
            let author = hex_text(key);
            let at_op = room.ops_applied;
            let after = step(room, key, payload).branches[branch];
            after == b
        }),
{
    law_taken_id_is_not_added_again(room.branches[branch], id, title, hex_text(key), room.ops_applied);
}

/// After an item was set done or not done, it is as it was set, whatever it was
/// before; its title, author and creation place stay, and so does all else.
pub proof fn law_item_is_ticked_and_unticked(b: BranchView, id: Seq<char>, done: bool, author: Seq<char>, at_op: u64)
    requires
        b.todos.contains_key(id),
    ensures
        ({
            let after = branch_after(b, OpView::TodoSetDone { id, done }, author, at_op);
            &&& after.todos.contains_key(id)
            &&& after.todos[id].done == done
            &&& after.todos[id].id == b.todos[id].id
            &&& after.todos[id].title == b.todos[id].title
            &&& after.todos[id].author == b.todos[id].author
            &&& after.todos[id].created_at_op == b.todos[id].created_at_op
            &&& after.chat == b.chat && after.files == b.files
            &&& after.forked_from == b.forked_from && after.forked_at_op == b.forked_at_op
            &&& forall|other: Seq<char>| other != id
                ==> (#[trigger] after.todos.contains_key(other) <==> b.todos.contains_key(
                other,
            ))
            &&& forall|other: Seq<char>| other != id && #[trigger]
                b.todos.contains_key(other) ==> after.todos[other] == b.todos[other]
        }),
{
}

/// The same of the room after the entry of the log.
pub proof fn law_item_is_ticked_and_unticked_in_a_room(
    room: RoomView,
    key: Seq<u8>,
    payload: Seq<u8>,
    branch: Seq<char>,
    id: Seq<char>,
    done: bool,
)
    requires
        decoded(payload) matches Some(env) && env.branch == branch && env.op == (OpView::TodoSetDone { id, done }),
        room.branches.contains_key(branch),
        room.branches[branch].todos.contains_key(id),
    ensures
        ({
            let b = room.branches[branch];
            let author = hex_text(key);
            let at_op = room.ops_applied;
            let after = step(room, key, payload).branches[branch];
            &&& after.todos.contains_key(id)
            &&& after.todos[id].done == done
            &&& after.todos[id].id == b.todos[id].id
            &&& after.todos[id].title == b.todos[id].title
            &&& after.todos[id].author == b.todos[id].author
            &&& after.todos[id].created_at_op == b.todos[id].created_at_op
            &&& after.chat == b.chat && after.files == b.files
            &&& after.forked_from == b.forked_from && after.forked_at_op == b.forked_at_op
            &&& forall|other: Seq<char>| other != id
                ==> (#[trigger] after.todos.contains_key(other) <==> b.todos.contains_key(
                other,
            ))
            &&& forall|other: Seq<char>| other != id && #[trigger]
                b.todos.contains_key(other) ==> after.todos[other] == b.todos[other]
        }),
{
    law_item_is_ticked_and_unticked(room.branches[branch], id, done, hex_text(key), room.ops_applied);
}

/// After an item was retitled, it has the new title; whether it is done, its author
/// and its creation place stay, and so does all else.
pub proof fn law_item_is_retitled(b: BranchView, id: Seq<char>, title: Seq<char>, author: Seq<char>, at_op: u64)
    requires
        b.todos.contains_key(id),
    ensures
        ({
            let after = branch_after(b, OpView::TodoRetitle { id, title }, author, at_op);
            &&& after.todos.contains_key(id)
            &&& after.todos[id].title == title
            &&& after.todos[id].done == b.todos[id].done
            &&& after.todos[id].id == b.todos[id].id
            &&& after.todos[id].author == b.todos[id].author
            &&& after.todos[id].created_at_op == b.todos[id].created_at_op
            &&& after.chat == b.chat && after.files == b.files
            &&& after.forked_from == b.forked_from && after.forked_at_op == b.forked_at_op
            &&& forall|other: Seq<char>| other != id
                ==> (#[trigger] after.todos.contains_key(other) <==> b.todos.contains_key(
                other,
            ))
            &&& forall|other: Seq<char>| other != id && #[trigger]
                b.todos.contains_key(other) ==> after.todos[other] == b.todos[other]
        }),
{
}

/// The same of the room after the entry of the log.
pub proof fn law_item_is_retitled_in_a_room(
    room: RoomView,
    key: Seq<u8>,
    payload: Seq<u8>,
    branch: Seq<char>,
    id: Seq<char>,
    title: Seq<char>,
)
    requires
        decoded(payload) matches Some(env) && env.branch == branch && env.op == (OpView::TodoRetitle { id, title }),
        room.branches.contains_key(branch),
        room.branches[branch].todos.contains_key(id),
    ensures
        ({
            let b = room.branches[branch];
            let author = hex_text(key);
            let at_op = room.ops_applied;
            let after = step(room, key, payload).branches[branch];
            &&& after.todos.contains_key(id)
            &&& after.todos[id].title == title
            &&& after.todos[id].done == b.todos[id].done
            &&& after.todos[id].id == b.todos[id].id
            &&& after.todos[id].author == b.todos[id].author
            &&& after.todos[id].created_at_op == b.todos[id].created_at_op
            &&& after.chat == b.chat && after.files == b.files
            &&& after.forked_from == b.forked_from && after.forked_at_op == b.forked_at_op
            &&& forall|other: Seq<char>| other != id
                ==> (#[trigger] after.todos.contains_key(other) <==> b.todos.contains_key(
                other,
            ))
            &&& forall|other: Seq<char>| other != id && #[trigger]
                b.todos.contains_key(other) ==> after.todos[other] == b.todos[other]
        }),
{
    law_item_is_retitled(room.branches[branch], id, title, hex_text(key), room.ops_applied);
}

/// After an item was removed, it is not there; every other item, and all else, stays.
pub proof fn law_removed_item_is_gone(b: BranchView, id: Seq<char>, author: Seq<char>, at_op: u64)
    ensures
        ({
            let after = branch_after(b, OpView::TodoRemove { id }, author, at_op);
            &&& !after.todos.contains_key(id)
            &&& after.chat == b.chat && after.files == b.files
            &&& after.forked_from == b.forked_from && after.forked_at_op == b.forked_at_op
            &&& forall|other: Seq<char>| other != id
                ==> (#[trigger] after.todos.contains_key(other) <==> b.todos.contains_key(
                other,
            ))
            &&& forall|other: Seq<char>| other != id && #[trigger]
                b.todos.contains_key(other) ==> after.todos[other] == b.todos[other]
        }),
{
}

/// The same of the room after the entry of the log.
pub proof fn law_removed_item_is_gone_in_a_room(
    room: RoomView,
    key: Seq<u8>,
    payload: Seq<u8>,
    branch: Seq<char>,
    id: Seq<char>,
)
    requires
        decoded(payload) matches Some(env) && env.branch == branch && env.op == (OpView::TodoRemove { id }),
        room.branches.contains_key(branch),
    ensures
        ({
            let b = room.branches[branch];
            let author = hex_text(key);
            let at_op = room.ops_applied;
            let after = step(room, key, payload).branches[branch];
            &&& !after.todos.contains_key(id)
            &&& after.chat == b.chat && after.files == b.files
            &&& after.forked_from == b.forked_from && after.forked_at_op == b.forked_at_op
            &&& forall|other: Seq<char>| other != id
                ==> (#[trigger] after.todos.contains_key(other) <==> b.todos.contains_key(
                other,
            ))
            &&& forall|other: Seq<char>| other != id && #[trigger]
                b.todos.contains_key(other) ==> after.todos[other] == b.todos[other]
        }),
{
    law_removed_item_is_gone(room.branches[branch], id, hex_text(key), room.ops_applied);
}

/// An op on an item that is not there changes nothing of the branch.
pub proof fn law_absent_item_cannot_be_changed(b: BranchView, id: Seq<char>, done: bool, author: Seq<char>, at_op: u64)
    requires
        !b.todos.contains_key(id),
    ensures
        ({
            let after = branch_after(b, OpView::TodoSetDone { id, done }, author, at_op);
            after == b
        }),
{
}

/// The same of the room after the entry of the log.
pub proof fn law_absent_item_cannot_be_changed_in_a_room(
    room: RoomView,
    key: Seq<u8>,
    payload: Seq<u8>,
    branch: Seq<char>,
    id: Seq<char>,
    done: bool,
)
    requires
        decoded(payload) matches Some(env) && env.branch == branch && env.op == (OpView::TodoSetDone { id, done }),
        room.branches.contains_key(branch),
        !room.branches[branch].todos.contains_key(id),
    ensures
        ({
            let b = room.branches[branch];
            let author = hex_text(key);
            let at_op = room.ops_applied;
            let after = step(room, key, payload).branches[branch];
            after == b
        }),
{
    law_absent_item_cannot_be_changed(room.branches[branch], id, done, hex_text(key), room.ops_applied);
}

/// Retitling an item that is not there changes nothing of the branch.
pub proof fn law_absent_item_cannot_be_retitled(
    b: BranchView,
    id: Seq<char>,
    title: Seq<char>,
    author: Seq<char>,
    at_op: u64,
)
    requires
        !b.todos.contains_key(id),
    ensures
        ({
            let after = branch_after(b, OpView::TodoRetitle { id, title }, author, at_op);
            after == b
        }),
{
}

/// The same of the room after the entry of the log.
pub proof fn law_absent_item_cannot_be_retitled_in_a_room(
    room: RoomView,
    key: Seq<u8>,
    payload: Seq<u8>,
    branch: Seq<char>,
    id: Seq<char>,
    title: Seq<char>,
)
    requires
        decoded(payload) matches Some(env) && env.branch == branch && env.op == (OpView::TodoRetitle { id, title }),
        room.branches.contains_key(branch),
        !room.branches[branch].todos.contains_key(id),
    ensures
        ({
            let b = room.branches[branch];
            let author = hex_text(key);
            let at_op = room.ops_applied;
            let after = step(room, key, payload).branches[branch];
            after == b
        }),
{
    law_absent_item_cannot_be_retitled(room.branches[branch], id, title, hex_text(key), room.ops_applied);
}

// --- files ---------------------------------------------------------------------------

/// After a write the file is at its path with what was written, by its author, with
/// its place in the log. The directories on the way to it are there; those that were
/// missing are new, and nothing else is. Every other node, and all else, stays.
pub proof fn law_written_file_is_there(
    b: BranchView,
    path: Seq<char>,
    content: Seq<char>,
    p: Seq<char>,
    author: Seq<char>,
    at_op: u64,
)
    requires
        normal_form(path) == Some(p),
    ensures
        ({
            let after = branch_after(b, OpView::FsWrite { path, content }, author, at_op);
            &&& after.files.contains_key(p)
            &&& after.files[p] matches FsView::File { content: c, author: a, modified_at_op: m } && c == content
                && a == author
                && m == at_op
            &&& forall|q: Seq<char>| #[trigger] is_ancestor(q, p) ==> after.files.contains_key(q)
            &&& forall|k: Seq<char>| k != p && #[trigger]
                b.files.contains_key(k) ==> after.files.contains_key(k) && after.files[k] == b.files[k]
            &&& forall|k: Seq<char>| k != p && #[trigger]
                after.files.contains_key(k) && !b.files.contains_key(k) ==> is_ancestor(k, p) && after.files[k] is Dir
            &&& after.chat == b.chat && after.todos == b.todos
            &&& after.forked_from == b.forked_from && after.forked_at_op == b.forked_at_op
        }),
{
}

/// The same of the room after the entry of the log.
pub proof fn law_written_file_is_there_in_a_room(
    room: RoomView,
    key: Seq<u8>,
    payload: Seq<u8>,
    branch: Seq<char>,
    path: Seq<char>,
    content: Seq<char>,
    p: Seq<char>,
)
    requires
        decoded(payload) matches Some(env) && env.branch == branch && env.op == (OpView::FsWrite { path, content }),
        room.branches.contains_key(branch),
        normal_form(path) == Some(p),
    ensures
        ({
            let b = room.branches[branch];
            let author = hex_text(key);
            let at_op = room.ops_applied;
            let after = step(room, key, payload).branches[branch];
            &&& after.files.contains_key(p)
            &&& after.files[p] matches FsView::File { content: c, author: a, modified_at_op: m } && c == content
                && a == author
                && m == at_op
            &&& forall|q: Seq<char>| #[trigger] is_ancestor(q, p) ==> after.files.contains_key(q)
            &&& forall|k: Seq<char>| k != p && #[trigger]
                b.files.contains_key(k) ==> after.files.contains_key(k) && after.files[k] == b.files[k]
            &&& forall|k: Seq<char>| k != p && #[trigger]
                after.files.contains_key(k) && !b.files.contains_key(k) ==> is_ancestor(k, p) && after.files[k] is Dir
            &&& after.chat == b.chat && after.todos == b.todos
            &&& after.forked_from == b.forked_from && after.forked_at_op == b.forked_at_op
        }),
{
    law_written_file_is_there(room.branches[branch], path, content, p, hex_text(key), room.ops_applied);
}

/// After a directory was made there is a node at its path: a directory, unless one
/// was there before, which stays. The directories on the way to it are there; those
/// that were missing are new, and nothing else is. Every other node, and all else,
/// stays.
pub proof fn law_made_directory_is_there(b: BranchView, path: Seq<char>, p: Seq<char>, author: Seq<char>, at_op: u64)
    requires
        normal_form(path) == Some(p),
    ensures
        ({
            let after = branch_after(b, OpView::FsMkdir { path }, author, at_op);
            &&& after.files.contains_key(p)
            &&& !b.files.contains_key(p) ==> after.files[p] is Dir
            &&& forall|q: Seq<char>| #[trigger] is_ancestor(q, p) ==> after.files.contains_key(q)
            &&& forall|k: Seq<char>| #[trigger]
                b.files.contains_key(k) ==> after.files.contains_key(k) && after.files[k] == b.files[k]
            &&& forall|k: Seq<char>| k != p && #[trigger]
                after.files.contains_key(k) && !b.files.contains_key(k) ==> is_ancestor(k, p) && after.files[k] is Dir
            &&& after.chat == b.chat && after.todos == b.todos
            &&& after.forked_from == b.forked_from && after.forked_at_op == b.forked_at_op
        }),
{
}

/// The same of the room after the entry of the log.
pub proof fn law_made_directory_is_there_in_a_room(
    room: RoomView,
    key: Seq<u8>,
    payload: Seq<u8>,
    branch: Seq<char>,
    path: Seq<char>,
    p: Seq<char>,
)
    requires
        decoded(payload) matches Some(env) && env.branch == branch && env.op == (OpView::FsMkdir { path }),
        room.branches.contains_key(branch),
        normal_form(path) == Some(p),
    ensures
        ({
            let b = room.branches[branch];
            let author = hex_text(key);
            let at_op = room.ops_applied;
            let after = step(room, key, payload).branches[branch];
            &&& after.files.contains_key(p)
            &&& !b.files.contains_key(p) ==> after.files[p] is Dir
            &&& forall|q: Seq<char>| #[trigger] is_ancestor(q, p) ==> after.files.contains_key(q)
            &&& forall|k: Seq<char>| #[trigger]
                b.files.contains_key(k) ==> after.files.contains_key(k) && after.files[k] == b.files[k]
            &&& forall|k: Seq<char>| k != p && #[trigger]
                after.files.contains_key(k) && !b.files.contains_key(k) ==> is_ancestor(k, p) && after.files[k] is Dir
            &&& after.chat == b.chat && after.todos == b.todos
            &&& after.forked_from == b.forked_from && after.forked_at_op == b.forked_at_op
        }),
{
    law_made_directory_is_there(room.branches[branch], path, p, hex_text(key), room.ops_applied);
}

/// After a removal there is nothing at the path or beneath it; every other node, and
/// all else, stays.
pub proof fn law_removed_subtree_is_gone(b: BranchView, path: Seq<char>, p: Seq<char>, author: Seq<char>, at_op: u64)
    requires
        normal_form(path) == Some(p),
    ensures
        ({
            let after = branch_after(b, OpView::FsRemove { path }, author, at_op);
            &&& forall|k: Seq<char>| #[trigger] after.files.contains_key(k) <==> b.files.contains_key(k) && k != p
                && !p.push('/').is_prefix_of(k)
            &&& forall|k: Seq<char>| #[trigger] after.files.contains_key(k) ==> after.files[k] == b.files[k]
            &&& after.chat == b.chat && after.todos == b.todos
            &&& after.forked_from == b.forked_from && after.forked_at_op == b.forked_at_op
        }),
{
}

/// The same of the room after the entry of the log.
pub proof fn law_removed_subtree_is_gone_in_a_room(
    room: RoomView,
    key: Seq<u8>,
    payload: Seq<u8>,
    branch: Seq<char>,
    path: Seq<char>,
    p: Seq<char>,
)
    requires
        decoded(payload) matches Some(env) && env.branch == branch && env.op == (OpView::FsRemove { path }),
        room.branches.contains_key(branch),
        normal_form(path) == Some(p),
    ensures
        ({
            let b = room.branches[branch];
            let author = hex_text(key);
            let at_op = room.ops_applied;
            let after = step(room, key, payload).branches[branch];
            &&& forall|k: Seq<char>| #[trigger] after.files.contains_key(k) <==> b.files.contains_key(k) && k != p
                && !p.push('/').is_prefix_of(k)
            &&& forall|k: Seq<char>| #[trigger] after.files.contains_key(k) ==> after.files[k] == b.files[k]
            &&& after.chat == b.chat && after.todos == b.todos
            &&& after.forked_from == b.forked_from && after.forked_at_op == b.forked_at_op
        }),
{
    law_removed_subtree_is_gone(room.branches[branch], path, p, hex_text(key), room.ops_applied);
}

/// A node, a file or a directory, that is moved to a free path outside itself is at
/// the new path as it was at the old one, and so is everything beneath it. Nothing is
/// at the old path or beneath it. Every other node stays, and what is new besides are
/// directories on the way to the new path.
pub proof fn law_moved_node_is_at_its_new_path(
    b: BranchView,
    from: Seq<char>,
    to: Seq<char>,
    f: Seq<char>,
    t: Seq<char>,
    author: Seq<char>,
    at_op: u64,
)
    requires
        is_tree(b.files),
        normal_form(from) == Some(f),
        normal_form(to) == Some(t),
        b.files.contains_key(f),
        t != f,
        !f.push('/').is_prefix_of(t),
        !b.files.contains_key(t),
    ensures
        ({
            let after = branch_after(b, OpView::FsMove { from, to }, author, at_op);
            &&& after.files.contains_key(t)
            &&& after.files[t] == b.files[f]
            &&& forall|rest: Seq<char>|
                #![trigger b.files.contains_key(f + seq!['/'] + rest)]
                b.files.contains_key(f + seq!['/'] + rest)
                    ==> after.files.contains_key(t + seq!['/'] + rest) && after.files[t
                    + seq!['/'] + rest] == b.files[f + seq!['/'] + rest]
            &&& forall|rest: Seq<char>|
                #![trigger after.files.contains_key(t + seq!['/'] + rest)]
                after.files.contains_key(t + seq!['/'] + rest) ==> b.files.contains_key(f + seq!['/'] + rest)
            &&& forall|k: Seq<char>| #[trigger] after.files.contains_key(k) ==> k != f && !f.push('/').is_prefix_of(k)
            &&& forall|k: Seq<char>| #[trigger]
                b.files.contains_key(k) && k != f && !f.push('/').is_prefix_of(k) ==> after.files.contains_key(k)
                    && after.files[k] == b.files[k]
            &&& forall|q: Seq<char>| #[trigger] is_ancestor(q, t) ==> after.files.contains_key(q)
            &&& forall|k: Seq<char>| #[trigger]
                after.files.contains_key(k) && !b.files.contains_key(k) && k != t && !t.push('/').is_prefix_of(k)
                    ==> is_ancestor(k, t) && after.files[k] is Dir
            &&& after.chat == b.chat && after.todos == b.todos
            &&& after.forked_from == b.forked_from && after.forked_at_op == b.forked_at_op
        }),
{
    lemma_move(b.files, from, to, f, t);
}

/// The same of the room after the entry of the log.
pub proof fn law_moved_node_is_at_its_new_path_in_a_room(
    room: RoomView,
    key: Seq<u8>,
    payload: Seq<u8>,
    branch: Seq<char>,
    from: Seq<char>,
    to: Seq<char>,
    f: Seq<char>,
    t: Seq<char>,
)
    requires
        decoded(payload) matches Some(env) && env.branch == branch && env.op == (OpView::FsMove { from, to }),
        room.branches.contains_key(branch),
        is_tree(room.branches[branch].files),
        normal_form(from) == Some(f),
        normal_form(to) == Some(t),
        room.branches[branch].files.contains_key(f),
        t != f,
        !f.push('/').is_prefix_of(t),
        !room.branches[branch].files.contains_key(t),
    ensures
        ({
            let b = room.branches[branch];
            let author = hex_text(key);
            let at_op = room.ops_applied;
            let after = step(room, key, payload).branches[branch];
            &&& after.files.contains_key(t)
            &&& after.files[t] == b.files[f]
            &&& forall|rest: Seq<char>|
                #![trigger b.files.contains_key(f + seq!['/'] + rest)]
                b.files.contains_key(f + seq!['/'] + rest)
                    ==> after.files.contains_key(t + seq!['/'] + rest) && after.files[t
                    + seq!['/'] + rest] == b.files[f + seq!['/'] + rest]
            &&& forall|rest: Seq<char>|
                #![trigger after.files.contains_key(t + seq!['/'] + rest)]
                after.files.contains_key(t + seq!['/'] + rest) ==> b.files.contains_key(f + seq!['/'] + rest)
            &&& forall|k: Seq<char>| #[trigger] after.files.contains_key(k) ==> k != f && !f.push('/').is_prefix_of(k)
            &&& forall|k: Seq<char>| #[trigger]
                b.files.contains_key(k) && k != f && !f.push('/').is_prefix_of(k) ==> after.files.contains_key(k)
                    && after.files[k] == b.files[k]
            &&& forall|q: Seq<char>| #[trigger] is_ancestor(q, t) ==> after.files.contains_key(q)
            &&& forall|k: Seq<char>| #[trigger]
                after.files.contains_key(k) && !b.files.contains_key(k) && k != t && !t.push('/').is_prefix_of(k)
                    ==> is_ancestor(k, t) && after.files[k] is Dir
            &&& after.chat == b.chat && after.todos == b.todos
            &&& after.forked_from == b.forked_from && after.forked_at_op == b.forked_at_op
        }),
{
    law_moved_node_is_at_its_new_path(room.branches[branch], from, to, f, t, hex_text(key), room.ops_applied);
}

/// A move from where nothing is, onto itself, beneath itself or onto a node that is
/// there changes nothing of the branch.
pub proof fn law_refused_move_changes_nothing_of_the_branch(
    b: BranchView,
    from: Seq<char>,
    to: Seq<char>,
    f: Seq<char>,
    t: Seq<char>,
    author: Seq<char>,
    at_op: u64,
)
    requires
        normal_form(from) == Some(f),
        normal_form(to) == Some(t),
        t == f || f.push('/').is_prefix_of(t) || b.files.contains_key(t) || forall|k: Seq<char>| #[trigger]
            b.files.contains_key(k) ==> k != f && !f.push('/').is_prefix_of(k),
    ensures
        ({
            let after = branch_after(b, OpView::FsMove { from, to }, author, at_op);
            after == b
        }),
{
}

/// The same of the room after the entry of the log.
pub proof fn law_refused_move_changes_nothing_of_the_branch_in_a_room(
    room: RoomView,
    key: Seq<u8>,
    payload: Seq<u8>,
    branch: Seq<char>,
    from: Seq<char>,
    to: Seq<char>,
    f: Seq<char>,
    t: Seq<char>,
)
    requires
        decoded(payload) matches Some(env) && env.branch == branch && env.op == (OpView::FsMove { from, to }),
        room.branches.contains_key(branch),
        normal_form(from) == Some(f),
        normal_form(to) == Some(t),
        t == f || f.push('/').is_prefix_of(t) || room.branches[branch].files.contains_key(t) || forall|k: Seq<char>|
            #[trigger] room.branches[branch].files.contains_key(k) ==> k != f && !f.push('/').is_prefix_of(k),
    ensures
        ({
            let b = room.branches[branch];
            let author = hex_text(key);
            let at_op = room.ops_applied;
            let after = step(room, key, payload).branches[branch];
            after == b
        }),
{
    law_refused_move_changes_nothing_of_the_branch(room.branches[branch], from, to, f, t, hex_text(key),
        room.ops_applied);
}

/// An op on files at a path that has no normalized form changes nothing of the branch.
pub proof fn law_bad_path_changes_nothing(
    b: BranchView,
    path: Seq<char>,
    good: Seq<char>,
    content: Seq<char>,
    author: Seq<char>,
    at_op: u64,
)
    requires
        normal_form(path) is None,
    ensures
        branch_after(b, OpView::FsWrite { path, content }, author, at_op) == b,
        branch_after(b, OpView::FsMkdir { path }, author, at_op) == b,
        branch_after(b, OpView::FsRemove { path }, author, at_op) == b,
        branch_after(b, OpView::FsMove { from: path, to: good }, author, at_op) == b,
        branch_after(b, OpView::FsMove { from: good, to: path }, author, at_op) == b,
{
}

proof fn lemma_move(files: Map<Seq<char>, FsView>, from: Seq<char>, to: Seq<char>, f: Seq<char>, t: Seq<char>)
    requires
        is_tree(files),
        normal_form(from) == Some(f),
        normal_form(to) == Some(t),
        files.contains_key(f),
        !at_or_beneath(t, f),
        !files.contains_key(t),
    ensures
        ({
            let after = moved(files, f, t);
            &&& after.contains_key(t)
            &&& after[t] == files[f]
            &&& forall|rest: Seq<char>|
                #![trigger files.contains_key(f + seq!['/'] + rest)]
                files.contains_key(f + seq!['/'] + rest) ==> after.contains_key(t + seq!['/'] + rest) && after[t
                    + seq!['/'] + rest] == files[f + seq!['/'] + rest]
            &&& forall|rest: Seq<char>|
                #![trigger after.contains_key(t + seq!['/'] + rest)]
                after.contains_key(t + seq!['/'] + rest) ==> files.contains_key(f + seq!['/'] + rest)
            &&& forall|k: Seq<char>| #[trigger] after.contains_key(k) ==> !at_or_beneath(k, f)
            &&& forall|k: Seq<char>| #[trigger]
                files.contains_key(k) && !at_or_beneath(k, f) ==> after.contains_key(k) && after[k] == files[k]
            &&& forall|q: Seq<char>| #[trigger] is_ancestor(q, t) ==> after.contains_key(q)
            &&& forall|k: Seq<char>| #[trigger]
                after.contains_key(k) && !files.contains_key(k) && !at_or_beneath(k, t) ==> is_ancestor(k, t)
                    && after[k] is Dir
        }),
{
    let after = moved(files, f, t);
    law_normal_form_is_normal(from);
    law_normal_form_is_normal(to);
    assert(files.contains_key(f) && at_or_beneath(f, f));
    assert(occupied(files, f));
    law_move_carries_the_whole_subtree(files, f, t);
    assert(crate::path::rebased(f, f, t) =~= t);
    assert forall|rest: Seq<char>|
        #![trigger files.contains_key(f + seq!['/'] + rest)]
        files.contains_key(f + seq!['/'] + rest) implies after.contains_key(t + seq!['/'] + rest) && after[t
        + seq!['/'] + rest] == files[f + seq!['/'] + rest] by {
        let k = f + seq!['/'] + rest;
        assert(f.push('/') =~= k.subrange(0, f.len() + 1int));
        assert(at_or_beneath(k, f));
        assert(crate::path::rebased(k, f, t) =~= t + seq!['/'] + rest);
    }
    assert forall|rest: Seq<char>|
        #![trigger after.contains_key(t + seq!['/'] + rest)]
        after.contains_key(t + seq!['/'] + rest) implies files.contains_key(f + seq!['/'] + rest) by {
        let k = t + seq!['/'] + rest;
        assert(t.push('/') =~= k.subrange(0, t.len() + 1int));
        assert(at_or_beneath(k, t) && k != t);
        if files.contains_key(k) {
            lemma_beneath_is_ancestor(k, t);
        }
        law_ancestors_are_what_it_lies_beneath(k, t);
        assert(!is_ancestor(k, t));
        assert(crate::path::rebased(k, t, f) =~= f + seq!['/'] + rest);
    }
    assert forall|k: Seq<char>| #[trigger] after.contains_key(k) implies !at_or_beneath(k, f) by {
        if at_or_beneath(k, f) {
            assert(occupied(after, f));
        }
    }
    assert(after == relocated(files, f, t));
    assert forall|q: Seq<char>| #[trigger] is_ancestor(q, t) implies after.contains_key(q) by {
        assert(with_ancestors(without(files, f), t).contains_key(q) || lands_at(files, f, t, q));
    }
}

// --- the room ------------------------------------------------------------------------

/// An op of a branch, one that is none of the room's, leaves the title, the app, the
/// nicks and every other branch of the room, and makes no branch.
pub proof fn law_branch_op_leaves_the_room_alone(room: RoomView, key: Seq<u8>, payload: Seq<u8>, branch: Seq<char>)
    requires
        decoded(payload) matches Some(env) && env.branch == branch && match env.op {
            OpView::SetTitle { .. } | OpView::SetApp { .. } | OpView::ChatSetNick { .. } | OpView::BranchCreate {
                ..
            } => false,
            _ => true,
        },
    ensures
        ({
            let after = step(room, key, payload);
            &&& after.title == room.title && after.app == room.app && after.nicks == room.nicks
            &&& forall|name: Seq<char>| #[trigger]
                after.branches.contains_key(name) <==> room.branches.contains_key(name)
            &&& forall|name: Seq<char>| name != branch && #[trigger]
                room.branches.contains_key(name) ==> after.branches[name] == room.branches[name]
        }),
{
}

/// A title that was set is the title of the room; all else stays.
pub proof fn law_title_is_set(room: RoomView, key: Seq<u8>, payload: Seq<u8>, title: Seq<char>)
    requires
        decoded(payload) matches Some(env) && env.op == (OpView::SetTitle { title }),
    ensures
        ({
            let after = step(room, key, payload);
            &&& after.title == Some(title)
            &&& after.app == room.app && after.nicks == room.nicks && after.branches == room.branches
        }),
{
}

/// An app that was set is the app of the room; all else stays.
pub proof fn law_app_is_set(room: RoomView, key: Seq<u8>, payload: Seq<u8>, app: Seq<char>)
    requires
        decoded(payload) matches Some(env) && env.op == (OpView::SetApp { app }),
    ensures
        ({
            let after = step(room, key, payload);
            &&& after.app == Some(app)
            &&& after.title == room.title && after.nicks == room.nicks && after.branches == room.branches
        }),
{
}

/// A nick that was set is the nick of the writer, in the whole room; all else stays.
pub proof fn law_nick_is_set(room: RoomView, key: Seq<u8>, payload: Seq<u8>, nick: Seq<char>)
    requires
        decoded(payload) matches Some(env) && env.op == (OpView::ChatSetNick { nick }),
    ensures
        ({
            let after = step(room, key, payload);
            let writer = hex_text(key);
            &&& after.nicks.contains_key(writer) && after.nicks[writer] == nick
            &&& forall|other: Seq<char>| other != writer ==> (#[trigger] after.nicks.contains_key(other)
                <==> room.nicks.contains_key(other))
            &&& forall|other: Seq<char>| other != writer && #[trigger]
                room.nicks.contains_key(other) ==> after.nicks[other] == room.nicks[other]
            &&& after.title == room.title && after.app == room.app && after.branches == room.branches
        }),
{
}

/// A fork under a free name that a branch may have makes that branch, with all that
/// the branch it was forked from has; all else stays.
pub proof fn law_fork_makes_one_branch(
    room: RoomView,
    key: Seq<u8>,
    payload: Seq<u8>,
    parent: Seq<char>,
    name: Seq<char>,
)
    requires
        decoded(payload) matches Some(env) && env.branch == parent && env.op == (OpView::BranchCreate { name }),
        room.branches.contains_key(parent),
        !room.branches.contains_key(name),
        is_branch_name(name),
    ensures
        ({
            let after = step(room, key, payload);
            &&& after.branches.contains_key(name)
            &&& after.branches[name].chat == room.branches[parent].chat
            &&& after.branches[name].todos == room.branches[parent].todos
            &&& after.branches[name].files == room.branches[parent].files
            &&& after.branches[name].forked_from == Some(parent)
            &&& after.branches[name].forked_at_op == room.ops_applied
            &&& forall|other: Seq<char>| other != name ==> (#[trigger] after.branches.contains_key(other)
                <==> room.branches.contains_key(other))
            &&& forall|other: Seq<char>| #[trigger]
                room.branches.contains_key(other) ==> after.branches[other] == room.branches[other]
            &&& after.title == room.title && after.app == room.app && after.nicks == room.nicks
        }),
{
}

/// Every entry is counted once, whatever it holds.
pub proof fn law_step_counts_one(room: RoomView, key: Seq<u8>, payload: Seq<u8>)
    requires
        room.ops_applied < u64::MAX,
    ensures
        step(room, key, payload).ops_applied == room.ops_applied + 1,
{
}

/// The version that an entry was written under makes no difference.
pub proof fn law_versions_fold_alike(room: RoomView, key: Seq<u8>, payload: Seq<u8>, other: Seq<u8>)
    requires
        decoded(payload) matches Some(env) && decoded(other) matches Some(env2) && env.branch == env2.branch && env.op
            == env2.op,
    ensures
        step(room, key, payload) == step(room, key, other),
{
}

// --- names of branches ---------------------------------------------------------------

/// One character is the name of a branch if and only if it is a letter, a digit, `_`
/// or `-` of this list.
pub proof fn law_branch_alphabet(c: char)
    ensures
        is_branch_name(seq![c]) <==> "abcdefghijklmnopqrstuvwxyzABCDEFGHIJKLMNOPQRSTUVWXYZ0123456789_-"@.contains(c),
{
    reveal_strlit("abcdefghijklmnopqrstuvwxyzABCDEFGHIJKLMNOPQRSTUVWXYZ0123456789_-");
    let all = "abcdefghijklmnopqrstuvwxyzABCDEFGHIJKLMNOPQRSTUVWXYZ0123456789_-"@;
    assert(seq![c][0] == c);
    let n = c as int;
    if 'a' <= c && c <= 'z' {
        assert(all[n - 97] == c);
    } else if 'A' <= c && c <= 'Z' {
        assert(all[n - 65 + 26] == c);
    } else if '0' <= c && c <= '9' {
        assert(all[n - 48 + 52] == c);
    } else if c == '_' {
        assert(all[62] == c);
    } else if c == '-' {
        assert(all[63] == c);
    }
}

/// Two texts put together name a branch if and only if each could and they are not
/// more than 64 characters; no characters name none.
pub proof fn law_branch_names_are_made_of_characters(a: Seq<char>, b: Seq<char>)
    requires
        a.len() > 0,
        b.len() > 0,
    ensures
        is_branch_name(a + b) <==> is_branch_name(a) && is_branch_name(b) && a.len() + b.len() <= 64,
        !is_branch_name(Seq::empty()),
{
    let all = a + b;
    if is_branch_name(all) {
        assert forall|i: int| 0 <= i < a.len() implies crate::fold::is_branch_char(#[trigger] a[i]) by {
            assert(all[i] == a[i]);
        }
        assert forall|i: int| 0 <= i < b.len() implies crate::fold::is_branch_char(#[trigger] b[i]) by {
            assert(all[a.len() + i] == b[i]);
        }
    }
}

} // verus!
