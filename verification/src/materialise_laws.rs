//! What the writes of the materialiser come to: the database holds what the
//! branch holds.

use vstd::prelude::*;

use crate::engine::JobView;
use crate::fold_laws::{
    fold, is_branch, is_fork, is_room, law_fork_starts_from_its_parent, law_log_keeps_a_room, Entry,
};
use crate::keys::{hex_text, law_hex_tells_bytes_apart};
use crate::materialise::{
    changed, chat_doc, chat_id, chat_writes, forked_before, fs_deletes, fs_doc, fs_id, fs_writes, gone, in_common,
    known_after, last_header, lemma_in_common, lists_new, may_hold, meta_doc, next_plan, parent_of, plan_for,
    todo_deletes, todo_doc, todo_id, todo_writes, with_fork, with_written, ChatDocView, FsDocView, MaterialiserView,
    MetaDocView, PlanView, TodoDocView,
};
use crate::op::MAIN_BRANCH;
use crate::state::{empty_branch, BranchView, RoomView};
use crate::text::{decimal, utf8};
use crate::text_map::{lists_keys, sorted_keys};

verus! {

/// The documents that a branch of a database holds, each kind by its ids.
pub struct Documents {
    pub meta: Option<MetaDocView>,
    pub chat: Map<Seq<char>, ChatDocView>,
    pub todos: Map<Seq<char>, TodoDocView>,
    pub files: Map<Seq<char>, FsDocView>,
}

/// A branch of a database that nothing was written to.
pub open spec fn no_documents() -> Documents {
    Documents { meta: None, chat: Map::empty(), todos: Map::empty(), files: Map::empty() }
}

/// After documents were saved, in turn.
pub open spec fn saved<D>(docs: Map<Seq<char>, D>, ids: Seq<Seq<char>>, writes: Seq<D>) -> Map<Seq<char>, D>
    decreases writes.len(),
{
    if writes.len() == 0 {
        docs
    } else {
        let n = writes.len() - 1;
        saved(docs, ids, writes.drop_last()).insert(ids[n], writes[n])
    }
}

/// After documents were deleted.
pub open spec fn deleted<D>(docs: Map<Seq<char>, D>, ids: Seq<Seq<char>>) -> Map<Seq<char>, D> {
    docs.remove_keys(ids.to_set())
}

/// After the writes of a plan.
pub open spec fn written(db: Documents, plan: PlanView) -> Documents {
    Documents {
        meta: Some(plan.meta),
        chat: saved(db.chat, plan.chat.map_values(|d: ChatDocView| d.id), plan.chat),
        todos: deleted(saved(db.todos, plan.todos.map_values(|d: TodoDocView| d.id), plan.todos), plan.gone_todos),
        files: deleted(saved(db.files, plan.files.map_values(|d: FsDocView| d.id), plan.files), plan.gone_files),
    }
}

/// The database holds a document for every message, item and node of the branch.
pub open spec fn lands(db: Documents, b: BranchView) -> bool {
    &&& forall|i: int|
        0 <= i < b.chat.len() ==> db.chat.contains_key(chat_id((#[trigger] b.chat[i]).at_op)) && db.chat[chat_id(
            b.chat[i].at_op,
        )] == chat_doc(b.chat[i])
    &&& forall|k: Seq<char>| #[trigger]
        b.todos.contains_key(k) ==> db.todos.contains_key(todo_id(k)) && db.todos[todo_id(k)] == todo_doc(
            k,
            b.todos[k],
        )
    &&& forall|k: Seq<char>| #[trigger]
        b.files.contains_key(k) ==> db.files.contains_key(fs_id(k)) && db.files[fs_id(k)] == fs_doc(k, b.files[k])
}

/// The database holds documents of no item and no node but those of the branch.
pub open spec fn no_other_nodes(db: Documents, b: BranchView) -> bool {
    &&& forall|id: Seq<char>| #[trigger]
        db.todos.contains_key(id) ==> exists|k: Seq<char>| #[trigger] b.todos.contains_key(k) && id == todo_id(k)
    &&& forall|id: Seq<char>| #[trigger]
        db.files.contains_key(id) ==> exists|k: Seq<char>| #[trigger] b.files.contains_key(k) && id == fs_id(k)
}

/// The database holds documents of messages at no places in the log but those of
/// the messages of the branch.
pub open spec fn no_other_messages(db: Documents, b: BranchView) -> bool {
    forall|id: Seq<char>| #[trigger]
        db.chat.contains_key(id) ==> exists|i: int| 0 <= i < b.chat.len() && id == chat_id((#[trigger] b.chat[i]).at_op)
}

/// The database holds a document for every message, item and node of the branch,
/// and no other.
pub open spec fn mirrors(db: Documents, b: BranchView) -> bool {
    lands(db, b) && no_other_nodes(db, b) && no_other_messages(db, b)
}

// --- ids -----------------------------------------------------------------------------

proof fn lemma_after_prefix(prefix: Seq<char>, a: Seq<char>, b: Seq<char>)
    requires
        prefix + a == prefix + b,
    ensures
        a == b,
{
    let n = prefix.len() as int;
    assert((prefix + a).skip(n) =~= a);
    assert((prefix + b).skip(n) =~= b);
}

proof fn lemma_utf8_tells_apart(a: Seq<char>, b: Seq<char>)
    requires
        utf8(a) == utf8(b),
    ensures
        a == b,
{
    vstd::utf8::encode_utf8_decode_utf8(a);
    vstd::utf8::encode_utf8_decode_utf8(b);
}

proof fn lemma_decimal_shape(n: nat)
    ensures
        decimal(n).len() >= 1,
        n < 10 <==> decimal(n).len() == 1,
    decreases n,
{
    if n >= 10 {
        lemma_decimal_shape(n / 10);
    }
}

/// Different numbers have different decimal forms.
pub proof fn law_decimal_tells_numbers_apart(a: nat, b: nat)
    requires
        decimal(a) == decimal(b),
    ensures
        a == b,
    decreases a,
{
    lemma_decimal_shape(a);
    lemma_decimal_shape(b);
    let x = decimal(a);
    let y = decimal(b);
    if a < 10 {
        assert(b < 10);
        assert(x =~= seq![('0' as int + a) as char]);
        assert(y =~= seq![('0' as int + b) as char]);
        assert(x[0] == y[0]);
        assert(x[0] as int == '0' as int + a && y[0] as int == '0' as int + b);
    } else {
        assert(b >= 10);
        assert(x.drop_last() =~= decimal(a / 10));
        assert(y.drop_last() =~= decimal(b / 10));
        law_decimal_tells_numbers_apart(a / 10, b / 10);
        assert(x.last() == y.last());
        assert(x.last() as int == '0' as int + a % 10 && y.last() as int == '0' as int + b % 10);
        assert(a % 10 == b % 10);
        assert(a == 10 * (a / 10) + a % 10 && b == 10 * (b / 10) + b % 10);
    }
}

/// Different messages, items and nodes have different ids.
pub proof fn law_ids_tell_apart(a: Seq<char>, b: Seq<char>, m: u64, n: u64)
    ensures
        todo_id(a) == todo_id(b) ==> a == b,
        fs_id(a) == fs_id(b) ==> a == b,
        chat_id(m) == chat_id(n) ==> m == n,
{
    if todo_id(a) == todo_id(b) {
        lemma_after_prefix("todo_"@, hex_text(utf8(a)), hex_text(utf8(b)));
        law_hex_tells_bytes_apart(utf8(a), utf8(b));
        lemma_utf8_tells_apart(a, b);
    }
    if fs_id(a) == fs_id(b) {
        lemma_after_prefix("fs_"@, hex_text(utf8(a)), hex_text(utf8(b)));
        law_hex_tells_bytes_apart(utf8(a), utf8(b));
        lemma_utf8_tells_apart(a, b);
    }
    if chat_id(m) == chat_id(n) {
        lemma_after_prefix("chat_"@, decimal(m as nat), decimal(n as nat));
        law_decimal_tells_numbers_apart(m as nat, n as nat);
    }
}

// --- saves and deletes ---------------------------------------------------------------

proof fn lemma_saved<D>(docs: Map<Seq<char>, D>, ids: Seq<Seq<char>>, writes: Seq<D>)
    requires
        ids.len() == writes.len(),
        forall|i: int, j: int| 0 <= i < j < ids.len() ==> #[trigger] ids[i] != #[trigger] ids[j],
    ensures
        forall|id: Seq<char>| #[trigger]
            saved(docs, ids, writes).contains_key(id) <==> docs.contains_key(id) || ids.contains(id),
        forall|i: int| 0 <= i < ids.len() ==> saved(docs, ids, writes)[#[trigger] ids[i]] == writes[i],
        forall|id: Seq<char>|
            !ids.contains(id) ==> #[trigger] saved(docs, ids, writes)[id] == docs[id],
{
    lemma_saved_upto(docs, ids, writes, writes.len() as int);
    assert(writes.take(writes.len() as int) =~= writes);
    let all = saved(docs, ids, writes);
    assert forall|id: Seq<char>| #[trigger] all.contains_key(id) <==> docs.contains_key(id) || ids.contains(id) by {
        if ids.contains(id) {
            let i = choose|i: int| 0 <= i < ids.len() && ids[i] == id;
        }
    }
}

proof fn lemma_saved_upto<D>(docs: Map<Seq<char>, D>, ids: Seq<Seq<char>>, writes: Seq<D>, n: int)
    requires
        ids.len() == writes.len(),
        0 <= n <= writes.len(),
        forall|i: int, j: int| 0 <= i < j < ids.len() ==> #[trigger] ids[i] != #[trigger] ids[j],
    ensures
        forall|id: Seq<char>| #[trigger]
            saved(docs, ids, writes.take(n)).contains_key(id) <==> docs.contains_key(id) || exists|i: int|
                0 <= i < n && #[trigger] ids[i] == id,
        forall|i: int| 0 <= i < n ==> saved(docs, ids, writes.take(n))[#[trigger] ids[i]] == writes[i],
        forall|id: Seq<char>|
            (forall|i: int| 0 <= i < n ==> #[trigger] ids[i] != id) ==> #[trigger] saved(docs, ids, writes.take(n))[id]
                == docs[id],
    decreases n,
{
    if n > 0 {
        lemma_saved_upto(docs, ids, writes, n - 1);
        let w = writes.take(n);
        assert(w.drop_last() =~= writes.take(n - 1));
        let before = saved(docs, ids, writes.take(n - 1));
        let after = saved(docs, ids, w);
        assert(after == before.insert(ids[n - 1], writes[n - 1]));
        assert forall|id: Seq<char>| #[trigger] after.contains_key(id) <==> docs.contains_key(id) || exists|i: int|
            0 <= i < n && #[trigger] ids[i] == id by {
            if exists|i: int| 0 <= i < n && #[trigger] ids[i] == id {
                let i = choose|i: int| 0 <= i < n && #[trigger] ids[i] == id;
                if i < n - 1 {
                    assert(before.contains_key(id));
                }
            }
            if after.contains_key(id) && id != ids[n - 1] {
                assert(before.contains_key(id));
            }
            if id == ids[n - 1] {
                assert(ids[n - 1] == id);
            }
        }
        assert forall|i: int| 0 <= i < n implies after[#[trigger] ids[i]] == writes[i] by {
            if i < n - 1 {
                assert(ids[i] != ids[n - 1]);
                assert(before[ids[i]] == writes[i]);
            }
        }
        assert forall|id: Seq<char>| (forall|i: int| 0 <= i < n ==> #[trigger] ids[i] != id) implies #[trigger] after[id]
            == docs[id] by {
            assert(ids[n - 1] != id);
            assert(before[id] == docs[id]);
        }
    } else {
        assert(saved(docs, ids, writes.take(0)) == docs);
    }
}

pub(crate) proof fn lemma_changed<W>(keys: Seq<Seq<char>>, prev: Map<Seq<char>, W>, next: Map<Seq<char>, W>)
    requires
        forall|i: int, j: int| 0 <= i < j < keys.len() ==> #[trigger] keys[i] != #[trigger] keys[j],
    ensures
        forall|k: Seq<char>| #[trigger]
            changed(keys, prev, next).contains(k) <==> keys.contains(k) && !(prev.contains_key(k) && prev[k] == next[k]),
        forall|i: int, j: int|
            0 <= i < j < changed(keys, prev, next).len() ==> #[trigger] changed(keys, prev, next)[i]
                != #[trigger] changed(keys, prev, next)[j],
    decreases keys.len(),
{
    if keys.len() > 0 {
        let init = keys.drop_last();
        let last = keys.last();
        assert forall|i: int, j: int| 0 <= i < j < init.len() implies #[trigger] init[i] != #[trigger] init[j] by {
            assert(keys[i] != keys[j]);
        }
        lemma_changed(init, prev, next);
        let rest = changed(init, prev, next);
        let all = changed(keys, prev, next);
        assert(!init.contains(last)) by {
            if init.contains(last) {
                let i = choose|i: int| 0 <= i < init.len() && init[i] == last;
                assert(keys[i] != keys[keys.len() - 1]);
            }
        }
        assert forall|k: Seq<char>| keys.contains(k) <==> init.contains(k) || k == last by {
            if keys.contains(k) {
                let i = choose|i: int| 0 <= i < keys.len() && keys[i] == k;
                if i < init.len() {
                    assert(init[i] == k);
                }
            }
            if init.contains(k) {
                let i = choose|i: int| 0 <= i < init.len() && init[i] == k;
                assert(keys[i] == k);
            }
            assert(keys[keys.len() - 1] == last);
        }
        lemma_contains_after_push(rest, last);
        assert(!rest.contains(last));
        assert forall|i: int, j: int| 0 <= i < j < all.len() implies #[trigger] all[i] != #[trigger] all[j] by {
            if j == rest.len() {
                assert(rest.contains(rest[i]));
            }
        }
    }
}

proof fn lemma_contains_after_push(s: Seq<Seq<char>>, x: Seq<char>)
    ensures
        forall|k: Seq<char>| #[trigger] s.push(x).contains(k) <==> s.contains(k) || k == x,
{
    assert forall|k: Seq<char>| #[trigger] s.push(x).contains(k) <==> s.contains(k) || k == x by {
        if s.contains(k) {
            let i = choose|i: int| 0 <= i < s.len() && s[i] == k;
            assert(s.push(x)[i] == k);
        }
        assert(s.push(x)[s.len() as int] == x);
    }
}

pub(crate) proof fn lemma_gone<W>(keys: Seq<Seq<char>>, next: Map<Seq<char>, W>)
    ensures
        forall|k: Seq<char>| #[trigger] gone(keys, next).contains(k) <==> keys.contains(k) && !next.contains_key(k),
    decreases keys.len(),
{
    if keys.len() > 0 {
        let init = keys.drop_last();
        lemma_gone(init, next);
        lemma_contains_after_push(init, keys.last());
        lemma_contains_after_push(gone(init, next), keys.last());
        assert(init.push(keys.last()) =~= keys);
    }
}

pub(crate) proof fn lemma_sorted_keys_apart<W>(m: Map<Seq<char>, W>)
    requires
        exists|keys: Seq<Seq<char>>| lists_keys(keys, m),
    ensures
        lists_keys(sorted_keys(m), m),
        forall|i: int, j: int|
            0 <= i < j < sorted_keys(m).len() ==> #[trigger] sorted_keys(m)[i] != #[trigger] sorted_keys(m)[j],
{
    let keys = sorted_keys(m);
    assert forall|i: int, j: int| 0 <= i < j < keys.len() implies #[trigger] keys[i] != #[trigger] keys[j] by {
        crate::text::lemma_text_lt_total(keys[i], keys[j]);
    }
}

// --- the laws ------------------------------------------------------------------------

proof fn lemma_todos_written(db: Documents, known: BranchView, left: BranchView, next: BranchView)
    requires
        can_be_listed(left.todos),
        can_be_listed(next.todos),
    ensures
        ({
            let writes = todo_writes(known, next);
            let after = deleted(
                saved(db.todos, writes.map_values(|d: TodoDocView| d.id), writes),
                todo_deletes(left, next),
            );
            &&& lands(db, known) ==> forall|k: Seq<char>| #[trigger]
                next.todos.contains_key(k) ==> after.contains_key(todo_id(k)) && after[todo_id(k)] == todo_doc(
                    k,
                    next.todos[k],
                )
            &&& no_other_nodes(db, left) ==> forall|id: Seq<char>| #[trigger]
                after.contains_key(id) ==> exists|k: Seq<char>| #[trigger]
                    next.todos.contains_key(k) && id == todo_id(k)
        }),
{
    let old_keys = sorted_keys(left.todos);
    let keys = sorted_keys(next.todos);
    lemma_sorted_keys_apart(left.todos);
    lemma_sorted_keys_apart(next.todos);
    let picked = changed(keys, known.todos, next.todos);
    lemma_changed(keys, known.todos, next.todos);
    let removed = gone(old_keys, next.todos);
    lemma_gone(old_keys, next.todos);
    let writes = todo_writes(known, next);
    let ids = writes.map_values(|d: TodoDocView| d.id);
    assert forall|i: int, j: int| 0 <= i < j < ids.len() implies #[trigger] ids[i] != #[trigger] ids[j] by {
        assert(picked[i] != picked[j]);
        law_ids_tell_apart(picked[i], picked[j], 0, 0);
    }
    lemma_saved(db.todos, ids, writes);
    let mid = saved(db.todos, ids, writes);
    let dropped = todo_deletes(left, next);
    let after = deleted(mid, dropped);
    assert forall|id: Seq<char>| dropped.to_set().contains(id) <==> exists|k: Seq<char>| #[trigger]
        removed.contains(k) && id == todo_id(k) by {
        if dropped.contains(id) {
            let i = choose|i: int| 0 <= i < dropped.len() && dropped[i] == id;
            assert(removed.contains(removed[i]));
            assert(id == todo_id(removed[i]));
        }
        if exists|k: Seq<char>| #[trigger] removed.contains(k) && id == todo_id(k) {
            let k = choose|k: Seq<char>| #[trigger] removed.contains(k) && id == todo_id(k);
            let i = choose|i: int| 0 <= i < removed.len() && removed[i] == k;
            assert(dropped[i] == id);
        }
    }
    if lands(db, known) {
        assert forall|k: Seq<char>| #[trigger] next.todos.contains_key(k) implies after.contains_key(todo_id(k))
            && after[todo_id(k)] == todo_doc(k, next.todos[k]) by {
            let id = todo_id(k);
            assert(keys.contains(k));
            assert(!dropped.to_set().contains(id)) by {
                if dropped.to_set().contains(id) {
                    let x = choose|x: Seq<char>| #[trigger] removed.contains(x) && id == todo_id(x);
                    law_ids_tell_apart(x, k, 0, 0);
                }
            }
            if picked.contains(k) {
                let i = choose|i: int| 0 <= i < picked.len() && picked[i] == k;
                assert(ids[i] == id);
                assert(mid[ids[i]] == writes[i]);
                assert(ids.contains(id));
            } else {
                assert(!ids.contains(id)) by {
                    if ids.contains(id) {
                        let i = choose|i: int| 0 <= i < ids.len() && ids[i] == id;
                        law_ids_tell_apart(picked[i], k, 0, 0);
                        assert(picked.contains(picked[i]));
                    }
                }
                assert(known.todos.contains_key(k));
                assert(mid[id] == db.todos[id]);
            }
        }
    }
    if no_other_nodes(db, left) {
        assert forall|id: Seq<char>| #[trigger] after.contains_key(id) implies exists|k: Seq<char>| #[trigger]
            next.todos.contains_key(k) && id == todo_id(k) by {
            assert(mid.contains_key(id));
            if ids.contains(id) {
                let i = choose|i: int| 0 <= i < ids.len() && ids[i] == id;
                assert(picked.contains(picked[i]));
                assert(keys.contains(picked[i]));
                assert(next.todos.contains_key(picked[i]));
                assert(id == todo_id(picked[i]));
            } else {
                assert(db.todos.contains_key(id));
                let k = choose|k: Seq<char>| #[trigger] left.todos.contains_key(k) && id == todo_id(k);
                assert(old_keys.contains(k));
                if !next.todos.contains_key(k) {
                    assert(removed.contains(k));
                    assert(dropped.to_set().contains(id));
                }
            }
        }
    }
}

proof fn lemma_files_written(db: Documents, known: BranchView, left: BranchView, next: BranchView)
    requires
        can_be_listed(left.files),
        can_be_listed(next.files),
    ensures
        ({
            let writes = fs_writes(known, next);
            let after = deleted(
                saved(db.files, writes.map_values(|d: FsDocView| d.id), writes),
                fs_deletes(left, next),
            );
            &&& lands(db, known) ==> forall|k: Seq<char>| #[trigger]
                next.files.contains_key(k) ==> after.contains_key(fs_id(k)) && after[fs_id(k)] == fs_doc(
                    k,
                    next.files[k],
                )
            &&& no_other_nodes(db, left) ==> forall|id: Seq<char>| #[trigger]
                after.contains_key(id) ==> exists|k: Seq<char>| #[trigger]
                    next.files.contains_key(k) && id == fs_id(k)
        }),
{
    let old_keys = sorted_keys(left.files);
    let keys = sorted_keys(next.files);
    lemma_sorted_keys_apart(left.files);
    lemma_sorted_keys_apart(next.files);
    let picked = changed(keys, known.files, next.files);
    lemma_changed(keys, known.files, next.files);
    let removed = gone(old_keys, next.files);
    lemma_gone(old_keys, next.files);
    let writes = fs_writes(known, next);
    let ids = writes.map_values(|d: FsDocView| d.id);
    assert forall|i: int| 0 <= i < ids.len() implies #[trigger] ids[i] == fs_id(picked[i]) by {}
    assert forall|i: int, j: int| 0 <= i < j < ids.len() implies #[trigger] ids[i] != #[trigger] ids[j] by {
        assert(picked[i] != picked[j]);
        law_ids_tell_apart(picked[i], picked[j], 0, 0);
    }
    lemma_saved(db.files, ids, writes);
    let mid = saved(db.files, ids, writes);
    let dropped = fs_deletes(left, next);
    let after = deleted(mid, dropped);
    assert forall|id: Seq<char>| dropped.to_set().contains(id) <==> exists|k: Seq<char>| #[trigger]
        removed.contains(k) && id == fs_id(k) by {
        if dropped.contains(id) {
            let i = choose|i: int| 0 <= i < dropped.len() && dropped[i] == id;
            assert(removed.contains(removed[i]));
            assert(id == fs_id(removed[i]));
        }
        if exists|k: Seq<char>| #[trigger] removed.contains(k) && id == fs_id(k) {
            let k = choose|k: Seq<char>| #[trigger] removed.contains(k) && id == fs_id(k);
            let i = choose|i: int| 0 <= i < removed.len() && removed[i] == k;
            assert(dropped[i] == id);
        }
    }
    if lands(db, known) {
        assert forall|k: Seq<char>| #[trigger] next.files.contains_key(k) implies after.contains_key(fs_id(k))
            && after[fs_id(k)] == fs_doc(k, next.files[k]) by {
            let id = fs_id(k);
            assert(keys.contains(k));
            assert(!dropped.to_set().contains(id)) by {
                if dropped.to_set().contains(id) {
                    let x = choose|x: Seq<char>| #[trigger] removed.contains(x) && id == fs_id(x);
                    law_ids_tell_apart(x, k, 0, 0);
                }
            }
            if picked.contains(k) {
                let i = choose|i: int| 0 <= i < picked.len() && picked[i] == k;
                assert(ids[i] == id);
                assert(mid[ids[i]] == writes[i]);
                assert(ids.contains(id));
            } else {
                assert(!ids.contains(id)) by {
                    if ids.contains(id) {
                        let i = choose|i: int| 0 <= i < ids.len() && ids[i] == id;
                        law_ids_tell_apart(picked[i], k, 0, 0);
                        assert(picked.contains(picked[i]));
                    }
                }
                assert(known.files.contains_key(k));
                assert(mid[id] == db.files[id]);
            }
        }
    }
    if no_other_nodes(db, left) {
        assert forall|id: Seq<char>| #[trigger] after.contains_key(id) implies exists|k: Seq<char>| #[trigger]
            next.files.contains_key(k) && id == fs_id(k) by {
            assert(mid.contains_key(id));
            if ids.contains(id) {
                let i = choose|i: int| 0 <= i < ids.len() && ids[i] == id;
                assert(picked.contains(picked[i]));
                assert(keys.contains(picked[i]));
                assert(next.files.contains_key(picked[i]));
                assert(id == fs_id(picked[i]));
            } else {
                assert(db.files.contains_key(id));
                let k = choose|k: Seq<char>| #[trigger] left.files.contains_key(k) && id == fs_id(k);
                assert(old_keys.contains(k));
                if !next.files.contains_key(k) {
                    assert(removed.contains(k));
                    assert(dropped.to_set().contains(id));
                }
            }
        }
    }
}

proof fn lemma_chat_written(db: Documents, known: BranchView, left: BranchView, next: BranchView, ops: u64)
    requires
        is_branch(next, ops),
    ensures
        ({
            let writes = chat_writes(known, next);
            let after = saved(db.chat, writes.map_values(|d: ChatDocView| d.id), writes);
            &&& lands(db, known) ==> forall|i: int|
                0 <= i < next.chat.len() ==> after.contains_key(chat_id((#[trigger] next.chat[i]).at_op))
                    && after[chat_id(next.chat[i].at_op)] == chat_doc(next.chat[i])
            &&& no_other_messages(db, left) && left.chat.is_prefix_of(next.chat) ==> forall|id: Seq<char>| #[trigger]
                after.contains_key(id) ==> exists|i: int|
                    0 <= i < next.chat.len() && id == chat_id((#[trigger] next.chat[i]).at_op)
        }),
{
    lemma_in_common(known.chat, next.chat);
    let n = in_common(known.chat, next.chat) as int;
    let tail = next.chat.skip(n);
    let writes = chat_writes(known, next);
    let ids = writes.map_values(|d: ChatDocView| d.id);
    assert forall|i: int| 0 <= i < ids.len() implies #[trigger] ids[i] == chat_id(next.chat[n + i].at_op) && writes[i]
        == chat_doc(next.chat[n + i]) by {
        assert(tail[i] == next.chat[n + i]);
    }
    assert forall|i: int, j: int| 0 <= i < j < ids.len() implies #[trigger] ids[i] != #[trigger] ids[j] by {
        law_ids_tell_apart(Seq::empty(), Seq::empty(), next.chat[n + i].at_op, next.chat[n + j].at_op);
        assert(next.chat[n + i].at_op < next.chat[n + j].at_op);
    }
    lemma_saved(db.chat, ids, writes);
    let after = saved(db.chat, ids, writes);
    if lands(db, known) {
        assert forall|i: int| 0 <= i < next.chat.len() implies after.contains_key(
            chat_id((#[trigger] next.chat[i]).at_op),
        ) && after[chat_id(next.chat[i].at_op)] == chat_doc(next.chat[i]) by {
            let id = chat_id(next.chat[i].at_op);
            if i < n {
                assert(known.chat[i] == next.chat[i]);
                assert(!ids.contains(id)) by {
                    if ids.contains(id) {
                        let j = choose|j: int| 0 <= j < ids.len() && ids[j] == id;
                        law_ids_tell_apart(Seq::empty(), Seq::empty(), next.chat[i].at_op, next.chat[n + j].at_op);
                        assert(next.chat[i].at_op < next.chat[n + j].at_op);
                    }
                }
                assert(after[id] == db.chat[id]);
            } else {
                assert(ids[i - n] == id);
                assert(after[ids[i - n]] == writes[i - n]);
                assert(ids.contains(id));
            }
        }
    }
    if no_other_messages(db, left) && left.chat.is_prefix_of(next.chat) {
        assert(left.chat =~= next.chat.subrange(0, left.chat.len() as int));
        assert forall|id: Seq<char>| #[trigger] after.contains_key(id) implies exists|i: int|
            0 <= i < next.chat.len() && id == chat_id((#[trigger] next.chat[i]).at_op) by {
            if ids.contains(id) {
                let j = choose|j: int| 0 <= j < ids.len() && ids[j] == id;
                assert(id == chat_id(next.chat[n + j].at_op));
            } else {
                assert(db.chat.contains_key(id));
                let i = choose|i: int| 0 <= i < left.chat.len() && id == chat_id((#[trigger] left.chat[i]).at_op);
                assert(left.chat[i] == next.chat.subrange(0, left.chat.len() as int)[i]);
                assert(left.chat[i] == next.chat[i]);
            }
        }
    }
}

/// The keys of a map can be listed: they are finitely many.
pub open spec fn can_be_listed<W>(m: Map<Seq<char>, W>) -> bool {
    exists|keys: Seq<Seq<char>>| lists_keys(keys, m)
}

/// After the writes of a plan, if there is one.
pub open spec fn after_plan(db: Documents, plan: Option<PlanView>) -> Documents {
    match plan {
        Some(plan) => written(db, plan),
        None => db,
    }
}

/// The lists that the writes are made from can be made.
pub open spec fn can_be_planned(left: BranchView, next: BranchView) -> bool {
    &&& can_be_listed(left.todos) && can_be_listed(left.files)
    &&& can_be_listed(next.todos) && can_be_listed(next.files)
}

/// The writes leave a document for every message, item and node of the branch,
/// wherever the database held those of `known`, and whatever else it held. This
/// does not rest on the order of the log: where entries came in between, and the
/// chat is not what was written and more, every message still has its document.
pub proof fn law_writes_land(
    db: Documents,
    known: BranchView,
    left: BranchView,
    header: Option<MetaDocView>,
    next: BranchView,
    name: Seq<char>,
    job: JobView,
    ops: u64,
)
    requires
        lands(db, known),
        is_branch(next, ops),
        can_be_planned(left, next),
    ensures
        lands(after_plan(db, plan_for(known, left, header, next, name, job)), next),
{
    if plan_for(known, left, header, next, name, job) is Some {
        lemma_todos_written(db, known, left, next);
        lemma_files_written(db, known, left, next);
        lemma_chat_written(db, known, left, next, ops);
    }
}

/// The writes leave no document of an item or a node that the branch has not,
/// wherever the database held none but those of `left`. The same holds of messages
/// where the chat of `left` is the beginning of the branch's: documents of messages
/// are not deleted, so one at a place in the log that no message has any more stays.
pub proof fn law_writes_leave_nothing_else(
    db: Documents,
    known: BranchView,
    left: BranchView,
    header: Option<MetaDocView>,
    next: BranchView,
    name: Seq<char>,
    job: JobView,
    ops: u64,
)
    requires
        no_other_nodes(db, left),
        is_branch(next, ops),
        can_be_planned(left, next),
    ensures
        no_other_nodes(after_plan(db, plan_for(known, left, header, next, name, job)), next),
        no_other_messages(db, left) && left.chat.is_prefix_of(next.chat) ==> no_other_messages(
            after_plan(db, plan_for(known, left, header, next, name, job)),
            next,
        ),
{
    if plan_for(known, left, header, next, name, job) is Some {
        lemma_todos_written(db, known, left, next);
        lemma_files_written(db, known, left, next);
        lemma_chat_written(db, known, left, next, ops);
    }
}

/// The writes by difference bring the database to what the branch holds: where it
/// mirrored the branch as last written, under the header of that time, and the chat
/// only grew, it mirrors the branch as it is now, under the header of the job. Where
/// there is nothing to write, it does so already.
pub proof fn law_writes_keep_the_mirror(
    db: Documents,
    prev: BranchView,
    header: Option<MetaDocView>,
    next: BranchView,
    name: Seq<char>,
    job: JobView,
    ops: u64,
)
    requires
        mirrors(db, prev),
        db.meta == header,
        is_branch(next, ops),
        prev.chat.is_prefix_of(next.chat),
        can_be_planned(prev, next),
    ensures
        mirrors(after_plan(db, plan_for(prev, prev, header, next, name, job)), next),
        after_plan(db, plan_for(prev, prev, header, next, name, job)).meta == Some(meta_doc(job, name, next)),
{
    law_writes_land(db, prev, prev, header, next, name, job, ops);
    law_writes_leave_nothing_else(db, prev, prev, header, next, name, job, ops);
}

/// The first writes of a branch, be it new or just forked, save everything: after
/// them there is a document for every message, item and node of the branch, under
/// the header of the job, whatever the database held before.
pub proof fn law_first_writes_land_everything(
    before: Documents,
    mat: MaterialiserView,
    db: Seq<char>,
    name: Seq<char>,
    branch: BranchView,
    job: JobView,
    ops: u64,
)
    requires
        last_header(mat, db, name) is None,
        is_branch(branch, ops),
        can_be_planned(may_hold(mat, db, name), branch),
    ensures
        next_plan(mat, db, name, branch, job) is Some,
        lands(written(before, next_plan(mat, db, name, branch, job)->0), branch),
        written(before, next_plan(mat, db, name, branch, job)->0).meta == Some(meta_doc(job, name, branch)),
{
    law_writes_land(before, empty_branch(), may_hold(mat, db, name), None, branch, name, job, ops);
}

/// A branch that has just been forked in the database holds the documents of its
/// parent. After its first writes each of its messages, items and nodes has its
/// document. Where the parent's held no items and nodes but those noted of the
/// parent, the fork's holds none but its own: what it lost since is deleted. Where
/// the parent's chat is the beginning of the fork's, the same holds of messages.
pub proof fn law_fork_is_mirrored(
    parent_db: Documents,
    mat: MaterialiserView,
    db: Seq<char>,
    parent: Seq<char>,
    name: Seq<char>,
    branch: BranchView,
    job: JobView,
    ops: u64,
)
    requires
        is_branch(branch, ops),
        can_be_planned(may_hold(mat, db, parent), branch),
    ensures
        ({
            let forked = with_fork(mat, db, parent, name);
            let after = after_plan(parent_db, next_plan(forked, db, name, branch, job));
            let held = may_hold(mat, db, parent);
            &&& lands(after, branch)
            &&& after.meta == Some(meta_doc(job, name, branch))
            &&& no_other_nodes(parent_db, held) ==> no_other_nodes(after, branch)
            &&& mirrors(parent_db, held) && held.chat.is_prefix_of(branch.chat) ==> mirrors(after, branch)
        }),
{
    let forked = with_fork(mat, db, parent, name);
    let held = may_hold(mat, db, parent);
    law_first_writes_land_everything(parent_db, forked, db, name, branch, job, ops);
    if no_other_nodes(parent_db, held) {
        law_writes_leave_nothing_else(parent_db, empty_branch(), held, None, branch, name, job, ops);
    }
}

/// Of a room whose log only grew: the branch `parent` was last written as `room` had
/// it, and `child` was forked from it by what came after. The database of the fork
/// comes to mirror it.
pub proof fn law_fork_of_a_room_is_mirrored(
    parent_db: Documents,
    mat: MaterialiserView,
    db: Seq<char>,
    room: RoomView,
    log: Seq<Entry>,
    parent: Seq<char>,
    child: Seq<char>,
    job: JobView,
)
    requires
        is_room(room),
        room.ops_applied + log.len() <= u64::MAX,
        job.state == fold(room, log),
        room.branches.contains_key(parent),
        !room.branches.contains_key(child),
        job.state.branches.contains_key(child),
        job.state.branches[child].forked_from == Some(parent),
        may_hold(mat, db, parent) == room.branches[parent],
        mirrors(parent_db, room.branches[parent]),
        can_be_planned(room.branches[parent], job.state.branches[child]),
    ensures
        ({
            let branch = job.state.branches[child];
            let forked = with_fork(mat, db, parent, child);
            let after = after_plan(parent_db, next_plan(forked, db, child, branch, job));
            mirrors(after, branch) && after.meta == Some(meta_doc(job, child, branch))
        }),
{
    law_log_keeps_a_room(room, log);
    law_fork_starts_from_its_parent(room, log, parent, child);
    law_fork_is_mirrored(
        parent_db,
        mat,
        db,
        parent,
        child,
        job.state.branches[child],
        job,
        job.state.ops_applied,
    );
}

/// A branch that nothing was written of yet is mirrored by an empty database.
pub proof fn law_nothing_is_mirrored_by_nothing()
    ensures
        mirrors(no_documents(), empty_branch()),
{
}

/// Writing the same state again writes nothing: a job whose version is past the
/// first has no writes for a branch that it has written.
pub proof fn law_writing_twice_writes_once(
    mat: MaterialiserView,
    db: Seq<char>,
    name: Seq<char>,
    branch: BranchView,
    job: JobView,
)
    requires
        job.version > 1,
    ensures
        next_plan(with_written(mat, db, name, branch, job), db, name, branch, job) is None,
{
}

/// The header follows the room: whatever else there is to write, a branch is
/// written where the header to write is another than the one it was last written
/// under, in its title, its app or its version.
pub proof fn law_header_follows_the_room(
    mat: MaterialiserView,
    db: Seq<char>,
    name: Seq<char>,
    branch: BranchView,
    job: JobView,
)
    ensures
        last_header(mat, db, name) != Some(meta_doc(job, name, branch)) ==> next_plan(mat, db, name, branch, job) is Some,
        next_plan(mat, db, name, branch, job) matches Some(plan) ==> plan.meta == meta_doc(job, name, branch),
{
}

// --- making branches -----------------------------------------------------------------

/// A database that has `main` gets the branches of a room in an order in which the
/// parent of each is there before it.
pub proof fn law_parents_are_made_first(
    room: RoomView,
    known: Set<(Seq<char>, Seq<char>)>,
    db: Seq<char>,
    names: Seq<Seq<char>>,
    i: int,
)
    requires
        is_room(room),
        known.contains((db, MAIN_BRANCH@)),
        lists_new(names, room.branches, known, db),
        0 <= i < names.len(),
    ensures
        known.contains((db, parent_of(room.branches[names[i]]))) || exists|j: int|
            0 <= j < i && #[trigger] names[j] == parent_of(room.branches[names[i]]),
{
    let name = names[i];
    assert(names.contains(name));
    let parent = parent_of(room.branches[name]);
    if !known.contains((db, parent)) {
        assert(is_fork(room, name, room.branches[name], parent));
        assert(names.contains(parent));
        let j = choose|j: int| 0 <= j < names.len() && names[j] == parent;
        if i < j {
            assert(forked_before(room.branches, names[i], names[j]));
        }
        assert(names[j] == parent);
    }
}

/// A branch is made once: those of a room that was gone through are not made again
/// for a later one.
pub proof fn law_branches_are_made_once(
    earlier: RoomView,
    later: RoomView,
    known: Set<(Seq<char>, Seq<char>)>,
    db: Seq<char>,
    names: Seq<Seq<char>>,
    name: Seq<char>,
)
    requires
        earlier.branches.contains_key(name),
        lists_new(names, later.branches, known_after(known, db, earlier), db),
    ensures
        !names.contains(name),
{
    assert(known_after(known, db, earlier).contains((db, name)));
}

} // verus!
