//! What the documents of a room show, and which of them are written.

use vstd::prelude::*;

use crate::engine::{JobView, MatJob};
use crate::keys::{hex_text, law_hex_is_read_back, unhex};
use crate::materialise::{
    changed, chat_doc, chat_id, fork_for, fs_doc, fs_id, gone, in_common, known_after, last_header, last_written,
    lemma_in_common, may_hold, meta_doc, newest, plan_for, todo_doc, todo_id, with_fork, with_written,
    MaterialiserView, MetaDocView,
};
use crate::materialise_laws::{can_be_planned, lands, lemma_changed, lemma_gone, lemma_sorted_keys_apart, Documents};
use crate::op::MAIN_BRANCH;
use crate::state::{BranchView, ChatView, FsView, RoomView, TodoView};
use crate::text::{decimal, utf8};
use crate::text_map::sorted_keys;

verus! {

// --- one document --------------------------------------------------------------------

/// The document of a message shows who posted it, under which nick, what it says and
/// where in the log it is, as far as 31 bits count.
pub proof fn law_chat_document_shows_the_message(m: ChatView)
    ensures
        chat_doc(m).id == chat_id(m.at_op),
        chat_doc(m).author == m.author,
        chat_doc(m).text == m.text,
        m.nick matches Some(nick) ==> chat_doc(m).nick == nick,
        m.nick is None ==> chat_doc(m).nick.len() == 0,
        m.at_op <= i32::MAX ==> chat_doc(m).at_op == m.at_op,
{
}

/// The document of an item shows its key, its title, whether it is done, who made it
/// and where in the log that was, as far as 31 bits count.
pub proof fn law_item_document_shows_the_item(key: Seq<char>, item: TodoView)
    ensures
        todo_doc(key, item).id == todo_id(key),
        todo_doc(key, item).key == key,
        todo_doc(key, item).title == item.title,
        todo_doc(key, item).done == item.done,
        todo_doc(key, item).author == item.author,
        item.created_at_op <= i32::MAX ==> todo_doc(key, item).created_at_op == item.created_at_op,
{
}

/// Items that differ in their key, their title, whether they are done or who made them
/// have different documents.
pub proof fn law_item_documents_tell_items_apart(k: Seq<char>, a: TodoView, l: Seq<char>, b: TodoView)
    requires
        todo_doc(k, a) == todo_doc(l, b),
    ensures
        k == l,
        a.title == b.title,
        a.done == b.done,
        a.author == b.author,
        a.created_at_op <= i32::MAX && b.created_at_op <= i32::MAX ==> a.created_at_op == b.created_at_op,
{
}

/// The document of a file shows its path, what it holds, who wrote it and where in the
/// log that was, as far as 31 bits count; that of a directory shows its path, and that
/// it is one.
pub proof fn law_file_document_shows_the_node(path: Seq<char>, node: FsView)
    ensures
        fs_doc(path, node).id == fs_id(path),
        fs_doc(path, node).path == path,
        fs_doc(path, node).is_dir <==> node is Dir,
        node matches FsView::File { content, author, modified_at_op } ==> {
            &&& fs_doc(path, node).content == content
            &&& fs_doc(path, node).author == author
            &&& modified_at_op <= i32::MAX ==> fs_doc(path, node).modified_at_op == modified_at_op
        },
        node is Dir ==> fs_doc(path, node).content.len() == 0 && fs_doc(path, node).author.len() == 0,
{
}

/// The header of a branch shows the room, its title and its app, the branch and the one
/// it was forked from, and the version, as far as 31 bits count.
pub proof fn law_header_shows_the_room(job: JobView, name: Seq<char>, branch: BranchView)
    ensures
        meta_doc(job, name, branch).id == "meta"@,
        unhex(utf8(meta_doc(job, name, branch).room)) == Some(job.room),
        job.state.title matches Some(title) ==> meta_doc(job, name, branch).title == title,
        job.state.title is None ==> meta_doc(job, name, branch).title.len() == 0,
        job.state.app matches Some(app) ==> meta_doc(job, name, branch).app == app,
        job.state.app is None ==> meta_doc(job, name, branch).app.len() == 0,
        meta_doc(job, name, branch).branch == name,
        branch.forked_from matches Some(parent) ==> meta_doc(job, name, branch).forked_from == parent,
        branch.forked_from is None ==> meta_doc(job, name, branch).forked_from.len() == 0,
        job.version <= i32::MAX ==> meta_doc(job, name, branch).version == job.version,
{
    law_hex_is_read_back(job.room);
}

/// What an id stands for can be read from it: it is the kind of the document, and the
/// place of the message in decimal, or the bytes of the key or of the path in hex.
pub proof fn law_ids_show_what_they_are_of(key: Seq<char>, at_op: u64)
    ensures
        chat_id(at_op) == "chat_"@ + decimal(at_op as nat),
        exists|hex: Seq<char>| todo_id(key) == "todo_"@ + hex && #[trigger] unhex(utf8(hex)) == Some(utf8(key)),
        exists|hex: Seq<char>| fs_id(key) == "fs_"@ + hex && #[trigger] unhex(utf8(hex)) == Some(utf8(key)),
{
    law_hex_is_read_back(utf8(key));
    let hex = hex_text(utf8(key));
    assert(todo_id(key) == "todo_"@ + hex && unhex(utf8(hex)) == Some(utf8(key)));
    assert(fs_id(key) == "fs_"@ + hex && unhex(utf8(hex)) == Some(utf8(key)));
}

/// The number that decimal digits stand for.
pub open spec fn number_of(digits: Seq<char>) -> nat
    decreases digits.len(),
{
    if digits.len() == 0 {
        0
    } else {
        (10 * number_of(digits.drop_last()) + (digits.last() as int - '0' as int)) as nat
    }
}

/// The decimal form of a number is made of digits that stand for it, without a zero in
/// front.
pub proof fn law_decimal_stands_for_the_number(n: nat)
    ensures
        decimal(n).len() >= 1,
        forall|i: int| 0 <= i < decimal(n).len() ==> '0' <= #[trigger] decimal(n)[i] <= '9',
        number_of(decimal(n)) == n,
        n > 0 ==> decimal(n)[0] != '0',
    decreases n,
{
    if n < 10 {
        assert(decimal(n).drop_last() =~= Seq::empty());
        reveal_with_fuel(number_of, 2);
    } else {
        law_decimal_stands_for_the_number(n / 10);
        assert(decimal(n).drop_last() =~= decimal(n / 10));
        assert(decimal(n)[0] == decimal(n / 10)[0]);
    }
}

/// What has landed in a database shows the branch: under the id of each item stands a
/// document with its key, its title, whether it is done, and its author; under the id of
/// each message one with what it says, and who says it; under the id of each file one
/// with what it holds.
pub proof fn law_landed_documents_show_the_branch(db: Documents, b: BranchView)
    requires
        lands(db, b),
    ensures
        forall|k: Seq<char>| #[trigger]
            b.todos.contains_key(k) ==> {
                let doc = db.todos[todo_id(k)];
                let item = b.todos[k];
                &&& db.todos.contains_key(todo_id(k))
                &&& doc.key == k && doc.title == item.title && doc.done == item.done && doc.author == item.author
                &&& item.created_at_op <= i32::MAX ==> doc.created_at_op == item.created_at_op
            },
        forall|i: int|
            0 <= i < b.chat.len() ==> {
                let m = #[trigger] b.chat[i];
                let doc = db.chat[chat_id(m.at_op)];
                &&& db.chat.contains_key(chat_id(m.at_op))
                &&& doc.text == m.text && doc.author == m.author
                &&& m.nick matches Some(nick) ==> doc.nick == nick
                &&& m.at_op <= i32::MAX ==> doc.at_op == m.at_op
            },
        forall|p: Seq<char>| #[trigger]
            b.files.contains_key(p) ==> {
                let doc = db.files[fs_id(p)];
                &&& db.files.contains_key(fs_id(p))
                &&& doc.path == p && (doc.is_dir <==> b.files[p] is Dir)
                &&& b.files[p] matches FsView::File { content, author, modified_at_op } ==> doc.content == content
                    && doc.author == author && (modified_at_op <= i32::MAX ==> doc.modified_at_op == modified_at_op)
            },
{
}

// --- the writes ----------------------------------------------------------------------

/// The messages that two chats have in common are the same in both, from the beginning
/// on, and are all that are.
pub proof fn law_common_beginning(a: Seq<ChatView>, b: Seq<ChatView>, n: int)
    requires
        0 <= n <= a.len(),
        n <= b.len(),
        forall|i: int| 0 <= i < n ==> #[trigger] a[i] == b[i],
        n < a.len() && n < b.len() ==> a[n] != b[n],
    ensures
        in_common(a, b) == n,
{
    lemma_in_common(a, b);
    let m = in_common(a, b) as int;
    if m < n {
        assert(a[m] == b[m]);
    } else if n < m {
        assert(a[n] == b[n]);
    }
}

/// There is nothing to write exactly where the version is past the first, and the
/// branch and its header are what the database is known to hold.
pub proof fn law_nothing_to_write(
    known: BranchView,
    left: BranchView,
    header: Option<MetaDocView>,
    next: BranchView,
    name: Seq<char>,
    job: JobView,
)
    ensures
        plan_for(known, left, header, next, name, job) is None <==> job.version > 1 && known == next && left == next
            && header == Some(meta_doc(job, name, next)),
{
}

/// The messages behind those in common are saved in their order, each with all that it
/// is. The writes are committed by the node, with a message that names the room and the
/// version, and under the header of the job.
pub proof fn law_new_messages_are_saved(
    known: BranchView,
    left: BranchView,
    header: Option<MetaDocView>,
    next: BranchView,
    name: Seq<char>,
    job: JobView,
)
    requires
        can_be_planned(left, next),
        plan_for(known, left, header, next, name, job) is Some,
    ensures
        ({
            let plan = plan_for(known, left, header, next, name, job)->0;
            let n = in_common(known.chat, next.chat) as int;
            &&& plan.author == "tdb-room-node"@
            &&& plan.message == "materialise room "@ + hex_text(job.room) + " v"@ + decimal(job.version as nat)
            &&& plan.meta == meta_doc(job, name, next)
            &&& plan.chat.len() == next.chat.len() - n
            &&& forall|i: int|
                0 <= i < plan.chat.len() ==> {
                    let doc = #[trigger] plan.chat[i];
                    let m = next.chat[n + i];
                    &&& doc.id == chat_id(m.at_op)
                    &&& doc.text == m.text && doc.author == m.author
                    &&& (m.nick matches Some(nick) ==> doc.nick == nick)
                }
        }),
{
    let plan = plan_for(known, left, header, next, name, job)->0;
    let n = in_common(known.chat, next.chat) as int;
    lemma_in_common(known.chat, next.chat);
    assert forall|i: int| 0 <= i < plan.chat.len() implies #[trigger] plan.chat[i] == chat_doc(next.chat[n + i]) by {
        assert(next.chat.skip(n)[i] == next.chat[n + i]);
    }
}

/// Of the items, those are saved that are new or others than are known, and no others,
/// each with all that it is.
pub proof fn law_changed_todos_are_saved(
    known: BranchView,
    left: BranchView,
    header: Option<MetaDocView>,
    next: BranchView,
    name: Seq<char>,
    job: JobView,
)
    requires
        can_be_planned(left, next),
        plan_for(known, left, header, next, name, job) is Some,
    ensures
        ({
            let plan = plan_for(known, left, header, next, name, job)->0;
            &&& forall|k: Seq<char>| #[trigger]
                next.todos.contains_key(k) && !(known.todos.contains_key(k) && known.todos[k] == next.todos[k])
                    ==> exists|i: int| 0 <= i < plan.todos.len() && (#[trigger] plan.todos[i]).key == k
            &&& forall|i: int|
                0 <= i < plan.todos.len() ==> {
                    let doc = #[trigger] plan.todos[i];
                    let k = doc.key;
                    &&& next.todos.contains_key(k) && !(known.todos.contains_key(k) && known.todos[k] == next.todos[k])
                    &&& doc.id == todo_id(k)
                    &&& doc.title == next.todos[k].title && doc.done == next.todos[k].done
                    &&& doc.author == next.todos[k].author
                }
        }),
{
    let plan = plan_for(known, left, header, next, name, job)->0;
    lemma_sorted_keys_apart(next.todos);
    let saved = changed(sorted_keys(next.todos), known.todos, next.todos);
    lemma_changed(sorted_keys(next.todos), known.todos, next.todos);
    assert forall|k: Seq<char>| #[trigger] next.todos.contains_key(k) && !(known.todos.contains_key(k)
        && known.todos[k] == next.todos[k]) implies exists|i: int|
        0 <= i < plan.todos.len() && (#[trigger] plan.todos[i]).key == k by {
        assert(saved.contains(k));
        let i = choose|i: int| 0 <= i < saved.len() && saved[i] == k;
        assert(plan.todos[i].key == k);
    }
    assert forall|i: int| 0 <= i < plan.todos.len() implies {
        let doc = #[trigger] plan.todos[i];
        let k = doc.key;
        &&& next.todos.contains_key(k) && !(known.todos.contains_key(k) && known.todos[k] == next.todos[k])
        &&& doc.id == todo_id(k)
        &&& doc.title == next.todos[k].title && doc.done == next.todos[k].done
        &&& doc.author == next.todos[k].author
    } by {
        assert(saved.contains(saved[i]));
        assert(plan.todos[i] == todo_doc(saved[i], next.todos[saved[i]]));
    }
}

/// Of the items that may be there, those are deleted that are none any more, and no
/// others.
pub proof fn law_gone_todos_are_deleted(
    known: BranchView,
    left: BranchView,
    header: Option<MetaDocView>,
    next: BranchView,
    name: Seq<char>,
    job: JobView,
)
    requires
        can_be_planned(left, next),
        plan_for(known, left, header, next, name, job) is Some,
    ensures
        ({
            let plan = plan_for(known, left, header, next, name, job)->0;
            &&& forall|k: Seq<char>| #[trigger]
                left.todos.contains_key(k) && !next.todos.contains_key(k) ==> plan.gone_todos.contains(todo_id(k))
            &&& forall|id: Seq<char>| #[trigger]
                plan.gone_todos.contains(id) ==> exists|k: Seq<char>| #[trigger]
                    left.todos.contains_key(k) && !next.todos.contains_key(k) && id == todo_id(k)
        }),
{
    let plan = plan_for(known, left, header, next, name, job)->0;
    lemma_sorted_keys_apart(left.todos);
    let lost = gone(sorted_keys(left.todos), next.todos);
    lemma_gone(sorted_keys(left.todos), next.todos);
    assert forall|k: Seq<char>| #[trigger]
        left.todos.contains_key(k) && !next.todos.contains_key(k) implies plan.gone_todos.contains(todo_id(k)) by {
        assert(lost.contains(k));
        let i = choose|i: int| 0 <= i < lost.len() && lost[i] == k;
        assert(plan.gone_todos[i] == todo_id(k));
    }
    assert forall|id: Seq<char>| #[trigger] plan.gone_todos.contains(id) implies exists|k: Seq<char>| #[trigger]
        left.todos.contains_key(k) && !next.todos.contains_key(k) && id == todo_id(k) by {
        let i = choose|i: int| 0 <= i < plan.gone_todos.len() && plan.gone_todos[i] == id;
        assert(lost.contains(lost[i]));
        assert(left.todos.contains_key(lost[i]));
    }
}

/// Of the nodes, those are saved that are new or others than are known, and no others,
/// each with all that it is.
pub proof fn law_changed_files_are_saved(
    known: BranchView,
    left: BranchView,
    header: Option<MetaDocView>,
    next: BranchView,
    name: Seq<char>,
    job: JobView,
)
    requires
        can_be_planned(left, next),
        plan_for(known, left, header, next, name, job) is Some,
    ensures
        ({
            let plan = plan_for(known, left, header, next, name, job)->0;
            &&& forall|k: Seq<char>| #[trigger]
                next.files.contains_key(k) && !(known.files.contains_key(k) && known.files[k] == next.files[k])
                    ==> exists|i: int| 0 <= i < plan.files.len() && (#[trigger] plan.files[i]).path == k
            &&& forall|i: int|
                0 <= i < plan.files.len() ==> {
                    let doc = #[trigger] plan.files[i];
                    let k = doc.path;
                    &&& next.files.contains_key(k) && !(known.files.contains_key(k) && known.files[k] == next.files[k])
                    &&& doc.id == fs_id(k)
                    &&& doc.is_dir <==> next.files[k] is Dir
                    &&& (next.files[k] matches FsView::File { content, author, .. }
                        ==> doc.content == content && doc.author == author)
                }
        }),
{
    let plan = plan_for(known, left, header, next, name, job)->0;
    lemma_sorted_keys_apart(next.files);
    let saved = changed(sorted_keys(next.files), known.files, next.files);
    lemma_changed(sorted_keys(next.files), known.files, next.files);
    assert forall|k: Seq<char>| #[trigger] next.files.contains_key(k) && !(known.files.contains_key(k)
        && known.files[k] == next.files[k]) implies exists|i: int|
        0 <= i < plan.files.len() && (#[trigger] plan.files[i]).path == k by {
        assert(saved.contains(k));
        let i = choose|i: int| 0 <= i < saved.len() && saved[i] == k;
        assert(plan.files[i].path == k);
    }
    assert forall|i: int| 0 <= i < plan.files.len() implies {
        let doc = #[trigger] plan.files[i];
        let k = doc.path;
        &&& next.files.contains_key(k) && !(known.files.contains_key(k) && known.files[k] == next.files[k])
        &&& doc.id == fs_id(k)
        &&& doc.is_dir <==> next.files[k] is Dir
        &&& (next.files[k] matches FsView::File { content, author, .. }
            ==> doc.content == content && doc.author == author)
    } by {
        assert(saved.contains(saved[i]));
        assert(plan.files[i] == fs_doc(saved[i], next.files[saved[i]]));
    }
}

/// Of the nodes that may be there, those are deleted that are none any more, and no
/// others.
pub proof fn law_gone_files_are_deleted(
    known: BranchView,
    left: BranchView,
    header: Option<MetaDocView>,
    next: BranchView,
    name: Seq<char>,
    job: JobView,
)
    requires
        can_be_planned(left, next),
        plan_for(known, left, header, next, name, job) is Some,
    ensures
        ({
            let plan = plan_for(known, left, header, next, name, job)->0;
            &&& forall|k: Seq<char>| #[trigger]
                left.files.contains_key(k) && !next.files.contains_key(k) ==> plan.gone_files.contains(fs_id(k))
            &&& forall|id: Seq<char>| #[trigger]
                plan.gone_files.contains(id) ==> exists|k: Seq<char>| #[trigger]
                    left.files.contains_key(k) && !next.files.contains_key(k) && id == fs_id(k)
        }),
{
    let plan = plan_for(known, left, header, next, name, job)->0;
    lemma_sorted_keys_apart(left.files);
    let lost = gone(sorted_keys(left.files), next.files);
    lemma_gone(sorted_keys(left.files), next.files);
    assert forall|k: Seq<char>| #[trigger]
        left.files.contains_key(k) && !next.files.contains_key(k) implies plan.gone_files.contains(fs_id(k)) by {
        assert(lost.contains(k));
        let i = choose|i: int| 0 <= i < lost.len() && lost[i] == k;
        assert(plan.gone_files[i] == fs_id(k));
    }
    assert forall|id: Seq<char>| #[trigger] plan.gone_files.contains(id) implies exists|k: Seq<char>| #[trigger]
        left.files.contains_key(k) && !next.files.contains_key(k) && id == fs_id(k) by {
        let i = choose|i: int| 0 <= i < plan.gone_files.len() && plan.gone_files[i] == id;
        assert(lost.contains(lost[i]));
        assert(left.files.contains_key(lost[i]));
    }
}

// --- what is known of the databases --------------------------------------------------

/// A branch that is made lies in the database of the room, by its name, and comes from
/// the branch that it was forked from in the room, or from `main`.
pub proof fn law_new_branch_comes_from_its_parent(org: Seq<char>, db: Seq<char>, name: Seq<char>, b: BranchView)
    ensures
        fork_for(org, db, name, b).name == name,
        b.forked_from matches Some(parent) ==> fork_for(org, db, name, b).parent == parent,
        b.forked_from is None ==> fork_for(org, db, name, b).parent == MAIN_BRANCH@,
        fork_for(org, db, name, b).path == org + "/"@ + db + "/local/branch/"@ + name,
        fork_for(org, db, name, b).origin == org + "/"@ + db + "/local/branch/"@ + fork_for(org, db, name, b).parent,
{
}

/// Once the branches of a room were made, they are known, besides those that were, and
/// none else is.
pub proof fn law_made_branches_are_known(
    known: Set<(Seq<char>, Seq<char>)>,
    db: Seq<char>,
    state: RoomView,
    other: Seq<char>,
    name: Seq<char>,
)
    ensures
        known_after(known, db, state).contains((other, name)) <==> known.contains((other, name)) || (other == db
            && state.branches.contains_key(name)),
{
}

/// What was written of a branch is what is noted of it, and nothing is noted of any other
/// branch or database.
pub proof fn law_written_branch_is_noted(
    mat: MaterialiserView,
    db: Seq<char>,
    name: Seq<char>,
    branch: BranchView,
    job: JobView,
    other_db: Seq<char>,
    other: Seq<char>,
)
    ensures
        ({
            let after = with_written(mat, db, name, branch, job);
            &&& last_written(after, db, name) == branch
            &&& may_hold(after, db, name) == branch
            &&& last_header(after, db, name) == Some(meta_doc(job, name, branch))
            &&& (other_db, other) != (db, name) ==> last_written(after, other_db, other) == last_written(
                mat,
                other_db,
                other,
            ) && may_hold(after, other_db, other) == may_hold(mat, other_db, other) && last_header(
                after,
                other_db,
                other,
            ) == last_header(mat, other_db, other)
            &&& after.ensured_dbs == mat.ensured_dbs && after.known_branches == mat.known_branches
        }),
{
}

/// Nothing was written of a fork that was just made, but it may hold what its parent may
/// hold; nothing is noted of any other branch or database.
pub proof fn law_made_fork_is_noted(
    mat: MaterialiserView,
    db: Seq<char>,
    parent: Seq<char>,
    name: Seq<char>,
    other_db: Seq<char>,
    other: Seq<char>,
)
    ensures
        ({
            let after = with_fork(mat, db, parent, name);
            &&& last_header(after, db, name) is None
            &&& may_hold(after, db, name) == may_hold(mat, db, parent)
            &&& (other_db, other) != (db, name) ==> last_written(after, other_db, other) == last_written(
                mat,
                other_db,
                other,
            ) && may_hold(after, other_db, other) == may_hold(mat, other_db, other) && last_header(
                after,
                other_db,
                other,
            ) == last_header(mat, other_db, other)
            &&& after.ensured_dbs == mat.ensured_dbs && after.known_branches == mat.known_branches
        }),
{
}

/// Of the jobs of a room, the one that came last counts; a room without jobs has none.
pub proof fn law_last_job_counts(jobs: Seq<MatJob>, i: int, room: Seq<u8>)
    ensures
        newest(jobs).contains_key(room) <==> exists|j: int| 0 <= j < jobs.len() && (#[trigger] jobs[j]).room@ == room,
        0 <= i < jobs.len() && jobs[i].room@ == room && (forall|j: int|
            i < j < jobs.len() ==> (#[trigger] jobs[j]).room@ != room) ==> newest(jobs)[room] == jobs[i],
    decreases jobs.len(),
{
    if jobs.len() > 0 {
        let init = jobs.drop_last();
        law_last_job_counts(init, i, room);
        let last = jobs.len() - 1;
        if exists|j: int| 0 <= j < init.len() && (#[trigger] init[j]).room@ == room {
            let j = choose|j: int| 0 <= j < init.len() && (#[trigger] init[j]).room@ == room;
            assert(jobs[j].room@ == room);
        }
        if exists|j: int| 0 <= j < jobs.len() && (#[trigger] jobs[j]).room@ == room {
            let j = choose|j: int| 0 <= j < jobs.len() && (#[trigger] jobs[j]).room@ == room;
            if j < last {
                assert(init[j].room@ == room);
            }
        }
        if jobs[last].room@ == room {
            assert(jobs[last].room@ == room);
        }
        if 0 <= i < init.len() {
            assert(init[i] == jobs[i]);
            assert forall|j: int| i < j < init.len() && jobs[j].room@ != room implies (#[trigger] init[j]).room@
                != room by {
                assert(init[j] == jobs[j]);
            }
        }
    }
}

} // verus!
