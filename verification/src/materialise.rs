//! Materialisation: the documents that a room becomes, and the writes that bring
//! a database from one state of a room to the next.
//!
//! Each room has its own database, and each branch of the room a branch of that
//! database, forked from the same parent. Writing is by difference: changed
//! documents are saved, and those of removed nodes deleted.

use vstd::prelude::*;

use crate::engine::{JobView, MatJob};
use crate::keys::{hex_encode, hex_text, key_text, RoomId};
use crate::op::MAIN_BRANCH;
use crate::state::{
    chat_view, empty_branch, BranchState, BranchView, ChatMessage, ChatView, FsNode, FsView, RoomState, RoomView, TodoItem, TodoView,
};
use crate::table::{lists, owned_entries, Table};
use crate::text::{
    chars_of, copy_or_empty, decimal, decimal_text, lemma_text_lt_total, same_text, text_lt, text_of, text_or_empty, utf8,
};
use crate::text_map::{lemma_listing_is_unique, lists_keys, sorted_keys, texts, Plain, TextMap};

verus! {

/// Who is named as the author of the commits.
pub const COMMIT_AUTHOR: &'static str = "tdb-room-node";

// --- the documents -------------------------------------------------------------------

/// The header of a room at the tip of a branch; one per branch.
#[derive(Clone, Debug, PartialEq, Eq)]
pub struct RoomMeta {
    pub id: String,
    pub room: String,
    pub title: String,
    pub app: String,
    pub branch: String,
    pub forked_from: String,
    pub version: i32,
}

#[derive(Clone, Debug, PartialEq, Eq)]
pub struct ChatMessageDoc {
    pub id: String,
    pub author: String,
    pub nick: String,
    pub text: String,
    pub at_op: i32,
}

#[derive(Clone, Debug, PartialEq, Eq)]
pub struct TodoItemDoc {
    pub id: String,
    pub key: String,
    pub title: String,
    pub done: bool,
    pub author: String,
    pub created_at_op: i32,
}

#[derive(Clone, Debug, PartialEq, Eq)]
pub struct FsNodeDoc {
    pub id: String,
    pub path: String,
    pub is_dir: bool,
    pub content: String,
    pub author: String,
    pub modified_at_op: i32,
}

/// What a [`RoomMeta`] stands for.
pub struct MetaDocView {
    pub id: Seq<char>,
    pub room: Seq<char>,
    pub title: Seq<char>,
    pub app: Seq<char>,
    pub branch: Seq<char>,
    pub forked_from: Seq<char>,
    pub version: i32,
}

/// What a [`ChatMessageDoc`] stands for.
pub struct ChatDocView {
    pub id: Seq<char>,
    pub author: Seq<char>,
    pub nick: Seq<char>,
    pub text: Seq<char>,
    pub at_op: i32,
}

/// What a [`TodoItemDoc`] stands for.
pub struct TodoDocView {
    pub id: Seq<char>,
    pub key: Seq<char>,
    pub title: Seq<char>,
    pub done: bool,
    pub author: Seq<char>,
    pub created_at_op: i32,
}

/// What an [`FsNodeDoc`] stands for.
pub struct FsDocView {
    pub id: Seq<char>,
    pub path: Seq<char>,
    pub is_dir: bool,
    pub content: Seq<char>,
    pub author: Seq<char>,
    pub modified_at_op: i32,
}

impl View for RoomMeta {
    type V = MetaDocView;

    open spec fn view(&self) -> MetaDocView {
        MetaDocView {
            id: self.id@,
            room: self.room@,
            title: self.title@,
            app: self.app@,
            branch: self.branch@,
            forked_from: self.forked_from@,
            version: self.version,
        }
    }
}

impl View for ChatMessageDoc {
    type V = ChatDocView;

    open spec fn view(&self) -> ChatDocView {
        ChatDocView { id: self.id@, author: self.author@, nick: self.nick@, text: self.text@, at_op: self.at_op }
    }
}

impl View for TodoItemDoc {
    type V = TodoDocView;

    open spec fn view(&self) -> TodoDocView {
        TodoDocView {
            id: self.id@,
            key: self.key@,
            title: self.title@,
            done: self.done,
            author: self.author@,
            created_at_op: self.created_at_op,
        }
    }
}

impl View for FsNodeDoc {
    type V = FsDocView;

    open spec fn view(&self) -> FsDocView {
        FsDocView {
            id: self.id@,
            path: self.path@,
            is_dir: self.is_dir,
            content: self.content@,
            author: self.author@,
            modified_at_op: self.modified_at_op,
        }
    }
}

/// The id of the document of the message at a place in the log.
pub open spec fn chat_id(at_op: u64) -> Seq<char> {
    "chat_"@ + decimal(at_op as nat)
}

/// The id of the document of an item.
pub open spec fn todo_id(key: Seq<char>) -> Seq<char> {
    "todo_"@ + hex_text(utf8(key))
}

/// The id of the document of a node of the filesystem.
pub open spec fn fs_id(path: Seq<char>) -> Seq<char> {
    "fs_"@ + hex_text(utf8(path))
}

/// The document of a message.
pub open spec fn chat_doc(m: ChatView) -> ChatDocView {
    ChatDocView {
        id: chat_id(m.at_op),
        author: m.author,
        nick: text_or_empty(m.nick),
        text: m.text,
        at_op: m.at_op as i32,
    }
}

/// The document of an item.
pub open spec fn todo_doc(key: Seq<char>, item: TodoView) -> TodoDocView {
    TodoDocView {
        id: todo_id(key),
        key,
        title: item.title,
        done: item.done,
        author: item.author,
        created_at_op: item.created_at_op as i32,
    }
}

/// The document of a node of the filesystem.
pub open spec fn fs_doc(path: Seq<char>, node: FsView) -> FsDocView {
    match node {
        FsView::Dir => FsDocView {
            id: fs_id(path),
            path,
            is_dir: true,
            content: Seq::empty(),
            author: Seq::empty(),
            modified_at_op: 0,
        },
        FsView::File { content, author, modified_at_op } => FsDocView {
            id: fs_id(path),
            path,
            is_dir: false,
            content,
            author,
            modified_at_op: modified_at_op as i32,
        },
    }
}

/// The header of a room at the tip of a branch.
pub open spec fn meta_doc(job: JobView, name: Seq<char>, branch: BranchView) -> MetaDocView {
    MetaDocView {
        id: "meta"@,
        room: hex_text(job.room),
        title: text_or_empty(job.state.title),
        app: text_or_empty(job.state.app),
        branch: name,
        forked_from: text_or_empty(branch.forked_from),
        version: job.version as i32,
    }
}

fn prefixed(prefix: &str, rest: &str) -> (r: String)
    ensures
        r@ == prefix@ + rest@,
{
    let mut r = prefix.to_owned();
    r.push_str(rest);
    r
}

fn todo_id_text(key: &String) -> (r: String)
    ensures
        r@ == todo_id(key@),
{
    prefixed("todo_", hex_encode(key.as_str().as_bytes()).as_str())
}

fn fs_id_text(path: &String) -> (r: String)
    ensures
        r@ == fs_id(path@),
{
    prefixed("fs_", hex_encode(path.as_str().as_bytes()).as_str())
}

fn document_of_message(m: &ChatMessage) -> (r: ChatMessageDoc)
    ensures
        r@ == chat_doc(m@),
{
    ChatMessageDoc {
        id: prefixed("chat_", decimal_text(m.at_op).as_str()),
        author: m.author.clone(),
        nick: copy_or_empty(&m.nick),
        text: m.text.clone(),
        at_op: m.at_op as i32,
    }
}

fn document_of_item(key: &String, item: &TodoItem) -> (r: TodoItemDoc)
    ensures
        r@ == todo_doc(key@, item@),
{
    TodoItemDoc {
        id: todo_id_text(key),
        key: key.clone(),
        title: item.title.clone(),
        done: item.done,
        author: item.author.clone(),
        created_at_op: item.created_at_op as i32,
    }
}

fn document_of_node(path: &String, node: &FsNode) -> (r: FsNodeDoc)
    ensures
        r@ == fs_doc(path@, node@),
{
    match node {
        FsNode::Dir => {
            let r = FsNodeDoc {
                id: fs_id_text(path),
                path: path.clone(),
                is_dir: true,
                content: String::new(),
                author: String::new(),
                modified_at_op: 0,
            };
            assert(r@.content =~= Seq::empty());
            assert(r@.author =~= Seq::empty());
            r
        },
        FsNode::File { content, author, modified_at_op } => FsNodeDoc {
            id: fs_id_text(path),
            path: path.clone(),
            is_dir: false,
            content: content.clone(),
            author: author.clone(),
            modified_at_op: *modified_at_op as i32,
        },
    }
}

/// The name of the database of a room.
pub fn room_db_name(room: &RoomId) -> (r: String)
    ensures
        r@ == "room_"@ + hex_text(room@).take(16),
{
    let hex = key_text(room);
    let chars = chars_of(hex.as_str());
    let head = text_of(&chars, 0, 16);
    prefixed("room_", head.as_str())
}

// --- the writes for one branch -------------------------------------------------------

/// The writes for one branch, in the order in which they are made: the header,
/// the messages, the items that are saved, those that are deleted, the nodes
/// that are saved, and those that are deleted.
#[derive(Clone, Debug)]
pub struct BranchPlan {
    pub author: String,
    pub message: String,
    pub meta: RoomMeta,
    pub chat: Vec<ChatMessageDoc>,
    pub todos: Vec<TodoItemDoc>,
    pub gone_todos: Vec<String>,
    pub files: Vec<FsNodeDoc>,
    pub gone_files: Vec<String>,
}

/// What a [`BranchPlan`] stands for.
pub struct PlanView {
    pub author: Seq<char>,
    pub message: Seq<char>,
    pub meta: MetaDocView,
    pub chat: Seq<ChatDocView>,
    pub todos: Seq<TodoDocView>,
    pub gone_todos: Seq<Seq<char>>,
    pub files: Seq<FsDocView>,
    pub gone_files: Seq<Seq<char>>,
}

impl View for BranchPlan {
    type V = PlanView;

    open spec fn view(&self) -> PlanView {
        PlanView {
            author: self.author@,
            message: self.message@,
            meta: self.meta@,
            chat: self.chat@.map_values(|d: ChatMessageDoc| d@),
            todos: self.todos@.map_values(|d: TodoItemDoc| d@),
            gone_todos: texts(self.gone_todos@),
            files: self.files@.map_values(|d: FsNodeDoc| d@),
            gone_files: texts(self.gone_files@),
        }
    }
}

/// Those of `keys` whose value in `next` is new or another than in `prev`.
pub open spec fn changed<W>(keys: Seq<Seq<char>>, prev: Map<Seq<char>, W>, next: Map<Seq<char>, W>) -> Seq<Seq<char>>
    decreases keys.len(),
{
    if keys.len() == 0 {
        Seq::empty()
    } else {
        let rest = changed(keys.drop_last(), prev, next);
        let k = keys.last();
        if prev.contains_key(k) && prev[k] == next[k] {
            rest
        } else {
            rest.push(k)
        }
    }
}

/// Those of `keys` that are not in `next`.
pub open spec fn gone<W>(keys: Seq<Seq<char>>, next: Map<Seq<char>, W>) -> Seq<Seq<char>>
    decreases keys.len(),
{
    if keys.len() == 0 {
        Seq::empty()
    } else {
        let rest = gone(keys.drop_last(), next);
        if next.contains_key(keys.last()) {
            rest
        } else {
            rest.push(keys.last())
        }
    }
}

/// How many messages two chats have in common at their beginning.
pub open spec fn in_common(a: Seq<ChatView>, b: Seq<ChatView>) -> nat
    decreases a.len(),
{
    if a.len() == 0 || b.len() == 0 || a[0] != b[0] {
        0
    } else {
        1 + in_common(a.drop_first(), b.drop_first())
    }
}

/// The messages that are saved: those beyond what the chat has in common with the
/// one that was last written. A chat that only grew is written from where it ended;
/// one whose entries were put into another order, from where the order changed.
pub open spec fn chat_writes(prev: BranchView, next: BranchView) -> Seq<ChatDocView> {
    next.chat.skip(in_common(prev.chat, next.chat) as int).map_values(|m: ChatView| chat_doc(m))
}

/// The items that are saved.
pub open spec fn todo_writes(prev: BranchView, next: BranchView) -> Seq<TodoDocView> {
    changed(sorted_keys(next.todos), prev.todos, next.todos).map_values(|k: Seq<char>| todo_doc(k, next.todos[k]))
}

/// The items that are deleted.
pub open spec fn todo_deletes(prev: BranchView, next: BranchView) -> Seq<Seq<char>> {
    gone(sorted_keys(prev.todos), next.todos).map_values(|k: Seq<char>| todo_id(k))
}

/// The nodes that are saved.
pub open spec fn fs_writes(prev: BranchView, next: BranchView) -> Seq<FsDocView> {
    changed(sorted_keys(next.files), prev.files, next.files).map_values(|k: Seq<char>| fs_doc(k, next.files[k]))
}

/// The nodes that are deleted.
pub open spec fn fs_deletes(prev: BranchView, next: BranchView) -> Seq<Seq<char>> {
    gone(sorted_keys(prev.files), next.files).map_values(|k: Seq<char>| fs_id(k))
}

/// The message of a commit.
pub open spec fn commit_message(job: JobView) -> Seq<char> {
    "materialise room "@ + hex_text(job.room) + " v"@ + decimal(job.version as nat)
}

/// The writes that bring a branch of the database to `next`. `known` is what it
/// holds for sure: of that, nothing is saved again. `left` is what it may hold: of
/// that, what `next` has not is deleted. The two differ for a fork that was not
/// written yet. The header is saved with every version, so that it tracks how far
/// the branch is. There are no writes where the branch and its header are as they
/// were last written, but for the first version, which is always written.
pub open spec fn plan_for(
    known: BranchView,
    left: BranchView,
    header: Option<MetaDocView>,
    next: BranchView,
    name: Seq<char>,
    job: JobView,
) -> Option<PlanView> {
    if known == next && left == next && header == Some(meta_doc(job, name, next)) && job.version > 1 {
        None
    } else {
        Some(
            PlanView {
                author: COMMIT_AUTHOR@,
                message: commit_message(job),
                meta: meta_doc(job, name, next),
                chat: chat_writes(known, next),
                todos: todo_writes(known, next),
                gone_todos: todo_deletes(left, next),
                files: fs_writes(known, next),
                gone_files: fs_deletes(left, next),
            },
        )
    }
}

/// What [`in_common`] counts: the chats agree so far, and no further.
pub(crate) proof fn lemma_in_common(a: Seq<ChatView>, b: Seq<ChatView>)
    ensures
        in_common(a, b) <= a.len(),
        in_common(a, b) <= b.len(),
        forall|i: int| 0 <= i < in_common(a, b) ==> #[trigger] a[i] == b[i],
        in_common(a, b) < a.len() && in_common(a, b) < b.len() ==> a[in_common(a, b) as int] != b[in_common(
            a,
            b,
        ) as int],
    decreases a.len(),
{
    if a.len() > 0 && b.len() > 0 && a[0] == b[0] {
        let x = a.drop_first();
        let y = b.drop_first();
        lemma_in_common(x, y);
        let n = in_common(x, y) as int;
        assert forall|i: int| 0 <= i < in_common(a, b) implies #[trigger] a[i] == b[i] by {
            if i > 0 {
                assert(x[i - 1] == y[i - 1]);
            }
        }
        if n < x.len() && n < y.len() {
            assert(x[n] == a[n + 1] && y[n] == b[n + 1]);
        }
    }
}

proof fn lemma_sorted<V: View>(map: TextMap<V>)
    requires
        lists_keys(map.keys_in_order(), map@),
    ensures
        map.keys_in_order() == sorted_keys(map@),
{
    lemma_listing_is_unique(map.keys_in_order(), sorted_keys(map@), map@);
}

fn count_in_common(a: &Vec<ChatMessage>, b: &Vec<ChatMessage>) -> (r: usize)
    ensures
        r == in_common(chat_view(a@), chat_view(b@)),
        r <= b@.len(),
{
    let mut i: usize = 0;
    while i < a.len() && i < b.len() && a[i].same(&b[i])
        invariant
            i <= a@.len(),
            i <= b@.len(),
            forall|j: int| 0 <= j < i ==> (#[trigger] a@[j])@ == b@[j]@,
        decreases a@.len() - i,
    {
        i = i + 1;
    }
    proof {
        let x = chat_view(a@);
        let y = chat_view(b@);
        let n = in_common(x, y) as int;
        lemma_in_common(x, y);
        if i < n {
            assert(x[i as int] == y[i as int]);
        } else if n < i {
            assert(a@[n]@ == b@[n]@);
        }
    }
    i
}

fn plan_chat(prev: &Vec<ChatMessage>, next: &Vec<ChatMessage>) -> (r: Vec<ChatMessageDoc>)
    ensures
        r@.map_values(|d: ChatMessageDoc| d@) == chat_view(next@).skip(
            in_common(chat_view(prev@), chat_view(next@)) as int,
        ).map_values(|m: ChatView| chat_doc(m)),
{
    let mut r: Vec<ChatMessageDoc> = Vec::new();
    let start = count_in_common(prev, next);
    let mut i: usize = start;
    while i < next.len()
        invariant
            start <= i <= next@.len(),
            r@.len() == i - start,
            forall|j: int| 0 <= j < r@.len() ==> (#[trigger] r@[j])@ == chat_doc(next@[start + j]@),
        decreases next@.len() - i,
    {
        r.push(document_of_message(&next[i]));
        i = i + 1;
    }
    proof {
        let want = chat_view(next@).skip(start as int).map_values(|m: ChatView| chat_doc(m));
        assert(r@.map_values(|d: ChatMessageDoc| d@) =~= want);
    }
    r
}

fn plan_todos(prev: &TextMap<TodoItem>, next: &TextMap<TodoItem>) -> (r: Vec<TodoItemDoc>)
    ensures
        r@.map_values(|d: TodoItemDoc| d@) == changed(sorted_keys(next@), prev@, next@).map_values(
            |k: Seq<char>| todo_doc(k, next@[k]),
        ),
{
    let n = next.len();
    let ghost keys = next.keys_in_order();
    let mut r: Vec<TodoItemDoc> = Vec::new();
    let mut i: usize = 0;
    proof {
        lemma_sorted(*next);
        assert(keys.take(0) =~= Seq::empty());
    }
    while i < n
        invariant
            i <= n == keys.len(),
            keys == next.keys_in_order(),
            r@.len() == changed(keys.take(i as int), prev@, next@).len(),
            forall|j: int|
                0 <= j < r@.len() ==> (#[trigger] r@[j])@ == todo_doc(
                    changed(keys.take(i as int), prev@, next@)[j],
                    next@[changed(keys.take(i as int), prev@, next@)[j]],
                ),
        decreases n - i,
    {
        let (key, item) = next.entry(i);
        let unchanged = match prev.get(key.as_str()) {
            Some(p) => p.same(item),
            None => false,
        };
        if !unchanged {
            r.push(document_of_item(key, item));
        }
        assert(keys.take(i + 1).drop_last() =~= keys.take(i as int));
        assert(keys.take(i + 1).last() == keys[i as int]);
        i = i + 1;
    }
    assert(keys.take(n as int) =~= keys);
    assert(r@.map_values(|d: TodoItemDoc| d@) =~= changed(sorted_keys(next@), prev@, next@).map_values(
        |k: Seq<char>| todo_doc(k, next@[k]),
    ));
    r
}

fn plan_gone_todos(prev: &TextMap<TodoItem>, next: &TextMap<TodoItem>) -> (r: Vec<String>)
    ensures
        texts(r@) == gone(sorted_keys(prev@), next@).map_values(|k: Seq<char>| todo_id(k)),
{
    let n = prev.len();
    let ghost keys = prev.keys_in_order();
    let mut r: Vec<String> = Vec::new();
    let mut i: usize = 0;
    proof {
        lemma_sorted(*prev);
        assert(keys.take(0) =~= Seq::empty());
    }
    while i < n
        invariant
            i <= n == keys.len(),
            keys == prev.keys_in_order(),
            r@.len() == gone(keys.take(i as int), next@).len(),
            forall|j: int| 0 <= j < r@.len() ==> (#[trigger] r@[j])@ == todo_id(gone(keys.take(i as int), next@)[j]),
        decreases n - i,
    {
        let (key, _) = prev.entry(i);
        if !next.contains_key(key.as_str()) {
            r.push(todo_id_text(key));
        }
        assert(keys.take(i + 1).drop_last() =~= keys.take(i as int));
        assert(keys.take(i + 1).last() == keys[i as int]);
        i = i + 1;
    }
    assert(keys.take(n as int) =~= keys);
    assert(texts(r@) =~= gone(sorted_keys(prev@), next@).map_values(|k: Seq<char>| todo_id(k)));
    r
}

fn plan_files(prev: &TextMap<FsNode>, next: &TextMap<FsNode>) -> (r: Vec<FsNodeDoc>)
    ensures
        r@.map_values(|d: FsNodeDoc| d@) == changed(sorted_keys(next@), prev@, next@).map_values(
            |k: Seq<char>| fs_doc(k, next@[k]),
        ),
{
    let n = next.len();
    let ghost keys = next.keys_in_order();
    let mut r: Vec<FsNodeDoc> = Vec::new();
    let mut i: usize = 0;
    proof {
        lemma_sorted(*next);
        assert(keys.take(0) =~= Seq::empty());
    }
    while i < n
        invariant
            i <= n == keys.len(),
            keys == next.keys_in_order(),
            r@.len() == changed(keys.take(i as int), prev@, next@).len(),
            forall|j: int|
                0 <= j < r@.len() ==> (#[trigger] r@[j])@ == fs_doc(
                    changed(keys.take(i as int), prev@, next@)[j],
                    next@[changed(keys.take(i as int), prev@, next@)[j]],
                ),
        decreases n - i,
    {
        let (path, node) = next.entry(i);
        let unchanged = match prev.get(path.as_str()) {
            Some(p) => p.same(node),
            None => false,
        };
        if !unchanged {
            r.push(document_of_node(path, node));
        }
        assert(keys.take(i + 1).drop_last() =~= keys.take(i as int));
        assert(keys.take(i + 1).last() == keys[i as int]);
        i = i + 1;
    }
    assert(keys.take(n as int) =~= keys);
    assert(r@.map_values(|d: FsNodeDoc| d@) =~= changed(sorted_keys(next@), prev@, next@).map_values(
        |k: Seq<char>| fs_doc(k, next@[k]),
    ));
    r
}

fn plan_gone_files(prev: &TextMap<FsNode>, next: &TextMap<FsNode>) -> (r: Vec<String>)
    ensures
        texts(r@) == gone(sorted_keys(prev@), next@).map_values(|k: Seq<char>| fs_id(k)),
{
    let n = prev.len();
    let ghost keys = prev.keys_in_order();
    let mut r: Vec<String> = Vec::new();
    let mut i: usize = 0;
    proof {
        lemma_sorted(*prev);
        assert(keys.take(0) =~= Seq::empty());
    }
    while i < n
        invariant
            i <= n == keys.len(),
            keys == prev.keys_in_order(),
            r@.len() == gone(keys.take(i as int), next@).len(),
            forall|j: int| 0 <= j < r@.len() ==> (#[trigger] r@[j])@ == fs_id(gone(keys.take(i as int), next@)[j]),
        decreases n - i,
    {
        let (path, _) = prev.entry(i);
        if !next.contains_key(path.as_str()) {
            r.push(fs_id_text(path));
        }
        assert(keys.take(i + 1).drop_last() =~= keys.take(i as int));
        assert(keys.take(i + 1).last() == keys[i as int]);
        i = i + 1;
    }
    assert(keys.take(n as int) =~= keys);
    assert(texts(r@) =~= gone(sorted_keys(prev@), next@).map_values(|k: Seq<char>| fs_id(k)));
    r
}

fn header_of(job: &MatJob, name: &str, branch: &BranchState) -> (r: RoomMeta)
    ensures
        r@ == meta_doc(job@, name@, branch@),
{
    RoomMeta {
        id: "meta".to_owned(),
        room: key_text(&job.room),
        title: copy_or_empty(&job.state.title),
        app: copy_or_empty(&job.state.app),
        branch: name.to_owned(),
        forked_from: copy_or_empty(&branch.forked_from),
        version: job.version as i32,
    }
}

fn same_header(a: &RoomMeta, b: &RoomMeta) -> (r: bool)
    ensures
        r == (a@ == b@),
{
    same_text(a.id.as_str(), b.id.as_str()) && same_text(a.room.as_str(), b.room.as_str()) && same_text(
        a.title.as_str(),
        b.title.as_str(),
    ) && same_text(a.app.as_str(), b.app.as_str()) && same_text(a.branch.as_str(), b.branch.as_str()) && same_text(
        a.forked_from.as_str(),
        b.forked_from.as_str(),
    ) && a.version == b.version
}

/// The header, if there is one.
pub open spec fn header_view(header: Option<&RoomMeta>) -> Option<MetaDocView> {
    match header {
        Some(meta) => Some(meta@),
        None => None,
    }
}

/// The writes that bring a branch of the database, which holds `known` and may hold
/// `left`, from under `header` to `next`.
pub fn plan_branch(
    known: &BranchState,
    left: &BranchState,
    header: Option<&RoomMeta>,
    next: &BranchState,
    name: &str,
    job: &MatJob,
) -> (r: Option<BranchPlan>)
    ensures
        match r {
            Some(plan) => plan_for(known@, left@, header_view(header), next@, name@, job@) == Some(plan@),
            None => plan_for(known@, left@, header_view(header), next@, name@, job@) is None,
        },
{
    let meta = header_of(job, name, next);
    let same = match header {
        Some(last) => same_header(last, &meta),
        None => false,
    };
    if same && known.same(next) && left.same(next) && job.version > 1 {
        return None;
    }
    let mut message = "materialise room ".to_owned();
    message.push_str(key_text(&job.room).as_str());
    message.push_str(" v");
    message.push_str(decimal_text(job.version).as_str());
    let plan = BranchPlan {
        author: COMMIT_AUTHOR.to_owned(),
        message,
        meta,
        chat: plan_chat(&known.chat, &next.chat),
        todos: plan_todos(&known.todos, &next.todos),
        gone_todos: plan_gone_todos(&left.todos, &next.todos),
        files: plan_files(&known.files, &next.files),
        gone_files: plan_gone_files(&left.files, &next.files),
    };
    Some(plan)
}

// --- what has been written -----------------------------------------------------------

/// What a branch of a database got, and the header it was written under. A fork
/// that was not written yet has no header: it got what its parent had.
struct Written {
    branch: BranchState,
    meta: Option<RoomMeta>,
}

/// What a branch of a database got, and the header it was written under, if it was
/// written.
pub struct WrittenView {
    pub branch: BranchView,
    pub meta: Option<MetaDocView>,
}

impl View for Written {
    type V = WrittenView;

    closed spec fn view(&self) -> WrittenView {
        WrittenView {
            branch: self.branch@,
            meta: match self.meta {
                Some(meta) => Some(meta@),
                None => None,
            },
        }
    }
}

/// What is known of the databases: which are ready, which of their branches
/// exist, and what each branch last got.
pub struct Materialiser {
    ensured_dbs: Table<String, ()>,
    /// Database and branch.
    known_branches: Table<(String, String), ()>,
    /// Database and branch, to what the branch last got, for the difference.
    written: Table<(String, String), Written>,
}

/// What a [`Materialiser`] stands for.
pub struct MaterialiserView {
    pub ensured_dbs: Set<Seq<char>>,
    pub known_branches: Set<(Seq<char>, Seq<char>)>,
    pub written: Map<(Seq<char>, Seq<char>), WrittenView>,
}

impl View for Materialiser {
    type V = MaterialiserView;

    closed spec fn view(&self) -> MaterialiserView {
        MaterialiserView {
            ensured_dbs: self.ensured_dbs@.dom(),
            known_branches: self.known_branches@.dom(),
            written: self.written@.map_values(|w: Written| w@),
        }
    }
}

/// A branch of a database that has to be made, and the branch to fork it from.
#[derive(Clone, Debug, PartialEq, Eq)]
pub struct NewBranch {
    pub name: String,
    pub parent: String,
    pub path: String,
    pub origin: String,
}

/// The path of a branch of a database.
pub open spec fn branch_path(org: Seq<char>, db: Seq<char>, name: Seq<char>) -> Seq<char> {
    org + "/"@ + db + "/local/branch/"@ + name
}

/// The branch that a branch of a room was forked from, `main` where it was not.
pub open spec fn parent_of(b: BranchView) -> Seq<char> {
    match b.forked_from {
        Some(parent) => parent,
        None => MAIN_BRANCH@,
    }
}

/// The one branch was forked before the other, or, where both were forked at the
/// same place in the log, comes first by its name.
pub open spec fn forked_before(branches: Map<Seq<char>, BranchView>, a: Seq<char>, b: Seq<char>) -> bool {
    ||| branches[a].forked_at_op < branches[b].forked_at_op
    ||| branches[a].forked_at_op == branches[b].forked_at_op && text_lt(a, b)
}

/// `names` lists the branches that `db` is not known to have, each once, in the
/// order in which they were forked.
pub open spec fn lists_new(
    names: Seq<Seq<char>>,
    branches: Map<Seq<char>, BranchView>,
    known: Set<(Seq<char>, Seq<char>)>,
    db: Seq<char>,
) -> bool {
    &&& forall|name: Seq<char>| #[trigger]
        names.contains(name) <==> branches.contains_key(name) && !known.contains((db, name))
    &&& forall|i: int, j: int|
        0 <= i < j < names.len() ==> forked_before(branches, #[trigger] names[i], #[trigger] names[j])
}

/// The branches that `db` is not known to have, in the order in which they were
/// forked.
pub open spec fn new_names(
    branches: Map<Seq<char>, BranchView>,
    known: Set<(Seq<char>, Seq<char>)>,
    db: Seq<char>,
) -> Seq<Seq<char>> {
    choose|names: Seq<Seq<char>>| lists_new(names, branches, known, db)
}

/// There is one way to list the branches that a database is not known to have.
proof fn lemma_new_listing_is_unique(
    a: Seq<Seq<char>>,
    b: Seq<Seq<char>>,
    branches: Map<Seq<char>, BranchView>,
    known: Set<(Seq<char>, Seq<char>)>,
    db: Seq<char>,
)
    requires
        lists_new(a, branches, known, db),
        lists_new(b, branches, known, db),
    ensures
        a == b,
    decreases a.len(),
{
    if a.len() == 0 || b.len() == 0 {
        if a.len() > 0 {
            assert(b.contains(a[0])) by {
                assert(a.contains(a[0]));
            }
        }
        if b.len() > 0 {
            assert(a.contains(b[0])) by {
                assert(b.contains(b[0]));
            }
        }
        assert(a =~= b);
    } else {
        let x = a.last();
        let y = b.last();
        assert(a.contains(x) && b.contains(y));
        assert(b.contains(x) && a.contains(y));
        let i = choose|i: int| 0 <= i < a.len() && a[i] == y;
        let j = choose|j: int| 0 <= j < b.len() && b[j] == x;
        lemma_text_lt_total(x, y);
        assert(x == y) by {
            if i < a.len() - 1 {
                assert(forked_before(branches, a[i], a[a.len() - 1]));
            }
            if j < b.len() - 1 {
                assert(forked_before(branches, b[j], b[b.len() - 1]));
            }
        }
        let more = known.insert((db, x));
        lemma_new_listing_without_last(a, branches, known, db);
        lemma_new_listing_without_last(b, branches, known, db);
        lemma_new_listing_is_unique(a.drop_last(), b.drop_last(), branches, more, db);
        assert(a =~= a.drop_last().push(x));
        assert(b =~= b.drop_last().push(x));
    }
}

proof fn lemma_new_listing_without_last(
    a: Seq<Seq<char>>,
    branches: Map<Seq<char>, BranchView>,
    known: Set<(Seq<char>, Seq<char>)>,
    db: Seq<char>,
)
    requires
        lists_new(a, branches, known, db),
        a.len() > 0,
    ensures
        lists_new(a.drop_last(), branches, known.insert((db, a.last())), db),
{
    let init = a.drop_last();
    let x = a.last();
    assert forall|name: Seq<char>| #[trigger] init.contains(name) <==> branches.contains_key(name) && !known.insert(
        (db, x),
    ).contains((db, name)) by {
        if init.contains(name) {
            let i = choose|i: int| 0 <= i < init.len() && init[i] == name;
            assert(a[i] == name);
            assert(a.contains(name));
            assert(forked_before(branches, a[i], a[a.len() - 1]));
            lemma_text_lt_total(name, x);
        } else if a.contains(name) {
            let i = choose|i: int| 0 <= i < a.len() && a[i] == name;
            assert(i == a.len() - 1) by {
                if i < init.len() {
                    assert(init[i] == name);
                }
            }
        }
    }
    assert forall|i: int, j: int| 0 <= i < j < init.len() implies forked_before(
        branches,
        #[trigger] init[i],
        #[trigger] init[j],
    ) by {
        assert(forked_before(branches, a[i], a[j]));
    }
}

/// What a [`NewBranch`] stands for.
pub struct ForkView {
    pub name: Seq<char>,
    pub parent: Seq<char>,
    pub path: Seq<char>,
    pub origin: Seq<char>,
}

impl View for NewBranch {
    type V = ForkView;

    open spec fn view(&self) -> ForkView {
        ForkView { name: self.name@, parent: self.parent@, path: self.path@, origin: self.origin@ }
    }
}

/// The branches of a list.
pub open spec fn forks_view(forks: Seq<NewBranch>) -> Seq<ForkView> {
    forks.map_values(|f: NewBranch| f@)
}

/// A branch of a room that its database is to get.
pub open spec fn fork_for(org: Seq<char>, db: Seq<char>, name: Seq<char>, b: BranchView) -> ForkView {
    ForkView {
        name,
        parent: parent_of(b),
        path: branch_path(org, db, name),
        origin: branch_path(org, db, parent_of(b)),
    }
}

/// The branches of a room that its database does not have yet, in the order in
/// which they were forked, each with the branch to fork it from.
pub open spec fn forks_for(
    org: Seq<char>,
    db: Seq<char>,
    state: RoomView,
    known: Set<(Seq<char>, Seq<char>)>,
) -> Seq<ForkView> {
    new_names(state.branches, known, db).map_values(|name: Seq<char>| fork_for(org, db, name, state.branches[name]))
}

/// The known branches, once those of a room are among them.
pub open spec fn known_after(known: Set<(Seq<char>, Seq<char>)>, db: Seq<char>, state: RoomView) -> Set<
    (Seq<char>, Seq<char>),
> {
    Set::new(
        |pair: (Seq<char>, Seq<char>)| known.contains(pair) || (pair.0 == db && state.branches.contains_key(pair.1)),
    )
}

/// The header that a branch was last written under.
pub open spec fn last_header(mat: MaterialiserView, db: Seq<char>, name: Seq<char>) -> Option<MetaDocView> {
    if mat.written.contains_key((db, name)) {
        mat.written[(db, name)].meta
    } else {
        None
    }
}

/// What was last written of a branch: nothing, as long as nothing was.
pub open spec fn last_written(mat: MaterialiserView, db: Seq<char>, name: Seq<char>) -> BranchView {
    if last_header(mat, db, name) is Some {
        mat.written[(db, name)].branch
    } else {
        empty_branch()
    }
}

/// What a branch of a database may hold: what was last written of it, or, for a
/// fork that was not written yet, what its parent had.
pub open spec fn may_hold(mat: MaterialiserView, db: Seq<char>, name: Seq<char>) -> BranchView {
    if mat.written.contains_key((db, name)) {
        mat.written[(db, name)].branch
    } else {
        empty_branch()
    }
}

/// The writes for a branch of a room, by what its database got of it.
pub open spec fn next_plan(
    mat: MaterialiserView,
    db: Seq<char>,
    name: Seq<char>,
    branch: BranchView,
    job: JobView,
) -> Option<PlanView> {
    plan_for(last_written(mat, db, name), may_hold(mat, db, name), last_header(mat, db, name), branch, name, job)
}

/// Once a branch has been written.
pub open spec fn with_written(
    mat: MaterialiserView,
    db: Seq<char>,
    name: Seq<char>,
    branch: BranchView,
    job: JobView,
) -> MaterialiserView {
    MaterialiserView {
        written: mat.written.insert((db, name), WrittenView { branch, meta: Some(meta_doc(job, name, branch)) }),
        ..mat
    }
}

/// Once a branch has been forked: nothing was written of it yet, but it may hold
/// what its parent may hold.
pub open spec fn with_fork(
    mat: MaterialiserView,
    db: Seq<char>,
    parent: Seq<char>,
    name: Seq<char>,
) -> MaterialiserView {
    MaterialiserView {
        written: mat.written.insert((db, name), WrittenView { branch: may_hold(mat, db, parent), meta: None }),
        ..mat
    }
}

fn path_of(org: &str, db: &str, name: &str) -> (r: String)
    ensures
        r@ == branch_path(org@, db@, name@),
{
    let mut r = org.to_owned();
    r.push_str("/");
    r.push_str(db);
    r.push_str("/local/branch/");
    r.push_str(name);
    r
}

/// The keys at some places.
spec fn names_at(places: Seq<usize>, keys: Seq<Seq<char>>) -> Seq<Seq<char>> {
    places.map_values(|p: usize| keys[p as int])
}

/// `places` are those, of the first `upto` places, at which a branch stands that
/// `db` is not known to have, in the order in which the branches were forked.
spec fn places_upto(
    places: Seq<usize>,
    upto: int,
    keys: Seq<Seq<char>>,
    branches: Map<Seq<char>, BranchView>,
    known: Set<(Seq<char>, Seq<char>)>,
    db: Seq<char>,
) -> bool {
    &&& forall|i: int| 0 <= i < places.len() ==> (#[trigger] places[i]) < upto && !known.contains(
        (db, keys[places[i] as int]),
    )
    &&& forall|p: usize| p < upto && !known.contains((db, #[trigger] keys[p as int])) ==> places.contains(p)
    &&& forall|i: int, j: int|
        0 <= i < j < places.len() ==> place_before(keys, branches, #[trigger] places[i], #[trigger] places[j])
}

spec fn place_before(keys: Seq<Seq<char>>, branches: Map<Seq<char>, BranchView>, p: usize, q: usize) -> bool {
    ||| branches[keys[p as int]].forked_at_op < branches[keys[q as int]].forked_at_op
    ||| branches[keys[p as int]].forked_at_op == branches[keys[q as int]].forked_at_op && p < q
}

/// `places` are those of all branches that `db` is not known to have.
spec fn places_new(
    places: Seq<usize>,
    keys: Seq<Seq<char>>,
    branches: Map<Seq<char>, BranchView>,
    known: Set<(Seq<char>, Seq<char>)>,
    db: Seq<char>,
) -> bool {
    &&& keys.len() <= usize::MAX
    &&& lists_keys(keys, branches)
    &&& places_upto(places, keys.len() as int, keys, branches, known, db)
}

proof fn lemma_place_skipped(
    places: Seq<usize>,
    i: int,
    keys: Seq<Seq<char>>,
    branches: Map<Seq<char>, BranchView>,
    known: Set<(Seq<char>, Seq<char>)>,
    db: Seq<char>,
)
    requires
        places_upto(places, i, keys, branches, known, db),
        known.contains((db, keys[i])),
    ensures
        places_upto(places, i + 1, keys, branches, known, db),
{
    assert forall|p: usize| p < i + 1 && !known.contains((db, #[trigger] keys[p as int])) implies places.contains(
        p,
    ) by {
        assert(p < i);
    }
}

proof fn lemma_place_inserted(
    places: Seq<usize>,
    k: int,
    i: usize,
    keys: Seq<Seq<char>>,
    branches: Map<Seq<char>, BranchView>,
    known: Set<(Seq<char>, Seq<char>)>,
    db: Seq<char>,
)
    requires
        places_upto(places, i as int, keys, branches, known, db),
        !known.contains((db, keys[i as int])),
        0 <= k <= places.len(),
        k > 0 ==> branches[keys[places[k - 1] as int]].forked_at_op <= branches[keys[i as int]].forked_at_op,
        forall|m: int|
            k <= m < places.len() ==> branches[keys[(#[trigger] places[m]) as int]].forked_at_op
                > branches[keys[i as int]].forked_at_op,
    ensures
        places_upto(places.insert(k, i), i + 1, keys, branches, known, db),
{
    let after = places.insert(k, i);
    assert forall|m: int| 0 <= m < after.len() implies (#[trigger] after[m]) < i + 1 && !known.contains(
        (db, keys[after[m] as int]),
    ) by {
        if m < k {
            assert(after[m] == places[m]);
        } else if m > k {
            assert(after[m] == places[m - 1]);
        }
    }
    assert forall|p: usize| p < i + 1 && !known.contains((db, #[trigger] keys[p as int])) implies after.contains(
        p,
    ) by {
        if p == i {
            assert(after[k] == p);
        } else {
            assert(places.contains(p));
            let m = choose|m: int| 0 <= m < places.len() && places[m] == p;
            assert(after[if m < k { m } else { m + 1 }] == p);
        }
    }
    assert forall|x: int, y: int| 0 <= x < y < after.len() implies place_before(
        keys,
        branches,
        #[trigger] after[x],
        #[trigger] after[y],
    ) by {
        if y == k {
            assert(after[x] == places[x]);
            if x < k - 1 {
                assert(place_before(keys, branches, places[x], places[k - 1]));
            }
        } else if x == k {
            assert(after[y] == places[y - 1]);
        } else {
            let a = if x < k { x } else { x - 1 };
            let b = if y < k { y } else { y - 1 };
            assert(place_before(keys, branches, places[a], places[b]));
        }
    }
}

proof fn lemma_places_list_names(
    places: Seq<usize>,
    keys: Seq<Seq<char>>,
    branches: Map<Seq<char>, BranchView>,
    known: Set<(Seq<char>, Seq<char>)>,
    db: Seq<char>,
)
    requires
        places_new(places, keys, branches, known, db),
    ensures
        lists_new(names_at(places, keys), branches, known, db),
{
    let names = names_at(places, keys);
    assert forall|name: Seq<char>| #[trigger] names.contains(name) <==> branches.contains_key(name)
        && !known.contains((db, name)) by {
        if names.contains(name) {
            let i = choose|i: int| 0 <= i < names.len() && names[i] == name;
            assert(places[i] < keys.len());
            assert(keys.contains(name));
        }
        if branches.contains_key(name) && !known.contains((db, name)) {
            assert(keys.contains(name));
            let p = choose|p: int| 0 <= p < keys.len() && keys[p] == name;
            assert(keys[(p as usize) as int] == name);
            assert(places.contains(p as usize));
            let i = choose|i: int| 0 <= i < places.len() && places[i] == p as usize;
            assert(names[i] == name);
        }
    }
    assert forall|i: int, j: int| 0 <= i < j < names.len() implies forked_before(
        branches,
        #[trigger] names[i],
        #[trigger] names[j],
    ) by {
        assert(place_before(keys, branches, places[i], places[j]));
        if places[i] < places[j] {
            assert(text_lt(keys[places[i] as int], keys[places[j] as int]));
        }
    }
}

impl Default for Materialiser {
    fn default() -> (r: Self)
        ensures
            r@ == (MaterialiserView {
                ensured_dbs: Set::empty(),
                known_branches: Set::empty(),
                written: Map::empty(),
            }),
    {
        let r = Materialiser { ensured_dbs: Table::new(), known_branches: Table::new(), written: Table::new() };
        assert(r@.ensured_dbs =~= Set::empty());
        assert(r@.known_branches =~= Set::empty());
        assert(r@.written =~= Map::empty());
        r
    }
}

impl Materialiser {
    /// Whether a database is ready: made, with its schema.
    pub fn is_ready(&self, db: &str) -> (r: bool)
        ensures
            r == self@.ensured_dbs.contains(db@),
    {
        self.ensured_dbs.get(&db.to_owned()).is_some()
    }

    /// Notes that a database is ready. It has the branch `main`.
    pub fn note_ready(&mut self, db: &str)
        ensures
            final(self)@ == (MaterialiserView {
                ensured_dbs: old(self)@.ensured_dbs.insert(db@),
                known_branches: old(self)@.known_branches.insert((db@, MAIN_BRANCH@)),
                ..old(self)@
            }),
    {
        let _ = self.ensured_dbs.insert(db.to_owned(), ());
        let _ = self.known_branches.insert((db.to_owned(), MAIN_BRANCH.to_owned()), ());
        assert(self@.ensured_dbs =~= old(self)@.ensured_dbs.insert(db@));
        assert(self@.known_branches =~= old(self)@.known_branches.insert((db@, MAIN_BRANCH@)));
    }

    /// The places of the branches that a database is not known to have, in the
    /// order in which they were forked.
    fn new_places(&self, db: &str, branches: &TextMap<BranchState>) -> (r: Vec<usize>)
        ensures
            places_new(r@, branches.keys_in_order(), branches@, self@.known_branches, db@),
            lists_keys(branches.keys_in_order(), branches@),
    {
        let n = branches.len();
        let ghost keys = branches.keys_in_order();
        let mut r: Vec<usize> = Vec::new();
        let mut i: usize = 0;
        while i < n
            invariant
                i <= n == keys.len(),
                keys == branches.keys_in_order(),
                lists_keys(keys, branches@),
                places_upto(r@, i as int, keys, branches@, self@.known_branches, db@),
            decreases n - i,
        {
            let (name, branch) = branches.entry(i);
            let at = branch.forked_at_op;
            if self.known_branches.get(&(db.to_owned(), name.clone())).is_none() {
                let mut k: usize = r.len();
                while k > 0 && branches.entry(r[k - 1]).1.forked_at_op > at
                    invariant
                        k <= r@.len(),
                        i < n == keys.len(),
                        keys == branches.keys_in_order(),
                        at == branches@[keys[i as int]].forked_at_op,
                        places_upto(r@, i as int, keys, branches@, self@.known_branches, db@),
                        forall|m: int|
                            k <= m < r@.len() ==> branches@[keys[(#[trigger] r@[m]) as int]].forked_at_op > at,
                    decreases k,
                {
                    k = k - 1;
                }
                let ghost before = r@;
                r.insert(k, i);
                proof {
                    lemma_place_inserted(before, k as int, i, keys, branches@, self@.known_branches, db@);
                }
            } else {
                proof {
                    lemma_place_skipped(r@, i as int, keys, branches@, self@.known_branches, db@);
                }
            }
            i = i + 1;
        }
        r
    }

    /// The branches of a room that its database does not have yet, in the order in
    /// which they were forked, each to be forked from the branch that it was forked
    /// from in the room. They are known from now on.
    pub fn new_branches(&mut self, org: &str, db: &str, state: &RoomState) -> (r: Vec<NewBranch>)
        ensures
            forks_view(r@) == forks_for(org@, db@, state@, old(self)@.known_branches),
            lists_new(
                new_names(state@.branches, old(self)@.known_branches, db@),
                state@.branches,
                old(self)@.known_branches,
                db@,
            ),
            final(self)@ == (MaterialiserView {
                known_branches: known_after(old(self)@.known_branches, db@, state@),
                ..old(self)@
            }),
    {
        let places = self.new_places(db, &state.branches);
        let ghost keys = state.branches.keys_in_order();
        let ghost known = self@.known_branches;
        let ghost names = names_at(places@, keys);
        proof {
            lemma_places_list_names(places@, keys, state@.branches, known, db@);
            lemma_new_listing_is_unique(names, new_names(state@.branches, known, db@), state@.branches, known, db@);
        }
        let mut r: Vec<NewBranch> = Vec::new();
        let mut i: usize = 0;
        while i < places.len()
            invariant
                i <= places@.len(),
                keys == state.branches.keys_in_order(),
                names == names_at(places@, keys),
                known == old(self)@.known_branches,
                places_new(places@, keys, state@.branches, known, db@),
                self@.ensured_dbs == old(self)@.ensured_dbs,
                self@.written == old(self)@.written,
                r@.len() == i,
                forall|j: int|
                    0 <= j < i ==> (#[trigger] r@[j])@ == fork_for(
                        org@,
                        db@,
                        names[j],
                        state@.branches[names[j]],
                    ),
                forall|pair: (Seq<char>, Seq<char>)|
                    #![trigger self@.known_branches.contains(pair)]
                    self@.known_branches.contains(pair) <==> known.contains(pair) || (pair.0 == db@ && exists|j: int|
                        0 <= j < i && #[trigger] names[j] == pair.1),
            decreases places@.len() - i,
        {
            assert(places@[i as int] < keys.len());
            let (name, branch) = state.branches.entry(places[i]);
            let ghost before = self@.known_branches;
            let parent = match &branch.forked_from {
                Some(parent) => parent.as_str(),
                None => MAIN_BRANCH,
            };
            r.push(
                NewBranch {
                    name: name.clone(),
                    parent: parent.to_owned(),
                    path: path_of(org, db, name.as_str()),
                    origin: path_of(org, db, parent),
                },
            );
            let _ = self.known_branches.insert((db.to_owned(), name.clone()), ());
            proof {
                assert(names[i as int] == name@);
                assert(self@.known_branches =~= before.insert((db@, name@)));
                assert forall|p: (Seq<char>, Seq<char>)|
                    #![trigger self@.known_branches.contains(p)]
                    self@.known_branches.contains(p) <==> known.contains(p) || (p.0 == db@ && exists|j: int|
                        0 <= j < i + 1 && #[trigger] names[j] == p.1) by {
                    if p == (db@, name@) {
                        assert(names[i as int] == p.1);
                    } else {
                        assert(self@.known_branches.contains(p) == before.contains(p));
                    }
                }
            }
            i = i + 1;
        }
        proof {
            assert forall|p: (Seq<char>, Seq<char>)|
                #![trigger self@.known_branches.contains(p)]
                self@.known_branches.contains(p) <==> known.contains(p) || (p.0 == db@
                    && state@.branches.contains_key(p.1)) by {
                if p.0 == db@ {
                    assert(names.contains(p.1) <==> state@.branches.contains_key(p.1) && !known.contains((db@, p.1)));
                    if names.contains(p.1) {
                        let j = choose|j: int| 0 <= j < names.len() && names[j] == p.1;
                        assert(names[j] == p.1);
                    }
                    if exists|j: int| 0 <= j < i && #[trigger] names[j] == p.1 {
                        assert(names.contains(p.1));
                    }
                }
            }
            assert(self@.known_branches =~= known_after(known, db@, state@));
            assert(forks_view(r@) =~= forks_for(org@, db@, state@, known));
        }
        r
    }

    /// The writes for a branch of a room.
    pub fn plan(&self, db: &str, name: &str, branch: &BranchState, job: &MatJob) -> (r: Option<BranchPlan>)
        ensures
            match r {
                Some(plan) => next_plan(self@, db@, name@, branch@, job@) == Some(plan@),
                None => next_plan(self@, db@, name@, branch@, job@) is None,
            },
    {
        let nothing = BranchState::default();
        match self.written.get(&(db.to_owned(), name.to_owned())) {
            Some(last) => match &last.meta {
                Some(meta) => plan_branch(&last.branch, &last.branch, Some(meta), branch, name, job),
                None => plan_branch(&nothing, &last.branch, None, branch, name, job),
            },
            None => plan_branch(&nothing, &nothing, None, branch, name, job),
        }
    }

    /// Notes that a branch has been written as the job has it.
    pub fn note_written(&mut self, db: &str, name: &str, branch: &BranchState, job: &MatJob)
        ensures
            final(self)@ == with_written(old(self)@, db@, name@, branch@, job@),
    {
        let now = Written { branch: branch.duplicate(), meta: Some(header_of(job, name, branch)) };
        let ghost w = now@;
        let _ = self.written.insert((db.to_owned(), name.to_owned()), now);
        assert(self@.written =~= old(self)@.written.insert((db@, name@), w));
    }

    /// Notes that a branch has been forked: it may hold what its parent may hold.
    pub fn note_forked(&mut self, db: &str, parent: &str, name: &str)
        ensures
            final(self)@ == with_fork(old(self)@, db@, parent@, name@),
    {
        let branch = match self.written.get(&(db.to_owned(), parent.to_owned())) {
            Some(last) => last.branch.duplicate(),
            None => BranchState::default(),
        };
        let copy = Written { branch, meta: None };
        let ghost w = copy@;
        let _ = self.written.insert((db.to_owned(), name.to_owned()), copy);
        assert(self@.written =~= old(self)@.written.insert((db@, name@), w));
    }
}

// --- jobs ----------------------------------------------------------------------------

/// The newest job of each room.
pub open spec fn newest(jobs: Seq<MatJob>) -> Map<Seq<u8>, MatJob>
    decreases jobs.len(),
{
    if jobs.len() == 0 {
        Map::empty()
    } else {
        newest(jobs.drop_last()).insert(jobs.last().room@, jobs.last())
    }
}

/// Jobs under their rooms.
pub open spec fn by_room(jobs: Seq<MatJob>) -> Seq<(Seq<u8>, MatJob)> {
    Seq::new(jobs.len(), |i: int| (jobs[i].room@, jobs[i]))
}

/// The newest job of each room, in any order: under load only that matters.
pub fn coalesce(jobs: Vec<MatJob>) -> (r: Vec<MatJob>)
    ensures
        lists(by_room(r@), newest(jobs@)),
{
    let ghost given = jobs@;
    let mut latest: Table<[u8; 32], MatJob> = Table::new();
    let ghost mut n: int = 0;
    assert(given.take(0) =~= Seq::empty());
    for job in it: jobs
        invariant
            it.seq() == given,
            n == it.index(),
            latest@ == newest(given.take(n)),
            forall|k: Seq<u8>| #[trigger] latest@.contains_key(k) ==> latest@[k].room@ == k,
    {
        assert(given.take(n + 1).drop_last() =~= given.take(n));
        assert(given.take(n + 1).last() == job);
        let _ = latest.insert(job.room, job);
        proof {
            n = n + 1;
        }
    }
    assert(given.take(n) =~= given);
    let listed = latest.into_entries();
    let ghost pairs = owned_entries(listed@);
    let ghost m = newest(given);
    let mut r: Vec<MatJob> = Vec::new();
    proof {
        n = 0;
    }
    for entry in it: listed
        invariant
            n == it.index(),
            pairs == owned_entries(it.seq()),
            lists(pairs, m),
            forall|k: Seq<u8>| #[trigger] m.contains_key(k) ==> m[k].room@ == k,
            by_room(r@) == pairs.take(n),
    {
        let ghost before = r@;
        let (_, job) = entry;
        r.push(job);
        proof {
            assert(pairs[n].1 == job);
            assert(m.contains_key(pairs[n].0));
            assert(by_room(r@) =~= by_room(before).push((job.room@, job)));
            assert(pairs.take(n + 1) =~= pairs.take(n).push(pairs[n]));
            n = n + 1;
        }
    }
    assert(pairs.take(n) =~= pairs);
    r
}

// --- status --------------------------------------------------------------------------

/// How far a room is materialised.
#[derive(Clone, Debug)]
pub struct MatRoomStatus {
    pub db: String,
    pub last_version: u64,
    pub branches: Vec<String>,
    pub last_error: Option<String>,
}

impl Default for MatRoomStatus {
    fn default() -> (r: Self)
        ensures
            r.db@.len() == 0,
            r.last_version == 0,
            r.branches@.len() == 0,
            r.last_error is None,
    {
        MatRoomStatus { db: String::new(), last_version: 0, branches: Vec::new(), last_error: None }
    }
}

/// Where and whether to materialise.
#[derive(Clone, Debug)]
pub struct MaterialiserConfig {
    pub url: String,
    pub user: String,
    pub pass: String,
    pub org: String,
    pub enabled: bool,
}

impl MatRoomStatus {
    /// Notes what became of a job: with success the status moves on to its version
    /// and branches, with a failure only the error is noted.
    pub fn note(&mut self, db: &str, job: &MatJob, outcome: Result<(), String>)
        ensures
            final(self).db@ == db@,
            match outcome {
                Ok(_) => {
                    &&& final(self).last_version == job.version
                    &&& lists_keys(texts(final(self).branches@), job@.state.branches)
                    &&& final(self).last_error is None
                },
                Err(e) => {
                    &&& final(self).last_version == old(self).last_version
                    &&& final(self).branches == old(self).branches
                    &&& final(self).last_error == Some(e)
                },
            },
    {
        self.db = db.to_owned();
        match outcome {
            Ok(_) => {
                self.last_version = job.version;
                self.branches = job.state.branch_names();
                self.last_error = None;
            },
            Err(e) => {
                self.last_error = Some(e);
            },
        }
    }
}

} // verus!
