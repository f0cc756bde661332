//! The state of a room: its branches, and what each of them holds.

use vstd::prelude::*;

use crate::op::MAIN_BRANCH;
use crate::text::{copy_opt_text, opt_text, same_opt_text, same_text};
use crate::text_map::{lists_keys, texts, Plain, TextMap};

verus! {

/// The place of an entry in the log of one writer.
#[derive(Clone, Copy, Debug, PartialEq, Eq)]
pub struct NodeId {
    pub key: [u8; 32],
    pub seq: u64,
}

impl NodeId {
    pub fn new(key: [u8; 32], seq: u64) -> (r: Self)
        ensures
            r.key == key,
            r.seq == seq,
    {
        NodeId { key, seq }
    }
}

/// A chat message inside one branch.
#[derive(Clone, Debug, PartialEq, Eq)]
pub struct ChatMessage {
    /// Hex-encoded writer key of the author.
    pub author: String,
    /// Self-reported display name carried on the message.
    pub nick: Option<String>,
    pub text: String,
    /// Position in the linearized op stream when this was applied: a stable
    /// ordering handle that does not depend on the replica.
    pub at_op: u64,
}

/// A todo item inside one branch.
#[derive(Clone, Debug, PartialEq, Eq)]
pub struct TodoItem {
    pub id: String,
    pub title: String,
    pub done: bool,
    pub author: String,
    pub created_at_op: u64,
}

/// A node in the virtual filesystem of one branch.
#[derive(Clone, Debug, PartialEq, Eq)]
pub enum FsNode {
    Dir,
    File { content: String, author: String, modified_at_op: u64 },
}

/// State of one branch: all three example-app surfaces side by side.
#[derive(Debug, PartialEq, Eq)]
pub struct BranchState {
    /// Branch this one was forked from (`None` for `main`).
    pub forked_from: Option<String>,
    /// Value of `RoomState::ops_applied` at the fork point.
    pub forked_at_op: u64,
    pub chat: Vec<ChatMessage>,
    /// Keyed by client-chosen item id.
    pub todos: TextMap<TodoItem>,
    /// Keyed by normalized absolute path.
    pub files: TextMap<FsNode>,
}

/// The full folded state of a room across all of its branches.
#[derive(Debug, PartialEq, Eq)]
pub struct RoomState {
    pub title: Option<String>,
    /// Hint for user interfaces, set at room creation.
    pub app: Option<String>,
    /// Writer key (hex) to display name; room-global across branches.
    pub nicks: TextMap<String>,
    pub branches: TextMap<BranchState>,
    /// Total ops applied, skipped ones among them: the version of this fold.
    pub ops_applied: u64,
}

// --- what they stand for -----------------------------------------------------------

/// What a [`ChatMessage`] stands for.
pub struct ChatView {
    pub author: Seq<char>,
    pub nick: Option<Seq<char>>,
    pub text: Seq<char>,
    pub at_op: u64,
}

/// What a [`TodoItem`] stands for.
pub struct TodoView {
    pub id: Seq<char>,
    pub title: Seq<char>,
    pub done: bool,
    pub author: Seq<char>,
    pub created_at_op: u64,
}

/// What an [`FsNode`] stands for.
pub enum FsView {
    Dir,
    File { content: Seq<char>, author: Seq<char>, modified_at_op: u64 },
}

/// What a [`BranchState`] stands for.
pub struct BranchView {
    pub forked_from: Option<Seq<char>>,
    pub forked_at_op: u64,
    pub chat: Seq<ChatView>,
    pub todos: Map<Seq<char>, TodoView>,
    pub files: Map<Seq<char>, FsView>,
}

/// What a [`RoomState`] stands for.
pub struct RoomView {
    pub title: Option<Seq<char>>,
    pub app: Option<Seq<char>>,
    pub nicks: Map<Seq<char>, Seq<char>>,
    pub branches: Map<Seq<char>, BranchView>,
    pub ops_applied: u64,
}

impl View for ChatMessage {
    type V = ChatView;

    open spec fn view(&self) -> ChatView {
        ChatView { author: self.author@, nick: opt_text(self.nick), text: self.text@, at_op: self.at_op }
    }
}

impl View for TodoItem {
    type V = TodoView;

    open spec fn view(&self) -> TodoView {
        TodoView {
            id: self.id@,
            title: self.title@,
            done: self.done,
            author: self.author@,
            created_at_op: self.created_at_op,
        }
    }
}

impl View for FsNode {
    type V = FsView;

    open spec fn view(&self) -> FsView {
        match *self {
            FsNode::Dir => FsView::Dir,
            FsNode::File { content, author, modified_at_op } => FsView::File {
                content: content@,
                author: author@,
                modified_at_op,
            },
        }
    }
}

/// The messages of a chat.
pub open spec fn chat_view(chat: Seq<ChatMessage>) -> Seq<ChatView> {
    chat.map_values(|m: ChatMessage| m@)
}

impl View for BranchState {
    type V = BranchView;

    open spec fn view(&self) -> BranchView {
        BranchView {
            forked_from: opt_text(self.forked_from),
            forked_at_op: self.forked_at_op,
            chat: chat_view(self.chat@),
            todos: self.todos@,
            files: self.files@,
        }
    }
}

impl View for RoomState {
    type V = RoomView;

    open spec fn view(&self) -> RoomView {
        RoomView {
            title: opt_text(self.title),
            app: opt_text(self.app),
            nicks: self.nicks@,
            branches: self.branches@,
            ops_applied: self.ops_applied,
        }
    }
}

/// A branch that nothing has happened on.
pub open spec fn empty_branch() -> BranchView {
    BranchView {
        forked_from: None,
        forked_at_op: 0,
        chat: Seq::empty(),
        todos: Map::empty(),
        files: Map::empty(),
    }
}

/// A room that nothing has happened in: it has the branch `main`, and no other.
pub open spec fn empty_room() -> RoomView {
    RoomView {
        title: None,
        app: None,
        nicks: Map::empty(),
        branches: Map::<Seq<char>, BranchView>::empty().insert(MAIN_BRANCH@, empty_branch()),
        ops_applied: 0,
    }
}

impl Default for BranchState {
    fn default() -> (r: Self)
        ensures
            r@ == empty_branch(),
    {
        let r = BranchState {
            forked_from: None,
            forked_at_op: 0,
            chat: Vec::new(),
            todos: TextMap::new(),
            files: TextMap::new(),
        };
        assert(r@.chat =~= Seq::empty());
        r
    }
}

impl Default for RoomState {
    fn default() -> (r: Self)
        ensures
            r@ == empty_room(),
    {
        let mut branches = TextMap::new();
        branches.insert(MAIN_BRANCH.to_owned(), BranchState::default());
        RoomState { title: None, app: None, nicks: TextMap::new(), branches, ops_applied: 0 }
    }
}

impl RoomState {
    /// The names of the branches, in order.
    pub fn branch_names(&self) -> (r: Vec<String>)
        ensures
            lists_keys(texts(r@), self@.branches),
    {
        self.branches.keys()
    }
}

// --- copies and comparisons ----------------------------------------------------------

impl Plain for ChatMessage {
    fn duplicate(&self) -> (r: Self) {
        ChatMessage {
            author: self.author.clone(),
            nick: copy_opt_text(&self.nick),
            text: self.text.clone(),
            at_op: self.at_op,
        }
    }

    fn same(&self, other: &Self) -> (r: bool) {
        same_text(self.author.as_str(), other.author.as_str()) && same_opt_text(&self.nick, &other.nick)
            && same_text(self.text.as_str(), other.text.as_str()) && self.at_op == other.at_op
    }
}

impl Plain for TodoItem {
    fn duplicate(&self) -> (r: Self) {
        TodoItem {
            id: self.id.clone(),
            title: self.title.clone(),
            done: self.done,
            author: self.author.clone(),
            created_at_op: self.created_at_op,
        }
    }

    fn same(&self, other: &Self) -> (r: bool) {
        same_text(self.id.as_str(), other.id.as_str()) && same_text(self.title.as_str(), other.title.as_str())
            && self.done == other.done && same_text(self.author.as_str(), other.author.as_str())
            && self.created_at_op == other.created_at_op
    }
}

impl Plain for FsNode {
    fn duplicate(&self) -> (r: Self) {
        match self {
            FsNode::Dir => FsNode::Dir,
            FsNode::File { content, author, modified_at_op } => FsNode::File {
                content: content.clone(),
                author: author.clone(),
                modified_at_op: *modified_at_op,
            },
        }
    }

    fn same(&self, other: &Self) -> (r: bool) {
        match (self, other) {
            (FsNode::Dir, FsNode::Dir) => true,
            (
                FsNode::File { content, author, modified_at_op },
                FsNode::File { content: c, author: a, modified_at_op: m },
            ) => same_text(content.as_str(), c.as_str()) && same_text(author.as_str(), a.as_str())
                && *modified_at_op == *m,
            _ => false,
        }
    }
}

/// A copy of a chat.
pub fn copy_chat(chat: &Vec<ChatMessage>) -> (r: Vec<ChatMessage>)
    ensures
        chat_view(r@) == chat_view(chat@),
{
    let mut r: Vec<ChatMessage> = Vec::new();
    let mut i: usize = 0;
    while i < chat.len()
        invariant
            i <= chat@.len(),
            r@.len() == i,
            forall|j: int| 0 <= j < i ==> (#[trigger] r@[j])@ == chat@[j]@,
        decreases chat@.len() - i,
    {
        r.push(chat[i].duplicate());
        i = i + 1;
    }
    assert(chat_view(r@) =~= chat_view(chat@));
    r
}

/// Whether two chats are the same.
pub fn same_chat(a: &Vec<ChatMessage>, b: &Vec<ChatMessage>) -> (r: bool)
    ensures
        r == (chat_view(a@) == chat_view(b@)),
{
    if a.len() != b.len() {
        assert(chat_view(a@).len() != chat_view(b@).len());
        return false;
    }
    let mut i: usize = 0;
    while i < a.len()
        invariant
            i <= a@.len() == b@.len(),
            forall|j: int| 0 <= j < i ==> (#[trigger] a@[j])@ == b@[j]@,
        decreases a@.len() - i,
    {
        if !a[i].same(&b[i]) {
            proof {
                assert(chat_view(a@)[i as int] != chat_view(b@)[i as int]);
            }
            return false;
        }
        i = i + 1;
    }
    assert(chat_view(a@) =~= chat_view(b@));
    true
}

impl Plain for BranchState {
    fn duplicate(&self) -> (r: Self) {
        BranchState {
            forked_from: copy_opt_text(&self.forked_from),
            forked_at_op: self.forked_at_op,
            chat: copy_chat(&self.chat),
            todos: self.todos.duplicate(),
            files: self.files.duplicate(),
        }
    }

    fn same(&self, other: &Self) -> (r: bool) {
        same_opt_text(&self.forked_from, &other.forked_from) && self.forked_at_op == other.forked_at_op && same_chat(
            &self.chat,
            &other.chat,
        ) && self.todos.same(&other.todos) && self.files.same(&other.files)
    }
}

impl Plain for RoomState {
    fn duplicate(&self) -> (r: Self) {
        RoomState {
            title: copy_opt_text(&self.title),
            app: copy_opt_text(&self.app),
            nicks: self.nicks.duplicate(),
            branches: self.branches.duplicate(),
            ops_applied: self.ops_applied,
        }
    }

    fn same(&self, other: &Self) -> (r: bool) {
        same_opt_text(&self.title, &other.title) && same_opt_text(&self.app, &other.app) && self.nicks.same(
            &other.nicks,
        ) && self.branches.same(&other.branches) && self.ops_applied == other.ops_applied
    }
}

impl Clone for BranchState {
    fn clone(&self) -> (r: Self)
        ensures
            r@ == self@,
    {
        self.duplicate()
    }
}

impl Clone for RoomState {
    fn clone(&self) -> (r: Self)
        ensures
            r@ == self@,
    {
        self.duplicate()
    }
}

} // verus!
