//! Op vocabulary and wire encoding of the room payload.
//!
//! The encoding is versioned JSON, so that browser clients can produce and
//! consume the exact bytes that end up in the ledger. A log is immutable
//! history, so decoding is tolerant: unknown versions and unknown op kinds are
//! skipped, never fatal.

use vstd::prelude::*;

use crate::json::{
    after_blanks, from_here, next_element, next_member, pass_blanks, read_element, read_member, read_string,
    read_value_within, string_at, value_within, Element, ElementView, JsonValue, JsonView, Member, MemberView,
    OPEN_LIST, OPEN_OBJECT,
};
use crate::text::{opt_text, same_text};

verus! {

/// Current envelope version. Decoders keep accepting old versions.
pub const ENVELOPE_VERSION: u32 = 1;

/// The branch every room starts with.
pub const MAIN_BRANCH: &'static str = "main";

/// The flat op vocabulary shared by all example apps.
///
/// A room is not typed to one app: every branch folds all three app states
/// (chat, todo, fs), and `SetApp` is only a hint for user interfaces.
#[allow(inconsistent_fields)]
#[derive(Clone, Debug, PartialEq, Eq)]
pub enum RoomOp {
    SetTitle { title: String },
    /// Which example front-end this room was created for.
    SetApp { app: String },
    /// A no-op anchor: it causally references entries of other writers, which
    /// lets them reach quorum finality. Folds to nothing.
    Checkpoint,
    /// Fork a new branch named `name` from the envelope's branch pointer.
    BranchCreate { name: String },
    /// Author display name; room-global, keyed by writer key.
    ChatSetNick { nick: String },
    /// `nick` rides on the message, as clients of one node share its writer key.
    ChatPost { text: String, nick: Option<String> },
    /// `id` is chosen by the client, so that later ops can address the item.
    TodoAdd { id: String, title: String },
    TodoSetDone { id: String, done: bool },
    TodoRetitle { id: String, title: String },
    TodoRemove { id: String },
    FsWrite { path: String, content: String },
    FsMkdir { path: String },
    FsRemove { path: String },
    FsMove { from: String, to: String },
}

/// What a [`RoomOp`] stands for.
#[allow(inconsistent_fields)]
pub enum OpView {
    SetTitle { title: Seq<char> },
    SetApp { app: Seq<char> },
    Checkpoint,
    BranchCreate { name: Seq<char> },
    ChatSetNick { nick: Seq<char> },
    ChatPost { text: Seq<char>, nick: Option<Seq<char>> },
    TodoAdd { id: Seq<char>, title: Seq<char> },
    TodoSetDone { id: Seq<char>, done: bool },
    TodoRetitle { id: Seq<char>, title: Seq<char> },
    TodoRemove { id: Seq<char> },
    FsWrite { path: Seq<char>, content: Seq<char> },
    FsMkdir { path: Seq<char> },
    FsRemove { path: Seq<char> },
    FsMove { from: Seq<char>, to: Seq<char> },
}

impl View for RoomOp {
    type V = OpView;

    open spec fn view(&self) -> OpView {
        match *self {
            RoomOp::SetTitle { title } => OpView::SetTitle { title: title@ },
            RoomOp::SetApp { app } => OpView::SetApp { app: app@ },
            RoomOp::Checkpoint => OpView::Checkpoint,
            RoomOp::BranchCreate { name } => OpView::BranchCreate { name: name@ },
            RoomOp::ChatSetNick { nick } => OpView::ChatSetNick { nick: nick@ },
            RoomOp::ChatPost { text, nick } => OpView::ChatPost { text: text@, nick: opt_text(nick) },
            RoomOp::TodoAdd { id, title } => OpView::TodoAdd { id: id@, title: title@ },
            RoomOp::TodoSetDone { id, done } => OpView::TodoSetDone { id: id@, done },
            RoomOp::TodoRetitle { id, title } => OpView::TodoRetitle { id: id@, title: title@ },
            RoomOp::TodoRemove { id } => OpView::TodoRemove { id: id@ },
            RoomOp::FsWrite { path, content } => OpView::FsWrite { path: path@, content: content@ },
            RoomOp::FsMkdir { path } => OpView::FsMkdir { path: path@ },
            RoomOp::FsRemove { path } => OpView::FsRemove { path: path@ },
            RoomOp::FsMove { from, to } => OpView::FsMove { from: from@, to: to@ },
        }
    }
}

/// What rides inside a log entry.
///
/// `branch` is the branch pointer that the raw ledger lacks: app ops apply to
/// that branch, and `BranchCreate` forks from it.
#[derive(Clone, Debug, PartialEq, Eq)]
pub struct OpEnvelope {
    pub v: u32,
    pub branch: String,
    pub op: RoomOp,
}

/// What an [`OpEnvelope`] stands for.
pub struct EnvelopeView {
    pub v: u32,
    pub branch: Seq<char>,
    pub op: OpView,
}

impl View for OpEnvelope {
    type V = EnvelopeView;

    open spec fn view(&self) -> EnvelopeView {
        EnvelopeView { v: self.v, branch: self.branch@, op: self.op@ }
    }
}

impl OpEnvelope {
    /// An envelope of the current version.
    pub fn new(branch: &str, op: RoomOp) -> (r: Self)
        ensures
            r@ == (EnvelopeView { v: ENVELOPE_VERSION, branch: branch@, op: op@ }),
    {
        OpEnvelope { v: ENVELOPE_VERSION, branch: branch.to_owned(), op }
    }

    /// An envelope for the branch every room starts with.
    pub fn main(op: RoomOp) -> (r: Self)
        ensures
            r@ == (EnvelopeView { v: ENVELOPE_VERSION, branch: MAIN_BRANCH@, op: op@ }),
    {
        OpEnvelope::new(MAIN_BRANCH, op)
    }
}

/// The branch of an envelope that names none.
pub fn default_branch() -> (r: String)
    ensures
        r@ == MAIN_BRANCH@,
{
    MAIN_BRANCH.to_owned()
}

// --- ops as tagged objects -----------------------------------------------------

/// The kind of an op, as payloads name it.
pub open spec fn op_kind(op: OpView) -> Seq<char> {
    match op {
        OpView::SetTitle { .. } => "meta.set_title"@,
        OpView::SetApp { .. } => "meta.set_app"@,
        OpView::Checkpoint => "meta.checkpoint"@,
        OpView::BranchCreate { .. } => "branch.create"@,
        OpView::ChatSetNick { .. } => "chat.set_nick"@,
        OpView::ChatPost { .. } => "chat.post"@,
        OpView::TodoAdd { .. } => "todo.add"@,
        OpView::TodoSetDone { .. } => "todo.set_done"@,
        OpView::TodoRetitle { .. } => "todo.retitle"@,
        OpView::TodoRemove { .. } => "todo.remove"@,
        OpView::FsWrite { .. } => "fs.write"@,
        OpView::FsMkdir { .. } => "fs.mkdir"@,
        OpView::FsRemove { .. } => "fs.remove"@,
        OpView::FsMove { .. } => "fs.move"@,
    }
}

/// How often a name occurs among the fields of an object, and its value where
/// it occurs once.
pub enum LookupView {
    Absent,
    Once(JsonView),
    Repeated,
}

/// The occurrences of `name` among `fields`.
pub open spec fn lookup(fields: Seq<(Seq<char>, JsonView)>, name: Seq<char>) -> LookupView
    decreases fields.len(),
{
    if fields.len() == 0 {
        LookupView::Absent
    } else {
        let before = lookup(fields.drop_last(), name);
        if fields.last().0 != name {
            before
        } else {
            match before {
                LookupView::Absent => LookupView::Once(fields.last().1),
                _ => LookupView::Repeated,
            }
        }
    }
}

/// The text of a field that has to be there once.
pub open spec fn text_field(fields: Seq<(Seq<char>, JsonView)>, name: Seq<char>) -> Option<Seq<char>> {
    match lookup(fields, name) {
        LookupView::Once(JsonView::Text(s)) => Some(s),
        _ => None,
    }
}

/// The truth value of a field that has to be there once.
pub open spec fn bool_field(fields: Seq<(Seq<char>, JsonView)>, name: Seq<char>) -> Option<bool> {
    match lookup(fields, name) {
        LookupView::Once(JsonView::Bool(b)) => Some(b),
        _ => None,
    }
}

/// The text of a field that may be absent or null.
pub open spec fn optional_field(fields: Seq<(Seq<char>, JsonView)>, name: Seq<char>) -> Option<Option<Seq<char>>> {
    match lookup(fields, name) {
        LookupView::Absent => Some(None),
        LookupView::Once(JsonView::Null) => Some(None),
        LookupView::Once(JsonView::Text(s)) => Some(Some(s)),
        _ => None,
    }
}

/// The op of a kind with the given fields. Fields that the kind does not have
/// are passed over; one that it has occurs once.
pub open spec fn op_of_fields(kind: Seq<char>, fields: Seq<(Seq<char>, JsonView)>) -> Option<OpView> {
    if kind == "meta.set_title"@ {
        match text_field(fields, "title"@) {
            Some(title) => Some(OpView::SetTitle { title }),
            None => None,
        }
    } else if kind == "meta.set_app"@ {
        match text_field(fields, "app"@) {
            Some(app) => Some(OpView::SetApp { app }),
            None => None,
        }
    } else if kind == "meta.checkpoint"@ {
        Some(OpView::Checkpoint)
    } else if kind == "branch.create"@ {
        match text_field(fields, "name"@) {
            Some(name) => Some(OpView::BranchCreate { name }),
            None => None,
        }
    } else if kind == "chat.set_nick"@ {
        match text_field(fields, "nick"@) {
            Some(nick) => Some(OpView::ChatSetNick { nick }),
            None => None,
        }
    } else if kind == "chat.post"@ {
        match (text_field(fields, "text"@), optional_field(fields, "nick"@)) {
            (Some(text), Some(nick)) => Some(OpView::ChatPost { text, nick }),
            _ => None,
        }
    } else if kind == "todo.add"@ {
        match (text_field(fields, "id"@), text_field(fields, "title"@)) {
            (Some(id), Some(title)) => Some(OpView::TodoAdd { id, title }),
            _ => None,
        }
    } else if kind == "todo.set_done"@ {
        match (text_field(fields, "id"@), bool_field(fields, "done"@)) {
            (Some(id), Some(done)) => Some(OpView::TodoSetDone { id, done }),
            _ => None,
        }
    } else if kind == "todo.retitle"@ {
        match (text_field(fields, "id"@), text_field(fields, "title"@)) {
            (Some(id), Some(title)) => Some(OpView::TodoRetitle { id, title }),
            _ => None,
        }
    } else if kind == "todo.remove"@ {
        match text_field(fields, "id"@) {
            Some(id) => Some(OpView::TodoRemove { id }),
            None => None,
        }
    } else if kind == "fs.write"@ {
        match (text_field(fields, "path"@), text_field(fields, "content"@)) {
            (Some(path), Some(content)) => Some(OpView::FsWrite { path, content }),
            _ => None,
        }
    } else if kind == "fs.mkdir"@ {
        match text_field(fields, "path"@) {
            Some(path) => Some(OpView::FsMkdir { path }),
            None => None,
        }
    } else if kind == "fs.remove"@ {
        match text_field(fields, "path"@) {
            Some(path) => Some(OpView::FsRemove { path }),
            None => None,
        }
    } else if kind == "fs.move"@ {
        match (text_field(fields, "from"@), text_field(fields, "to"@)) {
            (Some(from), Some(to)) => Some(OpView::FsMove { from, to }),
            _ => None,
        }
    } else {
        None
    }
}

/// The names of the fields of a kind, in their order.
pub open spec fn field_names(kind: Seq<char>) -> Seq<Seq<char>> {
    if kind == "meta.set_title"@ {
        seq!["title"@]
    } else if kind == "meta.set_app"@ {
        seq!["app"@]
    } else if kind == "branch.create"@ {
        seq!["name"@]
    } else if kind == "chat.set_nick"@ {
        seq!["nick"@]
    } else if kind == "chat.post"@ {
        seq!["text"@, "nick"@]
    } else if kind == "todo.add"@ || kind == "todo.retitle"@ {
        seq!["id"@, "title"@]
    } else if kind == "todo.set_done"@ {
        seq!["id"@, "done"@]
    } else if kind == "todo.remove"@ {
        seq!["id"@]
    } else if kind == "fs.write"@ {
        seq!["path"@, "content"@]
    } else if kind == "fs.mkdir"@ || kind == "fs.remove"@ {
        seq!["path"@]
    } else if kind == "fs.move"@ {
        seq!["from"@, "to"@]
    } else {
        Seq::empty()
    }
}

/// The op of a kind with the given values for its fields, in their order.
pub open spec fn op_of_values(kind: Seq<char>, values: Seq<JsonView>) -> Option<OpView> {
    if values.len() > field_names(kind).len() {
        None
    } else {
        op_of_fields(kind, Seq::new(values.len(), |i: int| (field_names(kind)[i], values[i])))
    }
}

/// The rest of an op written as an object, from `pos` on: its kind, its other
/// fields, and the position behind it.
pub open spec fn op_members(
    b: Seq<u8>,
    pos: int,
    first: bool,
    depth: nat,
    kind: Option<Seq<char>>,
    fields: Seq<(Seq<char>, JsonView)>,
) -> Option<(Option<Seq<char>>, Seq<(Seq<char>, JsonView)>, int)>
    decreases b.len() - pos,
{
    match next_member(b, pos, first) {
        MemberView::End(e) => Some((kind, fields, e)),
        MemberView::Malformed => None,
        MemberView::Key(key, at) => if key == "kind"@ {
            match (kind, string_at(b.skip(at))) {
                (None, Some((k, n))) => if pos < at + n <= b.len() {
                    op_members(b, at + n, false, depth, Some(k), fields)
                } else {
                    None
                },
                _ => None,
            }
        } else {
            match value_within(b, at, depth) {
                Some((v, next)) => if pos < next <= b.len() {
                    op_members(b, next, false, depth, kind, fields.push((key, v)))
                } else {
                    None
                },
                None => None,
            }
        },
    }
}

/// The rest of an op written as an array, from `pos` on: the values behind its
/// kind, and the position behind it.
pub open spec fn op_values(b: Seq<u8>, pos: int, depth: nat, values: Seq<JsonView>) -> Option<(Seq<JsonView>, int)>
    decreases b.len() - pos,
{
    match next_element(b, pos, false) {
        ElementView::End(e) => Some((values, e)),
        ElementView::Malformed => None,
        ElementView::At(p) => match value_within(b, p, depth) {
            Some((v, next)) => if pos < next <= b.len() {
                op_values(b, next, depth, values.push(v))
            } else {
                None
            },
            None => None,
        },
    }
}

/// The op at `at`, and the position behind it. Values inside it lie `depth`
/// containers deep.
pub open spec fn op_at(b: Seq<u8>, at: int, depth: nat) -> Option<(OpView, int)> {
    let p = after_blanks(b, at);
    if p >= b.len() {
        None
    } else if b[p] == OPEN_OBJECT {
        match op_members(b, p + 1, true, depth, None, Seq::empty()) {
            Some((Some(kind), fields, e)) => match op_of_fields(kind, fields) {
                Some(op) => Some((op, e)),
                None => None,
            },
            _ => None,
        }
    } else if b[p] == OPEN_LIST {
        match next_element(b, p + 1, true) {
            ElementView::At(q) => match string_at(b.skip(q)) {
                Some((kind, n)) => match op_values(b, q + n, depth, Seq::empty()) {
                    Some((values, e)) => match op_of_values(kind, values) {
                        Some(op) => Some((op, e)),
                        None => None,
                    },
                    None => None,
                },
                None => None,
            },
            _ => None,
        }
    } else {
        None
    }
}

/// The op that a text holds; nothing where it holds none.
pub open spec fn decoded_op(b: Seq<u8>) -> Option<OpView> {
    match op_at(b, 0, 1) {
        Some((op, e)) => if after_blanks(b, e) == b.len() {
            Some(op)
        } else {
            None
        },
        None => None,
    }
}

// --- reading ops -----------------------------------------------------------------

enum Lookup<'a> {
    Absent,
    Once(&'a JsonValue),
    Repeated,
}

/// What named values stand for.
pub open spec fn fields_view(fields: Seq<(String, JsonValue)>) -> Seq<(Seq<char>, JsonView)> {
    fields.map_values(|f: (String, JsonValue)| (f.0@, f.1@))
}

fn look_up<'a>(fields: &'a Vec<(String, JsonValue)>, name: &str) -> (r: Lookup<'a>)
    ensures
        match r {
            Lookup::Absent => lookup(fields_view(fields@), name@) == LookupView::Absent,
            Lookup::Once(v) => lookup(fields_view(fields@), name@) == LookupView::Once(v@),
            Lookup::Repeated => lookup(fields_view(fields@), name@) == LookupView::Repeated,
        },
{
    let mut r = Lookup::Absent;
    let ghost all = fields_view(fields@);
    let mut i: usize = 0;
    assert(all.take(0) =~= Seq::empty());
    while i < fields.len()
        invariant
            i <= fields@.len(),
            all == fields_view(fields@),
            match r {
                Lookup::Absent => lookup(all.take(i as int), name@) == LookupView::Absent,
                Lookup::Once(v) => lookup(all.take(i as int), name@) == LookupView::Once(v@),
                Lookup::Repeated => lookup(all.take(i as int), name@) == LookupView::Repeated,
            },
        decreases fields@.len() - i,
    {
        assert(all.take(i + 1).drop_last() =~= all.take(i as int));
        if same_text(fields[i].0.as_str(), name) {
            r = match r {
                Lookup::Absent => Lookup::Once(&fields[i].1),
                _ => Lookup::Repeated,
            };
        }
        i = i + 1;
    }
    assert(all.take(i as int) =~= all);
    r
}

fn take_text(fields: &Vec<(String, JsonValue)>, name: &str) -> (r: Option<String>)
    ensures
        opt_text(r) == text_field(fields_view(fields@), name@),
{
    match look_up(fields, name) {
        Lookup::Once(JsonValue::Text(s)) => Some(s.clone()),
        _ => None,
    }
}

fn take_bool(fields: &Vec<(String, JsonValue)>, name: &str) -> (r: Option<bool>)
    ensures
        r == bool_field(fields_view(fields@), name@),
{
    match look_up(fields, name) {
        Lookup::Once(JsonValue::Bool(b)) => Some(*b),
        _ => None,
    }
}

fn take_optional(fields: &Vec<(String, JsonValue)>, name: &str) -> (r: Option<Option<String>>)
    ensures
        r is Some <==> optional_field(fields_view(fields@), name@) is Some,
        r matches Some(t) ==> optional_field(fields_view(fields@), name@) == Some(opt_text(t)),
{
    match look_up(fields, name) {
        Lookup::Absent => Some(None),
        Lookup::Once(JsonValue::Null) => Some(None),
        Lookup::Once(JsonValue::Text(s)) => Some(Some(s.clone())),
        _ => None,
    }
}

/// The op of a kind with the given fields.
pub fn build_op(kind: &str, fields: &Vec<(String, JsonValue)>) -> (r: Option<RoomOp>)
    ensures
        match r {
            Some(op) => op_of_fields(kind@, fields_view(fields@)) == Some(op@),
            None => op_of_fields(kind@, fields_view(fields@)) is None,
        },
{
    if same_text(kind, "meta.set_title") {
        return match take_text(fields, "title") {
            Some(title) => Some(RoomOp::SetTitle { title }),
            None => None,
        };
    }
    if same_text(kind, "meta.set_app") {
        return match take_text(fields, "app") {
            Some(app) => Some(RoomOp::SetApp { app }),
            None => None,
        };
    }
    if same_text(kind, "meta.checkpoint") {
        return Some(RoomOp::Checkpoint);
    }
    if same_text(kind, "branch.create") {
        return match take_text(fields, "name") {
            Some(name) => Some(RoomOp::BranchCreate { name }),
            None => None,
        };
    }
    if same_text(kind, "chat.set_nick") {
        return match take_text(fields, "nick") {
            Some(nick) => Some(RoomOp::ChatSetNick { nick }),
            None => None,
        };
    }
    if same_text(kind, "chat.post") {
        return match (take_text(fields, "text"), take_optional(fields, "nick")) {
            (Some(text), Some(nick)) => Some(RoomOp::ChatPost { text, nick }),
            _ => None,
        };
    }
    if same_text(kind, "todo.add") {
        return match (take_text(fields, "id"), take_text(fields, "title")) {
            (Some(id), Some(title)) => Some(RoomOp::TodoAdd { id, title }),
            _ => None,
        };
    }
    if same_text(kind, "todo.set_done") {
        return match (take_text(fields, "id"), take_bool(fields, "done")) {
            (Some(id), Some(done)) => Some(RoomOp::TodoSetDone { id, done }),
            _ => None,
        };
    }
    if same_text(kind, "todo.retitle") {
        return match (take_text(fields, "id"), take_text(fields, "title")) {
            (Some(id), Some(title)) => Some(RoomOp::TodoRetitle { id, title }),
            _ => None,
        };
    }
    if same_text(kind, "todo.remove") {
        return match take_text(fields, "id") {
            Some(id) => Some(RoomOp::TodoRemove { id }),
            None => None,
        };
    }
    if same_text(kind, "fs.write") {
        return match (take_text(fields, "path"), take_text(fields, "content")) {
            (Some(path), Some(content)) => Some(RoomOp::FsWrite { path, content }),
            _ => None,
        };
    }
    if same_text(kind, "fs.mkdir") {
        return match take_text(fields, "path") {
            Some(path) => Some(RoomOp::FsMkdir { path }),
            None => None,
        };
    }
    if same_text(kind, "fs.remove") {
        return match take_text(fields, "path") {
            Some(path) => Some(RoomOp::FsRemove { path }),
            None => None,
        };
    }
    if same_text(kind, "fs.move") {
        return match (take_text(fields, "from"), take_text(fields, "to")) {
            (Some(from), Some(to)) => Some(RoomOp::FsMove { from, to }),
            _ => None,
        };
    }
    None
}

fn names_of(kind: &str) -> (r: Vec<&'static str>)
    ensures
        r@.len() == field_names(kind@).len(),
        forall|i: int| 0 <= i < r@.len() ==> (#[trigger] r@[i])@ == field_names(kind@)[i],
{
    if same_text(kind, "meta.set_title") {
        vec!["title"]
    } else if same_text(kind, "meta.set_app") {
        vec!["app"]
    } else if same_text(kind, "branch.create") {
        vec!["name"]
    } else if same_text(kind, "chat.set_nick") {
        vec!["nick"]
    } else if same_text(kind, "chat.post") {
        vec!["text", "nick"]
    } else if same_text(kind, "todo.add") || same_text(kind, "todo.retitle") {
        vec!["id", "title"]
    } else if same_text(kind, "todo.set_done") {
        vec!["id", "done"]
    } else if same_text(kind, "todo.remove") {
        vec!["id"]
    } else if same_text(kind, "fs.write") {
        vec!["path", "content"]
    } else if same_text(kind, "fs.mkdir") || same_text(kind, "fs.remove") {
        vec!["path"]
    } else if same_text(kind, "fs.move") {
        vec!["from", "to"]
    } else {
        Vec::new()
    }
}

/// What values stand for.
pub open spec fn values_view(values: Seq<JsonValue>) -> Seq<JsonView> {
    values.map_values(|v: JsonValue| v@)
}

/// The op of a kind with the given values for its fields, in their order.
pub fn build_op_of_values(kind: &str, values: Vec<JsonValue>) -> (r: Option<RoomOp>)
    ensures
        match r {
            Some(op) => op_of_values(kind@, values_view(values@)) == Some(op@),
            None => op_of_values(kind@, values_view(values@)) is None,
        },
{
    let names = names_of(kind);
    if values.len() > names.len() {
        return None;
    }
    let ghost want = Seq::new(
        values_view(values@).len(),
        |i: int| (field_names(kind@)[i], values_view(values@)[i]),
    );
    let mut fields: Vec<(String, JsonValue)> = Vec::new();
    let ghost n = values@.len();
    let ghost given = values_view(values@);
    let mut i: usize = 0;
    for v in it: values
        invariant
            it.seq() == values@,
            i == it.index(),
            n == values@.len(),
            n <= names@.len(),
            names@.len() == field_names(kind@).len(),
            forall|j: int| 0 <= j < names@.len() ==> (#[trigger] names@[j])@ == field_names(kind@)[j],
            given == values_view(values@),
            want == Seq::new(n, |j: int| (field_names(kind@)[j], given[j])),
            fields_view(fields@) == want.take(i as int),
    {
        let ghost before = fields@;
        fields.push((names[i].to_owned(), v));
        assert(fields_view(fields@) =~= fields_view(before).push(want[i as int]));
        assert(want.take(i + 1) =~= want.take(i as int).push(want[i as int]));
        i = i + 1;
    }
    assert(want.take(n as int) =~= want);
    build_op(kind, &fields)
}

/// Reads the op at `at`, whose values lie `depth` containers deep.
pub(crate) fn read_op(b: &[u8], at: usize, depth: usize) -> (r: Option<(RoomOp, usize)>)
    requires
        at <= b@.len(),
    ensures
        match r {
            Some((op, e)) => op_at(b@, at as int, depth as nat) == Some((op@, e as int)) && at < e <= b@.len(),
            None => op_at(b@, at as int, depth as nat) is None,
        },
{
    let p = pass_blanks(b, at);
    if p >= b.len() {
        return None;
    }
    if b[p] == OPEN_OBJECT {
        match read_op_members(b, p + 1, depth) {
            Some((Some(kind), fields, e)) => match build_op(kind.as_str(), &fields) {
                Some(op) => Some((op, e)),
                None => None,
            },
            _ => None,
        }
    } else if b[p] == OPEN_LIST {
        match read_element(b, p + 1, true) {
            Element::At(q) => match read_string(from_here(b, q)) {
                Some((kind, n)) => match read_op_values(b, q + n, depth) {
                    Some((values, e)) => match build_op_of_values(kind.as_str(), values) {
                        Some(op) => Some((op, e)),
                        None => None,
                    },
                    None => None,
                },
                None => None,
            },
            _ => None,
        }
    } else {
        None
    }
}

fn read_op_members(b: &[u8], start: usize, depth: usize) -> (r: Option<
    (Option<String>, Vec<(String, JsonValue)>, usize),
>)
    requires
        start <= b@.len(),
    ensures
        match r {
            Some((kind, fields, e)) => op_members(
                b@,
                start as int,
                true,
                depth as nat,
                None,
                Seq::empty(),
            ) == Some((opt_text(kind), fields_view(fields@), e as int)) && start < e <= b@.len(),
            None => op_members(b@, start as int, true, depth as nat, None, Seq::empty()) is None,
        },
{
    let mut pos: usize = start;
    let mut first = true;
    let mut kind: Option<String> = None;
    let mut fields: Vec<(String, JsonValue)> = Vec::new();
    assert(fields_view(fields@) =~= Seq::empty());
    loop
        invariant
            start <= pos <= b@.len(),
            op_members(b@, start as int, true, depth as nat, None, Seq::empty()) == op_members(
                b@,
                pos as int,
                first,
                depth as nat,
                opt_text(kind),
                fields_view(fields@),
            ),
        decreases b@.len() - pos,
    {
        match read_member(b, pos, first) {
            Member::End(e) => {
                return Some((kind, fields, e));
            },
            Member::Malformed => {
                return None;
            },
            Member::Key(key, at) => {
                if same_text(key.as_str(), "kind") {
                    if kind.is_some() {
                        return None;
                    }
                    match read_string(from_here(b, at)) {
                        Some((k, n)) => {
                            kind = Some(k);
                            pos = at + n;
                        },
                        None => {
                            return None;
                        },
                    }
                } else {
                    match read_value_within(b, at, depth) {
                        Some((v, next)) => {
                            let ghost before = fields@;
                            let ghost seen = (key@, v@);
                            fields.push((key, v));
                            assert(fields_view(fields@) =~= fields_view(before).push(seen));
                            pos = next;
                        },
                        None => {
                            return None;
                        },
                    }
                }
                first = false;
            },
        }
    }
}

fn read_op_values(b: &[u8], start: usize, depth: usize) -> (r: Option<(Vec<JsonValue>, usize)>)
    requires
        start <= b@.len(),
    ensures
        match r {
            Some((values, e)) => op_values(b@, start as int, depth as nat, Seq::empty()) == Some(
                (values_view(values@), e as int),
            ) && start < e <= b@.len(),
            None => op_values(b@, start as int, depth as nat, Seq::empty()) is None,
        },
{
    let mut pos: usize = start;
    let mut values: Vec<JsonValue> = Vec::new();
    assert(values_view(values@) =~= Seq::empty());
    loop
        invariant
            start <= pos <= b@.len(),
            op_values(b@, start as int, depth as nat, Seq::empty()) == op_values(
                b@,
                pos as int,
                depth as nat,
                values_view(values@),
            ),
        decreases b@.len() - pos,
    {
        match read_element(b, pos, false) {
            Element::End(e) => {
                return Some((values, e));
            },
            Element::Malformed => {
                return None;
            },
            Element::At(p) => match read_value_within(b, p, depth) {
                Some((v, next)) => {
                    let ghost before = values@;
                    let ghost seen = v@;
                    values.push(v);
                    assert(values_view(values@) =~= values_view(before).push(seen));
                    pos = next;
                },
                None => {
                    return None;
                },
            },
        }
    }
}

/// Decodes an op from its JSON text.
pub fn decode_op(text: &[u8]) -> (r: Option<RoomOp>)
    ensures
        match r {
            Some(op) => decoded_op(text@) == Some(op@),
            None => decoded_op(text@) is None,
        },
{
    match read_op(text, 0, 1) {
        Some((op, e)) => if pass_blanks(text, e) == text.len() {
            Some(op)
        } else {
            None
        },
        None => None,
    }
}

} // verus!
