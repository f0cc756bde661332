//! What values and listings show, what things start from, how texts are ordered and which
//! texts are keys.

use vstd::prelude::*;

use crate::bus::{empty_bus, opt_key};
use crate::engine::MatJob;
use crate::http::{main_envelope, not_here, ops_view, ApiError};
use crate::json::{JsonValue, JsonView};
use crate::keys::{all_digits, hex_digit, key_of_text};
use crate::materialise::{
    by_room, forks_view, BranchPlan, ChatMessageDoc, FsNodeDoc, NewBranch, RoomMeta, TodoItemDoc,
};
use crate::op::{values_view, OpEnvelope, OpView, RoomOp};
use crate::presence::{expired, is_fresh, keys_view, HostInfo, HostView, RoomAd};
use crate::room_sync::{Step, StepView};
use crate::session::{ActionView, ClientAction, Field};
use crate::signal::{empty_hub, lists_ids};
use crate::state::{empty_branch, empty_room, BranchState, ChatMessage, FsNode, FsView, RoomState, TodoItem};
use crate::table::{lists, numbered, owned_entries};
use crate::text::{lemma_text_lt_total, opt_text, text_lt, text_or_empty};
use crate::text_map::{lists_keys, texts};

verus! {

// --- what values show ----------------------------------------------------------------

/// A message shows its author, its nick, its text and its place.
pub proof fn law_message_shows_everything(m: ChatMessage)
    ensures
        m@.author == m.author@,
        m@.nick is None <==> m.nick is None,
        m.nick matches Some(nick) ==> m@.nick == Some(nick@),
        m@.text == m.text@,
        m@.at_op == m.at_op,
{
}

/// An item shows its id, its title, whether it is done, its author and its place.
pub proof fn law_item_shows_everything(t: TodoItem)
    ensures
        t@.id == t.id@,
        t@.title == t.title@,
        t@.done == t.done,
        t@.author == t.author@,
        t@.created_at_op == t.created_at_op,
{
}

/// A node shows whether it is a directory, and a file its content, its author and its place.
pub proof fn law_node_shows_everything(n: FsNode)
    ensures
        n@ is Dir <==> n is Dir,
        n matches FsNode::File { content, author, modified_at_op } ==> n@ == (FsView::File {
            content: content@,
            author: author@,
            modified_at_op,
        }),
{
}

/// A branch shows where it comes from, its messages in their order, its items and its files.
pub proof fn law_branch_shows_everything(b: BranchState)
    ensures
        b.forked_from is None ==> b@.forked_from is None,
        b.forked_from matches Some(parent) ==> b@.forked_from == Some(parent@),
        b@.forked_at_op == b.forked_at_op,
        b@.chat.len() == b.chat@.len(),
        forall|i: int| 0 <= i < b.chat@.len() ==> #[trigger] b@.chat[i] == b.chat@[i]@,
        b@.todos == b.todos@,
        b@.files == b.files@,
{
}

/// A room shows its title, its app, its nicks, its branches and the count of its entries.
pub proof fn law_room_shows_everything(room: RoomState)
    ensures
        room.title is None ==> room@.title is None,
        room.title matches Some(title) ==> room@.title == Some(title@),
        room.app is None ==> room@.app is None,
        room.app matches Some(app) ==> room@.app == Some(app@),
        room@.nicks == room.nicks@,
        room@.branches == room.branches@,
        room@.ops_applied == room.ops_applied,
{
}

/// An envelope shows its version, its branch and its op.
pub proof fn law_envelope_shows_everything(env: OpEnvelope)
    ensures
        env@.v == env.v,
        env@.branch == env.branch@,
        env@.op == env.op@,
{
}

/// An op shows its kind and each of its fields.
pub proof fn law_op_shows_everything(op: RoomOp)
    ensures
        match op {
            RoomOp::SetTitle { title } => op@ == (OpView::SetTitle { title: title@ }),
            RoomOp::SetApp { app } => op@ == (OpView::SetApp { app: app@ }),
            RoomOp::Checkpoint => op@ is Checkpoint,
            RoomOp::BranchCreate { name } => op@ == (OpView::BranchCreate { name: name@ }),
            RoomOp::ChatSetNick { nick } => op@ == (OpView::ChatSetNick { nick: nick@ }),
            RoomOp::ChatPost { text, nick: Some(nick) } => op@ == (OpView::ChatPost {
                text: text@,
                nick: Some(nick@),
            }),
            RoomOp::ChatPost { text, nick: None } => op@ == (OpView::ChatPost { text: text@, nick: None }),
            RoomOp::TodoAdd { id, title } => op@ == (OpView::TodoAdd { id: id@, title: title@ }),
            RoomOp::TodoSetDone { id, done } => op@ == (OpView::TodoSetDone { id: id@, done }),
            RoomOp::TodoRetitle { id, title } => op@ == (OpView::TodoRetitle { id: id@, title: title@ }),
            RoomOp::TodoRemove { id } => op@ == (OpView::TodoRemove { id: id@ }),
            RoomOp::FsWrite { path, content } => op@ == (OpView::FsWrite { path: path@, content: content@ }),
            RoomOp::FsMkdir { path } => op@ == (OpView::FsMkdir { path: path@ }),
            RoomOp::FsRemove { path } => op@ == (OpView::FsRemove { path: path@ }),
            RoomOp::FsMove { from, to } => op@ == (OpView::FsMove { from: from@, to: to@ }),
        },
{
}

/// The document of an item shows each of its fields.
pub proof fn law_item_document_shows_its_fields(d: TodoItemDoc)
    ensures
        d@.id == d.id@,
        d@.key == d.key@,
        d@.title == d.title@,
        d@.done == d.done,
        d@.author == d.author@,
        d@.created_at_op == d.created_at_op,
{
}

/// The document of a message shows each of its fields.
pub proof fn law_message_document_shows_its_fields(d: ChatMessageDoc)
    ensures
        d@.id == d.id@,
        d@.author == d.author@,
        d@.nick == d.nick@,
        d@.text == d.text@,
        d@.at_op == d.at_op,
{
}

/// The document of a file or a directory shows each of its fields.
pub proof fn law_file_document_shows_its_fields(d: FsNodeDoc)
    ensures
        d@.id == d.id@,
        d@.path == d.path@,
        d@.is_dir == d.is_dir,
        d@.content == d.content@,
        d@.author == d.author@,
        d@.modified_at_op == d.modified_at_op,
{
}

/// The header of a branch shows each of its fields.
pub proof fn law_header_shows_its_fields(d: RoomMeta)
    ensures
        d@.id == d.id@,
        d@.room == d.room@,
        d@.title == d.title@,
        d@.app == d.app@,
        d@.branch == d.branch@,
        d@.forked_from == d.forked_from@,
        d@.version == d.version,
{
}

/// A job shows its room, its version and its state.
pub proof fn law_job_shows_everything(job: MatJob)
    ensures
        job@.room == job.room@,
        job@.version == job.version,
        job@.state == job.state@,
{
}

/// An announcement shows who sends it, and the rooms in their order.
pub proof fn law_announcement_shows_everything(info: HostInfo)
    ensures
        info@.name == info.name@,
        info@.gossip_id == info.gossip_id@,
        info@.roomnet_id == info.roomnet_id@,
        info.http_url matches Some(url) ==> info@.http_url == Some(url@),
        info.http_url is None ==> info@.http_url is None,
        info@.rooms.len() == info.rooms@.len(),
        forall|i: int| 0 <= i < info.rooms@.len() ==> #[trigger] info@.rooms[i] == info.rooms@[i]@,
        info@.seq == info.seq,
{
}

/// An announced room shows its id, its title and its app.
pub proof fn law_announced_room_shows_everything(ad: RoomAd)
    ensures
        ad@.id == ad.id@,
        ad.title matches Some(title) ==> ad@.title == Some(title@),
        ad.title is None ==> ad@.title is None,
        ad.app matches Some(app) ==> ad@.app == Some(app@),
        ad.app is None ==> ad@.app is None,
{
}

/// An optional text shows its characters, or that there are none.
pub proof fn law_optional_text_shows_its_characters(s: Option<String>)
    ensures
        s matches Some(t) ==> opt_text(s) == Some(t@) && text_or_empty(opt_text(s)) == t@,
        s is None ==> opt_text(s) is None && text_or_empty(opt_text(s)).len() == 0,
{
}

/// A plan shows its author, its message, its header and its writes, in their order.
pub proof fn law_plan_shows_everything(plan: BranchPlan)
    ensures
        plan@.author == plan.author@,
        plan@.message == plan.message@,
        plan@.meta == plan.meta@,
        plan@.chat.len() == plan.chat@.len(),
        forall|i: int| 0 <= i < plan.chat@.len() ==> #[trigger] plan@.chat[i] == plan.chat@[i]@,
        plan@.todos.len() == plan.todos@.len(),
        forall|i: int| 0 <= i < plan.todos@.len() ==> #[trigger] plan@.todos[i] == plan.todos@[i]@,
        plan@.gone_todos.len() == plan.gone_todos@.len(),
        forall|i: int| 0 <= i < plan.gone_todos@.len() ==> #[trigger] plan@.gone_todos[i] == plan.gone_todos@[i]@,
        plan@.files.len() == plan.files@.len(),
        forall|i: int| 0 <= i < plan.files@.len() ==> #[trigger] plan@.files[i] == plan.files@[i]@,
        plan@.gone_files.len() == plan.gone_files@.len(),
        forall|i: int| 0 <= i < plan.gone_files@.len() ==> #[trigger] plan@.gone_files[i] == plan.gone_files@[i]@,
{
}

/// A step shows what is to be done, for which branch and with which writes.
pub proof fn law_step_shows_everything(step: Step)
    ensures
        step is Connect <==> step@ is Connect,
        step is Prepare <==> step@ is Prepare,
        step matches Step::Fork(f) ==> step@ == StepView::Fork(f@),
        step matches Step::Write { name, plan: Some(plan) } ==> step@ == (StepView::Write {
            name: name@,
            plan: Some(plan@),
        }),
        step matches Step::Write { name, plan: None } ==> step@ == (StepView::Write { name: name@, plan: None }),
        step is Done <==> step@ is Done,
        step is Failed <==> step@ is Failed,
{
}

/// A branch that is to be made shows its name, its parent, its path and where it comes from.
pub proof fn law_new_branch_shows_everything(f: NewBranch)
    ensures
        f@.name == f.name@,
        f@.parent == f.parent@,
        f@.path == f.path@,
        f@.origin == f.origin@,
{
}

/// A field of a frame shows its name, its text, its number and its JSON form.
pub proof fn law_field_shows_everything(f: Field)
    ensures
        f@.name == f.name@,
        f.text matches Some(t) ==> f@.text == Some(t@),
        f.text is None ==> f@.text is None,
        f@.number == f.number,
        f@.json == f.json@,
{
}

/// An action shows what it asks for, and with what.
pub proof fn law_action_shows_everything(a: ClientAction)
    ensures
        a is Ignore <==> a@ is Ignore,
        a matches ClientAction::Relay { to, frame } ==> a@ == (ActionView::Relay { to, frame: frame@ }),
        a matches ClientAction::Bind(key) ==> a@ == ActionView::Bind(key@),
        a matches ClientAction::Append(payload) ==> a@ == ActionView::Append(payload@),
{
}

/// An error shows its status and its message.
pub proof fn law_error_shows_everything(e: ApiError)
    ensures
        e@.status == e.status,
        e@.message == e.message@,
{
}

/// A JSON value shows what it is, a truth value or a text with what it holds.
pub proof fn law_value_shows_everything(v: JsonValue)
    ensures
        v is Null <==> v@ is Null,
        v matches JsonValue::Bool(b) ==> v@ == JsonView::Bool(b),
        v matches JsonValue::Text(s) ==> v@ == JsonView::Text(s@),
        v is Number <==> v@ is Number,
        v is Nested <==> v@ is Nested,
{
}

/// An optional key shows its bytes, or that there is none.
pub proof fn law_optional_key_shows_its_bytes(key: Option<[u8; 32]>)
    ensures
        key matches Some(k) ==> opt_key(key) == Some(k@),
        key is None ==> opt_key(key) is None,
{
}

/// Lists show each of their items, in their order.
pub proof fn law_lists_show_each_item(
    names: Seq<String>,
    keys: Seq<[u8; 32]>,
    ops: Seq<RoomOp>,
    fields: Seq<(String, JsonValue)>,
    values: Seq<JsonValue>,
    members: Seq<Field>,
    forks: Seq<NewBranch>,
    i: int,
)
    ensures
        texts(names).len() == names.len(),
        0 <= i < names.len() ==> texts(names)[i] == names[i]@,
        keys_view(keys).len() == keys.len(),
        0 <= i < keys.len() ==> keys_view(keys)[i] == keys[i]@,
        ops_view(ops).len() == ops.len(),
        0 <= i < ops.len() ==> ops_view(ops)[i] == ops[i]@,
        crate::op::fields_view(fields).len() == fields.len(),
        0 <= i < fields.len() ==> crate::op::fields_view(fields)[i] == (fields[i].0@, fields[i].1@),
        values_view(values).len() == values.len(),
        0 <= i < values.len() ==> values_view(values)[i] == values[i]@,
        crate::session::fields_view(members).len() == members.len(),
        0 <= i < members.len() ==> crate::session::fields_view(members)[i] == members[i]@,
        forks_view(forks).len() == forks.len(),
        0 <= i < forks.len() ==> forks_view(forks)[i] == forks[i]@,
{
}

// --- listings ------------------------------------------------------------------------

/// A listing of a map in the order of strings holds each of its keys, once, and no other.
pub proof fn law_listing_holds_every_key<W>(keys: Seq<Seq<char>>, m: Map<Seq<char>, W>, k: Seq<char>)
    requires
        lists_keys(keys, m),
    ensures
        m.contains_key(k) <==> exists|i: int| 0 <= i < keys.len() && #[trigger] keys[i] == k,
        forall|i: int, j: int| 0 <= i < j < keys.len() ==> text_lt(#[trigger] keys[i], #[trigger] keys[j]),
        forall|i: int, j: int| 0 <= i < j < keys.len() ==> #[trigger] keys[i] != #[trigger] keys[j],
{
    assert forall|i: int, j: int| 0 <= i < j < keys.len() implies #[trigger] keys[i] != #[trigger] keys[j] by {
        lemma_text_lt_total(keys[i], keys[j]);
    }
    if m.contains_key(k) {
        assert(keys.contains(k));
    }
    if exists|i: int| 0 <= i < keys.len() && #[trigger] keys[i] == k {
        assert(keys.contains(k));
    }
}

/// A listing of a table holds each of its entries, once, and no other.
pub proof fn law_listing_holds_every_entry<K, V>(entries: Seq<(K, V)>, m: Map<K, V>, k: K)
    requires
        lists(entries, m),
    ensures
        m.contains_key(k) <==> exists|i: int| 0 <= i < entries.len() && (#[trigger] entries[i]).0 == k,
        forall|i: int| 0 <= i < entries.len() && (#[trigger] entries[i]).0 == k ==> entries[i].1 == m[k],
        forall|i: int, j: int|
            0 <= i < j < entries.len() ==> (#[trigger] entries[i]).0 != (#[trigger] entries[j]).0,
{
    if m.contains_key(k) {
        assert(entries.contains((k, m[k])));
        let i = choose|i: int| 0 <= i < entries.len() && entries[i] == (k, m[k]);
        assert(entries[i].0 == k);
    }
}

/// A listing of ids holds each id of a table, once, and no other.
pub proof fn law_listing_holds_every_id<S>(ids: Seq<u64>, m: Map<u64, S>, id: u64)
    requires
        lists_ids(ids, m),
    ensures
        m.contains_key(id) <==> exists|i: int| 0 <= i < ids.len() && #[trigger] ids[i] == id,
        forall|i: int, j: int| 0 <= i < j < ids.len() ==> #[trigger] ids[i] != #[trigger] ids[j],
{
    if m.contains_key(id) {
        assert(ids.contains(id));
    }
    if exists|i: int| 0 <= i < ids.len() && #[trigger] ids[i] == id {
        assert(ids.contains(id));
    }
}

/// References to the entries of a table show their keys and their values.
pub proof fn law_entries_show_keys_and_values<V>(r: Seq<(u64, &V)>, owned: Seq<([u8; 32], V)>, jobs: Seq<MatJob>, i: int)
    ensures
        numbered(r).len() == r.len(),
        0 <= i < r.len() ==> numbered(r)[i] == (r[i].0, *r[i].1),
        owned_entries(owned).len() == owned.len(),
        0 <= i < owned.len() ==> owned_entries(owned)[i] == (owned[i].0@, owned[i].1),
        by_room(jobs).len() == jobs.len(),
        0 <= i < jobs.len() ==> by_room(jobs)[i] == (jobs[i].room@, jobs[i]),
{
}

// --- what things start from ----------------------------------------------------------

/// A new room has one branch, `main`, on which nothing has happened; it has no title, no
/// app and no nicks, and no entry is counted.
pub proof fn law_new_room_has_only_main(name: Seq<char>)
    ensures
        empty_room().title is None,
        empty_room().app is None,
        !empty_room().nicks.contains_key(name),
        empty_room().branches.contains_key(name) <==> name == "main"@,
        empty_room().branches["main"@] == empty_branch(),
        empty_room().ops_applied == 0,
{
}

/// On a new branch there is no message, no item and no file, and it was forked from none.
pub proof fn law_new_branch_is_empty(key: Seq<char>)
    ensures
        empty_branch().forked_from is None,
        empty_branch().forked_at_op == 0,
        empty_branch().chat.len() == 0,
        !empty_branch().todos.contains_key(key),
        !empty_branch().files.contains_key(key),
{
}

/// A new bus and a new hub have no clients.
pub proof fn law_nobody_is_there_at_first<S>(room: Seq<u8>, name: Seq<char>)
    ensures
        !empty_bus::<S>().rooms.contains_key(room),
        !empty_bus::<S>().writers.contains_key(room),
        empty_bus::<S>().next_id == 0,
        !empty_hub::<S>().rooms.contains_key(name),
{
}

/// What a room starts with is written for `main`, in the current version.
pub proof fn law_rooms_start_on_main(op: OpView)
    ensures
        main_envelope(op).v == 1,
        main_envelope(op).branch == "main"@,
        main_envelope(op).op == op,
{
}

/// What is not here is answered so.
pub proof fn law_what_is_not_here_is_not_found()
    ensures
        not_here().status == 404,
        not_here().message == "room not found on this node"@,
{
}

/// Forgetting drops exactly the nodes that do not count any more.
pub proof fn law_stale_nodes_are_forgotten(peers: Map<Seq<char>, (HostView, u64)>, now: u64, k: Seq<char>)
    ensures
        expired(peers, now).contains_key(k) <==> peers.contains_key(k) && is_fresh(peers[k].1, now),
        expired(peers, now).contains_key(k) ==> expired(peers, now)[k] == peers[k],
{
}

// --- the order of texts --------------------------------------------------------------

/// Texts are ordered by the first character in which they differ.
pub proof fn law_first_difference_orders(a: Seq<char>, b: Seq<char>, i: int)
    requires
        0 <= i < a.len(),
        i < b.len(),
        a.take(i) == b.take(i),
        a[i] != b[i],
    ensures
        text_lt(a, b) <==> a[i] < b[i],
    decreases i,
{
    if i > 0 {
        assert(a[0] == a.take(i)[0] && b[0] == b.take(i)[0]);
        let x = a.drop_first();
        let y = b.drop_first();
        assert(x.take(i - 1) =~= a.take(i).drop_first());
        assert(y.take(i - 1) =~= b.take(i).drop_first());
        law_first_difference_orders(x, y, i - 1);
    }
}

/// A text stands before every longer text that begins with it.
pub proof fn law_beginning_stands_before(a: Seq<char>, more: Seq<char>)
    requires
        more.len() > 0,
    ensures
        text_lt(a, a + more),
        !text_lt(a + more, a),
    decreases a.len(),
{
    if a.len() > 0 {
        law_beginning_stands_before(a.drop_first(), more);
        assert((a + more).drop_first() =~= a.drop_first() + more);
    }
}

// --- keys ----------------------------------------------------------------------------

/// Hex is written with lower-case digits.
pub proof fn law_hex_digits_are_lower_case(n: int)
    requires
        0 <= n < 16,
    ensures
        hex_digit(n) == "0123456789abcdef"@[n],
{
    reveal_strlit("0123456789abcdef");
}

/// A text is a key exactly where it is 64 hex digits, of either case.
pub proof fn law_keys_are_64_digits(text: Seq<u8>)
    ensures
        key_of_text(text) is Some <==> text.len() == 64 && forall|i: int|
            0 <= i < text.len() ==> (0x30 <= #[trigger] text[i] <= 0x39 || 0x61 <= text[i] <= 0x66 || 0x41 <= text[i]
                <= 0x46),
        key_of_text(text) matches Some(key) ==> key.len() == 32,
{
    if forall|i: int|
        0 <= i < text.len() ==> (0x30 <= #[trigger] text[i] <= 0x39 || 0x61 <= text[i] <= 0x66 || 0x41 <= text[i]
            <= 0x46) {
        assert(all_digits(text));
    }
}

} // verus!
