//! The envelope that every op rides in: its bytes, and what they mean.

use vstd::prelude::*;

use crate::json::{
    after_blanks, bool_bytes, decimal_bytes, ends_value, from_here, ignore_value, ignored_at, next_element,
    next_member, pass_blanks, quoted, read_element, read_member, read_string, read_u32, reads_back, string_at,
    u32_at, value_at, value_within, write_bool, write_string, write_u32, Element, ElementView, JsonView, Member,
    MemberView, CLOSE_OBJECT, COLON, COMMA, OPEN_LIST, OPEN_OBJECT, QUOTE,
};
use crate::op::{
    lookup, op_at, op_kind, op_members, op_of_fields, read_op, EnvelopeView, LookupView, OpEnvelope, OpView,
    RoomOp, ENVELOPE_VERSION, MAIN_BRANCH,
};
use crate::text::{opt_text, same_text};

verus! {

/// What [`Parts`] stand for.
pub struct PartsView {
    pub v: Option<u32>,
    pub branch: Option<Seq<char>>,
    pub op: Option<OpView>,
}

/// Takes in the member `key` of an envelope, whose value is at `at`. A field of
/// the envelope occurs once; any other member is passed over.
pub open spec fn envelope_member(b: Seq<u8>, key: Seq<char>, at: int, parts: PartsView) -> Option<(PartsView, int)> {
    if key == "v"@ {
        match (parts.v, u32_at(b.skip(at))) {
            (None, Some((v, n))) => Some((PartsView { v: Some(v), ..parts }, at + n)),
            _ => None,
        }
    } else if key == "branch"@ {
        match (parts.branch, string_at(b.skip(at))) {
            (None, Some((s, n))) => Some((PartsView { branch: Some(s), ..parts }, at + n)),
            _ => None,
        }
    } else if key == "op"@ {
        match (parts.op, op_at(b, at, 2)) {
            (None, Some((op, e))) => Some((PartsView { op: Some(op), ..parts }, e)),
            _ => None,
        }
    } else {
        match ignored_at(b.skip(at)) {
            Some(n) => Some((parts, at + n)),
            None => None,
        }
    }
}

/// The rest of an envelope written as an object, from `pos` on, and the
/// position behind it.
pub open spec fn envelope_members(b: Seq<u8>, pos: int, first: bool, parts: PartsView) -> Option<(PartsView, int)>
    decreases b.len() - pos,
{
    match next_member(b, pos, first) {
        MemberView::End(e) => Some((parts, e)),
        MemberView::Malformed => None,
        MemberView::Key(key, at) => match envelope_member(b, key, at, parts) {
            Some((parts, next)) => if pos < next <= b.len() {
                envelope_members(b, next, false, parts)
            } else {
                None
            },
            None => None,
        },
    }
}

/// An envelope written as an array of its three fields, from `pos` on, and the
/// position behind it.
pub open spec fn envelope_elements(b: Seq<u8>, pos: int) -> Option<(PartsView, int)> {
    match next_element(b, pos, true) {
        ElementView::At(p) => match u32_at(b.skip(p)) {
            Some((v, n)) => match next_element(b, p + n, false) {
                ElementView::At(q) => match string_at(b.skip(q)) {
                    Some((branch, m)) => match next_element(b, q + m, false) {
                        ElementView::At(r) => match op_at(b, r, 2) {
                            Some((op, e)) => match next_element(b, e, false) {
                                ElementView::End(z) => Some(
                                    (PartsView { v: Some(v), branch: Some(branch), op: Some(op) }, z),
                                ),
                                _ => None,
                            },
                            None => None,
                        },
                        _ => None,
                    },
                    None => None,
                },
                _ => None,
            },
            None => None,
        },
        _ => None,
    }
}

/// The fields of the envelope that a payload holds.
pub open spec fn envelope_parts(b: Seq<u8>) -> Option<PartsView> {
    let p = after_blanks(b, 0);
    let read = if p >= b.len() {
        None
    } else if b[p] == OPEN_OBJECT {
        envelope_members(b, p + 1, true, PartsView { v: None, branch: None, op: None })
    } else if b[p] == OPEN_LIST {
        envelope_elements(b, p + 1)
    } else {
        None
    };
    match read {
        Some((parts, e)) => if after_blanks(b, e) == b.len() {
            Some(parts)
        } else {
            None
        },
        None => None,
    }
}

/// The envelope of these fields; nothing where its version or its op is missing,
/// or the version is one that is not understood. An envelope without a branch
/// pointer is for the branch every room starts with.
pub open spec fn assembled(parts: PartsView) -> Option<EnvelopeView> {
    match (parts.v, parts.op) {
        (Some(v), Some(op)) => if v <= ENVELOPE_VERSION {
            let branch = match parts.branch {
                Some(s) => s,
                None => MAIN_BRANCH@,
            };
            Some(EnvelopeView { v, branch, op })
        } else {
            None
        },
        _ => None,
    }
}

/// The envelope that a payload holds; nothing where it holds none that is
/// understood.
pub open spec fn decoded(b: Seq<u8>) -> Option<EnvelopeView> {
    match envelope_parts(b) {
        Some(parts) => assembled(parts),
        None => None,
    }
}

/// What has been read of an envelope.
#[derive(Debug)]
pub struct Parts {
    pub v: Option<u32>,
    pub branch: Option<String>,
    pub op: Option<RoomOp>,
}

impl View for Parts {
    type V = PartsView;

    open spec fn view(&self) -> PartsView {
        PartsView {
            v: self.v,
            branch: opt_text(self.branch),
            op: match self.op {
                Some(op) => Some(op@),
                None => None,
            },
        }
    }
}

fn read_envelope_members(b: &[u8], start: usize) -> (r: Option<(Parts, usize)>)
    requires
        start <= b@.len(),
    ensures
        match r {
            Some((parts, e)) => envelope_members(
                b@,
                start as int,
                true,
                PartsView { v: None, branch: None, op: None },
            ) == Some((parts@, e as int)) && start < e <= b@.len(),
            None => envelope_members(b@, start as int, true, PartsView { v: None, branch: None, op: None }) is None,
        },
{
    let mut pos: usize = start;
    let mut first = true;
    let mut parts = Parts { v: None, branch: None, op: None };
    loop
        invariant
            start <= pos <= b@.len(),
            envelope_members(b@, start as int, true, PartsView { v: None, branch: None, op: None })
                == envelope_members(b@, pos as int, first, parts@),
        decreases b@.len() - pos,
    {
        match read_member(b, pos, first) {
            Member::End(e) => {
                return Some((parts, e));
            },
            Member::Malformed => {
                return None;
            },
            Member::Key(key, at) => {
                let ghost before = parts@;
                if same_text(key.as_str(), "v") {
                    if parts.v.is_some() {
                        return None;
                    }
                    match read_u32(from_here(b, at)) {
                        Some((v, n)) => {
                            parts.v = Some(v);
                            pos = at + n;
                        },
                        None => {
                            return None;
                        },
                    }
                } else if same_text(key.as_str(), "branch") {
                    if parts.branch.is_some() {
                        return None;
                    }
                    match read_string(from_here(b, at)) {
                        Some((s, n)) => {
                            parts.branch = Some(s);
                            pos = at + n;
                        },
                        None => {
                            return None;
                        },
                    }
                } else if same_text(key.as_str(), "op") {
                    if parts.op.is_some() {
                        return None;
                    }
                    match read_op(b, at, 2) {
                        Some((op, e)) => {
                            parts.op = Some(op);
                            pos = e;
                        },
                        None => {
                            return None;
                        },
                    }
                } else {
                    match ignore_value(from_here(b, at)) {
                        Some(n) => {
                            pos = at + n;
                        },
                        None => {
                            return None;
                        },
                    }
                }
                assert(envelope_member(b@, key@, at as int, before) == Some((parts@, pos as int)));
                first = false;
            },
        }
    }
}

fn read_envelope_elements(b: &[u8], start: usize) -> (r: Option<(Parts, usize)>)
    requires
        start <= b@.len(),
    ensures
        match r {
            Some((parts, e)) => envelope_elements(b@, start as int) == Some((parts@, e as int)) && start < e
                <= b@.len(),
            None => envelope_elements(b@, start as int) is None,
        },
{
    let p = match read_element(b, start, true) {
        Element::At(p) => p,
        _ => {
            return None;
        },
    };
    let (v, n) = match read_u32(from_here(b, p)) {
        Some(read) => read,
        None => {
            return None;
        },
    };
    let q = match read_element(b, p + n, false) {
        Element::At(q) => q,
        _ => {
            return None;
        },
    };
    let (branch, m) = match read_string(from_here(b, q)) {
        Some(read) => read,
        None => {
            return None;
        },
    };
    let r = match read_element(b, q + m, false) {
        Element::At(r) => r,
        _ => {
            return None;
        },
    };
    let (op, e) = match read_op(b, r, 2) {
        Some(read) => read,
        None => {
            return None;
        },
    };
    match read_element(b, e, false) {
        Element::End(z) => Some((Parts { v: Some(v), branch: Some(branch), op: Some(op) }, z)),
        _ => None,
    }
}

/// Decodes payload bytes. `None` means that this version does not understand
/// the payload: callers skip it.
pub fn decode_envelope(payload: &[u8]) -> (r: Option<OpEnvelope>)
    ensures
        match r {
            Some(env) => decoded(payload@) == Some(env@),
            None => decoded(payload@) is None,
        },
{
    let p = pass_blanks(payload, 0);
    if p >= payload.len() {
        return None;
    }
    let read = if payload[p] == OPEN_OBJECT {
        read_envelope_members(payload, p + 1)
    } else if payload[p] == OPEN_LIST {
        read_envelope_elements(payload, p + 1)
    } else {
        None
    };
    let (parts, e) = match read {
        Some(read) => read,
        None => {
            return None;
        },
    };
    if pass_blanks(payload, e) != payload.len() {
        return None;
    }
    assemble(parts)
}

/// Puts an envelope together from what has been read of it.
pub fn assemble(parts: Parts) -> (r: Option<OpEnvelope>)
    ensures
        match r {
            Some(env) => assembled(parts@) == Some(env@),
            None => assembled(parts@) is None,
        },
{
    match (parts.v, parts.op) {
        (Some(v), Some(op)) => if v <= ENVELOPE_VERSION {
            let branch = match parts.branch {
                Some(s) => s,
                None => MAIN_BRANCH.to_owned(),
            };
            Some(OpEnvelope { v, branch, op })
        } else {
            None
        },
        _ => None,
    }
}

// --- writing ---------------------------------------------------------------------

/// The fields of an op, in the order in which they are written. An absent nick
/// is not written.
pub open spec fn op_fields(op: OpView) -> Seq<(Seq<char>, JsonView)> {
    match op {
        OpView::SetTitle { title } => seq![("title"@, JsonView::Text(title))],
        OpView::SetApp { app } => seq![("app"@, JsonView::Text(app))],
        OpView::Checkpoint => Seq::empty(),
        OpView::BranchCreate { name } => seq![("name"@, JsonView::Text(name))],
        OpView::ChatSetNick { nick } => seq![("nick"@, JsonView::Text(nick))],
        OpView::ChatPost { text, nick } => match nick {
            Some(nick) => seq![("text"@, JsonView::Text(text)), ("nick"@, JsonView::Text(nick))],
            None => seq![("text"@, JsonView::Text(text))],
        },
        OpView::TodoAdd { id, title } => seq![("id"@, JsonView::Text(id)), ("title"@, JsonView::Text(title))],
        OpView::TodoSetDone { id, done } => seq![("id"@, JsonView::Text(id)), ("done"@, JsonView::Bool(done))],
        OpView::TodoRetitle { id, title } => seq![("id"@, JsonView::Text(id)), ("title"@, JsonView::Text(title))],
        OpView::TodoRemove { id } => seq![("id"@, JsonView::Text(id))],
        OpView::FsWrite { path, content } => seq![
            ("path"@, JsonView::Text(path)),
            ("content"@, JsonView::Text(content)),
        ],
        OpView::FsMkdir { path } => seq![("path"@, JsonView::Text(path))],
        OpView::FsRemove { path } => seq![("path"@, JsonView::Text(path))],
        OpView::FsMove { from, to } => seq![("from"@, JsonView::Text(from)), ("to"@, JsonView::Text(to))],
    }
}

/// The JSON form of a text or a truth value.
pub open spec fn scalar_text(v: JsonView) -> Seq<u8> {
    match v {
        JsonView::Text(s) => quoted(s),
        JsonView::Bool(b) => bool_bytes(b),
        _ => Seq::empty(),
    }
}

/// The JSON form of a member of an object.
pub open spec fn member_text(name: Seq<char>, value: Seq<u8>) -> Seq<u8> {
    quoted(name) + seq![COLON] + value
}

/// The JSON form of further members of an object.
pub open spec fn fields_text(fields: Seq<(Seq<char>, JsonView)>) -> Seq<u8>
    decreases fields.len(),
{
    if fields.len() == 0 {
        Seq::empty()
    } else {
        fields_text(fields.drop_last()) + seq![COMMA] + member_text(fields.last().0, scalar_text(fields.last().1))
    }
}

/// The JSON form of an op: its kind, then its fields.
pub open spec fn op_text(op: OpView) -> Seq<u8> {
    seq![OPEN_OBJECT] + member_text("kind"@, quoted(op_kind(op))) + fields_text(op_fields(op)) + seq![CLOSE_OBJECT]
}

/// The bytes of an envelope: its version, its branch pointer and its op.
pub open spec fn envelope_text(env: EnvelopeView) -> Seq<u8> {
    seq![OPEN_OBJECT] + member_text("v"@, decimal_bytes(env.v as nat)) + seq![COMMA] + member_text(
        "branch"@,
        quoted(env.branch),
    ) + seq![COMMA] + member_text("op"@, op_text(env.op)) + seq![CLOSE_OBJECT]
}

enum Scalar<'a> {
    Text(&'a String),
    Bool(bool),
}

impl<'a> Scalar<'a> {
    spec fn view(self) -> JsonView {
        match self {
            Scalar::Text(s) => JsonView::Text(s@),
            Scalar::Bool(b) => JsonView::Bool(b),
        }
    }
}

spec fn scalars_view(fields: Seq<(&'static str, Scalar)>) -> Seq<(Seq<char>, JsonView)> {
    fields.map_values(|f: (&'static str, Scalar)| (f.0@, f.1.view()))
}

/// The kind and the fields of an op.
fn dismantle(op: &RoomOp) -> (r: (&'static str, Vec<(&'static str, Scalar<'_>)>))
    ensures
        r.0@ == op_kind(op@),
        scalars_view(r.1@) == op_fields(op@),
{
    let r: (&'static str, Vec<(&'static str, Scalar<'_>)>) = match op {
        RoomOp::SetTitle { title } => ("meta.set_title", vec![("title", Scalar::Text(title))]),
        RoomOp::SetApp { app } => ("meta.set_app", vec![("app", Scalar::Text(app))]),
        RoomOp::Checkpoint => ("meta.checkpoint", Vec::new()),
        RoomOp::BranchCreate { name } => ("branch.create", vec![("name", Scalar::Text(name))]),
        RoomOp::ChatSetNick { nick } => ("chat.set_nick", vec![("nick", Scalar::Text(nick))]),
        RoomOp::ChatPost { text, nick } => match nick {
            Some(nick) => ("chat.post", vec![("text", Scalar::Text(text)), ("nick", Scalar::Text(nick))]),
            None => ("chat.post", vec![("text", Scalar::Text(text))]),
        },
        RoomOp::TodoAdd { id, title } => (
            "todo.add",
            vec![("id", Scalar::Text(id)), ("title", Scalar::Text(title))],
        ),
        RoomOp::TodoSetDone { id, done } => (
            "todo.set_done",
            vec![("id", Scalar::Text(id)), ("done", Scalar::Bool(*done))],
        ),
        RoomOp::TodoRetitle { id, title } => (
            "todo.retitle",
            vec![("id", Scalar::Text(id)), ("title", Scalar::Text(title))],
        ),
        RoomOp::TodoRemove { id } => ("todo.remove", vec![("id", Scalar::Text(id))]),
        RoomOp::FsWrite { path, content } => (
            "fs.write",
            vec![("path", Scalar::Text(path)), ("content", Scalar::Text(content))],
        ),
        RoomOp::FsMkdir { path } => ("fs.mkdir", vec![("path", Scalar::Text(path))]),
        RoomOp::FsRemove { path } => ("fs.remove", vec![("path", Scalar::Text(path))]),
        RoomOp::FsMove { from, to } => ("fs.move", vec![("from", Scalar::Text(from)), ("to", Scalar::Text(to))]),
    };
    assert(scalars_view(r.1@) =~= op_fields(op@));
    r
}

fn put(out: &mut Vec<u8>, bytes: &Vec<u8>)
    ensures
        final(out)@ == old(out)@ + bytes@,
{
    out.extend_from_slice(bytes.as_slice());
    assert(out@ =~= old(out)@ + bytes@);
}

/// The names and values of `fields` are read back from their JSON forms.
spec fn fields_read_back(fields: Seq<(Seq<char>, JsonView)>) -> bool {
    forall|i: int|
        0 <= i < fields.len() ==> {
            let f = #[trigger] fields[i];
            &&& reads_back(quoted(f.0), f.0)
            &&& scalar_reads_back(f.1)
        }
}

spec fn scalar_reads_back(v: JsonView) -> bool {
    &&& !(v is Nested)
    &&& forall|rest: Seq<u8>|
        ends_value(rest) ==> #[trigger] value_at(scalar_text(v) + rest) == Some((v, scalar_text(v).len()))
}

spec fn op_reads_back(op: OpView) -> bool {
    &&& reads_back(quoted("kind"@), "kind"@)
    &&& reads_back(quoted(op_kind(op)), op_kind(op))
    &&& fields_read_back(op_fields(op))
}

fn write_scalar(v: &Scalar<'_>) -> (r: Vec<u8>)
    ensures
        r@ == scalar_text(v.view()),
        scalar_reads_back(v.view()),
{
    match v {
        Scalar::Text(s) => write_string(s.as_str()),
        Scalar::Bool(b) => write_bool(*b),
    }
}

/// Writes a member of an object.
fn put_member(out: &mut Vec<u8>, name: &str, value: &Vec<u8>)
    ensures
        final(out)@ == old(out)@ + member_text(name@, value@),
        reads_back(quoted(name@), name@),
{
    let key = write_string(name);
    put(out, &key);
    out.push(COLON);
    put(out, value);
    assert(out@ =~= old(out)@ + member_text(name@, value@));
}

/// Encodes an op as its JSON text.
fn write_op(op: &RoomOp) -> (r: Vec<u8>)
    ensures
        r@ == op_text(op@),
        op_reads_back(op@),
{
    let (kind, fields) = dismantle(op);
    let mut out: Vec<u8> = Vec::new();
    out.push(OPEN_OBJECT);
    let value = write_string(kind);
    put_member(&mut out, "kind", &value);
    let ghost head = out@;
    let ghost all = op_fields(op@);
    let mut i: usize = 0;
    assert(all.take(0) =~= Seq::empty());
    assert(out@ =~= head + fields_text(all.take(0)));
    while i < fields.len()
        invariant
            i <= fields@.len(),
            all == op_fields(op@),
            scalars_view(fields@) == all,
            out@ == head + fields_text(all.take(i as int)),
            fields_read_back(all.take(i as int)),
        decreases fields@.len() - i,
    {
        let ghost before = out@;
        let (name, v) = &fields[i];
        let value = write_scalar(v);
        out.push(COMMA);
        put_member(&mut out, name, &value);
        proof {
            assert(all[i as int] == (name@, v.view()));
            assert(all.take(i + 1).drop_last() =~= all.take(i as int));
            assert(out@ =~= before + (seq![COMMA] + member_text(name@, value@)));
            assert(out@ =~= head + fields_text(all.take(i + 1)));
        }
        i = i + 1;
    }
    assert(all.take(i as int) =~= all);
    out.push(CLOSE_OBJECT);
    assert(out@ =~= op_text(op@));
    out
}

// --- what was written is read back ------------------------------------------------

/// An object that goes on at `pos` with a written member is read as that member.
proof fn lemma_member(b: Seq<u8>, pos: int, first: bool, name: Seq<char>, rest: Seq<u8>)
    requires
        0 <= pos <= b.len(),
        reads_back(quoted(name), name),
        b.skip(pos) == (if first {
            Seq::<u8>::empty()
        } else {
            seq![COMMA]
        }) + (quoted(name) + seq![COLON] + rest),
    ensures
        ({
            let at = pos + (if first {
                0int
            } else {
                1int
            }) + quoted(name).len() + 1;
            &&& next_member(b, pos, first) == MemberView::Key(name, at)
            &&& at <= b.len()
            &&& b.skip(at) == rest
        }),
{
    let k = if first {
        pos
    } else {
        pos + 1
    };
    let q = quoted(name);
    let tail = b.skip(pos);
    assert(tail.len() == b.len() - pos);
    assert(b[pos] == tail[0]);
    assert(b[k] == tail[k - pos]);
    assert(b[k] == QUOTE) by {
        if !first {
            assert(tail[1] == q[0]);
        } else {
            assert(tail[0] == q[0]);
        }
    }
    assert(b.skip(k) =~= q + (seq![COLON] + rest)) by {
        assert(b.skip(k) =~= tail.skip(k - pos));
    }
    assert(string_at(q + (seq![COLON] + rest)) == Some((name, q.len())));
    let c = k + q.len();
    assert(b[c] == COLON) by {
        assert(b.skip(k)[q.len() as int] == COLON);
    }
    assert(b.skip(c + 1) =~= rest) by {
        assert(b.skip(c + 1) =~= b.skip(k).skip(q.len() as int + 1));
    }
}

/// The members before position `k`, the member there, and what follows it.
proof fn lemma_fields_split(fields: Seq<(Seq<char>, JsonView)>, k: int) -> (tail: Seq<u8>)
    requires
        0 <= k < fields.len(),
    ensures
        fields_text(fields) == fields_text(fields.take(k)) + seq![COMMA] + member_text(
            fields[k].0,
            scalar_text(fields[k].1),
        ) + tail,
        tail.len() == 0 || tail[0] == COMMA,
        fields_text(fields.take(k + 1)) == fields_text(fields.take(k)) + seq![COMMA] + member_text(
            fields[k].0,
            scalar_text(fields[k].1),
        ),
    decreases fields.len(),
{
    assert(fields.take(k + 1).drop_last() =~= fields.take(k));
    if k == fields.len() - 1 {
        assert(fields.take(k + 1) =~= fields);
        let tail = Seq::<u8>::empty();
        assert(fields_text(fields) =~= fields_text(fields.take(k)) + seq![COMMA] + member_text(
            fields[k].0,
            scalar_text(fields[k].1),
        ) + tail);
        tail
    } else {
        let most = fields.drop_last();
        let t = lemma_fields_split(most, k);
        assert(most.take(k) =~= fields.take(k));
        let tail = t + (seq![COMMA] + member_text(fields.last().0, scalar_text(fields.last().1)));
        assert(fields_text(fields) =~= fields_text(fields.take(k)) + seq![COMMA] + member_text(
            fields[k].0,
            scalar_text(fields[k].1),
        ) + tail);
        tail
    }
}

/// Written fields, followed by the end of the object, are read back one by one.
proof fn lemma_fields_read(
    b: Seq<u8>,
    pos: int,
    depth: nat,
    kind: Option<Seq<char>>,
    fields: Seq<(Seq<char>, JsonView)>,
    post: Seq<u8>,
    k: int,
)
    requires
        0 <= pos <= b.len(),
        0 <= k <= fields.len(),
        b.skip(pos) == fields_text(fields) + (seq![CLOSE_OBJECT] + post),
        fields_read_back(fields),
        forall|i: int| 0 <= i < fields.len() ==> (#[trigger] fields[i]).0 != "kind"@,
    ensures
        op_members(b, pos, false, depth, kind, Seq::empty()) == op_members(
            b,
            pos + fields_text(fields.take(k)).len(),
            false,
            depth,
            kind,
            fields.take(k),
        ),
        pos + fields_text(fields).len() < b.len(),
    decreases k,
{
    let all = fields_text(fields);
    assert(b.skip(pos).len() == b.len() - pos);
    if k == 0 {
        assert(fields.take(0) =~= Seq::empty());
    } else {
        let j = k - 1;
        lemma_fields_read(b, pos, depth, kind, fields, post, j);
        let f = fields[j];
        let tail = lemma_fields_split(fields, j);
        let head = fields_text(fields.take(j));
        let p = pos + head.len();
        let end = seq![CLOSE_OBJECT] + post;
        let v = scalar_text(f.1);
        let rest = v + (tail + end);
        assert(b.skip(p) =~= seq![COMMA] + (quoted(f.0) + seq![COLON] + rest)) by {
            assert(b.skip(p) =~= b.skip(pos).skip(head.len() as int));
            assert(b.skip(pos) =~= head + (seq![COMMA] + (quoted(f.0) + seq![COLON] + rest)));
        }
        lemma_member(b, p, false, f.0, rest);
        let at = p + 1 + quoted(f.0).len() + 1;
        assert(ends_value(tail + end));
        assert(value_at(v + (tail + end)) == Some((f.1, v.len())));
        assert(value_within(b, at, depth) == Some((f.1, at + v.len())));
        assert(fields.take(k) =~= fields.take(j).push(f));
        assert(at + v.len() == pos + fields_text(fields.take(k)).len());
        assert(at + v.len() <= b.len()) by {
            assert(b.skip(at).len() == b.len() - at);
        }
    }
}

/// What tells the kinds of ops apart.
pub(crate) proof fn lemma_kinds()
    ensures
        "meta.set_title"@.len() == 14,
        "meta.set_app"@.len() == 12,
        "meta.checkpoint"@.len() == 15,
        "branch.create"@.len() == 13,
        "chat.set_nick"@.len() == 13,
        "chat.post"@.len() == 9,
        "todo.add"@.len() == 8,
        "todo.set_done"@.len() == 13,
        "todo.retitle"@.len() == 12,
        "todo.remove"@.len() == 11,
        "fs.write"@.len() == 8,
        "fs.mkdir"@.len() == 8,
        "fs.remove"@.len() == 9,
        "fs.move"@.len() == 7,
        "branch.create"@[0] == 'b' && "chat.set_nick"@[0] == 'c' && "todo.set_done"@[0] == 't',
        "meta.set_app"@[0] == 'm' && "todo.retitle"@[0] == 't',
        "chat.post"@[0] == 'c' && "fs.remove"@[0] == 'f',
        "todo.add"@[0] == 't' && "fs.write"@[0] == 'f' && "fs.mkdir"@[0] == 'f',
        "fs.write"@[3] == 'w' && "fs.mkdir"@[3] == 'm',
{
    reveal_strlit("meta.set_title");
    reveal_strlit("meta.set_app");
    reveal_strlit("meta.checkpoint");
    reveal_strlit("branch.create");
    reveal_strlit("chat.set_nick");
    reveal_strlit("chat.post");
    reveal_strlit("todo.add");
    reveal_strlit("todo.set_done");
    reveal_strlit("todo.retitle");
    reveal_strlit("todo.remove");
    reveal_strlit("fs.write");
    reveal_strlit("fs.mkdir");
    reveal_strlit("fs.remove");
    reveal_strlit("fs.move");
}

/// What tells the names of fields apart.
pub(crate) proof fn lemma_field_names()
    ensures
        "kind"@.len() == 4,
        "title"@.len() == 5,
        "app"@.len() == 3,
        "name"@.len() == 4,
        "nick"@.len() == 4,
        "text"@.len() == 4,
        "id"@.len() == 2,
        "done"@.len() == 4,
        "path"@.len() == 4,
        "content"@.len() == 7,
        "from"@.len() == 4,
        "to"@.len() == 2,
        "kind"@[0] == 'k' && "name"@[0] == 'n' && "nick"@[0] == 'n' && "text"@[0] == 't' && "done"@[0] == 'd',
        "path"@[0] == 'p' && "from"@[0] == 'f',
{
    reveal_strlit("kind");
    reveal_strlit("title");
    reveal_strlit("app");
    reveal_strlit("name");
    reveal_strlit("nick");
    reveal_strlit("text");
    reveal_strlit("id");
    reveal_strlit("done");
    reveal_strlit("path");
    reveal_strlit("content");
    reveal_strlit("from");
    reveal_strlit("to");
}

proof fn lemma_lookup(fields: Seq<(Seq<char>, JsonView)>)
    requires
        fields.len() <= 2,
        fields.len() == 2 ==> fields[0].0 != fields[1].0,
    ensures
        fields.len() >= 1 ==> lookup(fields, fields[0].0) == LookupView::Once(fields[0].1),
        fields.len() == 2 ==> lookup(fields, fields[1].0) == LookupView::Once(fields[1].1),
        forall|name: Seq<char>|
            (forall|i: int| 0 <= i < fields.len() ==> fields[i].0 != name) ==> #[trigger] lookup(fields, name)
                == LookupView::Absent,
{
    reveal_with_fuel(lookup, 3);
    if fields.len() == 1 {
        assert(fields.drop_last() =~= Seq::empty());
    } else if fields.len() == 2 {
        assert(fields.drop_last() =~= seq![fields[0]]);
        assert(fields.drop_last().drop_last() =~= Seq::empty());
    }
}

/// The fields of an op give the op back, and none is named like its kind.
proof fn lemma_names(op: OpView)
    ensures
        op_of_fields(op_kind(op), op_fields(op)) == Some(op),
        forall|i: int| 0 <= i < op_fields(op).len() ==> (#[trigger] op_fields(op)[i]).0 != "kind"@,
{
    lemma_kinds();
    lemma_field_names();
    lemma_lookup(op_fields(op));
}

/// A written op, whatever follows it, is read back.
proof fn lemma_op_read(b: Seq<u8>, at: int, depth: nat, op: OpView, post: Seq<u8>)
    requires
        0 <= at <= b.len(),
        op_reads_back(op),
        b.skip(at) == op_text(op) + post,
    ensures
        op_at(b, at, depth) == Some((op, at + op_text(op).len())),
        at + op_text(op).len() <= b.len(),
{
    let kind = op_kind(op);
    let fields = op_fields(op);
    let ft = fields_text(fields);
    let tail = ft + (seq![CLOSE_OBJECT] + post);
    let rest = quoted(kind) + tail;
    assert(b.skip(at).len() == b.len() - at);
    assert(b.skip(at) =~= seq![OPEN_OBJECT] + (quoted("kind"@) + seq![COLON] + rest));
    assert(b[at] == b.skip(at)[0]);
    assert(b.skip(at + 1) =~= b.skip(at).skip(1));
    assert(b.skip(at + 1) =~= Seq::<u8>::empty() + (quoted("kind"@) + seq![COLON] + rest));
    lemma_member(b, at + 1, true, "kind"@, rest);
    let v = at + 1 + quoted("kind"@).len() + 1;
    assert(string_at(quoted(kind) + tail) == Some((kind, quoted(kind).len())));
    let p = v + quoted(kind).len();
    assert(b.skip(v).len() == b.len() - v);
    assert(b.skip(p) =~= b.skip(v).skip(quoted(kind).len() as int));
    assert(b.skip(p) =~= tail);
    lemma_names(op);
    let n = fields.len() as int;
    lemma_fields_read(b, p, depth, Some(kind), fields, post, n);
    assert(fields.take(n) =~= fields);
    let q = p + ft.len();
    assert(b[q] == CLOSE_OBJECT) by {
        assert(b.skip(p)[ft.len() as int] == CLOSE_OBJECT);
    }
    assert(next_member(b, q, false) == MemberView::End(q + 1));
    assert(op_members(b, p, false, depth, Some(kind), Seq::empty()) == Some((Some(kind), fields, q + 1)));
    assert(op_members(b, at + 1, true, depth, None, Seq::empty()) == Some((Some(kind), fields, q + 1)));
    assert(at + op_text(op).len() == q + 1);
}

/// What is read of an envelope that goes on at `pos` with its version.
proof fn lemma_version_read(b: Seq<u8>, pos: int, v: u32, parts: PartsView, post: Seq<u8>)
    requires
        0 <= pos <= b.len(),
        parts.v is None,
        reads_back(quoted("v"@), "v"@),
        ends_value(post),
        u32_at(decimal_bytes(v as nat) + post) == Some((v, decimal_bytes(v as nat).len())),
        b.skip(pos) == member_text("v"@, decimal_bytes(v as nat)) + post,
    ensures
        ({
            let next = pos + member_text("v"@, decimal_bytes(v as nat)).len();
            &&& next <= b.len()
            &&& b.skip(next) == post
            &&& envelope_members(b, pos, true, parts) == envelope_members(
                b,
                next,
                false,
                PartsView { v: Some(v), ..parts },
            )
        }),
{
    let num = decimal_bytes(v as nat);
    assert(b.skip(pos).len() == b.len() - pos);
    assert(b.skip(pos) =~= Seq::<u8>::empty() + (quoted("v"@) + seq![COLON] + (num + post)));
    lemma_member(b, pos, true, "v"@, num + post);
    let at = pos + quoted("v"@).len() + 1;
    let next = at + num.len();
    assert(b.skip(at).len() == b.len() - at);
    assert(b.skip(next) =~= b.skip(at).skip(num.len() as int));
    assert(b.skip(next) =~= post);
    assert(envelope_member(b, "v"@, at, parts) == Some((PartsView { v: Some(v), ..parts }, next)));
}

/// What is read of an envelope that goes on at `pos` with its branch pointer.
proof fn lemma_branch_read(b: Seq<u8>, pos: int, branch: Seq<char>, parts: PartsView, post: Seq<u8>)
    requires
        0 <= pos <= b.len(),
        parts.branch is None,
        reads_back(quoted("branch"@), "branch"@),
        reads_back(quoted(branch), branch),
        b.skip(pos) == seq![COMMA] + member_text("branch"@, quoted(branch)) + post,
    ensures
        ({
            let next = pos + 1 + member_text("branch"@, quoted(branch)).len();
            &&& next <= b.len()
            &&& b.skip(next) == post
            &&& envelope_members(b, pos, false, parts) == envelope_members(
                b,
                next,
                false,
                PartsView { branch: Some(branch), ..parts },
            )
        }),
{
    let value = quoted(branch);
    assert(b.skip(pos).len() == b.len() - pos);
    assert(b.skip(pos) =~= seq![COMMA] + (quoted("branch"@) + seq![COLON] + (value + post)));
    lemma_member(b, pos, false, "branch"@, value + post);
    let at = pos + 1 + quoted("branch"@).len() + 1;
    let next = at + value.len();
    assert(b.skip(at).len() == b.len() - at);
    assert(b.skip(next) =~= b.skip(at).skip(value.len() as int));
    assert(b.skip(next) =~= post);
    assert(string_at(value + post) == Some((branch, value.len())));
    assert("branch"@ != "v"@) by {
        reveal_strlit("branch");
        reveal_strlit("v");
        assert("branch"@.len() == 6 && "v"@.len() == 1);
    }
    assert(envelope_member(b, "branch"@, at, parts) == Some((PartsView { branch: Some(branch), ..parts }, next)));
}

/// What is read of an envelope that goes on at `pos` with its op and ends there.
proof fn lemma_last_read(b: Seq<u8>, pos: int, op: OpView, parts: PartsView)
    requires
        0 <= pos <= b.len(),
        parts.op is None,
        reads_back(quoted("op"@), "op"@),
        op_reads_back(op),
        b.skip(pos) == seq![COMMA] + member_text("op"@, op_text(op)) + seq![CLOSE_OBJECT],
    ensures
        envelope_members(b, pos, false, parts) == Some((PartsView { op: Some(op), ..parts }, b.len() as int)),
{
    let value = op_text(op);
    let close = seq![CLOSE_OBJECT];
    assert(b.skip(pos).len() == b.len() - pos);
    assert(b.skip(pos) =~= seq![COMMA] + (quoted("op"@) + seq![COLON] + (value + close)));
    lemma_member(b, pos, false, "op"@, value + close);
    let at = pos + 1 + quoted("op"@).len() + 1;
    let next = at + value.len();
    assert(b.skip(at).len() == b.len() - at);
    lemma_op_read(b, at, 2, op, close);
    assert("op"@ != "v"@ && "op"@ != "branch"@) by {
        reveal_strlit("branch");
        reveal_strlit("v");
        reveal_strlit("op");
        assert("branch"@.len() == 6 && "v"@.len() == 1 && "op"@.len() == 2);
    }
    let done = PartsView { op: Some(op), ..parts };
    assert(envelope_member(b, "op"@, at, parts) == Some((done, next)));
    assert(b[next] == CLOSE_OBJECT) by {
        assert(b.skip(at)[value.len() as int] == CLOSE_OBJECT);
    }
    assert(next_member(b, next, false) == MemberView::End(next + 1));
    assert(next + 1 == b.len());
    assert(envelope_members(b, next, false, done) == Some((done, b.len() as int)));
}

proof fn lemma_envelope_shape(t1: Seq<u8>, t2: Seq<u8>, t3: Seq<u8>)
    ensures
        ({
            let b = seq![OPEN_OBJECT] + t1 + seq![COMMA] + t2 + seq![COMMA] + t3 + seq![CLOSE_OBJECT];
            &&& b.len() > 0
            &&& b[0] == OPEN_OBJECT
            &&& b.skip(1) == t1 + (seq![COMMA] + t2 + (seq![COMMA] + t3 + seq![CLOSE_OBJECT]))
        }),
{
    let b = seq![OPEN_OBJECT] + t1 + seq![COMMA] + t2 + seq![COMMA] + t3 + seq![CLOSE_OBJECT];
    assert(b.skip(1) =~= t1 + (seq![COMMA] + t2 + (seq![COMMA] + t3 + seq![CLOSE_OBJECT])));
}

/// A written envelope is read back.
#[verifier::spinoff_prover]
#[verifier::rlimit(40)]
proof fn lemma_envelope_read(env: EnvelopeView)
    requires
        reads_back(quoted("v"@), "v"@),
        reads_back(quoted("branch"@), "branch"@),
        reads_back(quoted("op"@), "op"@),
        reads_back(quoted(env.branch), env.branch),
        op_reads_back(env.op),
        forall|rest: Seq<u8>|
            ends_value(rest) ==> #[trigger] u32_at(decimal_bytes(env.v as nat) + rest) == Some(
                (env.v, decimal_bytes(env.v as nat).len()),
            ),
    ensures
        decoded(envelope_text(env)) == (if env.v <= ENVELOPE_VERSION {
            Some(env)
        } else {
            None
        }),
{
    let b = envelope_text(env);
    let none = PartsView { v: None, branch: None, op: None };
    let t1 = member_text("v"@, decimal_bytes(env.v as nat));
    let t2 = member_text("branch"@, quoted(env.branch));
    let t3 = member_text("op"@, op_text(env.op));
    let post3 = seq![COMMA] + t3 + seq![CLOSE_OBJECT];
    let post2 = seq![COMMA] + t2 + post3;
    lemma_envelope_shape(t1, t2, t3);
    lemma_version_read(b, 1, env.v, none, post2);
    let p2 = 1int + t1.len();
    let some_v = PartsView { v: Some(env.v), ..none };
    lemma_branch_read(b, p2, env.branch, some_v, post3);
    let p3 = p2 + 1 + t2.len();
    lemma_last_read(b, p3, env.op, PartsView { branch: Some(env.branch), ..some_v });
}

/// Encodes an envelope to the bytes that are appended to the log. Decoding them
/// gives the envelope back, unless its version is one from the future.
pub fn encode_envelope(env: &OpEnvelope) -> (r: Vec<u8>)
    ensures
        r@ == envelope_text(env@),
        env.v <= ENVELOPE_VERSION ==> decoded(r@) == Some(env@),
        env.v > ENVELOPE_VERSION ==> decoded(r@) is None,
{
    let mut out: Vec<u8> = Vec::new();
    out.push(OPEN_OBJECT);
    let version = write_u32(env.v);
    put_member(&mut out, "v", &version);
    out.push(COMMA);
    let branch = write_string(env.branch.as_str());
    put_member(&mut out, "branch", &branch);
    out.push(COMMA);
    let op = write_op(&env.op);
    put_member(&mut out, "op", &op);
    out.push(CLOSE_OBJECT);
    proof {
        assert(out@ =~= envelope_text(env@));
        lemma_envelope_read(env@);
    }
    out
}

} // verus!
