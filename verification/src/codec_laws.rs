//! What payloads are written as, and what they are read as.

use vstd::prelude::*;

use crate::envelope::{
    assembled, decoded, envelope_elements, envelope_member, envelope_members, envelope_parts, envelope_text,
    fields_text, lemma_field_names, lemma_kinds, member_text, op_fields, op_text, scalar_text, PartsView,
};
use crate::json::{
    after_blanks, bool_bytes, escaped, ignored_at, is_blank, next_element, next_member, quoted, string_at, u32_at,
    value_at, value_within, wrapped, ElementView, JsonView, MemberView, CLOSE_OBJECT, COLON, COMMA, OPEN_OBJECT,
};
use crate::op::{
    decoded_op, field_names, lookup, op_at, op_kind, op_members, op_of_fields, op_of_values, op_values, EnvelopeView,
    LookupView, OpView,
};
use crate::text::{decimal, utf8};

verus! {

// --- fields --------------------------------------------------------------------------

/// `name` occurs once among `fields`, with the value `v`.
pub open spec fn once(fields: Seq<(Seq<char>, JsonView)>, name: Seq<char>, v: JsonView) -> bool {
    exists|i: int|
        {
            &&& 0 <= i < fields.len()
            &&& #[trigger] fields[i] == (name, v)
            &&& forall|j: int| 0 <= j < fields.len() && j != i ==> (#[trigger] fields[j]).0 != name
        }
}

/// `name` does not occur among `fields`.
pub open spec fn absent(fields: Seq<(Seq<char>, JsonView)>, name: Seq<char>) -> bool {
    forall|i: int| 0 <= i < fields.len() ==> (#[trigger] fields[i]).0 != name
}

/// A field is found by its name, wherever it stands, exactly where it occurs once.
pub proof fn law_field_is_found(fields: Seq<(Seq<char>, JsonView)>, name: Seq<char>, v: JsonView)
    ensures
        lookup(fields, name) == LookupView::Once(v) <==> once(fields, name, v),
        lookup(fields, name) == LookupView::Absent <==> absent(fields, name),
    decreases fields.len(),
{
    if fields.len() > 0 {
        let init = fields.drop_last();
        let n = fields.len() - 1;
        law_field_is_found(init, name, v);
        assert(forall|i: int| 0 <= i < n ==> #[trigger] fields[i] == init[i]);
        assert(forall|i: int| 0 <= i < n ==> #[trigger] init[i] == fields[i]);
        assert(absent(fields, name) <==> absent(init, name) && fields[n].0 != name);
        if fields[n].0 != name {
            if once(init, name, v) {
                let i = choose|i: int|
                    {
                        &&& 0 <= i < init.len()
                        &&& #[trigger] init[i] == (name, v)
                        &&& forall|j: int| 0 <= j < init.len() && j != i ==> (#[trigger] init[j]).0 != name
                    };
                assert(fields[i] == (name, v));
            }
            if once(fields, name, v) {
                let i = choose|i: int|
                    {
                        &&& 0 <= i < fields.len()
                        &&& #[trigger] fields[i] == (name, v)
                        &&& forall|j: int| 0 <= j < fields.len() && j != i ==> (#[trigger] fields[j]).0 != name
                    };
                assert(init[i] == (name, v));
            }
        } else if absent(init, name) {
            if fields[n].1 == v {
                assert(fields[n] == (name, v));
            }
        } else {
            let i = choose|i: int| 0 <= i < init.len() && (#[trigger] init[i]).0 == name;
            assert(fields[i].0 == name && fields[n].0 == name);
        }
    }
}


/// An op is read from an object exactly where the object names its kind and has each of
/// its fields once, in any order; other fields are passed over. A nick may be left out,
/// or be null.
pub proof fn law_op_is_read_from_its_fields(kind: Seq<char>, fields: Seq<(Seq<char>, JsonView)>, op: OpView)
    ensures
        op_of_fields(kind, fields) == Some(op) <==> match op {
            OpView::Checkpoint => kind == "meta.checkpoint"@,
            OpView::ChatPost { text, nick } => kind == "chat.post"@ && once(fields, "text"@, JsonView::Text(text))
                && match nick {
                Some(nick) => once(fields, "nick"@, JsonView::Text(nick)),
                None => absent(fields, "nick"@) || once(fields, "nick"@, JsonView::Null),
            },
            OpView::TodoSetDone { id, done } => kind == "todo.set_done"@ && once(fields, "id"@, JsonView::Text(id))
                && once(fields, "done"@, JsonView::Bool(done)),
            OpView::SetTitle { title } => kind == "meta.set_title"@ && once(fields, "title"@, JsonView::Text(title)),
            OpView::SetApp { app } => kind == "meta.set_app"@ && once(fields, "app"@, JsonView::Text(app)),
            OpView::BranchCreate { name } => kind == "branch.create"@ && once(fields, "name"@, JsonView::Text(name)),
            OpView::ChatSetNick { nick } => kind == "chat.set_nick"@ && once(fields, "nick"@, JsonView::Text(nick)),
            OpView::TodoRemove { id } => kind == "todo.remove"@ && once(fields, "id"@, JsonView::Text(id)),
            OpView::FsMkdir { path } => kind == "fs.mkdir"@ && once(fields, "path"@, JsonView::Text(path)),
            OpView::FsRemove { path } => kind == "fs.remove"@ && once(fields, "path"@, JsonView::Text(path)),
            OpView::TodoAdd { id, title } => kind == "todo.add"@ && once(fields, "id"@, JsonView::Text(id))
                && once(fields, "title"@, JsonView::Text(title)),
            OpView::TodoRetitle { id, title } => kind == "todo.retitle"@ && once(fields, "id"@, JsonView::Text(id))
                && once(fields, "title"@, JsonView::Text(title)),
            OpView::FsWrite { path, content } => kind == "fs.write"@ && once(fields, "path"@, JsonView::Text(path))
                && once(fields, "content"@, JsonView::Text(content)),
            OpView::FsMove { from, to } => kind == "fs.move"@ && once(fields, "from"@, JsonView::Text(from))
                && once(fields, "to"@, JsonView::Text(to)),
        },
{
    lemma_kinds();
    match op {
        OpView::Checkpoint => {},
        OpView::ChatPost { text, nick } => {
            law_field_is_found(fields, "text"@, JsonView::Text(text));
            law_field_is_found(fields, "nick"@, JsonView::Null);
            if let Some(nick) = nick {
                law_field_is_found(fields, "nick"@, JsonView::Text(nick));
            }
        },
        OpView::TodoSetDone { id, done } => {
            law_field_is_found(fields, "id"@, JsonView::Text(id));
            law_field_is_found(fields, "done"@, JsonView::Bool(done));
        },
        OpView::SetTitle { title } => {
            law_field_is_found(fields, "title"@, JsonView::Text(title));
        },
        OpView::SetApp { app } => {
            law_field_is_found(fields, "app"@, JsonView::Text(app));
        },
        OpView::BranchCreate { name } => {
            law_field_is_found(fields, "name"@, JsonView::Text(name));
        },
        OpView::ChatSetNick { nick } => {
            law_field_is_found(fields, "nick"@, JsonView::Text(nick));
        },
        OpView::TodoRemove { id } => {
            law_field_is_found(fields, "id"@, JsonView::Text(id));
        },
        OpView::FsMkdir { path } => {
            law_field_is_found(fields, "path"@, JsonView::Text(path));
        },
        OpView::FsRemove { path } => {
            law_field_is_found(fields, "path"@, JsonView::Text(path));
        },
        OpView::TodoAdd { id, title } => {
            law_field_is_found(fields, "id"@, JsonView::Text(id));
            law_field_is_found(fields, "title"@, JsonView::Text(title));
        },
        OpView::TodoRetitle { id, title } => {
            law_field_is_found(fields, "id"@, JsonView::Text(id));
            law_field_is_found(fields, "title"@, JsonView::Text(title));
        },
        OpView::FsWrite { path, content } => {
            law_field_is_found(fields, "path"@, JsonView::Text(path));
            law_field_is_found(fields, "content"@, JsonView::Text(content));
        },
        OpView::FsMove { from, to } => {
            law_field_is_found(fields, "from"@, JsonView::Text(from));
            law_field_is_found(fields, "to"@, JsonView::Text(to));
        },
    }
}

proof fn lemma_one_field(name: Seq<char>, v: JsonView)
    ensures
        once(seq![(name, v)], name, v),
{
    assert(seq![(name, v)][0] == (name, v));
}

proof fn lemma_two_fields(a: Seq<char>, v: JsonView, b: Seq<char>, w: JsonView)
    requires
        a != b,
    ensures
        once(seq![(a, v), (b, w)], a, v),
        once(seq![(a, v), (b, w)], b, w),
{
    assert(seq![(a, v), (b, w)][0] == (a, v));
    assert(seq![(a, v), (b, w)][1] == (b, w));
}

/// An op is read from an array of its kind and its fields, in their order, too; further
/// values are refused.
pub proof fn law_op_is_read_from_a_list(op: OpView, kind: Seq<char>, values: Seq<JsonView>)
    ensures
        match op {
            OpView::Checkpoint => op_of_values("meta.checkpoint"@, Seq::empty()) == Some(op),
            OpView::ChatPost { text, nick: Some(nick) } => op_of_values(
                "chat.post"@,
                seq![JsonView::Text(text), JsonView::Text(nick)],
            ) == Some(op),
            OpView::ChatPost { text, nick: None } => op_of_values("chat.post"@, seq![JsonView::Text(text)]) == Some(op)
                && op_of_values("chat.post"@, seq![JsonView::Text(text), JsonView::Null]) == Some(op),
            OpView::TodoSetDone { id, done } => op_of_values(
                "todo.set_done"@,
                seq![JsonView::Text(id), JsonView::Bool(done)],
            ) == Some(op),
            OpView::SetTitle { title } => op_of_values("meta.set_title"@, seq![JsonView::Text(title)]) == Some(op),
            OpView::SetApp { app } => op_of_values("meta.set_app"@, seq![JsonView::Text(app)]) == Some(op),
            OpView::BranchCreate { name } => op_of_values("branch.create"@, seq![JsonView::Text(name)]) == Some(op),
            OpView::ChatSetNick { nick } => op_of_values("chat.set_nick"@, seq![JsonView::Text(nick)]) == Some(op),
            OpView::TodoRemove { id } => op_of_values("todo.remove"@, seq![JsonView::Text(id)]) == Some(op),
            OpView::FsMkdir { path } => op_of_values("fs.mkdir"@, seq![JsonView::Text(path)]) == Some(op),
            OpView::FsRemove { path } => op_of_values("fs.remove"@, seq![JsonView::Text(path)]) == Some(op),
            OpView::TodoAdd { id, title } => op_of_values("todo.add"@, seq![JsonView::Text(id),
                JsonView::Text(title)]) == Some(op),
            OpView::TodoRetitle { id, title } => op_of_values("todo.retitle"@, seq![JsonView::Text(id),
                JsonView::Text(title)]) == Some(op),
            OpView::FsWrite { path, content } => op_of_values("fs.write"@, seq![JsonView::Text(path),
                JsonView::Text(content)]) == Some(op),
            OpView::FsMove { from, to } => op_of_values("fs.move"@, seq![JsonView::Text(from), JsonView::Text(to)])
                == Some(op),
        },
        values.len() > 2 ==> op_of_values(kind, values) is None,
{
    lemma_kinds();
    lemma_field_names();
    match op {
        OpView::Checkpoint => {
            lemma_empty_list("meta.checkpoint"@);
            law_op_is_read_from_its_fields("meta.checkpoint"@, Seq::empty(), op);
        },
        OpView::ChatPost { text, nick } => {
            let w = match nick {
                Some(nick) => JsonView::Text(nick),
                None => JsonView::Null,
            };
            let both = seq![("text"@, JsonView::Text(text)), ("nick"@, w)];
            lemma_two_fields("text"@, JsonView::Text(text), "nick"@, w);
            law_op_is_read_from_its_fields("chat.post"@, both, op);
            lemma_list_of_two("chat.post"@, "text"@, JsonView::Text(text), "nick"@, w);
            if nick is None {
                lemma_one_field("text"@, JsonView::Text(text));
                law_op_is_read_from_its_fields("chat.post"@, seq![("text"@, JsonView::Text(text))], op);
                lemma_list_of_one("chat.post"@, "text"@, JsonView::Text(text));
            }
        },
        OpView::TodoSetDone { id, done } => {
            lemma_two_fields("id"@, JsonView::Text(id), "done"@, JsonView::Bool(done));
            law_op_is_read_from_its_fields(
                "todo.set_done"@,
                seq![("id"@, JsonView::Text(id)), ("done"@, JsonView::Bool(done))],
                op,
            );
            lemma_list_of_two("todo.set_done"@, "id"@, JsonView::Text(id), "done"@, JsonView::Bool(done));
        },
        OpView::SetTitle { title } => {
            lemma_one_field("title"@, JsonView::Text(title));
            law_op_is_read_from_its_fields("meta.set_title"@, seq![("title"@, JsonView::Text(title))], op);
            lemma_list_of_one("meta.set_title"@, "title"@, JsonView::Text(title));
        },
        OpView::SetApp { app } => {
            lemma_one_field("app"@, JsonView::Text(app));
            law_op_is_read_from_its_fields("meta.set_app"@, seq![("app"@, JsonView::Text(app))], op);
            lemma_list_of_one("meta.set_app"@, "app"@, JsonView::Text(app));
        },
        OpView::BranchCreate { name } => {
            lemma_one_field("name"@, JsonView::Text(name));
            law_op_is_read_from_its_fields("branch.create"@, seq![("name"@, JsonView::Text(name))], op);
            lemma_list_of_one("branch.create"@, "name"@, JsonView::Text(name));
        },
        OpView::ChatSetNick { nick } => {
            lemma_one_field("nick"@, JsonView::Text(nick));
            law_op_is_read_from_its_fields("chat.set_nick"@, seq![("nick"@, JsonView::Text(nick))], op);
            lemma_list_of_one("chat.set_nick"@, "nick"@, JsonView::Text(nick));
        },
        OpView::TodoRemove { id } => {
            lemma_one_field("id"@, JsonView::Text(id));
            law_op_is_read_from_its_fields("todo.remove"@, seq![("id"@, JsonView::Text(id))], op);
            lemma_list_of_one("todo.remove"@, "id"@, JsonView::Text(id));
        },
        OpView::FsMkdir { path } => {
            lemma_one_field("path"@, JsonView::Text(path));
            law_op_is_read_from_its_fields("fs.mkdir"@, seq![("path"@, JsonView::Text(path))], op);
            lemma_list_of_one("fs.mkdir"@, "path"@, JsonView::Text(path));
        },
        OpView::FsRemove { path } => {
            lemma_one_field("path"@, JsonView::Text(path));
            law_op_is_read_from_its_fields("fs.remove"@, seq![("path"@, JsonView::Text(path))], op);
            lemma_list_of_one("fs.remove"@, "path"@, JsonView::Text(path));
        },
        OpView::TodoAdd { id, title } => {
            lemma_two_fields("id"@, JsonView::Text(id), "title"@, JsonView::Text(title));
            law_op_is_read_from_its_fields("todo.add"@, seq![("id"@, JsonView::Text(id)), ("title"@,
                JsonView::Text(title))], op);
            lemma_list_of_two("todo.add"@, "id"@, JsonView::Text(id), "title"@, JsonView::Text(title));
        },
        OpView::TodoRetitle { id, title } => {
            lemma_two_fields("id"@, JsonView::Text(id), "title"@, JsonView::Text(title));
            law_op_is_read_from_its_fields("todo.retitle"@, seq![("id"@, JsonView::Text(id)), ("title"@,
                JsonView::Text(title))], op);
            lemma_list_of_two("todo.retitle"@, "id"@, JsonView::Text(id), "title"@, JsonView::Text(title));
        },
        OpView::FsWrite { path, content } => {
            lemma_two_fields("path"@, JsonView::Text(path), "content"@, JsonView::Text(content));
            law_op_is_read_from_its_fields("fs.write"@, seq![("path"@, JsonView::Text(path)), ("content"@,
                JsonView::Text(content))], op);
            lemma_list_of_two("fs.write"@, "path"@, JsonView::Text(path), "content"@, JsonView::Text(content));
        },
        OpView::FsMove { from, to } => {
            lemma_two_fields("from"@, JsonView::Text(from), "to"@, JsonView::Text(to));
            law_op_is_read_from_its_fields("fs.move"@, seq![("from"@, JsonView::Text(from)), ("to"@,
                JsonView::Text(to))], op);
            lemma_list_of_two("fs.move"@, "from"@, JsonView::Text(from), "to"@, JsonView::Text(to));
        },
    }
}

proof fn lemma_empty_list(kind: Seq<char>)
    ensures
        op_of_values(kind, Seq::empty()) == op_of_fields(kind, Seq::empty()),
{
    let values = Seq::<JsonView>::empty();
    assert(Seq::new(values.len(), |i: int| (field_names(kind)[i], values[i])) =~= Seq::empty());
}

proof fn lemma_list_of_one(kind: Seq<char>, name: Seq<char>, v: JsonView)
    requires
        field_names(kind).len() >= 1,
        field_names(kind)[0] == name,
    ensures
        op_of_values(kind, seq![v]) == op_of_fields(kind, seq![(name, v)]),
{
    let values = seq![v];
    assert(Seq::new(values.len(), |i: int| (field_names(kind)[i], values[i])) =~= seq![(name, v)]);
}

proof fn lemma_list_of_two(kind: Seq<char>, a: Seq<char>, v: JsonView, b: Seq<char>, w: JsonView)
    requires
        field_names(kind) == seq![a, b],
    ensures
        op_of_values(kind, seq![v, w]) == op_of_fields(kind, seq![(a, v), (b, w)]),
{
    let values = seq![v, w];
    assert(Seq::new(values.len(), |i: int| (field_names(kind)[i], values[i])) =~= seq![(a, v), (b, w)]);
}

// --- what is written -----------------------------------------------------------------

/// A text of printable ASCII characters without quotes and backslashes.
pub open spec fn is_plain(s: Seq<char>) -> bool {
    forall|i: int| 0 <= i < s.len() ==> ' ' <= #[trigger] s[i] <= '~' && s[i] != '"' && s[i] != '\\'
}

proof fn lemma_plain_bytes(s: Seq<char>)
    requires
        forall|i: int| 0 <= i < s.len() ==> ' ' <= #[trigger] s[i] <= '~',
    ensures
        utf8(s).len() == s.len(),
        forall|i: int| 0 <= i < s.len() ==> #[trigger] utf8(s)[i] == s[i] as u8,
{
    assert(vstd::utf8::is_ascii_chars(s));
    vstd::utf8::is_ascii_chars_encode_utf8(s);
}

proof fn lemma_plain_is_not_escaped(s: Seq<char>)
    requires
        is_plain(s),
    ensures
        escaped(s) == utf8(s),
    decreases s.len(),
{
    lemma_plain_bytes(s);
    if s.len() == 0 {
        assert(escaped(s) =~= utf8(s));
    } else {
        let init = s.drop_last();
        assert(is_plain(init)) by {
            assert forall|i: int| 0 <= i < init.len() implies ' ' <= #[trigger] init[i] <= '~' && init[i] != '"'
                && init[i]
                != '\\' by {
                assert(init[i] == s[i]);
            }
        }
        lemma_plain_is_not_escaped(init);
        lemma_plain_bytes(init);
        let c = s.last();
        assert(c == s[s.len() - 1]);
        lemma_plain_bytes(seq![c]);
        assert(escaped(s) =~= utf8(s));
    }
}

/// Plain text stands between quotes as it is.
pub proof fn law_plain_text_is_quoted_as_it_is(s: Seq<char>)
    requires
        is_plain(s),
    ensures
        quoted(s) == utf8(seq!['"'] + s + seq!['"']),
{
    reveal(quoted);
    lemma_plain_is_not_escaped(s);
    lemma_plain_bytes(s);
    lemma_plain_bytes(seq!['"'] + s + seq!['"']);
    assert(quoted(s) =~= utf8(seq!['"'] + s + seq!['"']));
}

/// The name of a member, up to its value.
proof fn lemma_member(name: Seq<char>, value: Seq<u8>)
    requires
        is_plain(name),
    ensures
        member_text(name, value) == utf8(seq!['"'] + name + seq!['"', ':']) + value,
{
    law_plain_text_is_quoted_as_it_is(name);
    lemma_plain_bytes(seq!['"'] + name + seq!['"']);
    lemma_plain_bytes(seq!['"'] + name + seq!['"', ':']);
    assert(quoted(name) + seq![COLON] =~= utf8(seq!['"'] + name + seq!['"', ':']));
    assert(member_text(name, value) =~= utf8(seq!['"'] + name + seq!['"', ':']) + value);
}

/// The beginning of the text of an op.
proof fn lemma_op_begins(kind: Seq<char>, lit: Seq<char>)
    requires
        is_plain(kind),
        lit == "{\"kind\":\""@ + kind + "\""@,
    ensures
        seq![OPEN_OBJECT] + member_text("kind"@, quoted(kind)) == utf8(lit),
        forall|i: int| 0 <= i < lit.len() ==> ' ' <= #[trigger] lit[i] <= '~',
{
    reveal_strlit("kind");
    reveal_strlit("{\"kind\":\"");
    reveal_strlit("\"");
    assert(is_plain("kind"@));
    lemma_member("kind"@, quoted(kind));
    law_plain_text_is_quoted_as_it_is(kind);
    let a = seq!['"'] + "kind"@ + seq!['"', ':'];
    let b = seq!['"'] + kind + seq!['"'];
    lemma_plain_bytes(a);
    lemma_plain_bytes(b);
    assert(lit =~= seq!['{'] + a + b);
    lemma_plain_bytes(lit);
    assert(seq![OPEN_OBJECT] + (utf8(a) + utf8(b)) =~= utf8(lit));
}

/// A field of an op behind its beginning.
proof fn lemma_op_goes_on(start: Seq<char>, name: Seq<char>, value: Seq<u8>, lit: Seq<char>)
    requires
        is_plain(name),
        forall|i: int| 0 <= i < start.len() ==> ' ' <= #[trigger] start[i] <= '~',
        lit == start + ",\""@ + name + "\":"@,
    ensures
        utf8(start) + (seq![COMMA] + member_text(name, value)) == utf8(lit) + value,
{
    reveal_strlit(",\"");
    reveal_strlit("\":");
    lemma_member(name, value);
    let a = seq!['"'] + name + seq!['"', ':'];
    lemma_plain_bytes(start);
    lemma_plain_bytes(a);
    lemma_plain_bytes(lit);
    assert(lit =~= start + seq![','] + a);
    assert(utf8(start) + (seq![COMMA] + utf8(a)) =~= utf8(lit));
    assert(utf8(start) + (seq![COMMA] + (utf8(a) + value)) =~= utf8(lit) + value);
}

proof fn lemma_ends()
    ensures
        utf8("}"@) == seq![CLOSE_OBJECT],
        utf8("true"@) == bool_bytes(true),
        utf8("false"@) == bool_bytes(false),
{
    reveal_strlit("}");
    reveal_strlit("true");
    reveal_strlit("false");
    lemma_plain_bytes("}"@);
    lemma_plain_bytes("true"@);
    lemma_plain_bytes("false"@);
    assert(utf8("}"@) =~= seq![CLOSE_OBJECT]);
    assert(utf8("true"@) =~= bool_bytes(true));
    assert(utf8("false"@) =~= bool_bytes(false));
}

proof fn lemma_no_field(op: OpView, kind: Seq<char>, whole: Seq<char>)
    requires
        is_plain(kind),
        op_kind(op) == kind,
        op_fields(op) == Seq::<(Seq<char>, JsonView)>::empty(),
        whole == "{\"kind\":\""@ + kind + "\"}"@,
    ensures
        op_text(op) == utf8(whole),
{
    let lit = "{\"kind\":\""@ + kind + "\""@;
    lemma_op_begins(kind, lit);
    reveal_strlit("\"");
    reveal_strlit("\"}");
    assert(whole =~= lit + seq!['}']);
    lemma_plain_bytes(lit);
    lemma_plain_bytes(whole);
    assert(op_text(op) =~= utf8(whole));
}

proof fn lemma_one_text(op: OpView, kind: Seq<char>, name: Seq<char>, v: JsonView, first: Seq<char>)
    requires
        is_plain(kind),
        is_plain(name),
        op_kind(op) == kind,
        op_fields(op) == seq![(name, v)],
        first == "{\"kind\":\""@ + kind + "\",\""@ + name + "\":"@,
    ensures
        op_text(op) == utf8(first) + scalar_text(v) + utf8("}"@),
{
    let lit = "{\"kind\":\""@ + kind + "\""@;
    let value = scalar_text(v);
    lemma_op_begins(kind, lit);
    reveal_strlit("\"");
    reveal_strlit(",\"");
    reveal_strlit("\",\"");
    assert(first =~= lit + ",\""@ + name + "\":"@);
    lemma_op_goes_on(lit, name, value, first);
    lemma_ends();
    let fields = seq![(name, v)];
    assert(fields.drop_last() =~= Seq::empty());
    reveal_with_fuel(fields_text, 2);
    assert(fields_text(fields) =~= seq![COMMA] + member_text(name, value));
    assert(op_text(op) =~= utf8(lit) + (seq![COMMA] + member_text(name, value)) + seq![CLOSE_OBJECT]);
}

proof fn lemma_two_texts(
    op: OpView,
    kind: Seq<char>,
    a: Seq<char>,
    v: JsonView,
    b: Seq<char>,
    w: JsonView,
    first: Seq<char>,
    second: Seq<char>,
)
    requires
        is_plain(kind),
        is_plain(a),
        is_plain(b),
        op_kind(op) == kind,
        op_fields(op) == seq![(a, v), (b, w)],
        first == "{\"kind\":\""@ + kind + "\",\""@ + a + "\":"@,
        second == ",\""@ + b + "\":"@,
    ensures
        op_text(op) == utf8(first) + scalar_text(v) + utf8(second) + scalar_text(w)
            + utf8("}"@),
{
    let lit = "{\"kind\":\""@ + kind + "\""@;
    let x = scalar_text(v);
    let y = scalar_text(w);
    lemma_op_begins(kind, lit);
    reveal_strlit("\"");
    reveal_strlit(",\"");
    reveal_strlit("\",\"");
    assert(first =~= lit + ",\""@ + a + "\":"@);
    lemma_op_goes_on(lit, a, x, first);
    assert(second =~= Seq::<char>::empty() + ",\""@ + b + "\":"@);
    lemma_op_goes_on(Seq::empty(), b, y, second);
    lemma_ends();
    lemma_plain_bytes(Seq::empty());
    let fields = seq![(a, v), (b, w)];
    assert(fields.drop_last() =~= seq![(a, v)]);
    assert(fields.drop_last().drop_last() =~= Seq::empty());
    reveal_with_fuel(fields_text, 3);
    let m1 = seq![COMMA] + member_text(a, x);
    let m2 = seq![COMMA] + member_text(b, y);
    assert(fields_text(fields) =~= m1 + m2);
    assert(Seq::<u8>::empty() =~= utf8(Seq::empty()));
    assert(m2 =~= utf8(second) + y);
    assert(op_text(op) =~= utf8(lit) + m1 + m2 + seq![CLOSE_OBJECT]);
    assert(op_text(op) =~= utf8(first) + x + (utf8(second) + y) + utf8("}"@));
    assert(op_text(op) =~= utf8(first) + x + utf8(second) + y + utf8("}"@));
}

/// An op is written as an object of its kind and its fields. A nick that is absent is not
/// written.
pub proof fn law_op_is_written_as_its_kind_and_fields(op: OpView)
    ensures
        match op {
            OpView::Checkpoint => op_text(op) == utf8("{\"kind\":\"meta.checkpoint\"}"@),
            OpView::ChatPost { text, nick: None } => op_text(op) == utf8("{\"kind\":\"chat.post\",\"text\":"@) + quoted(
                text,
            ) + utf8("}"@),
            OpView::ChatPost { text, nick: Some(nick) } => op_text(op) == utf8(
                "{\"kind\":\"chat.post\",\"text\":"@,
            ) + quoted(text) + utf8(",\"nick\":"@) + quoted(nick) + utf8("}"@),
            OpView::TodoSetDone { id, done } => op_text(op) == utf8("{\"kind\":\"todo.set_done\",\"id\":"@) + quoted(
                id,
            ) + utf8(",\"done\":"@) + utf8(
                if done {
                    "true"@
                } else {
                    "false"@
                },
            ) + utf8("}"@),
            OpView::SetTitle { title } => op_text(op) == utf8("{\"kind\":\"meta.set_title\",\"title\":"@)
                + quoted(title) + utf8("}"@),
            OpView::SetApp { app } => op_text(op) == utf8("{\"kind\":\"meta.set_app\",\"app\":"@) + quoted(app)
                + utf8("}"@),
            OpView::BranchCreate { name } => op_text(op) == utf8("{\"kind\":\"branch.create\",\"name\":"@)
                + quoted(name) + utf8("}"@),
            OpView::ChatSetNick { nick } => op_text(op) == utf8("{\"kind\":\"chat.set_nick\",\"nick\":"@)
                + quoted(nick) + utf8("}"@),
            OpView::TodoRemove { id } => op_text(op) == utf8("{\"kind\":\"todo.remove\",\"id\":"@) + quoted(id)
                + utf8("}"@),
            OpView::FsMkdir { path } => op_text(op) == utf8("{\"kind\":\"fs.mkdir\",\"path\":"@) + quoted(path)
                + utf8("}"@),
            OpView::FsRemove { path } => op_text(op) == utf8("{\"kind\":\"fs.remove\",\"path\":"@) + quoted(path)
                + utf8("}"@),
            OpView::TodoAdd { id, title } => op_text(op) == utf8("{\"kind\":\"todo.add\",\"id\":"@) + quoted(id)
                + utf8(",\"title\":"@) + quoted(title) + utf8("}"@),
            OpView::TodoRetitle { id, title } => op_text(op) == utf8("{\"kind\":\"todo.retitle\",\"id\":"@)
                + quoted(id) + utf8(",\"title\":"@) + quoted(title) + utf8("}"@),
            OpView::FsWrite { path, content } => op_text(op) == utf8("{\"kind\":\"fs.write\",\"path\":"@)
                + quoted(path) + utf8(",\"content\":"@) + quoted(content) + utf8("}"@),
            OpView::FsMove { from, to } => op_text(op) == utf8("{\"kind\":\"fs.move\",\"from\":"@) + quoted(from)
                + utf8(",\"to\":"@) + quoted(to) + utf8("}"@),
        },
{
    reveal_strlit("{\"kind\":\"");
    reveal_strlit("\",\"");
    reveal_strlit("\":");
    reveal_strlit(",\"");
    lemma_ends();
    match op {
        OpView::Checkpoint => {
            reveal_strlit("meta.checkpoint");
            reveal_strlit("\"}");
            reveal_strlit("{\"kind\":\"meta.checkpoint\"}");
            assert("{\"kind\":\"meta.checkpoint\"}"@ =~= "{\"kind\":\""@ + "meta.checkpoint"@ + "\"}"@);
            lemma_no_field(op, "meta.checkpoint"@, "{\"kind\":\"meta.checkpoint\"}"@);
        },
        OpView::ChatPost { text, nick: None } => {
            reveal_strlit("chat.post");
            reveal_strlit("text");
            reveal_strlit("{\"kind\":\"chat.post\",\"text\":");
            assert("{\"kind\":\"chat.post\",\"text\":"@ =~= "{\"kind\":\""@ + "chat.post"@ + "\",\""@ + "text"@
                + "\":"@);
            lemma_one_text(op, "chat.post"@, "text"@, JsonView::Text(text), "{\"kind\":\"chat.post\",\"text\":"@);
        },
        OpView::ChatPost { text, nick: Some(nick) } => {
            reveal_strlit("chat.post");
            reveal_strlit("text");
            reveal_strlit("nick");
            reveal_strlit("{\"kind\":\"chat.post\",\"text\":");
            reveal_strlit(",\"nick\":");
            assert("{\"kind\":\"chat.post\",\"text\":"@ =~= "{\"kind\":\""@ + "chat.post"@ + "\",\""@ + "text"@
                + "\":"@);
            assert(",\"nick\":"@ =~= ",\""@ + "nick"@ + "\":"@);
            lemma_two_texts(op, "chat.post"@, "text"@, JsonView::Text(text), "nick"@, JsonView::Text(nick),
                "{\"kind\":\"chat.post\",\"text\":"@, ",\"nick\":"@);
        },
        OpView::TodoSetDone { id, done } => {
            reveal_strlit("todo.set_done");
            reveal_strlit("id");
            reveal_strlit("done");
            reveal_strlit("{\"kind\":\"todo.set_done\",\"id\":");
            reveal_strlit(",\"done\":");
            assert("{\"kind\":\"todo.set_done\",\"id\":"@ =~= "{\"kind\":\""@ + "todo.set_done"@ + "\",\""@ + "id"@
                + "\":"@);
            assert(",\"done\":"@ =~= ",\""@ + "done"@ + "\":"@);
            lemma_two_texts(op, "todo.set_done"@, "id"@, JsonView::Text(id), "done"@, JsonView::Bool(done),
                "{\"kind\":\"todo.set_done\",\"id\":"@, ",\"done\":"@);
        },
        OpView::SetTitle { title } => {
            reveal_strlit("meta.set_title");
            reveal_strlit("title");
            reveal_strlit("{\"kind\":\"meta.set_title\",\"title\":");
            assert("{\"kind\":\"meta.set_title\",\"title\":"@ =~= "{\"kind\":\""@ + "meta.set_title"@ + "\",\""@
                + "title"@ + "\":"@);
            lemma_one_text(op, "meta.set_title"@, "title"@, JsonView::Text(title),
                "{\"kind\":\"meta.set_title\",\"title\":"@);
        },
        OpView::SetApp { app } => {
            reveal_strlit("meta.set_app");
            reveal_strlit("app");
            reveal_strlit("{\"kind\":\"meta.set_app\",\"app\":");
            assert("{\"kind\":\"meta.set_app\",\"app\":"@ =~= "{\"kind\":\""@ + "meta.set_app"@ + "\",\""@ + "app"@
                + "\":"@);
            lemma_one_text(op, "meta.set_app"@, "app"@, JsonView::Text(app), "{\"kind\":\"meta.set_app\",\"app\":"@);
        },
        OpView::BranchCreate { name } => {
            reveal_strlit("branch.create");
            reveal_strlit("name");
            reveal_strlit("{\"kind\":\"branch.create\",\"name\":");
            assert("{\"kind\":\"branch.create\",\"name\":"@ =~= "{\"kind\":\""@ + "branch.create"@ + "\",\""@
                + "name"@ + "\":"@);
            lemma_one_text(op, "branch.create"@, "name"@, JsonView::Text(name),
                "{\"kind\":\"branch.create\",\"name\":"@);
        },
        OpView::ChatSetNick { nick } => {
            reveal_strlit("chat.set_nick");
            reveal_strlit("nick");
            reveal_strlit("{\"kind\":\"chat.set_nick\",\"nick\":");
            assert("{\"kind\":\"chat.set_nick\",\"nick\":"@ =~= "{\"kind\":\""@ + "chat.set_nick"@ + "\",\""@
                + "nick"@ + "\":"@);
            lemma_one_text(op, "chat.set_nick"@, "nick"@, JsonView::Text(nick),
                "{\"kind\":\"chat.set_nick\",\"nick\":"@);
        },
        OpView::TodoRemove { id } => {
            reveal_strlit("todo.remove");
            reveal_strlit("id");
            reveal_strlit("{\"kind\":\"todo.remove\",\"id\":");
            assert("{\"kind\":\"todo.remove\",\"id\":"@ =~= "{\"kind\":\""@ + "todo.remove"@ + "\",\""@ + "id"@
                + "\":"@);
            lemma_one_text(op, "todo.remove"@, "id"@, JsonView::Text(id), "{\"kind\":\"todo.remove\",\"id\":"@);
        },
        OpView::FsMkdir { path } => {
            reveal_strlit("fs.mkdir");
            reveal_strlit("path");
            reveal_strlit("{\"kind\":\"fs.mkdir\",\"path\":");
            assert("{\"kind\":\"fs.mkdir\",\"path\":"@ =~= "{\"kind\":\""@ + "fs.mkdir"@ + "\",\""@ + "path"@ + "\":"@);
            lemma_one_text(op, "fs.mkdir"@, "path"@, JsonView::Text(path), "{\"kind\":\"fs.mkdir\",\"path\":"@);
        },
        OpView::FsRemove { path } => {
            reveal_strlit("fs.remove");
            reveal_strlit("path");
            reveal_strlit("{\"kind\":\"fs.remove\",\"path\":");
            assert("{\"kind\":\"fs.remove\",\"path\":"@ =~= "{\"kind\":\""@ + "fs.remove"@ + "\",\""@ + "path"@
                + "\":"@);
            lemma_one_text(op, "fs.remove"@, "path"@, JsonView::Text(path), "{\"kind\":\"fs.remove\",\"path\":"@);
        },
        OpView::TodoAdd { id, title } => {
            reveal_strlit("todo.add");
            reveal_strlit("id");
            reveal_strlit("title");
            reveal_strlit("{\"kind\":\"todo.add\",\"id\":");
            reveal_strlit(",\"title\":");
            assert("{\"kind\":\"todo.add\",\"id\":"@ =~= "{\"kind\":\""@ + "todo.add"@ + "\",\""@ + "id"@ + "\":"@);
            assert(",\"title\":"@ =~= ",\""@ + "title"@ + "\":"@);
            lemma_two_texts(op, "todo.add"@, "id"@, JsonView::Text(id), "title"@, JsonView::Text(title),
                "{\"kind\":\"todo.add\",\"id\":"@, ",\"title\":"@);
        },
        OpView::TodoRetitle { id, title } => {
            reveal_strlit("todo.retitle");
            reveal_strlit("id");
            reveal_strlit("title");
            reveal_strlit("{\"kind\":\"todo.retitle\",\"id\":");
            reveal_strlit(",\"title\":");
            assert("{\"kind\":\"todo.retitle\",\"id\":"@ =~= "{\"kind\":\""@ + "todo.retitle"@ + "\",\""@ + "id"@
                + "\":"@);
            assert(",\"title\":"@ =~= ",\""@ + "title"@ + "\":"@);
            lemma_two_texts(op, "todo.retitle"@, "id"@, JsonView::Text(id), "title"@, JsonView::Text(title),
                "{\"kind\":\"todo.retitle\",\"id\":"@, ",\"title\":"@);
        },
        OpView::FsWrite { path, content } => {
            reveal_strlit("fs.write");
            reveal_strlit("path");
            reveal_strlit("content");
            reveal_strlit("{\"kind\":\"fs.write\",\"path\":");
            reveal_strlit(",\"content\":");
            assert("{\"kind\":\"fs.write\",\"path\":"@ =~= "{\"kind\":\""@ + "fs.write"@ + "\",\""@ + "path"@ + "\":"@);
            assert(",\"content\":"@ =~= ",\""@ + "content"@ + "\":"@);
            lemma_two_texts(op, "fs.write"@, "path"@, JsonView::Text(path), "content"@, JsonView::Text(content),
                "{\"kind\":\"fs.write\",\"path\":"@, ",\"content\":"@);
        },
        OpView::FsMove { from, to } => {
            reveal_strlit("fs.move");
            reveal_strlit("from");
            reveal_strlit("to");
            reveal_strlit("{\"kind\":\"fs.move\",\"from\":");
            reveal_strlit(",\"to\":");
            assert("{\"kind\":\"fs.move\",\"from\":"@ =~= "{\"kind\":\""@ + "fs.move"@ + "\",\""@ + "from"@ + "\":"@);
            assert(",\"to\":"@ =~= ",\""@ + "to"@ + "\":"@);
            lemma_two_texts(op, "fs.move"@, "from"@, JsonView::Text(from), "to"@, JsonView::Text(to),
                "{\"kind\":\"fs.move\",\"from\":"@, ",\"to\":"@);
        },
    }
}

/// An envelope is written as an object of its version, its branch and its op.
pub proof fn law_envelope_is_written_with_its_branch(env: EnvelopeView)
    ensures
        envelope_text(env) == utf8("{\"v\":"@) + utf8(decimal(env.v as nat)) + utf8(",\"branch\":"@)
            + quoted(env.branch)
            + utf8(",\"op\":"@) + op_text(env.op) + utf8("}"@),
{
    reveal_strlit("v");
    reveal_strlit("branch");
    reveal_strlit("op");
    reveal_strlit("{\"v\":");
    reveal_strlit(",\"branch\":");
    reveal_strlit(",\"op\":");
    reveal_strlit(",\"");
    reveal_strlit("\":");
    let n = utf8(decimal(env.v as nat));
    let q = quoted(env.branch);
    let t = op_text(env.op);
    lemma_member("v"@, n);
    let a = seq!['"'] + "v"@ + seq!['"', ':'];
    lemma_plain_bytes(a);
    assert("{\"v\":"@ =~= seq!['{'] + a);
    lemma_plain_bytes("{\"v\":"@);
    assert(seq![OPEN_OBJECT] + member_text("v"@, n) =~= utf8("{\"v\":"@) + n);
    lemma_plain_bytes(Seq::empty());
    assert(utf8(Seq::empty()) =~= Seq::<u8>::empty());
    assert(",\"branch\":"@ =~= Seq::<char>::empty() + ",\""@ + "branch"@ + "\":"@);
    lemma_op_goes_on(Seq::empty(), "branch"@, q, ",\"branch\":"@);
    assert(seq![COMMA] + member_text("branch"@, q) =~= utf8(",\"branch\":"@) + q);
    assert(",\"op\":"@ =~= Seq::<char>::empty() + ",\""@ + "op"@ + "\":"@);
    lemma_op_goes_on(Seq::empty(), "op"@, t, ",\"op\":"@);
    assert(seq![COMMA] + member_text("op"@, t) =~= utf8(",\"op\":"@) + t);
    lemma_ends();
    let m1 = seq![OPEN_OBJECT] + member_text("v"@, n);
    let m2 = seq![COMMA] + member_text("branch"@, q);
    let m3 = seq![COMMA] + member_text("op"@, t);
    assert(envelope_text(env) =~= m1 + m2 + m3 + seq![CLOSE_OBJECT]);
    assert(envelope_text(env) =~= (utf8("{\"v\":"@) + n) + (utf8(",\"branch\":"@) + q) + (utf8(",\"op\":"@) + t) + utf8(
        "}"@,
    ));
}

// --- what is read --------------------------------------------------------------------

/// Spaces, tabs and line ends are passed over, and nothing else.
pub proof fn law_blanks_are_passed_over(b: Seq<u8>, i: int)
    requires
        0 <= i <= b.len(),
    ensures
        i <= after_blanks(b, i) <= b.len(),
        forall|j: int|
            i <= j < after_blanks(b, i) ==> (#[trigger] b[j] == 0x20 || b[j] == 0x09 || b[j] == 0x0a || b[j] == 0x0d),
        after_blanks(b, i) < b.len() ==> ({
            let c = b[after_blanks(b, i)];
            c != 0x20 && c != 0x09 && c != 0x0a && c != 0x0d
        }),
    decreases b.len() - i,
{
    if i < b.len() && is_blank(b[i]) {
        law_blanks_are_passed_over(b, i + 1);
    }
}

/// An object goes on with a quoted key and a colon, behind a comma unless it is the first
/// member, or ends with a brace; anything else is malformed.
pub proof fn law_object_goes_on_or_ends(b: Seq<u8>, pos: int, first: bool)
    requires
        0 <= pos <= b.len(),
    ensures
        ({
            let p = after_blanks(b, pos);
            let k = if first {
                p
            } else {
                after_blanks(b, p + 1)
            };
            &&& next_member(b, pos, first) == MemberView::End(p + 1) <==> p < b.len() && b[p] == 0x7d
            &&& p < b.len() && b[p] != 0x7d && (first || b[p] == 0x2c) && k < b.len() && b[k] == 0x22 ==> (string_at(
                b.skip(k),
            ) matches Some((key, n)) ==> ({
                let c = after_blanks(b, k + n);
                if c < b.len() && b[c] == 0x3a {
                    next_member(b, pos, first) == MemberView::Key(key, c + 1)
                } else {
                    next_member(b, pos, first) is Malformed
                }
            }))
            &&& p == b.len() || (b[p] != 0x7d && !first && b[p] != 0x2c) ==> next_member(b, pos, first) is Malformed
            &&& p < b.len() && b[p] != 0x7d && (k >= b.len() || b[k] != 0x22) ==> next_member(
                b,
                pos,
                first,
            ) is Malformed
        }),
{
    law_blanks_are_passed_over(b, pos);
}

/// An array goes on with an element, behind a comma unless it is the first one, or ends
/// with a bracket; a comma before the bracket is malformed.
pub proof fn law_list_goes_on_or_ends(b: Seq<u8>, pos: int, first: bool)
    requires
        0 <= pos <= b.len(),
    ensures
        ({
            let p = after_blanks(b, pos);
            let q = after_blanks(b, p + 1);
            &&& next_element(b, pos, first) == ElementView::End(p + 1) <==> p < b.len() && b[p] == 0x5d
            &&& first && p < b.len() && b[p] != 0x5d ==> next_element(b, pos, first) == ElementView::At(p)
            &&& !first && p < b.len() && b[p] == 0x2c && q < b.len() && b[q] != 0x5d ==> next_element(b, pos, first)
                == ElementView::At(q)
            &&& !first && p < b.len() && b[p] == 0x2c && (q >= b.len() || b[q] == 0x5d) ==> next_element(
                b,
                pos,
                first,
            ) is Malformed
            &&& p == b.len() || (!first && b[p] != 0x5d && b[p] != 0x2c) ==> next_element(b, pos, first) is Malformed
        }),
{
    law_blanks_are_passed_over(b, pos);
}

/// Of a member of an envelope: its version, branch and op are taken in, once each; every
/// other member is passed over.
pub proof fn law_members_of_an_envelope_are_taken_in_once(b: Seq<u8>, key: Seq<char>, at: int, parts: PartsView)
    ensures
        key == "v"@ ==> match (parts.v, u32_at(b.skip(at))) {
            (None, Some((v, n))) => envelope_member(b, key, at, parts) == Some(
                (PartsView { v: Some(v), branch: parts.branch, op: parts.op }, at + n),
            ),
            _ => envelope_member(b, key, at, parts) is None,
        },
        key == "branch"@ ==> match (parts.branch, string_at(b.skip(at))) {
            (None, Some((s, n))) => envelope_member(b, key, at, parts) == Some(
                (PartsView { v: parts.v, branch: Some(s), op: parts.op }, at + n),
            ),
            _ => envelope_member(b, key, at, parts) is None,
        },
        key == "op"@ ==> match (parts.op, op_at(b, at, 2)) {
            (None, Some((op, e))) => envelope_member(b, key, at, parts) == Some(
                (PartsView { v: parts.v, branch: parts.branch, op: Some(op) }, e),
            ),
            _ => envelope_member(b, key, at, parts) is None,
        },
        key != "v"@ && key != "branch"@ && key != "op"@ ==> match ignored_at(b.skip(at)) {
            Some(n) => envelope_member(b, key, at, parts) == Some((parts, at + n)),
            None => envelope_member(b, key, at, parts) is None,
        },
{
    reveal_strlit("v");
    reveal_strlit("branch");
    reveal_strlit("op");
    assert("v"@.len() == 1 && "branch"@.len() == 6 && "op"@.len() == 2);
}

/// Of a member of an op: its kind is taken in once, and every other member is one of its
/// fields.
pub proof fn law_members_of_an_op_are_taken_in(
    b: Seq<u8>,
    pos: int,
    first: bool,
    depth: nat,
    kind: Option<Seq<char>>,
    fields: Seq<(Seq<char>, JsonView)>,
    key: Seq<char>,
    at: int,
)
    requires
        next_member(b, pos, first) == MemberView::Key(key, at),
    ensures
        key == "kind"@ && kind is Some ==> op_members(b, pos, first, depth, kind, fields) is None,
        key == "kind"@ && kind is None ==> (string_at(b.skip(at)) matches Some((k, n)) ==> (pos < at + n <= b.len()
            ==> op_members(b, pos, first, depth, kind, fields) == op_members(b, at
                + n, false, depth, Some(k), fields))),
        key != "kind"@ ==> (value_within(b, at, depth) matches Some((v, next)) ==> (pos < next <= b.len()
            ==> op_members(
            b,
            pos,
            first,
            depth,
            kind,
            fields,
        ) == op_members(b, next, false, depth, kind, fields.push((key, v))))),
{
}

/// An envelope is understood exactly where it has an op and a version that is not from the
/// future; without a branch it is for `main`.
pub proof fn law_envelope_is_understood(parts: PartsView)
    ensures
        assembled(parts) is Some <==> (parts.op is Some && (parts.v == Some(0u32) || parts.v == Some(1u32))),
        assembled(parts) matches Some(env) ==> {
            &&& parts.v == Some(env.v)
            &&& parts.op == Some(env.op)
            &&& parts.branch matches Some(branch) ==> env.branch == branch
            &&& parts.branch is None ==> env.branch == "main"@
        },
{
}

/// A payload that is an object holds an envelope only where nothing but blanks follows it.
pub proof fn law_nothing_follows_an_envelope(b: Seq<u8>, parts: PartsView, e: int)
    requires
        after_blanks(b, 0) < b.len(),
        b[after_blanks(b, 0)] == 0x7b,
        envelope_members(b, after_blanks(b, 0)
            + 1, true, PartsView { v: None, branch: None, op: None }) == Some((parts, e)),
        0 <= e <= b.len(),
    ensures
        envelope_parts(b) == Some(parts) <==> forall|j: int|
            e <= j < b.len() ==> (#[trigger] b[j] == 0x20 || b[j] == 0x09 || b[j] == 0x0a || b[j] == 0x0d),
        envelope_parts(b) is Some ==> decoded(b) == assembled(parts),
{
    law_blanks_are_passed_over(b, e);
}

/// A payload that begins with neither a brace nor a bracket holds no envelope.
pub proof fn law_other_payloads_hold_nothing(b: Seq<u8>)
    requires
        after_blanks(b, 0) < b.len() ==> b[after_blanks(b, 0)] != 0x7b && b[after_blanks(b, 0)] != 0x5b,
    ensures
        decoded(b) is None,
{
}

/// A text holds an op only where nothing but blanks follows it.
pub proof fn law_nothing_follows_an_op(b: Seq<u8>, op: OpView, e: int)
    requires
        op_at(b, 0, 1) == Some((op, e)),
        0 <= e <= b.len(),
    ensures
        decoded_op(b) == Some(op) <==> forall|j: int|
            e <= j < b.len() ==> (#[trigger] b[j] == 0x20 || b[j] == 0x09 || b[j] == 0x0a || b[j] == 0x0d),
        decoded_op(b) is Some ==> decoded_op(b) == Some(op),
{
    law_blanks_are_passed_over(b, e);
}

/// An op is an object with a kind, or an array that begins with one; it is what its kind
/// and its fields, or its values, make, and ends where they end. Nothing else is an op.
pub proof fn law_op_is_an_object_or_a_list(b: Seq<u8>, at: int, depth: nat)
    requires
        0 <= at <= b.len(),
    ensures
        ({
            let p = after_blanks(b, at);
            &&& p < b.len() && b[p] == 0x7b ==> match op_members(b, p + 1, true, depth, None, Seq::empty()) {
                Some((Some(kind), fields, e)) => match op_of_fields(kind, fields) {
                    Some(op) => op_at(b, at, depth) == Some((op, e)),
                    None => op_at(b, at, depth) is None,
                },
                _ => op_at(b, at, depth) is None,
            }
            &&& p < b.len() && b[p] == 0x5b ==> (next_element(b, p + 1, true) matches ElementView::At(q) ==> (string_at(
                b.skip(q),
            ) matches Some((kind, n)) ==> match op_values(b, q + n, depth, Seq::empty()) {
                Some((values, e)) => match op_of_values(kind, values) {
                    Some(op) => op_at(b, at, depth) == Some((op, e)),
                    None => op_at(b, at, depth) is None,
                },
                None => op_at(b, at, depth) is None,
            }))
            &&& p == b.len() || (b[p] != 0x7b && b[p] != 0x5b) ==> op_at(b, at, depth) is None
        }),
{
    law_blanks_are_passed_over(b, at);
}

/// The values of an op that is an array are taken in, one behind the other.
pub proof fn law_values_of_an_op_are_taken_in(b: Seq<u8>, pos: int, depth: nat, values: Seq<JsonView>)
    ensures
        next_element(b, pos, false) matches ElementView::End(e) ==> op_values(b, pos, depth, values) == Some(
            (values, e),
        ),
        next_element(b, pos, false) matches ElementView::At(p) ==> (value_within(b, p, depth) matches Some((v, next))
            ==> (pos < next <= b.len() ==> op_values(b, pos, depth, values) == op_values(
            b,
            next,
            depth,
            values.push(v),
        ))),
        next_element(b, pos, false) is Malformed ==> op_values(b, pos, depth, values) is None,
{
}

/// An envelope is read from an array of its version, its branch and its op, in this order,
/// too; more or fewer values are refused.
pub proof fn law_envelope_is_read_from_a_list(b: Seq<u8>, pos: int, v: u32, n: nat, p: int, q: int)
    requires
        next_element(b, pos, true) == ElementView::At(p),
        u32_at(b.skip(p)) == Some((v, n)),
        next_element(b, p + n, false) == ElementView::At(q),
    ensures
        string_at(b.skip(q)) is None ==> envelope_elements(b, pos) is None,
        string_at(b.skip(q)) matches Some((branch, m)) ==> match next_element(b, q + m, false) {
            ElementView::At(r) => op_at(b, r, 2) matches Some((op, e)) ==> match next_element(b, e, false) {
                ElementView::End(z) => envelope_elements(b, pos) == Some(
                    (PartsView { v: Some(v), branch: Some(branch), op: Some(op) }, z),
                ),
                _ => envelope_elements(b, pos) is None,
            },
            _ => envelope_elements(b, pos) is None,
        },
{
}

/// A text, a number, a truth value or null is read wherever it stands; a list or an object
/// only where it does not lie too deep.
pub proof fn law_values_are_read_where_they_stand(b: Seq<u8>, at: int, depth: nat, v: JsonView, n: nat)
    requires
        value_at(b.skip(at)) == Some((v, n)),
    ensures
        !(v is Nested) ==> value_within(b, at, depth) == Some((v, at + n)),
        v is Nested && value_at(wrapped(b.subrange(at, at + n), depth)) is Some ==> value_within(b, at, depth) == Some(
            (v, at + n),
        ),
        v is Nested && value_at(wrapped(b.subrange(at, at + n), depth)) is None ==> value_within(b, at, depth) is None,
{
}

/// A value lies inside as many lists as its depth says.
pub proof fn law_depth_counts_the_lists_around(span: Seq<u8>, depth: nat)
    ensures
        wrapped(span, 0) == span,
        wrapped(span, depth + 1) == seq![0x5bu8] + wrapped(span, depth) + seq![0x5du8],
{
    assert(wrapped(span, 0) =~= span);
    assert(wrapped(span, depth + 1) =~= seq![0x5bu8] + wrapped(span, depth) + seq![0x5du8]);
}

} // verus!
