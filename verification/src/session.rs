//! The session of one websocket client: what its frames ask for.

use vstd::prelude::*;

use crate::bus::opt_key;
use crate::envelope::{decoded, encode_envelope, envelope_text};
use crate::http::{is_allowed, may_append};
use crate::keys::{key_of_text, parse_key, same_key, PeerId, RoomId};
use crate::fold::is_branch_name;
use crate::op::{decode_op, decoded_op, EnvelopeView, OpEnvelope, OpView, ENVELOPE_VERSION, MAIN_BRANCH};
use crate::signal::signal_text;
use crate::text::{copy_opt_text, decimal, opt_text, same_text, utf8};

verus! {

/// A member of a JSON object, as far as frames tell values apart.
#[derive(Clone, Debug, PartialEq, Eq)]
pub struct Field {
    pub name: String,
    /// Its value, where that is a string.
    pub text: Option<String>,
    /// Its value, where that is a number that a `u64` can hold.
    pub number: Option<u64>,
    /// Its value as JSON text.
    pub json: String,
}

/// What a [`Field`] stands for.
pub struct FieldView {
    pub name: Seq<char>,
    pub text: Option<Seq<char>>,
    pub number: Option<u64>,
    pub json: Seq<char>,
}

impl View for Field {
    type V = FieldView;

    open spec fn view(&self) -> FieldView {
        FieldView { name: self.name@, text: opt_text(self.text), number: self.number, json: self.json@ }
    }
}

/// The members of an object.
pub open spec fn fields_view(fields: Seq<Field>) -> Seq<FieldView> {
    fields.map_values(|f: Field| f@)
}

/// The members of the JSON object that `serde_json` reads a text as; nothing
/// where it reads none.
pub uninterp spec fn object_in(raw: Seq<char>) -> Option<Seq<FieldView>>;

/// `serde_json::from_str` into a `serde_json::Value`, and the members of the
/// `Value::Object` that comes of it. What they are depends on the text alone.
#[verifier::external_body]
fn read_object(raw: &str) -> (r: Option<Vec<Field>>)
    ensures
        match r {
            Some(fields) => object_in(raw@) == Some(fields_view(fields@)),
            None => object_in(raw@) is None,
        },
{
    let field = |(name, v): (String, serde_json::Value)| Field {
        name,
        text: v.as_str().map(str::to_owned),
        number: v.as_u64(),
        json: v.to_string(),
    };
    match serde_json::from_str(raw) {
        Ok(serde_json::Value::Object(members)) => Some(members.into_iter().map(field).collect()),
        _ => None,
    }
}

/// The member of a name; one that is not there is `null`.
pub open spec fn member(fields: Seq<FieldView>, name: Seq<char>) -> FieldView
    decreases fields.len(),
{
    if fields.len() == 0 {
        FieldView { name, text: None, number: None, json: "null"@ }
    } else if fields[0].name == name {
        fields[0]
    } else {
        member(fields.drop_first(), name)
    }
}

fn find_member(fields: &Vec<Field>, name: &str) -> (r: Field)
    ensures
        r@ == member(fields_view(fields@), name@),
{
    let ghost all = fields_view(fields@);
    let mut i: usize = 0;
    assert(all.skip(0) =~= all);
    while i < fields.len()
        invariant
            i <= fields@.len(),
            all == fields_view(fields@),
            member(all, name@) == member(all.skip(i as int), name@),
        decreases fields@.len() - i,
    {
        let f = &fields[i];
        assert(all.skip(i as int)[0] == f@);
        assert(all.skip(i as int).drop_first() =~= all.skip(i + 1));
        if same_text(f.name.as_str(), name) {
            return Field {
                name: f.name.clone(),
                text: copy_opt_text(&f.text),
                number: f.number,
                json: f.json.clone(),
            };
        }
        i = i + 1;
    }
    Field { name: name.to_owned(), text: None, number: None, json: "null".to_owned() }
}

/// What a frame asks for.
#[derive(Debug, PartialEq, Eq)]
pub enum ClientAction {
    /// Nothing.
    Ignore,
    /// A text frame for the client `to` of the same room.
    Relay { to: u64, frame: String },
    /// From now on, frames for this writer go to this client.
    Bind(PeerId),
    /// A payload for the log of the room.
    Append(Vec<u8>),
}

/// What a [`ClientAction`] stands for.
pub enum ActionView {
    Ignore,
    Relay { to: u64, frame: Seq<char> },
    Bind(Seq<u8>),
    Append(Seq<u8>),
}

impl View for ClientAction {
    type V = ActionView;

    open spec fn view(&self) -> ActionView {
        match *self {
            ClientAction::Ignore => ActionView::Ignore,
            ClientAction::Relay { to, frame } => ActionView::Relay { to, frame: frame@ },
            ClientAction::Bind(key) => ActionView::Bind(key@),
            ClientAction::Append(payload) => ActionView::Append(payload@),
        }
    }
}

/// What a frame with these members asks for. A frame that is not understood asks
/// for nothing.
pub open spec fn asked(client_id: u64, fields: Seq<FieldView>) -> ActionView {
    let kind = member(fields, "t"@).text;
    if kind == Some("signal"@) {
        match member(fields, "to"@).number {
            Some(to) => ActionView::Relay {
                to,
                frame: "{\"data\":"@ + member(fields, "data"@).json + ",\"from\":"@ + decimal(client_id as nat)
                    + ",\"t\":\"signal\"}"@,
            },
            None => ActionView::Ignore,
        }
    } else if kind == Some("writer"@) {
        match member(fields, "key"@).text {
            Some(text) => match key_of_text(utf8(text)) {
                Some(key) => ActionView::Bind(key),
                None => ActionView::Ignore,
            },
            None => ActionView::Ignore,
        }
    } else if kind == Some("append"@) {
        let branch = match member(fields, "branch"@).text {
            Some(b) => b,
            None => MAIN_BRANCH@,
        };
        match decoded_op(utf8(member(fields, "op"@).json)) {
            Some(op) => if may_append(op) {
                ActionView::Append(envelope_text(EnvelopeView { v: ENVELOPE_VERSION, branch, op }))
            } else {
                ActionView::Ignore
            },
            None => ActionView::Ignore,
        }
    } else {
        ActionView::Ignore
    }
}

proof fn lemma_frame_kinds()
    ensures
        "signal"@ != "writer"@,
        "signal"@ != "append"@,
        "writer"@ != "append"@,
{
    reveal_strlit("signal");
    reveal_strlit("writer");
    reveal_strlit("append");
    assert("signal"@[0] == 's' && "writer"@[0] == 'w' && "append"@[0] == 'a');
}

/// What a frame with these members asks for.
pub fn ask(client_id: u64, fields: &Vec<Field>) -> (r: ClientAction)
    ensures
        r@ == asked(client_id, fields_view(fields@)),
        r matches ClientAction::Append(payload) ==> match decoded(payload@) {
            Some(env) => payload@ == envelope_text(env),
            None => false,
        },
        member(fields_view(fields@), "t"@).text == Some("append"@) ==> (decoded_op(
            utf8(member(fields_view(fields@), "op"@).json),
        ) matches Some(op) ==> ((op matches OpView::BranchCreate { name } ==> is_branch_name(name)) ==> match r {
            ClientAction::Append(payload) => decoded(payload@) == Some(
                EnvelopeView {
                    v: ENVELOPE_VERSION,
                    branch: match member(fields_view(fields@), "branch"@).text {
                        Some(b) => b,
                        None => MAIN_BRANCH@,
                    },
                    op,
                },
            ),
            _ => false,
        })),
{
    proof {
        lemma_frame_kinds();
    }
    let kind = match find_member(fields, "t").text {
        Some(kind) => kind,
        None => {
            return ClientAction::Ignore;
        },
    };
    if same_text(kind.as_str(), "signal") {
        match find_member(fields, "to").number {
            Some(to) => {
                let data = find_member(fields, "data").json;
                ClientAction::Relay { to, frame: signal_text(client_id, data.as_str()) }
            },
            None => ClientAction::Ignore,
        }
    } else if same_text(kind.as_str(), "writer") {
        match find_member(fields, "key").text {
            Some(text) => match parse_key(text.as_str()) {
                Ok(key) => ClientAction::Bind(key),
                Err(_) => ClientAction::Ignore,
            },
            None => ClientAction::Ignore,
        }
    } else if same_text(kind.as_str(), "append") {
        let branch = match find_member(fields, "branch").text {
            Some(b) => b,
            None => MAIN_BRANCH.to_owned(),
        };
        let text = find_member(fields, "op").json;
        match decode_op(text.as_str().as_bytes()) {
            Some(op) => {
                if is_allowed(&op) {
                    ClientAction::Append(encode_envelope(&OpEnvelope::new(branch.as_str(), op)))
                } else {
                    ClientAction::Ignore
                }
            },
            None => ClientAction::Ignore,
        }
    } else {
        ClientAction::Ignore
    }
}

/// The session of a websocket client of a room.
pub struct ClientSession {
    room: RoomId,
    client_id: u64,
    /// The writer key that the client has named.
    writer: Option<PeerId>,
}

/// What a [`ClientSession`] stands for.
pub struct SessionView {
    pub room: Seq<u8>,
    pub client_id: u64,
    pub writer: Option<Seq<u8>>,
}

impl View for ClientSession {
    type V = SessionView;

    closed spec fn view(&self) -> SessionView {
        SessionView { room: self.room@, client_id: self.client_id, writer: opt_key(self.writer) }
    }
}

/// What a text frame asks for.
pub open spec fn asked_in(client_id: u64, raw: Seq<char>) -> ActionView {
    match object_in(raw) {
        Some(fields) => asked(client_id, fields),
        None => ActionView::Ignore,
    }
}

/// A session after an action.
pub open spec fn session_after(session: SessionView, action: ActionView) -> SessionView {
    match action {
        ActionView::Bind(key) => SessionView { writer: Some(key), ..session },
        _ => session,
    }
}

impl ClientSession {
    /// The session of a client that has just joined.
    pub fn new(room: RoomId, client_id: u64) -> (r: Self)
        ensures
            r@ == (SessionView { room: room@, client_id, writer: None }),
    {
        ClientSession { room, client_id, writer: None }
    }

    /// What a text frame asks for. A writer key that it names is kept.
    pub fn on_text(&mut self, raw: &str) -> (r: ClientAction)
        ensures
            r@ == asked_in(old(self)@.client_id, raw@),
            final(self)@ == (SessionView {
                writer: match asked_in(old(self)@.client_id, raw@) {
                    ActionView::Bind(key) => Some(key),
                    _ => old(self)@.writer,
                },
                ..old(self)@
            }),
            final(self)@ == session_after(old(self)@, asked_in(old(self)@.client_id, raw@)),
    {
        let action = match read_object(raw) {
            Some(fields) => ask(self.client_id, &fields),
            None => ClientAction::Ignore,
        };
        self.settle(&action);
        action
    }

    /// Keeps the writer key that an action names.
    pub fn settle(&mut self, action: &ClientAction)
        ensures
            final(self)@ == (SessionView {
                writer: match action@ {
                    ActionView::Bind(key) => Some(key),
                    _ => old(self)@.writer,
                },
                ..old(self)@
            }),
            final(self)@ == session_after(old(self)@, action@),
    {
        if let ClientAction::Bind(key) = action {
            self.writer = Some(*key);
        }
    }

    /// The writer whose sync message a binary frame is; nothing before the client
    /// has named one, and the frame is ignored then.
    pub fn writer(&self) -> (r: Option<PeerId>)
        ensures
            opt_key(r) == self@.writer,
    {
        self.writer
    }

    /// Whether a state event of `room` is for this client.
    pub fn follows(&self, room: &RoomId) -> (r: bool)
        ensures
            r == (room@ == self@.room),
    {
        same_key(room, &self.room)
    }
}

} // verus!
