//! The HTTP API: what a request asks for, and what it is answered. Reading the
//! request and sending the answer are the caller's.

use vstd::prelude::*;

use crate::engine::Snapshot;
use crate::envelope::{decoded, encode_envelope, envelope_text};
use crate::fold::{is_branch_name, valid_branch_name};
use crate::keys::{key_of_text, key_text, parse_key, says_why, HexError, KeyError, NodeKey, RoomId};
use crate::materialise::MatRoomStatus;
use crate::op::{default_branch, EnvelopeView, OpEnvelope, OpView, RoomOp, ENVELOPE_VERSION, MAIN_BRANCH};
use crate::state::{BranchState, RoomView};
use crate::text::{copy_opt_text, decimal, decimal_text, opt_text, same_text, utf8};
use crate::text_map::{lists_keys, texts, Plain, TextMap};

verus! {

/// What a node tells of itself.
#[derive(Clone, Debug)]
pub struct NodeMeta {
    pub name: String,
    pub roomnet_id: String,
    pub gossip_id: String,
    pub http_url: Option<String>,
    pub tdb_url: String,
    pub tdb_user: String,
    pub tdb_pass: String,
    pub tdb_org: String,
}

// --- errors --------------------------------------------------------------------------

/// An answer that is an error.
#[derive(Clone, Debug, PartialEq, Eq)]
pub struct ApiError {
    pub status: u16,
    pub message: String,
}

/// What an [`ApiError`] stands for.
pub struct ErrorView {
    pub status: u16,
    pub message: Seq<char>,
}

impl View for ApiError {
    type V = ErrorView;

    open spec fn view(&self) -> ErrorView {
        ErrorView { status: self.status, message: self.message@ }
    }
}

/// The error for what is not here.
pub open spec fn not_here() -> ErrorView {
    ErrorView { status: 404, message: "room not found on this node"@ }
}

impl ApiError {
    /// The request is wrong.
    pub fn bad_request(message: String) -> (r: Self)
        ensures
            r@ == (ErrorView { status: 400, message: message@ }),
    {
        ApiError { status: 400, message }
    }

    /// The room, or the branch, is not here.
    pub fn not_found() -> (r: Self)
        ensures
            r@ == not_here(),
    {
        ApiError { status: 404, message: "room not found on this node".to_owned() }
    }

    /// The node could not do it.
    pub fn internal(msg: &str) -> (r: Self)
        ensures
            r@ == (ErrorView { status: 500, message: msg@ }),
    {
        ApiError { status: 500, message: msg.to_owned() }
    }
}

/// A character as `char`'s `Debug` form shows it, quotes among it.
pub uninterp spec fn shown_char(c: char) -> Seq<char>;

/// The `Debug` form of a `char` depends on the character alone.
#[verifier::external_body]
fn show_char(c: char) -> (r: String)
    ensures
        r@ == shown_char(c),
{
    format!("{:?}", c)
}

/// What is said of a text that is not hex.
pub open spec fn hex_message(e: HexError) -> Seq<char> {
    match e {
        HexError::InvalidHexCharacter { c, index } => "Invalid character "@ + shown_char(c) + " at position "@
            + decimal(index as nat),
        HexError::OddLength => "Odd number of digits"@,
        HexError::InvalidStringLength => "Invalid string length"@,
    }
}

/// What is said of a text that is no key.
pub open spec fn key_message(e: KeyError) -> Seq<char> {
    match e {
        KeyError::NotHex(h) => "invalid hex: "@ + hex_message(h),
        KeyError::WrongLength => "expected 32 bytes: could not convert slice to array"@,
    }
}

/// Says what is wrong with a text that is not hex.
pub fn hex_error_text(e: &HexError) -> (r: String)
    ensures
        r@ == hex_message(*e),
{
    match e {
        HexError::InvalidHexCharacter { c, index } => {
            let mut r = "Invalid character ".to_owned();
            r.push_str(show_char(*c).as_str());
            r.push_str(" at position ");
            r.push_str(decimal_text(*index as u64).as_str());
            r
        },
        HexError::OddLength => "Odd number of digits".to_owned(),
        HexError::InvalidStringLength => "Invalid string length".to_owned(),
    }
}

/// Says what is wrong with a text that is no key.
pub fn key_error_text(e: &KeyError) -> (r: String)
    ensures
        r@ == key_message(*e),
{
    match e {
        KeyError::NotHex(h) => {
            let mut r = "invalid hex: ".to_owned();
            r.push_str(hex_error_text(h).as_str());
            r
        },
        KeyError::WrongLength => "expected 32 bytes: could not convert slice to array".to_owned(),
    }
}

// --- requests ------------------------------------------------------------------------

/// `e` is the answer to a request with `text` where a key belongs.
pub open spec fn refuses_key(e: ErrorView, text: Seq<char>) -> bool {
    exists|why: KeyError| #[trigger]
        says_why(why, utf8(text)) && e == (ErrorView { status: 400, message: key_message(why) })
}

/// The room that a request names.
pub fn room_of(id: &str) -> (r: Result<RoomId, ApiError>)
    ensures
        match r {
            Ok(room) => key_of_text(utf8(id@)) == Some(room@),
            Err(e) => key_of_text(utf8(id@)) is None && refuses_key(e@, id@),
        },
{
    match parse_key(id) {
        Ok(room) => Ok(room),
        Err(why) => Err(ApiError::bad_request(key_error_text(&why))),
    }
}

/// What a request to join names: the room, and a node that is known to serve it.
pub struct JoinRequest {
    pub room: RoomId,
    pub origin: Option<NodeKey>,
}

/// Reads a request to join a room. The room comes first: where both are no keys,
/// the answer is about the room.
pub fn join_request(id: &str, origin: &Option<String>) -> (r: Result<JoinRequest, ApiError>)
    ensures
        match r {
            Ok(j) => {
                &&& key_of_text(utf8(id@)) == Some(j.room@)
                &&& match (*origin, j.origin) {
                    (Some(text), Some(key)) => key_of_text(utf8(text@)) == Some(key@),
                    (None, None) => true,
                    _ => false,
                }
            },
            Err(e) => if key_of_text(utf8(id@)) is None {
                refuses_key(e@, id@)
            } else {
                origin matches Some(text) && key_of_text(utf8(text@)) is None && refuses_key(e@, text@)
            },
        },
{
    let room = room_of(id)?;
    match origin {
        Some(text) => {
            let key = room_of(text.as_str())?;
            Ok(JoinRequest { room, origin: Some(key) })
        },
        None => Ok(JoinRequest { room, origin: None }),
    }
}

/// An envelope for `main`.
pub open spec fn main_envelope(op: OpView) -> EnvelopeView {
    EnvelopeView { v: ENVELOPE_VERSION, branch: MAIN_BRANCH@, op }
}

/// The ops that a new room starts with: its title and its app, where they are
/// given and not empty.
pub open spec fn opening(title: Option<Seq<char>>, app: Option<Seq<char>>) -> Seq<OpView> {
    let titled = match title {
        Some(t) if t.len() > 0 => seq![OpView::SetTitle { title: t }],
        _ => Seq::empty(),
    };
    let typed = match app {
        Some(a) if a.len() > 0 => seq![OpView::SetApp { app: a }],
        _ => Seq::empty(),
    };
    titled + typed
}

/// The ops of a list.
pub open spec fn ops_view(ops: Seq<RoomOp>) -> Seq<OpView> {
    ops.map_values(|op: RoomOp| op@)
}

fn is_empty_text(s: &String) -> (r: bool)
    ensures
        r == (s@.len() == 0),
{
    let r = same_text(s.as_str(), "");
    proof {
        reveal_strlit("");
        if s@.len() == 0 {
            assert(s@ =~= ""@);
        }
    }
    r
}

/// The ops that a new room starts with.
pub fn opening_ops(title: Option<String>, app: Option<String>) -> (r: Vec<RoomOp>)
    ensures
        ops_view(r@) == opening(opt_text(title), opt_text(app)),
{
    let mut r: Vec<RoomOp> = Vec::new();
    if let Some(title) = title {
        if !is_empty_text(&title) {
            r.push(RoomOp::SetTitle { title });
        }
    }
    if let Some(app) = app {
        if !is_empty_text(&app) {
            r.push(RoomOp::SetApp { app });
        }
    }
    assert(ops_view(r@) =~= opening(opt_text(title), opt_text(app)));
    r
}

/// The payloads that are appended to a room once it is hosted, each of which is
/// read back as the op it was made of.
pub fn create_room(title: Option<String>, app: Option<String>) -> (r: Vec<Vec<u8>>)
    ensures
        ({
            let ops = opening(opt_text(title), opt_text(app));
            &&& r@.len() == ops.len()
            &&& forall|i: int|
                0 <= i < r@.len() ==> (#[trigger] r@[i])@ == envelope_text(main_envelope(ops[i])) && decoded(r@[i]@)
                    == Some(main_envelope(ops[i]))
        }),
{
    let ghost ops = opening(opt_text(title), opt_text(app));
    let list = opening_ops(title, app);
    let ghost mut n: int = 0;
    let mut r: Vec<Vec<u8>> = Vec::new();
    for op in it: list
        invariant
            n == it.index(),
            r@.len() == n,
            ops == ops_view(it.seq()),
            forall|i: int|
                0 <= i < n ==> (#[trigger] r@[i])@ == envelope_text(main_envelope(ops[i])) && decoded(r@[i]@) == Some(
                    main_envelope(ops[i]),
                ),
    {
        assert(op@ == ops[n]);
        r.push(encode_envelope(&OpEnvelope::main(op)));
        proof {
            n = n + 1;
        }
    }
    r
}

/// What a request to append names: the room, and the payload.
pub struct AppendRequest {
    pub room: RoomId,
    pub payload: Vec<u8>,
}

/// An op that may be appended: one that creates a branch gives it a name that a
/// branch may have.
pub open spec fn may_append(op: OpView) -> bool {
    op matches OpView::BranchCreate { name } ==> is_branch_name(name)
}

/// Whether an op may be appended.
pub fn is_allowed(op: &RoomOp) -> (r: bool)
    ensures
        r == may_append(op@),
        r <==> (op@ matches OpView::BranchCreate { name } ==> is_branch_name(name)),
{
    match op {
        RoomOp::BranchCreate { name } => valid_branch_name(name.as_str()),
        _ => true,
    }
}

/// Reads a request to append an op to a branch.
pub fn append_request(id: &str, branch: &str, op: RoomOp) -> (r: Result<AppendRequest, ApiError>)
    ensures
        r is Ok <==> key_of_text(utf8(id@)) is Some && (op@ matches OpView::BranchCreate { name } ==> is_branch_name(
            name,
        )),
        match r {
            Ok(a) => {
                &&& key_of_text(utf8(id@)) == Some(a.room@)
                &&& may_append(op@)
                &&& a.payload@ == envelope_text(EnvelopeView { v: ENVELOPE_VERSION, branch: branch@, op: op@ })
                &&& decoded(a.payload@) == Some(EnvelopeView { v: ENVELOPE_VERSION, branch: branch@, op: op@ })
            },
            Err(e) => if key_of_text(utf8(id@)) is None {
                refuses_key(e@, id@)
            } else {
                !may_append(op@) && e@ == (ErrorView {
                    status: 400,
                    message: "branch names must be 1-64 chars of [a-zA-Z0-9_-]"@,
                })
            },
        },
{
    let room = room_of(id)?;
    if !is_allowed(&op) {
        return Err(ApiError::bad_request("branch names must be 1-64 chars of [a-zA-Z0-9_-]".to_owned()));
    }
    let env = OpEnvelope::new(branch, op);
    Ok(AppendRequest { room, payload: encode_envelope(&env) })
}

// --- answers -------------------------------------------------------------------------

/// The answer to a request for what may not be here.
pub fn found<T>(answer: Option<T>) -> (r: Result<T, ApiError>)
    ensures
        match answer {
            Some(t) => r == Ok::<T, ApiError>(t),
            None => r matches Err(e) && e@ == not_here(),
        },
{
    match answer {
        Some(t) => Ok(t),
        None => Err(ApiError::not_found()),
    }
}

/// The answer to a request to create a room.
pub fn created(room: &RoomId, hosted: bool) -> (r: Result<String, ApiError>)
    ensures
        match r {
            Ok(id) => hosted && id@ == crate::keys::hex_text(room@),
            Err(e) => !hosted && e@ == (ErrorView { status: 500, message: "failed to host room"@ }),
        },
{
    if hosted {
        Ok(key_text(room))
    } else {
        Err(ApiError::internal("failed to host room"))
    }
}

/// The answer to a request to join a room.
pub fn joined(ok: bool) -> (r: Result<(), ApiError>)
    ensures
        match r {
            Ok(_) => ok,
            Err(e) => !ok && e@ == (ErrorView { status: 500, message: "failed to join room"@ }),
        },
{
    if ok {
        Ok(())
    } else {
        Err(ApiError::internal("failed to join room"))
    }
}

/// The answer to a request to append an op.
pub fn appended(ok: bool) -> (r: Result<(), ApiError>)
    ensures
        match r {
            Ok(_) => ok,
            Err(e) => !ok && e@ == not_here(),
        },
{
    if ok {
        Ok(())
    } else {
        Err(ApiError::not_found())
    }
}

/// The state of one branch of a room.
#[derive(Debug)]
pub struct StateAnswer {
    pub title: Option<String>,
    pub app: Option<String>,
    pub nicks: TextMap<String>,
    pub branches: Vec<String>,
    pub branch: String,
    pub state: BranchState,
    pub ops: u64,
    pub finalized_len: usize,
}

/// The state that a view names: the finalized one by its name, the live one
/// otherwise.
pub open spec fn viewed(live: RoomView, finalized: RoomView, view: Option<Seq<char>>) -> RoomView {
    if view == Some("finalized"@) {
        finalized
    } else {
        live
    }
}

/// The branch that a request names, `main` where it names none.
pub open spec fn branch_or_main(branch: Option<Seq<char>>) -> Seq<char> {
    match branch {
        Some(b) => b,
        None => MAIN_BRANCH@,
    }
}

/// The answer to a request for the state of one branch.
pub fn room_state(snap: &Snapshot, branch: Option<String>, view: &Option<String>) -> (r: Result<
    StateAnswer,
    ApiError,
>)
    ensures
        ({
            let state = viewed(snap.live@, snap.finalized@, opt_text(*view));
            let name = branch_or_main(opt_text(branch));
            match r {
                Ok(a) => {
                    &&& state.branches.contains_key(name)
                    &&& opt_text(a.title) == state.title
                    &&& opt_text(a.app) == state.app
                    &&& a.nicks@ == state.nicks
                    &&& lists_keys(texts(a.branches@), state.branches)
                    &&& a.branch@ == name
                    &&& a.state@ == state.branches[name]
                    &&& a.ops == state.ops_applied
                    &&& a.finalized_len == snap.finalized_len
                },
                Err(e) => !state.branches.contains_key(name) && e@ == not_here(),
            }
        }),
{
    let finalized = match view {
        Some(v) => same_text(v.as_str(), "finalized"),
        None => false,
    };
    let state = if finalized {
        &snap.finalized
    } else {
        &snap.live
    };
    let branch = match branch {
        Some(b) => b,
        None => default_branch(),
    };
    match state.branches.get(branch.as_str()) {
        Some(b) => Ok(
            StateAnswer {
                title: copy_opt_text(&state.title),
                app: copy_opt_text(&state.app),
                nicks: state.nicks.duplicate(),
                branches: state.branch_names(),
                state: b.duplicate(),
                branch,
                ops: state.ops_applied,
                finalized_len: snap.finalized_len,
            },
        ),
        None => Err(ApiError::not_found()),
    }
}

// --- how far a room is materialised --------------------------------------------------

/// How many documents of each kind a branch of a database holds.
#[derive(Clone, Copy, Debug, PartialEq, Eq)]
pub struct DocCounts {
    pub chat: usize,
    pub todos: usize,
    pub files: usize,
}

impl View for DocCounts {
    type V = DocCounts;

    open spec fn view(&self) -> DocCounts {
        *self
    }
}

/// How far a room is materialised, with what its database holds of it.
pub struct TdbAnswer {
    pub db: String,
    pub last_version: u64,
    pub last_error: Option<String>,
    pub branch_doc_counts: TextMap<DocCounts>,
}

/// The branches whose documents are counted for an answer: those of the room, as
/// far as it is materialised and the database can be reached.
pub fn tdb_queries(status: &Option<MatRoomStatus>, connected: bool) -> (r: Vec<String>)
    ensures
        texts(r@) == (match *status {
            Some(s) if connected => texts(s.branches@),
            _ => Seq::empty(),
        }),
{
    let mut r: Vec<String> = Vec::new();
    match status {
        Some(s) if connected => {
            let mut i: usize = 0;
            while i < s.branches.len()
                invariant
                    i <= s.branches@.len(),
                    r@.len() == i,
                    forall|j: int| 0 <= j < i ==> (#[trigger] r@[j])@ == s.branches@[j]@,
                decreases s.branches@.len() - i,
            {
                r.push(s.branches[i].clone());
                i = i + 1;
            }
            assert(texts(r@) =~= texts(s.branches@));
        },
        _ => {
            assert(texts(r@) =~= Seq::empty());
        },
    }
    r
}

/// The counts that came, by their branches; where a branch was counted more than
/// once, the last of its counts.
pub open spec fn counts_of(counted: Seq<(String, Option<DocCounts>)>) -> Map<Seq<char>, DocCounts>
    decreases counted.len(),
{
    if counted.len() == 0 {
        Map::empty()
    } else {
        let rest = counts_of(counted.drop_last());
        match counted.last().1 {
            Some(counts) => rest.insert(counted.last().0@, counts),
            None => rest,
        }
    }
}

/// A count came for a branch.
pub open spec fn is_counted(counted: Seq<(String, Option<DocCounts>)>, branch: Seq<char>) -> bool {
    exists|i: int| 0 <= i < counted.len() && (#[trigger] counted[i]).0@ == branch && counted[i].1 is Some
}

proof fn lemma_counts_are_those_that_came(counted: Seq<(String, Option<DocCounts>)>, branch: Seq<char>)
    ensures
        counts_of(counted).contains_key(branch) <==> is_counted(counted, branch),
    decreases counted.len(),
{
    if counted.len() > 0 {
        let init = counted.drop_last();
        lemma_counts_are_those_that_came(init, branch);
        if is_counted(init, branch) {
            let i = choose|i: int| 0 <= i < init.len() && (#[trigger] init[i]).0@ == branch && init[i].1 is Some;
            assert(counted[i].0@ == branch);
        }
        if is_counted(counted, branch) {
            let i = choose|i: int|
                0 <= i < counted.len() && (#[trigger] counted[i]).0@ == branch && counted[i].1 is Some;
            if i < init.len() {
                assert(init[i].0@ == branch);
            }
        }
        if counted.last().1 is Some && counted.last().0@ == branch {
            assert(counted[counted.len() - 1].0@ == branch);
        }
    }
}

/// The answer to how far a room is materialised: none for a room that is not. The
/// counts of a branch that could not be counted are left out.
pub fn tdb_answer(status: Option<MatRoomStatus>, counted: Vec<(String, Option<DocCounts>)>) -> (r: Option<TdbAnswer>)
    ensures
        r is None <==> status is None,
        r matches Some(answer) ==> {
            &&& answer.db == status->0.db
            &&& answer.last_version == status->0.last_version
            &&& answer.last_error == status->0.last_error
            &&& answer.branch_doc_counts@ == counts_of(counted@)
            &&& forall|branch: Seq<char>| #[trigger]
                answer.branch_doc_counts@.contains_key(branch) <==> is_counted(counted@, branch)
        },
{
    let status = match status {
        Some(status) => status,
        None => {
            return None;
        },
    };
    let ghost given = counted@;
    let mut counts: TextMap<DocCounts> = TextMap::new();
    let ghost mut n: int = 0;
    assert(given.take(0) =~= Seq::empty());
    for entry in it: counted
        invariant
            it.seq() == given,
            n == it.index(),
            counts@ == counts_of(given.take(n)),
    {
        assert(given.take(n + 1).drop_last() =~= given.take(n));
        assert(given.take(n + 1).last() == entry);
        let (branch, count) = entry;
        if let Some(count) = count {
            counts.insert(branch, count);
        }
        proof {
            n = n + 1;
        }
    }
    proof {
        assert(given.take(n) =~= given);
        assert forall|branch: Seq<char>| #[trigger] counts@.contains_key(branch) <==> is_counted(given, branch) by {
            lemma_counts_are_those_that_came(given, branch);
        }
    }
    Some(
        TdbAnswer {
            db: status.db,
            last_version: status.last_version,
            last_error: status.last_error,
            branch_doc_counts: counts,
        },
    )
}

} // verus!
