//! What requests and frames are for: what is asked with them, and what is answered.

use vstd::prelude::*;

use crate::client::{
    destination, frame_text, frames_text, lists_key_texts, refuses_indexer, refuses_list, OutFrame,
};
use crate::engine::Fanout;
use crate::envelope::envelope_text;
use crate::fold::is_branch_name;
use crate::http::{
    branch_or_main, counts_of, hex_message, key_message, may_append, opening, refuses_key, shown_char, viewed,
    DocCounts, ErrorView,
};
use crate::keys::{explains, hex_text, key_of_text, law_hex_is_read_back, says_why, unhex, HexError, KeyError};
use crate::op::{decoded_op, EnvelopeView, OpView};
use crate::presence::all_keys;
use crate::session::{asked, member, ActionView, FieldView};
use crate::state::RoomView;
use crate::text::{decimal, utf8};

verus! {

// --- appending -----------------------------------------------------------------------

/// Every op of the vocabulary may be appended, but for a fork under a name that no branch
/// may have.
pub proof fn law_every_op_may_be_appended(op: OpView)
    ensures
        !(op is BranchCreate) ==> may_append(op),
        op matches OpView::BranchCreate { name } ==> (may_append(op) <==> is_branch_name(name)),
{
}

// --- text frames of clients ----------------------------------------------------------

/// The first member of a name counts; where there is none, it is as if it were `null`.
pub proof fn law_first_member_counts(fields: Seq<FieldView>, name: Seq<char>, i: int)
    requires
        0 <= i <= fields.len(),
        forall|j: int| 0 <= j < i ==> (#[trigger] fields[j]).name != name,
        i < fields.len() ==> fields[i].name == name,
    ensures
        i < fields.len() ==> member(fields, name) == fields[i],
        i == fields.len() ==> member(fields, name).text is None && member(fields, name).number is None && member(
            fields,
            name,
        ).json == "null"@,
    decreases fields.len(),
{
    if fields.len() > 0 && i > 0 {
        let rest = fields.drop_first();
        assert(fields[0].name != name);
        assert forall|j: int| 0 <= j < i - 1 implies (#[trigger] rest[j]).name != name by {
            assert(rest[j] == fields[j + 1]);
        }
        law_first_member_counts(rest, name, i - 1);
    }
}

/// A frame that appends an op, of whatever kind, asks for the payload of exactly that op,
/// of the current version, on the branch that the frame names.
pub proof fn law_append_frame_appends_its_op(client_id: u64, fields: Seq<FieldView>, branch: Seq<char>, op: OpView)
    requires
        member(fields, "t"@).text == Some("append"@),
        member(fields, "branch"@).text == Some(branch),
        decoded_op(utf8(member(fields, "op"@).json)) == Some(op),
        op matches OpView::BranchCreate { name } ==> is_branch_name(name),
    ensures
        asked(client_id, fields) == ActionView::Append(envelope_text(EnvelopeView { v: 1, branch, op })),
{
    lemma_kinds_of_frames();
}

/// A frame that appends an op and names no branch appends it to `main`.
pub proof fn law_append_frame_without_branch_is_for_main(client_id: u64, fields: Seq<FieldView>, op: OpView)
    requires
        member(fields, "t"@).text == Some("append"@),
        member(fields, "branch"@).text is None,
        decoded_op(utf8(member(fields, "op"@).json)) == Some(op),
        op matches OpView::BranchCreate { name } ==> is_branch_name(name),
    ensures
        asked(client_id, fields) == ActionView::Append(envelope_text(EnvelopeView { v: 1, branch: "main"@, op })),
{
    lemma_kinds_of_frames();
}

/// A frame that is to append what is no op, or a fork under a name that no branch may
/// have, asks for nothing.
pub proof fn law_append_frame_without_op_is_ignored(client_id: u64, fields: Seq<FieldView>)
    requires
        member(fields, "t"@).text == Some("append"@),
        decoded_op(utf8(member(fields, "op"@).json)) matches Some(op) ==> (op matches OpView::BranchCreate { name }
            && !is_branch_name(name)),
    ensures
        asked(client_id, fields) is Ignore,
{
    lemma_kinds_of_frames();
}

/// A signal for a client is relayed to that client, with its data as it came and the id
/// of the client that sends it; a signal for none is ignored.
pub proof fn law_signal_is_relayed(client_id: u64, fields: Seq<FieldView>)
    requires
        member(fields, "t"@).text == Some("signal"@),
    ensures
        member(fields, "to"@).number matches Some(to) ==> asked(client_id, fields) == (ActionView::Relay {
            to,
            frame: "{\"data\":"@ + member(fields, "data"@).json + ",\"from\":"@ + decimal(client_id as nat)
                + ",\"t\":\"signal\"}"@,
        }),
        member(fields, "to"@).number is None ==> asked(client_id, fields) is Ignore,
{
}

/// A client that names a writer key is bound to it; one that names what is no key is not.
pub proof fn law_named_writer_is_bound(client_id: u64, fields: Seq<FieldView>)
    requires
        member(fields, "t"@).text == Some("writer"@),
    ensures
        member(fields, "key"@).text matches Some(text) ==> match key_of_text(utf8(text)) {
            Some(key) => asked(client_id, fields) == ActionView::Bind(key),
            None => asked(client_id, fields) is Ignore,
        },
        member(fields, "key"@).text is None ==> asked(client_id, fields) is Ignore,
{
    lemma_kinds_of_frames();
}

/// A frame of any other kind, or of none, is ignored.
pub proof fn law_other_frames_are_ignored(client_id: u64, fields: Seq<FieldView>)
    requires
        member(fields, "t"@).text != Some("append"@),
        member(fields, "t"@).text != Some("signal"@),
        member(fields, "t"@).text != Some("writer"@),
    ensures
        asked(client_id, fields) is Ignore,
{
}

proof fn lemma_kinds_of_frames()
    ensures
        "signal"@ != "writer"@,
        "signal"@ != "append"@,
        "writer"@ != "append"@,
{
    reveal_strlit("signal");
    reveal_strlit("writer");
    reveal_strlit("append");
    assert("signal"@[0] == 's' && "writer"@[0] == 'w' && "append"@[0] == 'a');
}

// --- requests ------------------------------------------------------------------------

/// A new room starts with its title and then its app, each where it is given and not
/// empty, and with nothing else.
pub proof fn law_new_room_starts_with_title_and_app(title: Option<Seq<char>>, app: Option<Seq<char>>)
    ensures
        ({
            let ops = opening(title, app);
            let titled = title is Some && title->0.len() > 0;
            let typed = app is Some && app->0.len() > 0;
            &&& ops.len() == (if titled { 1int } else { 0 }) + (if typed { 1int } else { 0 })
            &&& titled ==> ops[0] == (OpView::SetTitle { title: title->0 })
            &&& typed ==> ops[ops.len() - 1] == (OpView::SetApp { app: app->0 })
        }),
{
}

/// A request sees the finalized state where it asks for it by its name, and the live one
/// otherwise.
pub proof fn law_view_is_live_unless_finalized(live: RoomView, finalized: RoomView, view: Option<Seq<char>>)
    ensures
        viewed(live, finalized, Some("finalized"@)) == finalized,
        view != Some("finalized"@) ==> viewed(live, finalized, view) == live,
{
}

/// A request is about the branch that it names, and about `main` where it names none.
pub proof fn law_branch_is_main_unless_named(branch: Seq<char>)
    ensures
        branch_or_main(Some(branch)) == branch,
        branch_or_main(None) == "main"@,
{
}

/// What is wrong with a text that is no key is said: which character, and where, that it
/// has an odd number of digits, or that it is not as long as a key.
pub proof fn law_key_errors_are_said(c: char, index: usize)
    ensures
        key_message(KeyError::NotHex(HexError::InvalidHexCharacter { c, index })) == "invalid hex: "@ + (
        "Invalid character "@ + shown_char(c) + " at position "@ + decimal(index as nat)),
        key_message(KeyError::NotHex(HexError::OddLength)) == "invalid hex: "@ + "Odd number of digits"@,
        key_message(KeyError::WrongLength) == "expected 32 bytes: could not convert slice to array"@,
{
}

/// A text that is no key is answered with a bad request, and why.
pub proof fn law_bad_key_is_a_bad_request(e: ErrorView, text: Seq<char>)
    requires
        refuses_key(e, text),
    ensures
        e.status == 400,
        key_of_text(utf8(text)) is None,
{
    let why = choose|why: KeyError| #[trigger]
        says_why(why, utf8(text)) && e == (ErrorView { status: 400, message: key_message(why) });
}

/// Of the counts of a branch, the last that came is answered.
pub proof fn law_last_count_is_answered(counted: Seq<(String, Option<DocCounts>)>, i: int)
    requires
        0 <= i < counted.len(),
        counted[i].1 is Some,
        forall|j: int| i < j < counted.len() && (#[trigger] counted[j]).0@ == counted[i].0@ ==> counted[j].1 is None,
    ensures
        counts_of(counted).contains_key(counted[i].0@),
        counts_of(counted)[counted[i].0@] == counted[i].1->0,
    decreases counted.len(),
{
    let init = counted.drop_last();
    if i < init.len() {
        assert(init[i] == counted[i]);
        assert forall|j: int| i < j < init.len() && (#[trigger] init[j]).0@ == init[i].0@ implies init[j].1 is None by {
            assert(init[j] == counted[j]);
        }
        law_last_count_is_answered(init, i);
        assert(counted[counted.len() - 1] == counted.last());
    }
}

// --- frames of a browser -------------------------------------------------------------

/// Each frame goes out as its bytes in hex, from which they can be read, with where it
/// goes: by name for the gossip and the clients, by its key in hex for a peer.
pub proof fn law_frame_is_handed_out_whole(out: OutFrame)
    ensures
        frame_text(out) == "{\"frame\":\""@ + hex_text(out.frame@) + "\",\"to\":\""@ + destination(out.to) + "\"}"@,
        unhex(utf8(hex_text(out.frame@))) == Some(out.frame@),
        out.to is Gossip ==> destination(out.to) == "gossip"@,
        out.to is Clients ==> destination(out.to) == "clients"@,
        out.to matches Fanout::Peer(p) ==> key_of_text(utf8(destination(out.to))) == Some(p@),
{
    law_hex_is_read_back(out.frame@);
    if let Fanout::Peer(p) = out.to {
        law_hex_is_read_back(p@);
    }
}

/// Frames go out in their order, with a comma between each two.
pub proof fn law_frames_go_out_in_order(outs: Seq<OutFrame>, more: OutFrame)
    ensures
        frames_text(seq![more]) == frame_text(more),
        outs.len() > 0 ==> frames_text(outs.push(more)) == frames_text(outs) + seq![','] + frame_text(more),
        frames_text(Seq::empty()).len() == 0,
{
    if outs.len() > 0 {
        assert(outs.push(more).drop_last() =~= outs);
        assert(frames_text(outs).push(',') + frame_text(more) =~= frames_text(outs) + seq![','] + frame_text(more));
    }
}

/// A list of indexers is taken exactly where each of its texts is a key; the first that is
/// none is what is said.
pub proof fn law_indexers_are_all_keys(list: Seq<Seq<char>>, keys: Seq<Seq<u8>>, message: Seq<char>, i: int)
    requires
        0 <= i < list.len(),
    ensures
        lists_key_texts(list, keys) ==> keys.len() == list.len() && key_of_text(utf8(list[i])) == Some(keys[i]),
        all_keys(list, keys) ==> keys.len() == list.len() && key_of_text(utf8(list[i])) == Some(keys[i]),
        lists_key_texts(list, keys) ==> !refuses_list(message, list),
        refuses_list(message, list) ==> exists|j: int|
            0 <= j < list.len() && key_of_text(utf8(#[trigger] list[j])) is None && refuses_indexer(message, list[j])
                && (i < j ==> key_of_text(utf8(list[i])) is Some),
{
    if refuses_list(message, list) {
        let j = choose|j: int|
            {
                &&& 0 <= j < list.len()
                &&& key_of_text(utf8(#[trigger] list[j])) is None
                &&& refuses_indexer(message, list[j])
                &&& forall|k: int| 0 <= k < j ==> key_of_text(utf8(#[trigger] list[k])) is Some
            };
        assert(key_of_text(utf8(list[j])) is None);
    }
}

/// Of a text that is no hex it is said what is wrong with it; of hex of another length, that
/// a key has 32 bytes.
pub proof fn law_bad_indexer_is_said(message: Seq<char>, text: Seq<char>)
    requires
        refuses_indexer(message, text),
    ensures
        unhex(utf8(text)) is Some ==> message == "indexer key must be 32 bytes"@,
        unhex(utf8(text)) is None ==> exists|e: HexError| #[trigger]
            explains(e, utf8(text)) && message == "indexer key: "@ + hex_message(e),
{
}

} // verus!
