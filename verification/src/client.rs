//! The browser-side client: what it takes from JavaScript, and the frames that it
//! hands back for JavaScript to ship.

use vstd::prelude::*;

use crate::engine::Fanout;
use crate::envelope::{decoded, encode_envelope, envelope_text};
use crate::http::{hex_error_text, hex_message};
use crate::keys::{explains, hex_decode, hex_encode, hex_text, key_of_bytes, key_of_text, key_text, unhex, NodeKey};
use crate::op::{decode_op, decoded_op, EnvelopeView, OpEnvelope, ENVELOPE_VERSION};
use crate::presence::keys_view;
use crate::text::utf8;
use crate::text_map::texts;

verus! {

// --- opening -------------------------------------------------------------------------

/// What `serde_json` reads a text as, where it is to be a list of strings: the
/// strings, or what it says is wrong.
pub uninterp spec fn string_list_in(json: Seq<char>) -> Result<Seq<Seq<char>>, Seq<char>>;

/// `serde_json::from_str` into a `Vec<String>`, and the text of its error. Both
/// depend on the text alone.
#[verifier::external_body]
fn read_string_list(json: &str) -> (r: Result<Vec<String>, String>)
    ensures
        match r {
            Ok(list) => string_list_in(json@) == Ok::<Seq<Seq<char>>, Seq<char>>(texts(list@)),
            Err(e) => string_list_in(json@) == Err::<Seq<Seq<char>>, Seq<char>>(e@),
        },
{
    serde_json::from_str(json).map_err(|e| e.to_string())
}

/// What a replica is opened with.
#[derive(Debug)]
pub struct OpenRequest {
    /// The seed of the client's writer identity.
    pub seed: [u8; 32],
    /// The writers whose quorum makes entries final.
    pub indexers: Vec<NodeKey>,
}

/// `message` is what is said of the first text of a list that is no key.
pub open spec fn refuses_list(message: Seq<char>, list: Seq<Seq<char>>) -> bool {
    exists|i: int|
        {
            &&& 0 <= i < list.len()
            &&& key_of_text(utf8(#[trigger] list[i])) is None
            &&& refuses_indexer(message, list[i])
            &&& forall|j: int| 0 <= j < i ==> key_of_text(utf8(#[trigger] list[j])) is Some
        }
}

/// `message` is what is said of a text that is no key of an indexer.
pub open spec fn refuses_indexer(message: Seq<char>, text: Seq<char>) -> bool {
    match unhex(utf8(text)) {
        None => exists|e: crate::keys::HexError| #[trigger]
            explains(e, utf8(text)) && message == "indexer key: "@ + hex_message(e),
        Some(_) => message == "indexer key must be 32 bytes"@,
    }
}

/// Every text of a list is a key, and these are the keys.
pub open spec fn lists_key_texts(list: Seq<Seq<char>>, keys: Seq<Seq<u8>>) -> bool {
    &&& keys.len() == list.len()
    &&& forall|i: int| 0 <= i < list.len() ==> key_of_text(utf8(#[trigger] list[i])) == Some(keys[i])
}

/// The keys of a list of texts, or what is wrong with the first that is none.
pub fn indexer_keys(list: &Vec<String>) -> (r: Result<Vec<NodeKey>, String>)
    ensures
        match r {
            Ok(keys) => lists_key_texts(texts(list@), keys_view(keys@)),
            Err(message) => refuses_list(message@, texts(list@)),
        },
{
    let ghost all = texts(list@);
    let mut keys: Vec<NodeKey> = Vec::new();
    let mut i: usize = 0;
    while i < list.len()
        invariant
            i <= list@.len(),
            all == texts(list@),
            keys@.len() == i,
            forall|j: int| 0 <= j < i ==> key_of_text(utf8(#[trigger] all[j])) == Some(keys@[j]@),
        decreases list@.len() - i,
    {
        let text = &list[i];
        assert(all[i as int] == text@);
        match hex_decode(text.as_str().as_bytes()) {
            Ok(bytes) => match key_of_bytes(bytes.as_slice()) {
                Some(key) => {
                    keys.push(key);
                },
                None => {
                    assert(key_of_text(utf8(all[i as int])) is None);
                    return Err("indexer key must be 32 bytes".to_owned());
                },
            },
            Err(e) => {
                let mut message = "indexer key: ".to_owned();
                message.push_str(hex_error_text(&e).as_str());
                proof {
                    assert(key_of_text(utf8(all[i as int])) is None);
                    assert(refuses_indexer(message@, all[i as int]));
                }
                return Err(message);
            },
        }
        i = i + 1;
    }
    assert forall|j: int| 0 <= j < all.len() implies key_of_text(utf8(#[trigger] all[j])) == Some(
        keys_view(keys@)[j],
    ) by {}
    Ok(keys)
}

/// Reads what a replica is opened with: 32 bytes of seed, and a JSON array of hex
/// writer keys. The error is what JavaScript gets to see.
pub fn open_request(seed: &[u8], indexers_json: &str) -> (r: Result<OpenRequest, String>)
    ensures
        match r {
            Ok(request) => {
                &&& request.seed@ == seed@
                &&& string_list_in(indexers_json@) matches Ok(list) && lists_key_texts(
                    list,
                    keys_view(request.indexers@),
                )
            },
            Err(message) => if seed@.len() != 32 {
                message@ == "seed must be 32 bytes"@
            } else {
                match string_list_in(indexers_json@) {
                    Err(e) => message@ == "indexers_json: "@ + e,
                    Ok(list) => refuses_list(message@, list),
                }
            },
        },
{
    let seed = match key_of_bytes(seed) {
        Some(seed) => seed,
        None => {
            return Err("seed must be 32 bytes".to_owned());
        },
    };
    let list = match read_string_list(indexers_json) {
        Ok(list) => list,
        Err(e) => {
            let mut message = "indexers_json: ".to_owned();
            message.push_str(e.as_str());
            return Err(message);
        },
    };
    let indexers = indexer_keys(&list)?;
    Ok(OpenRequest { seed, indexers })
}

// --- ops and frames ------------------------------------------------------------------

/// The payload of an op that JavaScript gives as JSON; nothing where it is none.
pub fn append_payload(branch: &str, op_json: &str) -> (r: Option<Vec<u8>>)
    ensures
        match r {
            Some(payload) => decoded_op(utf8(op_json@)) matches Some(op) && payload@ == envelope_text(
                EnvelopeView { v: ENVELOPE_VERSION, branch: branch@, op },
            ) && decoded(payload@) == Some(EnvelopeView { v: ENVELOPE_VERSION, branch: branch@, op }),
            None => decoded_op(utf8(op_json@)) is None,
        },
{
    match decode_op(op_json.as_bytes()) {
        Some(op) => Some(encode_envelope(&OpEnvelope::new(branch, op))),
        None => None,
    }
}

/// The writer key of the sender of a frame.
pub fn sender_key(from_hex: &str) -> (r: Result<NodeKey, String>)
    ensures
        match r {
            Ok(key) => key_of_text(utf8(from_hex@)) == Some(key@),
            Err(message) => key_of_text(utf8(from_hex@)) is None && message@ == "from must be a 32-byte hex key"@,
        },
{
    match crate::keys::parse_key(from_hex) {
        Ok(key) => Ok(key),
        Err(_) => Err("from must be a 32-byte hex key".to_owned()),
    }
}

/// A frame, and where it goes.
#[derive(Clone, Debug)]
pub struct OutFrame {
    pub to: Fanout,
    pub frame: Vec<u8>,
}

/// How a destination is called: `gossip`, `clients`, or the hex key of a peer.
pub open spec fn destination(to: Fanout) -> Seq<char> {
    match to {
        Fanout::Gossip => "gossip"@,
        Fanout::Clients => "clients"@,
        Fanout::Peer(p) => hex_text(p@),
    }
}

/// The JSON form of a frame: the frame in hex, and where it goes.
pub open spec fn frame_text(out: OutFrame) -> Seq<char> {
    "{\"frame\":\""@ + hex_text(out.frame@) + "\",\"to\":\""@ + destination(out.to) + "\"}"@
}

/// The JSON forms of frames, with commas between them.
pub open spec fn frames_text(outs: Seq<OutFrame>) -> Seq<char>
    decreases outs.len(),
{
    if outs.len() == 0 {
        Seq::empty()
    } else if outs.len() == 1 {
        frame_text(outs[0])
    } else {
        frames_text(outs.drop_last()).push(',') + frame_text(outs.last())
    }
}

/// The frames for JavaScript to ship, as a JSON array.
pub fn frames_json(outs: &Vec<OutFrame>) -> (r: String)
    ensures
        r@ == "["@ + frames_text(outs@) + "]"@,
{
    let mut r = "[".to_owned();
    let mut i: usize = 0;
    assert(outs@.take(0) =~= Seq::empty());
    while i < outs.len()
        invariant
            i <= outs@.len(),
            r@ == "["@ + frames_text(outs@.take(i as int)),
        decreases outs@.len() - i,
    {
        let out = &outs[i];
        let ghost before = r@;
        if i > 0 {
            r.push(',');
        }
        let ghost comma = r@;
        r.push_str("{\"frame\":\"");
        r.push_str(hex_encode(out.frame.as_slice()).as_str());
        r.push_str("\",\"to\":\"");
        match &out.to {
            Fanout::Gossip => {
                r.push_str("gossip");
            },
            Fanout::Clients => {
                r.push_str("clients");
            },
            Fanout::Peer(p) => {
                r.push_str(key_text(p).as_str());
            },
        }
        r.push_str("\"}");
        proof {
            let now = outs@.take(i + 1);
            assert(r@ =~= comma + frame_text(*out));
            assert(now.drop_last() =~= outs@.take(i as int));
            assert(now.last() == *out);
            assert(r@ =~= "["@ + frames_text(now));
        }
        i = i + 1;
    }
    assert(outs@.take(i as int) =~= outs@);
    r.push_str("]");
    r
}

} // verus!
