//! JSON as the payload format uses it: the punctuation of objects and arrays,
//! around values that `serde_json` reads and writes.

use vstd::prelude::*;
use vstd::slice::slice_subrange;

use crate::text::{decimal, utf8};

verus! {

pub const QUOTE: u8 = 0x22;
pub const COMMA: u8 = 0x2c;
pub const COLON: u8 = 0x3a;
pub const OPEN_LIST: u8 = 0x5b;
pub const CLOSE_LIST: u8 = 0x5d;
pub const OPEN_OBJECT: u8 = 0x7b;
pub const CLOSE_OBJECT: u8 = 0x7d;

/// A JSON value, as far as the payload format tells values apart.
#[derive(Debug, PartialEq, Eq)]
pub enum JsonValue {
    Null,
    Bool(bool),
    Text(String),
    Number,
    Nested,
}

/// What a [`JsonValue`] stands for.
pub enum JsonView {
    Null,
    Bool(bool),
    Text(Seq<char>),
    Number,
    Nested,
}

impl View for JsonValue {
    type V = JsonView;

    open spec fn view(&self) -> JsonView {
        match *self {
            JsonValue::Null => JsonView::Null,
            JsonValue::Bool(b) => JsonView::Bool(b),
            JsonValue::Text(s) => JsonView::Text(s@),
            JsonValue::Number => JsonView::Number,
            JsonValue::Nested => JsonView::Nested,
        }
    }
}

// --- values, read by serde_json ----------------------------------------------

/// The string that `serde_json` reads at the start of `rest`, and the number of
/// bytes it takes, blanks before it among them.
pub uninterp spec fn string_at(rest: Seq<u8>) -> Option<(Seq<char>, nat)>;

/// The `u32` that `serde_json` reads at the start of `rest`, and the number of
/// bytes it takes.
pub uninterp spec fn u32_at(rest: Seq<u8>) -> Option<(u32, nat)>;

/// The value that `serde_json` reads at the start of `rest`, and the number of
/// bytes it takes.
pub uninterp spec fn value_at(rest: Seq<u8>) -> Option<(JsonView, nat)>;

/// The number of bytes of the value that `serde_json` passes over at the start
/// of `rest`.
pub uninterp spec fn ignored_at(rest: Seq<u8>) -> Option<nat>;

/// The first item of a `serde_json::StreamDeserializer` of strings. What it
/// reads depends on the bytes alone; it takes at least one of them and none
/// that is not there.
#[verifier::external_body]
pub(crate) fn read_string(rest: &[u8]) -> (r: Option<(String, usize)>)
    ensures
        match r {
            Some((s, n)) => string_at(rest@) == Some((s@, n as nat)) && 0 < n <= rest@.len(),
            None => string_at(rest@) is None,
        },
{
    let mut values = serde_json::Deserializer::from_slice(rest).into_iter::<String>();
    match values.next() {
        Some(Ok(s)) => Some((s, values.byte_offset())),
        _ => None,
    }
}

/// The first item of a `serde_json::StreamDeserializer` of `u32`. What it reads
/// depends on the bytes alone; it takes at least one of them and none that is
/// not there.
#[verifier::external_body]
pub(crate) fn read_u32(rest: &[u8]) -> (r: Option<(u32, usize)>)
    ensures
        match r {
            Some((v, n)) => u32_at(rest@) == Some((v, n as nat)) && 0 < n <= rest@.len(),
            None => u32_at(rest@) is None,
        },
{
    let mut values = serde_json::Deserializer::from_slice(rest).into_iter::<u32>();
    match values.next() {
        Some(Ok(v)) => Some((v, values.byte_offset())),
        _ => None,
    }
}

/// The first item of a `serde_json::StreamDeserializer` of `serde_json::Value`.
/// What it reads depends on the bytes alone; it takes at least one of them and
/// none that is not there.
#[verifier::external_body]
pub(crate) fn read_value(rest: &[u8]) -> (r: Option<(JsonValue, usize)>)
    ensures
        match r {
            Some((v, n)) => value_at(rest@) == Some((v@, n as nat)) && 0 < n <= rest@.len(),
            None => value_at(rest@) is None,
        },
{
    let mut values = serde_json::Deserializer::from_slice(rest).into_iter::<serde_json::Value>();
    let value = match values.next()?.ok()? {
        serde_json::Value::Null => JsonValue::Null,
        serde_json::Value::Bool(b) => JsonValue::Bool(b),
        serde_json::Value::String(s) => JsonValue::Text(s),
        serde_json::Value::Number(_) => JsonValue::Number,
        serde_json::Value::Array(_) => JsonValue::Nested,
        serde_json::Value::Object(_) => JsonValue::Nested,
    };
    Some((value, values.byte_offset()))
}

/// The first item of a `serde_json::StreamDeserializer` of
/// `serde::de::IgnoredAny`. How far it reads depends on the bytes alone; it
/// takes at least one of them and none that is not there.
#[verifier::external_body]
pub(crate) fn ignore_value(rest: &[u8]) -> (r: Option<usize>)
    ensures
        match r {
            Some(n) => ignored_at(rest@) == Some(n as nat) && 0 < n <= rest@.len(),
            None => ignored_at(rest@) is None,
        },
{
    let mut values = serde_json::Deserializer::from_slice(rest).into_iter::<serde::de::IgnoredAny>();
    match values.next() {
        Some(Ok(_)) => Some(values.byte_offset()),
        _ => None,
    }
}

// --- values, written by serde_json -------------------------------------------

/// The byte of a lower-case hex digit.
pub open spec fn hex_byte(n: int) -> u8 {
    if n < 10 {
        (0x30 + n) as u8
    } else {
        (0x61 + n - 10) as u8
    }
}

/// A character inside the JSON form of a string. Quotes, backslashes and control
/// characters are escaped, and no others.
pub open spec fn escaped_char(c: char) -> Seq<u8> {
    let n = c as int;
    if n == 0x22 || n == 0x5c {
        seq![0x5cu8, n as u8]
    } else if n == 0x08 {
        seq![0x5cu8, 0x62u8]
    } else if n == 0x09 {
        seq![0x5cu8, 0x74u8]
    } else if n == 0x0a {
        seq![0x5cu8, 0x6eu8]
    } else if n == 0x0c {
        seq![0x5cu8, 0x66u8]
    } else if n == 0x0d {
        seq![0x5cu8, 0x72u8]
    } else if n < 0x20 {
        seq![0x5cu8, 0x75u8, 0x30u8, 0x30u8, hex_byte(n / 16), hex_byte(n % 16)]
    } else {
        utf8(seq![c])
    }
}

/// The characters inside the JSON form of a string.
pub open spec fn escaped(s: Seq<char>) -> Seq<u8>
    decreases s.len(),
{
    if s.len() == 0 {
        Seq::empty()
    } else {
        escaped(s.drop_last()) + escaped_char(s.last())
    }
}

/// The JSON form of a string.
#[verifier::opaque]
pub open spec fn quoted(s: Seq<char>) -> Seq<u8> {
    seq![QUOTE] + escaped(s) + seq![QUOTE]
}

/// The bytes of a decimal number.
pub open spec fn decimal_bytes(n: nat) -> Seq<u8> {
    utf8(decimal(n))
}

/// The JSON form of a truth value.
pub open spec fn bool_bytes(b: bool) -> Seq<u8> {
    if b {
        seq![0x74u8, 0x72u8, 0x75u8, 0x65u8]
    } else {
        seq![0x66u8, 0x61u8, 0x6cu8, 0x73u8, 0x65u8]
    }
}

/// `text` is a JSON form of the string `s` that is read back as `s`, whatever
/// follows it.
pub open spec fn reads_back(text: Seq<u8>, s: Seq<char>) -> bool {
    &&& text.len() > 0
    &&& text[0] == QUOTE
    &&& forall|rest: Seq<u8>| #[trigger] string_at(text + rest) == Some((s, text.len()))
    &&& forall|rest: Seq<u8>| #[trigger] value_at(text + rest) == Some((JsonView::Text(s), text.len()))
}

/// `rest` begins with a comma or with the end of an object.
pub open spec fn ends_value(rest: Seq<u8>) -> bool {
    rest.len() > 0 && (rest[0] == COMMA || rest[0] == CLOSE_OBJECT)
}

/// `serde_json::to_vec` on a string: its characters between quotes, with quotes,
/// backslashes and control characters escaped. It is read back as the string,
/// whatever follows.
#[verifier::external_body]
pub(crate) fn write_string(s: &str) -> (r: Vec<u8>)
    ensures
        r@ == quoted(s@),
        reads_back(r@, s@),
{
    serde_json::to_vec(s).expect("a string serializes")
}

/// `serde_json::to_vec` on a `u32`: its decimal form, which is read back as the
/// number where the value ends behind it.
#[verifier::external_body]
pub(crate) fn write_u32(n: u32) -> (r: Vec<u8>)
    ensures
        r@ == decimal_bytes(n as nat),
        forall|rest: Seq<u8>| ends_value(rest) ==> #[trigger] u32_at(r@ + rest) == Some((n, r@.len())),
{
    serde_json::to_vec(&n).expect("a number serializes")
}

/// `serde_json::to_vec` on a truth value: `true` or `false`, which is read back
/// where the value ends behind it.
#[verifier::external_body]
pub(crate) fn write_bool(b: bool) -> (r: Vec<u8>)
    ensures
        r@ == bool_bytes(b),
        forall|rest: Seq<u8>|
            ends_value(rest) ==> #[trigger] value_at(r@ + rest) == Some((JsonView::Bool(b), r@.len())),
{
    serde_json::to_vec(&b).expect("a truth value serializes")
}

// --- punctuation ---------------------------------------------------------------

/// A byte that may stand between the parts of a JSON text.
pub open spec fn is_blank(b: u8) -> bool {
    b == 0x20 || b == 0x0a || b == 0x09 || b == 0x0d
}

/// The first position from `i` on that holds no blank.
pub open spec fn after_blanks(b: Seq<u8>, i: int) -> int
    decreases b.len() - i,
{
    if 0 <= i < b.len() && is_blank(b[i]) {
        after_blanks(b, i + 1)
    } else {
        i
    }
}

/// What stands next in an object.
pub enum MemberView {
    /// The object ends before this position.
    End(int),
    /// A key, and the position behind its colon.
    Key(Seq<char>, int),
    Malformed,
}

/// What stands at `pos` in an object, `first` where no member came before.
pub open spec fn next_member(b: Seq<u8>, pos: int, first: bool) -> MemberView {
    let p = after_blanks(b, pos);
    if p >= b.len() {
        MemberView::Malformed
    } else if b[p] == CLOSE_OBJECT {
        MemberView::End(p + 1)
    } else if !first && b[p] != COMMA {
        MemberView::Malformed
    } else {
        let k = if first {
            p
        } else {
            after_blanks(b, p + 1)
        };
        if k >= b.len() || b[k] != QUOTE {
            MemberView::Malformed
        } else {
            match string_at(b.skip(k)) {
                Some((key, n)) => {
                    let c = after_blanks(b, k + n);
                    if c < b.len() && b[c] == COLON {
                        MemberView::Key(key, c + 1)
                    } else {
                        MemberView::Malformed
                    }
                },
                None => MemberView::Malformed,
            }
        }
    }
}

/// What stands next in an array.
pub enum ElementView {
    /// The array ends before this position.
    End(int),
    /// An element begins at this position.
    At(int),
    Malformed,
}

/// What stands at `pos` in an array, `first` where no element came before.
pub open spec fn next_element(b: Seq<u8>, pos: int, first: bool) -> ElementView {
    let p = after_blanks(b, pos);
    if p >= b.len() {
        ElementView::Malformed
    } else if b[p] == CLOSE_LIST {
        ElementView::End(p + 1)
    } else if first {
        ElementView::At(p)
    } else if b[p] != COMMA {
        ElementView::Malformed
    } else {
        let q = after_blanks(b, p + 1);
        if q >= b.len() || b[q] == CLOSE_LIST {
            ElementView::Malformed
        } else {
            ElementView::At(q)
        }
    }
}

/// `span` inside `depth` arrays.
pub open spec fn wrapped(span: Seq<u8>, depth: nat) -> Seq<u8> {
    Seq::new(depth, |i: int| OPEN_LIST) + span + Seq::new(depth, |i: int| CLOSE_LIST)
}

/// The value at `at`, `depth` containers deep, and the position behind it.
/// `serde_json` limits how deep values nest, and the containers around a value
/// count.
pub open spec fn value_within(b: Seq<u8>, at: int, depth: nat) -> Option<(JsonView, int)> {
    match value_at(b.skip(at)) {
        Some((v, n)) => if v is Nested && value_at(wrapped(b.subrange(at, at + n), depth)) is None {
            None
        } else {
            Some((v, at + n))
        },
        None => None,
    }
}

/// What was read next in an object.
pub(crate) enum Member {
    End(usize),
    Key(String, usize),
    Malformed,
}

/// What was read next in an array.
pub(crate) enum Element {
    End(usize),
    At(usize),
    Malformed,
}

/// The first position from `i` on that holds no blank.
pub(crate) fn pass_blanks(b: &[u8], i: usize) -> (r: usize)
    requires
        i <= b@.len(),
    ensures
        r == after_blanks(b@, i as int),
        i <= r <= b@.len(),
{
    let mut r: usize = i;
    while r < b.len() && (b[r] == 0x20 || b[r] == 0x0a || b[r] == 0x09 || b[r] == 0x0d)
        invariant
            i <= r <= b@.len(),
            after_blanks(b@, i as int) == after_blanks(b@, r as int),
        decreases b@.len() - r,
    {
        r = r + 1;
    }
    r
}

/// The bytes from `from` on.
pub(crate) fn from_here(b: &[u8], from: usize) -> (r: &[u8])
    requires
        from <= b@.len(),
    ensures
        r@ == b@.skip(from as int),
        b@.len() <= usize::MAX,
{
    let r = slice_subrange(b, from, b.len());
    assert(r@ =~= b@.skip(from as int));
    r
}

/// Reads what stands at `pos` in an object.
pub(crate) fn read_member(b: &[u8], pos: usize, first: bool) -> (r: Member)
    requires
        pos <= b@.len(),
    ensures
        match r {
            Member::End(e) => next_member(b@, pos as int, first) == MemberView::End(e as int) && pos < e <= b@.len(),
            Member::Key(key, at) => next_member(b@, pos as int, first) == MemberView::Key(key@, at as int) && pos < at
                <= b@.len(),
            Member::Malformed => next_member(b@, pos as int, first) == MemberView::Malformed,
        },
{
    let p = pass_blanks(b, pos);
    if p >= b.len() {
        return Member::Malformed;
    }
    if b[p] == CLOSE_OBJECT {
        return Member::End(p + 1);
    }
    if !first && b[p] != COMMA {
        return Member::Malformed;
    }
    let k = if first { p } else { pass_blanks(b, p + 1) };
    if k >= b.len() || b[k] != QUOTE {
        return Member::Malformed;
    }
    match read_string(from_here(b, k)) {
        Some((key, n)) => {
            let c = pass_blanks(b, k + n);
            if c < b.len() && b[c] == COLON {
                Member::Key(key, c + 1)
            } else {
                Member::Malformed
            }
        },
        None => Member::Malformed,
    }
}

/// Reads what stands at `pos` in an array.
pub(crate) fn read_element(b: &[u8], pos: usize, first: bool) -> (r: Element)
    requires
        pos <= b@.len(),
    ensures
        match r {
            Element::End(e) => next_element(b@, pos as int, first) == ElementView::End(e as int) && pos < e
                <= b@.len(),
            Element::At(p) => next_element(b@, pos as int, first) == ElementView::At(p as int) && pos <= p
                < b@.len(),
            Element::Malformed => next_element(b@, pos as int, first) == ElementView::Malformed,
        },
{
    let p = pass_blanks(b, pos);
    if p >= b.len() {
        return Element::Malformed;
    }
    if b[p] == CLOSE_LIST {
        return Element::End(p + 1);
    }
    if first {
        return Element::At(p);
    }
    if b[p] != COMMA {
        return Element::Malformed;
    }
    let q = pass_blanks(b, p + 1);
    if q >= b.len() || b[q] == CLOSE_LIST {
        Element::Malformed
    } else {
        Element::At(q)
    }
}

fn wrap(span: &[u8], depth: usize) -> (r: Vec<u8>)
    ensures
        r@ == wrapped(span@, depth as nat),
{
    let mut r: Vec<u8> = Vec::new();
    let mut i: usize = 0;
    while i < depth
        invariant
            i <= depth,
            r@ == Seq::new(i as nat, |j: int| OPEN_LIST),
        decreases depth - i,
    {
        r.push(OPEN_LIST);
        assert(r@ =~= Seq::new((i + 1) as nat, |j: int| OPEN_LIST));
        i = i + 1;
    }
    let ghost opened = r@;
    r.extend_from_slice(span);
    assert(r@ =~= opened + span@);
    i = 0;
    while i < depth
        invariant
            i <= depth,
            r@ == opened + span@ + Seq::new(i as nat, |j: int| CLOSE_LIST),
        decreases depth - i,
    {
        r.push(CLOSE_LIST);
        assert(r@ =~= opened + span@ + Seq::new((i + 1) as nat, |j: int| CLOSE_LIST));
        i = i + 1;
    }
    r
}

/// Reads the value at `at`, `depth` containers deep.
pub(crate) fn read_value_within(b: &[u8], at: usize, depth: usize) -> (r: Option<(JsonValue, usize)>)
    requires
        at <= b@.len(),
    ensures
        match r {
            Some((v, end)) => value_within(b@, at as int, depth as nat) == Some((v@, end as int)) && at < end
                <= b@.len(),
            None => value_within(b@, at as int, depth as nat) is None,
        },
{
    match read_value(from_here(b, at)) {
        Some((v, n)) => {
            let nested = match &v {
                JsonValue::Nested => true,
                _ => false,
            };
            if nested {
                let text = wrap(slice_subrange(b, at, at + n), depth);
                if read_value(text.as_slice()).is_none() {
                    return None;
                }
            }
            Some((v, at + n))
        },
        None => None,
    }
}

} // verus!
