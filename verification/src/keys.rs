//! Identities: 32-byte keys, and their hex form.

use vstd::prelude::*;

use crate::text::utf8;

verus! {

/// The key of a writer, of a node or of a peer.
pub type NodeKey = [u8; 32];

/// The identity of a room.
pub type RoomId = [u8; 32];

/// The identity of a peer, which is its writer key.
pub type PeerId = [u8; 32];

/// The lower-case hex digit of a number below sixteen.
pub open spec fn hex_digit(n: int) -> char {
    if n < 10 {
        ('0' as int + n) as char
    } else {
        ('a' as int + n - 10) as char
    }
}

/// The hex form of bytes: two lower-case digits for each, the high one first.
pub open spec fn hex_text(bytes: Seq<u8>) -> Seq<char> {
    Seq::new(
        2 * bytes.len(),
        |i: int|
            if i % 2 == 0 {
                hex_digit(bytes[i / 2] as int / 16)
            } else {
                hex_digit(bytes[i / 2] as int % 16)
            },
    )
}

/// The value of a hex digit of either case.
pub open spec fn digit_value(b: u8) -> Option<u8> {
    if 0x30 <= b <= 0x39 {
        Some((b - 0x30) as u8)
    } else if 0x61 <= b <= 0x66 {
        Some((b - 0x61 + 10) as u8)
    } else if 0x41 <= b <= 0x46 {
        Some((b - 0x41 + 10) as u8)
    } else {
        None
    }
}

/// Every byte of `text` is a hex digit.
pub open spec fn all_digits(text: Seq<u8>) -> bool {
    forall|i: int| 0 <= i < text.len() ==> digit_value(#[trigger] text[i]) is Some
}

/// The bytes that pairs of hex digits stand for.
pub open spec fn paired(text: Seq<u8>) -> Seq<u8> {
    Seq::new(
        text.len() / 2,
        |i: int| (digit_value(text[2 * i])->0 * 16 + digit_value(text[2 * i + 1])->0) as u8,
    )
}

/// The bytes whose hex form, in either case, is `text`.
pub open spec fn unhex(text: Seq<u8>) -> Option<Seq<u8>> {
    if text.len() % 2 == 0 && all_digits(text) {
        Some(paired(text))
    } else {
        None
    }
}

/// Why a text is not the hex form of bytes.
#[derive(Clone, Copy, Debug, PartialEq, Eq)]
pub enum HexError {
    InvalidHexCharacter { c: char, index: usize },
    OddLength,
    InvalidStringLength,
}

/// Why a text is not the hex form of a key.
#[derive(Clone, Copy, Debug, PartialEq, Eq)]
pub enum KeyError {
    NotHex(HexError),
    WrongLength,
}

/// `e` is what is wrong with `text` as hex: an odd number of digits before
/// anything else, then the first byte that is no digit.
pub open spec fn explains(e: HexError, text: Seq<u8>) -> bool {
    match e {
        HexError::OddLength => text.len() % 2 != 0,
        HexError::InvalidHexCharacter { c, index } => {
            &&& text.len() % 2 == 0
            &&& index < text.len()
            &&& digit_value(text[index as int]) is None
            &&& all_digits(text.take(index as int))
            &&& c as int == text[index as int] as int
        },
        HexError::InvalidStringLength => false,
    }
}

/// `hex::encode` gives two lower-case hex digits for each byte, the digit of
/// the high four bits first.
#[verifier::external_body]
pub(crate) fn hex_encode(data: &[u8]) -> (r: String)
    ensures
        r@ == hex_text(data@),
{
    hex::encode(data)
}

/// `hex::decode` reads two digits of either case for each byte. It refuses an
/// odd number of bytes first, then the first byte that is no digit, which it
/// hands back as the character of the same number, with its position.
#[verifier::external_body]
pub(crate) fn hex_decode(text: &[u8]) -> (r: Result<Vec<u8>, HexError>)
    ensures
        match r {
            Ok(bytes) => unhex(text@) == Some(bytes@),
            Err(e) => unhex(text@) is None && explains(e, text@),
        },
{
    hex::decode(text).map_err(|e| match e {
        hex::FromHexError::InvalidHexCharacter { c, index } => HexError::InvalidHexCharacter { c, index },
        hex::FromHexError::OddLength => HexError::OddLength,
        hex::FromHexError::InvalidStringLength => HexError::InvalidStringLength,
    })
}

/// The hex form of a key.
pub fn key_text(key: &[u8; 32]) -> (r: String)
    ensures
        r@ == hex_text(key@),
{
    hex_encode(key.as_slice())
}

/// The key of 32 bytes.
pub fn key_of_bytes(bytes: &[u8]) -> (r: Option<[u8; 32]>)
    ensures
        r is Some <==> bytes@.len() == 32,
        r matches Some(k) ==> k@ == bytes@,
{
    if bytes.len() != 32 {
        return None;
    }
    let mut key: [u8; 32] = [0u8; 32];
    let mut i: usize = 0;
    while i < 32
        invariant
            i <= 32,
            bytes@.len() == 32,
            key@.len() == 32,
            forall|j: int| 0 <= j < i ==> key@[j] == bytes@[j],
        decreases 32 - i,
    {
        key[i] = bytes[i];
        i = i + 1;
    }
    assert(key@ =~= bytes@);
    Some(key)
}

/// Whether two keys are the same.
pub fn same_key(a: &[u8; 32], b: &[u8; 32]) -> (r: bool)
    ensures
        r == (a@ == b@),
        r == (*a == *b),
{
    let mut i: usize = 0;
    while i < 32
        invariant
            i <= 32,
            forall|j: int| 0 <= j < i ==> a@[j] == b@[j],
        decreases 32 - i,
    {
        if a[i] != b[i] {
            return false;
        }
        i = i + 1;
    }
    assert(a@ =~= b@);
    assert(*a =~= *b);
    true
}

/// The key whose hex form is `text`; nothing where there is none.
pub open spec fn key_of_text(text: Seq<u8>) -> Option<Seq<u8>> {
    match unhex(text) {
        Some(bytes) => if bytes.len() == 32 {
            Some(bytes)
        } else {
            None
        },
        None => None,
    }
}

/// `e` is what is wrong with `text` as a key.
pub open spec fn says_why(e: KeyError, text: Seq<u8>) -> bool {
    match e {
        KeyError::NotHex(h) => unhex(text) is None && explains(h, text),
        KeyError::WrongLength => unhex(text) matches Some(b) && b.len() != 32,
    }
}

/// Reads the hex form of a key.
pub fn parse_key(hex_str: &str) -> (r: Result<[u8; 32], KeyError>)
    ensures
        match r {
            Ok(key) => key_of_text(utf8(hex_str@)) == Some(key@),
            Err(e) => key_of_text(utf8(hex_str@)) is None && says_why(e, utf8(hex_str@)),
        },
{
    match hex_decode(hex_str.as_bytes()) {
        Ok(bytes) => match key_of_bytes(bytes.as_slice()) {
            Some(key) => Ok(key),
            None => Err(KeyError::WrongLength),
        },
        Err(e) => Err(KeyError::NotHex(e)),
    }
}

// --- laws --------------------------------------------------------------------------

proof fn lemma_hex_bytes(bytes: Seq<u8>)
    ensures
        utf8(hex_text(bytes)).len() == 2 * bytes.len(),
        forall|i: int|
            0 <= i < bytes.len() ==> digit_value(#[trigger] utf8(hex_text(bytes))[2 * i]) == Some(bytes[i] / 16),
        forall|i: int|
            0 <= i < bytes.len() ==> digit_value(#[trigger] utf8(hex_text(bytes))[2 * i + 1]) == Some(bytes[i] % 16),
        all_digits(utf8(hex_text(bytes))),
{
    let text = hex_text(bytes);
    assert(vstd::utf8::is_ascii_chars(text)) by {
        assert forall|i: int| 0 <= i < text.len() implies (#[trigger] text[i] as int) < 128 by {}
    }
    vstd::utf8::is_ascii_chars_encode_utf8(text);
    let b = utf8(text);
    assert forall|i: int| 0 <= i < bytes.len() implies digit_value(#[trigger] b[2 * i]) == Some(bytes[i] / 16) by {
        assert(text[2 * i] as u8 == b[2 * i]);
    }
    assert forall|i: int| 0 <= i < bytes.len() implies digit_value(#[trigger] b[2 * i + 1]) == Some(
        bytes[i] % 16,
    ) by {
        assert(text[2 * i + 1] as u8 == b[2 * i + 1]);
    }
    assert forall|i: int| 0 <= i < b.len() implies digit_value(#[trigger] b[i]) is Some by {
        let j = i / 2;
        if i % 2 == 0 {
            assert(digit_value(b[2 * j]) is Some);
        } else {
            assert(digit_value(b[2 * j + 1]) is Some);
        }
    }
}

/// Bytes are read back from their hex form.
pub proof fn law_hex_is_read_back(bytes: Seq<u8>)
    ensures
        unhex(utf8(hex_text(bytes))) == Some(bytes),
{
    let b = utf8(hex_text(bytes));
    lemma_hex_bytes(bytes);
    assert forall|i: int| 0 <= i < bytes.len() implies paired(b)[i] == bytes[i] by {
        assert(digit_value(b[2 * i]) == Some(bytes[i] / 16));
        assert(digit_value(b[2 * i + 1]) == Some(bytes[i] % 16));
        assert((bytes[i] / 16) * 16 + bytes[i] % 16 == bytes[i]);
    }
    assert(paired(b) =~= bytes);
}

/// A key is read back from its hex form.
pub proof fn law_key_is_read_back(key: Seq<u8>)
    requires
        key.len() == 32,
    ensures
        key_of_text(utf8(hex_text(key))) == Some(key),
{
    law_hex_is_read_back(key);
}

/// Different bytes have different hex forms.
pub proof fn law_hex_tells_bytes_apart(a: Seq<u8>, b: Seq<u8>)
    requires
        hex_text(a) == hex_text(b),
    ensures
        a == b,
{
    law_hex_is_read_back(a);
    law_hex_is_read_back(b);
}

/// A hex digit of either case, in lower case.
pub open spec fn lower_digit(c: char) -> char {
    if 'A' <= c <= 'F' {
        (c as int - 'A' as int + 'a' as int) as char
    } else {
        c
    }
}

/// A text whose UTF-8 form holds only bytes below 128 has only ASCII characters.
proof fn lemma_low_bytes_are_ascii(text: Seq<char>)
    requires
        forall|i: int| 0 <= i < utf8(text).len() ==> (#[trigger] utf8(text)[i]) < 128,
    ensures
        vstd::utf8::is_ascii_chars(text),
    decreases text.len(),
{
    if text.len() > 0 {
        let b = utf8(text);
        let c = text[0] as u32;
        let head = vstd::utf8::encode_scalar(c);
        let rest = text.drop_first();
        assert(b == head + utf8(rest));
        assert(b[0] == head[0]);
        assert(c < 128) by {
            assert((0xC0u8 | ((c >> 6) & 0x1F) as u8) >= 128) by (bit_vector);
            assert((0xE0u8 | ((c >> 12) & 0x0F) as u8) >= 128) by (bit_vector);
            assert((0xF0u8 | ((c >> 18) & 0x7) as u8) >= 128) by (bit_vector);
        }
        assert forall|i: int| 0 <= i < utf8(rest).len() implies (#[trigger] utf8(rest)[i]) < 128 by {
            assert(b[head.len() + i] == utf8(rest)[i]);
        }
        lemma_low_bytes_are_ascii(rest);
        assert forall|i: int| 0 <= i < text.len() implies '\0' <= #[trigger] text[i] <= '\u{7f}' by {
            if i > 0 {
                assert('\0' <= rest[i - 1] <= '\u{7f}');
                assert(rest[i - 1] == text[i]);
            } else {
                vstd::utf8::char_u32_cast(text[0], c);
                assert(c as char == text[0]);
            }
        }
    }
}

/// The hex form of bytes that were read from a text is that text in lower case.
pub proof fn law_read_text_is_written_in_lower_case(text: Seq<char>)
    requires
        unhex(utf8(text)) is Some,
    ensures
        hex_text(unhex(utf8(text))->0) == text.map_values(|c: char| lower_digit(c)),
{
    let b = utf8(text);
    let bytes = paired(b);
    assert forall|i: int| 0 <= i < b.len() implies (#[trigger] b[i]) < 128 by {
        assert(digit_value(b[i]) is Some);
    }
    lemma_low_bytes_are_ascii(text);
    vstd::utf8::is_ascii_chars_encode_utf8(text);
    let want = text.map_values(|c: char| lower_digit(c));
    let got = hex_text(bytes);
    assert(got.len() == want.len());
    assert forall|i: int| 0 <= i < got.len() implies got[i] == want[i] by {
        let j = i / 2;
        let high = digit_value(b[2 * j])->0;
        let low = digit_value(b[2 * j + 1])->0;
        assert(digit_value(b[2 * j]) is Some && digit_value(b[2 * j + 1]) is Some);
        assert(high < 16 && low < 16);
        assert(bytes[j] == high * 16 + low);
        assert(bytes[j] as int / 16 == high && bytes[j] as int % 16 == low);
        assert(text[i] as u8 == b[i]);
        assert('\0' <= text[i] <= '\u{7f}');
        if i % 2 == 0 {
            assert(i == 2 * j);
        } else {
            assert(i == 2 * j + 1);
        }
    }
    assert(got =~= want);
}

/// The hex form of a key that was read from a text is that text in lower case.
pub proof fn law_read_key_is_written_in_lower_case(text: Seq<char>)
    requires
        key_of_text(utf8(text)) is Some,
    ensures
        hex_text(key_of_text(utf8(text))->0) == text.map_values(|c: char| lower_digit(c)),
{
    law_read_text_is_written_in_lower_case(text);
}

} // verus!
