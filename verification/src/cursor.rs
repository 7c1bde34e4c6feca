//! The opaque pagination cursor: a `(timestamp, id)` pair carried on the wire
//! as `base64url("{timestamp}:{id}")` without padding. Any cursor the system
//! produces round-trips through `decode` to the same pair; malformed input is
//! rejected, never coerced.

use vstd::prelude::*;

use crate::base64url::{
    ascii_to_string, b64_decode, b64_decode_bytes, b64_encode, b64_encode_bytes, chars_of_bytes,
};
use crate::digits::{fmt_i64, format_i64, parse_i64, parse_i64_bytes};
use crate::scalar::{Timestamp, ID};
use vstd::slice::slice_subrange;
use vstd::utf8::encode_utf8;
use vstd::utf8::is_ascii_chars;

verus! {

/// A position in the paginated order: the record's identifier and creation
/// timestamp.
#[derive(Clone, Copy, Debug, PartialEq, Eq, Structural)]
pub struct Cursor {
    pub id: ID,
    pub created_at: Timestamp,
}

/// The declared failure of cursor decoding: the token was not produced by
/// `encode`.
#[derive(Clone, Copy, Debug, PartialEq, Eq, Structural)]
pub enum DecodeError {
    InvalidCursor,
}

/// The plain-text payload of a cursor: `"{timestamp}:{id}"` in decimal.
pub open spec fn cursor_payload(id: i64, created_at: i64) -> Seq<u8> {
    fmt_i64(created_at as int) + seq![58u8] + fmt_i64(id as int)
}

/// The wire form of a cursor: base64url of the payload, as bytes.
pub open spec fn cursor_encoding(id: i64, created_at: i64) -> Seq<u8> {
    b64_encode(cursor_payload(id, created_at))
}

/// Index of the first occurrence of `b` in `s`, if any.
pub open spec fn find_byte(s: Seq<u8>, b: u8) -> Option<int>
    decreases s.len(),
{
    if s.len() == 0 {
        None
    } else if s[0] == b {
        Some(0)
    } else {
        match find_byte(s.skip(1), b) {
            Some(i) => Some(i + 1),
            None => None,
        }
    }
}

/// What decoding a wire token yields: base64url-decode, split at the first
/// `':'`, parse the left side as the timestamp and the right side as the
/// identifier; `None` wherever any step fails.
pub open spec fn cursor_decoding(s: Seq<u8>) -> Option<(i64, i64)> {
    match b64_decode(s) {
        None => None,
        Some(bytes) => match find_byte(bytes, 58) {
            None => None,
            Some(i) => match (parse_i64(bytes.take(i)), parse_i64(bytes.skip(i + 1))) {
                (Some(ts), Some(id)) => Some((id, ts)),
                _ => None,
            },
        },
    }
}

/// Decoding of a wire token given as text: decoding of its UTF-8 bytes.
pub open spec fn cursor_decoding_str(s: Seq<char>) -> Option<(i64, i64)> {
    cursor_decoding(encode_utf8(s))
}

proof fn lemma_find_byte_props(s: Seq<u8>, b: u8)
    ensures
        match find_byte(s, b) {
            Some(i) => 0 <= i < s.len() && s[i] == b && forall|j: int| 0 <= j < i ==> s[j] != b,
            None => forall|j: int| 0 <= j < s.len() ==> s[j] != b,
        },
    decreases s.len(),
{
    if s.len() > 0 && s[0] != b {
        lemma_find_byte_props(s.skip(1), b);
        match find_byte(s.skip(1), b) {
            Some(i) => {
                assert(s.skip(1)[i] == s[i + 1]);
                assert(forall|j: int| 1 <= j < i + 1 ==> s[j] == s.skip(1)[j - 1]);
            },
            None => {
                assert(forall|j: int| 1 <= j < s.len() ==> s[j] == s.skip(1)[j - 1]);
            },
        }
    }
}

proof fn lemma_find_byte_first(s: Seq<u8>, b: u8, i: int)
    requires
        0 <= i < s.len(),
        s[i] == b,
        forall|j: int| 0 <= j < i ==> s[j] != b,
    ensures
        find_byte(s, b) == Some(i),
    decreases s.len(),
{
    if i > 0 {
        assert(forall|j: int| 0 <= j < s.skip(1).len() ==> s.skip(1)[j] == s[j + 1]);
        lemma_find_byte_first(s.skip(1), b, i - 1);
    }
}

/// Decoding inverts encoding: every cursor the system produces comes back as
/// the same `(id, created_at)` pair.
pub proof fn lemma_cursor_roundtrip(id: i64, created_at: i64)
    ensures
        cursor_decoding(cursor_encoding(id, created_at)) == Some((id, created_at)),
{
    let ts_part = fmt_i64(created_at as int);
    let id_part = fmt_i64(id as int);
    let payload = cursor_payload(id, created_at);
    crate::base64url::lemma_b64_roundtrip(payload);
    crate::digits::lemma_fmt_i64_no_colon(created_at as int);
    crate::digits::lemma_fmt_i64_no_colon(id as int);
    assert(payload[ts_part.len() as int] == 58);
    assert forall|j: int| 0 <= j < ts_part.len() implies payload[j] != 58 by {
        assert(payload[j] == ts_part[j]);
    }
    lemma_find_byte_first(payload, 58, ts_part.len() as int);
    assert(payload.take(ts_part.len() as int) =~= ts_part);
    assert(payload.skip(ts_part.len() as int + 1) =~= id_part);
    crate::digits::lemma_parse_fmt_i64(created_at);
    crate::digits::lemma_parse_fmt_i64(id);
}

/// Malformed tokens are rejected, never coerced: decoding fails on anything
/// that is not base64url, on a payload without a separator, and on a payload
/// either of whose components is not an integer.
pub proof fn lemma_cursor_rejection(s: Seq<u8>)
    ensures
        b64_decode(s) is None ==> cursor_decoding(s) is None,
        b64_decode(s) matches Some(bytes) && find_byte(bytes, 58) is None ==> cursor_decoding(s)
            is None,
        b64_decode(s) matches Some(bytes) && find_byte(bytes, 58) matches Some(i) && (parse_i64(
            bytes.take(i),
        ) is None || parse_i64(bytes.skip(i + 1)) is None) ==> cursor_decoding(s) is None,
{
}

/// The wire form of a cursor given as text equals its byte form read as
/// characters, and decoding that text yields the pair back.
pub proof fn lemma_cursor_roundtrip_str(id: i64, created_at: i64)
    ensures
        cursor_decoding_str(chars_of_bytes(cursor_encoding(id, created_at))) == Some(
            (id, created_at),
        ),
{
    crate::base64url::lemma_b64_encode_ascii(cursor_payload(id, created_at));
    lemma_ascii_bytes_chars(cursor_encoding(id, created_at));
    lemma_cursor_roundtrip(id, created_at);
}

/// ASCII bytes read as characters encode back to the same bytes.
pub proof fn lemma_ascii_bytes_chars(b: Seq<u8>)
    requires
        forall|i: int| 0 <= i < b.len() ==> #[trigger] b[i] < 128,
    ensures
        encode_utf8(chars_of_bytes(b)) == b,
        is_ascii_chars(chars_of_bytes(b)),
{
    let cs = chars_of_bytes(b);
    assert forall|i: int| 0 <= i < cs.len() implies '\0' <= #[trigger] cs[i] <= '\u{7f}' by {
        assert(b[i] < 128);
    }
    assert(is_ascii_chars(cs));
    vstd::utf8::is_ascii_chars_encode_utf8(cs);
    assert forall|i: int| 0 <= i < cs.len() implies #[trigger] encode_utf8(cs)[i] == b[i] by {
        assert(cs[i] as u8 == encode_utf8(cs)[i]);
        assert(b[i] < 128);
    }
    assert(encode_utf8(cs) =~= b);
}

impl Cursor {
    pub fn new(id: ID, created_at: Timestamp) -> (c: Cursor)
        ensures
            c.id == id,
            c.created_at == created_at,
    {
        Cursor { created_at, id }
    }

    /// Renders the cursor as its opaque wire token.
    pub fn encode(&self) -> (r: String)
        ensures
            r@ == chars_of_bytes(cursor_encoding(self.id.0, self.created_at.0)),
    {
        let mut payload = format_i64(self.created_at.0);
        payload.push(58);
        let mut id_part = format_i64(self.id.0);
        payload.append(&mut id_part);
        assert(payload@ =~= cursor_payload(self.id.0, self.created_at.0));
        let encoded = b64_encode_bytes(payload.as_slice());
        proof {
            crate::base64url::lemma_b64_encode_ascii(payload@);
        }
        ascii_to_string(encoded)
    }

    /// Decodes an opaque wire token; any token `encode` did not produce for
    /// some pair is rejected as `InvalidCursor`.
    pub fn decode(s: &str) -> (r: Result<Cursor, DecodeError>)
        ensures
            match r {
                Ok(c) => cursor_decoding_str(s@) == Some((c.id.0, c.created_at.0)),
                Err(_) => cursor_decoding_str(s@) is None,
            },
    {
        let bytes = s.as_bytes();
        let decoded = match b64_decode_bytes(bytes) {
            Some(d) => d,
            None => {
                return Err(DecodeError::InvalidCursor);
            },
        };
        let n: usize = decoded.len();
        let mut sep: usize = 0;
        while sep < n && decoded[sep] != 58
            invariant
                0 <= sep <= n,
                n == decoded@.len(),
                forall|j: int| 0 <= j < sep ==> decoded@[j] != 58,
            decreases n - sep,
        {
            sep = sep + 1;
        }
        if sep >= n {
            proof {
                lemma_find_byte_props(decoded@, 58);
            }
            return Err(DecodeError::InvalidCursor);
        }
        proof {
            lemma_find_byte_first(decoded@, 58, sep as int);
        }
        let ts_part = slice_subrange(decoded.as_slice(), 0, sep);
        let id_part = slice_subrange(decoded.as_slice(), sep + 1, n);
        assert(ts_part@ =~= decoded@.take(sep as int));
        assert(id_part@ =~= decoded@.skip(sep as int + 1));
        let ts = match parse_i64_bytes(ts_part) {
            Some(v) => v,
            None => {
                return Err(DecodeError::InvalidCursor);
            },
        };
        let id = match parse_i64_bytes(id_part) {
            Some(v) => v,
            None => {
                return Err(DecodeError::InvalidCursor);
            },
        };
        Ok(Cursor { id: ID(id), created_at: Timestamp(ts) })
    }
}

} // verus!
