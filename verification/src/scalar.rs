//! The custom scalars: `ID`, carried as a 64-bit integer and rendered on the
//! wire as base64url of its eight big-endian bytes, and `Timestamp`, carried
//! as epoch seconds and rendered as an RFC 3339 string.

use vstd::prelude::*;

use crate::base64url::{
    ascii_to_string, b64_decode, b64_decode_bytes, b64_encode, b64_encode_bytes, chars_of_bytes,
};

verus! {

/// A record identifier, assigned by the store.
#[derive(Clone, Copy, Debug, Hash, PartialEq, Eq, Structural)]
pub struct ID(pub i64);

/// A creation time, in non-leap seconds since the Unix epoch.
#[derive(Clone, Copy, Debug, PartialEq, Eq, Structural)]
pub struct Timestamp(pub i64);

impl ID {
    pub fn value(&self) -> (v: i64)
        ensures
            v == self.0,
    {
        self.0
    }
}

impl Timestamp {
    pub fn value(&self) -> (v: i64)
        ensures
            v == self.0,
    {
        self.0
    }
}

impl From<i64> for ID {
    fn from(value: i64) -> (r: ID)
        ensures
            r == (ID { 0: value }),
    {
        ID(value)
    }
}

impl vstd::std_specs::convert::FromSpecImpl<i64> for ID {
    open spec fn obeys_from_spec() -> bool {
        true
    }

    open spec fn from_spec(v: i64) -> Self {
        ID(v)
    }
}

impl From<i64> for Timestamp {
    fn from(value: i64) -> (r: Timestamp)
        ensures
            r == (Timestamp { 0: value }),
    {
        Timestamp(value)
    }
}

impl vstd::std_specs::convert::FromSpecImpl<i64> for Timestamp {
    open spec fn obeys_from_spec() -> bool {
        true
    }

    open spec fn from_spec(v: i64) -> Self {
        Timestamp(v)
    }
}

/// The value of an `i64` read as an unsigned 64-bit word (two's complement).
pub open spec fn i64_unsigned(n: i64) -> nat {
    if n >= 0 {
        n as nat
    } else {
        (n + 0x1_0000_0000_0000_0000) as nat
    }
}

pub open spec fn pow256(k: nat) -> nat
    decreases k,
{
    if k == 0 {
        1
    } else {
        256 * pow256((k - 1) as nat)
    }
}

/// The `k` low-order bytes of `u`, big-endian: most significant first.
pub open spec fn be_bytes_rec(u: nat, k: nat) -> Seq<u8>
    decreases k,
{
    if k == 0 {
        Seq::empty()
    } else {
        be_bytes_rec(u / 256, (k - 1) as nat) + seq![(u % 256) as u8]
    }
}

/// The eight big-endian bytes of an identifier, as the `ID` scalar sends them.
pub open spec fn id_be_bytes(n: i64) -> Seq<u8> {
    be_bytes_rec(i64_unsigned(n), 8)
}

/// The value of a big-endian byte string.
pub open spec fn be_val(s: Seq<u8>) -> nat
    decreases s.len(),
{
    if s.len() == 0 {
        0
    } else {
        be_val(s.drop_last()) * 256 + (s.last() as nat)
    }
}

pub proof fn lemma_pow256_pos(k: nat)
    ensures
        pow256(k) >= 1,
    decreases k,
{
    if k > 0 {
        lemma_pow256_pos((k - 1) as nat);
    }
}

pub proof fn lemma_be_bytes_rec_val(u: nat, k: nat)
    ensures
        be_val(be_bytes_rec(u, k)) == u % pow256(k),
        be_bytes_rec(u, k).len() == k,
    decreases k,
{
    if k == 0 {
        assert(u % 1 == 0);
    } else {
        lemma_be_bytes_rec_val(u / 256, (k - 1) as nat);
        let s = be_bytes_rec(u, k);
        let p = pow256((k - 1) as nat);
        lemma_pow256_pos((k - 1) as nat);
        assert(s.drop_last() =~= be_bytes_rec(u / 256, (k - 1) as nat));
        assert(s.last() == (u % 256) as u8);
        assert(be_val(s) == (u / 256 % p) * 256 + u % 256);
        vstd::arithmetic::div_mod::lemma_mod_breakdown(u as int, 256, p as int);
        assert(u % (256 * p) == 256 * ((u / 256) % p) + u % 256);
        assert((u / 256 % p) * 256 == 256 * ((u / 256) % p)) by (nonlinear_arith);
        assert(pow256(k) == 256 * p);
    }
}

/// Wire decoding of an identifier: base64url to exactly eight bytes, read
/// big-endian as a two's complement 64-bit integer.
pub open spec fn id_decoding(s: Seq<u8>) -> Option<i64> {
    match b64_decode(s) {
        Some(bytes) => if bytes.len() == 8 {
            let u = be_val(bytes);
            if u >= 0x8000_0000_0000_0000 {
                Some((u - 0x1_0000_0000_0000_0000) as i64)
            } else {
                Some(u as i64)
            }
        } else {
            None
        },
        None => None,
    }
}

/// The word size: eight bytes cover exactly the 64-bit values.
pub proof fn lemma_pow256_8()
    ensures
        pow256(8) == 0x1_0000_0000_0000_0000,
{
    assert(pow256(0) == 1);
    assert(pow256(1) == 256);
    assert(pow256(2) == 0x1_0000);
    assert(pow256(3) == 0x100_0000);
    assert(pow256(4) == 0x1_0000_0000);
    assert(pow256(5) == 0x100_0000_0000);
    assert(pow256(6) == 0x1_0000_0000_0000);
    assert(pow256(7) == 0x100_0000_0000_0000);
}

/// Decoding an `ID`'s wire form yields the identifier back, for every value.
pub proof fn lemma_id_roundtrip(n: i64)
    ensures
        id_decoding(b64_encode(id_be_bytes(n))) == Some(n),
{
    crate::base64url::lemma_b64_roundtrip(id_be_bytes(n));
    lemma_be_bytes_rec_val(i64_unsigned(n), 8);
    lemma_pow256_8();
    assert(i64_unsigned(n) % pow256(8) == i64_unsigned(n));
}

/// The declared error of scalar wire decoding: the token was not a valid
/// rendering of the scalar.
#[derive(Clone, Copy, Debug, PartialEq, Eq, Structural)]
pub enum ScalarError {
    InvalidValue,
}

fn push_be_bytes(u: u64, k: usize, out: &mut Vec<u8>)
    requires
        k <= 8,
    ensures
        final(out)@ == old(out)@ + be_bytes_rec(u as nat, k as nat),
    decreases k,
{
    if k == 0 {
        assert(out@ =~= old(out)@ + be_bytes_rec(u as nat, 0));
    } else {
        push_be_bytes(u / 256, k - 1, out);
        out.push((u % 256) as u8);
        assert(out@ =~= old(out)@ + be_bytes_rec(u as nat, k as nat));
    }
}

impl ID {
    /// Renders the identifier for the wire: base64url of its eight big-endian
    /// bytes.
    pub fn encode(&self) -> (r: String)
        ensures
            r@ == chars_of_bytes(b64_encode(id_be_bytes(self.0))),
    {
        let n = self.0;
        let u: u64 = if n >= 0 {
            n as u64
        } else {
            ((n as i128) + 0x1_0000_0000_0000_0000i128) as u64
        };
        assert(u as nat == i64_unsigned(n));
        let mut bytes: Vec<u8> = Vec::new();
        push_be_bytes(u, 8, &mut bytes);
        assert(bytes@ =~= id_be_bytes(n));
        let encoded = b64_encode_bytes(bytes.as_slice());
        proof {
            crate::base64url::lemma_b64_encode_ascii(bytes@);
        }
        ascii_to_string(encoded)
    }

    /// Decodes a wire token into an identifier; rejects tokens that are not
    /// base64url of exactly eight bytes.
    pub fn decode(s: &[u8]) -> (r: Result<ID, ScalarError>)
        ensures
            match r {
                Ok(id) => id_decoding(s@) == Some(id.0),
                Err(_) => id_decoding(s@) is None,
            },
    {
        let bytes = match b64_decode_bytes(s) {
            Some(b) => b,
            None => {
                return Err(ScalarError::InvalidValue);
            },
        };
        if bytes.len() != 8 {
            return Err(ScalarError::InvalidValue);
        }
        let mut acc: u64 = 0;
        let mut i: usize = 0;
        while i < 8
            invariant
                0 <= i <= 8,
                bytes@.len() == 8,
                acc as nat == be_val(bytes@.take(i as int)),
                (acc as nat) < pow256(i as nat),
            decreases 8 - i,
        {
            let b: u8 = bytes[i];
            let ghost pre = bytes@.take(i as int + 1);
            proof {
                assert(pre.drop_last() =~= bytes@.take(i as int));
                assert(pre.last() == bytes@[i as int]);
                lemma_pow256_pos(i as nat);
                assert((acc as nat) * 256 + b < pow256((i + 1) as nat)) by (nonlinear_arith)
                    requires
                        (acc as nat) < pow256(i as nat),
                        b < 256,
                        pow256((i + 1) as nat) == 256 * pow256(i as nat),
                ;
                lemma_pow256_8();
                assert(pow256((i + 1) as nat) <= pow256(8)) by {
                    lemma_pow256_mono((i + 1) as nat, 8);
                }
            }
            acc = acc * 256 + (b as u64);
            i = i + 1;
        }
        assert(bytes@.take(8) =~= bytes@);
        if acc >= 0x8000_0000_0000_0000u64 {
            Ok(ID((acc as i128 - 0x1_0000_0000_0000_0000i128) as i64))
        } else {
            Ok(ID(acc as i64))
        }
    }
}

proof fn lemma_pow256_mono(a: nat, b: nat)
    requires
        a <= b,
    ensures
        pow256(a) <= pow256(b),
    decreases b,
{
    if a < b {
        lemma_pow256_mono(a, (b - 1) as nat);
        lemma_pow256_pos((b - 1) as nat);
    }
}

/// The RFC 3339 rendering of an epoch second, in UTC, or `None` for the few
/// epoch seconds outside the calendar's range; a function of the value alone.
pub uninterp spec fn rfc3339_of(secs: i64) -> Option<Seq<char>>;

/// What parsing an RFC 3339 string yields as epoch seconds, if it parses; a
/// function of the string alone.
pub uninterp spec fn rfc3339_parse(s: Seq<char>) -> Option<i64>;

/// Relies on chrono's `DateTime::<Utc>::from_timestamp` (documented to return
/// `None` only on an out-of-range number of seconds) and
/// `DateTime::to_rfc3339`; both depend on the timestamp alone, so whether a
/// rendering exists, and which, is a function of the seconds.
#[verifier::external_body]
fn chrono_format_rfc3339(secs: i64) -> (r: Option<String>)
    ensures
        r is Some <==> rfc3339_of(secs) is Some,
        r matches Some(s) ==> Some(s@) == rfc3339_of(secs),
{
    chrono::DateTime::<chrono::Utc>::from_timestamp(secs, 0).map(|dt| dt.to_rfc3339())
}

/// Relies on chrono's `DateTime::parse_from_rfc3339` and
/// `DateTime::timestamp`, whose results depend on the input string alone.
#[verifier::external_body]
fn chrono_parse_rfc3339(s: &str) -> (r: Option<i64>)
    ensures
        r == rfc3339_parse(s@),
{
    chrono::DateTime::parse_from_rfc3339(s).ok().map(|dt| dt.timestamp())
}

impl Timestamp {
    /// Renders the timestamp as RFC 3339, exactly when a rendering exists:
    /// only the few epoch seconds outside the calendar's range fail.
    pub fn to_rfc3339(&self) -> (r: Result<String, ScalarError>)
        ensures
            r is Ok <==> rfc3339_of(self.0) is Some,
            r matches Ok(s) ==> Some(s@) == rfc3339_of(self.0),
    {
        match chrono_format_rfc3339(self.0) {
            Some(s) => Ok(s),
            None => Err(ScalarError::InvalidValue),
        }
    }

    /// Parses an RFC 3339 string into a timestamp, exactly when the calendar
    /// accepts it.
    pub fn parse_rfc3339(s: &str) -> (r: Result<Timestamp, ScalarError>)
        ensures
            match r {
                Ok(t) => rfc3339_parse(s@) == Some(t.0),
                Err(_) => rfc3339_parse(s@) is None,
            },
    {
        match chrono_parse_rfc3339(s) {
            Some(secs) => Ok(Timestamp(secs)),
            None => Err(ScalarError::InvalidValue),
        }
    }
}

} // verus!
