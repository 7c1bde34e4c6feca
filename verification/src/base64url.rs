//! Base64url encoding and decoding without padding, over bytes, as the cursor
//! and `ID` scalars use on the wire. The decoder is canonical: it rejects any
//! string whose unused trailing bits are not zero, as well as any byte outside
//! the base64url alphabet and any length congruent to 1 modulo 4.

use vstd::prelude::*;

verus! {

/// The base64url alphabet: `A`-`Z`, `a`-`z`, `0`-`9`, `-`, `_`.
pub open spec fn b64_char(v: nat) -> u8 {
    if v < 26 {
        (65 + v) as u8
    } else if v < 52 {
        (97 + (v - 26)) as u8
    } else if v < 62 {
        (48 + (v - 52)) as u8
    } else if v == 62 {
        45
    } else {
        95
    }
}

/// The value of an alphabet byte, `None` for bytes outside the alphabet.
pub open spec fn b64_val(c: u8) -> Option<u8> {
    if 65 <= c <= 90 {
        Some((c - 65) as u8)
    } else if 97 <= c <= 122 {
        Some((c - 97 + 26) as u8)
    } else if 48 <= c <= 57 {
        Some((c - 48 + 52) as u8)
    } else if c == 45 {
        Some(62u8)
    } else if c == 95 {
        Some(63u8)
    } else {
        None
    }
}

pub proof fn lemma_b64_char_val(v: nat)
    requires
        v < 64,
    ensures
        b64_val(b64_char(v)) == Some(v as u8),
        b64_char(v) < 128,
{
}

/// Base64url encoding without padding: groups of three bytes become four
/// alphabet bytes; a final group of one or two bytes becomes two or three.
pub open spec fn b64_encode(s: Seq<u8>) -> Seq<u8>
    decreases s.len(),
{
    if s.len() == 0 {
        Seq::empty()
    } else if s.len() == 1 {
        let b0: nat = s[0] as nat;
        seq![b64_char(b0 / 4), b64_char((b0 % 4) * 16)]
    } else if s.len() == 2 {
        let b0: nat = s[0] as nat;
        let b1: nat = s[1] as nat;
        seq![b64_char(b0 / 4), b64_char((b0 % 4) * 16 + b1 / 16), b64_char((b1 % 16) * 4)]
    } else {
        let b0: nat = s[0] as nat;
        let b1: nat = s[1] as nat;
        let b2: nat = s[2] as nat;
        seq![
            b64_char(b0 / 4),
            b64_char((b0 % 4) * 16 + b1 / 16),
            b64_char((b1 % 16) * 4 + b2 / 64),
            b64_char(b2 % 64),
        ] + b64_encode(s.skip(3))
    }
}

/// Base64url decoding without padding. `None` on any byte outside the
/// alphabet, a length congruent to 1 modulo 4, or nonzero trailing bits.
pub open spec fn b64_decode(s: Seq<u8>) -> Option<Seq<u8>>
    decreases s.len(),
{
    if s.len() == 0 {
        Some(Seq::empty())
    } else if s.len() == 1 {
        None
    } else if s.len() == 2 {
        match (b64_val(s[0]), b64_val(s[1])) {
            (Some(v0), Some(v1)) => if v1 % 16 == 0 {
                Some(seq![(v0 * 4 + v1 / 16) as u8])
            } else {
                None
            },
            _ => None,
        }
    } else if s.len() == 3 {
        match (b64_val(s[0]), b64_val(s[1]), b64_val(s[2])) {
            (Some(v0), Some(v1), Some(v2)) => if v2 % 4 == 0 {
                Some(seq![(v0 * 4 + v1 / 16) as u8, ((v1 % 16) * 16 + v2 / 4) as u8])
            } else {
                None
            },
            _ => None,
        }
    } else {
        match (b64_val(s[0]), b64_val(s[1]), b64_val(s[2]), b64_val(s[3])) {
            (Some(v0), Some(v1), Some(v2), Some(v3)) => match b64_decode(s.skip(4)) {
                Some(rest) => Some(
                    seq![
                        (v0 * 4 + v1 / 16) as u8,
                        ((v1 % 16) * 16 + v2 / 4) as u8,
                        ((v2 % 4) * 64 + v3) as u8,
                    ] + rest,
                ),
                None => None,
            },
            _ => None,
        }
    }
}

/// Every byte an encoding produces lies in the ASCII range.
pub proof fn lemma_b64_encode_ascii(s: Seq<u8>)
    ensures
        forall|i: int| 0 <= i < b64_encode(s).len() ==> #[trigger] b64_encode(s)[i] < 128,
    decreases s.len(),
{
    if s.len() >= 3 {
        lemma_b64_encode_ascii(s.skip(3));
        assert forall|i: int| 0 <= i < b64_encode(s).len() implies #[trigger] b64_encode(s)[i]
            < 128 by {
            if i >= 4 {
                assert(b64_encode(s)[i] == b64_encode(s.skip(3))[i - 4]);
            }
        }
    }
}

/// Decoding inverts encoding, for every byte string.
pub proof fn lemma_b64_roundtrip(s: Seq<u8>)
    ensures
        b64_decode(b64_encode(s)) == Some(s),
    decreases s.len(),
{
    let e = b64_encode(s);
    if s.len() == 0 {
        assert(e =~= Seq::<u8>::empty());
        assert(b64_decode(e) == Some(Seq::<u8>::empty()));
        assert(b64_decode(e)->0 =~= s);
    } else if s.len() == 1 {
        let b0: nat = s[0] as nat;
        lemma_b64_char_val(b0 / 4);
        lemma_b64_char_val((b0 % 4) * 16);
        assert(((b0 % 4) * 16) % 16 == 0 && ((b0 % 4) * 16) / 16 == b0 % 4) by (nonlinear_arith);
        assert((b0 / 4) * 4 + b0 % 4 == b0);
        assert(b64_decode(e)->0 =~= s);
    } else if s.len() == 2 {
        let b0: nat = s[0] as nat;
        let b1: nat = s[1] as nat;
        lemma_b64_char_val(b0 / 4);
        lemma_b64_char_val((b0 % 4) * 16 + b1 / 16);
        lemma_b64_char_val((b1 % 16) * 4);
        let v1 = (b0 % 4) * 16 + b1 / 16;
        assert(v1 % 16 == b1 / 16 && v1 / 16 == b0 % 4) by (nonlinear_arith)
            requires
                v1 == (b0 % 4) * 16 + b1 / 16,
                b1 < 256,
        ;
        assert(((b1 % 16) * 4) % 4 == 0 && ((b1 % 16) * 4) / 4 == b1 % 16) by (nonlinear_arith);
        assert((b0 / 4) * 4 + b0 % 4 == b0);
        assert((b1 / 16) * 16 + b1 % 16 == b1);
        assert(b64_decode(e)->0 =~= s);
    } else {
        let b0: nat = s[0] as nat;
        let b1: nat = s[1] as nat;
        let b2: nat = s[2] as nat;
        let v0 = b0 / 4;
        let v1 = (b0 % 4) * 16 + b1 / 16;
        let v2 = (b1 % 16) * 4 + b2 / 64;
        let v3 = b2 % 64;
        lemma_b64_char_val(v0);
        lemma_b64_char_val(v1);
        lemma_b64_char_val(v2);
        lemma_b64_char_val(v3);
        lemma_b64_roundtrip(s.skip(3));
        assert(e.skip(4) =~= b64_encode(s.skip(3)));
        assert(e.len() >= 4 && e.len() != 1 && e.len() != 2 && e.len() != 3) by {
            if s.skip(3).len() > 0 {
                assert(b64_encode(s.skip(3)).len() >= 2) by {
                    lemma_b64_encode_len_lower(s.skip(3));
                }
            }
        }
        assert(v1 % 16 == b1 / 16 && v1 / 16 == b0 % 4) by (nonlinear_arith)
            requires
                v1 == (b0 % 4) * 16 + b1 / 16,
                b1 < 256,
        ;
        assert(v2 % 4 == b2 / 64 && v2 / 4 == b1 % 16) by (nonlinear_arith)
            requires
                v2 == (b1 % 16) * 4 + b2 / 64,
                b2 < 256,
        ;
        assert(v0 * 4 + v1 / 16 == b0);
        assert((v1 % 16) * 16 + v2 / 4 == b1);
        assert((v2 % 4) * 64 + v3 == b2) by (nonlinear_arith)
            requires
                v2 % 4 == b2 / 64,
                v3 == b2 % 64,
                b2 < 256,
        ;
        assert(b64_decode(e)->0 =~= s);
    }
}

proof fn lemma_b64_encode_len_lower(s: Seq<u8>)
    requires
        s.len() > 0,
    ensures
        b64_encode(s).len() >= 2,
    decreases s.len(),
{
    if s.len() >= 3 {
        if s.skip(3).len() > 0 {
            lemma_b64_encode_len_lower(s.skip(3));
        }
    }
}

fn b64_char_exec(v: u8) -> (c: u8)
    requires
        v < 64,
    ensures
        c == b64_char(v as nat),
{
    if v < 26 {
        65 + v
    } else if v < 52 {
        97 + (v - 26)
    } else if v < 62 {
        48 + (v - 52)
    } else if v == 62 {
        45
    } else {
        95
    }
}

fn b64_val_exec(c: u8) -> (r: Option<u8>)
    ensures
        r == b64_val(c),
{
    if 65 <= c && c <= 90 {
        Some(c - 65)
    } else if 97 <= c && c <= 122 {
        Some(c - 97 + 26)
    } else if 48 <= c && c <= 57 {
        Some(c - 48 + 52)
    } else if c == 45 {
        Some(62)
    } else if c == 95 {
        Some(63)
    } else {
        None
    }
}

/// Encodes `s` as base64url without padding.
pub fn b64_encode_bytes(s: &[u8]) -> (r: Vec<u8>)
    ensures
        r@ == b64_encode(s@),
{
    let n: usize = s.len();
    let mut out: Vec<u8> = Vec::new();
    let mut i: usize = 0;
    proof {
        assert(s@.skip(0) =~= s@);
        assert(out@ + b64_encode(s@) =~= b64_encode(s@));
    }
    while n - i >= 3
        invariant
            0 <= i <= n,
            i % 3 == 0,
            n == s@.len(),
            b64_encode(s@) == out@ + b64_encode(s@.skip(i as int)),
        decreases n - i,
    {
        let ghost rem = s@.skip(i as int);
        let b0: u8 = s[i];
        let b1: u8 = s[i + 1];
        let b2: u8 = s[i + 2];
        assert(rem[0] == s@[i as int] && rem[1] == s@[i + 1] && rem[2] == s@[i + 2]);
        out.push(b64_char_exec(b0 / 4));
        out.push(b64_char_exec((b0 % 4) * 16 + b1 / 16));
        out.push(b64_char_exec((b1 % 16) * 4 + b2 / 64));
        out.push(b64_char_exec(b2 % 64));
        i = i + 3;
        proof {
            assert(rem.skip(3) =~= s@.skip(i as int));
            let quad = seq![
                b64_char(rem[0] as nat / 4),
                b64_char((rem[0] as nat % 4) * 16 + rem[1] as nat / 16),
                b64_char((rem[1] as nat % 16) * 4 + rem[2] as nat / 64),
                b64_char(rem[2] as nat % 64),
            ];
            let old_out = out@.subrange(0, out@.len() - 4);
            assert(out@ =~= old_out + quad);
            assert(b64_encode(rem) == quad + b64_encode(rem.skip(3)));
            assert(old_out + (quad + b64_encode(rem.skip(3))) =~= out@ + b64_encode(
                s@.skip(i as int),
            ));
        }
    }
    let ghost rem = s@.skip(i as int);
    if i < n {
        let b0: u8 = s[i];
        assert(rem[0] == s@[i as int]);
        if n - i == 1 {
            out.push(b64_char_exec(b0 / 4));
            out.push(b64_char_exec((b0 % 4) * 16));
            proof {
                let pair = seq![b64_char(rem[0] as nat / 4), b64_char((rem[0] as nat % 4) * 16)];
                let old_out = out@.subrange(0, out@.len() - 2);
                assert(out@ =~= old_out + pair);
                assert(b64_encode(rem) == pair);
                assert(old_out + b64_encode(rem) =~= out@);
            }
        } else {
            let b1: u8 = s[i + 1];
            assert(rem[1] == s@[i + 1]);
            out.push(b64_char_exec(b0 / 4));
            out.push(b64_char_exec((b0 % 4) * 16 + b1 / 16));
            out.push(b64_char_exec((b1 % 16) * 4));
            proof {
                let triple = seq![
                    b64_char(rem[0] as nat / 4),
                    b64_char((rem[0] as nat % 4) * 16 + rem[1] as nat / 16),
                    b64_char((rem[1] as nat % 16) * 4),
                ];
                let old_out = out@.subrange(0, out@.len() - 3);
                assert(out@ =~= old_out + triple);
                assert(b64_encode(rem) == triple);
                assert(old_out + b64_encode(rem) =~= out@);
            }
        }
    } else {
        proof {
            assert(rem =~= Seq::<u8>::empty());
            assert(b64_encode(rem) =~= Seq::<u8>::empty());
            assert(out@ + b64_encode(rem) =~= out@);
        }
    }
    out
}

/// A decoded tail, prefixed by the bytes already produced.
pub open spec fn prepend_decoded(prefix: Seq<u8>, tail: Option<Seq<u8>>) -> Option<Seq<u8>> {
    match tail {
        Some(r) => Some(prefix + r),
        None => None,
    }
}

/// Decodes base64url without padding; `None` exactly where `b64_decode` is.
pub fn b64_decode_bytes(s: &[u8]) -> (r: Option<Vec<u8>>)
    ensures
        match r {
            Some(v) => b64_decode(s@) == Some(v@),
            None => b64_decode(s@) is None,
        },
{
    let n: usize = s.len();
    let mut out: Vec<u8> = Vec::new();
    let mut i: usize = 0;
    proof {
        assert(s@.skip(0) =~= s@);
        match b64_decode(s@) {
            Some(rest) => {
                assert(out@ + rest =~= rest);
            },
            None => {},
        }
    }
    while n - i >= 4
        invariant
            0 <= i <= n,
            i % 4 == 0,
            n == s@.len(),
            b64_decode(s@) == prepend_decoded(out@, b64_decode(s@.skip(i as int))),
        decreases n - i,
    {
        let ghost rem = s@.skip(i as int);
        assert(rem[0] == s@[i as int] && rem[1] == s@[i + 1] && rem[2] == s@[i + 2] && rem[3]
            == s@[i + 3]);
        let v0: u8 = match b64_val_exec(s[i]) {
            Some(v) => v,
            None => {
                return None;
            },
        };
        let v1: u8 = match b64_val_exec(s[i + 1]) {
            Some(v) => v,
            None => {
                return None;
            },
        };
        let v2: u8 = match b64_val_exec(s[i + 2]) {
            Some(v) => v,
            None => {
                return None;
            },
        };
        let v3: u8 = match b64_val_exec(s[i + 3]) {
            Some(v) => v,
            None => {
                return None;
            },
        };
        out.push(v0 * 4 + v1 / 16);
        out.push((v1 % 16) * 16 + v2 / 4);
        out.push((v2 % 4) * 64 + v3);
        i = i + 4;
        proof {
            assert(rem.skip(4) =~= s@.skip(i as int));
            let quad = seq![
                (v0 * 4 + v1 / 16) as u8,
                ((v1 % 16) * 16 + v2 / 4) as u8,
                ((v2 % 4) * 64 + v3) as u8,
            ];
            let old_out = out@.subrange(0, out@.len() - 3);
            assert(out@ =~= old_out + quad);
            match b64_decode(s@.skip(i as int)) {
                Some(rest) => {
                    assert(b64_decode(rem) == Some(quad + rest));
                    assert(old_out + (quad + rest) =~= out@ + rest);
                },
                None => {
                    assert(b64_decode(rem) is None);
                },
            }
        }
    }
    let ghost rem = s@.skip(i as int);
    let tail_len: usize = n - i;
    if tail_len == 0 {
        proof {
            assert(rem =~= Seq::<u8>::empty());
            assert(out@ + Seq::<u8>::empty() =~= out@);
        }
        Some(out)
    } else if tail_len == 1 {
        None
    } else {
        assert(rem[0] == s@[i as int] && rem[1] == s@[i + 1]);
        let v0: u8 = match b64_val_exec(s[i]) {
            Some(v) => v,
            None => {
                return None;
            },
        };
        let v1: u8 = match b64_val_exec(s[i + 1]) {
            Some(v) => v,
            None => {
                return None;
            },
        };
        if tail_len == 2 {
            if v1 % 16 != 0 {
                return None;
            }
            out.push(v0 * 4 + v1 / 16);
            proof {
                assert(b64_decode(rem) == Some(seq![(v0 * 4 + v1 / 16) as u8]));
                assert(out@ =~= out@.subrange(0, out@.len() - 1) + seq![(v0 * 4 + v1 / 16) as u8]);
            }
            Some(out)
        } else {
            assert(rem[2] == s@[i + 2]);
            let v2: u8 = match b64_val_exec(s[i + 2]) {
                Some(v) => v,
                None => {
                    return None;
                },
            };
            if v2 % 4 != 0 {
                return None;
            }
            out.push(v0 * 4 + v1 / 16);
            out.push((v1 % 16) * 16 + v2 / 4);
            proof {
                assert(b64_decode(rem) == Some(
                    seq![(v0 * 4 + v1 / 16) as u8, ((v1 % 16) * 16 + v2 / 4) as u8],
                ));
                assert(out@ =~= out@.subrange(0, out@.len() - 2) + seq![
                    (v0 * 4 + v1 / 16) as u8,
                    ((v1 % 16) * 16 + v2 / 4) as u8,
                ]);
            }
            Some(out)
        }
    }
}

/// The characters whose codes are the given ASCII bytes.
pub open spec fn chars_of_bytes(s: Seq<u8>) -> Seq<char> {
    Seq::new(s.len(), |i: int| s[i] as char)
}

/// Relies on `String::from_utf8`: ASCII bytes are valid UTF-8, and decode to
/// the characters with the same codes.
#[verifier::external_body]
pub(crate) fn ascii_to_string(v: Vec<u8>) -> (r: String)
    requires
        forall|i: int| 0 <= i < v@.len() ==> #[trigger] v@[i] < 128,
    ensures
        r@ == chars_of_bytes(v@),
{
    match String::from_utf8(v) {
        Ok(s) => s,
        Err(_) => String::new(),
    }
}

} // verus!
