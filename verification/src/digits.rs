//! Decimal formatting and parsing of 64-bit integers, the textual half of the
//! cursor encoding: a cursor's payload is `"{timestamp}:{id}"` in decimal.

use vstd::prelude::*;

verus! {

/// ASCII code of the minus sign.
pub open spec fn minus_byte() -> u8 {
    45
}

pub open spec fn is_digit(b: u8) -> bool {
    48 <= b <= 57
}

pub open spec fn all_digits(s: Seq<u8>) -> bool {
    forall|i: int| 0 <= i < s.len() ==> is_digit(#[trigger] s[i])
}

/// Decimal digits of `n`, most significant first, without sign or leading zeros
/// (a single `'0'` for zero).
pub open spec fn dec_digits(n: nat) -> Seq<u8>
    decreases n,
{
    if n < 10 {
        seq![(48 + n) as u8]
    } else {
        dec_digits(n / 10) + seq![(48 + n % 10) as u8]
    }
}

/// Numeric value of one digit byte (zero for bytes below `'0'`, so that the
/// value is total; parsing only applies it to digit bytes).
pub open spec fn digit_of(b: u8) -> nat {
    if b >= 48 {
        (b - 48) as nat
    } else {
        0
    }
}

/// Numeric value of a digit string, most significant first.
pub open spec fn digits_val(s: Seq<u8>) -> nat
    decreases s.len(),
{
    if s.len() == 0 {
        0
    } else {
        digits_val(s.drop_last()) * 10 + digit_of(s.last())
    }
}

/// The decimal rendering of an `i64` value: a minus sign for negative values,
/// then the digits of the magnitude.
pub open spec fn fmt_i64(n: int) -> Seq<u8> {
    if n < 0 {
        seq![minus_byte()] + dec_digits((-n) as nat)
    } else {
        dec_digits(n as nat)
    }
}

/// What parsing a decimal string as an `i64` yields: an optional `'+'` or
/// `'-'` sign, then at least one digit, nothing else, and the value must fit.
pub open spec fn parse_i64(s: Seq<u8>) -> Option<i64> {
    let neg = s.len() > 0 && s[0] == minus_byte();
    let ds = if s.len() > 0 && (s[0] == minus_byte() || s[0] == 43) {
        s.skip(1)
    } else {
        s
    };
    if ds.len() == 0 || !all_digits(ds) {
        None
    } else {
        let v = digits_val(ds) as int;
        if neg {
            if -v >= i64::MIN {
                Some((-v) as i64)
            } else {
                None
            }
        } else {
            if v <= i64::MAX {
                Some(v as i64)
            } else {
                None
            }
        }
    }
}

pub proof fn lemma_dec_digits_digits(n: nat)
    ensures
        all_digits(dec_digits(n)),
        dec_digits(n).len() >= 1,
        dec_digits(n)[0] != minus_byte(),
        dec_digits(n)[0] != 43,
    decreases n,
{
    if n >= 10 {
        lemma_dec_digits_digits(n / 10);
    }
}

pub proof fn lemma_dec_digits_val(n: nat)
    ensures
        digits_val(dec_digits(n)) == n,
    decreases n,
{
    if n < 10 {
        let s = dec_digits(n);
        assert(s.drop_last() =~= Seq::<u8>::empty());
        assert(digits_val(Seq::<u8>::empty()) == 0);
        assert(s.last() == (48 + n) as u8);
        assert(digit_of(s.last()) == n);
        assert(digits_val(s) == digits_val(s.drop_last()) * 10 + digit_of(s.last()));
    } else {
        lemma_dec_digits_val(n / 10);
        let s = dec_digits(n);
        assert(s.drop_last() =~= dec_digits(n / 10));
        assert(s.last() == (48 + n % 10) as u8);
        assert(digit_of(s.last()) == n % 10);
        assert(digits_val(s) == n / 10 * 10 + n % 10);
    }
}

/// Formatted integers contain no separator byte: every byte is a digit or the
/// leading minus sign.
pub proof fn lemma_fmt_i64_no_colon(n: int)
    ensures
        forall|i: int| 0 <= i < fmt_i64(n).len() ==> #[trigger] fmt_i64(n)[i] != 58,
{
    if n < 0 {
        lemma_dec_digits_digits((-n) as nat);
        assert forall|i: int| 0 <= i < fmt_i64(n).len() implies #[trigger] fmt_i64(n)[i] != 58 by {
            if i > 0 {
                assert(fmt_i64(n)[i] == dec_digits((-n) as nat)[i - 1]);
            }
        }
    } else {
        lemma_dec_digits_digits(n as nat);
    }
}

/// Parsing inverts formatting, for every value of `i64`.
pub proof fn lemma_parse_fmt_i64(n: i64)
    ensures
        parse_i64(fmt_i64(n as int)) == Some(n),
{
    if n < 0 {
        let m = (-(n as int)) as nat;
        lemma_dec_digits_digits(m);
        lemma_dec_digits_val(m);
        let s = fmt_i64(n as int);
        assert(s[0] == minus_byte());
        assert(s.skip(1) =~= dec_digits(m));
    } else {
        lemma_dec_digits_digits(n as nat);
        lemma_dec_digits_val(n as nat);
    }
}

/// Appends the decimal digits of `m` to `out`.
fn push_dec_digits(m: u64, out: &mut Vec<u8>)
    ensures
        final(out)@ == old(out)@ + dec_digits(m as nat),
    decreases m,
{
    if m < 10 {
        out.push(48 + m as u8);
        assert(out@ =~= old(out)@ + dec_digits(m as nat));
    } else {
        push_dec_digits(m / 10, out);
        out.push(48 + (m % 10) as u8);
        assert(out@ =~= old(out)@ + dec_digits(m as nat));
    }
}

/// Renders `n` in decimal, the form the cursor payload carries its two
/// components in.
pub fn format_i64(n: i64) -> (r: Vec<u8>)
    ensures
        r@ == fmt_i64(n as int),
{
    let mut out: Vec<u8> = Vec::new();
    if n < 0 {
        out.push(45);
        let m: u64 = if n == i64::MIN {
            9223372036854775808u64
        } else {
            (-n) as u64
        };
        assert(m as nat == (-(n as int)) as nat);
        push_dec_digits(m, &mut out);
        assert(out@ =~= fmt_i64(n as int));
    } else {
        push_dec_digits(n as u64, &mut out);
        assert(out@ =~= fmt_i64(n as int));
    }
    out
}

pub open spec fn pow10(k: nat) -> nat
    decreases k,
{
    if k == 0 {
        1
    } else {
        10 * pow10((k - 1) as nat)
    }
}

proof fn lemma_digits_val_append(s: Seq<u8>, r: Seq<u8>)
    ensures
        digits_val(s + r) == digits_val(s) * pow10(r.len()) + digits_val(r),
    decreases r.len(),
{
    if r.len() == 0 {
        assert(s + r =~= s);
        assert(pow10(0) == 1);
        assert(digits_val(r) == 0);
        assert(digits_val(s) * 1 == digits_val(s)) by (nonlinear_arith);
    } else {
        let r0 = r.drop_last();
        lemma_digits_val_append(s, r0);
        assert((s + r).drop_last() =~= s + r0);
        assert((s + r).last() == r.last());
        let a = digits_val(s);
        let p = pow10(r0.len());
        assert(digits_val(s + r) == (a * p + digits_val(r0)) * 10 + digit_of(r.last()));
        assert(pow10(r.len()) == 10 * p);
        assert((a * p + digits_val(r0)) * 10 == a * (10 * p) + digits_val(r0) * 10)
            by (nonlinear_arith);
        assert(digits_val(r) == digits_val(r0) * 10 + digit_of(r.last()));
        assert(a * pow10(r.len()) == a * (10 * p)) by (nonlinear_arith)
            requires
                pow10(r.len()) == 10 * p,
        ;
        assert(digits_val(s + r) == a * pow10(r.len()) + digits_val(r));
    }
}

/// Once a digit prefix already exceeds a bound, the whole string does too.
proof fn lemma_digits_val_prefix_exceeds(s: Seq<u8>, i: int, bound: nat)
    requires
        0 <= i <= s.len(),
        digits_val(s.take(i)) > bound,
    ensures
        digits_val(s) > bound,
{
    let pre = s.take(i);
    let rest = s.skip(i);
    assert(s =~= pre + rest);
    lemma_digits_val_append(pre, rest);
    lemma_pow10_pos(rest.len());
    assert(digits_val(pre) * pow10(rest.len()) >= digits_val(pre)) by (nonlinear_arith)
        requires
            pow10(rest.len()) >= 1,
            digits_val(pre) >= 0,
    ;
}

proof fn lemma_pow10_pos(k: nat)
    ensures
        pow10(k) >= 1,
    decreases k,
{
    if k > 0 {
        lemma_pow10_pos((k - 1) as nat);
    }
}

/// Parses a decimal string exactly as the cursor decoder needs it: an optional
/// sign, then digits, rejecting anything else and values outside `i64`.
pub fn parse_i64_bytes(s: &[u8]) -> (r: Option<i64>)
    ensures
        r == parse_i64(s@),
{
    let n: usize = s.len();
    let neg = n > 0 && s[0] == 45;
    let signed = n > 0 && (s[0] == 45 || s[0] == 43);
    let start: usize = if signed {
        1
    } else {
        0
    };
    let ghost ds = if signed {
        s@.skip(1)
    } else {
        s@
    };
    if start >= n {
        return None;
    }
    let limit: u64 = if neg {
        9223372036854775808u64
    } else {
        9223372036854775807u64
    };
    let mut acc: u64 = 0;
    let mut i: usize = start;
    while i < n
        invariant
            start <= i <= n,
            n == s@.len(),
            signed == (s@.len() > 0 && (s@[0] == 45 || s@[0] == 43)),
            neg == (s@.len() > 0 && s@[0] == 45),
            start == if signed { 1int } else { 0int },
            ds == if signed { s@.skip(1) } else { s@ },
            ds.len() == n - start,
            forall|j: int| 0 <= j < i - start ==> is_digit(#[trigger] ds[j]),
            acc <= limit,
            acc as nat == digits_val(ds.take(i - start)),
            limit == if neg { 9223372036854775808u64 } else { 9223372036854775807u64 },
        decreases n - i,
    {
        let b: u8 = s[i];
        assert(b == ds[i - start]);
        if b < 48 || b > 57 {
            assert(!all_digits(ds));
            return None;
        }
        let d: u64 = (b - 48) as u64;
        let ghost prefix = ds.take(i - start + 1);
        assert(prefix.drop_last() =~= ds.take(i - start));
        assert(prefix.last() == ds[i - start]);
        assert(digits_val(prefix) == acc * 10 + d);
        if acc > (limit - d) / 10 {
            assert(acc * 10 + d > limit) by (nonlinear_arith)
                requires
                    acc > (limit - d) / 10,
                    d <= limit,
                    acc >= 0;
            proof {
                lemma_digits_val_prefix_exceeds(ds, i - start + 1, limit as nat);
            }
            return None;
        }
        assert(acc * 10 + d <= limit) by (nonlinear_arith)
            requires
                acc <= (limit - d) / 10,
                d <= 9,
                acc >= 0;
        acc = acc * 10 + d;
        i = i + 1;
    }
    assert(ds.take(n - start) =~= ds);
    assert(all_digits(ds));
    if neg {
        if acc == 9223372036854775808u64 {
            Some(i64::MIN)
        } else {
            Some(-(acc as i64))
        }
    } else {
        Some(acc as i64)
    }
}

} // verus!
