//! Decimal rendering and parsing of `u64` values, with a proved round trip.
//! Token payloads carry the expiry timestamp in this form.

use vstd::prelude::*;
use vstd::arithmetic::div_mod::lemma_fundamental_div_mod;

verus! {

pub open spec fn is_digit(b: u8) -> bool {
    48 <= b <= 57
}

/// Decimal digits of `n`, most significant first, no sign, no leading zero
/// (except for `n == 0` itself).
pub open spec fn dec_digits(n: u64) -> Seq<u8>
    decreases n,
    via dec_digits_decreases
{
    if n < 10 {
        seq![(48 + n) as u8]
    } else {
        dec_digits(n / 10) + seq![(48 + n % 10) as u8]
    }
}

#[via_fn]
proof fn dec_digits_decreases(n: u64) {
    if n >= 10 {
        lemma_fundamental_div_mod(n as int, 10);
    }
}

/// Value of a digit string, left to right, starting from `acc`;
/// `None` on a non-digit or when the value exceeds `u64`.
pub open spec fn parse_dec_h(acc: u64, s: Seq<u8>) -> Option<u64>
    decreases s.len(),
{
    if s.len() == 0 {
        Some(acc)
    } else if !is_digit(s[0]) {
        None
    } else {
        let d = (s[0] - 48) as u64;
        if (acc as int) * 10 + (d as int) > u64::MAX as int {
            None
        } else {
            parse_dec_h((acc * 10 + d) as u64, s.skip(1))
        }
    }
}

/// Value of a non-empty all-digit string; `None` otherwise or on overflow.
pub open spec fn parse_dec(s: Seq<u8>) -> Option<u64> {
    if s.len() == 0 {
        None
    } else {
        parse_dec_h(0, s)
    }
}

/// Appending one digit multiplies the parsed value by ten and adds the digit.
proof fn lemma_parse_h_append(acc: u64, s: Seq<u8>, d: u8)
    requires
        is_digit(d),
    ensures
        parse_dec_h(acc, s + seq![d]) == (match parse_dec_h(acc, s) {
            Some(v) => if (v as int) * 10 + ((d - 48) as int) > u64::MAX as int {
                None
            } else {
                Some((v * 10 + ((d - 48) as u64)) as u64)
            },
            None => None::<u64>,
        }),
    decreases s.len(),
{
    if s.len() == 0 {
        assert((s + seq![d])[0] == d);
        assert((s + seq![d]).skip(1) =~= Seq::<u8>::empty());
    } else {
        assert((s + seq![d])[0] == s[0]);
        assert((s + seq![d]).skip(1) =~= s.skip(1) + seq![d]);
        if is_digit(s[0]) {
            let d0 = (s[0] - 48) as u64;
            if (acc as int) * 10 + (d0 as int) <= u64::MAX as int {
                lemma_parse_h_append((acc * 10 + d0) as u64, s.skip(1), d);
            }
        }
    }
}

/// Parsing inverts rendering.
pub proof fn lemma_dec_roundtrip(n: u64)
    ensures
        parse_dec(dec_digits(n)) == Some(n),
        dec_digits(n).len() >= 1,
        forall|i: int| 0 <= i < dec_digits(n).len() ==> is_digit(#[trigger] dec_digits(n)[i]),
    decreases n,
{
    if n < 10 {
        let s = dec_digits(n);
        assert(s == seq![(48 + n) as u8]);
        assert(s[0] == (48 + n) as u8);
        assert(s.skip(1) =~= Seq::<u8>::empty());
        assert(parse_dec_h(n, s.skip(1)) == Some(n));
        assert(parse_dec_h(0, s) == Some(n));
    } else {
        lemma_fundamental_div_mod(n as int, 10);
        lemma_dec_roundtrip(n / 10);
        let q = n / 10;
        let r = n % 10;
        let d = (48 + r) as u8;
        lemma_parse_h_append(0, dec_digits(q), d);
        assert(parse_dec_h(0, dec_digits(q)) == Some(q));
        assert((q as int) * 10 + (r as int) == n as int);
        assert(parse_dec_h(0, dec_digits(n)) == Some(n));
        assert forall|i: int| 0 <= i < dec_digits(n).len() implies is_digit(
            #[trigger] dec_digits(n)[i],
        ) by {
            if i < dec_digits(q).len() {
                assert(dec_digits(n)[i] == dec_digits(q)[i]);
            } else {
                assert(dec_digits(n)[i] == d);
            }
        }
    }
}

/// Render `n` in decimal.
pub fn dec_to_bytes(n: u64) -> (r: Vec<u8>)
    ensures
        r@ == dec_digits(n),
    decreases n,
{
    if n < 10 {
        let mut r: Vec<u8> = Vec::new();
        r.push(48 + n as u8);
        proof {
            assert(r@ =~= dec_digits(n));
        }
        r
    } else {
        proof {
            lemma_fundamental_div_mod(n as int, 10);
        }
        let mut r = dec_to_bytes(n / 10);
        r.push(48 + (n % 10) as u8);
        proof {
            assert(r@ =~= dec_digits(n));
        }
        r
    }
}

/// The executable overflow guard agrees with the exact one.
proof fn lemma_guard_equiv(acc: u64, d: u64)
    requires
        d <= 9,
    ensures
        (acc > (u64::MAX - d) / 10) <==> ((acc as int) * 10 + (d as int) > u64::MAX as int),
{
    lemma_fundamental_div_mod((u64::MAX - d) as int, 10);
}

/// Parse a non-empty all-digit byte string as a `u64`.
pub fn parse_dec_bytes(v: &Vec<u8>) -> (r: Option<u64>)
    ensures
        r == parse_dec(v@),
{
    let n = v.len();
    if n == 0 {
        return None;
    }
    let mut acc: u64 = 0;
    let mut i: usize = 0;
    proof {
        assert(v@.skip(0) =~= v@);
    }
    while i < n
        invariant
            i <= n == v@.len(),
            n > 0,
            parse_dec(v@) == parse_dec_h(acc, v@.skip(i as int)),
        decreases n - i,
    {
        let b = v[i];
        proof {
            assert(v@.skip(i as int)[0] == b);
            assert(v@.skip(i as int).skip(1) =~= v@.skip(i + 1));
        }
        if !(48 <= b && b <= 57) {
            return None;
        }
        let d = (b - 48) as u64;
        proof {
            lemma_guard_equiv(acc, d);
        }
        if acc > (u64::MAX - d) / 10 {
            return None;
        }
        acc = acc * 10 + d;
        i += 1;
    }
    proof {
        assert(v@.skip(n as int) =~= Seq::<u8>::empty());
    }
    Some(acc)
}

} // verus!
