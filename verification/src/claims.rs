//! Claims: the payload bound into a token, and its deterministic wire form
//! (a fixed-shape JSON object whose credential is base64url-coded and whose
//! expiry is a decimal timestamp), with a proved parse-of-render round trip.

use vstd::prelude::*;
use crate::base64url::{
    b64_decode, b64_decode_spec, b64_encode, b64_encode_spec, is_b64_byte,
    lemma_b64_byte_not_delim, lemma_b64_encode_alphabet, lemma_b64_roundtrip,
};
use crate::bytes::{
    append_all, bytes_eq, find_byte, find_byte_from, lemma_find_byte_unique, copy_range,
};
use crate::numeric::{dec_digits, dec_to_bytes, lemma_dec_roundtrip, parse_dec, parse_dec_bytes};

verus! {

/// What a token certifies: the credential it was issued for, and the absolute
/// expiry timestamp in seconds.
#[derive(Clone, Debug, PartialEq, Eq)]
pub struct Claims {
    pub api_key: Vec<u8>,
    pub exp: u64,
}

/// Mathematical model of `Claims`.
pub struct ClaimsView {
    pub api_key: Seq<u8>,
    pub exp: u64,
}

impl View for Claims {
    type V = ClaimsView;

    open spec fn view(&self) -> ClaimsView {
        ClaimsView { api_key: self.api_key@, exp: self.exp }
    }
}

/// The bytes of `{"api_key":"`.
pub open spec fn payload_pre() -> Seq<u8> {
    seq![123u8, 34, 97, 112, 105, 95, 107, 101, 121, 34, 58, 34]
}

/// The bytes of `","exp":`.
pub open spec fn payload_mid() -> Seq<u8> {
    seq![34u8, 44, 34, 101, 120, 112, 34, 58]
}

/// Canonical payload bytes for a claims value.
pub open spec fn payload_of(c: ClaimsView) -> Seq<u8> {
    payload_pre() + b64_encode_spec(c.api_key) + payload_mid() + dec_digits(c.exp) + seq![125u8]
}

/// Parse a payload; `None` unless the bytes have exactly the canonical shape.
pub open spec fn parse_payload_spec(s: Seq<u8>) -> Option<ClaimsView> {
    let q = find_byte(s, 34, 12);
    if s.len() < 22 || s.subrange(0, 12) != payload_pre() {
        None
    } else if q + 8 > s.len() - 1 {
        None
    } else if s.subrange(q, q + 8) != payload_mid() {
        None
    } else if s[s.len() - 1] != 125 {
        None
    } else {
        match (b64_decode_spec(s.subrange(12, q)), parse_dec(s.subrange(q + 8, s.len() - 1))) {
            (Some(k), Some(e)) => Some(ClaimsView { api_key: k, exp: e }),
            _ => None,
        }
    }
}

pub fn payload_pre_vec() -> (r: Vec<u8>)
    ensures
        r@ == payload_pre(),
{
    let mut r: Vec<u8> = Vec::new();
    r.push(123);
    r.push(34);
    r.push(97);
    r.push(112);
    r.push(105);
    r.push(95);
    r.push(107);
    r.push(101);
    r.push(121);
    r.push(34);
    r.push(58);
    r.push(34);
    proof {
        assert(r@ =~= payload_pre());
    }
    r
}

pub fn payload_mid_vec() -> (r: Vec<u8>)
    ensures
        r@ == payload_mid(),
{
    let mut r: Vec<u8> = Vec::new();
    r.push(34);
    r.push(44);
    r.push(34);
    r.push(101);
    r.push(120);
    r.push(112);
    r.push(34);
    r.push(58);
    proof {
        assert(r@ =~= payload_mid());
    }
    r
}

/// Render the canonical payload for `c`.
pub fn encode_payload(c: &Claims) -> (r: Vec<u8>)
    ensures
        r@ == payload_of(c@),
{
    let mut r = payload_pre_vec();
    let kb = b64_encode(&c.api_key);
    append_all(&mut r, &kb);
    let mid = payload_mid_vec();
    append_all(&mut r, &mid);
    let db = dec_to_bytes(c.exp);
    append_all(&mut r, &db);
    r.push(125);
    proof {
        assert(r@ =~= payload_of(c@));
    }
    r
}

/// Parse payload bytes, exactly as `parse_payload_spec` does.
pub fn parse_payload(v: &Vec<u8>) -> (r: Option<Claims>)
    ensures
        match r {
            Some(c) => parse_payload_spec(v@) == Some(c@),
            None => parse_payload_spec(v@) == None::<ClaimsView>,
        },
{
    let n = v.len();
    if n < 22 {
        return None;
    }
    let pre = payload_pre_vec();
    let head = copy_range(v, 0, 12);
    if !bytes_eq(&head, &pre) {
        return None;
    }
    let q = find_byte_from(v, 34, 12);
    proof {
        crate::bytes::lemma_find_byte_props(v@, 34, 12);
    }
    if q > n - 9 {
        return None;
    }
    let midv = payload_mid_vec();
    let mid = copy_range(v, q, q + 8);
    if !bytes_eq(&mid, &midv) {
        return None;
    }
    if v[n - 1] != 125 {
        return None;
    }
    let keyseg = copy_range(v, 12, q);
    let digits = copy_range(v, q + 8, n - 1);
    match b64_decode(&keyseg) {
        Some(k) => {
            match parse_dec_bytes(&digits) {
                Some(e) => Some(Claims { api_key: k, exp: e }),
                None => None,
            }
        },
        None => None,
    }
}

/// Parsing inverts rendering: the canonical payload of any claims value
/// parses back to exactly that value.
pub proof fn lemma_payload_roundtrip(c: ClaimsView)
    ensures
        parse_payload_spec(payload_of(c)) == Some(c),
{
    let s = payload_of(c);
    let kb = b64_encode_spec(c.api_key);
    let db = dec_digits(c.exp);
    lemma_dec_roundtrip(c.exp);
    lemma_b64_encode_alphabet(c.api_key);
    lemma_b64_roundtrip(c.api_key);
    assert(s.len() == 21 + kb.len() + db.len());
    assert(s.subrange(0, 12) =~= payload_pre());
    let q0 = 12 + kb.len() as int;
    assert forall|k: int| 12 <= k < q0 implies s[k] != 34 by {
        assert(s[k] == kb[k - 12]);
        assert(is_b64_byte(kb[k - 12]));
        lemma_b64_byte_not_delim(kb[k - 12]);
    }
    assert(s[q0] == payload_mid()[0]);
    lemma_find_byte_unique(s, 34, 12, q0);
    assert(s.subrange(q0, q0 + 8) =~= payload_mid());
    assert(s[s.len() - 1] == 125);
    assert(s.subrange(12, q0) =~= kb);
    assert(s.subrange(q0 + 8, s.len() - 1) =~= db);
    assert(parse_payload_spec(s) == Some(ClaimsView { api_key: c.api_key, exp: c.exp }));
    assert(ClaimsView { api_key: c.api_key, exp: c.exp } == c);
}

} // verus!
