//! The token codec: claims are rendered, base64url-coded and signed into a
//! three-segment wire form `header.payload.signature`; decoding splits,
//! pins the algorithm header, checks the signature and the expiry.
//!
//! The HMAC signature itself comes from the `jsonwebtoken` crate behind a
//! trusted wrapper; everything around it is verified.

use vstd::prelude::*;
use crate::base64url::{
    b64_decode, b64_encode, b64_encode_spec, b64_decode_spec,
    lemma_b64_byte_not_delim, lemma_b64_encode_alphabet, lemma_b64_roundtrip,
};
use crate::bytes::{
    append_all, bytes_eq, copy_range, find_byte, find_byte_from, lemma_find_byte_props,
    lemma_find_byte_unique,
};
use crate::claims::{
    Claims, ClaimsView, encode_payload, lemma_payload_roundtrip, parse_payload,
    parse_payload_spec, payload_of,
};

verus! {

/// Why a token failed to decode.
#[derive(Clone, Copy, Debug, PartialEq, Eq, Structural)]
pub enum VerificationError {
    /// The token does not have the three-segment shape, its header is not the
    /// fixed HS256 header, or a segment does not deserialize.
    Malformed,
    /// The embedded signature differs from the one recomputed under the secret.
    SignatureMismatch,
    /// The claims' expiry is at or before the given time.
    Expired,
}

/// The base64url-coded HMAC-SHA256 tag of `message` under `secret`, as the
/// signing routine of the outside crate produces it. A function of its two
/// arguments alone.
pub uninterp spec fn hs256_sig_of(secret: Seq<u8>, message: Seq<u8>) -> Seq<u8>;

/// Relies on `jsonwebtoken::crypto::sign` with `Algorithm::HS256` and an
/// `EncodingKey::from_secret` key: the result is the base64url-coded
/// HMAC-SHA256 tag, a function of secret and message alone. Per that crate's
/// source, signing under the HMAC family with a raw-secret key never fails
/// (the key accepts any length and the HMAC computation is total), so the
/// error path is unreachable.
#[verifier::external_body]
fn hs256_sign(secret: &Vec<u8>, message: &Vec<u8>) -> (r: Vec<u8>)
    ensures
        r@ == hs256_sig_of(secret@, message@),
{
    let key = jsonwebtoken::EncodingKey::from_secret(secret.as_slice());
    let sig = jsonwebtoken::crypto::sign(message.as_slice(), &key, jsonwebtoken::Algorithm::HS256)
        .expect("HMAC signing with a raw secret key is total");
    sig.into_bytes()
}

/// Relies on `chrono::Utc::now` for the current time, as seconds since the
/// epoch; nothing is assumed of the value.
#[verifier::external_body]
pub(crate) fn current_timestamp() -> (r: i64) {
    chrono::Utc::now().timestamp()
}

/// The bytes of the fixed algorithm header `{"alg":"HS256","typ":"JWT"}`.
pub open spec fn header_json() -> Seq<u8> {
    seq![
        123u8, 34, 97, 108, 103, 34, 58, 34, 72, 83, 50, 53, 54, 34, 44, 34, 116, 121, 112, 34,
        58, 34, 74, 87, 84, 34, 125,
    ]
}

pub fn header_json_vec() -> (r: Vec<u8>)
    ensures
        r@ == header_json(),
{
    let mut r: Vec<u8> = Vec::new();
    r.push(123);
    r.push(34);
    r.push(97);
    r.push(108);
    r.push(103);
    r.push(34);
    r.push(58);
    r.push(34);
    r.push(72);
    r.push(83);
    r.push(50);
    r.push(53);
    r.push(54);
    r.push(34);
    r.push(44);
    r.push(34);
    r.push(116);
    r.push(121);
    r.push(112);
    r.push(34);
    r.push(58);
    r.push(34);
    r.push(74);
    r.push(87);
    r.push(84);
    r.push(34);
    r.push(125);
    proof {
        assert(r@ =~= header_json());
    }
    r
}

/// What gets signed: coded header, dot, coded payload.
pub open spec fn signing_input_of(c: ClaimsView) -> Seq<u8> {
    b64_encode_spec(header_json()) + seq![46u8] + b64_encode_spec(payload_of(c))
}

/// The full wire form of a token for `c` under `secret`.
pub open spec fn token_of(secret: Seq<u8>, c: ClaimsView) -> Seq<u8> {
    signing_input_of(c) + seq![46u8] + hs256_sig_of(secret, signing_input_of(c))
}

/// The decode judgment: split at the first two dots, pin the header, check
/// the signature over everything before the second dot, then deserialize the
/// payload and check the expiry against `now`.
pub open spec fn decode_spec(secret: Seq<u8>, t: Seq<u8>, now: u64) -> Result<
    ClaimsView,
    VerificationError,
> {
    let i = find_byte(t, 46, 0);
    let j = find_byte(t, 46, i + 1);
    if i == t.len() || j == t.len() {
        Err(VerificationError::Malformed)
    } else if t.subrange(0, i) != b64_encode_spec(header_json()) {
        Err(VerificationError::Malformed)
    } else if t.subrange(j + 1, t.len() as int) != hs256_sig_of(secret, t.subrange(0, j)) {
        Err(VerificationError::SignatureMismatch)
    } else {
        match b64_decode_spec(t.subrange(i + 1, j)) {
            None => Err(VerificationError::Malformed),
            Some(pb) => match parse_payload_spec(pb) {
                None => Err(VerificationError::Malformed),
                Some(c) => if c.exp <= now {
                    Err(VerificationError::Expired)
                } else {
                    Ok(c)
                },
            },
        }
    }
}

/// Mint the token for `claims` under `secret`.
pub fn encode_token(secret: &Vec<u8>, claims: &Claims) -> (r: Vec<u8>)
    ensures
        r@ == token_of(secret@, claims@),
{
    let hj = header_json_vec();
    let mut t = b64_encode(&hj);
    t.push(46);
    let pb = encode_payload(claims);
    let pbe = b64_encode(&pb);
    append_all(&mut t, &pbe);
    proof {
        assert(t@ =~= signing_input_of(claims@));
    }
    let sig = hs256_sign(secret, &t);
    let mut r = t;
    r.push(46);
    append_all(&mut r, &sig);
    proof {
        assert(r@ =~= token_of(secret@, claims@));
    }
    r
}

/// Decode and judge a token, exactly as `decode_spec` does.
pub fn decode_token(secret: &Vec<u8>, t: &Vec<u8>, now: u64) -> (r: Result<
    Claims,
    VerificationError,
>)
    ensures
        match r {
            Ok(c) => decode_spec(secret@, t@, now) == Ok::<ClaimsView, VerificationError>(c@),
            Err(e) => decode_spec(secret@, t@, now) == Err::<ClaimsView, VerificationError>(e),
        },
{
    let n = t.len();
    let i = find_byte_from(t, 46, 0);
    proof {
        lemma_find_byte_props(t@, 46, 0);
    }
    if i == n {
        return Err(VerificationError::Malformed);
    }
    let j = find_byte_from(t, 46, i + 1);
    proof {
        lemma_find_byte_props(t@, 46, i as int + 1);
    }
    if j == n {
        return Err(VerificationError::Malformed);
    }
    let hj = header_json_vec();
    let henc = b64_encode(&hj);
    let hseg = copy_range(t, 0, i);
    if !bytes_eq(&hseg, &henc) {
        return Err(VerificationError::Malformed);
    }
    let msg = copy_range(t, 0, j);
    let sig = hs256_sign(secret, &msg);
    let sseg = copy_range(t, j + 1, n);
    if !bytes_eq(&sseg, &sig) {
        return Err(VerificationError::SignatureMismatch);
    }
    let pseg = copy_range(t, i + 1, j);
    match b64_decode(&pseg) {
        None => Err(VerificationError::Malformed),
        Some(pb) => match parse_payload(&pb) {
            None => Err(VerificationError::Malformed),
            Some(c) => if c.exp <= now {
                Err(VerificationError::Expired)
            } else {
                Ok(c)
            },
        },
    }
}

/// Round trip with the expiry boundary: decoding the token minted for `c`
/// yields `c` itself strictly before `c.exp`, and `Expired` at `c.exp` or
/// after. In particular a freshly minted, unexpired token is accepted
/// unchanged, and one whose expiry equals "now" is already rejected.
pub proof fn lemma_token_roundtrip(secret: Seq<u8>, c: ClaimsView, now: u64)
    ensures
        decode_spec(secret, token_of(secret, c), now) == (if now < c.exp {
            Ok::<ClaimsView, VerificationError>(c)
        } else {
            Err::<ClaimsView, VerificationError>(VerificationError::Expired)
        }),
{
    let he = b64_encode_spec(header_json());
    let pe = b64_encode_spec(payload_of(c));
    let si = signing_input_of(c);
    let sig = hs256_sig_of(secret, si);
    let t = token_of(secret, c);
    lemma_b64_encode_alphabet(header_json());
    lemma_b64_encode_alphabet(payload_of(c));
    assert(si.len() == he.len() + 1 + pe.len());
    assert(t.len() == si.len() + 1 + sig.len());
    assert forall|k: int| 0 <= k < he.len() implies t[k] != 46 by {
        assert(t[k] == he[k]);
        lemma_b64_byte_not_delim(he[k]);
    }
    assert(t[he.len() as int] == 46);
    lemma_find_byte_unique(t, 46, 0, he.len() as int);
    assert forall|k: int| he.len() + 1 <= k < si.len() implies t[k] != 46 by {
        assert(t[k] == pe[k - he.len() - 1]);
        lemma_b64_byte_not_delim(pe[k - he.len() - 1]);
    }
    assert(t[si.len() as int] == 46);
    lemma_find_byte_unique(t, 46, he.len() as int + 1, si.len() as int);
    assert(t.subrange(0, he.len() as int) =~= he);
    assert(t.subrange(0, si.len() as int) =~= si);
    assert(t.subrange(si.len() as int + 1, t.len() as int) =~= sig);
    assert(t.subrange(he.len() as int + 1, si.len() as int) =~= pe);
    lemma_b64_roundtrip(payload_of(c));
    lemma_payload_roundtrip(c);
}

/// Tamper sensitivity: changing any single byte of a token's signature
/// segment, to any other value, makes decoding fail with `SignatureMismatch`,
/// at every time.
pub proof fn lemma_signature_tamper(
    secret: Seq<u8>,
    c: ClaimsView,
    now: u64,
    t2: Seq<u8>,
    idx: int,
)
    requires
        t2.len() == token_of(secret, c).len(),
        signing_input_of(c).len() < idx < t2.len(),
        forall|k: int| 0 <= k < t2.len() && k != idx ==> t2[k] == token_of(secret, c)[k],
        t2[idx] != token_of(secret, c)[idx],
    ensures
        decode_spec(secret, t2, now) == Err::<ClaimsView, VerificationError>(
            VerificationError::SignatureMismatch,
        ),
{
    let he = b64_encode_spec(header_json());
    let pe = b64_encode_spec(payload_of(c));
    let si = signing_input_of(c);
    let sig = hs256_sig_of(secret, si);
    let t = token_of(secret, c);
    lemma_b64_encode_alphabet(header_json());
    lemma_b64_encode_alphabet(payload_of(c));
    assert(si.len() == he.len() + 1 + pe.len());
    assert(t.len() == si.len() + 1 + sig.len());
    assert forall|k: int| 0 <= k < he.len() implies t2[k] != 46 by {
        assert(t2[k] == t[k]);
        assert(t[k] == he[k]);
        lemma_b64_byte_not_delim(he[k]);
    }
    assert(t2[he.len() as int] == t[he.len() as int]);
    assert(t2[he.len() as int] == 46);
    lemma_find_byte_unique(t2, 46, 0, he.len() as int);
    assert forall|k: int| he.len() + 1 <= k < si.len() implies t2[k] != 46 by {
        assert(t2[k] == t[k]);
        assert(t[k] == pe[k - he.len() - 1]);
        lemma_b64_byte_not_delim(pe[k - he.len() - 1]);
    }
    assert(t2[si.len() as int] == 46);
    lemma_find_byte_unique(t2, 46, he.len() as int + 1, si.len() as int);
    assert(t2.subrange(0, he.len() as int) =~= he);
    assert(t2.subrange(0, si.len() as int) =~= si);
    let sseg = t2.subrange(si.len() as int + 1, t2.len() as int);
    assert(sseg[idx - si.len() as int - 1] == t2[idx]);
    assert(sig[idx - si.len() as int - 1] == t[idx]);
    assert(sseg != hs256_sig_of(secret, t2.subrange(0, si.len() as int)));
}

/// The algorithm is pinned: a token whose first segment is not the coded
/// HS256 header (whatever algorithm it declares, "none" included) is refused
/// as malformed, at every time and under every secret.
pub proof fn lemma_algorithm_pinned(secret: Seq<u8>, t: Seq<u8>, now: u64)
    requires
        t.subrange(0, find_byte(t, 46, 0)) != b64_encode_spec(header_json()),
    ensures
        decode_spec(secret, t, now) == Err::<ClaimsView, VerificationError>(
            VerificationError::Malformed,
        ),
{
}

} // verus!
