//! The authentication gate: one allow/deny decision per request, made from
//! the request's authorization header value alone.

use vstd::prelude::*;
use crate::bytes::{bytes_eq, copy_range};
use crate::codec::{
    current_timestamp, decode_spec, decode_token, lemma_token_roundtrip, token_of,
    VerificationError,
};
use crate::claims::ClaimsView;

verus! {

/// Why a request was denied.
#[derive(Clone, Copy, Debug, PartialEq, Eq, Structural)]
pub enum DenyReason {
    /// No header, or one not of the bearer shape.
    MissingOrMalformedHeader,
    /// The bearer token is malformed or its signature does not check.
    InvalidToken,
    /// The bearer token has expired.
    TokenExpired,
}

/// The decision for one request.
pub enum Verdict {
    /// Access granted; carries the subject the token resolved to.
    Authorized(Vec<u8>),
    Denied(DenyReason),
}

/// Mathematical model of `Verdict`.
pub enum VerdictView {
    Authorized(Seq<u8>),
    Denied(DenyReason),
}

impl View for Verdict {
    type V = VerdictView;

    open spec fn view(&self) -> VerdictView {
        match self {
            Verdict::Authorized(s) => VerdictView::Authorized(s@),
            Verdict::Denied(r) => VerdictView::Denied(*r),
        }
    }
}

/// The bytes of `Bearer `.
pub open spec fn bearer_prefix() -> Seq<u8> {
    seq![66u8, 101, 97, 114, 101, 114, 32]
}

pub fn bearer_prefix_vec() -> (r: Vec<u8>)
    ensures
        r@ == bearer_prefix(),
{
    let mut r: Vec<u8> = Vec::new();
    r.push(66);
    r.push(101);
    r.push(97);
    r.push(114);
    r.push(101);
    r.push(114);
    r.push(32);
    proof {
        assert(r@ =~= bearer_prefix());
    }
    r
}

/// The model of an optional header argument.
pub open spec fn header_view(header: Option<&Vec<u8>>) -> Option<Seq<u8>> {
    match header {
        Some(h) => Some(h@),
        None => None,
    }
}

/// The authorization judgment: absent or non-bearer headers are denied without
/// consulting the codec; otherwise the token after the prefix decides.
pub open spec fn authorize_spec(secret: Seq<u8>, header: Option<Seq<u8>>, now: u64) -> VerdictView {
    match header {
        None => VerdictView::Denied(DenyReason::MissingOrMalformedHeader),
        Some(h) => if h.len() < 7 || h.subrange(0, 7) != bearer_prefix() {
            VerdictView::Denied(DenyReason::MissingOrMalformedHeader)
        } else {
            match decode_spec(secret, h.skip(7), now) {
                Ok(c) => VerdictView::Authorized(c.api_key),
                Err(VerificationError::Expired) => VerdictView::Denied(DenyReason::TokenExpired),
                Err(_) => VerdictView::Denied(DenyReason::InvalidToken),
            }
        },
    }
}

/// Decide one request as of the moment `now`, exactly as `authorize_spec`.
pub fn authorize_at(secret: &Vec<u8>, header: Option<&Vec<u8>>, now: u64) -> (r: Verdict)
    ensures
        r@ == authorize_spec(secret@, header_view(header), now),
{
    match header {
        None => Verdict::Denied(DenyReason::MissingOrMalformedHeader),
        Some(h) => {
            let hn = h.len();
            if hn < 7 {
                return Verdict::Denied(DenyReason::MissingOrMalformedHeader);
            }
            let pre = bearer_prefix_vec();
            let head = copy_range(h, 0, 7);
            if !bytes_eq(&head, &pre) {
                return Verdict::Denied(DenyReason::MissingOrMalformedHeader);
            }
            let token = copy_range(h, 7, hn);
            proof {
                assert(token@ =~= h@.skip(7));
            }
            match decode_token(secret, &token, now) {
                Ok(c) => Verdict::Authorized(c.api_key),
                Err(VerificationError::Expired) => Verdict::Denied(DenyReason::TokenExpired),
                Err(_) => Verdict::Denied(DenyReason::InvalidToken),
            }
        },
    }
}

/// Decide one request as of the current time (a clock before the epoch
/// counts as the epoch itself).
pub fn authorize_now(secret: &Vec<u8>, header: Option<&Vec<u8>>) -> (r: Verdict)
    ensures
        exists|now: u64| r@ == #[trigger] authorize_spec(secret@, header_view(header), now),
{
    let ts = current_timestamp();
    let now: u64 = if ts < 0 {
        0
    } else {
        ts as u64
    };
    let r = authorize_at(secret, header, now);
    proof {
        assert(r@ == authorize_spec(secret@, header_view(header), now));
    }
    r
}

/// End to end: the token minted for claims `c`, presented under the bearer
/// scheme before `c` expires, authorizes exactly `c`'s subject.
pub proof fn lemma_gate_accepts_minted(secret: Seq<u8>, c: ClaimsView, now: u64)
    requires
        now < c.exp,
    ensures
        authorize_spec(secret, Some(bearer_prefix() + token_of(secret, c)), now)
            == VerdictView::Authorized(c.api_key),
{
    let h = bearer_prefix() + token_of(secret, c);
    assert(h.subrange(0, 7) =~= bearer_prefix());
    assert(h.skip(7) =~= token_of(secret, c));
    lemma_token_roundtrip(secret, c, now);
}

/// A bearer token already at or past its expiry is denied as expired, not as
/// invalid: staleness and forgery stay distinguishable.
pub proof fn lemma_gate_expired(secret: Seq<u8>, c: ClaimsView, now: u64)
    requires
        now >= c.exp,
    ensures
        authorize_spec(secret, Some(bearer_prefix() + token_of(secret, c)), now)
            == VerdictView::Denied(DenyReason::TokenExpired),
{
    let h = bearer_prefix() + token_of(secret, c);
    assert(h.subrange(0, 7) =~= bearer_prefix());
    assert(h.skip(7) =~= token_of(secret, c));
    lemma_token_roundtrip(secret, c, now);
}

/// A missing header is denied without looking at anything else.
pub proof fn lemma_gate_missing_header(secret: Seq<u8>, now: u64)
    ensures
        authorize_spec(secret, None::<Seq<u8>>, now) == VerdictView::Denied(
            DenyReason::MissingOrMalformedHeader,
        ),
{
}

} // verus!
