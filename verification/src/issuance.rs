//! Issuance: exchange a registered credential for a fresh signed token whose
//! claims name that credential and expire a fixed lifetime later.

use vstd::prelude::*;
use crate::bytes::copy_range;
use crate::claims::{Claims, ClaimsView};
use crate::codec::{
    current_timestamp, decode_spec, encode_token, lemma_token_roundtrip, token_of,
};
use crate::registry::KeyRegistry;

verus! {

/// How long an issued token stays valid, in seconds.
pub const TOKEN_LIFETIME_SECS: u64 = 3600;

/// Why issuance failed.
#[derive(Clone, Copy, Debug, PartialEq, Eq, Structural)]
pub enum IssueError {
    /// The presented credential is not in the registry.
    InvalidCredential,
}

/// The issuance judgment: a token for `cred` expiring at `now` plus the
/// fixed lifetime when `cred` is registered, `InvalidCredential` otherwise.
pub open spec fn issue_spec(reg: Seq<Seq<u8>>, secret: Seq<u8>, cred: Seq<u8>, now: u64) -> Result<
    Seq<u8>,
    IssueError,
>
    recommends
        now + TOKEN_LIFETIME_SECS <= u64::MAX,
{
    if reg.contains(cred) {
        Ok(token_of(secret, ClaimsView { api_key: cred, exp: (now + TOKEN_LIFETIME_SECS) as u64 }))
    } else {
        Err(IssueError::InvalidCredential)
    }
}

/// Issue a token for `cred` as of the moment `now`.
pub fn issue_at(reg: &KeyRegistry, secret: &Vec<u8>, cred: &Vec<u8>, now: u64) -> (r: Result<
    Vec<u8>,
    IssueError,
>)
    requires
        now + TOKEN_LIFETIME_SECS <= u64::MAX,
    ensures
        match r {
            Ok(t) => issue_spec(reg@, secret@, cred@, now) == Ok::<Seq<u8>, IssueError>(t@),
            Err(e) => issue_spec(reg@, secret@, cred@, now) == Err::<Seq<u8>, IssueError>(e),
        },
{
    if !reg.is_authorized(cred) {
        return Err(IssueError::InvalidCredential);
    }
    let key = copy_range(cred, 0, cred.len());
    proof {
        assert(key@ =~= cred@);
    }
    let claims = Claims { api_key: key, exp: now + TOKEN_LIFETIME_SECS };
    Ok(encode_token(secret, &claims))
}

/// Issue a token for `cred` as of the current time (a clock before the epoch
/// counts as the epoch itself). Fails exactly when `cred` is unregistered.
pub fn issue_now(reg: &KeyRegistry, secret: &Vec<u8>, cred: &Vec<u8>) -> (r: Result<
    Vec<u8>,
    IssueError,
>)
    ensures
        r is Err <==> !reg@.contains(cred@),
        match r {
            Ok(t) => exists|now: u64|
                now + TOKEN_LIFETIME_SECS <= u64::MAX && #[trigger] issue_spec(
                    reg@,
                    secret@,
                    cred@,
                    now,
                ) == Ok::<Seq<u8>, IssueError>(t@),
            Err(e) => e == IssueError::InvalidCredential,
        },
{
    let ts = current_timestamp();
    let now: u64 = if ts < 0 {
        0
    } else {
        ts as u64
    };
    assert(now + TOKEN_LIFETIME_SECS <= u64::MAX);
    let r = issue_at(reg, secret, cred, now);
    proof {
        match &r {
            Ok(t) => {
                assert(issue_spec(reg@, secret@, cred@, now) == Ok::<Seq<u8>, IssueError>(t@));
            },
            Err(e) => {},
        }
    }
    r
}

/// Issuance round trip: a token issued for a registered credential, decoded
/// at the moment of issue, yields claims naming exactly that credential with
/// an expiry strictly in the future.
pub proof fn lemma_issue_then_decode(reg: Seq<Seq<u8>>, secret: Seq<u8>, cred: Seq<u8>, now: u64)
    requires
        reg.contains(cred),
        now + TOKEN_LIFETIME_SECS <= u64::MAX,
    ensures
        issue_spec(reg, secret, cred, now) == Ok::<Seq<u8>, IssueError>(
            token_of(secret, ClaimsView { api_key: cred, exp: (now + TOKEN_LIFETIME_SECS) as u64 }),
        ),
        decode_spec(
            secret,
            token_of(secret, ClaimsView { api_key: cred, exp: (now + TOKEN_LIFETIME_SECS) as u64 }),
            now,
        ) == Ok::<ClaimsView, crate::codec::VerificationError>(
            ClaimsView { api_key: cred, exp: (now + TOKEN_LIFETIME_SECS) as u64 },
        ),
        (now + TOKEN_LIFETIME_SECS) as u64 > now,
{
    let c = ClaimsView { api_key: cred, exp: (now + TOKEN_LIFETIME_SECS) as u64 };
    lemma_token_roundtrip(secret, c, now);
}

/// An unregistered credential is refused outright: issuance yields
/// `InvalidCredential` and no token exists for it.
pub proof fn lemma_issue_unknown(reg: Seq<Seq<u8>>, secret: Seq<u8>, cred: Seq<u8>, now: u64)
    requires
        !reg.contains(cred),
    ensures
        issue_spec(reg, secret, cred, now) == Err::<Seq<u8>, IssueError>(
            IssueError::InvalidCredential,
        ),
{
}

} // verus!
