//! A minimal token-issuing authentication gateway, verified with Verus:
//! a registered API key is exchanged for a short-lived signed token, and a
//! per-request gate admits exactly the requests that present an unexpired,
//! correctly signed bearer token.
//!
//! The token wire form is three base64url segments, `header.payload.signature`,
//! with a fixed HS256 header; the HMAC signature comes from an outside crate
//! behind one trusted wrapper, and everything else — the segment codecs, the
//! split, the judgments of the codec, the registry, issuance and gating —
//! is verified, including the decode-of-encode round trip, the expiry
//! boundary, tamper sensitivity of the signature segment, and the pinning of
//! the algorithm header.

pub mod base64url;
pub mod bytes;
pub mod claims;
pub mod codec;
pub mod gate;
pub mod issuance;
pub mod numeric;
pub mod registry;
