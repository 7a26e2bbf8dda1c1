//! Conversion between JSON web tokens and the JSON claims they carry.
//!
//! Decoding never checks a signature: it is meant for inspecting a token,
//! not for trusting it. Encoding signs with HMAC-SHA-256 under a secret that
//! the caller supplies, by default the empty one.

pub mod base64url;
pub mod claims;
pub mod cli;
pub mod error;
pub mod framing;
pub mod jwt;
pub mod laws;
pub mod signature;
