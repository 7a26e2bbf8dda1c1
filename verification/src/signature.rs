//! The signature of a token: HMAC-SHA-256, computed by `jsonwebtoken`.

use crate::base64url::encode_spec;
use jsonwebtoken::errors::Error as JwtError;
use vstd::prelude::*;

verus! {

/// `jsonwebtoken::errors::Error`, carried through and never looked into.
#[verifier::external_type_specification]
#[verifier::external_body]
pub struct ExJwtError(JwtError);

/// The HMAC-SHA-256 of `message` under `secret`.
pub uninterp spec fn hmac_sha256(secret: Seq<u8>, message: Seq<u8>) -> Seq<u8>;

/// The length of an HMAC-SHA-256 tag, in bytes.
pub const TAG_LEN: usize = 32;

/// Whether `text` is ASCII text.
pub open spec fn is_ascii(text: Seq<u8>) -> bool {
    forall|i: int| 0 <= i < text.len() ==> #[trigger] text[i] < 0x80
}

/// `jsonwebtoken::crypto::sign` with `Algorithm::HS256` and the key that
/// `EncodingKey::from_secret` makes of `secret`. With this algorithm it
/// always succeeds, and what it returns is the unpadded base64url text of
/// the HMAC-SHA-256 of `message` under `secret`, a tag of 32 bytes.
#[verifier::external_body]
pub(crate) fn sign_hs256(message: &[u8], secret: &[u8]) -> (r: Result<
    Vec<u8>,
    jsonwebtoken::errors::Error,
>)
    requires
        is_ascii(message@),
    ensures
        r is Ok,
        r matches Ok(segment) ==> segment@ == encode_spec(hmac_sha256(secret@, message@)),
        r matches Ok(segment) ==> hmac_sha256(secret@, message@).len() == TAG_LEN,
{
    let text = String::from_utf8_lossy(message);
    let key = jsonwebtoken::EncodingKey::from_secret(secret);
    let segment = jsonwebtoken::crypto::sign(&text, &key, jsonwebtoken::Algorithm::HS256)?;
    Ok(segment.into_bytes())
}

} // verus!
