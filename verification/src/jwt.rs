//! Decoding a token to its claims and encoding claims to a token.
//!
//! A token is `header.payload.signature`, each segment unpadded base64url
//! text: of the header's JSON text, of the claims' JSON text, and of the
//! HMAC-SHA-256 of `header.payload` under a secret.
//!
//! Decoding is insecure on purpose: the signature segment is never decoded,
//! recomputed or compared. What comes out of `decode` must not be trusted.

use crate::base64url;
use crate::base64url::{decode_spec, encode_spec, is_symbol, lemma_encode_symbols};
use crate::claims::{body_spec, parsed_text, Claims};
use crate::cli::JsonFormat;
use crate::error::{Error, ErrorKind};
use crate::framing;
use crate::framing::{join_spec, split_spec, DOT};
use crate::signature::{hmac_sha256, is_ascii, sign_hs256};
use vstd::prelude::*;
use vstd::utf8::valid_utf8;

verus! {

/// The header of every token built here, `{"typ":"JWT","alg":"HS256"}`.
pub const HEADER: [u8; 27] = [
    0x7b, 0x22, 0x74, 0x79, 0x70, 0x22, 0x3a, 0x22, 0x4a, 0x57, 0x54, 0x22, 0x2c, 0x22, 0x61, 0x6c,
    0x67, 0x22, 0x3a, 0x22, 0x48, 0x53, 0x32, 0x35, 0x36, 0x22, 0x7d,
];

/// The byte that ends rendered text, a line feed.
pub const NEWLINE: u8 = 0x0a;

/// What is signed in the token of the claims with compact text `text`: the
/// header segment, a separator and the payload segment.
pub open spec fn signing_input(text: Seq<u8>) -> Seq<u8> {
    encode_spec(HEADER@) + seq![DOT] + encode_spec(text)
}

/// The token of the claims with compact text `text`, signed under `secret`.
pub open spec fn token_spec(text: Seq<u8>, secret: Seq<u8>) -> Seq<u8> {
    join_spec(encode_spec(HEADER@), encode_spec(text), signature_segment(text, secret))
}

/// The payload that the token `input` carries, or why there is none: the
/// input is not UTF-8 text, has not three segments, or its header or payload
/// segment is not base64url text. The signature segment is not looked at.
pub open spec fn payload_spec(input: Seq<u8>) -> Result<Seq<u8>, ErrorKind> {
    if !valid_utf8(input) {
        Err(ErrorKind::Encoding)
    } else {
        match split_spec(input) {
            None => Err(ErrorKind::Framing),
            Some((header, payload, _)) => {
                if decode_spec(header) is None {
                    Err(ErrorKind::Codec)
                } else {
                    match decode_spec(payload) {
                        None => Err(ErrorKind::Codec),
                        Some(bytes) => Ok(bytes),
                    }
                }
            },
        }
    }
}

/// The compact text of the claims that the token `input` carries, or why
/// there are none.
pub open spec fn claims_spec(input: Seq<u8>) -> Result<Seq<u8>, ErrorKind> {
    match payload_spec(input) {
        Err(kind) => Err(kind),
        Ok(bytes) => match parsed_text(bytes) {
            None => Err(ErrorKind::Json),
            Some(text) => Ok(text),
        },
    }
}

/// The text written for claims with compact text `text`: their JSON text
/// in the layout asked for, and a line feed.
pub open spec fn render_spec(text: Seq<u8>, format: JsonFormat, color: bool) -> Seq<u8> {
    body_spec(text, format, color).push(NEWLINE)
}

/// What decoding the token `input` writes: the rendered claims, or why
/// there are none.
pub open spec fn decoded_spec(input: Seq<u8>, format: JsonFormat, color: bool) -> Result<
    Seq<u8>,
    ErrorKind,
> {
    match claims_spec(input) {
        Err(kind) => Err(kind),
        Ok(text) => Ok(render_spec(text, format, color)),
    }
}

/// The signature segment of the token of the claims with compact text
/// `text`, signed under `secret`.
pub open spec fn signature_segment(text: Seq<u8>, secret: Seq<u8>) -> Seq<u8> {
    encode_spec(hmac_sha256(secret, signing_input(text)))
}

/// How many symbols a signature segment holds: those of a tag of 32 bytes.
pub const SIGNATURE_LEN: usize = 43;

/// What encoding the JSON text `input` under `secret` writes: the token of
/// the value it parses to, or `Json` where it is not JSON text.
pub open spec fn encoded_spec(input: Seq<u8>, secret: Seq<u8>) -> Result<Seq<u8>, ErrorKind> {
    match parsed_text(input) {
        None => Err(ErrorKind::Json),
        Some(text) => Ok(token_spec(text, secret)),
    }
}

/// `std::str::from_utf8`, which succeeds exactly on UTF-8 text.
#[verifier::external_body]
fn is_utf8(bytes: &[u8]) -> (ok: bool)
    ensures
        ok == valid_utf8(bytes@),
{
    std::str::from_utf8(bytes).is_ok()
}

/// Extracts the payload of the token `input`, decoded from base64url.
///
/// The header segment is decoded too and must be base64url text, but what
/// it holds is not read. The signature segment is left as it is.
pub fn payload(input: &[u8]) -> (r: Result<Vec<u8>, Error>)
    ensures
        match r {
            Ok(bytes) => payload_spec(input@) == Ok::<Seq<u8>, ErrorKind>(bytes@),
            Err(e) => payload_spec(input@) == Err::<Seq<u8>, ErrorKind>(e.kind()),
        },
{
    if !is_utf8(input) {
        return Err(Error::Encoding);
    }
    let segments = match framing::split(input) {
        Ok(segments) => segments,
        Err(e) => {
            return Err(Error::Framing(e));
        },
    };
    match base64url::decode(segments.header) {
        Ok(_) => {},
        Err(e) => {
            return Err(Error::Codec(e));
        },
    }
    match base64url::decode(segments.payload) {
        Ok(bytes) => Ok(bytes),
        Err(e) => Err(Error::Codec(e)),
    }
}

/// Decodes the token `input` to its claims, without checking the signature.
///
/// Two tokens with the same header and payload segments give the same
/// claims, whatever their signature segments hold.
pub fn decode_claims(input: &[u8]) -> (r: Result<Claims, Error>)
    ensures
        match r {
            Ok(claims) => claims_spec(input@) == Ok::<Seq<u8>, ErrorKind>(claims@),
            Err(e) => claims_spec(input@) == Err::<Seq<u8>, ErrorKind>(e.kind()),
        },
{
    let bytes = payload(input)?;
    Claims::parse(bytes.as_slice())
}

/// Ends rendered JSON text with a line feed.
pub fn end_line(body: Vec<u8>) -> (text: Vec<u8>)
    ensures
        text@ == body@.push(NEWLINE),
{
    let mut text = body;
    text.push(NEWLINE);
    text
}

/// Renders claims as JSON text in the layout `format`, colored for a
/// terminal if `color` is set, and ended by a line feed. This always
/// succeeds.
pub fn render(claims: &Claims, format: &JsonFormat, color: bool) -> (r: Result<Vec<u8>, Error>)
    ensures
        r matches Ok(text) && text@ == render_spec(claims@, *format, color),
{
    let body = claims.write(format, color)?;
    Ok(end_line(body))
}

/// Decodes the token `input` and renders its claims, without checking the
/// signature. It succeeds exactly on the tokens that carry claims.
pub fn decode(input: &[u8], color: bool, format: &JsonFormat) -> (r: Result<Vec<u8>, Error>)
    ensures
        match r {
            Ok(text) => decoded_spec(input@, *format, color) == Ok::<Seq<u8>, ErrorKind>(text@),
            Err(e) => decoded_spec(input@, *format, color) == Err::<Seq<u8>, ErrorKind>(e.kind()),
        },
{
    let claims = decode_claims(input)?;
    render(&claims, format, color)
}

/// Builds what is signed for a payload with JSON text `text`: the header
/// segment, a separator and the payload segment.
pub fn signing_message(text: &[u8]) -> (message: Vec<u8>)
    ensures
        message@ == signing_input(text@),
        is_ascii(message@),
{
    let mut message = base64url::encode(&HEADER);
    let payload = base64url::encode(text);
    message.push(DOT);
    message.extend_from_slice(payload.as_slice());
    proof {
        assert(message@ =~= signing_input(text@));
        lemma_encode_symbols(HEADER@);
        lemma_encode_symbols(text@);
        assert forall|i: int| 0 <= i < message@.len() implies #[trigger] message@[i] < 0x80 by {
            let head = encode_spec(HEADER@);
            if i < head.len() {
                assert(is_symbol(head[i]));
            } else if i > head.len() {
                assert(is_symbol(encode_spec(text@)[i - head.len() - 1]));
            }
        }
    }
    message
}

/// Completes a token: the signed message, a separator and the signature
/// segment.
pub fn seal(message: Vec<u8>, signature: &[u8]) -> (token: Vec<u8>)
    ensures
        token@ == message@ + seq![DOT] + signature@,
{
    let mut token = message;
    token.push(DOT);
    token.extend_from_slice(signature);
    assert(token@ =~= message@ + seq![DOT] + signature@);
    token
}

/// Builds the token of `claims`, signed with HMAC-SHA-256 under `secret`.
///
/// This always succeeds, and the same claims and secret always give the
/// same token.
pub fn encode_claims(claims: &Claims, secret: &[u8]) -> (r: Result<Vec<u8>, Error>)
    ensures
        r matches Ok(token) && token@ == token_spec(claims@, secret@),
        signature_segment(claims@, secret@).len() == SIGNATURE_LEN,
{
    let text = claims.to_compact()?;
    let message = signing_message(text.as_slice());
    let signature = match sign_hs256(message.as_slice(), secret) {
        Ok(signature) => signature,
        Err(e) => {
            return Err(Error::Jwt(e));
        },
    };
    let token = seal(message, signature.as_slice());
    assert(token@ =~= token_spec(claims@, secret@));
    Ok(token)
}

/// Parses `input` as JSON and builds its token, signed under `secret`. It
/// fails exactly where `input` is not JSON text.
pub fn encode_with_secret(input: &[u8], secret: &[u8]) -> (r: Result<Vec<u8>, Error>)
    ensures
        match r {
            Ok(token) => encoded_spec(input@, secret@) == Ok::<Seq<u8>, ErrorKind>(token@),
            Err(e) => e is Json && encoded_spec(input@, secret@) == Err::<Seq<u8>, ErrorKind>(
                ErrorKind::Json,
            ),
        },
        r matches Ok(token) ==> parsed_text(input@) matches Some(text) && signature_segment(
            text,
            secret@,
        ).len() == SIGNATURE_LEN,
{
    let claims = Claims::parse(input)?;
    encode_claims(&claims, secret)
}

/// Parses `input` as JSON and builds its token, signed under the empty
/// secret. Such a token shows its claims; it authenticates nothing. It
/// fails exactly where `input` is not JSON text.
pub fn encode(input: &[u8]) -> (r: Result<Vec<u8>, Error>)
    ensures
        match r {
            Ok(token) => encoded_spec(input@, Seq::<u8>::empty()) == Ok::<Seq<u8>, ErrorKind>(
                token@,
            ),
            Err(e) => e is Json && encoded_spec(input@, Seq::<u8>::empty()) == Err::<
                Seq<u8>,
                ErrorKind,
            >(ErrorKind::Json),
        },
        r matches Ok(token) ==> parsed_text(input@) matches Some(text) && signature_segment(
            text,
            Seq::<u8>::empty(),
        ).len() == SIGNATURE_LEN,
{
    let secret: Vec<u8> = Vec::new();
    encode_with_secret(input, secret.as_slice())
}

} // verus!
