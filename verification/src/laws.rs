//! What holds of decoding and encoding taken together.

use crate::base64url::{
    decode_spec, encode_spec, is_symbol, lemma_decode_encode, lemma_encode_symbols,
};
use crate::claims::parsed_text;
use crate::error::ErrorKind;
use crate::framing::{
    dot_count, dot_free, join_spec, lemma_dot_count_concat, lemma_dot_free_count,
    lemma_split_iff, lemma_split_join, split_spec, DOT,
};
use crate::claims::{body_spec, pretty_text};
use crate::cli::JsonFormat;
use crate::jwt::{
    claims_spec, decoded_spec, encoded_spec, payload_spec, render_spec, signature_segment,
    signing_input, token_spec, HEADER, NEWLINE, SIGNATURE_LEN,
};
use crate::signature::{hmac_sha256, is_ascii, TAG_LEN};
use vstd::prelude::*;
use vstd::utf8::{
    encode_scalar, encode_utf8, encode_utf8_valid_utf8, has_width_1_encoding, is_ascii_chars,
    is_ascii_chars_encode_utf8, valid_utf8,
};

verus! {

/// ASCII text is UTF-8 text.
pub proof fn lemma_ascii_is_utf8(text: Seq<u8>)
    requires
        is_ascii(text),
    ensures
        valid_utf8(text),
{
    let chars = Seq::new(text.len(), |i: int| text[i] as char);
    assert(is_ascii_chars(chars)) by {
        assert forall|i: int| 0 <= i < chars.len() implies '\0' <= #[trigger] chars[i]
            <= '\u{7f}' by {
            assert(text[i] < 0x80);
        }
    }
    is_ascii_chars_encode_utf8(chars);
    assert(encode_utf8(chars) =~= text) by {
        assert forall|i: int| 0 <= i < text.len() implies encode_utf8(chars)[i] == text[i] by {
            assert(chars[i] as u8 == encode_utf8(chars)[i]);
            assert(text[i] < 0x80);
        }
    }
    encode_utf8_valid_utf8(chars);
}

/// An encoding holds no separator and is ASCII text.
pub proof fn lemma_encode_plain(bytes: Seq<u8>)
    ensures
        dot_free(encode_spec(bytes)),
        is_ascii(encode_spec(bytes)),
{
    lemma_encode_symbols(bytes);
    let text = encode_spec(bytes);
    assert forall|i: int| 0 <= i < text.len() implies #[trigger] text[i] != DOT && text[i]
        < 0x80 by {
        assert(is_symbol(text[i]));
    }
}

/// A token built here is ASCII text, so UTF-8 text, with exactly two
/// separators, and its three segments are the encodings of the header, of
/// the payload and of the signature. The header segment is the same in every
/// token and decodes to the header.
pub proof fn lemma_token_segments(text: Seq<u8>, secret: Seq<u8>)
    ensures
        is_ascii(token_spec(text, secret)),
        valid_utf8(token_spec(text, secret)),
        dot_count(token_spec(text, secret)) == 2,
        split_spec(token_spec(text, secret)) == Some(
            (encode_spec(HEADER@), encode_spec(text), signature_segment(text, secret)),
        ),
        decode_spec(encode_spec(HEADER@)) == Some(HEADER@),
        forall|i: int|
            0 <= i < token_spec(text, secret).len() ==> is_symbol(
                #[trigger] token_spec(text, secret)[i],
            ) || token_spec(text, secret)[i] == DOT,
{
    let header = encode_spec(HEADER@);
    let payload = encode_spec(text);
    let signature = signature_segment(text, secret);
    let token = token_spec(text, secret);
    lemma_encode_plain(HEADER@);
    lemma_encode_plain(text);
    lemma_encode_plain(hmac_sha256(secret, signing_input(text)));
    lemma_encode_symbols(HEADER@);
    lemma_encode_symbols(text);
    lemma_encode_symbols(hmac_sha256(secret, signing_input(text)));
    lemma_split_join(header, payload, signature);
    lemma_split_iff(token);
    lemma_decode_encode(HEADER@);
    assert forall|i: int| 0 <= i < token.len() implies (is_symbol(#[trigger] token[i])
        || token[i] == DOT) && token[i] < 0x80 by {
        if i < header.len() {
            assert(is_symbol(header[i]));
        } else if i == header.len() {
        } else if i < header.len() + 1 + payload.len() {
            assert(is_symbol(payload[i - header.len() - 1]));
        } else if i == header.len() + 1 + payload.len() {
        } else {
            assert(is_symbol(signature[i - header.len() - payload.len() - 2]));
        }
    }
    lemma_ascii_is_utf8(token);
}

/// The payload of a token built here is the JSON text it was built from,
/// byte for byte, whatever the secret.
pub proof fn lemma_payload_of_token(text: Seq<u8>, secret: Seq<u8>)
    ensures
        payload_spec(token_spec(text, secret)) == Ok::<Seq<u8>, ErrorKind>(text),
{
    lemma_token_segments(text, secret);
    lemma_decode_encode(HEADER@);
    lemma_decode_encode(text);
}

/// Round trip: a token built from claims decodes to what the claims' own
/// compact text parses to, whatever the secret. So claims whose compact
/// text parses back to them come out of their token as they went in.
pub proof fn lemma_round_trip(text: Seq<u8>, secret: Seq<u8>)
    ensures
        claims_spec(token_spec(text, secret)) == (match parsed_text(text) {
            Some(parsed) => Ok::<Seq<u8>, ErrorKind>(parsed),
            None => Err::<Seq<u8>, ErrorKind>(ErrorKind::Json),
        }),
        parsed_text(text) == Some(text) ==> claims_spec(token_spec(text, secret)) == Ok::<
            Seq<u8>,
            ErrorKind,
        >(text),
{
    lemma_payload_of_token(text, secret);
}

/// Round trip of text: where JSON text is encoded and the token decoded,
/// what is written is the rendering of the claims that the token's payload
/// parses to, and the payload is the compact text of the value that the
/// input parsed to. The secret plays no part.
pub proof fn lemma_encode_then_decode(
    input: Seq<u8>,
    secret: Seq<u8>,
    format: JsonFormat,
    color: bool,
)
    ensures
        match encoded_spec(input, secret) {
            Err(kind) => kind == ErrorKind::Json && parsed_text(input) is None,
            Ok(token) => {
                &&& parsed_text(input) matches Some(text)
                &&& payload_spec(token) == Ok::<Seq<u8>, ErrorKind>(text)
                &&& decoded_spec(token, format, color) == (match parsed_text(text) {
                    Some(parsed) => Ok::<Seq<u8>, ErrorKind>(render_spec(parsed, format, color)),
                    None => Err::<Seq<u8>, ErrorKind>(ErrorKind::Json),
                })
                &&& parsed_text(text) == Some(text) ==> decoded_spec(token, format, color) == Ok::<
                    Seq<u8>,
                    ErrorKind,
                >(render_spec(text, format, color))
            },
        },
{
    if parsed_text(input) is Some {
        let text = parsed_text(input)->Some_0;
        lemma_payload_of_token(text, secret);
    }
}

/// Encoding depends on the value alone: two JSON texts that parse to the
/// same value, however they are laid out, give the same token under the
/// same secret.
pub proof fn lemma_layout_ignored(a: Seq<u8>, b: Seq<u8>, secret: Seq<u8>)
    ensures
        parsed_text(a) == parsed_text(b) ==> encoded_spec(a, secret) == encoded_spec(b, secret),
{
}

/// The token of JSON text has the shape of the wire format: ASCII text
/// with exactly two separators and nothing but symbols between them. Its
/// header segment is the encoding of the header, its payload segment the
/// encoding of the value's compact text, and where the tag has its 32 bytes
/// the signature segment has 43 symbols.
pub proof fn lemma_encoded_shape(input: Seq<u8>, secret: Seq<u8>)
    ensures
        encoded_spec(input, secret) is Ok <==> parsed_text(input) is Some,
        encoded_spec(input, secret) matches Ok(token) ==> {
            &&& is_ascii(token)
            &&& dot_count(token) == 2
            &&& forall|i: int| 0 <= i < token.len() ==> is_symbol(#[trigger] token[i]) || token[i] == DOT
            &&& split_spec(token) matches Some((header, payload, signature))
            &&& header == encode_spec(HEADER@)
            &&& header.len() == 36
            &&& decode_spec(header) == Some(HEADER@)
            &&& payload == encode_spec(parsed_text(input)->Some_0)
            &&& signature == signature_segment(parsed_text(input)->Some_0, secret)
            &&& hmac_sha256(secret, signing_input(parsed_text(input)->Some_0)).len() == TAG_LEN
                ==> signature.len() == SIGNATURE_LEN
        },
{
    if parsed_text(input) is Some {
        let text = parsed_text(input)->Some_0;
        lemma_token_segments(text, secret);
        lemma_encode_symbols(HEADER@);
        lemma_encode_symbols(hmac_sha256(secret, signing_input(text)));
    }
}

/// What is rendered ends in a line feed, and before it stands the text of
/// the layout asked for: for the compact layout without color, the claims'
/// compact text itself.
pub proof fn lemma_render_shape(text: Seq<u8>, format: JsonFormat, color: bool)
    ensures
        render_spec(text, format, color).len() == body_spec(text, format, color).len() + 1,
        render_spec(text, format, color).last() == NEWLINE,
        render_spec(text, format, color).drop_last() == body_spec(text, format, color),
        render_spec(text, JsonFormat::Compact, false) == text.push(NEWLINE),
        render_spec(text, JsonFormat::Pretty, false) == pretty_text(text).push(NEWLINE),
{
    assert(render_spec(text, format, color).drop_last() =~= body_spec(text, format, color));
}

/// Decoding ignores the signature: two tokens that are both text and differ
/// in their signature segments only decode alike, to the same claims and
/// the same rendered text, or to the same kind of error.
pub proof fn lemma_signature_ignored(
    header: Seq<u8>,
    payload: Seq<u8>,
    signature: Seq<u8>,
    other: Seq<u8>,
)
    requires
        dot_free(header),
        dot_free(payload),
        dot_free(signature),
        dot_free(other),
        valid_utf8(join_spec(header, payload, signature)),
        valid_utf8(join_spec(header, payload, other)),
    ensures
        payload_spec(join_spec(header, payload, signature)) == payload_spec(
            join_spec(header, payload, other),
        ),
        claims_spec(join_spec(header, payload, signature)) == claims_spec(
            join_spec(header, payload, other),
        ),
        forall|format: JsonFormat, color: bool|
            #[trigger] decoded_spec(join_spec(header, payload, signature), format, color)
                == decoded_spec(join_spec(header, payload, other), format, color),
{
    lemma_split_join(header, payload, signature);
    lemma_split_join(header, payload, other);
}

/// What a token decodes to depends on its header and payload segments
/// alone: on whether both are base64url text, and on what the payload holds.
pub proof fn lemma_claims_of_segments(header: Seq<u8>, payload: Seq<u8>, signature: Seq<u8>)
    requires
        dot_free(header),
        dot_free(payload),
        dot_free(signature),
        valid_utf8(join_spec(header, payload, signature)),
    ensures
        claims_spec(join_spec(header, payload, signature)) == (if decode_spec(header) is None
            || decode_spec(payload) is None {
            Err::<Seq<u8>, ErrorKind>(ErrorKind::Codec)
        } else {
            match parsed_text(decode_spec(payload)->Some_0) {
                None => Err::<Seq<u8>, ErrorKind>(ErrorKind::Json),
                Some(text) => Ok::<Seq<u8>, ErrorKind>(text),
            }
        }),
{
    lemma_split_join(header, payload, signature);
}

/// How many `.` characters `chars` holds.
pub open spec fn char_dots(chars: Seq<char>) -> nat
    decreases chars.len(),
{
    if chars.len() == 0 {
        0
    } else {
        char_dots(chars.drop_first()) + if chars[0] == '.' {
            1nat
        } else {
            0nat
        }
    }
}

/// Of the bytes that UTF-8 writes for a scalar, only the single byte of
/// U+002E is a separator.
proof fn lemma_scalar_bytes(scalar: u32)
    by (bit_vector)
    ensures
        scalar <= 0x7f ==> ((scalar & 0x7f) as u8 == 0x2e <==> scalar == 0x2e),
        0xc0u8 | ((scalar >> 6) & 0x1f) as u8 != 0x2e,
        0xe0u8 | ((scalar >> 12) & 0x0f) as u8 != 0x2e,
        0xf0u8 | ((scalar >> 18) & 0x7) as u8 != 0x2e,
        0x80u8 | (scalar & 0x3f) as u8 != 0x2e,
        0x80u8 | ((scalar >> 6) & 0x3f) as u8 != 0x2e,
        0x80u8 | ((scalar >> 12) & 0x3f) as u8 != 0x2e,
{
}

/// The UTF-8 bytes of one character hold a separator exactly when the
/// character is `.`, and then one.
proof fn lemma_scalar_dots(c: char)
    ensures
        dot_count(encode_scalar(c as u32)) == if c == '.' {
            1nat
        } else {
            0nat
        },
{
    let scalar = c as u32;
    let bytes = encode_scalar(scalar);
    lemma_scalar_bytes(scalar);
    if has_width_1_encoding(scalar) {
        assert(bytes.drop_last() =~= Seq::<u8>::empty());
        assert(dot_count(bytes.drop_last()) == 0);
        assert(bytes.last() == (scalar & 0x7f) as u8);
        assert(c == '.' <==> scalar == 0x2e);
    } else {
        assert(scalar != 0x2e);
        assert(dot_free(bytes));
        lemma_dot_free_count(bytes);
    }
}

/// The UTF-8 bytes of a text hold as many separators as the text holds `.`
/// characters.
pub proof fn lemma_text_dots(chars: Seq<char>)
    ensures
        dot_count(encode_utf8(chars)) == char_dots(chars),
    decreases chars.len(),
{
    if chars.len() > 0 {
        lemma_scalar_dots(chars[0]);
        lemma_text_dots(chars.drop_first());
        lemma_dot_count_concat(encode_scalar(chars[0] as u32), encode_utf8(chars.drop_first()));
    }
}

/// A text can be cut into the three segments of a token exactly when it
/// holds two `.` characters.
pub proof fn lemma_split_text(chars: Seq<char>)
    ensures
        split_spec(encode_utf8(chars)) is Some <==> char_dots(chars) == 2,
{
    lemma_text_dots(chars);
}

} // verus!
