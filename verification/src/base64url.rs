//! The unpadded, URL-safe base64 encoding of every token segment.
//!
//! Text is handled as ASCII bytes. Three octets become four symbols; a
//! trailing group of one or two octets becomes two or three symbols, and
//! no padding is written. Decoding accepts exactly the texts that encoding
//! produces.

use crate::error::CodecError;
use vstd::prelude::*;

verus! {

/// Whether `c` is one of the 64 symbols: `A`-`Z`, `a`-`z`, `0`-`9`, `-`, `_`.
pub open spec fn is_symbol(c: u8) -> bool {
    ||| 0x41 <= c <= 0x5a
    ||| 0x61 <= c <= 0x7a
    ||| 0x30 <= c <= 0x39
    ||| c == 0x2d
    ||| c == 0x5f
}

/// The symbol that stands for the six-bit value `v`.
pub open spec fn symbol_of(v: int) -> u8 {
    if v < 26 {
        (0x41 + v) as u8
    } else if v < 52 {
        (0x61 + (v - 26)) as u8
    } else if v < 62 {
        (0x30 + (v - 52)) as u8
    } else if v == 62 {
        0x2d
    } else {
        0x5f
    }
}

/// The six-bit value that the symbol `c` stands for.
pub open spec fn value_of(c: u8) -> int {
    if 0x41 <= c <= 0x5a {
        c - 0x41
    } else if 0x61 <= c <= 0x7a {
        c - 0x61 + 26
    } else if 0x30 <= c <= 0x39 {
        c - 0x30 + 52
    } else if c == 0x2d {
        62
    } else {
        63
    }
}

/// The octet at position `i`, or zero past the end.
pub open spec fn octet_or_zero(bytes: Seq<u8>, i: int) -> int {
    if 0 <= i < bytes.len() {
        bytes[i] as int
    } else {
        0
    }
}

/// The six-bit value at position `j` of the encoding of `bytes`.
pub open spec fn sextet_at(bytes: Seq<u8>, j: int) -> int {
    let g = j / 4;
    let k = j % 4;
    if k == 0 {
        octet_or_zero(bytes, 3 * g) / 4
    } else if k == 1 {
        (octet_or_zero(bytes, 3 * g) % 4) * 16 + octet_or_zero(bytes, 3 * g + 1) / 16
    } else if k == 2 {
        (octet_or_zero(bytes, 3 * g + 1) % 16) * 4 + octet_or_zero(bytes, 3 * g + 2) / 64
    } else {
        octet_or_zero(bytes, 3 * g + 2) % 64
    }
}

/// How many symbols encode `n` octets.
pub open spec fn encoded_len(n: nat) -> nat {
    ((4 * n + 2) / 3) as nat
}

/// The encoding of `bytes`.
pub open spec fn encode_spec(bytes: Seq<u8>) -> Seq<u8> {
    Seq::new(encoded_len(bytes.len()), |j: int| symbol_of(sextet_at(bytes, j)))
}

/// The value of the symbol at position `j`, or zero past the end.
pub open spec fn value_or_zero(text: Seq<u8>, j: int) -> int {
    if 0 <= j < text.len() {
        value_of(text[j])
    } else {
        0
    }
}

/// The octet at position `i` of what `text` decodes to.
pub open spec fn octet_at(text: Seq<u8>, i: int) -> int {
    let g = i / 3;
    let k = i % 3;
    if k == 0 {
        value_or_zero(text, 4 * g) * 4 + value_or_zero(text, 4 * g + 1) / 16
    } else if k == 1 {
        (value_or_zero(text, 4 * g + 1) % 16) * 16 + value_or_zero(text, 4 * g + 2) / 4
    } else {
        (value_or_zero(text, 4 * g + 2) % 4) * 64 + value_or_zero(text, 4 * g + 3)
    }
}

/// How many octets `m` symbols decode to.
pub open spec fn decoded_len(m: nat) -> nat {
    ((3 * m) / 4) as nat
}

/// Whether `text` is well formed: only symbols, a length that some number
/// of octets gives, and no set bit in the last symbol beyond the last octet.
pub open spec fn is_canonical(text: Seq<u8>) -> bool {
    &&& forall|j: int| 0 <= j < text.len() ==> is_symbol(#[trigger] text[j])
    &&& text.len() % 4 != 1
    &&& text.len() % 4 == 2 ==> value_or_zero(text, text.len() - 1) % 16 == 0
    &&& text.len() % 4 == 3 ==> value_or_zero(text, text.len() - 1) % 4 == 0
}

/// The octets that a well-formed `text` stands for.
pub open spec fn decoded_octets(text: Seq<u8>) -> Seq<u8> {
    Seq::new(decoded_len(text.len()), |i: int| octet_at(text, i) as u8)
}

/// What `text` decodes to: its octets if it is well formed, nothing otherwise.
pub open spec fn decode_spec(text: Seq<u8>) -> Option<Seq<u8>> {
    if is_canonical(text) {
        Some(decoded_octets(text))
    } else {
        None
    }
}

/// The symbol for a six-bit value.
fn symbol(v: u8) -> (c: u8)
    requires
        v < 64,
    ensures
        c == symbol_of(v as int),
        is_symbol(c),
        value_of(c) == v,
{
    if v < 26 {
        0x41 + v
    } else if v < 52 {
        0x61 + (v - 26)
    } else if v < 62 {
        0x30 + (v - 52)
    } else if v == 62 {
        0x2d
    } else {
        0x5f
    }
}

/// The six-bit value of a symbol, if `c` is one.
fn value(c: u8) -> (v: Option<u8>)
    ensures
        v is Some <==> is_symbol(c),
        v matches Some(x) ==> x < 64 && x == value_of(c) && symbol_of(x as int) == c,
{
    if 0x41 <= c && c <= 0x5a {
        Some(c - 0x41)
    } else if 0x61 <= c && c <= 0x7a {
        Some(c - 0x61 + 26)
    } else if 0x30 <= c && c <= 0x39 {
        Some(c - 0x30 + 52)
    } else if c == 0x2d {
        Some(62)
    } else if c == 0x5f {
        Some(63)
    } else {
        None
    }
}

/// Encodes `bytes` as unpadded base64url text.
pub fn encode(bytes: &[u8]) -> (text: Vec<u8>)
    ensures
        text@ == encode_spec(bytes@),
{
    let n = bytes.len();
    let mut text: Vec<u8> = Vec::new();
    let mut i: usize = 0;
    while n - i >= 3
        invariant
            n == bytes@.len(),
            i <= n,
            i % 3 == 0,
            text@.len() == (i / 3) * 4,
            forall|j: int| 0 <= j < text@.len() ==> text@[j] == symbol_of(sextet_at(bytes@, j)),
        decreases n - i,
    {
        let b0 = bytes[i];
        let b1 = bytes[i + 1];
        let b2 = bytes[i + 2];
        let ghost before = text@;
        text.push(symbol(b0 / 4));
        text.push(symbol((b0 % 4) * 16 + b1 / 16));
        text.push(symbol((b1 % 16) * 4 + b2 / 64));
        text.push(symbol(b2 % 64));
        i = i + 3;
        assert forall|j: int| 0 <= j < text@.len() implies text@[j] == symbol_of(
            sextet_at(bytes@, j),
        ) by {
            if j < before.len() {
                assert(text@[j] == before[j]);
            }
        }
    }
    if n - i == 1 {
        let b0 = bytes[i];
        let ghost before = text@;
        text.push(symbol(b0 / 4));
        text.push(symbol((b0 % 4) * 16));
        assert forall|j: int| 0 <= j < text@.len() implies text@[j] == symbol_of(
            sextet_at(bytes@, j),
        ) by {
            if j < before.len() {
                assert(text@[j] == before[j]);
            }
        }
    } else if n - i == 2 {
        let b0 = bytes[i];
        let b1 = bytes[i + 1];
        let ghost before = text@;
        text.push(symbol(b0 / 4));
        text.push(symbol((b0 % 4) * 16 + b1 / 16));
        text.push(symbol((b1 % 16) * 4));
        assert forall|j: int| 0 <= j < text@.len() implies text@[j] == symbol_of(
            sextet_at(bytes@, j),
        ) by {
            if j < before.len() {
                assert(text@[j] == before[j]);
            }
        }
    }
    assert(text@.len() == encoded_len(bytes@.len()));
    assert(text@ =~= encode_spec(bytes@));
    text
}

/// The six-bit value of the symbol at position `j` of `text`; an error if
/// the byte there is no symbol, in which case `text` is not well formed.
fn value_at(text: &[u8], j: usize) -> (r: Result<u8, CodecError>)
    requires
        j < text@.len(),
    ensures
        match r {
            Ok(v) => is_symbol(text@[j as int]) && v < 64 && v == value_of(text@[j as int]),
            Err(e) => e == CodecError::InvalidEncoding && decode_spec(text@) is None,
        },
{
    match value(text[j]) {
        Some(v) => Ok(v),
        None => {
            assert(!is_symbol(text@[j as int]));
            Err(CodecError::InvalidEncoding)
        },
    }
}

/// Decodes unpadded base64url `text`.
///
/// Succeeds exactly on the texts that `encode` produces; anything else,
/// padding included, is `InvalidEncoding`.
pub fn decode(text: &[u8]) -> (r: Result<Vec<u8>, CodecError>)
    ensures
        match r {
            Ok(bytes) => decode_spec(text@) == Some(bytes@),
            Err(e) => e == CodecError::InvalidEncoding && decode_spec(text@) is None,
        },
{
    let m = text.len();
    if m % 4 == 1 {
        return Err(CodecError::InvalidEncoding);
    }
    let mut bytes: Vec<u8> = Vec::new();
    let mut j: usize = 0;
    while m - j >= 4
        invariant
            m == text@.len(),
            j <= m,
            j % 4 == 0,
            bytes@.len() == (j / 4) * 3,
            forall|k: int| 0 <= k < j ==> is_symbol(#[trigger] text@[k]),
            forall|i: int| 0 <= i < bytes@.len() ==> bytes@[i] == octet_at(text@, i) as u8,
        decreases m - j,
    {
        let v0 = value_at(text, j)?;
        let v1 = value_at(text, j + 1)?;
        let v2 = value_at(text, j + 2)?;
        let v3 = value_at(text, j + 3)?;
        let ghost before = bytes@;
        bytes.push(v0 * 4 + v1 / 16);
        bytes.push((v1 % 16) * 16 + v2 / 4);
        bytes.push((v2 % 4) * 64 + v3);
        j = j + 4;
        assert forall|i: int| 0 <= i < bytes@.len() implies bytes@[i] == octet_at(
            text@,
            i,
        ) as u8 by {
            if i < before.len() {
                assert(bytes@[i] == before[i]);
            }
        }
    }
    if m - j == 2 {
        let v0 = value_at(text, j)?;
        let v1 = value_at(text, j + 1)?;
        if v1 % 16 != 0 {
            return Err(CodecError::InvalidEncoding);
        }
        let ghost before = bytes@;
        bytes.push(v0 * 4 + v1 / 16);
        assert forall|i: int| 0 <= i < bytes@.len() implies bytes@[i] == octet_at(
            text@,
            i,
        ) as u8 by {
            if i < before.len() {
                assert(bytes@[i] == before[i]);
            }
        }
    } else if m - j == 3 {
        let v0 = value_at(text, j)?;
        let v1 = value_at(text, j + 1)?;
        let v2 = value_at(text, j + 2)?;
        if v2 % 4 != 0 {
            return Err(CodecError::InvalidEncoding);
        }
        let ghost before = bytes@;
        bytes.push(v0 * 4 + v1 / 16);
        bytes.push((v1 % 16) * 16 + v2 / 4);
        assert forall|i: int| 0 <= i < bytes@.len() implies bytes@[i] == octet_at(
            text@,
            i,
        ) as u8 by {
            if i < before.len() {
                assert(bytes@[i] == before[i]);
            }
        }
    }
    assert(is_canonical(text@));
    assert(bytes@.len() == decoded_len(text@.len()));
    assert(bytes@ =~= decoded_octets(text@));
    Ok(bytes)
}

/// Every six-bit value has a symbol, and the symbol gives the value back.
pub proof fn lemma_symbol_value(v: int)
    requires
        0 <= v < 64,
    ensures
        is_symbol(symbol_of(v)),
        value_of(symbol_of(v)) == v,
{
}

/// Every symbol has a six-bit value, and the value gives the symbol back.
pub proof fn lemma_value_symbol(c: u8)
    requires
        is_symbol(c),
    ensures
        0 <= value_of(c) < 64,
        symbol_of(value_of(c)) == c,
{
}

/// The values that `sextet_at` gives are six-bit values.
pub proof fn lemma_sextet_range(bytes: Seq<u8>, j: int)
    requires
        0 <= j,
    ensures
        0 <= sextet_at(bytes, j) < 64,
{
}

/// An encoding holds symbols only, so in particular no `.`.
pub proof fn lemma_encode_symbols(bytes: Seq<u8>)
    ensures
        encode_spec(bytes).len() == encoded_len(bytes.len()),
        forall|j: int|
            0 <= j < encode_spec(bytes).len() ==> is_symbol(#[trigger] encode_spec(bytes)[j]),
{
    let text = encode_spec(bytes);
    assert forall|j: int| 0 <= j < text.len() implies is_symbol(#[trigger] text[j]) by {
        lemma_sextet_range(bytes, j);
        lemma_symbol_value(sextet_at(bytes, j));
    }
}

/// Within an encoding, the value of the symbol at `j` is the sextet at `j`.
proof fn lemma_encoded_value(bytes: Seq<u8>, j: int)
    requires
        0 <= j < encoded_len(bytes.len()),
    ensures
        value_or_zero(encode_spec(bytes), j) == sextet_at(bytes, j),
{
    lemma_sextet_range(bytes, j);
    lemma_symbol_value(sextet_at(bytes, j));
}

/// An encoding is well formed.
pub proof fn lemma_encode_canonical(bytes: Seq<u8>)
    ensures
        is_canonical(encode_spec(bytes)),
        decoded_len(encode_spec(bytes).len()) == bytes.len(),
{
    let text = encode_spec(bytes);
    let n = bytes.len() as int;
    let m = text.len() as int;
    lemma_encode_symbols(bytes);
    assert(m == (4 * n + 2) / 3);
    if m % 4 == 2 {
        assert(n % 3 == 1);
        lemma_encoded_value(bytes, m - 1);
        assert((m - 1) / 4 == n / 3);
        assert((m - 1) % 4 == 1);
    }
    if m % 4 == 3 {
        assert(n % 3 == 2);
        lemma_encoded_value(bytes, m - 1);
        assert((m - 1) / 4 == n / 3);
        assert((m - 1) % 4 == 2);
    }
}

/// The octet at `i` of what an encoding decodes to is the octet encoded.
proof fn lemma_octet_of_encoding(bytes: Seq<u8>, i: int)
    requires
        0 <= i < bytes.len(),
    ensures
        octet_at(encode_spec(bytes), i) == bytes[i],
{
    let text = encode_spec(bytes);
    let n = bytes.len() as int;
    let g = i / 3;
    let k = i % 3;
    assert(text.len() == (4 * n + 2) / 3);
    if k == 0 {
        lemma_encoded_value(bytes, 4 * g);
        lemma_encoded_value(bytes, 4 * g + 1);
        assert((4 * g) / 4 == g && (4 * g) % 4 == 0);
        assert((4 * g + 1) / 4 == g && (4 * g + 1) % 4 == 1);
    } else if k == 1 {
        lemma_encoded_value(bytes, 4 * g + 1);
        lemma_encoded_value(bytes, 4 * g + 2);
        assert((4 * g + 1) / 4 == g && (4 * g + 1) % 4 == 1);
        assert((4 * g + 2) / 4 == g && (4 * g + 2) % 4 == 2);
    } else {
        lemma_encoded_value(bytes, 4 * g + 2);
        lemma_encoded_value(bytes, 4 * g + 3);
        assert((4 * g + 2) / 4 == g && (4 * g + 2) % 4 == 2);
        assert((4 * g + 3) / 4 == g && (4 * g + 3) % 4 == 3);
    }
}

/// Decoding undoes encoding: every byte sequence comes back from its
/// encoding unchanged.
pub proof fn lemma_decode_encode(bytes: Seq<u8>)
    ensures
        decode_spec(encode_spec(bytes)) == Some(bytes),
{
    let text = encode_spec(bytes);
    lemma_encode_canonical(bytes);
    assert forall|i: int| 0 <= i < bytes.len() implies decoded_octets(text)[i] == bytes[i] by {
        lemma_octet_of_encoding(bytes, i);
    }
    assert(decoded_octets(text) =~= bytes);
}

/// In a text of symbols every position has a six-bit value.
proof fn lemma_value_range(text: Seq<u8>, j: int)
    requires
        forall|k: int| 0 <= k < text.len() ==> is_symbol(#[trigger] text[k]),
    ensures
        0 <= value_or_zero(text, j) < 64,
{
    if 0 <= j < text.len() {
        assert(is_symbol(text[j]));
    }
}

/// The sextet at `j` of the encoding of what a well-formed text decodes to
/// is the value of the symbol at `j`.
proof fn lemma_sextet_of_decoding(text: Seq<u8>, j: int)
    requires
        is_canonical(text),
        0 <= j < text.len(),
    ensures
        sextet_at(decoded_octets(text), j) == value_of(text[j]),
{
    let bytes = decoded_octets(text);
    let m = text.len() as int;
    let g = j / 4;
    let k = j % 4;
    assert(bytes.len() == (3 * m) / 4);
    lemma_value_range(text, 4 * g);
    lemma_value_range(text, 4 * g + 1);
    lemma_value_range(text, 4 * g + 2);
    lemma_value_range(text, 4 * g + 3);
    assert((3 * g) / 3 == g && (3 * g) % 3 == 0);
    assert((3 * g + 1) / 3 == g && (3 * g + 1) % 3 == 1);
    assert((3 * g + 2) / 3 == g && (3 * g + 2) % 3 == 2);
    if 3 * g < bytes.len() {
        assert(bytes[3 * g] == octet_at(text, 3 * g) as u8);
    }
    if 3 * g + 1 < bytes.len() {
        assert(bytes[3 * g + 1] == octet_at(text, 3 * g + 1) as u8);
    }
    if 3 * g + 2 < bytes.len() {
        assert(bytes[3 * g + 2] == octet_at(text, 3 * g + 2) as u8);
    }
}

/// Encoding undoes decoding: a well-formed text is the encoding of what it
/// decodes to.
pub proof fn lemma_encode_decode(text: Seq<u8>)
    requires
        is_canonical(text),
    ensures
        encode_spec(decoded_octets(text)) == text,
{
    let bytes = decoded_octets(text);
    let m = text.len() as int;
    assert(bytes.len() == (3 * m) / 4);
    assert(encoded_len(bytes.len()) == m);
    assert forall|j: int| 0 <= j < m implies encode_spec(bytes)[j] == text[j] by {
        lemma_sextet_of_decoding(text, j);
        assert(is_symbol(text[j]));
        lemma_value_symbol(text[j]);
    }
    assert(encode_spec(bytes) =~= text);
}

/// A text decodes to `bytes` exactly when it is the encoding of `bytes`.
pub proof fn lemma_decode_iff_encoding(text: Seq<u8>, bytes: Seq<u8>)
    ensures
        decode_spec(text) == Some(bytes) <==> encode_spec(bytes) == text,
{
    if encode_spec(bytes) == text {
        lemma_decode_encode(bytes);
    }
    if decode_spec(text) == Some(bytes) {
        lemma_encode_decode(text);
    }
}

/// Two byte sequences with the same encoding are the same.
pub proof fn lemma_encode_injective(a: Seq<u8>, b: Seq<u8>)
    requires
        encode_spec(a) == encode_spec(b),
    ensures
        a == b,
{
    lemma_decode_encode(a);
    lemma_decode_encode(b);
}

} // verus!
