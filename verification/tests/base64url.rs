use jwt_codec::base64url::{decode, encode};
use jwt_codec::error::CodecError;

const ALPHABET: &[u8; 64] = b"ABCDEFGHIJKLMNOPQRSTUVWXYZabcdefghijklmnopqrstuvwxyz0123456789-_";

#[test]
fn encodes_the_standard_vectors() {
    assert_eq!(encode(b""), b"");
    assert_eq!(encode(b"f"), b"Zg");
    assert_eq!(encode(b"fo"), b"Zm8");
    assert_eq!(encode(b"foo"), b"Zm9v");
    assert_eq!(encode(b"foob"), b"Zm9vYg");
    assert_eq!(encode(b"fooba"), b"Zm9vYmE");
    assert_eq!(encode(b"foobar"), b"Zm9vYmFy");
}

#[test]
fn decodes_the_standard_vectors() {
    assert_eq!(decode(b""), Ok(b"".to_vec()));
    assert_eq!(decode(b"Zg"), Ok(b"f".to_vec()));
    assert_eq!(decode(b"Zm8"), Ok(b"fo".to_vec()));
    assert_eq!(decode(b"Zm9v"), Ok(b"foo".to_vec()));
    assert_eq!(decode(b"Zm9vYg"), Ok(b"foob".to_vec()));
    assert_eq!(decode(b"Zm9vYmE"), Ok(b"fooba".to_vec()));
    assert_eq!(decode(b"Zm9vYmFy"), Ok(b"foobar".to_vec()));
}

#[test]
fn uses_the_url_safe_symbols() {
    assert_eq!(encode(&[0xfb, 0xff]), b"-_8");
    assert_eq!(encode(&[0xff, 0xff, 0xfe]), b"___-");
    assert_eq!(decode(b"-_8"), Ok(vec![0xfb, 0xff]));
    assert_eq!(decode(b"___-"), Ok(vec![0xff, 0xff, 0xfe]));
    assert_eq!(decode(b"+/8"), Err(CodecError::InvalidEncoding));
    assert_eq!(decode(b"///+"), Err(CodecError::InvalidEncoding));
}

#[test]
fn each_sextet_has_its_symbol() {
    for v in 0..64u8 {
        let text = encode(&[v << 2]);
        assert_eq!(text, vec![ALPHABET[v as usize], b'A']);
        let text = encode(&[0, 0, v]);
        assert_eq!(text, vec![b'A', b'A', b'A', ALPHABET[v as usize]]);
    }
}

#[test]
fn writes_no_padding() {
    for len in 0..50usize {
        let bytes = vec![0xa5u8; len];
        let text = encode(&bytes);
        assert_eq!(text.len(), (4 * len + 2) / 3);
        assert!(text.iter().all(|c| ALPHABET.contains(c)));
    }
}

#[test]
fn refuses_padding() {
    assert_eq!(decode(b"Zg=="), Err(CodecError::InvalidEncoding));
    assert_eq!(decode(b"Zm8="), Err(CodecError::InvalidEncoding));
    assert_eq!(decode(b"="), Err(CodecError::InvalidEncoding));
    assert_eq!(decode(b"Zm9v===="), Err(CodecError::InvalidEncoding));
}

#[test]
fn refuses_a_length_that_no_bytes_give() {
    assert_eq!(decode(b"Z"), Err(CodecError::InvalidEncoding));
    assert_eq!(decode(b"Zm9vY"), Err(CodecError::InvalidEncoding));
    assert_eq!(decode(b"a"), Err(CodecError::InvalidEncoding));
    assert_eq!(decode(b"b"), Err(CodecError::InvalidEncoding));
}

#[test]
fn refuses_bits_beyond_the_last_byte() {
    assert_eq!(decode(b"Zh"), Err(CodecError::InvalidEncoding));
    assert_eq!(decode(b"Zm9"), Err(CodecError::InvalidEncoding));
    assert_eq!(decode(b"QQ"), Ok(b"A".to_vec()));
    assert_eq!(decode(b"QR"), Err(CodecError::InvalidEncoding));
}

#[test]
fn refuses_bytes_outside_the_alphabet() {
    for c in 0..=255u8 {
        let text = [b'Z', b'm', b'9', c];
        if ALPHABET.contains(&c) {
            assert!(decode(&text).is_ok());
        } else {
            assert_eq!(decode(&text), Err(CodecError::InvalidEncoding));
        }
    }
    assert_eq!(decode(b"Zm 9v"), Err(CodecError::InvalidEncoding));
    assert_eq!(decode(b"Zm9v\n"), Err(CodecError::InvalidEncoding));
    assert_eq!(decode(b"Z.9v"), Err(CodecError::InvalidEncoding));
}

#[test]
fn decoding_undoes_encoding() {
    let mut bytes = Vec::new();
    for len in 0..300usize {
        assert_eq!(decode(&encode(&bytes)), Ok(bytes.clone()));
        bytes.push((len * 37 + 11) as u8);
    }
    for a in 0..=255u8 {
        assert_eq!(decode(&encode(&[a])), Ok(vec![a]));
        for b in [0u8, 1, 0x0f, 0x10, 0x7f, 0x80, 0xf0, 0xff] {
            assert_eq!(decode(&encode(&[a, b])), Ok(vec![a, b]));
            assert_eq!(decode(&encode(&[b, a, b])), Ok(vec![b, a, b]));
        }
    }
}

#[test]
fn encoding_undoes_decoding() {
    for &a in ALPHABET.iter() {
        for &b in ALPHABET.iter() {
            for text in [vec![a, b], vec![a, b, b'A'], vec![b'_', a, b], vec![a, b, a, b]] {
                if let Ok(bytes) = decode(&text) {
                    assert_eq!(encode(&bytes), text);
                }
            }
        }
    }
}

#[test]
fn encodes_as_the_base64_crate_does() {
    let mut bytes = Vec::new();
    for len in 0..200usize {
        let expected = base64::encode_config(&bytes, base64::URL_SAFE_NO_PAD);
        assert_eq!(encode(&bytes), expected.into_bytes());
        bytes.push((len * 101 + 7) as u8);
    }
    for a in 0..=255u8 {
        for b in 0..=255u8 {
            let expected = base64::encode_config([a, b], base64::URL_SAFE_NO_PAD);
            assert_eq!(encode(&[a, b]), expected.into_bytes());
        }
    }
}

#[test]
fn decodes_unpadded_text_as_the_base64_crate_does() {
    let mut symbols = ALPHABET.to_vec();
    symbols.extend_from_slice(b"+/. \n");
    let mut texts: Vec<Vec<u8>> = vec![Vec::new()];
    for &a in &symbols {
        texts.push(vec![a]);
        for &b in &symbols {
            texts.push(vec![a, b]);
            for &c in &symbols {
                texts.push(vec![a, b, c]);
                texts.push(vec![b'T', a, b, c]);
                texts.push(vec![a, b, c, b'w', b'_']);
            }
        }
    }
    for text in texts {
        let expected = base64::decode_config(&text, base64::URL_SAFE_NO_PAD).ok();
        assert_eq!(decode(&text).ok(), expected);
    }
}
