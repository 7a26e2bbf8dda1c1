use jwt_codec::error::FramingError;
use jwt_codec::framing::{join, split, Segments, DOT};

#[test]
fn splits_at_the_two_separators() {
    assert_eq!(
        split(b"a.b.c"),
        Ok(Segments {
            header: b"a",
            payload: b"b",
            signature: b"c"
        })
    );
    assert_eq!(
        split(b"head.payload.sig"),
        Ok(Segments {
            header: b"head",
            payload: b"payload",
            signature: b"sig"
        })
    );
}

#[test]
fn accepts_empty_segments() {
    assert_eq!(
        split(b".."),
        Ok(Segments {
            header: b"",
            payload: b"",
            signature: b""
        })
    );
    assert_eq!(
        split(b"a.."),
        Ok(Segments {
            header: b"a",
            payload: b"",
            signature: b""
        })
    );
    assert_eq!(
        split(b".b."),
        Ok(Segments {
            header: b"",
            payload: b"b",
            signature: b""
        })
    );
    assert_eq!(
        split(b"..c"),
        Ok(Segments {
            header: b"",
            payload: b"",
            signature: b"c"
        })
    );
}

#[test]
fn refuses_too_few_separators() {
    assert_eq!(split(b""), Err(FramingError::SegmentCount));
    assert_eq!(split(b"not-a-token"), Err(FramingError::SegmentCount));
    assert_eq!(split(b"a.b"), Err(FramingError::SegmentCount));
    assert_eq!(split(b"."), Err(FramingError::SegmentCount));
}

#[test]
fn refuses_too_many_separators() {
    assert_eq!(split(b"a.b.c.d"), Err(FramingError::SegmentCount));
    assert_eq!(split(b"..."), Err(FramingError::SegmentCount));
    assert_eq!(split(b"a.b.c."), Err(FramingError::SegmentCount));
    assert_eq!(split(b".a.b.c"), Err(FramingError::SegmentCount));
    assert_eq!(split(b"a.b.c.d.e.f"), Err(FramingError::SegmentCount));
}

#[test]
fn splitting_succeeds_exactly_on_two_separators() {
    let alphabet = [b'a', DOT, b'-'];
    let mut texts: Vec<Vec<u8>> = vec![Vec::new()];
    for _ in 0..7 {
        let mut longer = Vec::new();
        for text in &texts {
            for &c in &alphabet {
                let mut next = text.clone();
                next.push(c);
                longer.push(next);
            }
        }
        for text in &longer {
            let dots = text.iter().filter(|&&c| c == DOT).count();
            assert_eq!(split(text).is_ok(), dots == 2);
        }
        texts = longer;
    }
}

#[test]
fn joins_with_separators() {
    assert_eq!(join(b"a", b"b", b"c"), b"a.b.c");
    assert_eq!(join(b"", b"", b""), b"..");
    assert_eq!(join(b"head", b"", b"sig"), b"head..sig");
}

#[test]
fn splitting_undoes_joining() {
    let parts: [&[u8]; 4] = [b"", b"x", b"eyJ0", b"a-b_c"];
    for header in parts {
        for payload in parts {
            for signature in parts {
                let token = join(header, payload, signature);
                assert_eq!(
                    split(&token),
                    Ok(Segments {
                        header,
                        payload,
                        signature
                    })
                );
            }
        }
    }
}

#[test]
fn joining_undoes_splitting() {
    let tokens: [&[u8]; 4] = [b"a.b.c", b"..", b"eyJ0.e30.", b".x.yz"];
    for token in tokens {
        let segments = split(token).unwrap();
        assert_eq!(
            join(segments.header, segments.payload, segments.signature),
            token
        );
    }
}
