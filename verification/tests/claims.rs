use jwt_codec::claims::Claims;
use jwt_codec::cli::JsonFormat;
use jwt_codec::error::{Error, ErrorKind};

#[test]
fn parses_any_json_value() {
    for text in ["null", "false", "12", "\"s\"", "[]", "{}", " [ 1 , 2 ] "] {
        let expected: serde_json::Value = serde_json::from_str(text).unwrap();
        assert_eq!(Claims::parse(text.as_bytes()).unwrap(), Claims::new(expected));
    }
}

#[test]
fn parsing_reads_the_text() {
    let claims = Claims::parse(b" { \"b\" : 1 , \"a\" : [ true ] } ").unwrap();
    let value = claims.into_value();
    assert_eq!(value["b"], serde_json::Value::from(1));
    assert_eq!(value["a"][0], serde_json::Value::from(true));
    assert_eq!(value.as_object().unwrap().len(), 2);
}

#[test]
fn parsing_refuses_what_is_not_json() {
    for text in ["", "{", "tru", "[1 2]", "{\"a\":1}x", "'a'"] {
        let error = Claims::parse(text.as_bytes()).unwrap_err();
        assert!(matches!(error, Error::Json(_)));
        assert_eq!(error.kind(), ErrorKind::Json);
    }
}

#[test]
fn compact_text_has_no_spaces_between_tokens() {
    let claims = Claims::parse(b" { \"b\" : 1 , \"a\" : [ true , \"x y\" ] } ").unwrap();
    assert_eq!(claims.to_compact().unwrap(), b"{\"a\":[true,\"x y\"],\"b\":1}");
    assert_eq!(
        claims.write(&JsonFormat::Compact, false).unwrap(),
        b"{\"a\":[true,\"x y\"],\"b\":1}"
    );
}

#[test]
fn writes_each_layout() {
    let claims = Claims::parse(b"{\"a\":\"b\"}").unwrap();
    assert_eq!(
        claims.write(&JsonFormat::Pretty, false).unwrap(),
        b"{\n  \"a\": \"b\"\n}"
    );
    let key = "\x1b[1;34m\"\x1b[0m\x1b[1;34ma\x1b[0m\x1b[1;34m\"\x1b[0m";
    let value = "\x1b[32m\"\x1b[0m\x1b[32mb\x1b[0m\x1b[32m\"\x1b[0m";
    assert_eq!(
        claims.write(&JsonFormat::Compact, true).unwrap(),
        format!("\x1b[1m{{\x1b[0m{}:{}\x1b[1m}}\x1b[0m", key, value).into_bytes()
    );
    assert_eq!(
        claims.write(&JsonFormat::Pretty, true).unwrap(),
        format!("\x1b[1m{{\x1b[0m\n  {}: {}\x1b[1m\n}}\x1b[0m", key, value).into_bytes()
    );
}

#[test]
fn value_comes_back_unchanged() {
    let value: serde_json::Value = serde_json::from_str("{\"a\":[1,2.5,\"x\"]}").unwrap();
    let again: serde_json::Value = serde_json::from_str("{\"a\":[1,2.5,\"x\"]}").unwrap();
    assert_eq!(Claims::new(value).into_value(), again);
}
