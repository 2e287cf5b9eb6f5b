use kak_tree_sitter::Request;
use kak_tree_sitter::decode;
use kak_tree_sitter::encode;

fn highlight(session: &str, buffer: &str, language: &str, path: &str) -> Request {
    Request::Highlight {
        session: session.to_owned(),
        buffer: buffer.to_owned(),
        language: language.to_owned(),
        path: path.to_owned(),
    }
}

#[test]
fn encode_exact_wire_form() {
    let r = highlight("s1", "b1", "rust-like", "/tmp/f.rs");
    let encoded = encode(&r);
    assert_eq!(
        encoded,
        "{\"kind\":\"Highlight\",\"session\":\"s1\",\"buffer\":\"b1\",\
         \"language\":\"rust-like\",\"path\":\"/tmp/f.rs\"}"
    );
}

#[test]
fn encode_escapes_quotes_and_backslashes() {
    let r = highlight("s\"1", "b\\1", "rust", "/tmp/a b.rs");
    let encoded = encode(&r);
    assert_eq!(
        encoded,
        "{\"kind\":\"Highlight\",\"session\":\"s\\\"1\",\"buffer\":\"b\\\\1\",\
         \"language\":\"rust\",\"path\":\"/tmp/a b.rs\"}"
    );
}

#[test]
fn round_trip_plain() {
    let r = highlight("s1", "b1", "rust-like", "/tmp/f.rs");
    let decoded = decode(&encode(&r)).expect("round trip decodes");
    assert_eq!(decoded, r);
}

#[test]
fn round_trip_special_characters() {
    let r = highlight("se\"ss\\ion", "buf\nfer", "ru\"st", "/tmp/\\weird\"/f.rs");
    let decoded = decode(&encode(&r)).expect("round trip decodes");
    assert_eq!(decoded, r);
}

#[test]
fn round_trip_empty_fields() {
    let r = highlight("", "", "", "");
    let decoded = decode(&encode(&r)).expect("round trip decodes");
    assert_eq!(decoded, r);
}

#[test]
fn decode_literal_payload() {
    let payload =
        "{\"kind\":\"Highlight\",\"session\":\"sess\",\"buffer\":\"buf\",\
         \"language\":\"rust\",\"path\":\"/tmp/x.rs\"}";
    let decoded = decode(payload).expect("well-formed payload decodes");
    assert_eq!(decoded, highlight("sess", "buf", "rust", "/tmp/x.rs"));
}

#[test]
fn decode_unknown_kind_is_error() {
    let payload =
        "{\"kind\":\"Edit\",\"session\":\"s\",\"buffer\":\"b\",\
         \"language\":\"rust\",\"path\":\"/tmp/x.rs\"}";
    let err = decode(payload).expect_err("unknown kind is rejected");
    assert_eq!(err.payload, payload);
}

#[test]
fn decode_garbage_is_error() {
    let err = decode("not a request at all").expect_err("garbage is rejected");
    assert_eq!(err.payload, "not a request at all");
}

#[test]
fn decode_empty_payload_is_error() {
    assert!(decode("").is_err());
}

#[test]
fn decode_trailing_bytes_is_error() {
    let mut payload = encode(&highlight("s", "b", "rust", "/tmp/x.rs"));
    payload.push(' ');
    assert!(decode(&payload).is_err());
}

#[test]
fn decode_truncated_payload_is_error() {
    let payload = encode(&highlight("s", "b", "rust", "/tmp/x.rs"));
    let truncated = &payload[..payload.len() - 2];
    assert!(decode(truncated).is_err());
}

#[test]
fn decode_unknown_escape_is_error() {
    let payload =
        "{\"kind\":\"Highlight\",\"session\":\"a\\nb\",\"buffer\":\"b\",\
         \"language\":\"rust\",\"path\":\"/tmp/x.rs\"}";
    assert!(decode(payload).is_err());
}

#[test]
fn decode_missing_field_is_error() {
    let payload = "{\"kind\":\"Highlight\",\"session\":\"s\",\"buffer\":\"b\"}";
    assert!(decode(payload).is_err());
}
