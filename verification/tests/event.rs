use agent_core::digest::digest_of;
use agent_core::error::{ProviderFailure, ProviderFailureKind};
use agent_core::event::{OutputStream, ToolOutputDeltaView};
use agent_core::json::{Json, JsonMember};
use agent_core::provider::ProviderError;

#[test]
fn a_fragment_survives_its_encoding() {
    let view = ToolOutputDeltaView {
        id: "c1".into(),
        stream: OutputStream::Stderr,
        chunk: vec![0xff, b'a', 0, 0xc3],
    };
    let encoded = view.encoded_chunk();
    assert_eq!(encoded, "/2EAww==");
    let back = ToolOutputDeltaView::from_encoded("c1", OutputStream::Stderr, &encoded).unwrap();
    assert_eq!(back, view);
    assert!(ToolOutputDeltaView::from_encoded("c1", OutputStream::Stderr, "***").is_none());
}

#[test]
fn a_fragment_that_is_no_text_shows_a_mark() {
    let view = ToolOutputDeltaView {
        id: "c1".into(),
        stream: OutputStream::Stdout,
        chunk: vec![b'o', b'k', 0xff],
    };
    assert_eq!(view.chunk_lossy(), "ok\u{fffd}");
}

#[test]
fn a_digest_is_the_known_one() {
    assert_eq!(
        digest_of("abc"),
        "ba7816bf8f01cfea414140de5dae2223b00361a396177a9cb410ff61f20015ad"
    );
}

#[test]
fn a_document_is_read_and_written_in_the_order_of_its_names() {
    let document = Json::parse(r#"{ "b": [1, -2, 2.5, null], "a": {"x": true} }"#).unwrap();
    assert_eq!(document.render(), r#"{"a":{"x":true},"b":[1,-2,2.5,null]}"#);
    assert_eq!(Json::parse(&document.render()).unwrap(), document);
    assert!(Json::parse("{").is_err());
    let twice = Json::object(vec![
        JsonMember { name: "k".into(), value: Json::text("first") },
        JsonMember { name: "k".into(), value: Json::text("second") },
    ]);
    assert_eq!(twice.render(), r#"{"k":"second"}"#);
}

#[test]
fn an_error_of_a_provider_keeps_its_kind() {
    let failure = ProviderFailure::from(&ProviderError::ContextLengthExceeded);
    assert_eq!(failure.kind, ProviderFailureKind::ContextLengthExceeded);
    let http = ProviderFailure::from(&ProviderError::Http {
        status: 503,
        message: "down".into(),
        retry_after_ms: Some(7),
    });
    assert_eq!(http.status, Some(503));
    assert_eq!(http.retry_after_ms, Some(7));
}
