use agent_core::json::Json;
use agent_core::redaction::{
    is_sensitive_key, looks_like_signed_url, redact_json_value, redact_string, redact_text,
    REDACTED_SIGNED_URL,
};

#[test]
fn sensitive_keys_cover_credentials_without_eating_token_counters() {
    for key in [
        "session_token",
        "id-token",
        "password",
        "secret",
        "apikey",
        "x-api-key",
        "set-cookie",
        "chatgpt_account_id",
    ] {
        assert!(is_sensitive_key(key), "{key}");
    }
    assert!(!is_sensitive_key("input_tokens"));
    assert!(!is_sensitive_key("max_tokens"));
}

#[test]
fn raw_error_text_keeps_context_but_removes_credentials() {
    let sanitized =
        redact_text("bad Authorization: Bearer AT session_token=ST&chatgpt-account-id=acct_1");
    assert!(sanitized.contains("bad Authorization:"));
    assert!(!sanitized.contains(" AT"));
    assert!(!sanitized.contains("ST"));
    assert!(!sanitized.contains("acct_1"));

    let signed =
        redact_text("upload failed at https://uploads.invalid/a?part=1&X-Amz-Signature=secret");
    assert_eq!(signed, REDACTED_SIGNED_URL);
}

#[test]
fn a_clean_document_is_left_alone_and_redaction_settles() {
    let clean = Json::parse(r#"{"a":[1,2,{"b":"text"}]}"#).unwrap();
    assert_eq!(redact_json_value(&clean), (clean.clone(), false));
    let dirty = Json::parse(r#"{"a":{"password":"p"},"list":[{"api_key":1}]}"#).unwrap();
    let (once, changed) = redact_json_value(&dirty);
    assert!(changed);
    assert!(!once.render().contains("\"p\""));
    let (twice, _) = redact_json_value(&once);
    assert_eq!(twice, once);
}

#[test]
fn every_url_of_a_text_is_looked_at() {
    assert!(looks_like_signed_url("http://a/?sig=1 https://b/"));
    assert!(looks_like_signed_url("https://a/?sig=1 http://b/"));
    assert!(looks_like_signed_url("https://a/ http://b/?x=1&Token=2"));
    assert!(!looks_like_signed_url("?sig=1 http://a/ https://b/"));
    assert!(!looks_like_signed_url("no url ?sig=1"));
    assert!(!looks_like_signed_url(""));
    assert_eq!(
        redact_string("http://a/?sig=1 https://b/".into()),
        (REDACTED_SIGNED_URL.to_string(), true)
    );
    assert_eq!(redact_text("http://a/?sig=1 https://b/"), REDACTED_SIGNED_URL);
}
