use agent_core::json::{Json, JsonMember};
use agent_core::provider_extension::{ProviderExtension, MAX_PROVIDER_EXTENSION_BYTES};

fn field<'a>(extension: &'a ProviderExtension, name: &str) -> Option<&'a str> {
    extension.payload().get(name).and_then(|value| value.as_str())
}

#[test]
fn extensions_redact_common_secrets_and_bound_the_original_payload() {
    let payload = Json::parse(
        r#"{"session_token":"ST","password":"PW","asset":"https://uploads.invalid/a?X-Amz-Signature=secret","cause":"future item"}"#,
    )
    .unwrap();
    let sensitive = ProviderExtension::from_value("response.future", &payload);
    assert_eq!(sensitive.event_type(), "response.future");
    assert!(sensitive.was_redacted());
    assert_eq!(field(&sensitive, "session_token"), Some("[REDACTED]"));
    assert_eq!(field(&sensitive, "password"), Some("[REDACTED]"));
    assert_eq!(field(&sensitive, "asset"), Some("[REDACTED_SIGNED_URL]"));
    assert_eq!(field(&sensitive, "cause"), Some("future item"));

    let huge = Json::object(vec![JsonMember {
        name: "access_token".into(),
        value: Json::text(&"x".repeat(MAX_PROVIDER_EXTENSION_BYTES + 1)),
    }]);
    let oversized = ProviderExtension::from_value("response.huge", &huge);
    assert!(oversized.is_truncated());
    assert!(oversized.original_bytes() > MAX_PROVIDER_EXTENSION_BYTES as u64);
    assert!(oversized.payload().render().len() < MAX_PROVIDER_EXTENSION_BYTES);
}

#[test]
fn deserialization_reapplies_the_invariant_instead_of_trusting_flags() {
    let payload = Json::parse(r#"{"id_token": "secret"}"#).unwrap();
    let decoded = ProviderExtension::restore("response.future", &payload, 1, false, false);
    assert_eq!(field(&decoded, "id_token"), Some("[REDACTED]"));
    assert!(decoded.was_redacted());
}

#[test]
fn a_restored_extension_remembers_what_it_was_cut_from() {
    let payload = Json::parse(r#"{"cause": "x"}"#).unwrap();
    let restored = ProviderExtension::restore("response.future", &payload, 9_000, true, true);
    assert_eq!(restored.original_bytes(), 9_000);
    assert!(restored.is_truncated());
    assert!(restored.was_redacted());
}
