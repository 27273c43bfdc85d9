use agent_core::json::{Json, JsonMember};
use agent_core::provider_extension::MAX_PROVIDER_EXTENSION_BYTES;
use agent_core::response_item::{
    ResponseItem, ResponseItemError, ResponseItemKind, StoredItem, StoredItemError,
};

fn parse(text: &str) -> Json {
    Json::parse(text).unwrap()
}

fn stored(item: &ResponseItem) -> StoredItem {
    StoredItem {
        id: item.id().map(str::to_string),
        status: item.status().map(str::to_string),
        kind: ResponseItemKind::from_wire_type(item.kind().wire_type()),
        payload: item.payload().clone(),
        diagnostic: item.diagnostic().map(str::to_string),
    }
}

#[test]
fn every_baseline_kind_round_trips_with_its_complete_payload() {
    let values = [
        r#"{"type":"message","id":"m1","role":"assistant","content":[]}"#,
        r#"{"type":"agent_message","id":"a1","author":"planner","recipient":"user","content":[]}"#,
        r#"{"type":"reasoning","id":"r1","summary":[],"content":[]}"#,
        r#"{"type":"local_shell_call","id":"s1","status":"completed","action":{}}"#,
        r#"{"type":"function_call","id":"f1","name":"read","arguments":"{}","call_id":"c1"}"#,
        r#"{"type":"function_call_output","id":"fo1","call_id":"c1","output":"ok"}"#,
        r#"{"type":"custom_tool_call","id":"c1","call_id":"c2","name":"exec","input":"1+1"}"#,
        r#"{"type":"custom_tool_call_output","id":"co1","call_id":"c2","output":"2"}"#,
        r#"{"type":"tool_search_call","id":"t1","execution":"client","arguments":{}}"#,
        r#"{"type":"tool_search_output","id":"to1","status":"completed","execution":"client","tools":[]}"#,
        r#"{"type":"web_search_call","id":"w1","status":"completed","action":{"type":"search","query":"q"}}"#,
        r#"{"type":"compaction","id":"cp1","encrypted_content":"opaque"}"#,
        r#"{"type":"context_compaction","id":"cc1","encrypted_content":"opaque"}"#,
    ];
    for text in values {
        let value = parse(text);
        let item = ResponseItem::from_wire(&value).expect("known item parses");
        assert_eq!(item.payload().payload(), &value);
        let decoded = stored(&item).restore().unwrap();
        assert_eq!(decoded, item);
    }
}

#[test]
fn unknown_and_sensitive_items_are_bounded_and_redacted() {
    let member = |name: &str, value: &str| JsonMember {
        name: name.to_string(),
        value: Json::text(value),
    };
    let unknown = ResponseItem::from_wire(&Json::object(vec![
        member("type", "future_call"),
        member("credential", "secret"),
        member("details", &"x".repeat(MAX_PROVIDER_EXTENSION_BYTES + 1)),
    ]))
    .unwrap();
    assert!(unknown.kind().is_other());
    assert!(unknown.diagnostic().is_some());
    assert!(unknown.payload().is_truncated());
    assert!(unknown.payload().was_redacted());

    let image = ResponseItem::from_wire(&parse(
        r#"{"type":"image_generation_call","status":"completed","result":"base64-binary"}"#,
    ))
    .unwrap();
    assert_eq!(
        image.payload().payload().get("result").and_then(|value| value.as_str()),
        Some("[REDACTED_BINARY]")
    );
    assert!(image.payload().was_redacted());
}

#[test]
fn deserialization_rejects_contradictory_public_fields() {
    let value = parse(r#"{"type":"web_search_call","id":"ws_1","status":"completed"}"#);
    let item = ResponseItem::from_wire(&value).unwrap();
    let mut wire = stored(&item);
    wire.kind = ResponseItemKind::from_wire_type("message");
    assert!(wire.restore().is_err());

    let mut wire = stored(&item);
    wire.id = Some("ws_2".into());
    assert!(wire.restore().is_err());
}

#[test]
fn what_is_no_item_is_refused_with_its_reason() {
    assert_eq!(
        ResponseItem::from_wire(&parse("[]")).unwrap_err(),
        ResponseItemError::NotObject
    );
    assert_eq!(
        ResponseItem::from_wire(&parse("{}")).unwrap_err(),
        ResponseItemError::MissingType
    );
    assert_eq!(
        ResponseItem::from_wire(&parse(r#"{"type":"no spaces"}"#)).unwrap_err(),
        ResponseItemError::InvalidType
    );
    assert!(matches!(
        ResponseItem::from_wire(&parse(r#"{"type":"function_call","id":"f1"}"#)),
        Err(ResponseItemError::InvalidField { .. })
    ));
}

#[test]
fn a_stored_note_must_belong_to_its_kind() {
    let value = parse(r#"{"type":"web_search_call","id":"ws_1","status":"completed"}"#);
    let item = ResponseItem::from_wire(&value).unwrap();
    let mut wire = stored(&item);
    wire.diagnostic = Some("made up".into());
    assert_eq!(
        wire.restore().unwrap_err(),
        StoredItemError::Contradiction("response item diagnostic contradicts its kind")
    );
}

#[test]
fn item_errors_are_told_in_words() {
    assert_eq!(
        ResponseItemError::InvalidField { field: "id" }.message(),
        "response item field id is missing or invalid"
    );
    assert_eq!(ResponseItemError::InvalidType.message(), "response item type is invalid");
}
