use agent_core::auxiliary::compact::{apply_after_durable_commit, CompactResponse};
use agent_core::auxiliary::realtime::{
    RealtimeCallSessionConfig, RealtimeSessionConfig, RealtimeV1SessionConfig,
    RealtimeV2SessionConfig, RealtimeV2TranscriptionSessionConfig, RealtimeVoice, RealtimeWire,
};
use agent_core::auxiliary::{AuxiliaryError, AuxiliaryOperation, AuxiliaryPhase};
use agent_core::json::Json;
use agent_core::provider::AuthError;
use agent_core::response_item::ResponseItem;
use agent_core::session::SessionError;

fn item(id: &str) -> ResponseItem {
    let text = format!(r#"{{"type":"message","id":"{id}","role":"assistant","content":[]}}"#);
    ResponseItem::from_wire(&Json::parse(&text).unwrap()).unwrap()
}

#[test]
fn a_window_is_replaced_only_after_its_write() {
    let response = || CompactResponse {
        output: vec![item("new")],
        turn_state: Some("state".into()),
    };
    let mut live = vec![item("old")];
    assert_eq!(
        apply_after_durable_commit(&mut live, response(), Err("disk full")),
        Err("disk full")
    );
    assert_eq!(live, vec![item("old")]);
    assert_eq!(
        apply_after_durable_commit::<&str>(&mut live, response(), Ok(())),
        Ok(Some("state".to_string()))
    );
    assert_eq!(live, vec![item("new")]);
}

#[test]
fn session_errors_say_where_a_log_is_broken() {
    assert_eq!(SessionError::Io("x".into()).message(), "io: x");
    assert_eq!(SessionError::Serde("y".into()).message(), "serde: y");
    assert_eq!(
        SessionError::Corrupt { offset: 12, detail: "bad line".into() }.message(),
        "corrupt session line at offset 12: bad line"
    );
}

#[test]
fn auxiliary_errors_name_the_operation_and_the_phase() {
    assert_eq!(
        AuxiliaryError::invalid(AuxiliaryOperation::Search, "q", "empty").message(),
        "search validate: invalid field `q`: empty"
    );
    assert_eq!(
        AuxiliaryError::decode(AuxiliaryOperation::Memories, "no list").message(),
        "memories decode: malformed provider payload (no list)"
    );
    assert_eq!(
        AuxiliaryError::Unsupported { operation: AuxiliaryOperation::RealtimeWebSocket }.message(),
        "realtime_websocket: provider capability is unsupported"
    );
    assert_eq!(
        AuxiliaryError::Auth {
            operation: AuxiliaryOperation::ImageEdit,
            phase: AuxiliaryPhase::Request,
            error: AuthError::Expired,
        }
        .message(),
        "image_edit request: authentication failed (Expired)"
    );
    assert_eq!(
        AuxiliaryError::FileTooLarge {
            file_name: "a.bin".into(),
            size_bytes: 11,
            limit_bytes: 10,
        }
        .message(),
        "file_upload validate: file `a.bin` is 11 bytes, limit is 10"
    );
    assert_eq!(
        AuxiliaryError::BlobUploadTransport {
            kind: "reset",
            azure_client_request_id: "r1".into(),
        }
        .message(),
        "file_upload blob_upload: transport failed (reset, azure_client_request_id=r1)"
    );
}

#[test]
fn every_form_of_a_realtime_session_answers_for_itself() {
    let v1 = RealtimeV1SessionConfig {
        instructions: "i".into(),
        model: Some("m".into()),
        session_id: None,
        voice: RealtimeVoice::Alloy,
    };
    let call = RealtimeCallSessionConfig::V1(v1.clone());
    assert_eq!(call.wire(), RealtimeWire::V1);
    let session = RealtimeSessionConfig::V1(v1);
    assert_eq!(session.wire(), RealtimeWire::V1);
    assert_eq!(session.model(), Some("m"));
    assert_eq!(session.session_id(), None);
    let transcription = RealtimeSessionConfig::RealtimeV2(RealtimeV2SessionConfig::Transcription(
        RealtimeV2TranscriptionSessionConfig { model: None, session_id: Some("s".into()) },
    ));
    assert_eq!(transcription.wire(), RealtimeWire::RealtimeV2);
    assert_eq!(transcription.model(), None);
    assert_eq!(transcription.session_id(), Some("s"));
}
