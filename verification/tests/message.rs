use agent_core::json::Json;
use agent_core::message::{
    recent_untrusted_content, unanswered_tool_calls, ContentBlock, Message,
    MessageValidationError, Role, ToolErrorKind,
};
use agent_core::tools::{
    ModelToolResult, ToolExecution, ToolResultStatus, ToolResultTruncation, TruncationStrategy,
};

fn empty() -> Json {
    Json::parse("{}").unwrap()
}

#[test]
fn text_concatenates_text_blocks_only() {
    let m = Message {
        role: Role::Assistant,
        content: vec![
            ContentBlock::Text { text: "a".into() },
            ContentBlock::Thinking { text: "ignored".into() },
            ContentBlock::Text { text: "b".into() },
        ],
    };
    assert_eq!(m.text(), "ab");
}

#[test]
fn strip_images_removes_image_blocks() {
    let mut m = Message {
        role: Role::User,
        content: vec![
            ContentBlock::Text { text: "hi".into() },
            ContentBlock::Image { media_type: "image/png".into(), data: "xxxx".into() },
        ],
    };
    assert!(m.has_images());
    assert_eq!(m.strip_images(), 1);
    assert!(!m.has_images());
    assert_eq!(m.content.len(), 1);
}

#[test]
fn tool_result_detection() {
    assert!(Message::tool_result("id1", "out", false).is_tool_result());
    assert!(!Message::user("hi").is_tool_result());
}

#[test]
fn unanswered_tool_calls_reports_each_pending_call_once_in_order() {
    let messages = vec![
        Message::assistant(vec![
            ContentBlock::tool_use("c1", "bash", empty()),
            ContentBlock::tool_use("c2", "bash", empty()),
        ]),
        Message::tool_result("c2", "done", false),
        Message::assistant(vec![ContentBlock::tool_use("c1", "bash", empty())]),
    ];
    assert_eq!(unanswered_tool_calls(&messages), vec!["c1".to_string()]);
}

#[test]
fn unanswered_tool_calls_is_empty_on_a_healthy_transcript() {
    let messages = vec![
        Message::user("go"),
        Message::assistant(vec![ContentBlock::tool_use("c1", "bash", empty())]),
        Message::tool_result("c1", "out", false),
    ];
    assert!(unanswered_tool_calls(&messages).is_empty());
}

#[test]
fn recent_untrusted_content_checks_tail() {
    let clean = Message::user("ok");
    let tainted = Message::tool_result("c1", "evil", false);
    assert!(recent_untrusted_content(&[clean.clone(), tainted], 2));
    assert!(!recent_untrusted_content(
        &[Message::tool_result_with_trust("c1", "ok", false, false), clean],
        1
    ));
}

fn misplaced_result() -> Message {
    Message::assistant(vec![ContentBlock::ToolResult {
        tool_use_id: "c1".into(),
        content: "out".into(),
        status: None,
        structured_content: None,
        untrusted: true,
        is_error: false,
        error_kind: None,
        duration_ms: None,
        truncation: None,
        execution: None,
        images: Vec::new(),
    }])
}

#[test]
fn validation_rejects_tool_result_in_assistant_message() {
    assert!(misplaced_result().validate().is_err());
}

#[test]
fn a_misplaced_block_is_named_with_the_role_that_refuses_it() {
    let error: MessageValidationError = misplaced_result().validate().unwrap_err();
    assert!(error.message().contains("tool_result"));
    assert!(Message::user("ok").validate().is_ok());
}

#[test]
fn a_model_result_keeps_its_typed_metadata_in_the_transcript() {
    let mut result = ModelToolResult::new(
        "c1".into(),
        "bounded output".into(),
        true,
        true,
        Some(ToolErrorKind::Timeout),
    );
    result.status = ToolResultStatus::TimedOut;
    result.structured_content = Some(Json::parse(r#"{"partial": true}"#).unwrap());
    result.duration_ms = Some(42);
    result.truncation = Some(ToolResultTruncation {
        original_bytes: 100,
        kept_bytes: 14,
        strategy: TruncationStrategy::Tail,
        continuation_hint: "continue".into(),
    });
    result.execution = Some(ToolExecution {
        timed_out: true,
        stderr_tail: Some("last stderr".into()),
        ..ToolExecution::default()
    });
    let message = Message::tool_result_from_model(&result);
    assert!(matches!(
        &message.content[0],
        ContentBlock::ToolResult {
            status: Some(ToolResultStatus::TimedOut),
            duration_ms: Some(42),
            execution: Some(ToolExecution { timed_out: true, .. }),
            ..
        }
    ));
}

#[test]
fn a_summary_of_unknown_source_is_distrusted() {
    let summary = Message {
        role: Role::User,
        content: vec![ContentBlock::Summary { text: "s".into(), source_untrusted: true }],
    };
    assert!(summary.carries_untrusted_content());
    assert!(recent_untrusted_content(&[summary], 1));
}
