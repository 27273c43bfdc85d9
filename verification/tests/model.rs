use agent_core::json::Json;
use agent_core::model::{
    InputModality, ModelDescriptor, ModelRetryPolicy, ModelRuntimeError, ModelToolCapabilities,
    ModelToolCompatibilityError, ModelToolMode, MultiAgentVersion, ReasoningReplaySupport,
    ResponsesDialect, TruncationMode, TruncationPolicy, WebSearchToolType,
    MAX_MODEL_INSTRUCTIONS_BYTES,
};
use agent_core::tool_spec::{ToolKind, ToolSpec};
use agent_core::tools::MIN_MODEL_TOOL_RESULT_TOKENS;

fn descriptor(instructions: String, limit: u32) -> ModelDescriptor {
    ModelDescriptor {
        slug: "model".into(),
        display_name: "Model".into(),
        instructions,
        context_window: 10_000,
        auto_compact_token_limit: 8_000,
        input_modalities: vec![InputModality::Text],
        supports_reasoning: false,
        default_reasoning_effort: None,
        supported_reasoning_efforts: Vec::new(),
        supports_verbosity: false,
        default_verbosity: None,
        supports_parallel_tool_calls: false,
        tool_capabilities: ModelToolCapabilities::default(),
        service_tiers: Vec::new(),
        reasoning_replay: ReasoningReplaySupport::Disabled,
        responses_dialect: ResponsesDialect::Standard,
        tool_mode: ModelToolMode::Direct,
        multi_agent_version: MultiAgentVersion::Disabled,
        truncation: TruncationPolicy { mode: TruncationMode::Tokens, limit },
        comp_hash: None,
    }
}

#[test]
fn oversized_instructions_fail_before_provider_use() {
    let descriptor = descriptor("x".repeat(MAX_MODEL_INSTRUCTIONS_BYTES + 1), 1_000);
    assert!(matches!(
        descriptor.validate(),
        Err(ModelRuntimeError::InstructionsTooLarge { .. })
    ));
}

#[test]
fn undersized_tool_feedback_budget_is_rejected() {
    let mut descriptor = descriptor("instructions".into(), 1);
    assert!(matches!(
        descriptor.validate(),
        Err(ModelRuntimeError::InvalidField { field: "truncation.limit", .. })
    ));
    descriptor.truncation.limit = MIN_MODEL_TOOL_RESULT_TOKENS as u32;
    assert!(descriptor.validate().is_ok());
}

#[test]
fn an_absent_multi_agent_version_reads_as_disabled_and_the_wire_names_round_trip() {
    let legacy = MultiAgentVersion::default();
    assert_eq!(legacy, MultiAgentVersion::Disabled);
    assert!(!legacy.drives_v2());
    for (version, wire) in [
        (MultiAgentVersion::Disabled, "disabled"),
        (MultiAgentVersion::V1, "v1"),
        (MultiAgentVersion::V2, "v2"),
    ] {
        assert_eq!(version.as_str(), wire);
    }
    assert!(MultiAgentVersion::V2.drives_v2());
    assert!(!MultiAgentVersion::V1.drives_v2());
}

#[test]
fn legacy_retry_count_deserializes_as_total_attempts() {
    let retry = ModelRetryPolicy::from_record(None, Some(3), 50).unwrap();
    assert_eq!(retry.max_attempts, 4);
    assert_eq!(retry, ModelRetryPolicy { max_attempts: 4, backoff_base_ms: 50 });
}

#[test]
fn a_retry_record_without_a_count_is_refused() {
    assert!(ModelRetryPolicy::from_record(None, None, 50).is_none());
    assert_eq!(
        ModelRetryPolicy::from_record(Some(2), Some(9), 50).unwrap().max_attempts,
        2
    );
}

#[test]
fn model_tool_capabilities_reject_only_the_unsupported_model_surface() {
    let search = ToolSpec::tool_search(
        "find tools",
        "client",
        Json::parse(r#"{"type":"object","properties":{}}"#).unwrap(),
    );
    let web_with_images = ToolSpec {
        name: "web_search".into(),
        description: String::new(),
        kind: ToolKind::WebSearch {
            external_web_access: Some(true),
            indexed_web_access: None,
            filters: None,
            location: None,
            context_size: None,
            content_types: vec!["text".into(), "image".into()],
        },
    };
    let text_only = ModelToolCapabilities::default();
    assert!(matches!(
        text_only.ensure_tools_supported(std::slice::from_ref(&search)),
        Err(ModelToolCompatibilityError { tool, .. }) if tool == "tool_search"
    ));
    assert!(text_only
        .ensure_tools_supported(std::slice::from_ref(&web_with_images))
        .is_err());

    let complete = ModelToolCapabilities {
        supports_search_tool: true,
        web_search_tool_type: WebSearchToolType::TextAndImage,
        experimental_supported_tools: vec!["tool_search".into()],
    };
    complete.ensure_tools_supported(&[search, web_with_images]).unwrap();
}

#[test]
fn every_error_of_a_model_says_what_is_wrong() {
    let mut empty = descriptor("instructions".into(), 1_000);
    empty.slug = String::new();
    assert_eq!(empty.validate().unwrap_err().message(), "model slug is empty");

    let large = descriptor("x".repeat(MAX_MODEL_INSTRUCTIONS_BYTES + 1), 1_000);
    assert_eq!(
        large.validate().unwrap_err().message(),
        format!(
            "model instructions exceed {} bytes ({})",
            MAX_MODEL_INSTRUCTIONS_BYTES,
            MAX_MODEL_INSTRUCTIONS_BYTES + 1
        )
    );
}

#[test]
fn a_tool_that_a_model_cannot_use_is_named() {
    let error = ModelToolCompatibilityError { tool: "t".into(), reason: "r".into() };
    assert_eq!(error.message(), "tool t is unsupported by the selected model: r");
}
