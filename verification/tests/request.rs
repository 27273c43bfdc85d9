use agent_core::json::Json;
use agent_core::message::{ContentBlock, Message, Role};
use agent_core::model::{
    InputModality, ModelRetryPolicy, ModelRuntimeSource, ModelToolCapabilities, ModelToolMode,
    MultiAgentVersion, ReasoningReplaySupport, ResolvedModelRuntime, ResponsesDialect,
    TruncationMode, TruncationPolicy,
};
use agent_core::request::{
    CanonicalRequest, CanonicalRequestValidationError, ClientMetadata, OutputSchema,
    ReasoningSummaryDelivery, RequestStreamOptions,
};
use agent_core::tool_spec::{ToolSpec, ToolSpecValidationError};

fn parse(text: &str) -> Json {
    Json::parse(text).unwrap()
}

fn text_only_runtime() -> ResolvedModelRuntime {
    ResolvedModelRuntime {
        slug: "text-model".into(),
        source: ModelRuntimeSource::Embedded { version: "test".into() },
        instructions: "test".into(),
        fingerprint: "a".repeat(64),
        context_window: 10_000,
        auto_compact_token_limit: 8_000,
        input_modalities: vec![InputModality::Text],
        reasoning_effort: None,
        supports_verbosity: false,
        verbosity: None,
        supports_parallel_tool_calls: false,
        tool_capabilities: ModelToolCapabilities::default(),
        service_tiers: Vec::new(),
        reasoning_replay: ReasoningReplaySupport::Disabled,
        responses_dialect: ResponsesDialect::Standard,
        tool_mode: ModelToolMode::Direct,
        multi_agent_version: MultiAgentVersion::Disabled,
        truncation: TruncationPolicy { mode: TruncationMode::Tokens, limit: 1_000 },
        retry: ModelRetryPolicy { max_attempts: 2, backoff_base_ms: 50 },
        max_output_tokens: 100,
        comp_hash: None,
    }
}

fn metadata(entries: &[(&str, &str)]) -> ClientMetadata {
    let mut metadata = ClientMetadata::new();
    for (key, value) in entries {
        metadata.insert(key, value);
    }
    metadata
}

#[test]
fn validation_rejects_invalid_messages_tools_and_modalities() {
    let invalid_message = Message {
        role: Role::Assistant,
        content: vec![ContentBlock::ToolResult {
            tool_use_id: "c1".into(),
            content: "out".into(),
            status: None,
            structured_content: None,
            untrusted: true,
            is_error: false,
            error_kind: None,
            duration_ms: None,
            truncation: None,
            execution: None,
            images: Vec::new(),
        }],
    };
    let request = CanonicalRequest {
        model: "gpt".into(),
        messages: vec![invalid_message],
        max_output_tokens: 100,
        ..CanonicalRequest::default()
    };
    assert!(matches!(
        request.validate(),
        Err(CanonicalRequestValidationError::InvalidMessage { .. })
    ));

    let request = CanonicalRequest {
        model: "gpt".into(),
        messages: vec![Message::user("ok")],
        tools: vec![ToolSpec::function(
            "bad",
            "",
            parse(r#"{"type":"string","additionalProperties":false,"required":[]}"#),
        )],
        max_output_tokens: 100,
        ..CanonicalRequest::default()
    };
    assert!(matches!(
        request.validate(),
        Err(CanonicalRequestValidationError::InvalidTool(
            ToolSpecValidationError::SchemaMustBeObject { .. }
        ))
    ));

    let request = CanonicalRequest {
        model: "text-model".into(),
        model_runtime: Some(text_only_runtime()),
        system: Some("test".into()),
        messages: vec![Message {
            role: Role::User,
            content: vec![ContentBlock::Image {
                media_type: "image/png".into(),
                data: "AA==".into(),
            }],
        }],
        max_output_tokens: 100,
        ..CanonicalRequest::default()
    };
    assert!(matches!(
        request.validate(),
        Err(CanonicalRequestValidationError::UnsupportedImageModality { .. })
    ));
}

#[test]
fn validation_rejects_non_strict_tools_and_duplicate_names() {
    let request = CanonicalRequest {
        model: "gpt".into(),
        messages: vec![Message::user("ok")],
        tools: vec![ToolSpec::function(
            "read",
            "lit",
            parse(r#"{"type":"object","properties":{"path":{"type":"string"}},"required":["path"]}"#),
        )],
        max_output_tokens: 100,
        ..CanonicalRequest::default()
    };
    assert!(matches!(
        request.validate(),
        Err(CanonicalRequestValidationError::InvalidTool(
            ToolSpecValidationError::SchemaMustDenyAdditionalProperties { .. }
        ))
    ));

    let strict_tool = ToolSpec::function(
        "read",
        "lit",
        parse(
            r#"{"type":"object","properties":{"path":{"type":"string"}},"required":["path"],"additionalProperties":false}"#,
        ),
    );
    let request = CanonicalRequest {
        model: "gpt".into(),
        messages: vec![Message::user("ok")],
        tools: vec![strict_tool.clone(), strict_tool],
        max_output_tokens: 100,
        ..CanonicalRequest::default()
    };
    assert!(matches!(
        request.validate(),
        Err(CanonicalRequestValidationError::DuplicateToolName { tool }) if tool == "read"
    ));
}

#[test]
fn deferred_tools_require_a_search_reference() {
    let deferred = ToolSpec::function_with_options(
        "deferred",
        "loaded by search",
        parse(r#"{"type":"object","properties":{}}"#),
        false,
        true,
        None,
    );
    let request = CanonicalRequest {
        model: "gpt".into(),
        messages: vec![Message::user("ok")],
        tools: vec![deferred.clone()],
        max_output_tokens: 100,
        ..CanonicalRequest::default()
    };
    assert!(matches!(
        request.validate(),
        Err(CanonicalRequestValidationError::MissingDeferredToolSearch)
    ));

    let valid = CanonicalRequest {
        tools: vec![
            deferred,
            ToolSpec::tool_search(
                "find tools",
                "client",
                parse(r#"{"type":"object","properties":{}}"#),
            ),
        ],
        ..request
    };
    valid.validate().expect("search resolves deferred references");
}

#[test]
fn incompatible_enriched_controls_fail_at_the_canonical_boundary() {
    let mut runtime = text_only_runtime();
    runtime.service_tiers = vec!["priority".into()];
    let base = CanonicalRequest {
        model: runtime.slug.clone(),
        model_runtime: Some(runtime),
        messages: vec![Message::user("ok")],
        max_output_tokens: 100,
        ..CanonicalRequest::default()
    };

    let unsupported_tier = CanonicalRequest {
        service_tier: Some("flex".into()),
        ..base.clone()
    };
    assert!(matches!(
        unsupported_tier.validate(),
        Err(CanonicalRequestValidationError::UnsupportedServiceTier { tier, .. }) if tier == "flex"
    ));

    let unsupported_summary = CanonicalRequest {
        stream_options: RequestStreamOptions {
            reasoning_summary_delivery: Some(ReasoningSummaryDelivery::SequentialCutoff),
            include_usage: false,
        },
        ..base.clone()
    };
    assert!(matches!(
        unsupported_summary.validate(),
        Err(CanonicalRequestValidationError::IncompatibleControl { control, .. })
            if control == "reasoning_summary_delivery"
    ));

    let invalid_schema = CanonicalRequest {
        output_schema: Some(OutputSchema {
            name: "result".into(),
            schema: parse(r#"["not","an","object"]"#),
            strict: true,
        }),
        ..base
    };
    assert!(matches!(
        invalid_schema.validate(),
        Err(CanonicalRequestValidationError::InvalidOutputSchema { .. })
    ));
}

#[test]
fn client_metadata_refuses_sensitive_fields_before_provider_access() {
    for key in ["access_token", "session_token", "password", "apikey"] {
        let request = CanonicalRequest {
            model: "gpt".into(),
            client_metadata: metadata(&[(key, "secret")]),
            messages: vec![Message::user("hello")],
            max_output_tokens: 100,
            ..CanonicalRequest::default()
        };
        assert!(matches!(
            request.validate(),
            Err(CanonicalRequestValidationError::InvalidClientMetadata { detail })
                if detail.contains(key) && !detail.contains("secret")
        ));
    }

    let request = CanonicalRequest {
        model: "gpt".into(),
        client_metadata: metadata(&[(
            "asset",
            "https://uploads.invalid/a?X-Amz-Signature=secret",
        )]),
        messages: vec![Message::user("hello")],
        max_output_tokens: 100,
        ..CanonicalRequest::default()
    };
    let error = request.validate().unwrap_err().message();
    assert!(error.contains("signed URL"));
    assert!(!error.contains("secret"));
}

#[test]
fn a_request_with_every_control_is_accepted() {
    let request = CanonicalRequest {
        model: "gpt".into(),
        system: Some(String::new()),
        service_tier: Some("priority".into()),
        output_schema: Some(OutputSchema {
            name: "answer".into(),
            schema: parse(
                r#"{"type":"object","properties":{"answer":{"type":"string"}},"required":["answer"],"additionalProperties":false}"#,
            ),
            strict: true,
        }),
        stream_options: RequestStreamOptions {
            reasoning_summary_delivery: Some(ReasoningSummaryDelivery::SequentialCutoff),
            include_usage: true,
        },
        client_metadata: metadata(&[("turn_kind", "user"), ("window_id", "window-1")]),
        cache_key: Some("thread-1".into()),
        messages: vec![Message::user("hello")],
        max_output_tokens: 100,
        ..CanonicalRequest::default()
    };
    request.validate().unwrap();
}

#[test]
fn a_request_needs_a_model_and_room_for_an_answer() {
    let request = CanonicalRequest {
        model: "  ".into(),
        max_output_tokens: 100,
        ..CanonicalRequest::default()
    };
    assert!(matches!(
        request.validate(),
        Err(CanonicalRequestValidationError::EmptyModel)
    ));
    let request = CanonicalRequest {
        model: "gpt".into(),
        max_output_tokens: 0,
        ..CanonicalRequest::default()
    };
    assert!(matches!(
        request.validate(),
        Err(CanonicalRequestValidationError::ZeroMaxOutputTokens)
    ));
}

#[test]
fn replay_needs_a_model_that_proves_it() {
    let request = CanonicalRequest {
        model: "text-model".into(),
        model_runtime: Some(text_only_runtime()),
        reasoning_replay: true,
        messages: vec![Message::user("ok")],
        max_output_tokens: 100,
        ..CanonicalRequest::default()
    };
    assert!(matches!(
        request.validate(),
        Err(CanonicalRequestValidationError::UnsupportedReasoningReplay { .. })
    ));
}

#[test]
fn metadata_is_kept_in_the_order_of_its_keys() {
    let held = metadata(&[("window", "1"), ("agent", "2"), ("turn", "3"), ("agent", "4")]);
    assert_eq!(held.len(), 3);
    assert!(!held.is_empty());
    assert_eq!(held.clone(), held);
    let held: Vec<(&str, &str)> = held
        .entries()
        .iter()
        .map(|entry| (entry.key.as_str(), entry.value.as_str()))
        .collect();
    assert_eq!(held, vec![("agent", "4"), ("turn", "3"), ("window", "1")]);
}

#[test]
fn the_first_fault_of_the_metadata_is_that_of_the_first_key() {
    let request = CanonicalRequest {
        model: "gpt".into(),
        client_metadata: metadata(&[("z_password", "1"), ("a_password", "2")]),
        messages: vec![Message::user("hello")],
        max_output_tokens: 100,
        ..CanonicalRequest::default()
    };
    assert!(matches!(
        request.validate(),
        Err(CanonicalRequestValidationError::InvalidClientMetadata { detail })
            if detail == "sensitive field `a_password` is not allowed"
    ));
}
