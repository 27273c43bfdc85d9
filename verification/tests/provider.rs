use agent_core::json::Json;
use agent_core::provider::{
    Capabilities, ProviderError, ResponseFold, StopReason, StreamEvent, TokenUsage,
    ToolCallingCapabilities,
};
use agent_core::tool_spec::ToolSpec;

#[test]
fn context_error_detection() {
    assert!(ProviderError::ContextLengthExceeded.is_context_error());
    assert!(ProviderError::Http {
        status: 413,
        message: "too long".into(),
        retry_after_ms: None,
    }
    .is_context_error());
    assert!(!ProviderError::Http {
        status: 529,
        message: "overloaded".into(),
        retry_after_ms: None,
    }
    .is_context_error());
    assert!(!ProviderError::Transport("reset".into()).is_context_error());
}

#[test]
fn provider_without_freeform_support_refuses_the_plan_before_any_call() {
    let mut capabilities = Capabilities {
        tools: true,
        tool_calling: ToolCallingCapabilities {
            strict_json_schema: true,
            ..ToolCallingCapabilities::default()
        },
        ..Capabilities::default()
    };
    let schema = r#"{"type":"object","properties":{},"required":[],"additionalProperties":false}"#;
    let plan = vec![
        ToolSpec::function("read", "reads", Json::parse(schema).unwrap()),
        ToolSpec::freeform("exec", "run javascript", None),
    ];
    let error = capabilities.ensure_tools_supported(&plan).expect_err("freeform");
    assert!(matches!(
        &error,
        ProviderError::UnsupportedTool { tool, .. } if tool == "exec"
    ));
    assert!(error.message().contains("freeform"));

    capabilities.tool_calling.freeform_tools = true;
    capabilities.ensure_tools_supported(&plan).unwrap();

    capabilities.tools = false;
    assert!(matches!(
        capabilities.ensure_tools_supported(&plan),
        Err(ProviderError::UnsupportedTool { .. })
    ));
    capabilities.ensure_tools_supported(&[]).unwrap();
}

#[test]
fn a_response_is_its_text_its_last_usage_and_its_last_stop() {
    let mut fold = ResponseFold::new();
    fold.push(&StreamEvent::TextDelta { text: "a".into() });
    fold.push(&StreamEvent::Usage { usage: TokenUsage::new(1, 2) });
    fold.push(&StreamEvent::ReasoningDelta { text: "hidden".into() });
    fold.push(&StreamEvent::TextDelta { text: "b".into() });
    fold.push(&StreamEvent::Done { stop: StopReason::MaxTokens });
    let response = fold.finish();
    assert_eq!(response.usage, TokenUsage::new(1, 2));
    assert_eq!(response.stop, StopReason::MaxTokens);
    assert_eq!(response.content.len(), 1);
}

#[test]
fn usage_sums_stop_at_the_largest_number() {
    let mut usage = TokenUsage::new(u64::MAX, 1);
    usage.add_assign(&TokenUsage::new(5, 2));
    assert_eq!(usage.input, u64::MAX);
    assert_eq!(usage.output, 3);
}

#[test]
fn a_run_costs_what_its_round_trips_cost() {
    let mut usage = TokenUsage::default();
    usage.add_assign(&TokenUsage::new(10, 5));
    assert_eq!((usage.input, usage.output, usage.total()), (10, 5, 15));
    usage.add_assign(&TokenUsage::new(1, 2));
    assert_eq!((usage.input, usage.output, usage.total()), (11, 7, 18));
    // A backend that reports a total of its own.
    usage.add_assign(&TokenUsage { total: 100, ..TokenUsage::new(3, 4) });
    assert_eq!((usage.input, usage.output, usage.total()), (14, 11, 118));
    usage.add_assign(&TokenUsage::default());
    assert_eq!(usage.total(), 118);
}
