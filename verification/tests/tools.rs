use agent_core::event::ToolResultView;
use agent_core::json::{Json, JsonMember};
use agent_core::message::ToolErrorKind;
use agent_core::tokenizer::{HeuristicCounter, TokenCounter};
use agent_core::tool_spec::ToolSpec;
use agent_core::tools::{
    settle, tool_plan_fingerprint, ModelToolResult, StepToolPlan, ToolDispatchSnapshot,
    ToolExecution, ToolInvocation, ToolResultStatus, TruncationStrategy,
    MAX_MODEL_TOOL_RESULT_BYTES, MIN_MODEL_TOOL_RESULT_BYTES, MIN_MODEL_TOOL_RESULT_TOKENS,
};

const SCHEMA: &str =
    r#"{"type":"object","properties":{},"required":[],"additionalProperties":false}"#;

fn spec(name: &str) -> ToolSpec {
    ToolSpec::function(name, "test", Json::parse(SCHEMA).unwrap())
}

/// The tools as they are sent.
fn wire(specs: &[ToolSpec]) -> String {
    let items: Vec<Json> = specs
        .iter()
        .map(|spec| {
            Json::object(vec![
                JsonMember { name: "name".into(), value: Json::text(&spec.name) },
                JsonMember { name: "description".into(), value: Json::text(&spec.description) },
                JsonMember {
                    name: "input_schema".into(),
                    value: spec.input_schema().unwrap().clone(),
                },
            ])
        })
        .collect();
    Json::Array(items).render()
}

#[test]
fn identical_tool_sources_have_byte_stable_specs_and_fingerprint() {
    let specs = vec![spec("a"), spec("b")];
    let rebuilt = vec![spec("a"), spec("b")];
    assert_eq!(wire(&specs), wire(&rebuilt));
    assert_eq!(
        tool_plan_fingerprint(&wire(&specs), false),
        tool_plan_fingerprint(&wire(&rebuilt), false)
    );
    assert_ne!(
        tool_plan_fingerprint(&wire(&specs), false),
        tool_plan_fingerprint(&wire(&specs), true)
    );
}

#[test]
fn a_plan_fingerprint_is_the_digest_of_its_bytes() {
    // SHA-256 of a zero byte and `[]`.
    let fingerprint = tool_plan_fingerprint("[]", false);
    assert_eq!(fingerprint.len(), 64);
    assert_ne!(fingerprint, "[]");
    assert_eq!(fingerprint, tool_plan_fingerprint("[]", false));
}

#[test]
fn token_truncation_keeps_utf8_and_shell_terminal_tail() {
    let counter = HeuristicCounter;
    let mut result = ModelToolResult::new(
        "call".into(),
        format!("{}{}", "é".repeat(2_000), "stdout-end"),
        true,
        true,
        Some(ToolErrorKind::Semantic),
    );
    result.duration_ms = Some(42);
    result.execution = Some(ToolExecution {
        exit_code: Some(7),
        stderr_tail: Some("stderr-end".into()),
        ..ToolExecution::default()
    });
    let bounded = result.bound_feedback(&counter, 80, MAX_MODEL_TOOL_RESULT_BYTES);

    assert!(std::str::from_utf8(bounded.content.as_bytes()).is_ok());
    assert!(counter.count_text(&bounded.content) <= 80);
    assert!(bounded.content.contains("exit_code=7"), "{}", bounded.content);
    assert!(bounded.content.contains("stderr-end"), "{}", bounded.content);
    assert!(bounded.content.contains("duration_ms=42"), "{}", bounded.content);
    let truncation = bounded.truncation.expect("large result is truncated");
    assert_eq!(truncation.strategy, TruncationStrategy::Tail);
    assert!(truncation.original_bytes > truncation.kept_bytes);
}

#[test]
fn terminal_metadata_survives_an_undersized_direct_budget() {
    let counter = HeuristicCounter;
    let mut result = ModelToolResult::new("call".into(), "x".repeat(10_000), true, true, None);
    result.duration_ms = Some(42);
    result.execution = Some(ToolExecution {
        exit_code: Some(9),
        signal: Some(15),
        timed_out: true,
        stderr_tail: Some("tail".repeat(1_000)),
        ..ToolExecution::default()
    });

    let bounded = result.bound_feedback(&counter, 1, 1);

    assert!(bounded.content.contains("exit_code=9"), "{}", bounded.content);
    assert!(bounded.content.contains("signal=15"), "{}", bounded.content);
    assert!(bounded.content.contains("timed_out=true"), "{}", bounded.content);
    assert!(bounded.content.contains("duration_ms=42"), "{}", bounded.content);
    assert!(bounded.content.len() <= MIN_MODEL_TOOL_RESULT_BYTES);
    assert!(counter.count_text(&bounded.content) <= MIN_MODEL_TOOL_RESULT_TOKENS);
}

#[test]
fn structured_json_is_kept_whole_or_falls_back_to_bounded_text() {
    let counter = HeuristicCounter;
    let structured = Json::parse(r#"{"ok": true, "items": [1, 2, 3]}"#).unwrap();
    let mut result = ModelToolResult::new("call".into(), "fallback".into(), false, true, None);
    result.structured_content = Some(structured.clone());
    let kept = result.bound_feedback(&counter, 1_000, MAX_MODEL_TOOL_RESULT_BYTES);
    assert_eq!(kept.structured_content, Some(structured));
    let rendered = kept
        .content
        .strip_prefix("[structured_content]\n")
        .and_then(|value| value.split_once("\nfallback").map(|(json, _)| json))
        .expect("structured section");
    assert!(serde_json::from_str::<serde_json::Value>(rendered).is_ok());

    let mut huge =
        ModelToolResult::new("call".into(), "usable fallback".into(), false, true, None);
    let huge_structure = Json::object(vec![JsonMember {
        name: "blob".into(),
        value: Json::text(&"x".repeat(10_000)),
    }]);
    huge.structured_content = Some(huge_structure.clone());
    let bounded = huge.bound_feedback(&counter, 32, 128);
    assert_eq!(bounded.structured_content, Some(huge_structure));
    assert!(bounded.content.len() <= 128);
    assert!(std::str::from_utf8(bounded.content.as_bytes()).is_ok());
    assert!(!bounded.content.contains("\"blob\""));
}

#[test]
fn public_tool_result_event_preserves_typed_terminal_metadata() {
    let mut result = ModelToolResult::new("call".into(), "timed out".into(), true, true, None);
    result.status = ToolResultStatus::TimedOut;
    result.duration_ms = Some(125);
    result.execution = Some(ToolExecution { timed_out: true, ..ToolExecution::default() });

    let view = ToolResultView::from_model(&result);

    assert_eq!(view.status, Some(ToolResultStatus::TimedOut));
    assert_eq!(view.duration_ms, Some(125));
    assert!(view.execution.unwrap().timed_out);
}

fn call(id: &str, name: &str) -> ToolInvocation {
    ToolInvocation::json(id, name, Json::parse("{}").unwrap())
}

#[test]
fn a_call_outside_the_catalog_never_reaches_a_dispatcher() {
    let specs = vec![spec("a")];
    let text = wire(&specs);
    let plan = StepToolPlan::capture(ToolDispatchSnapshot::new(1, specs, text), false);
    let screening = plan.screen(&vec![call("1", "a"), call("2", "ghost"), call("3", "a")]);
    assert_eq!(screening.known.len(), 2);
    assert_eq!(screening.rejected.len(), 1);
    assert_eq!(screening.rejected[0].id, "2");
    assert_eq!(screening.rejected[0].error_kind, Some(ToolErrorKind::UnknownTool));
    assert_eq!(plan.batches(screening.known).len(), 2);
}

#[test]
fn calls_that_may_run_together_are_one_batch() {
    let specs = vec![spec("a")];
    let text = wire(&specs);
    let plan = StepToolPlan::capture(ToolDispatchSnapshot::new(1, specs, text), false);
    let together = plan.with_parallel_allowed(true);
    assert_ne!(plan.fingerprint(), together.fingerprint());
    assert_eq!(together.batches(vec![call("1", "a"), call("2", "a")]).len(), 1);
}

#[test]
fn results_come_back_in_the_order_of_their_calls() {
    let result = |id: &str| ModelToolResult::new(id.into(), id.into(), false, false, None);
    let sorted = settle(
        &vec!["1".to_string(), "2".to_string(), "3".to_string()],
        vec![result("3"), result("1"), result("2")],
    );
    let ids: Vec<&str> = sorted.iter().map(|result| result.id.as_str()).collect();
    assert_eq!(ids, vec!["1", "2", "3"]);
}

#[test]
fn a_duration_beyond_a_word_is_capped() {
    let result = ModelToolResult::new("c".into(), "x".into(), false, false, None);
    assert_eq!(result.with_duration(u128::MAX).duration_ms, Some(u64::MAX));
}

#[test]
fn bounded_text_keeps_to_its_tokens_and_bytes() {
    let counter = HeuristicCounter;
    for (tokens, bytes) in [(1, 1), (1, 4), (7, 1_000), (1_000, 9), (40, 160)] {
        let result = ModelToolResult::new("call".into(), "word ".repeat(500), false, true, None);
        let bounded = result.bound_feedback(&counter, tokens, bytes);
        assert!(counter.count_text(&bounded.content) as usize <= tokens, "{tokens} {bytes}");
        assert!(bounded.content.len() <= bytes, "{tokens} {bytes}");
    }
}

#[test]
fn a_repeated_result_takes_the_place_of_the_first_and_comes_again_at_the_end() {
    let result =
        |id: &str, text: &str| ModelToolResult::new(id.into(), text.into(), false, true, None);
    let sorted = settle(
        &vec!["a".into(), "b".into()],
        vec![
            result("b", "b1"),
            result("a", "a1"),
            result("other", "o1"),
            result("a", "a2"),
            result("a", "a3"),
        ],
    );
    let told: Vec<&str> = sorted.iter().map(|result| result.content.as_str()).collect();
    assert_eq!(told, vec!["a3", "b1", "o1", "a2", "a3"]);
}
