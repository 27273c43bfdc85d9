use agent_core::budget::{estimate_input, estimate_static_input, ContextBudget};
use agent_core::json::Json;
use agent_core::message::Message;
use agent_core::provider::TokenUsage;
use agent_core::tokenizer::{HeuristicCounter, TokenCounter};
use agent_core::tool_spec::ToolSpec;

#[test]
fn budget_thresholds_from_single_source() {
    let b = ContextBudget::for_model(1000, 200);
    assert_eq!(b.output_reserve(), 200);
    assert_eq!(b.micro_threshold(), 560);
    assert_eq!(b.auto_threshold(), 640);
    assert!(!b.should_microcompact());
    assert!(!b.should_autocompact());
}

#[test]
fn invalid_context_geometry_is_rejected() {
    assert!(ContextBudget::try_for_model(0, 200).is_err());
    assert!(ContextBudget::try_for_model(1000, 0).is_err());
    assert!(ContextBudget::try_for_model(1000, 1000).is_err());
    assert!(ContextBudget::try_for_model(1000, 1001).is_err());
    assert!(ContextBudget::try_for_model(1000, 200).is_ok());
}

#[test]
fn usage_seen_vs_estimated() {
    let mut b = ContextBudget::for_model(1000, 200);
    b.begin_turn();
    assert!(!b.usage_seen());
    b.observe_usage(TokenUsage::new(650, 10));
    assert!(b.usage_seen());
    assert!(b.should_autocompact());

    let mut b2 = ContextBudget::for_model(1000, 200);
    b2.begin_turn();
    b2.observe_estimated(600);
    assert!(!b2.usage_seen());
    assert!(b2.should_microcompact());
    assert!(!b2.should_autocompact());
}

#[test]
fn post_compaction_baseline_prevents_immediate_recompaction() {
    let mut b = ContextBudget::for_model(1000, 200);
    b.mark_compacted(650);
    assert!(!b.should_autocompact());
    b.observe_usage(TokenUsage::new(650, 5));
    assert_eq!(b.prefill_input(), 650);
    assert!(!b.should_autocompact());
    b.observe_usage(TokenUsage::new(650 + 640, 5));
    assert!(b.should_autocompact());
}

#[test]
fn would_autocompact_projects_without_mutation() {
    let mut b = ContextBudget::for_model(1000, 200);
    b.observe_usage(TokenUsage::new(100, 5));
    assert!(b.would_autocompact(640));
    assert!(!b.would_autocompact(639));
    assert_eq!(b.current_input(), 100);
    assert!(!b.should_autocompact());
}

#[test]
fn estimate_input_uses_counter() {
    let msgs = vec![Message::user("aaaaaaaa"), Message::assistant_text("bbbb")];
    let est = estimate_input(&msgs, &HeuristicCounter);
    assert_eq!(est, 3);
}

#[test]
fn estimate_static_input_counts_system_context_and_tools() {
    let schema = r#"{"type":"object","properties":{"path":{"type":"string"}},"required":["path"],"additionalProperties":false}"#;
    let tools = vec![ToolSpec::function("read", "lit", Json::parse(schema).unwrap())];
    let est = estimate_static_input(
        &Some("system prompt".into()),
        &[Message::user("ctxctxctxctx")],
        &tools,
        &HeuristicCounter,
    );
    assert!(est > estimate_input(&[Message::user("ctxctxctxctx")], &HeuristicCounter));
}

#[test]
fn a_part_of_four_bytes_is_a_token() {
    assert_eq!(HeuristicCounter.count_text(""), 0);
    assert_eq!(HeuristicCounter.count_text("a"), 1);
    assert_eq!(HeuristicCounter.count_text("abcd"), 1);
    assert_eq!(HeuristicCounter.count_text("abcde"), 2);
    assert_eq!(HeuristicCounter.count_text("\u{e9}\u{e9}"), 1);
}

#[test]
fn an_auto_limit_takes_the_place_of_the_threshold() {
    let b = ContextBudget::try_for_model_with_auto_limit(1000, 200, Some(300)).unwrap();
    assert_eq!(b.auto_threshold(), 300);
    assert_eq!(b.micro_threshold(), 560);
    let plain = ContextBudget::try_for_model_with_auto_limit(1000, 200, None).unwrap();
    assert_eq!(plain, ContextBudget::for_model(1000, 200));
}

#[test]
fn a_usage_beyond_a_count_of_tokens_is_capped() {
    let mut b = ContextBudget::for_model(1000, 200);
    b.observe_usage(TokenUsage::new(u64::MAX, 0));
    assert_eq!(b.current_input(), u32::MAX);
}
