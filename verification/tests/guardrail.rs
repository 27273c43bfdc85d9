use agent_core::guardrail::{
    guarded_batch_signature, loop_guard_message, loop_guard_thresholds_are_valid, CostBudget,
    LoopDecision, LoopGuard, LoopRegister, UsageBudget, LOOP_GUARD_ARGS_PREVIEW_BYTES,
    LOOP_GUARD_THRESHOLDS,
};
use agent_core::json::{Json, JsonMember};
use agent_core::tools::ToolInvocation;
use agent_core::transition::ExhaustReason;

fn parse(text: &str) -> Json {
    Json::parse(text).unwrap()
}

fn object(name: &str, value: &str) -> Json {
    Json::object(vec![JsonMember { name: name.to_string(), value: Json::text(value) }])
}

/// The signature where the calls of one name are exempt.
fn signature(calls: &[ToolInvocation], exempt: &str) -> Option<String> {
    let flags: Vec<bool> = calls.iter().map(|call| call.name == exempt).collect();
    guarded_batch_signature(calls, &flags)
}

#[test]
fn the_ladder_escalates_over_two_registers_before_it_aborts() {
    let mut g = LoopGuard::new(LOOP_GUARD_THRESHOLDS);
    assert_eq!(g.observe("a".into()), LoopDecision::Proceed);
    assert_eq!(g.observe("a".into()), LoopDecision::Proceed);
    let gentle = LoopDecision::Signal(LoopRegister::Gentle);
    let detailed = LoopDecision::Signal(LoopRegister::Detailed);
    assert_eq!(g.observe("a".into()), gentle);
    assert_eq!(g.observe("a".into()), gentle);
    assert_eq!(g.observe("a".into()), detailed);
    assert_eq!(g.observe("a".into()), detailed);
    assert_eq!(g.observe("a".into()), detailed);
    assert_eq!(g.observe("a".into()), LoopDecision::Abort);
    assert_eq!(g.count(), 8);
}

#[test]
fn a_different_batch_ends_the_run_without_crossing_any_tier() {
    let mut g = LoopGuard::new(LOOP_GUARD_THRESHOLDS);
    assert_eq!(g.observe("a".into()), LoopDecision::Proceed);
    assert_eq!(g.observe("a".into()), LoopDecision::Proceed);
    assert_eq!(g.observe("b".into()), LoopDecision::Proceed);
    assert_eq!(g.count(), 1);
    assert_eq!(g.observe("b".into()), LoopDecision::Proceed);
    assert_eq!(g.observe("b".into()), LoopDecision::Signal(LoopRegister::Gentle));
}

#[test]
fn the_validator_refuses_a_duplicate_a_decrease_and_a_hair_trigger() {
    assert!(loop_guard_thresholds_are_valid(&LOOP_GUARD_THRESHOLDS));
    assert!(!loop_guard_thresholds_are_valid(&[3, 3, 8]));
    assert!(!loop_guard_thresholds_are_valid(&[8, 5, 3]));
    assert!(!loop_guard_thresholds_are_valid(&[1, 5, 8]));
}

#[test]
fn the_gentle_register_quotes_nothing_and_the_detailed_one_quotes_everything() {
    let args = parse(r#"{"cmd": "ls -la"}"#);
    let gentle = loop_guard_message(LoopRegister::Gentle, "bash", 3, &args);
    assert!(!gentle.contains("ls -la"));
    assert!(!gentle.contains("bash"));

    let detailed = loop_guard_message(LoopRegister::Detailed, "bash", 5, &args);
    assert!(detailed.contains("bash"));
    assert!(detailed.contains('5'));
    assert!(detailed.contains("ls -la"));
}

#[test]
fn a_megabyte_argument_is_cut_on_a_character_boundary_under_the_ceiling() {
    let mut payload = "x".repeat(493);
    payload.push('\u{e9}');
    payload.push_str(&"y".repeat(1024 * 1024));
    let args = object("a", &payload);
    let canonical = args.render();
    assert!(!canonical.is_char_boundary(LOOP_GUARD_ARGS_PREVIEW_BYTES));

    let message = loop_guard_message(LoopRegister::Detailed, "write", 5, &args);
    assert!(message.contains(&format!("{}... [", &canonical[..499])));
    assert!(!message.contains('\u{e9}'));
    assert!(message.len() < LOOP_GUARD_ARGS_PREVIEW_BYTES + 256);
}

#[test]
fn the_detection_key_is_never_truncated_by_the_preview_ceiling() {
    let body = |tail: &str| {
        let mut value = "x".repeat(1024 * 1024);
        value.push_str(tail);
        ToolInvocation::json("x", "write", object("body", &value))
    };
    assert_ne!(signature(&[body("left")], ""), signature(&[body("right")], ""));
}

#[test]
fn the_signature_honors_what_the_dispatcher_exempts() {
    let inv = |name: &str| ToolInvocation::json("x", name, parse(r#"{"a": 1}"#));
    assert_eq!(signature(&[inv("control")], "control"), None);
    assert!(signature(&[inv("bash")], "control").is_some());
    assert_eq!(
        signature(&[inv("bash"), inv("control")], "control"),
        signature(&[inv("bash")], "control")
    );
}

#[test]
fn a_reset_breaks_a_repetition_run() {
    let mut guard = LoopGuard::new(LOOP_GUARD_THRESHOLDS);
    assert_eq!(guard.observe("same".into()), LoopDecision::Proceed);
    assert_eq!(guard.observe("same".into()), LoopDecision::Proceed);
    guard.reset();
    assert_eq!(guard.observe("same".into()), LoopDecision::Proceed);
    assert_eq!(guard.count(), 1);
}

#[test]
fn batch_signature_is_order_independent_and_distinct() {
    let inv = |name: &str, input: &str| ToolInvocation::json("x", name, parse(input));
    let s1 = signature(&[inv("read", r#"{"path": "a"}"#), inv("bash", r#"{"cmd": "ls"}"#)], "");
    let s2 = signature(&[inv("bash", r#"{"cmd": "ls"}"#), inv("read", r#"{"path": "a"}"#)], "");
    assert_eq!(s1, s2);
    let s3 = signature(&[inv("bash", r#"{"cmd": "pwd"}"#)], "");
    assert_ne!(s1, s3);
}

fn signature_of(raw_arguments: &str) -> Option<String> {
    signature(&[ToolInvocation::json("x", "write", parse(raw_arguments))], "")
}

#[test]
fn the_signature_is_blind_to_the_order_of_the_json_keys() {
    assert_eq!(
        signature_of(r#"{"a":1,"b":{"c":2,"d":3}}"#),
        signature_of(r#"{"b":{"d":3,"c":2},"a":1}"#)
    );
}

#[test]
fn the_signature_tells_two_permuted_values_apart() {
    assert_ne!(signature_of(r#"{"a":1,"b":2}"#), signature_of(r#"{"a":2,"b":1}"#));
}

#[test]
fn token_budget_kill_switch() {
    let mut b = UsageBudget::new(Some(1000), None);
    assert!(b.exceeded().is_none());
    b.record(600, 300);
    assert!(b.exceeded().is_none());
    b.record(100, 50);
    assert!(matches!(
        b.exceeded(),
        Some(ExhaustReason::TokenBudget { spent: 1050, limit: 1000 })
    ));
}

#[test]
fn pre_turn_estimate_stops_before_big_turn() {
    let b = UsageBudget::new(Some(1000), None);
    assert!(matches!(b.would_exceed(900, 300), Some(ExhaustReason::TokenBudget { .. })));
    assert!(b.would_exceed(500, 100).is_none());
}

#[test]
fn cost_budget_kill_switch() {
    let cost = CostBudget {
        limit_micro_usd: 100,
        input_micro_per_ktok: 50,
        output_micro_per_ktok: 100,
    };
    let mut b = UsageBudget::new(None, Some(cost));
    b.record(1000, 500);
    assert!(matches!(
        b.exceeded(),
        Some(ExhaustReason::CostBudget { spent_micro_usd: 100, limit_micro_usd: 100 })
    ));
}

#[test]
fn inactive_budget_never_triggers() {
    let mut b = UsageBudget::default();
    assert!(!b.is_active());
    b.record(1_000_000, 1_000_000);
    assert!(b.exceeded().is_none());
    assert!(b.would_exceed(1_000_000, 1_000_000).is_none());
}

#[test]
fn the_terminal_register_says_that_dispatch_is_stopped() {
    let message = loop_guard_message(LoopRegister::Terminal, "bash", 8, &parse(r#"{"b":1,"a":2}"#));
    assert_eq!(
        message,
        "Loop guard: `bash` was called 8 times in a row with identical arguments. Dispatch is stopped for the rest of this turn. Arguments: {\"a\":2,\"b\":1}."
    );
}

#[test]
fn a_reached_budget_stays_reached() {
    let mut b = UsageBudget::new(Some(10), None);
    b.record(u64::MAX, 1);
    assert_eq!(b.spent_tokens(), u64::MAX);
    b.record(1, 1);
    assert!(b.exceeded().is_some());
}

#[test]
fn an_object_is_the_same_in_whatever_order_it_is_written() {
    let member = |name: &str, value: &str| JsonMember { name: name.into(), value: Json::text(value) };
    let one = Json::object(vec![member("a", "1"), member("b", "2"), member("c", "3")]);
    let other = Json::object(vec![member("c", "3"), member("a", "1"), member("b", "2")]);
    assert_eq!(one, other);
    assert_eq!(one.render(), r#"{"a":"1","b":"2","c":"3"}"#);
    let twice = Json::object(vec![member("a", "1"), member("a", "2")]);
    assert_eq!(twice.render(), r#"{"a":"2"}"#);
    let read = Json::parse(r#"{"b":[{"d":1,"c":2}],"a":0}"#).unwrap();
    assert_eq!(read.render(), r#"{"a":0,"b":[{"c":2,"d":1}]}"#);
}
