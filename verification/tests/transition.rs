use agent_core::compaction::CompactKind;
use agent_core::error::AgentError;
use agent_core::json::Json;
use agent_core::message::{ContentBlock, Role, ToolCallFormat};
use agent_core::provider::{StopReason, StreamEvent};
use agent_core::tokenizer::HeuristicCounter;
use agent_core::transition::{
    post_stream_transition, pre_stream_transition, Accumulator, ContextErrorKind, ExhaustReason,
    PendingError, Transition,
};

fn acc_with(events: Vec<StreamEvent>) -> Accumulator {
    let mut a = Accumulator::new();
    for e in events {
        a.push(e).unwrap();
    }
    a
}

fn delta(id: &str, text: &str) -> StreamEvent {
    StreamEvent::ToolCallDelta { id: id.into(), input_delta: text.into() }
}

fn end(id: &str) -> StreamEvent {
    StreamEvent::ToolCallEnd { id: id.into() }
}

fn done(stop: StopReason) -> StreamEvent {
    StreamEvent::Done { stop }
}

#[test]
fn pre_stream_priority_recover_then_compact() {
    let p = PendingError { kind: ContextErrorKind::PromptTooLong };
    assert!(matches!(pre_stream_transition(Some(p), true), Some(Transition::Recover(_))));
    assert!(matches!(
        pre_stream_transition(None, true),
        Some(Transition::Compact(CompactKind::Auto))
    ));
    assert!(pre_stream_transition(None, false).is_none());
}

#[test]
fn nothing_here_exhausts_a_run_that_is_merely_long() {
    for _ in 0..10_000 {
        assert!(pre_stream_transition(None, false).is_none());
    }
}

#[test]
fn post_stream_endturn_runtools_fail() {
    let ended = acc_with(vec![done(StopReason::EndTurn)]);
    assert!(matches!(post_stream_transition(&ended), Transition::EndTurn));

    let tools = acc_with(vec![
        StreamEvent::tool_call_start("c1", "bash"),
        delta("c1", "{\"cmd\":\"ls\"}"),
        end("c1"),
        done(StopReason::ToolUse),
    ]);
    match post_stream_transition(&tools) {
        Transition::RunTools(calls) => {
            assert_eq!(calls.len(), 1);
            assert_eq!(calls[0].name, "bash");
            assert_eq!(calls[0].input.get("cmd").and_then(|value| value.as_str()), Some("ls"));
        }
        other => unreachable!("expected RunTools, got {other:?}"),
    }

    let refusal = acc_with(vec![done(StopReason::Refusal)]);
    assert!(matches!(post_stream_transition(&refusal), Transition::Fail(_)));
}

#[test]
fn tooluse_stop_without_calls_is_failclosed_endturn() {
    let a = acc_with(vec![done(StopReason::ToolUse)]);
    assert!(matches!(post_stream_transition(&a), Transition::Fail(_)));
}

#[test]
fn maxtokens_mid_toolcall_recovers_not_drops() {
    let a = acc_with(vec![
        StreamEvent::tool_call_start("c1", "bash"),
        delta("c1", "{\"cm"),
        done(StopReason::MaxTokens),
    ]);
    assert!(matches!(
        post_stream_transition(&a),
        Transition::Recover(PendingError { kind: ContextErrorKind::MaxTokensInput })
    ));
}

#[test]
fn maxtokens_plain_text_exhausts() {
    let a = acc_with(vec![
        StreamEvent::TextDelta { text: "truncated answer".into() },
        done(StopReason::MaxTokens),
    ]);
    assert!(matches!(
        post_stream_transition(&a),
        Transition::Exhausted(ExhaustReason::MaxOutputTokens { visible_output: true })
    ));
}

#[test]
fn missing_terminal_event_fails_closed() {
    let a = acc_with(vec![StreamEvent::TextDelta { text: "partiel".into() }]);
    assert!(matches!(post_stream_transition(&a), Transition::Fail(_)));
}

#[test]
fn accumulator_orders_reasoning_before_tooluse() {
    let a = acc_with(vec![
        StreamEvent::EncryptedReasoning { id: "rs_1".into(), encrypted_content: "ENC".into() },
        StreamEvent::tool_call_start("c1", "bash"),
        delta("c1", "{}"),
        end("c1"),
        done(StopReason::ToolUse),
    ]);
    let m = a.to_assistant_message();
    let rs = m
        .content
        .iter()
        .position(|b| matches!(b, ContentBlock::EncryptedReasoning { .. }))
        .unwrap();
    let tu = m
        .content
        .iter()
        .position(|b| matches!(b, ContentBlock::ToolUse { .. }))
        .unwrap();
    assert!(rs < tu);
}

#[test]
fn assistant_message_carries_text_and_tooluse() {
    let a = acc_with(vec![
        StreamEvent::TextDelta { text: "ok".into() },
        StreamEvent::tool_call_start("c1", "bash"),
        delta("c1", "{}"),
        end("c1"),
        done(StopReason::ToolUse),
    ]);
    let m = a.to_assistant_message();
    assert_eq!(m.role, Role::Assistant);
    assert_eq!(m.content.len(), 2);
}

#[test]
fn fallback_output_estimate_counts_reasoning_and_tool_calls() {
    let a = acc_with(vec![
        StreamEvent::ReasoningDelta { text: "hidden reasoning".into() },
        StreamEvent::EncryptedReasoning { id: "rs_1".into(), encrypted_content: "ENC".into() },
        StreamEvent::tool_call_start("c1", "bash"),
        delta("c1", "{\"cmd\":\"ls\"}"),
        end("c1"),
        done(StopReason::ToolUse),
    ]);
    assert!(a.estimate_output(&HeuristicCounter) > 0);
}

#[test]
fn accumulator_rejects_delta_without_start() {
    let mut a = Accumulator::new();
    let err = a.push(delta("c1", "{}")).unwrap_err();
    assert!(matches!(err, AgentError::Provider(_)));
}

#[test]
fn accumulator_rejects_invalid_json_at_tool_end() {
    let mut a = Accumulator::new();
    a.push(StreamEvent::tool_call_start("c1", "bash")).unwrap();
    a.push(delta("c1", "{\"cmd\"")).unwrap();
    let err = a.push(end("c1")).unwrap_err();
    assert!(matches!(err, AgentError::Provider(_)));
}

#[test]
fn authoritative_terminal_input_replaces_already_observed_deltas() {
    let mut accumulator = Accumulator::new();
    accumulator.push(StreamEvent::tool_call_start("c1", "shell")).unwrap();
    accumulator.push(delta("c1", "{\"cmd\":\"stale\"}")).unwrap();
    accumulator
        .push(StreamEvent::ToolCallInputDone {
            id: "c1".into(),
            input: "{\"cmd\":\"fresh\"}".into(),
        })
        .unwrap();
    accumulator.push(end("c1")).unwrap();
    assert_eq!(
        accumulator.tool_calls()[0].input,
        Json::parse(r#"{"cmd": "fresh"}"#).unwrap()
    );
}

#[test]
fn freeform_call_accumulates_text_without_json_parsing() {
    let source = "// @exec: cell\nconst x = {unbalanced;";
    let mut a = Accumulator::new();
    a.push(StreamEvent::custom_tool_call_start("c1", "exec")).unwrap();
    for chunk in ["// @exec: cell\n", "const x = {unbalanced;"] {
        a.push(delta("c1", chunk)).unwrap();
    }
    a.push(end("c1")).unwrap();
    a.push(done(StopReason::ToolUse)).unwrap();

    let calls = a.tool_calls();
    assert_eq!(calls.len(), 1);
    assert_eq!(calls[0].id, "c1");
    assert_eq!(calls[0].name, "exec");
    assert_eq!(calls[0].format, ToolCallFormat::Text);
    assert_eq!(calls[0].text_input(), Some(source));

    let message = a.to_assistant_message();
    let ContentBlock::ToolUse { id, name, input, format } = message
        .content
        .iter()
        .find(|block| matches!(block, ContentBlock::ToolUse { .. }))
        .expect("tool use block")
    else {
        unreachable!()
    };
    assert_eq!((id.as_str(), name.as_str()), ("c1", "exec"));
    assert_eq!(*format, ToolCallFormat::Text);
    assert_eq!(input.as_str(), Some(source));
    assert!(matches!(post_stream_transition(&a), Transition::RunTools(_)));
}

#[test]
fn a_freeform_call_without_input_stays_an_empty_string_not_an_object() {
    let mut a = Accumulator::new();
    a.push(StreamEvent::custom_tool_call_start("c1", "exec")).unwrap();
    a.push(end("c1")).unwrap();
    assert_eq!(a.tool_calls()[0].text_input(), Some(""));
    let mut json = Accumulator::new();
    json.push(StreamEvent::tool_call_start("c2", "bash")).unwrap();
    json.push(end("c2")).unwrap();
    assert_eq!(json.tool_calls()[0].input, Json::parse("{}").unwrap());
}

#[test]
fn contract_violations_reject_freeform_calls_the_same_way() {
    let mut a = Accumulator::new();
    assert!(a.push(StreamEvent::custom_tool_call_start("c1", " ")).is_err());
    let mut a = Accumulator::new();
    a.push(StreamEvent::custom_tool_call_start("c1", "exec")).unwrap();
    assert!(a.push(StreamEvent::custom_tool_call_start("c1", "exec")).is_err());
    assert!(a.push(delta("ghost", "x")).is_err());
    assert!(a.push(end("ghost")).is_err());
}

#[test]
fn the_other_stops_lead_where_they_should() {
    assert!(matches!(
        post_stream_transition(&acc_with(vec![done(StopReason::Continue)])),
        Transition::Continue
    ));
    assert!(matches!(
        post_stream_transition(&acc_with(vec![done(StopReason::ContentFilter)])),
        Transition::Fail(_)
    ));
    assert!(matches!(
        post_stream_transition(&acc_with(vec![done(StopReason::MaxTokens)])),
        Transition::Exhausted(ExhaustReason::MaxOutputTokens { visible_output: false })
    ));
}
