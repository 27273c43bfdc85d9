use agent_core::agent::{AgentContext, RunConfig};
use agent_core::compaction::CompactKind;
use agent_core::error::AgentError;
use agent_core::event::{AgentEvent, CredentialRefreshOutcome, InterruptReason, ToolCallKind};
use agent_core::lap::{Action, CallFacts, Event, FrameRead, Lap, Next, Phase};
use agent_core::message::{ContentBlock, Message};
use agent_core::provider::{
    AuthError, CanonicalResponse, ErrorClass, ProviderError, StopReason, StreamEvent, TokenUsage,
};
use agent_core::step::StepFrame;
use agent_core::tokenizer::HeuristicCounter;
use agent_core::tool_spec::ToolSpec;
use agent_core::tools::{ModelToolResult, ToolInvocation};
use agent_core::transition::ExhaustReason;
use agent_core::turn::FailureFacts;

const COUNTER: HeuristicCounter = HeuristicCounter;

fn start(context: AgentContext) -> Lap {
    Lap::start(context, "[]".into(), 100_000, None, 1_000, &COUNTER).unwrap()
}

fn plain() -> Lap {
    start(AgentContext::new("m").push(Message::user("hi")))
}

fn done() -> Event {
    Event::Written { outcome: Ok(()), cancelled: false, now_ms: 1_500 }
}

fn broken() -> Event {
    Event::Written { outcome: Err("io: full".into()), cancelled: false, now_ms: 1_500 }
}

fn wires(messages: &[Message]) -> Vec<String> {
    messages.iter().map(|message| format!("{message:?}")).collect()
}

fn encoded(lap: &Lap) -> Event {
    Event::Encoded {
        context: wires(&lap.state.context),
        messages: wires(&lap.state.messages),
        ephemeral: wires(&lap.state.ephemeral),
    }
}

fn step(lap: Lap, event: Event) -> Next {
    lap.advance(event, &COUNTER)
}

/// Takes a lap from its head to the open stream.
fn opened(lap: Lap) -> Lap {
    let next = step(lap, done());
    assert_eq!(next.action, Action::TakeInputs);
    let next = step(next.lap, Event::Inputs(Vec::new()));
    assert_eq!(next.action, Action::ReadFrame);
    let next = step(next.lap, Event::Frame(None));
    assert_eq!(next.action, Action::Encode);
    let event = encoded(&next.lap);
    let mut next = step(next.lap, event);
    if let Action::Record(_) = next.action {
        next = step(next.lap, done());
    }
    assert!(matches!(next.action, Action::Open(_)));
    let next = step(next.lap, Event::Opened);
    assert_eq!(next.action, Action::Listen);
    assert!(next.told.is_empty());
    next.lap
}

fn streamed(mut lap: Lap, events: Vec<StreamEvent>) -> (Lap, Vec<AgentEvent>) {
    let mut told = Vec::new();
    for event in events {
        let next = step(lap, Event::Streamed(event));
        assert_eq!(next.action, Action::Listen);
        told.extend(next.told);
        lap = next.lap;
    }
    (lap, told)
}

fn tool_turn(lap: Lap, id: &str) -> Next {
    let (lap, _) = streamed(
        opened(lap),
        vec![
            StreamEvent::tool_call_start(id, "bash"),
            StreamEvent::ToolCallEnd { id: id.into() },
            StreamEvent::Done { stop: StopReason::ToolUse },
        ],
    );
    step(lap, Event::Ended(None))
}

fn known() -> Vec<CallFacts> {
    vec![CallFacts { exempt: false, kind: ToolCallKind::Other }]
}

fn failure(class: ErrorClass) -> Event {
    Event::Failed {
        error: ProviderError::Transport("reset".into()),
        facts: FailureFacts { class, fallback_context: 0, now_ms: 0 },
    }
}

#[test]
fn a_turn_is_written_sampled_written_and_ended() {
    let (lap, told) = streamed(
        opened(plain()),
        vec![
            StreamEvent::TextDelta { text: "hello".into() },
            StreamEvent::Done { stop: StopReason::EndTurn },
        ],
    );
    assert_eq!(told, vec![AgentEvent::Text("hello".into())]);
    let next = step(lap, Event::Ended(Some(9)));
    assert!(matches!(
        &next.told[..],
        [AgentEvent::ModelTurn(turn)] if turn.context_window == Some(9)
    ));
    assert_eq!(next.action, Action::Write);
    assert_eq!(next.lap.phase, Phase::Closing);
    let next = step(next.lap, done());
    assert_eq!(next.told, vec![AgentEvent::EndTurn]);
    assert_eq!(next.action, Action::End);
    assert_eq!(next.lap.state.messages[1].text(), "hello");
}

#[test]
fn a_transcript_that_cannot_be_written_ends_the_run() {
    let next = step(plain(), broken());
    assert_eq!(
        next.told,
        vec![AgentEvent::Error(AgentError::Session("io: full".into()))]
    );
    assert_eq!(next.action, Action::End);
}

#[test]
fn a_stop_at_the_head_answers_and_tells_how_long_it_took() {
    let cancelled = Event::Written { outcome: Ok(()), cancelled: true, now_ms: 1_200 };
    let next = step(plain(), cancelled);
    assert_eq!(next.action, Action::Write);
    let next = step(next.lap, done());
    assert!(matches!(
        &next.told[..],
        [AgentEvent::Interrupted(view)]
            if view.reason == InterruptReason::Cancelled && view.duration_ms == Some(500)
    ));
    assert_eq!(next.action, Action::End);
}

#[test]
fn a_stopped_dispatch_is_reconciled_at_the_next_head() {
    let next = tool_turn(plain(), "c1");
    let next = step(next.lap, done());
    let next = step(next.lap, Event::Examined(known()));
    assert!(matches!(next.action, Action::Dispatch(_)));
    let next = step(next.lap, Event::Cancelled);
    assert_eq!(next.action, Action::Write);
    let cancelled = Event::Written { outcome: Ok(()), cancelled: true, now_ms: 1_200 };
    let next = step(next.lap, cancelled);
    assert!(matches!(&next.told[..], [AgentEvent::ToolResult(view)] if view.id == "c1"));
    assert_eq!(
        next.lap.phase,
        Phase::Stopping { reason: InterruptReason::Cancelled, reconciled: 1 }
    );
}

#[test]
fn calls_are_written_before_they_run() {
    let next = tool_turn(plain(), "c1");
    assert_eq!(next.action, Action::Write);
    assert!(matches!(next.lap.phase, Phase::Calling { .. }));
    let next = step(next.lap, done());
    assert_eq!(next.action, Action::Examine);
    let next = step(next.lap, Event::Examined(known()));
    assert!(matches!(&next.told[..], [AgentEvent::ToolCall(view)] if view.name == "bash"));
    assert!(matches!(&next.action, Action::Dispatch(calls) if calls.len() == 1));
    let result = ModelToolResult::new("c1".into(), "out".into(), false, true, None);
    let next = step(next.lap, Event::Ran(vec![result]));
    assert!(matches!(&next.told[..], [AgentEvent::ToolResult(view)] if view.content == "out"));
    assert_eq!(next.action, Action::Write);
}

#[test]
fn results_of_other_calls_end_the_run() {
    let next = tool_turn(plain(), "c1");
    let next = step(next.lap, done());
    let next = step(next.lap, Event::Examined(known()));
    let stray = ModelToolResult::new("c2".into(), "out".into(), false, true, None);
    let next = step(next.lap, Event::Ran(vec![stray]));
    assert!(matches!(&next.told[..], [AgentEvent::Error(AgentError::Provider(_))]));
    assert_eq!(next.action, Action::End);
}

#[test]
fn a_batch_that_repeats_itself_is_answered() {
    let mut lap = plain();
    for turn in 0..2 {
        let id = format!("c{turn}");
        let next = tool_turn(lap, &id);
        let next = step(next.lap, done());
        let next = step(next.lap, Event::Examined(known()));
        let result = ModelToolResult::new(id, "out".into(), false, true, None);
        lap = step(next.lap, Event::Ran(vec![result])).lap;
    }
    let next = tool_turn(lap, "c2");
    let next = step(next.lap, done());
    let next = step(next.lap, Event::Examined(known()));
    assert!(matches!(&next.told[..], [AgentEvent::ToolResult(view)] if view.is_error));
    assert_eq!(next.action, Action::Write);
}

#[test]
fn a_failed_sampling_is_erased_and_tried_again() {
    let (lap, _) =
        streamed(opened(plain()), vec![StreamEvent::TextDelta { text: "par".into() }]);
    let next = step(lap, failure(ErrorClass::Retryable));
    assert!(matches!(
        &next.told[..],
        [AgentEvent::StreamReset, AgentEvent::RetryScheduled(view)]
            if view.ordinal == 2 && view.delay_ms > 0
    ));
    assert!(matches!(next.action, Action::Sleep(delay) if delay > 0));
    let next = step(next.lap, Event::Slept);
    assert_eq!(next.action, Action::Write);
    assert!(next.lap.state.usage_budget.spent_input() > 0);
}

#[test]
fn an_input_cuts_a_sampling_short() {
    let (lap, _) =
        streamed(opened(plain()), vec![StreamEvent::TextDelta { text: "par".into() }]);
    let next = step(lap, Event::Steered);
    assert_eq!(next.told, vec![AgentEvent::StreamReset]);
    let next = step(next.lap, done());
    let next = step(next.lap, Event::Inputs(vec![Message::user("rather")]));
    assert_eq!(next.lap.state.messages.len(), 2);
}

#[test]
fn a_stop_keeps_what_was_sampled() {
    let (lap, _) =
        streamed(opened(plain()), vec![StreamEvent::TextDelta { text: "par".into() }]);
    let next = step(lap, Event::Cancelled);
    assert!(next.told.is_empty());
    assert_eq!(next.lap.state.messages[1].text(), "par");
}

#[test]
fn a_refreshed_credential_opens_again() {
    let next = step(opened(plain()), failure(ErrorClass::Auth(AuthError::Expired)));
    assert_eq!(next.action, Action::Refresh);
    let next = step(next.lap, Event::Refreshed(Ok(())));
    assert!(matches!(
        &next.told[..],
        [AgentEvent::CredentialRefresh(view), AgentEvent::RetryScheduled(_)]
            if view.outcome == CredentialRefreshOutcome::Succeeded
    ));

    let next = step(opened(plain()), failure(ErrorClass::Auth(AuthError::Expired)));
    let refused = ProviderError::Credential(AuthError::RecoveryPermanent);
    let next = step(next.lap, Event::Refreshed(Err(refused)));
    assert!(matches!(
        &next.told[..],
        [AgentEvent::CredentialRefresh(view), AgentEvent::Error(AgentError::Auth(_))]
            if view.outcome == CredentialRefreshOutcome::Permanent
    ));
    assert_eq!(next.action, Action::End);

    let next = step(opened(plain()), failure(ErrorClass::Auth(AuthError::Expired)));
    let next = step(next.lap, Event::Cancelled);
    assert!(matches!(
        &next.told[..],
        [AgentEvent::CredentialRefresh(view)]
            if view.outcome == CredentialRefreshOutcome::Cancelled
    ));
}

#[test]
fn a_refused_context_is_compacted_and_sampled_again() {
    let lap = start(
        AgentContext::new("m")
            .push(Message::user("first"))
            .push(Message::assistant_text("work"))
            .push(Message::user("current")),
    );
    let refused = Event::Failed {
        error: ProviderError::ContextLengthExceeded,
        facts: FailureFacts { class: ErrorClass::ContextLimit, fallback_context: 0, now_ms: 0 },
    };
    let next = step(opened(lap), refused);
    assert!(matches!(&next.told[..], [AgentEvent::RetryScheduled(_)]));
    let next = step(next.lap, done());
    assert!(matches!(&next.action, Action::Measure(model) if model == "m"));
    let next = step(next.lap, Event::Measured(100_000));
    assert!(matches!(&next.action, Action::Complete(request) if request.messages.len() == 2));
    let summary = CanonicalResponse {
        content: vec![ContentBlock::Text { text: "SUMMARY".into() }],
        usage: TokenUsage::new(5, 2),
        stop: StopReason::EndTurn,
    };
    let next = step(next.lap, Event::Completed(Ok(summary)));
    assert_eq!(next.action, Action::Checkpoint(CompactKind::Reactive));
    let next = step(next.lap, done());
    assert_eq!(next.told, vec![AgentEvent::Compacted(CompactKind::Reactive)]);
    assert_eq!(next.lap.phase, Phase::Head);
}

#[test]
fn a_refused_context_that_cannot_be_compacted_ends_the_run() {
    let refused = Event::Failed {
        error: ProviderError::ContextLengthExceeded,
        facts: FailureFacts { class: ErrorClass::ContextLimit, fallback_context: 0, now_ms: 0 },
    };
    let next = step(opened(plain()), refused);
    let next = step(next.lap, done());
    let next = step(next.lap, Event::Measured(100_000));
    assert!(matches!(
        &next.told[..],
        [AgentEvent::Error(AgentError::ContextUnrecoverable(_))]
    ));
    assert_eq!(next.action, Action::End);
}

#[test]
fn a_used_up_budget_opens_nothing() {
    let lap = start(AgentContext::new("m").push(Message::user("hi")).with_config(RunConfig {
        token_budget: Some(10),
        ..RunConfig::default()
    }));
    let next = step(lap, done());
    let next = step(next.lap, Event::Inputs(Vec::new()));
    let next = step(next.lap, Event::Frame(None));
    let event = encoded(&next.lap);
    let next = step(next.lap, event);
    assert!(matches!(
        &next.told[..],
        [AgentEvent::Exhausted(ExhaustReason::TokenBudget { .. })]
    ));
    assert_eq!(next.action, Action::End);
}

#[test]
fn a_frame_with_tools_needs_its_registry_read() {
    let next = step(plain(), done());
    let next = step(next.lap, Event::Inputs(Vec::new()));
    let frame = StepFrame {
        generation: 1,
        tools: vec![ToolSpec::freeform("t", "d", None)],
        context_messages: Vec::new(),
    };
    let read = FrameRead { frame, kinds: Vec::new(), dispatch: None };
    let next = step(next.lap, Event::Frame(Some(read)));
    assert!(matches!(
        &next.told[..],
        [AgentEvent::Error(AgentError::InvalidRequest(_))]
    ));
}

#[test]
fn a_failed_opening_erases_nothing() {
    let next = step(plain(), done());
    let next = step(next.lap, Event::Inputs(Vec::new()));
    let next = step(next.lap, Event::Frame(None));
    let event = encoded(&next.lap);
    let next = step(next.lap, event);
    assert!(matches!(&next.action, Action::Record(moved) if moved.from.is_none()));
    let next = step(next.lap, done());
    let next = step(next.lap, failure(ErrorClass::InvalidRequest));
    assert!(matches!(&next.told[..], [AgentEvent::Error(_)]));
    assert_eq!(next.action, Action::End);
}

#[test]
fn calls_of_a_lap_can_be_read() {
    let next = tool_turn(plain(), "c1");
    match next.lap.phase {
        Phase::Calling { calls } => {
            let call: &ToolInvocation = &calls[0];
            assert_eq!(call.id, "c1");
        }
        other => unreachable!("expected the calls, got {other:?}"),
    }
}
