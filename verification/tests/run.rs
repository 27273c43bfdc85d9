use agent_core::agent::{AgentContext, HeadlessEnd, HeadlessFold, RunConfig};
use agent_core::compaction::{full_compact, CompactKind};
use agent_core::error::AgentError;
use agent_core::event::{AgentEvent, InterruptReason};
use agent_core::json::Json;
use agent_core::message::{ContentBlock, Message, ToolErrorKind};
use agent_core::model::{
    InputModality, ModelRetryPolicy, ModelRuntimeSource, ModelToolCapabilities, ModelToolMode,
    MultiAgentVersion, ReasoningReplaySupport, ResolvedModelRuntime, ResponsesDialect,
    TruncationMode, TruncationPolicy,
};
use agent_core::prompt::{ContextTransitionCause, EncodedMessage, PromptSnapshot};
use agent_core::provider::{
    AuthError, CanonicalResponse, ErrorClass, ProviderError, StopReason, StreamEvent, TokenUsage,
};
use agent_core::request::TURN_ID_METADATA_KEY;
use agent_core::run::{unrecoverable, RunState, Sampling, ToolStep};
use agent_core::step::{ContextFragmentKind, StepFrame};
use agent_core::tokenizer::HeuristicCounter;
use agent_core::tool_spec::ToolSpec;
use agent_core::tools::{ModelToolResult, ToolDispatchSnapshot, ToolInvocation};
use agent_core::transition::{ContextErrorKind, ExhaustReason, PendingError, Transition};
use agent_core::turn::{FailureAction, FailureFacts};

const COUNTER: HeuristicCounter = HeuristicCounter;

fn encoded(messages: &[Message]) -> Vec<EncodedMessage> {
    messages
        .iter()
        .map(|message| EncodedMessage {
            message: message.clone(),
            wire: format!("{message:?}"),
        })
        .collect()
}

fn snapshot(state: &RunState) -> PromptSnapshot {
    PromptSnapshot::capture(
        state.turn.model.clone(),
        state.turn.model_runtime.clone(),
        state.turn.reasoning_effort.clone(),
        state.turn.system.clone(),
        encoded(&state.context),
        state.context_kinds.clone(),
        &encoded(&state.messages),
        encoded(&state.ephemeral),
        state.turn.tool_plan.clone(),
        state.config.max_output_tokens,
        state.turn.reasoning_replay,
        state.model_switch_from(),
    )
    .unwrap()
}

fn start(context: AgentContext) -> RunState {
    RunState::start(context, "[]".into(), 100_000, None, 1_000, &COUNTER).unwrap()
}

fn plain() -> RunState {
    start(AgentContext::new("m").push(Message::user("hi")))
}

fn runtime(slug: &str, hash: Option<&str>) -> ResolvedModelRuntime {
    ResolvedModelRuntime {
        slug: slug.into(),
        source: ModelRuntimeSource::Embedded { version: "test".into() },
        instructions: "instructions".into(),
        fingerprint: "b".repeat(64),
        context_window: 10_000,
        auto_compact_token_limit: 8_000,
        input_modalities: vec![InputModality::Text],
        reasoning_effort: None,
        supports_verbosity: false,
        verbosity: None,
        supports_parallel_tool_calls: true,
        tool_capabilities: ModelToolCapabilities::default(),
        service_tiers: Vec::new(),
        reasoning_replay: ReasoningReplaySupport::Disabled,
        responses_dialect: ResponsesDialect::Standard,
        tool_mode: ModelToolMode::Direct,
        multi_agent_version: MultiAgentVersion::Disabled,
        truncation: TruncationPolicy { mode: TruncationMode::Tokens, limit: 1_000 },
        retry: ModelRetryPolicy { max_attempts: 2, backoff_base_ms: 50 },
        max_output_tokens: 100,
        comp_hash: hash.map(str::to_string),
    }
}

fn facts(class: ErrorClass) -> FailureFacts {
    FailureFacts { class, fallback_context: 50_000, now_ms: 0 }
}

fn transport() -> ProviderError {
    ProviderError::Transport("reset".into())
}

fn call(id: &str, name: &str) -> ToolInvocation {
    ToolInvocation::json(id, name, Json::parse("{}").unwrap())
}

fn feed(state: &mut RunState, events: Vec<StreamEvent>) -> (Sampling, Vec<AgentEvent>) {
    let mut sampling = Sampling::new();
    let mut shown = Vec::new();
    for event in events {
        if let Some(told) = state.on_event(&mut sampling, event, &COUNTER).unwrap() {
            shown.push(told);
        }
    }
    (sampling, shown)
}

#[test]
fn a_plain_turn_samples_once_and_ends() {
    let mut state = plain();
    assert!(state.head(false).is_none());
    assert!(!state.relieve(&COUNTER));
    assert!(!state.forget_reasoning());
    let prompt = snapshot(&state);
    let moved = state.open(&prompt, &COUNTER).unwrap().expect("the first baseline is new");
    assert!(moved.from.is_none());
    assert_eq!(&moved.to, prompt.baseline());
    let request = state.request(&prompt).unwrap();
    assert_eq!(request.messages, vec![Message::user("hi")]);
    assert!(request.client_metadata.is_empty());
    assert_eq!(state.attempt(&prompt).step, 1);

    let (sampling, shown) = feed(
        &mut state,
        vec![
            StreamEvent::TextDelta { text: "he".into() },
            StreamEvent::TextDelta { text: "llo".into() },
            StreamEvent::Usage { usage: TokenUsage::new(7, 3) },
            StreamEvent::Done { stop: StopReason::EndTurn },
        ],
    );
    assert_eq!(shown, vec![AgentEvent::Text("he".into()), AgentEvent::Text("llo".into())]);
    let settled = state.settle(&sampling, Some(5_000), &COUNTER);
    assert!(matches!(settled.transition, Transition::EndTurn));
    assert!(!settled.reset);
    assert_eq!(settled.turn.index, 1);
    assert_eq!(settled.turn.last_usage, Some(TokenUsage::new(7, 3)));
    assert_eq!(settled.turn.context_window, Some(5_000));
    assert_eq!(state.messages.len(), 2);
    assert_eq!(state.messages[1].text(), "hello");

    // The baseline has not moved since.
    let again = snapshot(&state);
    assert_eq!(state.open(&again, &COUNTER), Ok(None));
}

#[test]
fn the_turn_is_named_in_the_metadata_of_its_requests() {
    let mut context = AgentContext::new("m").push(Message::user("hi"));
    context.turn_id = Some("turn-7".into());
    let state = start(context);
    let request = state.request(&snapshot(&state)).unwrap();
    assert_eq!(request.client_metadata.len(), 1);
    let entries = request.client_metadata.entries();
    assert_eq!(entries[0].key, TURN_ID_METADATA_KEY);
    assert_eq!(entries[0].value, "turn-7");
}

#[test]
fn a_run_needs_room_for_an_answer() {
    let error =
        RunState::start(AgentContext::new("m"), "[]".into(), 0, None, 0, &COUNTER).unwrap_err();
    assert!(matches!(error, AgentError::InvalidRequest(_)));
}

#[test]
fn a_resolved_model_brings_its_own_settings() {
    let mut context = AgentContext::new("ignored").push(Message::user("hi"));
    context.model_runtime = Some(runtime("resolved", None));
    let state = start(context);
    assert_eq!(state.turn.model, "resolved");
    assert_eq!(state.turn.system.as_deref(), Some("instructions"));
    assert_eq!(state.config.max_output_tokens, 100);
    assert_eq!(state.turn.budget.auto_threshold(), 8_000);
    assert!(state.turn.parallel_tools);
}

#[test]
fn stops_come_before_work() {
    let mut state = plain();
    state.pending_abort = Some(InterruptReason::ToolAborted);
    state.force_compact = true;
    assert!(matches!(
        state.head(true),
        Some(Transition::Interrupted(InterruptReason::Cancelled))
    ));
    assert!(matches!(
        state.head(false),
        Some(Transition::Interrupted(InterruptReason::ToolAborted))
    ));
    assert!(matches!(state.head(false), Some(Transition::Compact(CompactKind::Auto))));
    assert!(state.head(false).is_none());
}

#[test]
fn a_used_up_budget_ends_the_run_before_anything_else() {
    let mut state = start(
        AgentContext::new("m").push(Message::user("hi")).with_config(RunConfig {
            token_budget: Some(10),
            ..RunConfig::default()
        }),
    );
    // The estimate of the next turn is beyond the budget already.
    let prompt = snapshot(&state);
    assert!(matches!(
        state.open(&prompt, &COUNTER),
        Err(ExhaustReason::TokenBudget { .. })
    ));
    let mut sampling = Sampling::new();
    sampling.last_usage = Some(TokenUsage::new(20, 1));
    state.count_lost(&sampling, &COUNTER);
    assert!(matches!(
        state.head(true),
        Some(Transition::Exhausted(ExhaustReason::TokenBudget { spent: 21, limit: 10 }))
    ));
}

#[test]
fn an_error_of_the_context_is_held_back_and_recovered_from() {
    let mut state = plain();
    let (class, action) = state.on_failure(
        &ProviderError::ContextLengthExceeded,
        facts(ErrorClass::ContextLimit),
        &COUNTER,
    );
    assert_eq!(class, ErrorClass::ContextLimit);
    assert!(matches!(action, FailureAction::Withhold(_)));
    assert_eq!(state.turn.attempt_ordinal, 2);
    assert!(matches!(state.head(false), Some(Transition::Recover(_))));
    assert!(state.head(false).is_none());

    state.messages.push(Message::assistant_text("work"));
    state.messages.push(Message::user("current"));
    let response = CanonicalResponse {
        content: vec![ContentBlock::Text { text: "SUMMARY".into() }],
        usage: TokenUsage::new(5, 2),
        stop: StopReason::EndTurn,
    };
    let usage = full_compact(&mut state.messages, &response).unwrap();
    state.accept_compaction(CompactKind::Reactive, usage, &COUNTER);
    assert!(state.context_baseline.is_none());
    assert_eq!(state.turn.transition_causes, vec![ContextTransitionCause::Compaction]);
    assert!(!state.turn.budget.should_autocompact());
    assert_eq!(
        unrecoverable(&AgentError::Compaction("x".into())).message(),
        "unrecoverable context (compaction failed): compaction: x"
    );
}

#[test]
fn retries_are_counted_and_end() {
    let mut state = plain();
    for ordinal in 1..4 {
        assert_eq!(state.turn.attempt_ordinal, ordinal);
        let (_, action) = state.on_failure(&transport(), facts(ErrorClass::Retryable), &COUNTER);
        assert!(matches!(action, FailureAction::Retry { fallback_model: None, .. }));
    }
    let (_, action) = state.on_failure(&transport(), facts(ErrorClass::Retryable), &COUNTER);
    assert!(matches!(action, FailureAction::Fail(_)));
}

#[test]
fn a_credential_is_refreshed_once() {
    let mut state = plain();
    let expired = facts(ErrorClass::Auth(AuthError::Expired));
    let (_, action) = state.on_failure(&transport(), expired, &COUNTER);
    assert!(matches!(action, FailureAction::RefreshCredentials));
    state.after_refresh();
    assert_eq!(state.turn.attempt_ordinal, 2);
    let (_, action) = state.on_failure(&transport(), expired, &COUNTER);
    assert!(matches!(action, FailureAction::Fail(_)));
}

#[test]
fn an_overload_moves_to_the_named_model_once() {
    let mut state = start(AgentContext::new("m").push(Message::user("hi")).with_config(
        RunConfig { overload_fallback_model: Some("spare".into()), ..RunConfig::default() },
    ));
    let (_, action) = state.on_failure(&transport(), facts(ErrorClass::Overloaded(529)), &COUNTER);
    assert!(matches!(
        action,
        FailureAction::Retry { fallback_model: Some(ref model), .. } if model == "spare"
    ));
    assert_eq!(state.turn.model, "spare");
    assert_eq!(state.turn.budget.max_context(), 50_000);
    let (_, action) = state.on_failure(&transport(), facts(ErrorClass::Overloaded(529)), &COUNTER);
    assert!(matches!(action, FailureAction::Retry { fallback_model: None, .. }));
}

#[test]
fn a_shown_sampling_that_did_not_end_well_is_taken_back() {
    let mut state = plain();
    let (sampling, _) = feed(
        &mut state,
        vec![
            StreamEvent::TextDelta { text: "partial".into() },
            StreamEvent::Done { stop: StopReason::MaxTokens },
        ],
    );
    let settled = state.settle(&sampling, None, &COUNTER);
    assert!(settled.reset);
    assert!(matches!(settled.transition, Transition::Exhausted(_)));
    assert_eq!(state.messages.len(), 1);
}

#[test]
fn a_stopped_run_answers_every_open_call() {
    let mut state = plain();
    let (sampling, _) = feed(
        &mut state,
        vec![
            StreamEvent::TextDelta { text: "ok".into() },
            StreamEvent::tool_call_start("c1", "bash"),
            StreamEvent::ToolCallEnd { id: "c1".into() },
        ],
    );
    state.keep_partial(&sampling);
    let views = state.interrupt();
    let view = state.interruption(InterruptReason::Cancelled, views.len(), 1_500);
    assert_eq!(views.len(), 1);
    assert_eq!(views[0].id, "c1");
    assert_eq!(view.duration_ms, Some(500));
    assert_eq!(view.reconciled_tool_calls, 1);
    assert!(agent_core::message::unanswered_tool_calls(&state.messages).is_empty());
}

#[test]
fn a_repeated_batch_is_answered_instead_of_run() {
    let mut state = plain();
    let calls = vec![call("c1", "bash")];
    let guarded = vec![false];
    assert_eq!(state.guard_tools(&calls, &guarded), ToolStep::Proceed);
    // An exempt batch leaves the count as it is.
    assert_eq!(state.guard_tools(&vec![call("p", "poll")], &vec![true]), ToolStep::Proceed);
    assert_eq!(state.guard_tools(&calls, &guarded), ToolStep::Proceed);
    match state.guard_tools(&calls, &guarded) {
        ToolStep::Signal(results) => {
            assert_eq!(results.len(), 1);
            assert_eq!(results[0].error_kind, Some(ToolErrorKind::Semantic));
        }
        other => unreachable!("expected a signal, got {other:?}"),
    }
    assert!(state.messages[1].is_tool_result());
    for _ in 4..8 {
        assert!(matches!(state.guard_tools(&calls, &guarded), ToolStep::Signal(_)));
    }
    assert_eq!(
        state.guard_tools(&calls, &guarded),
        ToolStep::Abort(ExhaustReason::ToolLoop { count: 8 })
    );
    // An input of the user breaks the run.
    state.take_inputs(vec![Message::user("try otherwise")]);
    assert_eq!(state.guard_tools(&calls, &guarded), ToolStep::Proceed);
}

#[test]
fn outcomes_enter_the_transcript_in_order_or_end_the_run() {
    let mut state = plain();
    let ids = vec!["c1".to_string(), "c2".to_string()];
    let result = |id: &str| ModelToolResult::new(id.into(), "out".into(), false, true, None);
    let accepted = state
        .accept_outcomes(&ids, vec![result("c1"), result("c2")], &COUNTER)
        .unwrap();
    assert_eq!(accepted.len(), 2);
    assert_eq!(state.messages.len(), 3);
    assert!(!state.force_compact);
    assert!(state.pending_abort.is_none());

    let before = state.messages.clone();
    assert!(state.accept_outcomes(&ids, vec![result("c2")], &COUNTER).is_err());
    assert_eq!(state.messages, before);

    let mut asking = result("c1");
    asking.requests_compaction = true;
    asking.aborts_turn = true;
    state.accept_outcomes(&vec!["c1".to_string()], vec![asking], &COUNTER).unwrap();
    assert!(state.force_compact);
    assert_eq!(state.pending_abort, Some(InterruptReason::ToolAborted));
}

#[test]
fn compactions_that_fail_in_a_row_end_the_run() {
    let mut state = plain();
    assert_eq!(state.compaction_failed(&COUNTER), Ok(false));
    assert_eq!(state.compaction_failed(&COUNTER), Ok(false));
    assert!(matches!(
        state.compaction_failed(&COUNTER),
        Err(AgentError::CompactionCircuitBreaker(3))
    ));
}

#[test]
fn a_failed_compaction_prunes_old_results() {
    let mut state = start(AgentContext::new("m").push(Message::user("hi")));
    for id in ["c1", "c2", "c3"] {
        state.messages.push(Message::tool_result(id, "long output", false));
    }
    assert_eq!(state.compaction_failed(&COUNTER), Ok(true));
    assert_eq!(state.compaction.consecutive_failures, 0);
}

#[test]
fn a_change_of_profile_compacts_with_the_old_model_first() {
    let mut old = AgentContext::new("old").push(Message::user("hi"));
    old.model_runtime = Some(runtime("old", Some("one")));
    let mut first = start(old);
    let prompt = snapshot(&first);
    first.open(&prompt, &COUNTER).unwrap();
    let baseline = first.context_baseline.clone();

    let mut new = AgentContext::new("new").push(Message::user("hi"));
    new.model_runtime = Some(runtime("new", Some("two")));
    let mut state =
        RunState::start(new, "[]".into(), 100_000, baseline, 1_000, &COUNTER).unwrap();
    assert_eq!(state.turn.compaction_model(), "old");
    assert!(matches!(state.head(false), Some(Transition::Compact(CompactKind::Auto))));
    assert!(state.compaction_failed(&COUNTER).is_err());
    state.accept_compaction(CompactKind::Auto, TokenUsage::default(), &COUNTER);
    assert!(state.context_baseline.is_some());
    assert!(state.head(false).is_none());
    assert_eq!(
        state.turn.transition_causes,
        vec![ContextTransitionCause::CompHashChanged, ContextTransitionCause::Compaction]
    );
}

#[test]
fn a_frame_is_installed_once_per_generation() {
    let mut state = plain();
    let frame = |generation: u64, tools: Vec<ToolSpec>| StepFrame {
        generation,
        tools,
        context_messages: vec![Message::user("context")],
    };
    let kinds = || vec![ContextFragmentKind::Project];
    assert_eq!(state.install_frame(frame(1, Vec::new()), kinds(), None, &COUNTER), Ok(true));
    assert_eq!(state.context.len(), 1);
    assert_eq!(state.install_frame(frame(1, Vec::new()), kinds(), None, &COUNTER), Ok(false));

    let tool = ToolSpec::freeform("t", "d", None);
    let error = state
        .install_frame(frame(2, vec![tool.clone()]), kinds(), None, &COUNTER)
        .unwrap_err();
    assert_eq!(
        error.message(),
        "invalid request: tool-bearing step is missing its frozen dispatch snapshot"
    );
    let dispatch = ToolDispatchSnapshot::new(9, vec![tool.clone()], "[t]".into());
    assert_eq!(
        state.install_frame(frame(3, vec![tool]), kinds(), Some(dispatch), &COUNTER),
        Ok(true)
    );
    assert_eq!(state.turn.tool_plan.generation, 9);
    assert_eq!(state.turn.tool_plan.specs.len(), 1);
}

#[test]
fn a_backend_that_refuses_replay_is_believed() {
    let mut state = plain();
    state.turn.reasoning_replay = true;
    let (_, shown) = feed(
        &mut state,
        vec![StreamEvent::ReasoningReplayDisabled { reason: "no".into() }],
    );
    assert_eq!(
        shown,
        vec![AgentEvent::ReasoningReplayDisabled { reason: "no".into() }]
    );
    assert!(!state.turn.reasoning_replay);
    assert!(state.turn.reasoning_replay_downgraded);
}

#[test]
fn a_broken_stream_ends_the_run() {
    let mut state = plain();
    let mut sampling = Sampling::new();
    let error = state
        .on_event(&mut sampling, StreamEvent::ToolCallEnd { id: "ghost".into() }, &COUNTER)
        .unwrap_err();
    assert!(matches!(error, AgentError::Provider(_)));
}

#[test]
fn a_headless_run_keeps_what_counted() {
    let mut fold = HeadlessFold::new();
    for event in [
        AgentEvent::Text("lost".into()),
        AgentEvent::StreamReset,
        AgentEvent::Text("kept".into()),
        AgentEvent::EndTurn,
    ] {
        fold.observe(&event);
    }
    let result = fold.finish();
    assert_eq!(result.text, "kept");
    assert_eq!(result.events, 4);
    assert_eq!(result.ended, HeadlessEnd::EndTurn);
}

#[test]
fn a_held_back_error_is_not_sampled_over() {
    let mut state = plain();
    state.pending = Some(PendingError { kind: ContextErrorKind::PromptTooLong });
    state.force_compact = true;
    assert!(matches!(state.head(false), Some(Transition::Recover(_))));
    assert!(state.force_compact);
}

#[test]
fn what_a_prompt_leaves_out_is_kept_for_the_log() {
    let mut state = plain();
    let prompt = snapshot(&state);
    state.open(&prompt, &COUNTER).unwrap();
    assert!(state.omissions.is_empty());

    let mut state = start(
        AgentContext::new("m")
            .with_context_messages(vec![Message::user(&"x".repeat(70_000))])
            .push(Message::user("hi")),
    );
    let prompt = snapshot(&state);
    assert_eq!(prompt.diagnostics().len(), 1);
    state.open(&prompt, &COUNTER).unwrap();
    assert_eq!(&state.omissions, prompt.diagnostics());
}
