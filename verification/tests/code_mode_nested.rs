use agent_core::code_mode::nested::{
    conclude, screen, started, NestedEventState, NestedLoopGuard, NestedToolCall, NestedToolInput,
    NestedToolOutcome, NoNestedTools, PlanDispatcher, MAX_PENDING_EVENTS,
};
use agent_core::code_mode::protocol::{CellId, SessionId};
use agent_core::code_mode::tools::{
    exec_tool_spec, wait_tool_spec, EXEC_TOOL_NAME, WAIT_TOOL_NAME,
};
use agent_core::event::ToolCallKind;
use agent_core::json::Json;
use agent_core::message::{ToolCallFormat, ToolErrorKind};
use agent_core::tool_spec::ToolSpec;
use agent_core::tools::{ModelToolResult, ToolDispatchSnapshot, ToolInvocation};

fn parse(text: &str) -> Json {
    Json::parse(text).unwrap()
}

/// A pipeline that notes what reached it and refuses what it was told to.
#[derive(Default)]
struct Pipeline {
    seen: Vec<(String, String, ToolCallFormat)>,
    denied: Vec<String>,
}

impl Pipeline {
    fn run(&mut self, call: ToolInvocation) -> Vec<ModelToolResult> {
        let rendered = match call.format {
            ToolCallFormat::Text => call.input.as_str().unwrap_or_default().to_string(),
            ToolCallFormat::Json => call.input.render(),
        };
        self.seen.push((call.id.clone(), rendered.clone(), call.format));
        if self.denied.contains(&call.name) {
            vec![ModelToolResult::rejected(
                call.id,
                "refused by the permission policy",
                ToolErrorKind::PermissionDenied,
            )]
        } else {
            vec![ModelToolResult::new(
                call.id,
                format!("ran {} on {rendered}", call.name),
                false,
                false,
                None,
            )]
        }
    }
}

fn function_spec(name: &str) -> ToolSpec {
    ToolSpec::function(
        name,
        "test tool",
        parse(
            r#"{"type":"object","additionalProperties":false,"required":["value"],"properties":{"value":{"type":"string"}}}"#,
        ),
    )
}

fn dispatcher(specs: Vec<ToolSpec>) -> PlanDispatcher {
    PlanDispatcher::new(
        &ToolDispatchSnapshot::new(7, specs, "[]".into()),
        &vec![EXEC_TOOL_NAME.to_string(), WAIT_TOOL_NAME.to_string()],
        "[]".into(),
    )
}

fn call_in_cell(ordinal: u64, tool: &str, input: NestedToolInput) -> NestedToolCall {
    NestedToolCall {
        cell_id: CellId::new(&SessionId::new("thread-a"), ordinal),
        call_id: format!("nested-{tool}"),
        tool: tool.to_string(),
        input,
    }
}

fn call(tool: &str, input: NestedToolInput) -> NestedToolCall {
    call_in_cell(0, tool, input)
}

fn json_call(tool: &str, text: &str) -> NestedToolCall {
    call(tool, NestedToolInput::Json(parse(text)))
}

/// One nested call from its start to its end.
fn dispatch(
    dispatcher: &mut PlanDispatcher,
    pipeline: &mut Pipeline,
    guard: &mut NestedLoopGuard,
    exempt: bool,
    call: NestedToolCall,
) -> NestedToolOutcome {
    let invocation = match dispatcher.prepare(&call) {
        Ok(invocation) => invocation,
        Err(outcome) => return outcome,
    };
    if let Some(refusal) = screen(&call, &invocation, exempt, guard) {
        return refusal;
    }
    let id = invocation.id.clone();
    let results = pipeline.run(invocation);
    conclude(&call, id, results).1
}

fn once(specs: Vec<ToolSpec>, pipeline: &mut Pipeline, call: NestedToolCall) -> NestedToolOutcome {
    dispatch(
        &mut dispatcher(specs),
        pipeline,
        &mut NestedLoopGuard::default(),
        false,
        call,
    )
}

#[test]
fn a_nested_call_reaches_the_same_pipeline_a_direct_call_would() {
    let mut pipeline = Pipeline::default();
    let outcome = once(
        vec![function_spec("read")],
        &mut pipeline,
        json_call("read", r#"{"value":"x"}"#),
    );
    assert!(!outcome.is_error, "{outcome:?}");
    assert!(outcome.content.contains("ran read"));
    assert_eq!(pipeline.seen.len(), 1);
    assert_eq!(pipeline.seen[0].2, ToolCallFormat::Json);
    assert!(
        pipeline.seen[0].0.starts_with("thread-a#0::nested-read::"),
        "{}",
        pipeline.seen[0].0
    );
}

#[test]
fn a_freeform_nested_tool_keeps_a_text_input() {
    let mut pipeline = Pipeline::default();
    let outcome = once(
        vec![ToolSpec::freeform("apply_patch", "patches", None)],
        &mut pipeline,
        call("apply_patch", NestedToolInput::Text("*** Begin Patch".into())),
    );
    assert!(!outcome.is_error);
    assert_eq!(pipeline.seen[0].2, ToolCallFormat::Text);
    assert_eq!(pipeline.seen[0].1, "*** Begin Patch");
}

#[test]
fn an_unknown_tool_is_refused_before_the_pipeline() {
    let mut pipeline = Pipeline::default();
    let outcome = once(vec![function_spec("read")], &mut pipeline, json_call("rm_rf", "{}"));
    assert!(outcome.is_error);
    assert_eq!(outcome.error_kind, Some("unknown_tool"));
    assert_eq!(outcome.content, "tool `rm_rf` is not available in this cell");
    assert!(pipeline.seen.is_empty());
}

#[test]
fn a_denied_tool_comes_back_as_a_typed_refusal() {
    let mut pipeline = Pipeline { denied: vec!["write".into()], ..Pipeline::default() };
    let outcome = once(
        vec![function_spec("write")],
        &mut pipeline,
        json_call("write", r#"{"value":"x"}"#),
    );
    assert!(outcome.is_error);
    assert_eq!(outcome.error_kind, Some("permission_denied"));
}

#[test]
fn the_code_mode_tools_are_not_callable_from_inside_a_cell() {
    let specs = vec![exec_tool_spec(&[], true), wait_tool_spec(), function_spec("read")];
    let catalog: Vec<String> = dispatcher(specs.clone())
        .catalog()
        .iter()
        .map(|spec| spec.name.clone())
        .collect();
    assert_eq!(catalog, vec!["read".to_string()]);

    let mut pipeline = Pipeline::default();
    let outcome = once(specs, &mut pipeline, call("exec", NestedToolInput::Text("text(1)".into())));
    assert_eq!(outcome.error_kind, Some("unknown_tool"));
    assert!(pipeline.seen.is_empty());
}

#[test]
fn several_nested_calls_stay_correlated_and_ordered() {
    let mut pipeline = Pipeline::default();
    let mut dispatcher = dispatcher(vec![function_spec("first"), function_spec("second")]);
    let mut guard = NestedLoopGuard::default();
    let mut answered = Vec::new();
    for (tool, input) in [
        ("first", r#"{"value":"1"}"#),
        ("second", r#"{"value":"2"}"#),
        ("first", r#"{"value":"3"}"#),
    ] {
        let outcome = dispatch(
            &mut dispatcher,
            &mut pipeline,
            &mut guard,
            false,
            json_call(tool, input),
        );
        answered.push(outcome.tool);
    }
    assert_eq!(answered, vec!["first", "second", "first"]);
    let seen: Vec<String> = pipeline.seen.iter().map(|entry| entry.1.clone()).collect();
    assert_eq!(
        seen,
        vec![
            "{\"value\":\"1\"}".to_string(),
            "{\"value\":\"2\"}".to_string(),
            "{\"value\":\"3\"}".to_string()
        ]
    );
    let mut ids: Vec<String> = pipeline.seen.iter().map(|entry| entry.0.clone()).collect();
    ids.sort();
    ids.dedup();
    assert_eq!(ids.len(), 3);
}

#[test]
fn repeated_nested_effects_are_refused_across_outer_cells() {
    let mut pipeline = Pipeline::default();
    let mut guard = NestedLoopGuard::default();
    let mut outcomes = Vec::new();
    for ordinal in 0..3 {
        let mut dispatcher = dispatcher(vec![function_spec("write")]);
        outcomes.push(dispatch(
            &mut dispatcher,
            &mut pipeline,
            &mut guard,
            false,
            call_in_cell(
                ordinal,
                "write",
                NestedToolInput::Json(parse(r#"{"value":"same"}"#)),
            ),
        ));
    }
    assert!(!outcomes[0].is_error);
    assert!(!outcomes[1].is_error);
    assert_eq!(outcomes[2].error_kind, Some("semantic"));
    assert_eq!(pipeline.seen.len(), 2);

    guard.reset();
    let outcome = dispatch(
        &mut dispatcher(vec![function_spec("write")]),
        &mut pipeline,
        &mut guard,
        false,
        json_call("write", r#"{"value":"same"}"#),
    );
    assert!(!outcome.is_error);
}

#[test]
fn nested_terminal_polls_reset_the_effect_loop_guard() {
    let mut pipeline = Pipeline::default();
    let mut guard = NestedLoopGuard::default();
    for _ in 0..4 {
        let mut dispatcher = dispatcher(vec![function_spec("write_stdin")]);
        let outcome = dispatch(
            &mut dispatcher,
            &mut pipeline,
            &mut guard,
            true,
            json_call(
                "write_stdin",
                r#"{"session_id":7,"chars":"","terminate":false}"#,
            ),
        );
        assert!(!outcome.is_error);
    }
    assert_eq!(pipeline.seen.len(), 4);
}

#[test]
fn a_session_without_a_dispatcher_refuses_every_nested_call() {
    let outcome = NoNestedTools {}.dispatch(&json_call("read", "{}"));
    assert!(outcome.is_error);
    assert_eq!(outcome.error_kind, Some("unknown_tool"));
    assert!(NoNestedTools {}.catalog().is_empty());
}

#[test]
fn the_last_step_of_the_ladder_locks_every_tool() {
    let mut guard = NestedLoopGuard::default();
    let mut pipeline = Pipeline::default();
    let mut dispatcher = dispatcher(vec![function_spec("a"), function_spec("b")]);
    let mut last = None;
    for _ in 0..8 {
        last = Some(dispatch(
            &mut dispatcher,
            &mut pipeline,
            &mut guard,
            false,
            json_call("a", r#"{"value":"x"}"#),
        ));
    }
    let terminal = last.unwrap();
    assert!(terminal.content.contains("Dispatch is stopped"));
    let other = dispatch(
        &mut dispatcher,
        &mut pipeline,
        &mut guard,
        true,
        json_call("b", r#"{"value":"y"}"#),
    );
    assert_eq!(other.content, terminal.content);
    assert_eq!(pipeline.seen.len(), 2);
}

#[test]
fn a_pipeline_without_a_result_is_a_failure() {
    let outcome = conclude(&json_call("read", "{}"), "id".into(), Vec::new());
    assert!(outcome.1.is_error);
    assert_eq!(outcome.1.error_kind, Some("semantic"));
    assert_eq!(outcome.1.content, "the tool pipeline returned no result");
    assert_eq!(outcome.0.id, "id");
}

#[test]
fn events_beyond_the_ceiling_are_counted() {
    let invocation = ToolInvocation::json("i", "read", parse("{}"));
    let mut state = NestedEventState::new();
    for _ in 0..MAX_PENDING_EVENTS + 3 {
        state.keep(started(&invocation, ToolCallKind::default()));
    }
    let (kept, dropped) = state.take();
    assert_eq!(kept.len(), MAX_PENDING_EVENTS);
    assert_eq!(dropped, 3);
    assert_eq!(state.take().0.len(), 0);
}

#[test]
fn a_reset_guard_decides_as_a_fresh_one() {
    let run = |guard: &mut NestedLoopGuard| -> Vec<(bool, String)> {
        let mut pipeline = Pipeline::default();
        let mut dispatcher = dispatcher(vec![function_spec("a")]);
        (0..9)
            .map(|_| {
                let call = json_call("a", r#"{"value":"x"}"#);
                let outcome = dispatch(&mut dispatcher, &mut pipeline, guard, false, call);
                (outcome.is_error, outcome.content)
            })
            .collect()
    };
    let mut guard = NestedLoopGuard::default();
    let first = run(&mut guard);
    assert!(first[8].1.contains("Dispatch is stopped"));
    guard.reset();
    assert_eq!(guard, NestedLoopGuard::default());
    assert_eq!(run(&mut guard), first);
    assert!(!first[0].0);
}
