use agent_core::json::Json;
use agent_core::message::Message;
use agent_core::prompt::{
    transition_between, ContextTransitionCause, EncodedMessage, PromptSnapshot,
    PromptSnapshotError, MAX_NON_HISTORY_CONTEXT_BYTES,
};
use agent_core::step::ContextFragmentKind;
use agent_core::tool_spec::ToolSpec;
use agent_core::tools::{StepToolPlan, ToolDispatchSnapshot};

fn encoded(text: &str) -> EncodedMessage {
    EncodedMessage {
        message: Message::user(text),
        wire: format!(
            r#"{{"role":"user","content":[{{"type":"text","text":{}}}]}}"#,
            Json::text(text).render()
        ),
    }
}

fn all(texts: &[&str]) -> Vec<EncodedMessage> {
    texts.iter().map(|text| encoded(text)).collect()
}

fn plan() -> StepToolPlan {
    let schema = r#"{"type":"object","properties":{"path":{"type":"string"}},"required":["path"],"additionalProperties":false}"#;
    let spec = ToolSpec::function("read", "read a file", Json::parse(schema).unwrap());
    let wire = format!(
        r#"[{{"name":"read","description":"read a file","kind":"function","input_schema":{schema}}}]"#
    );
    StepToolPlan::capture(ToolDispatchSnapshot::new(1, vec![spec], wire), false)
}

fn capture_as(
    history: &[&str],
    context: &[&str],
    kind: ContextFragmentKind,
) -> Result<PromptSnapshot, PromptSnapshotError> {
    PromptSnapshot::capture(
        "model".into(),
        None,
        None,
        Some("instructions".into()),
        all(context),
        vec![kind; context.len()],
        &all(history),
        Vec::new(),
        plan(),
        1_024,
        false,
        None,
    )
}

fn capture(history: &[&str], context: &[&str]) -> PromptSnapshot {
    capture_as(history, context, ContextFragmentKind::Project).expect("snapshot")
}

#[test]
fn identical_sources_and_history_keep_the_stable_prefix() {
    let first = capture(&["task"], &["project"]);
    let second = capture(&["task"], &["project"]);
    assert_eq!(first.stable_prefix_fingerprint(), second.stable_prefix_fingerprint());
    assert_eq!(first.baseline(), second.baseline());
}

#[test]
fn provider_request_is_a_copy_of_the_canonical_history() {
    let history = vec![Message::user("canonical")];
    let snapshot = capture(&["canonical"], &[]);
    let mut request = snapshot.request();
    request.messages[0] = Message::user("normalized");
    assert_eq!(history, vec![Message::user("canonical")]);
    assert_eq!(snapshot.request().messages, history);
}

#[test]
fn non_history_context_is_bounded_without_dropping_tools() {
    let large = "a".repeat(MAX_NON_HISTORY_CONTEXT_BYTES);
    let snapshot = capture(&["history"], &[&large, "tail"]);
    assert!(!snapshot.diagnostics().is_empty());
    assert_eq!(snapshot.request().tools.len(), 1);
    assert_eq!(snapshot.request().messages.last(), Some(&Message::user("history")));
}

#[test]
fn transitions_are_suppressed_until_a_baseline_identity_moves() {
    let first = capture(&["task"], &[]);
    assert!(transition_between(Some(first.baseline()), first.baseline(), Vec::new()).is_none());
    let second = capture(&["task"], &["changed project"]);
    let transition = transition_between(Some(first.baseline()), second.baseline(), Vec::new())
        .expect("context moved");
    assert!(transition.causes.contains(&ContextTransitionCause::ProjectContextChanged));
}

#[test]
fn baseline_separates_project_and_skill_fragments() {
    let context = ["same visible bytes"];
    let project = capture_as(&["task"], &context, ContextFragmentKind::Project).unwrap();
    let skill = capture_as(&["task"], &context, ContextFragmentKind::Skill).unwrap();
    let transition =
        transition_between(Some(project.baseline()), skill.baseline(), Vec::new()).unwrap();
    assert!(transition.causes.contains(&ContextTransitionCause::ProjectContextChanged));
    assert!(transition.causes.contains(&ContextTransitionCause::SkillsChanged));
}

#[test]
fn fingerprints_are_hexadecimal_digests() {
    let snapshot = capture(&["task"], &["project"]);
    assert_eq!(snapshot.fingerprint().len(), 64);
    assert!(snapshot.fingerprint().bytes().all(|byte| byte.is_ascii_hexdigit()));
    assert!(snapshot.baseline().validate().is_ok());
    let other = capture(&["another task"], &["project"]);
    assert_ne!(snapshot.fingerprint(), other.fingerprint());
    assert_eq!(
        snapshot.baseline().project_context_fingerprint,
        other.baseline().project_context_fingerprint
    );
}

#[test]
fn a_fixed_context_beyond_the_ceiling_is_refused() {
    let error = PromptSnapshot::capture(
        "model".into(),
        None,
        None,
        Some("x".repeat(MAX_NON_HISTORY_CONTEXT_BYTES + 1)),
        Vec::new(),
        Vec::new(),
        &all(&["task"]),
        Vec::new(),
        plan(),
        1_024,
        false,
        None,
    )
    .unwrap_err();
    assert!(matches!(error, PromptSnapshotError::StaticContextTooLarge { .. }));
    assert!(error.message().starts_with("fixed prompt context exceeds "));
}

#[test]
fn a_broken_baseline_is_refused() {
    let mut baseline = capture(&["task"], &[]).baseline().clone();
    baseline.profile_fingerprint = "short".into();
    assert!(matches!(
        baseline.validate(),
        Err(PromptSnapshotError::InvalidBaseline { .. })
    ));
}
