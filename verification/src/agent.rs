//! The settings and the context of a run, and the decisions of the loop that need no state of
//! their own: retries, the check of tool results, the repair of an interrupted transcript, and
//! the fold of a run into one text.
use crate::budget;
use crate::budget::ContextBudget;
use crate::error;
use crate::error::{AgentError, AgentFault, FailureView, ProviderFailure};
use crate::event::{
    AgentEvent, CredentialRefreshOutcome, CredentialRefreshView, RetryScheduledView,
    ToolOutputDeltaView, ToolResultView,
};
use crate::first;
use crate::guardrail::{CostBudget, UsageBudget};
use crate::message;
use crate::message::{
    BlockView, ContentBlock, Message, MessageView, Role, ToolCallId, ToolErrorKind,
    INTERRUPTED_TOOL_RESULT,
};
use crate::model::{ResolvedModelRuntime, TruncationMode};
use crate::provider::{AuthError, ErrorClass, ProviderError, TokenUsage};
use crate::text;
use crate::tokenizer;
use crate::tokenizer::TokenCounter;
use crate::tool_spec::ToolSpec;
use crate::tools;
use crate::tools::{ModelToolResult, ToolDispatchEvent, ToolExecution, ToolResultStatus};
use crate::transition::{Accumulator, ExhaustReason};
use vstd::prelude::*;
use vstd::string::*;

verus! {

/// The settings of a run.
#[derive(Debug, Clone, PartialEq, Eq)]
pub struct RunConfig {
    pub max_output_tokens: u32,
    pub max_retries: u32,
    pub micro_keep_recent: usize,
    pub compaction_breaker_limit: u32,
    pub backoff_base_ms: u64,
    pub token_budget: Option<u64>,
    pub cost_budget: Option<CostBudget>,
    /// A model to go on with after an overload, by its name alone.
    pub overload_fallback_model: Option<String>,
    /// A model to go on with after an overload, resolved.
    pub overload_fallback_runtime: Option<ResolvedModelRuntime>,
    /// Whether each round-trip carries an estimate beside what the backend measured.
    pub usage_probe: bool,
}

impl RunConfig {
    pub open spec fn standard() -> RunConfig {
        RunConfig {
            max_output_tokens: 4096,
            max_retries: 3,
            micro_keep_recent: 2,
            compaction_breaker_limit: 3,
            backoff_base_ms: 50,
            token_budget: None,
            cost_budget: None,
            overload_fallback_model: None,
            overload_fallback_runtime: None,
            usage_probe: false,
        }
    }
}

impl Default for RunConfig {
    fn default() -> (config: Self)
        ensures
            config == RunConfig::standard(),
    {
        RunConfig {
            max_output_tokens: 4096,
            max_retries: 3,
            micro_keep_recent: 2,
            compaction_breaker_limit: 3,
            backoff_base_ms: 50,
            token_budget: None,
            cost_budget: None,
            overload_fallback_model: None,
            overload_fallback_runtime: None,
            usage_probe: false,
        }
    }
}

/// What a run starts from.
#[derive(Debug, PartialEq, Eq)]
pub struct AgentContext {
    pub turn_id: Option<String>,
    pub model: String,
    pub model_runtime: Option<ResolvedModelRuntime>,
    pub reasoning_effort: Option<String>,
    pub system: Option<String>,
    /// The instructions for the resolved fallback.
    pub overload_fallback_system: Option<String>,
    pub messages: Vec<Message>,
    pub tools: Vec<ToolSpec>,
    pub config: RunConfig,
    /// Sent before the transcript in every request, and never part of it.
    pub context_messages: Vec<Message>,
    /// Sent behind the transcript in every request, and never part of it.
    pub ephemeral_messages: Vec<Message>,
}

impl AgentContext {
    pub fn new(model: &str) -> (context: AgentContext)
        ensures
            context.model@ == model@,
            context.turn_id is None,
            context.model_runtime is None,
            context.reasoning_effort is None,
            context.system is None,
            context.overload_fallback_system is None,
            context.messages@.len() == 0,
            context.tools@.len() == 0,
            context.config == RunConfig::standard(),
            context.context_messages@.len() == 0,
            context.ephemeral_messages@.len() == 0,
    {
        AgentContext {
            turn_id: None,
            model: model.to_owned(),
            model_runtime: None,
            reasoning_effort: None,
            system: None,
            overload_fallback_system: None,
            messages: Vec::new(),
            tools: Vec::new(),
            config: RunConfig::default(),
            context_messages: Vec::new(),
            ephemeral_messages: Vec::new(),
        }
    }

    pub fn with_system(self, system: &str) -> (context: AgentContext)
        ensures
            text::opt_text(context.system) == Some(system@),
            context == (AgentContext { system: context.system, ..self }),
    {
        let mut context = self;
        context.system = Some(system.to_owned());
        context
    }

    pub fn push(self, message: Message) -> (context: AgentContext)
        ensures
            context.messages@ == self.messages@.push(message),
            context == (AgentContext { messages: context.messages, ..self }),
    {
        let mut context = self;
        context.messages.push(message);
        context
    }

    pub fn with_config(self, config: RunConfig) -> (context: AgentContext)
        ensures
            context == (AgentContext { config, ..self }),
    {
        let mut context = self;
        context.config = config;
        context
    }

    pub fn with_context_messages(self, messages: Vec<Message>) -> (context: AgentContext)
        ensures
            context == (AgentContext { context_messages: messages, ..self }),
    {
        let mut context = self;
        context.context_messages = messages;
        context
    }

    pub fn with_ephemeral_messages(self, messages: Vec<Message>) -> (context: AgentContext)
        ensures
            context == (AgentContext { ephemeral_messages: messages, ..self }),
    {
        let mut context = self;
        context.ephemeral_messages = messages;
        context
    }
}

// ---------------------------------------------------------------- attempts and delays

/// How often one sampling may be opened, and the base of the delay between openings.
#[derive(Debug, Clone, Copy, PartialEq, Eq, Structural)]
pub struct ResolvedAttemptPolicy {
    pub max_attempts: u32,
    pub backoff_base_ms: u64,
}

impl ResolvedAttemptPolicy {
    /// The policy of a runtime, or of the settings where there is none; one attempt at least.
    pub open spec fn resolved(
        max_retries: u32,
        backoff_base_ms: u64,
        runtime: Option<ResolvedModelRuntime>,
    ) -> ResolvedAttemptPolicy {
        match runtime {
            Some(resolved) => ResolvedAttemptPolicy {
                max_attempts: if resolved.retry.max_attempts >= 1 {
                    resolved.retry.max_attempts
                } else {
                    1
                },
                backoff_base_ms: resolved.retry.backoff_base_ms,
            },
            None => ResolvedAttemptPolicy {
                max_attempts: if max_retries < u32::MAX {
                    (max_retries + 1) as u32
                } else {
                    u32::MAX
                },
                backoff_base_ms,
            },
        }
    }

    pub fn resolve(config: &RunConfig, runtime: &Option<ResolvedModelRuntime>) -> (policy:
        ResolvedAttemptPolicy)
        ensures
            policy == ResolvedAttemptPolicy::resolved(
                config.max_retries,
                config.backoff_base_ms,
                *runtime,
            ),
            policy.max_attempts >= 1,
    {
        match runtime {
            Some(resolved) => ResolvedAttemptPolicy {
                max_attempts: if resolved.retry.max_attempts >= 1 {
                    resolved.retry.max_attempts
                } else {
                    1
                },
                backoff_base_ms: resolved.retry.backoff_base_ms,
            },
            None => ResolvedAttemptPolicy {
                max_attempts: config.max_retries.saturating_add(1),
                backoff_base_ms: config.backoff_base_ms,
            },
        }
    }

    /// Whether another opening may follow this one, counted from one.
    pub fn permits_after(self, current_ordinal: u32) -> (yes: bool)
        ensures
            yes == (current_ordinal < self.max_attempts),
    {
        current_ordinal < self.max_attempts
    }
}

/// What identifies the sampling that an event speaks of.
#[derive(Debug, PartialEq, Eq)]
pub struct AttemptContext {
    pub turn_id: Option<String>,
    pub step: u32,
    pub prompt_fingerprint: String,
    pub model_runtime_fingerprint: String,
    pub tool_plan_fingerprint: String,
}

impl AttemptContext {
    /// Whether an event tells of a planned opening.
    pub open spec fn schedules(
        self,
        event: AgentEvent,
        ordinal: u32,
        policy: ResolvedAttemptPolicy,
        cause: ErrorClass,
        delay_ms: u128,
        fallback_model: Option<String>,
    ) -> bool {
        event matches AgentEvent::RetryScheduled(view) && {
            &&& text::opt_text(view.turn_id) == text::opt_text(self.turn_id)
            &&& view.step == self.step
            &&& view.ordinal == ordinal
            &&& view.max_attempts == policy.max_attempts
            &&& view.cause == cause
            &&& view.delay_ms == if delay_ms <= u64::MAX {
                delay_ms as int
            } else {
                u64::MAX as int
            }
            &&& view.fallback_model == fallback_model
            &&& view.prompt_fingerprint@ == self.prompt_fingerprint@
            &&& view.model_runtime_fingerprint@ == self.model_runtime_fingerprint@
            &&& view.tool_plan_fingerprint@ == self.tool_plan_fingerprint@
        }
    }

    /// Whether an event tells of a credential that is refreshed.
    pub open spec fn refreshes(
        self,
        event: AgentEvent,
        attempt_ordinal: u32,
        outcome: CredentialRefreshOutcome,
    ) -> bool {
        event matches AgentEvent::CredentialRefresh(view) && {
            &&& text::opt_text(view.turn_id) == text::opt_text(self.turn_id)
            &&& view.step == self.step
            &&& view.attempt_ordinal == attempt_ordinal
            &&& view.outcome == outcome
        }
    }

    /// The event of a planned opening.
    pub fn retry_scheduled(
        &self,
        ordinal: u32,
        policy: ResolvedAttemptPolicy,
        cause: ErrorClass,
        delay_ms: u128,
        fallback_model: Option<String>,
    ) -> (event: AgentEvent)
        ensures
            self.schedules(event, ordinal, policy, cause, delay_ms, fallback_model),
    {
        let capped: u64 = if delay_ms <= u64::MAX as u128 {
            delay_ms as u64
        } else {
            u64::MAX
        };
        AgentEvent::RetryScheduled(
            RetryScheduledView {
                turn_id: text::clone_opt(&self.turn_id),
                step: self.step,
                ordinal,
                max_attempts: policy.max_attempts,
                cause,
                delay_ms: capped,
                fallback_model,
                prompt_fingerprint: self.prompt_fingerprint.clone(),
                model_runtime_fingerprint: self.model_runtime_fingerprint.clone(),
                tool_plan_fingerprint: self.tool_plan_fingerprint.clone(),
            },
        )
    }

    /// The event of a step of a credential recovery.
    pub fn credential_refresh(&self, attempt_ordinal: u32, outcome: CredentialRefreshOutcome) -> (
    event: AgentEvent)
        ensures
            self.refreshes(event, attempt_ordinal, outcome),
    {
        AgentEvent::CredentialRefresh(
            CredentialRefreshView {
                turn_id: text::clone_opt(&self.turn_id),
                step: self.step,
                attempt_ordinal,
                outcome,
            },
        )
    }
}

/// The longest delay that a server can ask for, in milliseconds.
pub const MAX_RETRY_AFTER_MS: u64 = 60000;

/// Two to the power of the attempt, at most to the fifth.
pub open spec fn backoff_factor(attempt: u32) -> int {
    match attempt {
        0 => 1,
        1 => 2,
        2 => 4,
        3 => 8,
        4 => 16,
        _ => 32,
    }
}

/// The delay before an attempt, in milliseconds.
pub open spec fn backoff_ms(policy: ResolvedAttemptPolicy, attempt: u32) -> int {
    let product = policy.backoff_base_ms * backoff_factor(attempt);
    if product <= u64::MAX {
        product
    } else {
        u64::MAX as int
    }
}

/// The delay before an attempt, in milliseconds: it doubles with each attempt up to 32 times the
/// base.
pub fn backoff(policy: ResolvedAttemptPolicy, attempt: u32) -> (delay_ms: u128)
    ensures
        delay_ms == backoff_ms(policy, attempt),
{
    let factor: u128 = match attempt {
        0 => 1,
        1 => 2,
        2 => 4,
        3 => 8,
        4 => 16,
        _ => 32,
    };
    let base: u128 = policy.backoff_base_ms as u128;
    assert(base * factor <= base * 32) by (nonlinear_arith)
        requires
            base >= 0,
            0 <= factor <= 32,
    ;
    let product: u128 = base * factor;
    if product <= u64::MAX as u128 {
        product
    } else {
        u64::MAX as u128
    }
}

/// The delay that a server asked for.
pub open spec fn asked_delay(error: ProviderError) -> Option<u64> {
    match error {
        ProviderError::Http { retry_after_ms, .. } => retry_after_ms,
        ProviderError::Api { retry_after_ms, .. } => retry_after_ms,
        _ => None,
    }
}

fn server_delay(error: &ProviderError) -> (asked: Option<u64>)
    ensures
        asked == asked_delay(*error),
{
    match error {
        ProviderError::Http { retry_after_ms, .. } => *retry_after_ms,
        ProviderError::Api { retry_after_ms, .. } => *retry_after_ms,
        _ => None,
    }
}

/// The delay before another opening: what the server asked for, up to the ceiling, where that is
/// longer than the base.
pub open spec fn delay_after(base: int, error: ProviderError) -> int {
    match asked_delay(error) {
        Some(asked) => {
            let within = if asked <= MAX_RETRY_AFTER_MS {
                asked as int
            } else {
                MAX_RETRY_AFTER_MS as int
            };
            if within > base {
                within
            } else {
                base
            }
        },
        None => base,
    }
}

/// The delay before another opening, in milliseconds.
pub fn retry_delay(base_ms: u128, error: &ProviderError) -> (delay_ms: u128)
    ensures
        delay_ms == delay_after(base_ms as int, *error),
{
    match server_delay(error) {
        Some(asked) => {
            let within: u64 = if asked <= MAX_RETRY_AFTER_MS {
                asked
            } else {
                MAX_RETRY_AFTER_MS
            };
            if within as u128 > base_ms {
                within as u128
            } else {
                base_ms
            }
        },
        None => base_ms,
    }
}

pub open spec fn class_number(class: ErrorClass) -> u64 {
    match class {
        ErrorClass::Retryable => 1,
        ErrorClass::RateLimited => 2,
        ErrorClass::Overloaded(status) => status as u64,
        ErrorClass::ContextLimit => 6,
        ErrorClass::ReasoningReplayRejected => 5,
        ErrorClass::Auth(_) => 3,
        ErrorClass::InvalidRequest => 4,
    }
}

pub open spec fn error_number(error: ProviderError) -> u64 {
    match error {
        ProviderError::Http { status, .. } => status as u64,
        ProviderError::Api { api_status, .. } => match api_status {
            Some(status) => status as u64,
            None => 16,
        },
        ProviderError::Transport(_) => 10,
        ProviderError::Decode(_) => 11,
        ProviderError::Stream(_) => 12,
        ProviderError::ContextLengthExceeded => 13,
        ProviderError::Credential(_) => 14,
        ProviderError::UnsupportedTool { .. } => 15,
        ProviderError::UnsupportedCapability { .. } => 17,
    }
}

/// A product of machine words, without what does not fit.
pub open spec fn word_product(a: u64, b: u64) -> u64 {
    ((a * b) % 0x1_0000_0000_0000_0000) as u64
}

/// The mix of time, attempt, class and error that a jitter is taken from.
pub open spec fn jitter_mix(now_ms: u64, attempt: u32, class: u64, error: u64) -> u64 {
    let start: u64 = now_ms ^ word_product(
        (attempt + 1) as u64,
        0x9E37_79B9_7F4A_7C15,
    ) ^ (class << 32u64) ^ error;
    let folded: u64 = start ^ (start >> 33u64);
    let spread: u64 = word_product(folded, 0xFF51_AFD7_ED55_8CCD);
    spread ^ (spread >> 33u64)
}

/// The jitter, from one millisecond up to the ceiling; none where the ceiling is zero.
pub open spec fn jitter(
    now_ms: u64,
    attempt: u32,
    class: ErrorClass,
    error: ProviderError,
    cap_ms: u64,
) -> int {
    if cap_ms == 0 {
        0
    } else {
        1 + jitter_mix(now_ms, attempt, class_number(class), error_number(error)) % cap_ms
    }
}

fn multiply_words(a: u64, b: u64) -> (product: u64)
    ensures
        product == word_product(a, b),
{
    assert(a * b <= u64::MAX * u64::MAX) by (nonlinear_arith)
        requires
            a <= u64::MAX,
            b <= u64::MAX,
    ;
    assert(0 <= a * b) by (nonlinear_arith);
    let wide: u128 = a as u128 * b as u128;
    (wide % 0x1_0000_0000_0000_0000) as u64
}

/// The jitter of a delay, in milliseconds.
pub fn retry_jitter_ms(
    now_ms: u64,
    attempt: u32,
    class: ErrorClass,
    error: &ProviderError,
    cap_ms: u64,
) -> (jitter_ms: u64)
    ensures
        jitter_ms == jitter(now_ms, attempt, class, *error, cap_ms),
        cap_ms > 0 ==> 1 <= jitter_ms <= cap_ms,
{
    if cap_ms == 0 {
        return 0;
    }
    let class_code: u64 = match class {
        ErrorClass::Retryable => 1,
        ErrorClass::RateLimited => 2,
        ErrorClass::Overloaded(status) => status as u64,
        ErrorClass::ContextLimit => 6,
        ErrorClass::ReasoningReplayRejected => 5,
        ErrorClass::Auth(_) => 3,
        ErrorClass::InvalidRequest => 4,
    };
    let status_code: u64 = match error {
        ProviderError::Http { status, .. } => *status as u64,
        ProviderError::Api { api_status, .. } => match api_status {
            Some(status) => *status as u64,
            None => 16,
        },
        ProviderError::Transport(_) => 10,
        ProviderError::Decode(_) => 11,
        ProviderError::Stream(_) => 12,
        ProviderError::ContextLengthExceeded => 13,
        ProviderError::Credential(_) => 14,
        ProviderError::UnsupportedTool { .. } => 15,
        ProviderError::UnsupportedCapability { .. } => 17,
    };
    let turn: u64 = multiply_words(attempt as u64 + 1, 0x9E37_79B9_7F4A_7C15);
    let start: u64 = now_ms ^ turn ^ (class_code << 32u64) ^ status_code;
    let folded: u64 = start ^ (start >> 33u64);
    let spread: u64 = multiply_words(folded, 0xFF51_AFD7_ED55_8CCD);
    let mixed: u64 = spread ^ (spread >> 33u64);
    1 + mixed % cap_ms
}

/// What a failed recovery of a credential is reported as, and the error it ends the run with.
pub open spec fn recovery_outcome(error: ProviderError) -> (CredentialRefreshOutcome, AuthError) {
    match error {
        ProviderError::Credential(AuthError::RecoveryPermanent) => (
            CredentialRefreshOutcome::Permanent,
            AuthError::RecoveryPermanent,
        ),
        ProviderError::Credential(AuthError::RecoveryTransient) => (
            CredentialRefreshOutcome::Transient,
            AuthError::RecoveryTransient,
        ),
        ProviderError::Credential(AuthError::RecoveryUnavailable) => (
            CredentialRefreshOutcome::Unavailable,
            AuthError::RecoveryUnavailable,
        ),
        ProviderError::Credential(cause) => (CredentialRefreshOutcome::Rejected, cause),
        _ => (CredentialRefreshOutcome::Rejected, AuthError::ReconnectRequired),
    }
}

pub fn recovery_failure(error: &ProviderError) -> (outcome: (CredentialRefreshOutcome, AuthError))
    ensures
        outcome == recovery_outcome(*error),
{
    match error {
        ProviderError::Credential(AuthError::RecoveryPermanent) => (
            CredentialRefreshOutcome::Permanent,
            AuthError::RecoveryPermanent,
        ),
        ProviderError::Credential(AuthError::RecoveryTransient) => (
            CredentialRefreshOutcome::Transient,
            AuthError::RecoveryTransient,
        ),
        ProviderError::Credential(AuthError::RecoveryUnavailable) => (
            CredentialRefreshOutcome::Unavailable,
            AuthError::RecoveryUnavailable,
        ),
        ProviderError::Credential(cause) => (CredentialRefreshOutcome::Rejected, *cause),
        _ => (CredentialRefreshOutcome::Rejected, AuthError::ReconnectRequired),
    }
}

/// The base of a delay: three times as long after an overload.
pub open spec fn class_base(policy: ResolvedAttemptPolicy, attempt: u32, class: ErrorClass) -> int {
    if class is Overloaded {
        backoff_ms(policy, attempt) * 3
    } else {
        backoff_ms(policy, attempt)
    }
}

/// The ceiling of the jitter of a delay: a fifth of it, and a quarter of a second at most.
pub open spec fn jitter_cap(delay: int) -> int {
    let capped = if delay <= u64::MAX {
        delay
    } else {
        u64::MAX as int
    };
    if capped / 5 <= 250 {
        capped / 5
    } else {
        250
    }
}

/// The delay before another opening after an error that passes, with its jitter. Where the server
/// asked for the ceiling or more, there is none.
pub open spec fn transient_delay(
    policy: ResolvedAttemptPolicy,
    attempt: u32,
    class: ErrorClass,
    error: ProviderError,
    now_ms: u64,
) -> int {
    let delay = delay_after(class_base(policy, attempt, class), error);
    if asked_delay(error) is Some && asked_delay(error)->0 >= MAX_RETRY_AFTER_MS {
        delay
    } else {
        delay + jitter(now_ms, attempt, class, error, jitter_cap(delay) as u64)
    }
}

/// The delay before another opening after an error that passes, in milliseconds.
pub fn transient_retry_delay(
    policy: ResolvedAttemptPolicy,
    attempt: u32,
    class: ErrorClass,
    error: &ProviderError,
    now_ms: u64,
) -> (delay_ms: u128)
    ensures
        delay_ms == transient_delay(policy, attempt, class, *error, now_ms),
{
    let mut base: u128 = backoff(policy, attempt);
    if matches!(class, ErrorClass::Overloaded(_)) {
        base = base * 3;
    }
    let delay: u128 = retry_delay(base, error);
    match server_delay(error) {
        Some(asked) => {
            if asked >= MAX_RETRY_AFTER_MS {
                return delay;
            }
        },
        None => {},
    }
    let capped: u64 = if delay <= u64::MAX as u128 {
        delay as u64
    } else {
        u64::MAX
    };
    let cap: u64 = if capped / 5 <= 250 {
        capped / 5
    } else {
        250
    };
    delay + retry_jitter_ms(now_ms, attempt, class, error, cap) as u128
}

/// A delay after an error that passes is never shorter than its base, and longer than what the
/// base and the server ask for by a quarter of a second at most. What the server asks for counts
/// up to the ceiling alone.
pub proof fn law_delays_are_bounded(
    policy: ResolvedAttemptPolicy,
    attempt: u32,
    class: ErrorClass,
    error: ProviderError,
    now_ms: u64,
)
    ensures
        ({
            let base = class_base(policy, attempt, class);
            let delay = transient_delay(policy, attempt, class, error, now_ms);
            &&& base <= delay
            &&& delay <= (if base > MAX_RETRY_AFTER_MS {
                base
            } else {
                MAX_RETRY_AFTER_MS as int
            }) + 250
            &&& asked_delay(error) is Some && asked_delay(error)->0 >= MAX_RETRY_AFTER_MS && base
                <= MAX_RETRY_AFTER_MS ==> delay == MAX_RETRY_AFTER_MS
        }),
{
    let base = class_base(policy, attempt, class);
    let product = policy.backoff_base_ms * backoff_factor(attempt);
    assert(product >= 0) by (nonlinear_arith)
        requires
            product == policy.backoff_base_ms * backoff_factor(attempt),
            backoff_factor(attempt) >= 0,
    ;
    let delay = delay_after(base, error);
    let cap = jitter_cap(delay) as u64;
    let mix = jitter_mix(now_ms, attempt, class_number(class), error_number(error));
    if cap > 0 {
        assert(mix % cap < cap);
    }
}

/// The base of the delay never shrinks from one attempt to the next.
pub proof fn law_backoff_grows(policy: ResolvedAttemptPolicy, attempt: u32)
    requires
        attempt < u32::MAX,
    ensures
        backoff_ms(policy, attempt) <= backoff_ms(policy, (attempt + 1) as u32) <= 32
            * policy.backoff_base_ms,
{
    let base = policy.backoff_base_ms as int;
    let a = backoff_factor(attempt);
    let b = backoff_factor((attempt + 1) as u32);
    assert(base * a <= base * b <= base * 32) by (nonlinear_arith)
        requires
            base >= 0,
            0 <= a <= b <= 32,
    ;
}

/// The error of a run that a classified error of the provider ends.
pub fn classified_provider_error(class: ErrorClass, error: &ProviderError) -> (fault: AgentError)
    ensures
        fault@ == AgentFault::Provider(
            FailureView { class: Some(class), ..error::failure_of(*error) },
        ),
{
    AgentError::Provider(ProviderFailure::classified(error, class))
}

// ---------------------------------------------------------------- tool results

/// What is wrong with one of the results of a batch: no call has its identifier, or a result
/// before it has.
pub open spec fn stray_result(expected: Seq<Seq<char>>, ids: Seq<Seq<char>>, i: int) -> Option<
    Seq<char>,
> {
    if !expected.contains(ids[i]) {
        Some("tool dispatcher returned unknown call id: "@ + ids[i])
    } else if text::place(ids.take(i), ids[i]) is Some {
        Some("tool dispatcher returned duplicate call id: "@ + ids[i])
    } else {
        None
    }
}

/// A call of a batch that has no result.
pub open spec fn missing_result(expected: Seq<Seq<char>>, ids: Seq<Seq<char>>, i: int) -> Option<
    Seq<char>,
> {
    if ids.contains(expected[i]) {
        None
    } else {
        Some("tool dispatcher omitted call id: "@ + expected[i])
    }
}

/// What is wrong with the results of a batch.
pub open spec fn outcome_fault(expected: Seq<Seq<char>>, ids: Seq<Seq<char>>) -> Option<Seq<char>> {
    if ids.len() != expected.len() {
        Some(
            "tool dispatcher returned "@ + text::decimal(ids.len()) + " outcomes for "@
                + text::decimal(expected.len()) + " calls"@,
        )
    } else {
        let strays = Seq::new(ids.len(), |i: int| stray_result(expected, ids, i));
        let missing = Seq::new(expected.len(), |i: int| missing_result(expected, ids, i));
        if first::first_some(strays) is Some {
            first::first_some(strays)
        } else {
            first::first_some(missing)
        }
    }
}

fn names_id(ids: &[ToolCallId], id: &str) -> (found: bool)
    ensures
        found == text::texts(ids@).contains(id@),
{
    let ghost all = text::texts(ids@);
    let mut i: usize = 0;
    while i < ids.len()
        invariant
            i <= ids.len(),
            all == text::texts(ids@),
            forall|k: int| 0 <= k < i ==> all[k] != id@,
        decreases ids.len() - i,
    {
        assert(all[i as int] == ids@[i as int]@);
        if text::same_text(ids[i].as_str(), id) {
            return true;
        }
        i += 1;
    }
    false
}

pub open spec fn outcome_ids(outcomes: Seq<ModelToolResult>) -> Seq<Seq<char>> {
    outcomes.map_values(|outcome: ModelToolResult| outcome.id@)
}

fn result_before(outcomes: &[ModelToolResult], upto: usize, id: &str) -> (found: bool)
    requires
        upto <= outcomes@.len(),
    ensures
        found == (text::place(outcome_ids(outcomes@).take(upto as int), id@) is Some),
{
    let ghost ids = outcome_ids(outcomes@).take(upto as int);
    let mut i: usize = 0;
    while i < upto
        invariant
            i <= upto <= outcomes@.len(),
            ids == outcome_ids(outcomes@).take(upto as int),
            forall|k: int| 0 <= k < i ==> #[trigger] ids[k] != id@,
        decreases upto - i,
    {
        assert(ids[i as int] == outcomes@[i as int].id@);
        if text::same_text(outcomes[i].id.as_str(), id) {
            proof {
                text::lemma_place_at(ids, id@, i as int);
            }
            return true;
        }
        i += 1;
    }
    proof {
        text::lemma_place_at(ids, id@, i as int);
    }
    false
}

fn has_result(outcomes: &[ModelToolResult], id: &str) -> (found: bool)
    ensures
        found == outcome_ids(outcomes@).contains(id@),
{
    let found = result_before(outcomes, outcomes.len(), id);
    proof {
        let ids = outcome_ids(outcomes@);
        assert(ids.take(ids.len() as int) =~= ids);
        text::lemma_place(ids, id@);
        if ids.contains(id@) {
            let k = choose|k: int| 0 <= k < ids.len() && ids[k] == id@;
            assert(ids[k] == id@);
        }
    }
    found
}

/// What a check of results says where the fault is `fault`.
pub open spec fn tells(checked: Result<(), AgentError>, fault: Option<Seq<char>>) -> bool {
    match fault {
        None => checked is Ok,
        Some(reason) => checked matches Err(e) && e@ == error::contract_fault(reason),
    }
}

fn breach(before: &str, id: &str) -> (error: Result<(), AgentError>)
    ensures
        error matches Err(e) && e@ == error::contract_fault(before@ + id@),
{
    let message = text::joined(before, id, "", "");
    Err(error::contract_error(message.as_str()))
}

/// Holds the results of a batch against its calls: one for each, and none besides.
pub fn validate_tool_outcomes(expected_ids: &[ToolCallId], outcomes: &[ModelToolResult]) -> (
checked: Result<(), AgentError>)
    ensures
        tells(checked, outcome_fault(text::texts(expected_ids@), outcome_ids(outcomes@))),
{
    let ghost expected = text::texts(expected_ids@);
    let ghost ids = outcome_ids(outcomes@);
    if outcomes.len() != expected_ids.len() {
        let got = text::decimal_of(outcomes.len() as u128);
        let wanted = text::decimal_of(expected_ids.len() as u128);
        let mut message = text::joined(
            "tool dispatcher returned ",
            got.as_str(),
            " outcomes for ",
            wanted.as_str(),
        );
        message.append(" calls");
        return Err(error::contract_error(message.as_str()));
    }
    let ghost strays = Seq::new(ids.len(), |i: int| stray_result(expected, ids, i));
    let ghost missing = Seq::new(expected.len(), |i: int| missing_result(expected, ids, i));
    let mut i: usize = 0;
    while i < outcomes.len()
        invariant
            i <= outcomes.len(),
            outcomes@.len() == expected_ids@.len(),
            expected == text::texts(expected_ids@),
            ids == outcome_ids(outcomes@),
            strays == Seq::new(ids.len(), |i: int| stray_result(expected, ids, i)),
            forall|k: int| 0 <= k < i ==> (#[trigger] strays[k]) is None,
        decreases outcomes.len() - i,
    {
        assert(strays[i as int] == stray_result(expected, ids, i as int));
        assert(ids[i as int] == outcomes@[i as int].id@);
        let id = outcomes[i].id.as_str();
        if !names_id(expected_ids, id) {
            proof {
                first::lemma_first_some_at(strays, i as int);
            }
            return breach("tool dispatcher returned unknown call id: ", id);
        }
        if result_before(outcomes, i, id) {
            proof {
                first::lemma_first_some_at(strays, i as int);
            }
            return breach("tool dispatcher returned duplicate call id: ", id);
        }
        i += 1;
    }
    proof {
        first::lemma_first_some_at(strays, i as int);
    }
    let mut j: usize = 0;
    while j < expected_ids.len()
        invariant
            j <= expected_ids.len(),
            outcomes@.len() == expected_ids@.len(),
            expected == text::texts(expected_ids@),
            ids == outcome_ids(outcomes@),
            strays == Seq::new(ids.len(), |i: int| stray_result(expected, ids, i)),
            first::first_some(strays) is None,
            missing == Seq::new(expected.len(), |i: int| missing_result(expected, ids, i)),
            forall|k: int| 0 <= k < j ==> (#[trigger] missing[k]) is None,
        decreases expected_ids.len() - j,
    {
        assert(missing[j as int] == missing_result(expected, ids, j as int));
        assert(expected[j as int] == expected_ids@[j as int]@);
        if !has_result(outcomes, expected_ids[j].as_str()) {
            proof {
                first::lemma_first_some_at(missing, j as int);
            }
            return breach("tool dispatcher omitted call id: ", expected_ids[j].as_str());
        }
        j += 1;
    }
    proof {
        first::lemma_first_some_at(missing, j as int);
    }
    Ok(())
}

/// Results that pass have one for each call, each for a call, and no two for one.
pub proof fn law_accepted_results_match_their_calls(
    expected: Seq<Seq<char>>,
    ids: Seq<Seq<char>>,
    i: int,
    j: int,
)
    requires
        outcome_fault(expected, ids) is None,
    ensures
        ids.len() == expected.len(),
        0 <= i < ids.len() ==> expected.contains(ids[i]) && ids.contains(expected[i]),
        0 <= i < j < ids.len() ==> ids[i] != ids[j],
{
    let strays = Seq::new(ids.len(), |k: int| stray_result(expected, ids, k));
    let missing = Seq::new(expected.len(), |k: int| missing_result(expected, ids, k));
    if 0 <= i < ids.len() {
        first::lemma_first_some_none(strays, i);
        first::lemma_first_some_none(missing, i);
        assert(strays[i] == stray_result(expected, ids, i));
        assert(missing[i] == missing_result(expected, ids, i));
    }
    if 0 <= i < j < ids.len() {
        first::lemma_first_some_none(strays, j);
        assert(strays[j] == stray_result(expected, ids, j));
        text::lemma_place(ids.take(j), ids[j]);
        assert(ids.take(j)[i] == ids[i]);
    }
}

// ---------------------------------------------------------------- interruption

/// The facts of a call that an interruption stopped.
pub open spec fn stopped() -> ToolExecution {
    ToolExecution {
        exit_code: None,
        signal: None,
        timed_out: false,
        cancelled: true,
        session_closed: false,
        stderr_tail: None,
    }
}

/// The message written for a call that an interruption left without a result.
pub open spec fn interrupted_result(id: Seq<char>) -> MessageView {
    MessageView::single(
        Role::Tool,
        BlockView::ToolResult {
            tool_use_id: id,
            content: INTERRUPTED_TOOL_RESULT@,
            status: Some(ToolResultStatus::Cancelled),
            structured_content: None,
            untrusted: false,
            is_error: true,
            error_kind: Some(ToolErrorKind::Cancelled),
            duration_ms: None,
            truncation: None,
            execution: Some(stopped()),
            images: seq![],
        },
    )
}

/// The transcript with a result for every call that had none.
pub open spec fn reconciled(messages: Seq<MessageView>) -> Seq<MessageView> {
    messages + message::unanswered(messages).map_values(|id: Seq<char>| interrupted_result(id))
}

/// Whether a client view tells of an interrupted call.
pub open spec fn tells_of_interruption(view: ToolResultView, id: Seq<char>) -> bool {
    &&& view.id@ == id
    &&& view.content@ == INTERRUPTED_TOOL_RESULT@
    &&& view.status == Some(ToolResultStatus::Cancelled)
    &&& view.structured_content is None
    &&& view.is_error
    &&& view.error_kind == Some(ToolErrorKind::Cancelled)
    &&& !view.untrusted
    &&& view.duration_ms is None
    &&& view.truncation is None
    &&& view.execution == Some(stopped())
}

/// Writes a result for every call that has none, and gives what clients are told of each. What
/// was there stays as it is.
pub fn reconcile_interrupted_calls(messages: &mut Vec<Message>) -> (views: Vec<ToolResultView>)
    ensures
        message::message_views(final(messages)@) == reconciled(
            message::message_views(old(messages)@),
        ),
        views@.len() == message::unanswered(message::message_views(old(messages)@)).len(),
        forall|i: int|
            0 <= i < views@.len() ==> tells_of_interruption(
                #[trigger] views@[i],
                message::unanswered(message::message_views(old(messages)@))[i],
            ),
{
    let ghost before = message::message_views(messages@);
    let ghost ids = message::unanswered(before);
    let pending = message::unanswered_tool_calls(messages.as_slice());
    let mut views: Vec<ToolResultView> = Vec::new();
    let mut i: usize = 0;
    let ghost added = ids.map_values(|id: Seq<char>| interrupted_result(id));
    assert(before + added.take(0) =~= before);
    while i < pending.len()
        invariant
            i <= pending.len(),
            ids == message::unanswered(before),
            text::texts(pending@) == ids,
            added == ids.map_values(|id: Seq<char>| interrupted_result(id)),
            message::message_views(messages@) == before + added.take(i as int),
            views@.len() == i,
            forall|k: int| 0 <= k < i ==> tells_of_interruption(#[trigger] views@[k], ids[k]),
        decreases pending.len() - i,
    {
        let result = ModelToolResult::cancelled(pending[i].clone(), INTERRUPTED_TOOL_RESULT);
        proof {
            assert(ids[i as int] == pending@[i as int]@);
        }
        let view = ToolResultView::from_model(&result);
        assert(tells_of_interruption(view, ids[i as int]));
        views.push(view);
        let message = Message::tool_result_from_model(&result);
        let ghost here = messages@;
        let ghost shown = message@;
        proof {
            assert(result.images@ =~= seq![]);
            assert(shown == interrupted_result(ids[i as int]));
        }
        messages.push(message);
        proof {
            assert(message::message_views(messages@) =~= message::message_views(here).push(shown));
            assert(before + added.take(i + 1) =~= (before + added.take(i as int)).push(shown));
        }
        i += 1;
    }
    assert(added.take(i as int) =~= added);
    views
}

proof fn lemma_results_answer(
    messages: Seq<MessageView>,
    ids: Seq<Seq<char>>,
    id: Seq<char>,
)
    ensures
        ({
            let after = messages + ids.map_values(|i: Seq<char>| interrupted_result(i));
            let blocks = message::blocks_of(after);
            &&& message::called(blocks, id) == message::called(message::blocks_of(messages), id)
            &&& message::answered(blocks, id) == (message::answered(
                message::blocks_of(messages),
                id,
            ) || ids.contains(id))
        }),
    decreases ids.len(),
{
    let after = messages + ids.map_values(|i: Seq<char>| interrupted_result(i));
    if ids.len() == 0 {
        assert(after =~= messages);
    } else {
        let shorter = ids.drop_last();
        let last = ids.last();
        let before = messages + shorter.map_values(|i: Seq<char>| interrupted_result(i));
        lemma_results_answer(messages, shorter, id);
        assert(after =~= before.push(interrupted_result(last)));
        message::lemma_blocks_of_push(before, interrupted_result(last));
        let old_blocks = message::blocks_of(before);
        let blocks = message::blocks_of(after);
        let added = interrupted_result(last).content;
        assert(blocks == old_blocks + added);
        assert(blocks[old_blocks.len() as int] == added[0]);
        if message::called(old_blocks, id) {
            let k = choose|k: int|
                0 <= k < old_blocks.len() && (#[trigger] old_blocks[k]) is ToolUse
                    && old_blocks[k]->ToolUse_id == id;
            assert(blocks[k] == old_blocks[k]);
        }
        if message::called(blocks, id) {
            let k = choose|k: int|
                0 <= k < blocks.len() && (#[trigger] blocks[k]) is ToolUse
                    && blocks[k]->ToolUse_id == id;
            assert(k < old_blocks.len());
            assert(old_blocks[k] == blocks[k]);
        }
        if message::answered(old_blocks, id) {
            let k = choose|k: int|
                0 <= k < old_blocks.len() && (#[trigger] old_blocks[k]) is ToolResult
                    && old_blocks[k]->tool_use_id == id;
            assert(blocks[k] == old_blocks[k]);
        }
        if message::answered(blocks, id) {
            let k = choose|k: int|
                0 <= k < blocks.len() && (#[trigger] blocks[k]) is ToolResult
                    && blocks[k]->tool_use_id == id;
            if k < old_blocks.len() {
                assert(old_blocks[k] == blocks[k]);
            } else {
                assert(blocks[k] == added[0]);
            }
        }
        if shorter.contains(id) {
            let k = choose|k: int| 0 <= k < shorter.len() && shorter[k] == id;
            assert(ids[k] == id);
        }
        if ids.contains(id) && id != last {
            let k = choose|k: int| 0 <= k < ids.len() && ids[k] == id;
            assert(shorter[k] == id);
        }
        if id == last {
            assert(ids[ids.len() - 1] == id);
        }
    }
}

/// After an interruption is repaired, every call of the transcript has a result, and what was
/// there before is unchanged.
pub proof fn law_reconciled_transcripts_are_answered(messages: Seq<MessageView>)
    ensures
        message::unanswered(reconciled(messages)) == Seq::<Seq<char>>::empty(),
        reconciled(messages).take(messages.len() as int) == messages,
{
    let ids = message::unanswered(messages);
    let after = reconciled(messages);
    message::law_unanswered_calls(messages);
    message::law_unanswered_calls(after);
    let left = message::unanswered(after);
    if left.len() > 0 {
        let id = left[0];
        assert(left.contains(id));
        lemma_results_answer(messages, ids, id);
        assert(ids.contains(id));
    }
    assert(left =~= Seq::<Seq<char>>::empty());
    assert(after.take(messages.len() as int) =~= messages);
}

/// Repairing twice is the same as repairing once.
pub proof fn law_reconciling_is_idempotent(messages: Seq<MessageView>)
    ensures
        reconciled(reconciled(messages)) == reconciled(messages),
{
    law_reconciled_transcripts_are_answered(messages);
    assert(reconciled(reconciled(messages)) =~= reconciled(messages));
}

// ---------------------------------------------------------------- estimates and limits

/// The limits of a tool result for a model, in tokens and in bytes.
pub open spec fn limits_of(runtime: Option<ResolvedModelRuntime>) -> (nat, nat) {
    match runtime {
        Some(resolved) => if resolved.truncation.mode == TruncationMode::Tokens {
            (
                tokenizer::capped_usize(resolved.truncation.limit as nat),
                tools::MAX_MODEL_TOOL_RESULT_BYTES as nat,
            )
        } else {
            (
                usize::MAX as nat,
                if resolved.truncation.limit <= tools::MAX_MODEL_TOOL_RESULT_BYTES {
                    resolved.truncation.limit as nat
                } else {
                    tools::MAX_MODEL_TOOL_RESULT_BYTES as nat
                },
            )
        },
        None => (usize::MAX as nat, tools::MAX_MODEL_TOOL_RESULT_BYTES as nat),
    }
}

/// The limits of a tool result for a model, in tokens and in bytes.
pub fn feedback_limits(runtime: &Option<ResolvedModelRuntime>) -> (limits: (usize, usize))
    ensures
        limits.0 == limits_of(*runtime).0,
        limits.1 == limits_of(*runtime).1,
{
    match runtime {
        Some(resolved) => {
            let limit: u64 = resolved.truncation.limit as u64;
            if resolved.truncation.mode == TruncationMode::Tokens {
                let tokens: usize = if limit <= usize::MAX as u64 {
                    limit as usize
                } else {
                    usize::MAX
                };
                (tokens, tools::MAX_MODEL_TOOL_RESULT_BYTES)
            } else {
                let bytes: usize = if limit <= tools::MAX_MODEL_TOOL_RESULT_BYTES as u64 {
                    limit as usize
                } else {
                    tools::MAX_MODEL_TOOL_RESULT_BYTES
                };
                (usize::MAX, bytes)
            }
        },
        None => (usize::MAX, tools::MAX_MODEL_TOOL_RESULT_BYTES),
    }
}

/// The tokens of a transcript together with what every request carries.
pub open spec fn current_tokens<C: TokenCounter>(
    messages: Seq<MessageView>,
    static_input_tokens: u32,
    counter: C,
) -> u32 {
    tokenizer::capped_u32(
        tokenizer::capped_u32(budget::transcript_tokens(messages, counter))
            + static_input_tokens as nat,
    ) as u32
}

pub fn estimate_current_input<C: TokenCounter>(
    messages: &[Message],
    static_input_tokens: u32,
    counter: &C,
) -> (tokens: u32)
    ensures
        tokens == current_tokens(
            message::message_views(messages@),
            static_input_tokens,
            *counter,
        ),
{
    budget::estimate_input(messages, counter).saturating_add(static_input_tokens)
}

/// A message without opaque reasoning.
pub open spec fn without_reasoning(message: MessageView) -> MessageView {
    MessageView {
        role: message.role,
        content: message.content.filter(|block: BlockView| !(block is EncryptedReasoning)),
    }
}

pub open spec fn holds_reasoning(message: MessageView) -> bool {
    exists|i: int|
        0 <= i < message.content.len() && (#[trigger] message.content[i]) is EncryptedReasoning
}

fn drop_reasoning(message: &Message) -> (found: (Message, bool))
    ensures
        found.0@ == without_reasoning(message@),
        found.1 == holds_reasoning(message@),
{
    let ghost blocks = message@.content;
    let ghost keep = |block: BlockView| !(block is EncryptedReasoning);
    let mut content: Vec<ContentBlock> = Vec::new();
    let mut removed = false;
    let mut i: usize = 0;
    proof {
        reveal(Seq::filter);
        assert(message::block_views(content@) =~= blocks.take(0).filter(keep));
    }
    while i < message.content.len()
        invariant
            i <= message.content.len(),
            blocks == message@.content,
            keep == (|block: BlockView| !(block is EncryptedReasoning)),
            message::block_views(content@) == blocks.take(i as int).filter(keep),
            removed == exists|k: int| 0 <= k < i && (#[trigger] blocks[k]) is EncryptedReasoning,
        decreases message.content.len() - i,
    {
        let ghost before = content@;
        proof {
            reveal(Seq::filter);
            assert(blocks[i as int] == message.content@[i as int]@);
            assert(blocks.take(i + 1).drop_last() =~= blocks.take(i as int));
            assert(blocks.take(i + 1).last() == blocks[i as int]);
        }
        if matches!(&message.content[i], ContentBlock::EncryptedReasoning { .. }) {
            removed = true;
            assert(blocks[i as int] is EncryptedReasoning);
        } else {
            let copy = message.content[i].clone();
            proof {
                message::lemma_block_views_push(before, copy);
            }
            content.push(copy);
        }
        i += 1;
    }
    assert(blocks.take(i as int) =~= blocks);
    (Message { role: message.role, content }, removed)
}

/// Takes the opaque reasoning out of a transcript; tells whether there was some.
pub fn invalidate_reasoning(messages: &mut Vec<Message>) -> (removed: bool)
    ensures
        message::message_views(final(messages)@) == message::message_views(
            old(messages)@,
        ).map_values(|message: MessageView| without_reasoning(message)),
        removed == exists|i: int|
            0 <= i < old(messages)@.len() && holds_reasoning((#[trigger] old(messages)@[i])@),
{
    let ghost before = messages@;
    let mut removed = false;
    let mut i: usize = 0;
    while i < messages.len()
        invariant
            i <= messages.len(),
            before == old(messages)@,
            before.len() == messages@.len(),
            forall|k: int|
                0 <= k < i ==> (#[trigger] messages@[k])@ == without_reasoning(before[k]@),
            forall|k: int| i <= k < before.len() ==> #[trigger] messages@[k] == before[k],
            removed == exists|k: int|
                0 <= k < i && holds_reasoning((#[trigger] before[k])@),
        decreases messages.len() - i,
    {
        let (kept, found) = drop_reasoning(&messages[i]);
        proof {
            assert(messages@[i as int] == before[i as int]);
            if found {
                assert(holds_reasoning(before[i as int]@));
            }
        }
        removed = removed || found;
        messages.set(i, kept);
        i += 1;
    }
    assert(message::message_views(messages@) =~= message::message_views(before).map_values(
        |message: MessageView| without_reasoning(message),
    ));
    removed
}

/// Counts an attempt: by its usage where the backend reported one, else by an estimate, which
/// also feeds the thresholds of compaction.
pub fn record_attempt_usage<C: TokenCounter>(
    usage_budget: &mut UsageBudget,
    budget: &mut ContextBudget,
    last_usage: Option<TokenUsage>,
    messages: &[Message],
    static_input_tokens: u32,
    accumulator: &Accumulator,
    counter: &C,
)
    ensures
        match last_usage {
            Some(usage) => *final(usage_budget) == old(usage_budget).recorded(
                usage.input,
                usage.output,
            ) && *final(budget) == *old(budget),
            None => {
                let input = current_tokens(
                    message::message_views(messages@),
                    static_input_tokens,
                    *counter,
                );
                let output = tokenizer::capped_u32(accumulator@.tokens(*counter));
                &&& *final(usage_budget) == old(usage_budget).recorded(
                    input as u64,
                    output as u64,
                )
                &&& *final(budget) == (ContextBudget { current_input: input, ..*old(budget) })
            },
        },
{
    match last_usage {
        Some(usage) => {
            usage_budget.record_usage(usage);
        },
        None => {
            let input: u32 = estimate_current_input(messages, static_input_tokens, counter);
            let output: u32 = accumulator.estimate_output(counter);
            budget.observe_estimated(input);
            usage_budget.record(input as u64, output as u64);
        },
    }
}

impl AgentEvent {
    /// The client event of what a dispatcher tells.
    pub fn from_dispatch(event: ToolDispatchEvent) -> (shown: AgentEvent)
        ensures
            match event {
                ToolDispatchEvent::PermissionAsk(request) => shown == AgentEvent::PermissionAsk(
                    request,
                ),
                ToolDispatchEvent::NestedToolCall(call) => shown == AgentEvent::ToolCall(call),
                ToolDispatchEvent::NestedToolResult(result) => shown == AgentEvent::ToolResult(
                    result,
                ),
                ToolDispatchEvent::OutputDelta { id, stream, chunk } => shown
                    == AgentEvent::ToolOutputDelta(ToolOutputDeltaView { id, stream, chunk }),
                ToolDispatchEvent::Plan(plan) => shown == AgentEvent::Plan(plan),
                ToolDispatchEvent::Hook(run) => shown == AgentEvent::Hook(run),
            },
    {
        match event {
            ToolDispatchEvent::PermissionAsk(request) => AgentEvent::PermissionAsk(request),
            ToolDispatchEvent::NestedToolCall(call) => AgentEvent::ToolCall(call),
            ToolDispatchEvent::NestedToolResult(result) => AgentEvent::ToolResult(result),
            ToolDispatchEvent::OutputDelta { id, stream, chunk } => AgentEvent::ToolOutputDelta(
                ToolOutputDeltaView { id, stream, chunk },
            ),
            ToolDispatchEvent::Plan(plan) => AgentEvent::Plan(plan),
            ToolDispatchEvent::Hook(run) => AgentEvent::Hook(run),
        }
    }
}

// ---------------------------------------------------------------- headless runs

/// How a run without a terminal ended.
#[derive(Debug, PartialEq, Eq)]
pub enum HeadlessEnd {
    EndTurn,
    Exhausted(ExhaustReason),
    Error(AgentError),
}

#[derive(Debug, PartialEq, Eq)]
pub struct HeadlessResult {
    pub text: String,
    pub events: usize,
    pub ended: HeadlessEnd,
}

/// The fold of the events of a run into one text. Text counts when a tool call or the end of the
/// turn follows it; a reset takes back what has not counted yet.
#[derive(Debug, PartialEq, Eq)]
pub struct HeadlessFold {
    pub text: String,
    pub pending_text: String,
    pub events: usize,
    pub ended: HeadlessEnd,
}

/// The text of a run: what counts, and what is still to count.
pub struct Heard {
    pub counted: Seq<char>,
    pub waiting: Seq<char>,
}

impl Heard {
    /// The text after one more event.
    pub open spec fn after(self, event: AgentEvent) -> Heard {
        match event {
            AgentEvent::Text(text) => Heard { waiting: self.waiting + text@, ..self },
            AgentEvent::StreamReset => Heard { waiting: seq![], ..self },
            AgentEvent::ToolCall(_) | AgentEvent::EndTurn => Heard {
                counted: self.counted + self.waiting,
                waiting: seq![],
            },
            _ => self,
        }
    }

    /// The text after a run of events.
    pub open spec fn after_all(self, events: Seq<AgentEvent>) -> Heard
        decreases events.len(),
    {
        if events.len() == 0 {
            self
        } else {
            self.after_all(events.drop_last()).after(events.last())
        }
    }
}

/// The texts among some events, one after the other.
pub open spec fn told_text(events: Seq<AgentEvent>) -> Seq<char>
    decreases events.len(),
{
    if events.len() == 0 {
        seq![]
    } else {
        told_text(events.drop_last()) + match events.last() {
            AgentEvent::Text(text) => text@,
            _ => seq![],
        }
    }
}

impl HeadlessFold {
    pub open spec fn heard(self) -> Heard {
        Heard { counted: self.text@, waiting: self.pending_text@ }
    }

    pub fn new() -> (fold: HeadlessFold)
        ensures
            fold.text@.len() == 0,
            fold.pending_text@.len() == 0,
            fold.events == 0,
            fold.ended is EndTurn,
    {
        HeadlessFold {
            text: String::new(),
            pending_text: String::new(),
            events: 0,
            ended: HeadlessEnd::EndTurn,
        }
    }

    /// Folds in one event.
    pub fn observe(&mut self, event: &AgentEvent)
        ensures
            final(self).events == if old(self).events < usize::MAX {
                old(self).events + 1
            } else {
                usize::MAX as int
            },
            final(self).text@ == match event {
                AgentEvent::ToolCall(_) => old(self).text@ + old(self).pending_text@,
                AgentEvent::EndTurn => old(self).text@ + old(self).pending_text@,
                _ => old(self).text@,
            },
            final(self).pending_text@ == match event {
                AgentEvent::StreamReset => Seq::<char>::empty(),
                AgentEvent::Text(text) => old(self).pending_text@ + text@,
                AgentEvent::ToolCall(_) => Seq::<char>::empty(),
                AgentEvent::EndTurn => Seq::<char>::empty(),
                _ => old(self).pending_text@,
            },
            match event {
                AgentEvent::Exhausted(reason) => final(self).ended == HeadlessEnd::Exhausted(
                    *reason,
                ),
                AgentEvent::Error(error) => final(self).ended matches HeadlessEnd::Error(e) && e@
                    == error@,
                AgentEvent::EndTurn => final(self).ended is EndTurn,
                _ => final(self).ended == old(self).ended,
            },
            final(self).heard() == old(self).heard().after(*event),
    {
        self.events = self.events.saturating_add(1);
        match event {
            AgentEvent::StreamReset => {
                self.pending_text = String::new();
            },
            AgentEvent::Text(text) => {
                self.pending_text.append(text.as_str());
            },
            AgentEvent::ToolCall(_) => {
                self.text.append(self.pending_text.as_str());
                self.pending_text = String::new();
            },
            AgentEvent::Exhausted(reason) => {
                self.ended = HeadlessEnd::Exhausted(*reason);
            },
            AgentEvent::Error(error) => {
                self.ended = HeadlessEnd::Error(error.clone());
            },
            AgentEvent::EndTurn => {
                self.text.append(self.pending_text.as_str());
                self.pending_text = String::new();
                self.ended = HeadlessEnd::EndTurn;
            },
            _ => {},
        }
        assert(Seq::<char>::empty() =~= seq![]);
    }

    pub fn finish(self) -> (result: HeadlessResult)
        ensures
            result == (HeadlessResult {
                text: self.text,
                events: self.events,
                ended: self.ended,
            }),
    {
        HeadlessResult { text: self.text, events: self.events, ended: self.ended }
    }
}

/// The base of the delay starts at that of the policy and doubles five times, no more.
pub proof fn law_backoff_doubles(policy: ResolvedAttemptPolicy, attempt: u32)
    requires
        32 * policy.backoff_base_ms <= u64::MAX,
    ensures
        backoff_ms(policy, 0) == policy.backoff_base_ms,
        attempt < 5 ==> backoff_ms(policy, (attempt + 1) as u32) == 2 * backoff_ms(policy, attempt),
        attempt >= 5 ==> backoff_ms(policy, attempt) == 32 * policy.backoff_base_ms,
{
}

/// A delay heeds the server: where it asked for one, the delay is at least that, up to the ceiling;
/// where it did not, the delay is the base and a jitter of at most a fifth of it. After an overload
/// the base is three times as long.
pub proof fn law_servers_are_heeded(
    policy: ResolvedAttemptPolicy,
    attempt: u32,
    class: ErrorClass,
    error: ProviderError,
    now_ms: u64,
)
    ensures
        ({
            let base = if class is Overloaded {
                3 * backoff_ms(policy, attempt)
            } else {
                backoff_ms(policy, attempt)
            };
            let asked = match error {
                ProviderError::Http { retry_after_ms, .. } => retry_after_ms,
                ProviderError::Api { retry_after_ms, .. } => retry_after_ms,
                _ => None,
            };
            let delay = transient_delay(policy, attempt, class, error, now_ms);
            &&& delay >= base
            &&& asked is None ==> delay <= base + base / 5
            &&& asked is None && base >= 5 ==> delay > base
            &&& asked is Some && asked->0 <= MAX_RETRY_AFTER_MS ==> delay >= asked->0
            &&& asked is Some && asked->0 > MAX_RETRY_AFTER_MS ==> delay >= MAX_RETRY_AFTER_MS
            &&& asked is Some && base <= asked->0 < MAX_RETRY_AFTER_MS ==> delay <= asked->0
                + asked->0 / 5
            &&& asked is Some && asked->0 < base ==> delay <= base + base / 5
        }),
{
    law_delays_are_bounded(policy, attempt, class, error, now_ms);
    let base = class_base(policy, attempt, class);
    let product = policy.backoff_base_ms * backoff_factor(attempt);
    assert(product >= 0) by (nonlinear_arith)
        requires
            product == policy.backoff_base_ms * backoff_factor(attempt),
            backoff_factor(attempt) >= 0,
    ;
    let delay = delay_after(base, error);
    let cap = jitter_cap(delay) as u64;
    let mix = jitter_mix(now_ms, attempt, class_number(class), error_number(error));
    if cap > 0 {
        assert(mix % cap < cap);
    }
}

/// A sampling is opened at least once: as often as the model's own policy says where there is one,
/// else once more than the settings allow retries, with the delays of the same source.
pub proof fn law_policies_open_at_least_once(
    max_retries: u32,
    backoff_base_ms: u64,
    runtime: Option<ResolvedModelRuntime>,
)
    ensures
        ({
            let policy = ResolvedAttemptPolicy::resolved(max_retries, backoff_base_ms, runtime);
            &&& policy.max_attempts >= 1
            &&& runtime is None && max_retries < u32::MAX ==> policy.max_attempts == max_retries + 1
            &&& runtime is None ==> policy.max_attempts >= max_retries && policy.backoff_base_ms
                == backoff_base_ms
            &&& runtime matches Some(resolved) ==> policy.backoff_base_ms
                == resolved.retry.backoff_base_ms && policy.max_attempts
                >= resolved.retry.max_attempts && (resolved.retry.max_attempts > 0
                ==> policy.max_attempts == resolved.retry.max_attempts)
        }),
{
}

/// A failed recovery of a credential ends the run with the cause that was given, and with the need
/// to connect again where none was; it is told apart whether trying again can help.
pub proof fn law_recoveries_keep_their_cause(error: ProviderError)
    ensures
        ({
            let (outcome, cause) = recovery_outcome(error);
            &&& error matches ProviderError::Credential(given) ==> cause == given
            &&& !(error is Credential) ==> cause == AuthError::ReconnectRequired
            &&& outcome == CredentialRefreshOutcome::Permanent <==> error
                == ProviderError::Credential(AuthError::RecoveryPermanent)
            &&& outcome == CredentialRefreshOutcome::Transient <==> error
                == ProviderError::Credential(AuthError::RecoveryTransient)
            &&& outcome == CredentialRefreshOutcome::Unavailable <==> error
                == ProviderError::Credential(AuthError::RecoveryUnavailable)
            &&& outcome == CredentialRefreshOutcome::Permanent || outcome
                == CredentialRefreshOutcome::Transient || outcome
                == CredentialRefreshOutcome::Unavailable || outcome
                == CredentialRefreshOutcome::Rejected
        }),
{
}

/// Results that match their calls pass, in whatever order they come.
pub proof fn law_matching_results_are_accepted(expected: Seq<Seq<char>>, ids: Seq<Seq<char>>)
    requires
        ids.len() == expected.len(),
        ids.no_duplicates(),
        forall|i: int| 0 <= i < ids.len() ==> expected.contains(#[trigger] ids[i]),
        forall|i: int| 0 <= i < expected.len() ==> ids.contains(#[trigger] expected[i]),
    ensures
        outcome_fault(expected, ids) is None,
{
    let strays = Seq::new(ids.len(), |k: int| stray_result(expected, ids, k));
    let missing = Seq::new(expected.len(), |k: int| missing_result(expected, ids, k));
    assert forall|i: int| 0 <= i < strays.len() implies (#[trigger] strays[i]) is None by {
        text::lemma_place(ids.take(i), ids[i]);
        assert(expected.contains(ids[i]));
        assert forall|k: int| 0 <= k < i implies #[trigger] ids.take(i)[k] != ids[i] by {
            assert(ids.take(i)[k] == ids[k]);
        }
    }
    assert forall|i: int| 0 <= i < missing.len() implies (#[trigger] missing[i]) is None by {
        assert(ids.contains(expected[i]));
    }
    first::lemma_first_some_at(strays, strays.len() as int);
    first::lemma_first_some_at(missing, missing.len() as int);
}

/// Repairing an interruption adds one result for each call without one, in the order of the calls,
/// and nothing else; each says that its call was cancelled.
pub proof fn law_repairs_add_one_result_a_call(messages: Seq<MessageView>, i: int)
    requires
        0 <= i < message::unanswered(messages).len(),
    ensures
        ({
            let after = reconciled(messages);
            let added = after[messages.len() + i];
            &&& after.len() == messages.len() + message::unanswered(messages).len()
            &&& added.role == Role::Tool
            &&& added.content.len() == 1
            &&& added.content[0] is ToolResult
            &&& added.content[0]->tool_use_id == message::unanswered(messages)[i]
            &&& added.content[0]->ToolResult_content == INTERRUPTED_TOOL_RESULT@
            &&& added.content[0]->is_error
            &&& added.content[0]->status == Some(ToolResultStatus::Cancelled)
            &&& added.content[0]->error_kind == Some(ToolErrorKind::Cancelled)
            &&& added.content[0]->execution matches Some(facts) && facts.cancelled
                && !facts.timed_out && facts.exit_code is None && facts.signal is None
        }),
{
}

/// A tool result is limited in the unit that the model asks for, and by the ceiling of the library
/// in bytes whatever it asks for.
pub proof fn law_result_limits_follow_the_model(runtime: Option<ResolvedModelRuntime>)
    ensures
        ({
            let (tokens, bytes) = limits_of(runtime);
            &&& bytes <= tools::MAX_MODEL_TOOL_RESULT_BYTES
            &&& runtime is None ==> tokens == usize::MAX && bytes
                == tools::MAX_MODEL_TOOL_RESULT_BYTES
            &&& runtime matches Some(resolved) ==> {
                let limit = resolved.truncation.limit;
                &&& resolved.truncation.mode == TruncationMode::Tokens ==> bytes
                    == tools::MAX_MODEL_TOOL_RESULT_BYTES && (limit <= usize::MAX ==> tokens
                    == limit)
                &&& resolved.truncation.mode != TruncationMode::Tokens ==> tokens == usize::MAX && (
                limit <= tools::MAX_MODEL_TOOL_RESULT_BYTES ==> bytes == limit) && (limit
                    > tools::MAX_MODEL_TOOL_RESULT_BYTES ==> bytes
                    == tools::MAX_MODEL_TOOL_RESULT_BYTES)
            }
        }),
{
}

/// The input of a request is the transcript and what every request carries, never less than either.
pub proof fn law_input_is_transcript_and_rest<C: TokenCounter>(
    messages: Seq<MessageView>,
    static_input_tokens: u32,
    counter: C,
)
    ensures
        ({
            let sum = budget::transcript_tokens(messages, counter) + static_input_tokens;
            let tokens = current_tokens(messages, static_input_tokens, counter);
            &&& sum <= u32::MAX ==> tokens == sum
            &&& sum > u32::MAX ==> tokens == u32::MAX
        }),
{
}

/// Without opaque reasoning a message keeps everything else, in order.
pub proof fn law_only_reasoning_is_dropped(message: MessageView, block: BlockView)
    ensures
        ({
            let longer = MessageView { role: message.role, content: message.content.push(block) };
            let kept = without_reasoning(message);
            let more = without_reasoning(longer);
            &&& more.role == message.role
            &&& block is EncryptedReasoning ==> more.content == kept.content
            &&& !(block is EncryptedReasoning) ==> more.content == kept.content.push(block)
            &&& holds_reasoning(longer) <==> holds_reasoning(message) || block is EncryptedReasoning
        }),
{
    let keep = |block: BlockView| !(block is EncryptedReasoning);
    let longer = MessageView { role: message.role, content: message.content.push(block) };
    reveal(Seq::filter);
    assert(longer.content.drop_last() =~= message.content);
    if holds_reasoning(message) {
        let k = choose|k: int|
            0 <= k < message.content.len() && (#[trigger] message.content[k])
                is EncryptedReasoning;
        assert(longer.content[k] is EncryptedReasoning);
    }
    if block is EncryptedReasoning {
        assert(longer.content[message.content.len() as int] is EncryptedReasoning);
    }
    if holds_reasoning(longer) {
        let k = choose|k: int|
            0 <= k < longer.content.len() && (#[trigger] longer.content[k]) is EncryptedReasoning;
        if k < message.content.len() {
            assert(message.content[k] is EncryptedReasoning);
        }
    }
}

/// What a run without a terminal gives is its text, whole and in order, as far as a call or the end
/// of the turn followed it; what a reset took back is not in it, and nothing else is lost.
pub proof fn law_headless_runs_give_their_text(start: Heard, events: Seq<AgentEvent>)
    ensures
        ({
            let after = start.after_all(events);
            &&& (forall|i: int| 0 <= i < events.len() ==> !(#[trigger] events[i] is StreamReset))
                ==> after.counted + after.waiting == start.counted + start.waiting + told_text(
                events,
            )
            &&& start.counted.is_prefix_of(after.counted)
            &&& events.len() > 0 && (events.last() is EndTurn || events.last() is ToolCall)
                ==> after.waiting.len() == 0
            &&& events.len() > 0 && events.last() is StreamReset ==> after.waiting.len() == 0
                && after.counted == start.after_all(events.drop_last()).counted
            &&& (forall|i: int|
                0 <= i < events.len() ==> !(#[trigger] events[i] is EndTurn)
                    && !(events[i] is ToolCall)) ==> after.counted == start.counted
        }),
    decreases events.len(),
{
    let after = start.after_all(events);
    if events.len() == 0 {
        assert(start.counted + start.waiting + told_text(events) =~= start.counted
            + start.waiting);
    } else {
        let front = events.drop_last();
        let before = start.after_all(front);
        law_headless_runs_give_their_text(start, front);
        assert forall|i: int| 0 <= i < front.len() implies #[trigger] front[i] == events[i] by {}
        if forall|i: int| 0 <= i < events.len() ==> !(#[trigger] events[i] is StreamReset) {
            assert forall|i: int| 0 <= i < front.len() implies !(
            #[trigger] front[i] is StreamReset) by {
                assert(front[i] == events[i]);
            }
            assert(!(events[events.len() - 1] is StreamReset));
            let said: Seq<char> = match events.last() {
                AgentEvent::Text(text) => text@,
                _ => seq![],
            };
            assert(after.counted + after.waiting =~= before.counted + before.waiting + said);
            assert(start.counted + start.waiting + told_text(front) + said =~= start.counted
                + start.waiting + told_text(events));
        }
        if forall|i: int|
            0 <= i < events.len() ==> !(#[trigger] events[i] is EndTurn) && !(events[i]
                is ToolCall) {
            assert forall|i: int| 0 <= i < front.len() implies !(#[trigger] front[i] is EndTurn)
                && !(front[i] is ToolCall) by {
                assert(front[i] == events[i]);
            }
            assert(!(events[events.len() - 1] is EndTurn));
        }
        assert(start.counted.is_prefix_of(after.counted));
    }
}

/// An event about a planned opening tells which it is of how many, why, when, and with which model.
pub proof fn law_planned_openings_are_told(
    attempt: AttemptContext,
    event: AgentEvent,
    ordinal: u32,
    policy: ResolvedAttemptPolicy,
    cause: ErrorClass,
    delay_ms: u128,
    fallback_model: Option<String>,
)
    requires
        attempt.schedules(event, ordinal, policy, cause, delay_ms, fallback_model),
    ensures
        event is RetryScheduled,
        event->RetryScheduled_0.ordinal == ordinal,
        event->RetryScheduled_0.max_attempts == policy.max_attempts,
        event->RetryScheduled_0.cause == cause,
        delay_ms <= u64::MAX ==> event->RetryScheduled_0.delay_ms == delay_ms,
        event->RetryScheduled_0.fallback_model == fallback_model,
        event->RetryScheduled_0.step == attempt.step,
        event->RetryScheduled_0.prompt_fingerprint@ == attempt.prompt_fingerprint@,
{
}

} // verus!
