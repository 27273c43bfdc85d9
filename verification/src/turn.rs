//! The model contract of a running turn, and what follows a sampling that failed.
use crate::agent;
use crate::agent::{ResolvedAttemptPolicy, RunConfig};
use crate::budget;
use crate::budget::ContextBudget;
use crate::error;
use crate::error::{AgentError, AgentFault, FailureView};
use crate::message;
use crate::message::{Message, MessageView};
use crate::model::{ReasoningReplaySupport, ResolvedModelRuntime};
use crate::prompt;
use crate::prompt::ContextTransitionCause;
use crate::provider::{AuthError, ErrorClass, ProviderError};
use crate::text;
use crate::tokenizer;
use crate::tokenizer::TokenCounter;
use crate::tool_spec;
use crate::tools::StepToolPlan;
use crate::transition::ContextErrorKind;
use vstd::prelude::*;
use vstd::string::*;

verus! {

/// The model contract and the context of the running turn: everything that a failure of the
/// provider can rewrite.
#[derive(Debug, PartialEq, Eq)]
pub struct TurnRuntime {
    pub model: String,
    pub model_runtime: Option<ResolvedModelRuntime>,
    pub reasoning_effort: Option<String>,
    pub system: Option<String>,
    pub overload_fallback_system: Option<String>,
    pub parallel_tools: bool,
    pub tool_plan: StepToolPlan,
    pub budget: ContextBudget,
    /// The tokens that every request carries beside the transcript.
    pub static_input_tokens: u32,
    pub reasoning_replay: bool,
    pub reasoning_replay_downgraded: bool,
    pub overload_fallback_used: bool,
    pub credential_refresh_attempted: bool,
    pub attempt_policy: ResolvedAttemptPolicy,
    /// The opening of the provider within this sampling, counted from one.
    pub attempt_ordinal: u32,
    /// The model whose compaction profile the transcript still has, where another one has to
    /// read it.
    pub required_profile_compaction: Option<String>,
    pub transition_causes: Vec<ContextTransitionCause>,
}

/// What the loop does about a sampling that failed.
#[derive(Debug, PartialEq, Eq)]
pub enum FailureAction {
    /// Open again after this many milliseconds, with another model where one took over.
    Retry { delay_ms: u128, fallback_model: Option<String> },
    /// Refresh the credential, then open again.
    RefreshCredentials,
    /// Open again without opaque reasoning.
    DowngradeReplay,
    /// Hold the error back, compact, then open again.
    Withhold(ContextErrorKind),
    Fail(AgentError),
}

/// What an action is.
pub enum ActionView {
    Retry { delay_ms: int, fallback_model: Option<Seq<char>> },
    RefreshCredentials,
    DowngradeReplay,
    Withhold(ContextErrorKind),
    Fail(AgentFault),
}

impl View for FailureAction {
    type V = ActionView;

    open spec fn view(&self) -> ActionView {
        match self {
            FailureAction::Retry { delay_ms, fallback_model } => ActionView::Retry {
                delay_ms: *delay_ms as int,
                fallback_model: text::opt_text(*fallback_model),
            },
            FailureAction::RefreshCredentials => ActionView::RefreshCredentials,
            FailureAction::DowngradeReplay => ActionView::DowngradeReplay,
            FailureAction::Withhold(kind) => ActionView::Withhold(*kind),
            FailureAction::Fail(error) => ActionView::Fail(error@),
        }
    }
}

/// What becomes of a turn after an overload.
pub enum Switch {
    /// Nothing can take over.
    Nothing,
    /// What should take over cannot be used.
    Refused(Seq<char>),
    /// A resolved model takes over.
    Resolved,
    /// A model known by its name alone takes over.
    Named(Seq<char>),
}

/// What a provider and a clock answer about a failure.
#[derive(Debug, Clone, Copy, PartialEq, Eq, Structural)]
pub struct FailureFacts {
    /// The class that the provider gives the error.
    pub class: ErrorClass,
    /// The context window that the provider has for the fallback known by its name.
    pub fallback_context: u32,
    pub now_ms: u64,
}

/// What a request carries beside the transcript, and the transcript itself.
pub struct Surroundings {
    pub context: Seq<MessageView>,
    pub ephemeral: Seq<MessageView>,
    pub messages: Seq<MessageView>,
}

impl TurnRuntime {
    /// The resolved model that takes over after an overload: one that is not the present one.
    pub open spec fn resolved_fallback(self, config: RunConfig) -> Option<ResolvedModelRuntime> {
        if self.model_runtime is Some && config.overload_fallback_runtime is Some
            && config.overload_fallback_runtime->0.fingerprint@
            != self.model_runtime->0.fingerprint@ {
            config.overload_fallback_runtime
        } else {
            None
        }
    }

    /// The name of the model that takes over after an overload: one that is not the present one.
    pub open spec fn named_fallback(self, config: RunConfig) -> Option<Seq<char>> {
        match config.overload_fallback_model {
            Some(name) => {
                let slug = text::trim(name@);
                if slug.len() == 0 || slug == self.model@ {
                    None
                } else {
                    Some(slug)
                }
            },
            None => None,
        }
    }

    /// What becomes of the turn after an error of this class.
    pub open spec fn switch(self, config: RunConfig, class: ErrorClass, fallback_context: u32) -> Switch {
        if !(class is Overloaded) || self.overload_fallback_used {
            Switch::Nothing
        } else {
            match self.resolved_fallback(config) {
                Some(fallback) => if fallback@.fault() is Some {
                    Switch::Refused(fallback@.fault()->0.text())
                } else if budget::geometry_fault(
                    fallback.context_window,
                    fallback.max_output_tokens,
                ) is Some {
                    Switch::Refused(
                        budget::geometry_fault(
                            fallback.context_window,
                            fallback.max_output_tokens,
                        )->0,
                    )
                } else {
                    Switch::Resolved
                },
                None => match self.named_fallback(config) {
                    Some(slug) => if budget::geometry_fault(
                        fallback_context,
                        config.max_output_tokens,
                    ) is Some {
                        Switch::Refused(
                            budget::geometry_fault(
                                fallback_context,
                                config.max_output_tokens,
                            )->0,
                        )
                    } else {
                        Switch::Named(slug)
                    },
                    None => Switch::Nothing,
                },
            }
        }
    }

    /// The tokens that every request of this turn carries.
    pub open spec fn static_tokens<C: TokenCounter>(
        self,
        context: Seq<MessageView>,
        ephemeral: Seq<MessageView>,
        counter: C,
    ) -> u32 {
        tokenizer::capped_u32(
            tokenizer::capped_u32(
                budget::static_tokens(
                    text::opt_text(self.system),
                    context,
                    tool_spec::spec_views(self.tool_plan.specs@),
                    counter,
                ),
            ) + tokenizer::capped_u32(budget::transcript_tokens(ephemeral, counter)),
        ) as u32
    }

    /// What no switch of models changes.
    pub open spec fn same_attempt(self, other: TurnRuntime) -> bool {
        &&& self.overload_fallback_system == other.overload_fallback_system
        &&& self.reasoning_replay_downgraded == other.reasoning_replay_downgraded
        &&& self.credential_refresh_attempted == other.credential_refresh_attempted
        &&& self.attempt_policy == other.attempt_policy
        &&& self.attempt_ordinal == other.attempt_ordinal
    }

    /// The turn after a resolved model took over.
    pub open spec fn resolved_from<C: TokenCounter>(
        self,
        before: TurnRuntime,
        fallback: ResolvedModelRuntime,
        around: Surroundings,
        counter: C,
    ) -> bool {
        let previous = before.model_runtime->0;
        let moved = text::opt_text(previous.comp_hash) != text::opt_text(fallback.comp_hash);
        &&& self.model@ == fallback.slug@
        &&& prompt::opt_runtime(self.model_runtime) == Some(fallback@)
        &&& text::opt_text(self.reasoning_effort) == text::opt_text(fallback.reasoning_effort)
        &&& text::opt_text(self.system) == match text::opt_text(before.overload_fallback_system) {
            Some(system) => Some(system),
            None => Some(fallback.instructions@),
        }
        &&& self.parallel_tools == fallback.supports_parallel_tool_calls
        &&& self.tool_plan.wf()
        &&& self.tool_plan.parallel_allowed == fallback.supports_parallel_tool_calls
        &&& self.tool_plan.generation == before.tool_plan.generation
        &&& self.tool_plan.wire@ == before.tool_plan.wire@
        &&& tool_spec::spec_views(self.tool_plan.specs@) == tool_spec::spec_views(
            before.tool_plan.specs@,
        )
        &&& self.transition_causes@ == before.transition_causes@.push(
            ContextTransitionCause::OverloadFallback,
        ) + (if moved {
            seq![ContextTransitionCause::CompHashChanged, ContextTransitionCause::Compaction]
        } else {
            seq![]
        })
        &&& text::opt_text(self.required_profile_compaction) == (if moved {
            Some(previous.slug@)
        } else {
            text::opt_text(before.required_profile_compaction)
        })
        &&& self.reasoning_replay == (!before.reasoning_replay_downgraded
            && fallback.reasoning_replay == ReasoningReplaySupport::Enabled)
        &&& self.overload_fallback_used
        &&& self.static_input_tokens == self.static_tokens(
            around.context,
            around.ephemeral,
            counter,
        )
        &&& self.budget == (ContextBudget {
            auto_threshold: fallback.auto_compact_token_limit,
            current_input: agent::current_tokens(
                around.messages,
                self.static_input_tokens,
                counter,
            ),
            ..ContextBudget::of_model(fallback.context_window, fallback.max_output_tokens)
        })
        &&& self.same_attempt(before)
    }

    /// The turn after a model known by its name alone took over: only the name and the budget
    /// are other ones.
    pub open spec fn named_from<C: TokenCounter>(
        self,
        before: TurnRuntime,
        slug: Seq<char>,
        fallback_context: u32,
        max_output_tokens: u32,
        messages: Seq<MessageView>,
        counter: C,
    ) -> bool {
        &&& self.model@ == slug
        &&& self.budget == (ContextBudget {
            current_input: agent::current_tokens(messages, before.static_input_tokens, counter),
            ..ContextBudget::of_model(fallback_context, max_output_tokens)
        })
        &&& self.overload_fallback_used
        &&& self == (TurnRuntime {
            model: self.model,
            budget: self.budget,
            overload_fallback_used: true,
            ..before
        })
    }

    /// Estimates anew what every request carries.
    pub fn recompute_static_input<C: TokenCounter>(
        &mut self,
        context: &Vec<Message>,
        ephemeral_messages: &Vec<Message>,
        counter: &C,
    )
        ensures
            final(self).static_input_tokens == old(self).static_tokens(
                message::message_views(context@),
                message::message_views(ephemeral_messages@),
                *counter,
            ),
            *final(self) == (TurnRuntime {
                static_input_tokens: final(self).static_input_tokens,
                ..*old(self)
            }),
    {
        let fixed: u32 = budget::estimate_static_input(
            &self.system,
            context.as_slice(),
            self.tool_plan.specs.as_slice(),
            counter,
        );
        self.static_input_tokens = fixed.saturating_add(
            budget::estimate_input(ephemeral_messages.as_slice(), counter),
        );
    }

    /// Feeds the thresholds with an estimate of the present transcript.
    pub fn observe_estimated<C: TokenCounter>(&mut self, messages: &Vec<Message>, counter: &C)
        ensures
            *final(self) == (TurnRuntime {
                budget: ContextBudget {
                    current_input: agent::current_tokens(
                        message::message_views(messages@),
                        old(self).static_input_tokens,
                        *counter,
                    ),
                    ..old(self).budget
                },
                ..*old(self)
            }),
    {
        let estimated: u32 = agent::estimate_current_input(
            messages.as_slice(),
            self.static_input_tokens,
            counter,
        );
        self.budget.observe_estimated(estimated);
    }

    pub fn requires_profile_compaction(&self) -> (yes: bool)
        ensures
            yes == (self.required_profile_compaction is Some),
    {
        self.required_profile_compaction.is_some()
    }

    /// The model that writes the summary: the one that the transcript was written under.
    pub fn compaction_model(&self) -> (model: String)
        ensures
            model@ == match self.required_profile_compaction {
                Some(slug) => slug@,
                None => self.model@,
            },
    {
        match &self.required_profile_compaction {
            Some(slug) => slug.clone(),
            None => self.model.clone(),
        }
    }

    /// The model known by its name that takes over after an overload, for the provider to give
    /// its window.
    pub fn overload_fallback_slug(&self, config: &RunConfig) -> (slug: Option<String>)
        ensures
            text::opt_text(slug) == self.named_fallback(*config),
    {
        match &config.overload_fallback_model {
            Some(name) => {
                let slug = text::trim_of(name.as_str());
                let size: usize = text::byte_len_of(slug.as_str());
                proof {
                    text::lemma_byte_len_bounds(slug@);
                }
                if size == 0 || text::same_text(slug.as_str(), self.model.as_str()) {
                    None
                } else {
                    Some(slug)
                }
            },
            None => None,
        }
    }

    fn take_over<C: TokenCounter>(
        &mut self,
        fallback: ResolvedModelRuntime,
        budget: ContextBudget,
        context: &Vec<Message>,
        ephemeral_messages: &Vec<Message>,
        messages: &Vec<Message>,
        counter: &C,
    )
        requires
            old(self).model_runtime is Some,
            budget == (ContextBudget {
                auto_threshold: fallback.auto_compact_token_limit,
                ..ContextBudget::of_model(fallback.context_window, fallback.max_output_tokens)
            }),
        ensures
            final(self).resolved_from(
                *old(self),
                fallback,
                Surroundings {
                    context: message::message_views(context@),
                    ephemeral: message::message_views(ephemeral_messages@),
                    messages: message::message_views(messages@),
                },
                *counter,
            ),
    {
        let mut moved = false;
        let mut previous_slug = String::new();
        match &self.model_runtime {
            Some(previous) => {
                moved = !text::same_opt(&previous.comp_hash, &fallback.comp_hash);
                previous_slug = previous.slug.clone();
            },
            None => {},
        }
        self.model = fallback.slug.clone();
        self.reasoning_effort = text::clone_opt(&fallback.reasoning_effort);
        self.system = match &self.overload_fallback_system {
            Some(system) => Some(system.clone()),
            None => Some(fallback.instructions.clone()),
        };
        self.parallel_tools = fallback.supports_parallel_tool_calls;
        self.tool_plan = self.tool_plan.with_parallel_allowed(
            fallback.supports_parallel_tool_calls,
        );
        self.budget = budget;
        self.transition_causes.push(ContextTransitionCause::OverloadFallback);
        if moved {
            self.required_profile_compaction = Some(previous_slug);
            self.transition_causes.push(ContextTransitionCause::CompHashChanged);
            self.transition_causes.push(ContextTransitionCause::Compaction);
        }
        self.reasoning_replay = !self.reasoning_replay_downgraded && fallback.reasoning_replay
            == ReasoningReplaySupport::Enabled;
        self.model_runtime = Some(fallback);
        self.overload_fallback_used = true;
        self.recompute_static_input(context, ephemeral_messages, counter);
        self.observe_estimated(messages, counter);
        proof {
            assert(self.transition_causes@ =~= old(self).transition_causes@.push(
                ContextTransitionCause::OverloadFallback,
            ) + (if moved {
                seq![ContextTransitionCause::CompHashChanged, ContextTransitionCause::Compaction]
            } else {
                seq![]
            }));
        }
    }

    /// Lets another model take over after an overload, once in a run. `None` where nothing can;
    /// an error where what is configured cannot be used, and then nothing changes.
    pub fn switch_to_overload_fallback<C: TokenCounter>(
        &mut self,
        config: &mut RunConfig,
        facts: FailureFacts,
        context: &Vec<Message>,
        ephemeral_messages: &Vec<Message>,
        messages: &Vec<Message>,
        counter: &C,
    ) -> (switched: Option<Result<(), String>>)
        ensures
            ({
                let around = Surroundings {
                    context: message::message_views(context@),
                    ephemeral: message::message_views(ephemeral_messages@),
                    messages: message::message_views(messages@),
                };
                match old(self).switch(*old(config), facts.class, facts.fallback_context) {
                    Switch::Nothing => switched is None && *final(self) == *old(self)
                        && *final(config) == *old(config),
                    Switch::Refused(reason) => (switched matches Some(Err(message)) && message@
                        == reason) && *final(self) == *old(self) && *final(config) == *old(config),
                    Switch::Resolved => {
                        let fallback = old(self).resolved_fallback(*old(config))->0;
                        &&& switched == Some(Ok::<(), String>(()))
                        &&& final(self).resolved_from(*old(self), fallback, around, *counter)
                        &&& *final(config) == (RunConfig {
                            max_output_tokens: fallback.max_output_tokens,
                            ..*old(config)
                        })
                    },
                    Switch::Named(slug) => {
                        &&& switched == Some(Ok::<(), String>(()))
                        &&& final(self).named_from(
                            *old(self),
                            slug,
                            facts.fallback_context,
                            old(config).max_output_tokens,
                            around.messages,
                            *counter,
                        )
                        &&& *final(config) == *old(config)
                    },
                }
            }),
    {
        if !matches!(facts.class, ErrorClass::Overloaded(_)) || self.overload_fallback_used {
            return None;
        }
        let resolved: Option<ResolvedModelRuntime> = match (
            &self.model_runtime,
            &config.overload_fallback_runtime,
        ) {
            (Some(previous), Some(fallback)) => if text::same_text(
                fallback.fingerprint.as_str(),
                previous.fingerprint.as_str(),
            ) {
                None
            } else {
                Some(fallback.clone())
            },
            _ => None,
        };
        match resolved {
            Some(fallback) => {
                match fallback.validate() {
                    Ok(()) => {},
                    Err(error) => {
                        return Some(Err(error.message()));
                    },
                }
                let budget = match ContextBudget::try_for_model_with_auto_limit(
                    fallback.context_window,
                    fallback.max_output_tokens,
                    Some(fallback.auto_compact_token_limit),
                ) {
                    Ok(budget) => budget,
                    Err(error) => {
                        return Some(Err(error));
                    },
                };
                config.max_output_tokens = fallback.max_output_tokens;
                self.take_over(fallback, budget, context, ephemeral_messages, messages, counter);
                Some(Ok(()))
            },
            None => {
                let slug = match self.overload_fallback_slug(config) {
                    Some(slug) => slug,
                    None => {
                        return None;
                    },
                };
                let budget = match ContextBudget::try_for_model(
                    facts.fallback_context,
                    config.max_output_tokens,
                ) {
                    Ok(budget) => budget,
                    Err(error) => {
                        return Some(Err(error));
                    },
                };
                self.budget = budget;
                self.model = slug;
                self.overload_fallback_used = true;
                self.observe_estimated(messages, counter);
                Some(Ok(()))
            },
        }
    }

    /// What a failed sampling leads to, and its class.
    pub open spec fn failure_plan(
        self,
        error: ProviderError,
        config: RunConfig,
        facts: FailureFacts,
    ) -> (ErrorClass, ActionView) {
        let permits = self.attempt_ordinal < self.attempt_policy.max_attempts;
        let fail = |class: ErrorClass|
            ActionView::Fail(
                AgentFault::Provider(
                    FailureView { class: Some(class), ..error::failure_of(error) },
                ),
            );
        if error.of_context() {
            (
                ErrorClass::ContextLimit,
                if permits {
                    ActionView::Withhold(ContextErrorKind::PromptTooLong)
                } else {
                    fail(ErrorClass::ContextLimit)
                },
            )
        } else {
            let class = facts.class;
            (
                class,
                match class {
                    ErrorClass::Retryable | ErrorClass::RateLimited | ErrorClass::Overloaded(_) => {
                        if !permits {
                            fail(class)
                        } else {
                            match self.switch(config, class, facts.fallback_context) {
                                Switch::Refused(reason) => ActionView::Fail(
                                    AgentFault::InvalidRequest(reason),
                                ),
                                Switch::Resolved => ActionView::Retry {
                                    delay_ms: 0,
                                    fallback_model: Some(self.resolved_fallback(config)->0.slug@),
                                },
                                Switch::Named(slug) => ActionView::Retry {
                                    delay_ms: 0,
                                    fallback_model: Some(slug),
                                },
                                Switch::Nothing => ActionView::Retry {
                                    delay_ms: agent::transient_delay(
                                        self.attempt_policy,
                                        (self.attempt_ordinal - 1) as u32,
                                        class,
                                        error,
                                        facts.now_ms,
                                    ),
                                    fallback_model: None,
                                },
                            }
                        }
                    },
                    ErrorClass::ReasoningReplayRejected => if self.reasoning_replay
                        && !self.reasoning_replay_downgraded && permits {
                        ActionView::DowngradeReplay
                    } else {
                        fail(class)
                    },
                    ErrorClass::Auth(AuthError::Expired) => if self.credential_refresh_attempted
                        || !permits {
                        ActionView::Fail(AgentFault::Auth(AuthError::ReconnectRequired))
                    } else {
                        ActionView::RefreshCredentials
                    },
                    ErrorClass::Auth(auth) => ActionView::Fail(AgentFault::Auth(auth)),
                    ErrorClass::ContextLimit | ErrorClass::InvalidRequest => fail(class),
                },
            )
        }
    }

    /// The turn and the settings after the plan for a failed sampling: they change where a remedy
    /// is used up, or another model took over.
    pub open spec fn planned_from<C: TokenCounter>(
        self,
        before: TurnRuntime,
        config_before: RunConfig,
        config_after: RunConfig,
        error: ProviderError,
        facts: FailureFacts,
        around: Surroundings,
        counter: C,
    ) -> bool {
        match before.failure_plan(error, config_before, facts).1 {
            ActionView::DowngradeReplay => self == (TurnRuntime {
                reasoning_replay: false,
                reasoning_replay_downgraded: true,
                ..before
            }) && config_after == config_before,
            ActionView::RefreshCredentials => self == (TurnRuntime {
                credential_refresh_attempted: true,
                ..before
            }) && config_after == config_before,
            ActionView::Retry { fallback_model: Some(slug), .. } => if before.switch(
                config_before,
                facts.class,
                facts.fallback_context,
            ) is Resolved {
                let fallback = before.resolved_fallback(config_before)->0;
                &&& self.resolved_from(before, fallback, around, counter)
                &&& config_after == (RunConfig {
                    max_output_tokens: fallback.max_output_tokens,
                    ..config_before
                })
            } else {
                &&& self.named_from(
                    before,
                    slug,
                    facts.fallback_context,
                    config_before.max_output_tokens,
                    around.messages,
                    counter,
                )
                &&& config_after == config_before
            },
            _ => self == before && config_after == config_before,
        }
    }

    /// Decides what a failed sampling leads to. A failure to open and a failure while reading
    /// lead to the same.
    pub fn plan_failure<C: TokenCounter>(
        &mut self,
        error: &ProviderError,
        config: &mut RunConfig,
        facts: FailureFacts,
        context: &Vec<Message>,
        ephemeral_messages: &Vec<Message>,
        messages: &Vec<Message>,
        counter: &C,
    ) -> (plan: (ErrorClass, FailureAction))
        requires
            old(self).attempt_ordinal >= 1,
        ensures
            plan.0 == old(self).failure_plan(*error, *old(config), facts).0,
            plan.1@ == old(self).failure_plan(*error, *old(config), facts).1,
            final(self).planned_from(
                *old(self),
                *old(config),
                *final(config),
                *error,
                facts,
                Surroundings {
                    context: message::message_views(context@),
                    ephemeral: message::message_views(ephemeral_messages@),
                    messages: message::message_views(messages@),
                },
                *counter,
            ),
    {
        if error.is_context_error() {
            let action = if self.attempt_policy.permits_after(self.attempt_ordinal) {
                FailureAction::Withhold(ContextErrorKind::PromptTooLong)
            } else {
                FailureAction::Fail(
                    agent::classified_provider_error(ErrorClass::ContextLimit, error),
                )
            };
            return (ErrorClass::ContextLimit, action);
        }
        let class = facts.class;
        let action = match class {
            ErrorClass::Retryable | ErrorClass::RateLimited | ErrorClass::Overloaded(_) => {
                if !self.attempt_policy.permits_after(self.attempt_ordinal) {
                    return (
                        class,
                        FailureAction::Fail(agent::classified_provider_error(class, error)),
                    );
                }
                let policy = self.attempt_policy;
                let attempt: u32 = self.attempt_ordinal - 1;
                match self.switch_to_overload_fallback(
                    config,
                    facts,
                    context,
                    ephemeral_messages,
                    messages,
                    counter,
                ) {
                    Some(Err(invalid)) => FailureAction::Fail(AgentError::InvalidRequest(invalid)),
                    Some(Ok(())) => FailureAction::Retry {
                        delay_ms: 0,
                        fallback_model: Some(self.model.clone()),
                    },
                    None => FailureAction::Retry {
                        delay_ms: agent::transient_retry_delay(
                            policy,
                            attempt,
                            class,
                            error,
                            facts.now_ms,
                        ),
                        fallback_model: None,
                    },
                }
            },
            ErrorClass::ReasoningReplayRejected => {
                if self.reasoning_replay && !self.reasoning_replay_downgraded
                    && self.attempt_policy.permits_after(self.attempt_ordinal) {
                    self.reasoning_replay = false;
                    self.reasoning_replay_downgraded = true;
                    FailureAction::DowngradeReplay
                } else {
                    FailureAction::Fail(agent::classified_provider_error(class, error))
                }
            },
            ErrorClass::Auth(AuthError::Expired) => {
                if self.credential_refresh_attempted || !self.attempt_policy.permits_after(
                    self.attempt_ordinal,
                ) {
                    FailureAction::Fail(AgentError::Auth(AuthError::ReconnectRequired))
                } else {
                    self.credential_refresh_attempted = true;
                    FailureAction::RefreshCredentials
                }
            },
            ErrorClass::Auth(auth) => FailureAction::Fail(AgentError::Auth(auth)),
            ErrorClass::ContextLimit | ErrorClass::InvalidRequest => {
                FailureAction::Fail(agent::classified_provider_error(class, error))
            },
        };
        (class, action)
    }
}

/// One sampling is never opened more often than its policy allows: whatever failed, nothing but
/// an error follows the last opening.
pub proof fn law_attempts_are_bounded(
    turn: TurnRuntime,
    error: ProviderError,
    config: RunConfig,
    facts: FailureFacts,
)
    requires
        turn.attempt_ordinal >= turn.attempt_policy.max_attempts,
    ensures
        turn.failure_plan(error, config, facts).1 is Fail,
{
}

/// An error of the context is never answered by opening the same prompt again: it is held back
/// for a compaction, or ends the run.
pub proof fn law_context_errors_are_withheld(
    turn: TurnRuntime,
    error: ProviderError,
    config: RunConfig,
    facts: FailureFacts,
)
    requires
        error.of_context(),
    ensures
        ({
            let action = turn.failure_plan(error, config, facts).1;
            action is Withhold || action is Fail
        }),
{
}

/// A credential is refreshed once for a sampling, opaque reasoning is given up once in a run, and
/// another model takes over once in a run.
pub proof fn law_remedies_are_used_once(
    turn: TurnRuntime,
    error: ProviderError,
    config: RunConfig,
    facts: FailureFacts,
)
    ensures
        ({
            let action = turn.failure_plan(error, config, facts).1;
            &&& turn.credential_refresh_attempted ==> !(action is RefreshCredentials)
            &&& turn.reasoning_replay_downgraded ==> !(action is DowngradeReplay)
            &&& turn.overload_fallback_used ==> !(action matches ActionView::Retry {
                fallback_model: Some(_),
                ..
            })
        }),
{
}

/// An error that passes is tried again: with what can take over after an overload, at once, else
/// with the same model after the delay of this attempt.
pub proof fn law_passing_errors_are_tried_again(
    turn: TurnRuntime,
    error: ProviderError,
    config: RunConfig,
    facts: FailureFacts,
)
    requires
        1 <= turn.attempt_ordinal < turn.attempt_policy.max_attempts,
        !error.of_context(),
        facts.class is Retryable || facts.class is RateLimited || facts.class is Overloaded,
    ensures
        ({
            let (class, action) = turn.failure_plan(error, config, facts);
            let same = ActionView::Retry {
                delay_ms: agent::transient_delay(
                    turn.attempt_policy,
                    (turn.attempt_ordinal - 1) as u32,
                    facts.class,
                    error,
                    facts.now_ms,
                ),
                fallback_model: None,
            };
            let other = config.overload_fallback_runtime;
            let resolved = turn.model_runtime is Some && other is Some
                && other->0.fingerprint@ != turn.model_runtime->0.fingerprint@;
            let name = config.overload_fallback_model;
            let named = name is Some && text::trim(name->0@).len() > 0 && text::trim(name->0@)
                != turn.model@;
            &&& class == facts.class
            &&& !(facts.class is Overloaded) ==> action == same
            &&& turn.overload_fallback_used ==> action == same
            &&& facts.class is Overloaded && !turn.overload_fallback_used ==> {
                &&& resolved && other->0@.fault() is None && 0 < other->0.max_output_tokens
                    < other->0.context_window ==> action == (ActionView::Retry {
                    delay_ms: 0,
                    fallback_model: Some(other->0.slug@),
                })
                &&& resolved && !(other->0@.fault() is None && 0 < other->0.max_output_tokens
                    < other->0.context_window) ==> action is Fail
                &&& !resolved && named && 0 < config.max_output_tokens < facts.fallback_context
                    ==> action == (ActionView::Retry {
                    delay_ms: 0,
                    fallback_model: Some(text::trim(name->0@)),
                })
                &&& !resolved && named && !(0 < config.max_output_tokens < facts.fallback_context)
                    ==> action is Fail
                &&& !resolved && !named ==> action == same
            }
        }),
{
}

/// Every other failure has one remedy at most: a prompt that is too long is compacted, refused
/// reasoning is left out, an expired credential is refreshed; where the remedy is used up, and of
/// every error that no remedy fits, the run fails with the error and its class.
pub proof fn law_remedies_fit_the_failure(
    turn: TurnRuntime,
    error: ProviderError,
    config: RunConfig,
    facts: FailureFacts,
)
    ensures
        ({
            let (class, action) = turn.failure_plan(error, config, facts);
            let permits = turn.attempt_ordinal < turn.attempt_policy.max_attempts;
            let fails = |class: ErrorClass|
                action == ActionView::Fail(
                    AgentFault::Provider(
                        FailureView { class: Some(class), ..error::failure_of(error) },
                    ),
                );
            &&& error.of_context() ==> class == ErrorClass::ContextLimit && (permits ==> action
                == ActionView::Withhold(ContextErrorKind::PromptTooLong)) && (!permits ==> fails(
                ErrorClass::ContextLimit,
            ))
            &&& !error.of_context() ==> class == facts.class
            &&& action == ActionView::DowngradeReplay <==> !error.of_context() && facts.class
                == ErrorClass::ReasoningReplayRejected && permits && turn.reasoning_replay
                && !turn.reasoning_replay_downgraded
            &&& action == ActionView::RefreshCredentials <==> !error.of_context() && facts.class
                == ErrorClass::Auth(AuthError::Expired) && permits
                && !turn.credential_refresh_attempted
            &&& !error.of_context() && facts.class == ErrorClass::Auth(AuthError::Expired)
                && action is Fail ==> action == ActionView::Fail(
                AgentFault::Auth(AuthError::ReconnectRequired),
            )
            &&& !error.of_context() && facts.class is Auth && facts.class != ErrorClass::Auth(
                AuthError::Expired,
            ) ==> action == ActionView::Fail(AgentFault::Auth(facts.class->Auth_0))
            &&& !error.of_context() && (facts.class == ErrorClass::ContextLimit || facts.class
                == ErrorClass::InvalidRequest) ==> fails(facts.class)
            &&& !error.of_context() && !permits && !(facts.class is Auth) ==> fails(facts.class)
        }),
{
}

/// What every request carries is never counted short: instructions, context, tools and what is
/// shown for one request alone, all together.
pub proof fn law_static_tokens_count_all<C: TokenCounter>(
    turn: TurnRuntime,
    context: Seq<MessageView>,
    ephemeral: Seq<MessageView>,
    counter: C,
)
    ensures
        ({
            let fixed = budget::static_tokens(
                text::opt_text(turn.system),
                context,
                tool_spec::spec_views(turn.tool_plan.specs@),
                counter,
            );
            let more = budget::transcript_tokens(ephemeral, counter);
            let tokens = turn.static_tokens(context, ephemeral, counter);
            &&& fixed + more <= u32::MAX ==> tokens == fixed + more
            &&& fixed + more > u32::MAX ==> tokens == u32::MAX
        }),
{
}

/// A resolved model that takes over brings its own name, effort, window, limits and modes; the
/// instructions are those for a fallback where there are any, else its own. The tools and the
/// attempts of the sampling stay, the input is estimated anew, and the change is a cause of the next
/// transition. Where its compaction profile is another one, the transcript is first compacted under
/// the model that it was written for.
pub proof fn law_resolved_models_take_over<C: TokenCounter>(
    after: TurnRuntime,
    before: TurnRuntime,
    fallback: ResolvedModelRuntime,
    around: Surroundings,
    counter: C,
)
    requires
        after.resolved_from(before, fallback, around, counter),
    ensures
        ({
            let previous = before.model_runtime->0;
            let moved = text::opt_text(previous.comp_hash) != text::opt_text(fallback.comp_hash);
            &&& after.model@ == fallback.slug@
            &&& text::opt_text(after.reasoning_effort) == text::opt_text(fallback.reasoning_effort)
            &&& before.overload_fallback_system matches Some(system) ==> text::opt_text(
                after.system,
            ) == Some(system@)
            &&& before.overload_fallback_system is None ==> text::opt_text(after.system) == Some(
                fallback.instructions@,
            )
            &&& after.parallel_tools == fallback.supports_parallel_tool_calls
            &&& after.tool_plan.wire@ == before.tool_plan.wire@ && after.tool_plan.generation
                == before.tool_plan.generation
            &&& after.budget.max_context == fallback.context_window
                && after.budget.output_reserve == fallback.max_output_tokens
                && after.budget.auto_threshold == fallback.auto_compact_token_limit
                && after.budget.prefill_input == 0
            &&& after.budget.current_input == agent::current_tokens(
                around.messages,
                after.static_input_tokens,
                counter,
            )
            &&& after.reasoning_replay ==> fallback.reasoning_replay
                == ReasoningReplaySupport::Enabled && !before.reasoning_replay_downgraded
            &&& after.overload_fallback_used
            &&& after.attempt_ordinal == before.attempt_ordinal && after.attempt_policy
                == before.attempt_policy && after.credential_refresh_attempted
                == before.credential_refresh_attempted
            &&& after.transition_causes@.contains(ContextTransitionCause::OverloadFallback)
            &&& before.transition_causes@.is_prefix_of(after.transition_causes@)
            &&& moved ==> text::opt_text(after.required_profile_compaction) == Some(previous.slug@)
                && after.transition_causes@.contains(ContextTransitionCause::CompHashChanged)
            &&& !moved ==> text::opt_text(after.required_profile_compaction) == text::opt_text(
                before.required_profile_compaction,
            )
        }),
{
    let n = before.transition_causes@.len() as int;
    assert(after.transition_causes@[n] == ContextTransitionCause::OverloadFallback);
    if text::opt_text(before.model_runtime->0.comp_hash) != text::opt_text(fallback.comp_hash) {
        assert(after.transition_causes@[n + 1] == ContextTransitionCause::CompHashChanged);
    }
}

/// A model known by its name alone that takes over changes the name and the window, and nothing
/// else of the turn.
pub proof fn law_named_models_take_over<C: TokenCounter>(
    after: TurnRuntime,
    before: TurnRuntime,
    slug: Seq<char>,
    fallback_context: u32,
    max_output_tokens: u32,
    messages: Seq<MessageView>,
    counter: C,
)
    requires
        after.named_from(before, slug, fallback_context, max_output_tokens, messages, counter),
    ensures
        after.model@ == slug,
        after.budget.max_context == fallback_context && after.budget.output_reserve
            == max_output_tokens,
        after.budget.current_input == agent::current_tokens(
            messages,
            before.static_input_tokens,
            counter,
        ),
        after.overload_fallback_used,
        after.system == before.system && after.tool_plan == before.tool_plan,
        after.model_runtime == before.model_runtime && after.attempt_ordinal
            == before.attempt_ordinal,
        after.reasoning_replay == before.reasoning_replay && after.transition_causes
            == before.transition_causes,
{
}

/// A plan changes the turn only where a remedy is used up or another model takes over; then the
/// output is limited as the resolved model is.
pub proof fn law_plans_change_what_they_use<C: TokenCounter>(
    after: TurnRuntime,
    before: TurnRuntime,
    config_before: RunConfig,
    config_after: RunConfig,
    error: ProviderError,
    facts: FailureFacts,
    around: Surroundings,
    counter: C,
)
    requires
        after.planned_from(before, config_before, config_after, error, facts, around, counter),
    ensures
        ({
            let action = before.failure_plan(error, config_before, facts).1;
            &&& action is DowngradeReplay ==> !after.reasoning_replay
                && after.reasoning_replay_downgraded && after.model == before.model
            &&& action is RefreshCredentials ==> after.credential_refresh_attempted && after.model
                == before.model
            &&& action is Withhold || action is Fail ==> after == before
            &&& action matches ActionView::Retry { fallback_model: None, .. } ==> after == before
            &&& config_after.max_output_tokens != config_before.max_output_tokens ==> action is Retry
                && action->fallback_model == Some(after.model@) && config_after.max_output_tokens
                == config_before.overload_fallback_runtime->0.max_output_tokens
        }),
{
}

} // verus!
