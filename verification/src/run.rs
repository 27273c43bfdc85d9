//! The state of a run and every decision of its loop. Whatever waits, reads or writes stays
//! outside: it hands in what came back and performs what is decided here.
use crate::agent;
use crate::agent::{AgentContext, AttemptContext, ResolvedAttemptPolicy, RunConfig};
use crate::budget;
use crate::budget::ContextBudget;
use crate::compaction;
use crate::compaction::{CompactKind, CompactionState};
use crate::error;
use crate::error::{AgentError, AgentFault};
use crate::event::{
    AgentEvent, InterruptReason, InterruptedView, ModelTurnView, ToolResultView,
};
use crate::guardrail;
use crate::guardrail::{
    LoopDecision, LoopGuard, LoopRegister, LoopRun, UsageBudget, LOOP_GUARD_THRESHOLDS,
};
use crate::message;
use crate::message::{
    BlockView, Message, MessageView, Role, ToolCallId, ToolErrorKind,
};
use crate::model::ReasoningReplaySupport;
use crate::prompt;
use crate::prompt::{
    ContextBaseline, ContextTransition, ContextTransitionCause, EncodedMessage, EncodedView,
    PromptSnapshot, PromptSource,
};
use crate::provider::{ErrorClass, ProviderError, StreamEvent, TokenUsage};
use crate::request;
use crate::request::{
    CanonicalRequest, CanonicalRequestValidationError, TURN_ID_METADATA_KEY,
};
use crate::step::{ContextFragmentKind, StepFrame};
use crate::text;
use crate::tokenizer;
use crate::tokenizer::TokenCounter;
use crate::tool_spec;
use crate::tools;
use crate::tools::{
    InvocationView, ModelToolResult, StepToolPlan, ToolDispatchSnapshot, ToolInvocation,
    ToolResultStatus,
};
use crate::transition;
use crate::transition::{
    Accumulator, AccumulatorView, ExhaustReason, PendingError, Transition, TransitionView,
};
use crate::turn::{ActionView, FailureAction, FailureFacts, Surroundings, TurnRuntime};
use vstd::prelude::*;
use vstd::string::*;

verus! {

/// Everything that a run carries from one lap of its loop to the next.
#[derive(Debug, PartialEq, Eq)]
pub struct RunState {
    pub turn_id: Option<String>,
    pub config: RunConfig,
    pub turn: TurnRuntime,
    pub messages: Vec<Message>,
    pub context: Vec<Message>,
    pub context_kinds: Vec<ContextFragmentKind>,
    pub ephemeral: Vec<Message>,
    pub context_baseline: Option<ContextBaseline>,
    /// The generation of the step frame that is in place.
    pub step_generation: Option<u64>,
    pub compaction: CompactionState,
    /// A context error that is held back.
    pub pending: Option<PendingError>,
    pub model_turns: u32,
    /// The sum of the usages that the backend reported.
    pub run_usage: TokenUsage,
    pub started_ms: u64,
    /// A stop that a refused tool asked for, taken at the next lap.
    pub pending_abort: Option<InterruptReason>,
    pub loop_guard: LoopGuard,
    pub usage_budget: UsageBudget,
    /// Compact before the next sampling.
    pub force_compact: bool,
    /// What the last prompt left out, as lines for a log.
    pub omissions: Vec<String>,
}

/// What a sampling has brought so far.
#[derive(Debug, PartialEq, Eq)]
pub struct Sampling {
    pub accumulator: Accumulator,
    pub last_usage: Option<TokenUsage>,
    pub estimated_input: Option<u32>,
}

impl Sampling {
    /// Nothing has come yet.
    pub open spec fn fresh(self) -> bool {
        &&& self.accumulator@ == AccumulatorView::empty()
        &&& self.last_usage is None
        &&& self.estimated_input is None
    }

    pub fn new() -> (sampling: Sampling)
        ensures
            sampling.fresh(),
    {
        Sampling { accumulator: Accumulator::new(), last_usage: None, estimated_input: None }
    }
}

/// What follows a complete sampling.
#[derive(Debug, PartialEq, Eq)]
pub struct Settled {
    /// What clients are told of the round-trip.
    pub turn: ModelTurnView,
    /// Whether what was shown of the sampling is void.
    pub reset: bool,
    pub transition: Transition,
}

/// What becomes of a batch of tool calls.
#[derive(Debug, PartialEq, Eq)]
pub enum ToolStep {
    /// The run ends.
    Abort(ExhaustReason),
    /// The batch does not run; these results stand in the transcript.
    Signal(Vec<ModelToolResult>),
    Proceed,
}

/// Why a run cannot start.
pub open spec fn start_fault(context: AgentContext, provider_context: u32) -> Option<Seq<char>> {
    match context.model_runtime {
        Some(runtime) => if runtime@.fault() is Some {
            Some(runtime@.fault()->0.text())
        } else {
            budget::geometry_fault(runtime.context_window, runtime.max_output_tokens)
        },
        None => budget::geometry_fault(provider_context, context.config.max_output_tokens),
    }
}

/// The settings that a run starts with: those of its model, where it is resolved.
pub open spec fn start_config(context: AgentContext) -> RunConfig {
    match context.model_runtime {
        Some(runtime) => RunConfig {
            max_output_tokens: runtime.max_output_tokens,
            overload_fallback_model: None,
            ..context.config
        },
        None => context.config,
    }
}

/// Whether the transcript was written under another compaction profile.
pub open spec fn profile_moved(context: AgentContext, baseline: Option<ContextBaseline>) -> bool {
    baseline is Some && context.model_runtime is Some && text::opt_text(baseline->0.comp_hash)
        != text::opt_text(context.model_runtime->0.comp_hash)
}

impl RunState {
    /// What holds of every state of a run.
    pub open spec fn wf(self) -> bool {
        &&& self.turn.attempt_ordinal >= 1
        &&& guardrail::valid_ladder(self.loop_guard.thresholds@)
    }

    pub open spec fn views(self) -> Seq<MessageView> {
        message::message_views(self.messages@)
    }

    pub open spec fn around(self) -> Surroundings {
        Surroundings {
            context: message::message_views(self.context@),
            ephemeral: message::message_views(self.ephemeral@),
            messages: self.views(),
        }
    }

    /// The turn that a run starts with.
    pub open spec fn turn_started<C: TokenCounter>(
        self,
        context: AgentContext,
        tools_wire: Seq<char>,
        provider_context: u32,
        baseline: Option<ContextBaseline>,
        counter: C,
    ) -> bool {
        let turn = self.turn;
        let runtime = context.model_runtime;
        let parallel = runtime is None || runtime->0.supports_parallel_tool_calls;
        let window = match runtime {
            Some(resolved) => resolved.context_window,
            None => provider_context,
        };
        let fresh = ContextBudget::of_model(window, start_config(context).max_output_tokens);
        &&& turn.model@ == (match runtime {
            Some(resolved) => resolved.slug@,
            None => context.model@,
        })
        &&& turn.model_runtime == runtime
        &&& text::opt_text(turn.reasoning_effort) == (match runtime {
            Some(resolved) => text::opt_text(resolved.reasoning_effort),
            None => text::opt_text(context.reasoning_effort),
        })
        &&& text::opt_text(turn.system) == (match text::opt_text(context.system) {
            Some(system) => Some(system),
            None => match runtime {
                Some(resolved) => Some(resolved.instructions@),
                None => None,
            },
        })
        &&& turn.overload_fallback_system == context.overload_fallback_system
        &&& turn.parallel_tools == parallel
        &&& turn.tool_plan.wf()
        &&& turn.tool_plan.generation == 0
        &&& turn.tool_plan.specs == context.tools
        &&& turn.tool_plan.wire@ == tools_wire
        &&& turn.tool_plan.parallel_allowed == parallel
        &&& turn.budget == (match runtime {
            Some(resolved) => ContextBudget {
                auto_threshold: resolved.auto_compact_token_limit,
                ..fresh
            },
            None => fresh,
        })
        &&& turn.static_input_tokens == turn.static_tokens(
            message::message_views(context.context_messages@),
            message::message_views(context.ephemeral_messages@),
            counter,
        )
        &&& turn.reasoning_replay == (runtime is Some && runtime->0.reasoning_replay
            == ReasoningReplaySupport::Enabled)
        &&& !turn.reasoning_replay_downgraded
        &&& !turn.overload_fallback_used
        &&& !turn.credential_refresh_attempted
        &&& turn.attempt_policy == ResolvedAttemptPolicy::resolved(
            context.config.max_retries,
            context.config.backoff_base_ms,
            runtime,
        )
        &&& turn.attempt_ordinal == 1
        &&& text::opt_text(turn.required_profile_compaction) == (if profile_moved(
            context,
            baseline,
        ) {
            Some(baseline->0.model_slug@)
        } else {
            None
        })
        &&& turn.transition_causes@ == (if profile_moved(context, baseline) {
            seq![ContextTransitionCause::CompHashChanged, ContextTransitionCause::Compaction]
        } else {
            seq![]
        })
    }

    /// The rest of the state that a run starts with.
    pub open spec fn fresh(
        self,
        context: AgentContext,
        baseline: Option<ContextBaseline>,
        now_ms: u64,
    ) -> bool {
        &&& self.turn_id == context.turn_id
        &&& self.config == start_config(context)
        &&& self.messages == context.messages
        &&& self.context == context.context_messages
        &&& self.context_kinds@ == Seq::new(
            context.context_messages@.len(),
            |i: int| ContextFragmentKind::Project,
        )
        &&& self.ephemeral == context.ephemeral_messages
        &&& self.context_baseline == baseline
        &&& self.step_generation is None
        &&& self.omissions@.len() == 0
        &&& self.compaction == (CompactionState { consecutive_failures: 0 })
        &&& self.pending is None
        &&& self.model_turns == 0
        &&& self.run_usage == TokenUsage::new_spec(0, 0)
        &&& self.started_ms == now_ms
        &&& self.pending_abort is None
        &&& self.loop_guard.run() == (LoopRun { signature: None, count: 0 })
        &&& self.loop_guard.thresholds == LOOP_GUARD_THRESHOLDS
        &&& self.usage_budget == (UsageBudget {
            token_limit: context.config.token_budget,
            cost: context.config.cost_budget,
            spent_input: 0,
            spent_output: 0,
        })
        &&& !self.force_compact
    }

    /// Starts a run. `provider_context` is the window that the provider has for the model, and
    /// `tools_wire` the JSON array of the tools.
    pub fn start<C: TokenCounter>(
        context: AgentContext,
        tools_wire: String,
        provider_context: u32,
        baseline: Option<ContextBaseline>,
        now_ms: u64,
        counter: &C,
    ) -> (started: Result<RunState, AgentError>)
        ensures
            match start_fault(context, provider_context) {
                Some(reason) => started matches Err(e) && e@ == AgentFault::InvalidRequest(reason),
                None => started matches Ok(state) && state.wf() && state.fresh(
                    context,
                    baseline,
                    now_ms,
                ) && state.turn_started(
                    context,
                    tools_wire@,
                    provider_context,
                    baseline,
                    *counter,
                ),
            },
    {
        let ghost given = context;
        let AgentContext {
            turn_id,
            model,
            model_runtime,
            reasoning_effort,
            system,
            overload_fallback_system,
            messages,
            tools,
            config,
            context_messages,
            ephemeral_messages,
        } = context;
        let mut model = model;
        let mut reasoning_effort = reasoning_effort;
        let mut system = system;
        let mut config = config;
        let mut window: u32 = provider_context;
        let mut auto_limit: Option<u32> = None;
        let mut parallel_tools = true;
        match &model_runtime {
            Some(runtime) => {
                match runtime.validate() {
                    Ok(()) => {},
                    Err(error) => {
                        return Err(AgentError::InvalidRequest(error.message()));
                    },
                }
                model = runtime.slug.clone();
                reasoning_effort = text::clone_opt(&runtime.reasoning_effort);
                if system.is_none() {
                    system = Some(runtime.instructions.clone());
                }
                config.max_output_tokens = runtime.max_output_tokens;
                config.overload_fallback_model = None;
                window = runtime.context_window;
                auto_limit = Some(runtime.auto_compact_token_limit);
                parallel_tools = runtime.supports_parallel_tool_calls;
            },
            None => {},
        }
        let tool_plan = StepToolPlan::capture(
            ToolDispatchSnapshot::new(0, tools, tools_wire),
            parallel_tools,
        );
        let budget = match ContextBudget::try_for_model_with_auto_limit(
            window,
            config.max_output_tokens,
            auto_limit,
        ) {
            Ok(budget) => budget,
            Err(reason) => {
                return Err(AgentError::InvalidRequest(reason));
            },
        };
        let mut required_profile_compaction: Option<String> = None;
        let mut transition_causes: Vec<ContextTransitionCause> = Vec::new();
        match (&baseline, &model_runtime) {
            (Some(previous), Some(runtime)) => {
                if !text::same_opt(&previous.comp_hash, &runtime.comp_hash) {
                    required_profile_compaction = Some(previous.model_slug.clone());
                    transition_causes.push(ContextTransitionCause::CompHashChanged);
                    transition_causes.push(ContextTransitionCause::Compaction);
                }
            },
            _ => {},
        }
        assert(transition_causes@ =~= (if profile_moved(given, baseline) {
            seq![ContextTransitionCause::CompHashChanged, ContextTransitionCause::Compaction]
        } else {
            seq![]
        }));
        let mut turn = TurnRuntime {
            attempt_policy: ResolvedAttemptPolicy::resolve(&config, &model_runtime),
            attempt_ordinal: 1,
            reasoning_replay: match &model_runtime {
                Some(runtime) => prompt::replay_enabled(Some(runtime)),
                None => false,
            },
            reasoning_replay_downgraded: false,
            overload_fallback_used: false,
            credential_refresh_attempted: false,
            model,
            model_runtime,
            reasoning_effort,
            system,
            overload_fallback_system,
            parallel_tools,
            tool_plan,
            budget,
            static_input_tokens: 0,
            required_profile_compaction,
            transition_causes,
        };
        turn.recompute_static_input(&context_messages, &ephemeral_messages, counter);
        let context_kinds = project_kinds(context_messages.len());
        let usage_budget = UsageBudget::new(config.token_budget, config.cost_budget);
        Ok(
            RunState {
                turn_id,
                config,
                turn,
                messages,
                context: context_messages,
                context_kinds,
                ephemeral: ephemeral_messages,
                context_baseline: baseline,
                step_generation: None,
                compaction: CompactionState::default(),
                pending: None,
                model_turns: 0,
                run_usage: TokenUsage::default(),
                started_ms: now_ms,
                pending_abort: None,
                loop_guard: LoopGuard::new(LOOP_GUARD_THRESHOLDS),
                usage_budget,
                force_compact: false,
                omissions: Vec::new(),
            },
        )
    }

    // ------------------------------------------------------------ the head of a lap

    /// What a lap begins with; `None` means a sampling.
    pub open spec fn head_decision(self, cancelled: bool) -> Option<TransitionView> {
        let reached = self.usage_budget.reached(
            self.usage_budget.tokens(),
            self.usage_budget.spent_cost(),
        );
        if reached is Some {
            Some(TransitionView::Exhausted(reached->0))
        } else if cancelled {
            Some(TransitionView::Interrupted(InterruptReason::Cancelled))
        } else if self.pending_abort is Some {
            Some(TransitionView::Interrupted(self.pending_abort->0))
        } else if self.pending is Some {
            Some(TransitionView::Recover(self.pending->0))
        } else if self.turn.required_profile_compaction is Some || self.force_compact
            || self.turn.budget.growth(self.turn.budget.current_input)
            >= self.turn.budget.auto_threshold {
            Some(TransitionView::Compact(CompactKind::Auto))
        } else {
            None
        }
    }

    /// What a lap begins with, and what that changes.
    pub open spec fn heads(
        self,
        cancelled: bool,
        decision: Option<Transition>,
        after: RunState,
    ) -> bool {
        let decided = self.head_decision(cancelled);
        &&& match decided {
            Some(view) => decision is Some && decision->0@ == view,
            None => decision is None,
        }
        &&& after == (RunState {
            pending_abort: if decided is Some && decided->0 is Interrupted && !cancelled {
                None
            } else {
                self.pending_abort
            },
            pending: if decided is Some && decided->0 is Recover {
                None
            } else {
                self.pending
            },
            force_compact: if decided is Some && decided->0 is Compact
                && self.turn.required_profile_compaction is None {
                false
            } else {
                self.force_compact
            },
            ..self
        })
    }

    /// Decides what a lap begins with. A budget that is used up comes first, then a stop, then an
    /// error that was held back, then compaction.
    pub fn head(&mut self, cancelled: bool) -> (decision: Option<Transition>)
        ensures
            old(self).heads(cancelled, decision, *final(self)),
    {
        match self.usage_budget.exceeded() {
            Some(reason) => {
                return Some(Transition::Exhausted(reason));
            },
            None => {},
        }
        if cancelled {
            return Some(Transition::Interrupted(InterruptReason::Cancelled));
        }
        match self.pending_abort {
            Some(reason) => {
                self.pending_abort = None;
                return Some(Transition::Interrupted(reason));
            },
            None => {},
        }
        if self.turn.requires_profile_compaction() && self.pending.is_none() {
            return Some(Transition::Compact(CompactKind::Auto));
        }
        if self.force_compact && self.pending.is_none() {
            self.force_compact = false;
            return Some(Transition::Compact(CompactKind::Auto));
        }
        let decision = transition::pre_stream_transition(
            self.pending,
            self.turn.budget.should_autocompact(),
        );
        if decision.is_some() {
            self.pending = None;
        }
        decision
    }

    // ------------------------------------------------------------ before a sampling

    /// How inputs of the user enter a run.
    pub open spec fn takes_inputs(
        self,
        inputs: Vec<Message>,
        after: RunState,
    ) -> bool {
        &&& after.messages@ == self.messages@ + inputs@
        &&& after.loop_guard.run() == (if inputs@.len() > 0 {
            LoopRun { signature: None, count: 0 }
        } else {
            self.loop_guard.run()
        })
        &&& after.loop_guard.thresholds == self.loop_guard.thresholds
        &&& after == (RunState {
            messages: after.messages,
            loop_guard: after.loop_guard,
            ..self
        })
    }

    /// Puts accepted inputs of the user behind the transcript, at the one safe point. An input of
    /// the user breaks a run of repeated calls.
    pub fn take_inputs(&mut self, inputs: Vec<Message>)
        ensures
            old(self).takes_inputs(inputs, *final(self)),
    {
        if inputs.len() > 0 {
            self.loop_guard.reset();
        }
        let mut inputs = inputs;
        self.messages.append(&mut inputs);
    }

    /// Whether a frame differs from the one in place.
    pub open spec fn moves_to(self, frame: StepFrame) -> bool {
        self.step_generation != Some(frame.generation)
    }

    /// How a step frame is put in place.
    pub open spec fn installs<C: TokenCounter>(
        self,
        frame: StepFrame,
        kinds: Vec<ContextFragmentKind>,
        dispatch: Option<ToolDispatchSnapshot>,
        counter: C,
        installed: Result<bool, AgentError>,
        after: RunState,
    ) -> bool {
        if !self.moves_to(frame) {
            installed == Ok::<bool, AgentError>(false) && after == self
        } else if dispatch is None && frame.tools@.len() > 0 {
            &&& installed matches Err(e) && e@ == AgentFault::InvalidRequest(
                "tool-bearing step is missing its frozen dispatch snapshot"@,
            )
            &&& after == (RunState {
                step_generation: Some(frame.generation),
                ..self
            })
        } else {
            &&& installed == Ok::<bool, AgentError>(true)
            &&& after.step_generation == Some(frame.generation)
            &&& after.context == frame.context_messages
            &&& after.context_kinds == kinds
            &&& after.turn.tool_plan.wf()
            &&& after.turn.tool_plan.parallel_allowed == self.turn.parallel_tools
            &&& match dispatch {
                Some(snapshot) => after.turn.tool_plan.generation == snapshot.generation
                    && after.turn.tool_plan.specs == snapshot.specs && after.turn.tool_plan.wire
                    == snapshot.wire,
                None => after.turn.tool_plan.generation == frame.generation
                    && after.turn.tool_plan.specs@.len() == 0 && after.turn.tool_plan.wire@
                    == "[]"@,
            }
            &&& after.turn.static_input_tokens == after.turn.static_tokens(
                message::message_views(frame.context_messages@),
                message::message_views(self.ephemeral@),
                counter,
            )
            &&& after.turn.budget == (ContextBudget {
                current_input: agent::current_tokens(
                    self.views(),
                    after.turn.static_input_tokens,
                    counter,
                ),
                ..self.turn.budget
            })
            &&& after == (RunState {
                step_generation: after.step_generation,
                context: after.context,
                context_kinds: after.context_kinds,
                turn: TurnRuntime {
                    tool_plan: after.turn.tool_plan,
                    static_input_tokens: after.turn.static_input_tokens,
                    budget: after.turn.budget,
                    ..self.turn
                },
                ..self
            })
        }
    }

    /// Puts a step frame in place. A frame of the generation in place changes nothing. A frame
    /// with tools needs the registry read that they come from.
    pub fn install_frame<C: TokenCounter>(
        &mut self,
        frame: StepFrame,
        kinds: Vec<ContextFragmentKind>,
        dispatch: Option<ToolDispatchSnapshot>,
        counter: &C,
    ) -> (installed: Result<bool, AgentError>)
        ensures
            old(self).installs(frame, kinds, dispatch, *counter, installed, *final(self)),
    {
        let same = match self.step_generation {
            Some(generation) => generation == frame.generation,
            None => false,
        };
        if same {
            return Ok(false);
        }
        self.step_generation = Some(frame.generation);
        let snapshot = match dispatch {
            Some(snapshot) => snapshot,
            None => {
                if frame.tools.len() > 0 {
                    return Err(
                        AgentError::InvalidRequest(
                            "tool-bearing step is missing its frozen dispatch snapshot".to_owned(),
                        ),
                    );
                }
                ToolDispatchSnapshot::new(frame.generation, Vec::new(), "[]".to_owned())
            },
        };
        self.turn.tool_plan = StepToolPlan::capture(snapshot, self.turn.parallel_tools);
        self.context = frame.context_messages;
        self.context_kinds = kinds;
        self.turn.recompute_static_input(&self.context, &self.ephemeral, counter);
        self.turn.observe_estimated(&self.messages, counter);
        Ok(true)
    }

    /// How light pressure is relieved.
    pub open spec fn relieves<C: TokenCounter>(
        self,
        counter: C,
        pruned: bool,
        after: RunState,
    ) -> bool {
        let before = self.views();
        let keep = self.config.micro_keep_recent as nat;
        let pressed = self.turn.budget.growth(self.turn.budget.current_input)
            >= self.turn.budget.micro_threshold;
        &&& pruned == (pressed && compaction::pruned_count(
            before,
            keep,
            before.len(),
        ) > 0)
        &&& if pressed {
            after.views() == compaction::microcompacted(before, keep)
        } else {
            after.messages == self.messages
        }
        &&& after == (RunState {
            messages: after.messages,
            compaction: if pruned {
                CompactionState { consecutive_failures: 0 }
            } else {
                self.compaction
            },
            turn: if pruned {
                TurnRuntime {
                    budget: ContextBudget {
                        current_input: agent::current_tokens(
                            after.views(),
                            self.turn.static_input_tokens,
                            counter,
                        ),
                        ..self.turn.budget
                    },
                    ..self.turn
                }
            } else {
                self.turn
            },
            ..self
        })
    }

    /// Prunes old tool results under light pressure; tells whether something changed.
    pub fn relieve<C: TokenCounter>(&mut self, counter: &C) -> (pruned: bool)
        ensures
            old(self).relieves(*counter, pruned, *final(self)),
    {
        if !self.turn.budget.should_microcompact() {
            return false;
        }
        let changed: usize = compaction::microcompact(
            &mut self.messages,
            self.config.micro_keep_recent,
        );
        if changed > 0 {
            self.compaction.record_success();
            self.turn.observe_estimated(&self.messages, counter);
            true
        } else {
            false
        }
    }

    /// Whether the model has changed since the last baseline.
    pub open spec fn switched_model(self) -> bool {
        self.context_baseline is Some && self.turn.model_runtime is Some
            && self.context_baseline->0.profile_fingerprint@
            != self.turn.model_runtime->0.fingerprint@
    }

    /// The baseline from before a change of model.
    pub fn model_switch_from(&self) -> (baseline: Option<&ContextBaseline>)
        ensures
            match baseline {
                Some(previous) => self.switched_model() && self.context_baseline == Some(*previous),
                None => !self.switched_model(),
            },
    {
        match (&self.context_baseline, &self.turn.model_runtime) {
            (Some(previous), Some(runtime)) => if text::same_text(
                previous.profile_fingerprint.as_str(),
                runtime.fingerprint.as_str(),
            ) {
                None
            } else {
                Some(previous)
            },
            _ => None,
        }
    }

    /// How the reasoning of another model is forgotten.
    pub open spec fn forgets(
        self,
        forgotten: bool,
        after: RunState,
    ) -> bool {
        &&& forgotten == (self.switched_model() && exists|i: int|
            0 <= i < self.messages@.len() && agent::holds_reasoning(
                (#[trigger] self.messages@[i])@,
            ))
        &&& (if self.switched_model() {
            after.views() == self.views().map_values(
                |message: MessageView| agent::without_reasoning(message),
            )
        } else {
            after.messages == self.messages
        })
        &&& after == (RunState { messages: after.messages, ..self })
    }

    /// After a change of model, takes the opaque reasoning of the old one out of the transcript;
    /// tells whether there was some, which the session then has to forget too.
    pub fn forget_reasoning(&mut self) -> (forgotten: bool)
        ensures
            old(self).forgets(forgotten, *final(self)),
    {
        if self.model_switch_from().is_none() {
            return false;
        }
        agent::invalidate_reasoning(&mut self.messages)
    }

    /// How a sampling is opened.
    pub open spec fn opens<C: TokenCounter>(
        self,
        snapshot: PromptSnapshot,
        counter: C,
        opened: Result<Option<ContextTransition>, ExhaustReason>,
        after: RunState,
    ) -> bool {
        let tokens = after.turn.static_input_tokens;
        let estimate = agent::current_tokens(self.views(), tokens, counter);
        let budget = self.usage_budget;
        let active = budget.token_limit is Some || budget.cost is Some;
        let exceeded = budget.reached(
            guardrail::capped(
                budget.tokens() + estimate + self.config.max_output_tokens,
            ),
            budget.projected_cost(
                estimate as u64,
                self.config.max_output_tokens as u64,
            ),
        );
        let before = prompt::opt_baseline(self.context_baseline);
        &&& tokens == tokenizer::capped_u32(
            tokenizer::capped_u32(
                budget::static_tokens(
                    text::opt_text(snapshot.system),
                    message::message_views(snapshot.context_messages@),
                    tool_spec::spec_views(snapshot.tool_plan.specs@),
                    counter,
                ),
            ) + tokenizer::capped_u32(
                budget::transcript_tokens(
                    message::message_views(snapshot.ephemeral_messages@),
                    counter,
                ),
            ),
        )
        &&& text::texts(after.omissions@) == text::texts(snapshot.diagnostics@)
        &&& if active && exceeded is Some {
            &&& opened == Err::<Option<ContextTransition>, ExhaustReason>(exceeded->0)
            &&& after == (RunState {
                turn: TurnRuntime { static_input_tokens: tokens, ..self.turn },
                omissions: after.omissions,
                ..self
            })
        } else {
            &&& if before == Some(snapshot.baseline@) && self.turn.transition_causes@.len() == 0 {
                opened == Ok::<Option<ContextTransition>, ExhaustReason>(None) && after.context_baseline == self.context_baseline
            } else {
                &&& opened matches Ok(Some(moved)) && prompt::opt_baseline(moved.from)
                    == before && moved.to@ == snapshot.baseline@ && moved.causes@
                    == prompt::causes_of(
                    before,
                    snapshot.baseline@,
                    self.turn.transition_causes@,
                )
                &&& prompt::opt_baseline(after.context_baseline) == Some(
                    snapshot.baseline@,
                )
            }
            &&& after.turn.transition_causes@.len() == 0
            &&& after == (RunState {
                context_baseline: after.context_baseline,
                turn: TurnRuntime {
                    static_input_tokens: tokens,
                    budget: ContextBudget { usage_seen: false, ..self.turn.budget },
                    transition_causes: after.turn.transition_causes,
                    ..self.turn
                },
                omissions: after.omissions,
                ..self
            })
        }
    }

    /// What the prompt of the next sampling is made of.
    pub open spec fn gathers(
        self,
        context: Seq<Seq<char>>,
        messages: Seq<Seq<char>>,
        ephemeral: Seq<Seq<char>>,
        source: PromptSource,
    ) -> bool {
        let around = self.around();
        &&& prompt::opt_runtime(source.model_runtime) == prompt::opt_runtime(
            self.turn.model_runtime,
        )
        &&& source == (PromptSource {
            model: self.turn.model@,
            model_runtime: source.model_runtime,
            reasoning_effort: text::opt_text(self.turn.reasoning_effort),
            system: text::opt_text(self.turn.system),
            context: prompt::fragments(
                encoded_pairs(around.context, context),
                self.context_kinds@,
            ),
            messages: encoded_pairs(around.messages, messages),
            ephemeral: (if self.switched_model() {
                seq![
                    prompt::switch_view(self.context_baseline->0@, source.model_runtime),
                ]
            } else {
                seq![]
            }) + encoded_pairs(around.ephemeral, ephemeral),
            plan_wire: self.turn.tool_plan.wire@,
            plan_fingerprint: self.turn.tool_plan.fingerprint@,
            max_output_tokens: self.config.max_output_tokens,
            reasoning_replay: self.turn.reasoning_replay,
        })
    }

    /// What a captured prompt is.
    pub open spec fn captures(
        self,
        context: Seq<Seq<char>>,
        messages: Seq<Seq<char>>,
        ephemeral: Seq<Seq<char>>,
        captured: Result<PromptSnapshot, AgentError>,
    ) -> bool {
        exists|source: PromptSource| #[trigger]
            self.gathers(context, messages, ephemeral, source) && match source.fault() {
                Some(fault) => captured matches Err(e) && e@ == AgentFault::InvalidRequest(
                    fault.text(),
                ),
                None => captured matches Ok(snapshot) && snapshot.captures(source)
                    && snapshot.tool_plan.same_as(self.turn.tool_plan),
            }
    }

    /// Captures the prompt of the next sampling. The wire forms are those of the context, of the
    /// transcript and of the messages behind it.
    pub fn capture(&self, context: Vec<String>, messages: Vec<String>, ephemeral: Vec<String>) -> (
    captured: Result<PromptSnapshot, AgentError>)
        requires
            context@.len() == self.context@.len(),
            messages@.len() == self.messages@.len(),
            ephemeral@.len() == self.ephemeral@.len(),
        ensures
            self.captures(
                text::texts(context@),
                text::texts(messages@),
                text::texts(ephemeral@),
                captured,
            ),
    {
        let ghost wires = (text::texts(context@), text::texts(messages@), text::texts(ephemeral@));
        let runtime = match &self.turn.model_runtime {
            Some(runtime) => Some(runtime.clone()),
            None => None,
        };
        let ghost around = self.around();
        let ghost source = PromptSource {
            model: self.turn.model@,
            model_runtime: runtime,
            reasoning_effort: text::opt_text(self.turn.reasoning_effort),
            system: text::opt_text(self.turn.system),
            context: prompt::fragments(
                encoded_pairs(around.context, wires.0),
                self.context_kinds@,
            ),
            messages: encoded_pairs(around.messages, wires.1),
            ephemeral: (if self.switched_model() {
                seq![
                    prompt::switch_view(self.context_baseline->0@, runtime),
                ]
            } else {
                seq![]
            }) + encoded_pairs(around.ephemeral, wires.2),
            plan_wire: self.turn.tool_plan.wire@,
            plan_fingerprint: self.turn.tool_plan.fingerprint@,
            max_output_tokens: self.config.max_output_tokens,
            reasoning_replay: self.turn.reasoning_replay,
        };
        assert(self.gathers(wires.0, wires.1, wires.2, source));
        let captured = PromptSnapshot::capture(
            self.turn.model.clone(),
            runtime,
            text::clone_opt(&self.turn.reasoning_effort),
            text::clone_opt(&self.turn.system),
            encode(&self.context, context),
            copy_kinds(&self.context_kinds),
            &encode(&self.messages, messages),
            encode(&self.ephemeral, ephemeral),
            self.turn.tool_plan.clone(),
            self.config.max_output_tokens,
            self.turn.reasoning_replay,
            self.model_switch_from(),
        );
        match captured {
            Ok(snapshot) => Ok(snapshot),
            Err(error) => Err(AgentError::InvalidRequest(error.message())),
        }
    }

    /// Opens a sampling with a captured prompt. A turn that would go beyond the budget is not
    /// taken. Gives the move of the baseline that has to be recorded first, if there is one.
    pub fn open<C: TokenCounter>(&mut self, snapshot: &PromptSnapshot, counter: &C) -> (opened:
        Result<Option<ContextTransition>, ExhaustReason>)
        ensures
            old(self).opens(*snapshot, *counter, opened, *final(self)),
    {
        self.omissions = text::clone_texts(&snapshot.diagnostics);
        self.turn.static_input_tokens = snapshot.static_input_tokens(counter);
        if self.usage_budget.is_active() {
            let estimate: u32 = agent::estimate_current_input(
                self.messages.as_slice(),
                self.turn.static_input_tokens,
                counter,
            );
            match self.usage_budget.would_exceed(
                estimate as u64,
                self.config.max_output_tokens as u64,
            ) {
                Some(reason) => {
                    return Err(reason);
                },
                None => {},
            }
        }
        self.turn.budget.begin_turn();
        let mut causes: Vec<ContextTransitionCause> = Vec::new();
        causes.append(&mut self.turn.transition_causes);
        let moved = match &self.context_baseline {
            Some(previous) => prompt::transition_between(
                Some(previous),
                &snapshot.baseline,
                causes,
            ),
            None => prompt::transition_between(None, &snapshot.baseline, causes),
        };
        if moved.is_some() {
            self.context_baseline = Some(snapshot.baseline.clone());
        }
        Ok(moved)
    }

    /// What this run sends of a prompt: a valid request, or the fault of the one that it would be.
    pub open spec fn sends(
        self,
        snapshot: PromptSnapshot,
        request: Result<CanonicalRequest, AgentError>,
    ) -> bool {
        match request {
            Ok(sent) => sent.fault() is None && self.requests(snapshot, sent),
            Err(e) => exists|sent: CanonicalRequest, reason: CanonicalRequestValidationError|
                #![trigger self.requests(snapshot, sent), request::reports(Err(reason), sent.fault())]
                self.requests(snapshot, sent) && request::reports(Err(reason), sent.fault()) && e@
                    == AgentFault::InvalidRequest(reason.text()),
        }
    }

    /// The request of a captured prompt, with the turn named in its metadata, checked before it
    /// leaves.
    pub fn request(&self, snapshot: &PromptSnapshot) -> (request: Result<
        CanonicalRequest,
        AgentError,
    >)
        ensures
            self.sends(*snapshot, request),
    {
        let mut sent = snapshot.request();
        match &self.turn_id {
            Some(turn_id) => {
                sent.client_metadata.insert(TURN_ID_METADATA_KEY, turn_id.as_str());
            },
            None => {},
        }
        assert(self.requests(*snapshot, sent));
        match sent.validate() {
            Ok(()) => Ok(sent),
            Err(reason) => {
                assert(request::reports(Err(reason), sent.fault()));
                Err(AgentError::InvalidRequest(reason.message()))
            },
        }
    }

    /// Whether a request is what this run sends of a prompt.
    pub open spec fn requests(self, snapshot: PromptSnapshot, request: CanonicalRequest) -> bool {
        &&& request.model@ == snapshot.model@
        &&& prompt::opt_runtime(request.model_runtime) == prompt::opt_runtime(
            snapshot.model_runtime,
        )
        &&& text::opt_text(request.reasoning_effort) == text::opt_text(snapshot.reasoning_effort)
        &&& request.reasoning_replay == snapshot.reasoning_replay
        &&& text::opt_text(request.system) == text::opt_text(snapshot.system)
        &&& request.service_tier is None
        &&& request.output_schema is None
        &&& request.stream_options.is_default()
        &&& request.cache_key is None
        &&& match self.turn_id {
            Some(turn_id) => request.client_metadata@ == seq![(TURN_ID_METADATA_KEY@, turn_id@)],
            None => request.client_metadata@.len() == 0,
        }
        &&& message::message_views(request.messages@) == message::message_views(
            snapshot.context_messages@,
        ) + message::message_views(snapshot.messages@) + message::message_views(
            snapshot.ephemeral_messages@,
        )
        &&& tool_spec::spec_views(request.tools@) == tool_spec::spec_views(
            snapshot.tool_plan.specs@,
        )
        &&& request.max_output_tokens == snapshot.max_output_tokens
    }

    /// Whether an attempt is the sampling of a captured prompt.
    pub open spec fn attempts(self, snapshot: PromptSnapshot, attempt: AttemptContext) -> bool {
        &&& text::opt_text(attempt.turn_id) == text::opt_text(self.turn_id)
        &&& attempt.step == if self.model_turns < u32::MAX {
            self.model_turns + 1
        } else {
            u32::MAX as int
        }
        &&& attempt.prompt_fingerprint@ == snapshot.fingerprint@
        &&& attempt.model_runtime_fingerprint@ == snapshot.baseline.profile_fingerprint@
        &&& attempt.tool_plan_fingerprint@ == snapshot.baseline.tool_plan_fingerprint@
    }

    /// What identifies the sampling of a captured prompt.
    pub fn attempt(&self, snapshot: &PromptSnapshot) -> (attempt: AttemptContext)
        ensures
            self.attempts(*snapshot, attempt),
    {
        AttemptContext {
            turn_id: text::clone_opt(&self.turn_id),
            step: self.model_turns.saturating_add(1),
            prompt_fingerprint: snapshot.fingerprint.clone(),
            model_runtime_fingerprint: snapshot.baseline.profile_fingerprint.clone(),
            tool_plan_fingerprint: snapshot.baseline.tool_plan_fingerprint.clone(),
        }
    }

    // ------------------------------------------------------------ during a sampling

    /// What clients are shown of an event of the stream.
    pub open spec fn shows(event: StreamEvent, shown: Option<AgentEvent>) -> bool {
        match event {
            StreamEvent::TextDelta { text } => shown matches Some(AgentEvent::Text(t)) && t@
                == text@,
            StreamEvent::ReasoningDelta { text } => shown matches Some(AgentEvent::Reasoning(t))
                && t@ == text@,
            StreamEvent::Quota { snapshot } => if snapshot.primary is None
                && snapshot.secondary is None {
                shown is None
            } else {
                shown == Some(AgentEvent::Quota(snapshot))
            },
            StreamEvent::ReasoningReplayDisabled { reason } => shown == Some(
                AgentEvent::ReasoningReplayDisabled { reason },
            ),
            StreamEvent::ResponseMetadata { metadata } => if metadata.empty() {
                shown is None
            } else {
                shown == Some(AgentEvent::ResponseMetadata(metadata))
            },
            StreamEvent::ResponseItem { phase, output_index, item } => shown == Some(
                AgentEvent::ResponseItem { phase, output_index, item },
            ),
            StreamEvent::ProviderExtension { extension } => shown == Some(
                AgentEvent::ProviderExtension(extension),
            ),
            StreamEvent::UnmappedItem { item_type, item_extension } => shown == Some(
                AgentEvent::UnmappedResponseItem { item_type, extension: item_extension },
            ),
            _ => shown is None,
        }
    }

    /// How an event of the stream is taken in.
    pub open spec fn reads<C: TokenCounter>(
        self,
        sampling: Sampling,
        event: StreamEvent,
        counter: C,
        shown: Result<Option<AgentEvent>, AgentError>,
        after: RunState,
        sampled: Sampling,
    ) -> bool {
        let step = sampling.accumulator@.step(event);
        &&& sampled.accumulator@ == step.0
        &&& match step.1 {
            None => shown matches Ok(told) && RunState::shows(event, told),
            Some(reason) => shown matches Err(e) && e@ == error::contract_fault(reason),
        }
        &&& sampled.last_usage == (match event {
            StreamEvent::Usage { usage } => Some(usage),
            _ => sampling.last_usage,
        })
        &&& sampled.estimated_input == (if event is Usage && self.config.usage_probe {
            Some(
                agent::current_tokens(
                    self.views(),
                    self.turn.static_input_tokens,
                    counter,
                ),
            )
        } else {
            sampling.estimated_input
        })
        &&& after == (match event {
            StreamEvent::Usage { usage } => RunState {
                turn: TurnRuntime {
                    budget: self.turn.budget.with_usage(usage),
                    ..self.turn
                },
                run_usage: self.run_usage.plus(usage),
                ..self
            },
            StreamEvent::ReasoningReplayDisabled { .. } => RunState {
                turn: TurnRuntime {
                    reasoning_replay: false,
                    reasoning_replay_downgraded: true,
                    ..self.turn
                },
                ..self
            },
            _ => self,
        })
    }

    /// Takes in one event of the stream and gives what clients are shown of it.
    pub fn on_event<C: TokenCounter>(
        &mut self,
        sampling: &mut Sampling,
        event: StreamEvent,
        counter: &C,
    ) -> (shown: Result<Option<AgentEvent>, AgentError>)
        ensures
            old(self).reads(*old(sampling), event, *counter, shown, *final(self), *final(sampling)),
    {
        match event {
            StreamEvent::TextDelta { text } => {
                let shown = text.clone();
                match sampling.accumulator.push(StreamEvent::TextDelta { text }) {
                    Ok(()) => Ok(Some(AgentEvent::Text(shown))),
                    Err(error) => Err(error),
                }
            },
            StreamEvent::ReasoningDelta { text } => {
                let shown = text.clone();
                match sampling.accumulator.push(StreamEvent::ReasoningDelta { text }) {
                    Ok(()) => Ok(Some(AgentEvent::Reasoning(shown))),
                    Err(error) => Err(error),
                }
            },
            StreamEvent::Usage { usage } => {
                if self.config.usage_probe {
                    sampling.estimated_input = Some(
                        agent::estimate_current_input(
                            self.messages.as_slice(),
                            self.turn.static_input_tokens,
                            counter,
                        ),
                    );
                }
                self.turn.budget.observe_usage(usage);
                self.run_usage.add_assign(&usage);
                sampling.last_usage = Some(usage);
                Ok(None)
            },
            StreamEvent::Quota { snapshot } => {
                if snapshot.is_empty() {
                    Ok(None)
                } else {
                    Ok(Some(AgentEvent::Quota(snapshot)))
                }
            },
            StreamEvent::ReasoningReplayDisabled { reason } => {
                self.turn.reasoning_replay_downgraded = true;
                self.turn.reasoning_replay = false;
                Ok(Some(AgentEvent::ReasoningReplayDisabled { reason }))
            },
            StreamEvent::ResponseMetadata { metadata } => {
                if metadata.is_empty() {
                    Ok(None)
                } else {
                    Ok(Some(AgentEvent::ResponseMetadata(metadata)))
                }
            },
            StreamEvent::ResponseItem { phase, output_index, item } => Ok(
                Some(AgentEvent::ResponseItem { phase, output_index, item }),
            ),
            StreamEvent::ProviderExtension { extension } => Ok(
                Some(AgentEvent::ProviderExtension(extension)),
            ),
            StreamEvent::UnmappedItem { item_type, item_extension } => Ok(
                Some(AgentEvent::UnmappedResponseItem { item_type, extension: item_extension }),
            ),
            other => {
                match sampling.accumulator.push(other) {
                    Ok(()) => Ok(None),
                    Err(error) => Err(error),
                }
            },
        }
    }

    /// How a part of a sampling is kept.
    pub open spec fn keeps(
        self,
        sampling: Sampling,
        after: RunState,
    ) -> bool {
        &&& after.views() == (if sampling.brought_nothing() {
            self.views()
        } else {
            self.views().push(sampling.accumulator@.message())
        })
        &&& after == (RunState { messages: after.messages, ..self })
    }

    /// Keeps what a sampling brought before a stop: complete calls, and what was shown.
    pub fn keep_partial(&mut self, sampling: &Sampling)
        ensures
            old(self).keeps(*sampling, *final(self)),
    {
        if !sampling.accumulator.is_empty() {
            let ghost before = self.messages@;
            let message = sampling.accumulator.to_assistant_message();
            let ghost view = message@;
            self.messages.push(message);
            assert(message::message_views(self.messages@) =~= message::message_views(before).push(
                view,
            ));
        }
    }

    /// The run once a sampling that failed is counted.
    pub open spec fn lost<C: TokenCounter>(self, sampling: Sampling, counter: C) -> RunState {
        let counted = self.counted(sampling, counter);
        RunState {
            usage_budget: counted.0,
            turn: TurnRuntime { budget: counted.1, ..self.turn },
            ..self
        }
    }

    /// Counts a sampling that failed: its tokens were spent.
    pub fn count_lost<C: TokenCounter>(&mut self, sampling: &Sampling, counter: &C)
        ensures
            *final(self) == old(self).lost(*sampling, *counter),
    {
        agent::record_attempt_usage(
            &mut self.usage_budget,
            &mut self.turn.budget,
            sampling.last_usage,
            self.messages.as_slice(),
            self.turn.static_input_tokens,
            &sampling.accumulator,
            counter,
        );
    }

    /// The budgets after a sampling is counted.
    pub open spec fn counted<C: TokenCounter>(self, sampling: Sampling, counter: C) -> (
        UsageBudget,
        ContextBudget,
    ) {
        match sampling.last_usage {
            Some(usage) => (
                self.usage_budget.recorded(usage.input, usage.output),
                self.turn.budget,
            ),
            None => {
                let input = agent::current_tokens(
                    self.views(),
                    self.turn.static_input_tokens,
                    counter,
                );
                (
                    self.usage_budget.recorded(
                        input as u64,
                        tokenizer::capped_u32(sampling.accumulator@.tokens(counter)) as u64,
                    ),
                    ContextBudget { current_input: input, ..self.turn.budget },
                )
            },
        }
    }

    // ------------------------------------------------------------ after a failure

    /// What follows a sampling that failed.
    pub open spec fn fails<C: TokenCounter>(
        self,
        error: ProviderError,
        facts: FailureFacts,
        counter: C,
        plan: (ErrorClass, FailureAction),
        after: RunState,
    ) -> bool {
        &&& plan.0 == self.turn.failure_plan(error, self.config, facts).0
        &&& plan.1@ == self.turn.failure_plan(error, self.config, facts).1
        &&& exists|turn: TurnRuntime|
            {
                &&& #[trigger] turn.planned_from(
                    self.turn,
                    self.config,
                    after.config,
                    error,
                    facts,
                    self.around(),
                    counter,
                )
                &&& after == (RunState {
                    config: after.config,
                    turn: TurnRuntime {
                        attempt_ordinal: if plan.1 is Fail || plan.1 is RefreshCredentials {
                            turn.attempt_ordinal
                        } else {
                            (turn.attempt_ordinal + 1) as u32
                        },
                        ..turn
                    },
                    pending: match plan.1 {
                        FailureAction::Withhold(kind) => Some(PendingError { kind }),
                        _ => self.pending,
                    },
                    ..self
                })
            }
    }

    /// Decides what follows a sampling that failed. Where it is opened again, that opening is
    /// counted; an error of the context is held back for the next lap.
    pub fn on_failure<C: TokenCounter>(
        &mut self,
        error: &ProviderError,
        facts: FailureFacts,
        counter: &C,
    ) -> (plan: (ErrorClass, FailureAction))
        requires
            old(self).wf(),
        ensures
            final(self).wf(),
            old(self).fails(*error, facts, *counter, plan, *final(self)),
    {
        let plan = self.turn.plan_failure(
            error,
            &mut self.config,
            facts,
            &self.context,
            &self.ephemeral,
            &self.messages,
            counter,
        );
        let ghost planned = self.turn;
        assert(planned.planned_from(
            old(self).turn,
            old(self).config,
            self.config,
            *error,
            facts,
            old(self).around(),
            *counter,
        ));
        match &plan.1 {
            FailureAction::Fail(_) => {},
            FailureAction::RefreshCredentials => {},
            FailureAction::Withhold(kind) => {
                self.turn.attempt_ordinal = self.turn.attempt_ordinal + 1;
                self.pending = Some(PendingError { kind: *kind });
            },
            FailureAction::DowngradeReplay => {
                self.turn.attempt_ordinal = self.turn.attempt_ordinal + 1;
            },
            FailureAction::Retry { .. } => {
                self.turn.attempt_ordinal = self.turn.attempt_ordinal + 1;
            },
        }
        plan
    }

    /// The run once its credential is refreshed.
    pub open spec fn refreshed(self) -> RunState {
        RunState {
            turn: TurnRuntime {
                attempt_ordinal: if self.turn.attempt_ordinal < u32::MAX {
                    (self.turn.attempt_ordinal + 1) as u32
                } else {
                    u32::MAX
                },
                ..self.turn
            },
            ..self
        }
    }

    /// Counts the opening that follows a refreshed credential.
    pub fn after_refresh(&mut self)
        requires
            old(self).wf(),
        ensures
            final(self).wf(),
            *final(self) == old(self).refreshed(),
    {
        self.turn.attempt_ordinal = self.turn.attempt_ordinal.saturating_add(1);
    }

    // ------------------------------------------------------------ after a sampling

    /// What clients are told of a round-trip.
    pub open spec fn round_trip(
        self,
        sampling: Sampling,
        declared_window: Option<u32>,
    ) -> ModelTurnView {
        ModelTurnView {
            index: self.model_turns,
            input_tokens: self.usage_budget.spent_input,
            output_tokens: self.usage_budget.spent_output,
            last_usage: sampling.last_usage,
            total_usage: self.run_usage,
            context_tokens: match sampling.last_usage {
                Some(usage) => Some(usage.input),
                None => None,
            },
            context_window: match self.turn.model_runtime {
                Some(runtime) => Some(runtime.context_window),
                None => declared_window,
            },
            auto_compact_token_limit: match self.turn.model_runtime {
                Some(runtime) => Some(runtime.auto_compact_token_limit),
                None => None,
            },
            estimated_context_tokens: sampling.estimated_input,
        }
    }

    /// How a complete sampling is closed.
    pub open spec fn settles<C: TokenCounter>(
        self,
        sampling: Sampling,
        declared_window: Option<u32>,
        counter: C,
        settled: Settled,
        after: RunState,
    ) -> bool {
        &&& after.turn.attempt_ordinal == 1
        &&& ({
            let state = sampling.accumulator@;
            let decision = state.decision();
            let commits = decision is EndTurn || decision is Continue || decision is RunTools;
            let counted = self.counted(sampling, counter);
            &&& settled.transition@ == decision
            &&& settled.reset == (!(commits && !sampling.brought_nothing())
                && state.visible())
            &&& settled.turn == after.round_trip(sampling, declared_window)
            &&& after.views() == (if commits && !sampling.brought_nothing() {
                self.views().push(state.message())
            } else {
                self.views()
            })
            &&& after == (RunState {
                messages: after.messages,
                usage_budget: counted.0,
                model_turns: if self.model_turns < u32::MAX {
                    (self.model_turns + 1) as u32
                } else {
                    u32::MAX
                },
                compaction: if commits {
                    CompactionState { consecutive_failures: 0 }
                } else {
                    self.compaction
                },
                turn: TurnRuntime {
                    attempt_ordinal: 1,
                    credential_refresh_attempted: false,
                    attempt_policy: ResolvedAttemptPolicy::resolved(
                        self.config.max_retries,
                        self.config.backoff_base_ms,
                        self.turn.model_runtime,
                    ),
                    budget: counted.1,
                    ..self.turn
                },
                ..self
            })
        })
    }

    /// Closes a complete sampling: it is counted, its message enters the transcript where the
    /// turn goes on or ends with it, and what follows is decided. `declared_window` is the window
    /// that the provider declares for the model.
    pub fn settle<C: TokenCounter>(
        &mut self,
        sampling: &Sampling,
        declared_window: Option<u32>,
        counter: &C,
    ) -> (settled: Settled)
        ensures
            old(self).settles(*sampling, declared_window, *counter, settled, *final(self)),
    {
        self.turn.attempt_ordinal = 1;
        self.turn.credential_refresh_attempted = false;
        self.turn.attempt_policy = ResolvedAttemptPolicy::resolve(
            &self.config,
            &self.turn.model_runtime,
        );
        self.model_turns = self.model_turns.saturating_add(1);
        self.count_lost(sampling, counter);
        let transition = transition::post_stream_transition(&sampling.accumulator);
        let commits = match &transition {
            Transition::EndTurn => true,
            Transition::Continue => true,
            Transition::RunTools(_) => true,
            _ => false,
        };
        let mut reset = false;
        if commits && !sampling.accumulator.is_empty() {
            self.keep_partial(sampling);
        } else if sampling.accumulator.has_visible_output() {
            reset = true;
        }
        if commits {
            self.compaction.record_success();
        }
        let (context_window, auto_compact_token_limit) = match &self.turn.model_runtime {
            Some(runtime) => (
                Some(runtime.context_window),
                Some(runtime.auto_compact_token_limit),
            ),
            None => (declared_window, None),
        };
        let turn = ModelTurnView {
            index: self.model_turns,
            input_tokens: self.usage_budget.spent_input(),
            output_tokens: self.usage_budget.spent_output(),
            last_usage: sampling.last_usage,
            total_usage: self.run_usage,
            context_tokens: match sampling.last_usage {
                Some(usage) => Some(usage.input),
                None => None,
            },
            context_window,
            auto_compact_token_limit,
            estimated_context_tokens: sampling.estimated_input,
        };
        Settled { turn, reset, transition }
    }

    // ------------------------------------------------------------ tools

    /// How a batch of calls is held against those before it.
    pub open spec fn guards(
        self,
        calls: Vec<ToolInvocation>,
        exempt: Vec<bool>,
        step: ToolStep,
        after: RunState,
    ) -> bool {
        let views = tools::invocation_views(calls@);
        let signature = guardrail::batch_signature(views, exempt@);
        let run = self.loop_guard.run().after(signature->0);
        let decision = guardrail::tier(self.loop_guard.thresholds@, run.count);
        &&& after.loop_guard.thresholds == self.loop_guard.thresholds
        &&& after == (RunState {
            messages: after.messages,
            loop_guard: after.loop_guard,
            ..self
        })
        &&& match signature {
            None => step is Proceed && after.loop_guard.run() == self.loop_guard.run()
                && after.messages == self.messages,
            Some(_) => after.loop_guard.run() == run && match decision {
                LoopDecision::Proceed => step is Proceed && after.messages == self.messages,
                LoopDecision::Abort => step == ToolStep::Abort(
                    ExhaustReason::ToolLoop { count: run.count },
                ) && after.messages == self.messages,
                LoopDecision::Signal(register) => {
                    &&& step matches ToolStep::Signal(results) && results@.len()
                        == calls@.len() && forall|i: int|
                        0 <= i < calls@.len() ==> (#[trigger] results@[i])@
                            == loop_answer(views[i], register, run.count)
                    &&& after.views() == self.views() + views.map_values(
                        |call: InvocationView|
                            result_message(loop_answer(call, register, run.count)),
                    )
                },
            },
        }
    }

    /// Holds a batch of calls against those before it. From the first step of the ladder on it
    /// does not run: each call gets an answer that says so, or the run ends. A batch without a
    /// guarded call runs and leaves the count as it is.
    pub fn guard_tools(&mut self, calls: &Vec<ToolInvocation>, exempt: &Vec<bool>) -> (step:
        ToolStep)
        requires
            exempt@.len() == calls@.len(),
        ensures
            old(self).guards(*calls, *exempt, step, *final(self)),
    {
        let ghost views = tools::invocation_views(calls@);
        let signature = guardrail::guarded_batch_signature(calls.as_slice(), exempt.as_slice());
        let register = match signature {
            None => {
                return ToolStep::Proceed;
            },
            Some(signature) => match self.loop_guard.observe(signature) {
                LoopDecision::Proceed => {
                    return ToolStep::Proceed;
                },
                LoopDecision::Abort => {
                    return ToolStep::Abort(
                        ExhaustReason::ToolLoop { count: self.loop_guard.count() },
                    );
                },
                LoopDecision::Signal(register) => register,
            },
        };
        let count: u32 = self.loop_guard.count();
        let ghost before = self.views();
        let ghost added = views.map_values(
            |call: InvocationView| result_message(loop_answer(call, register, count)),
        );
        let ghost guard = self.loop_guard;
        let mut results: Vec<ModelToolResult> = Vec::new();
        let mut i: usize = 0;
        assert(before + added.take(0) =~= before);
        while i < calls.len()
            invariant
                i <= calls.len(),
                views == tools::invocation_views(calls@),
                added == views.map_values(
                    |call: InvocationView| result_message(loop_answer(call, register, count)),
                ),
                results@.len() == i,
                forall|k: int|
                    0 <= k < i ==> (#[trigger] results@[k])@ == loop_answer(
                        views[k],
                        register,
                        count,
                    ),
                message::message_views(self.messages@) == before + added.take(i as int),
                *self == (RunState { messages: self.messages, loop_guard: guard, ..*old(self) }),
            decreases calls.len() - i,
        {
            let content = guardrail::loop_guard_message(
                register,
                calls[i].name.as_str(),
                count,
                &calls[i].input,
            );
            let result = ModelToolResult::new(
                calls[i].id.clone(),
                content,
                true,
                false,
                Some(ToolErrorKind::Semantic),
            );
            let ghost here = self.messages@;
            let message = Message::tool_result_from_model(&result);
            let ghost shown = message@;
            proof {
                assert(views[i as int] == calls@[i as int]@);
                assert(result.images@ =~= seq![]);
                assert(result@ == loop_answer(views[i as int], register, count));
                assert(shown == result_message(result@));
            }
            self.messages.push(message);
            results.push(result);
            proof {
                assert(message::message_views(self.messages@) =~= message::message_views(
                    here,
                ).push(shown));
                assert(before + added.take(i + 1) =~= (before + added.take(i as int)).push(shown));
            }
            i += 1;
        }
        assert(added.take(i as int) =~= added);
        ToolStep::Signal(results)
    }

    /// How the results of a batch are taken in.
    pub open spec fn accepts<C: TokenCounter>(
        self,
        expected_ids: Vec<ToolCallId>,
        outcomes: Vec<ModelToolResult>,
        counter: C,
        accepted: Result<Vec<ModelToolResult>, AgentError>,
        after: RunState,
    ) -> bool {
        let fault = agent::outcome_fault(
            text::texts(expected_ids@),
            agent::outcome_ids(outcomes@),
        );
        match fault {
            Some(reason) => (accepted matches Err(e) && e@ == error::contract_fault(
                reason,
            )) && after == self,
            None => accepted matches Ok(results) && {
                &&& results@.len() == outcomes@.len()
                &&& forall|i: int|
                    0 <= i < results@.len() ==> bounded_from(
                        #[trigger] results@[i],
                        outcomes@[i],
                        agent::limits_of(self.turn.model_runtime),
                        counter,
                    )
                &&& after.views() == self.views() + results@.map_values(
                    |result: ModelToolResult| MessageView::tool_result(result),
                )
                &&& after == (RunState {
                    messages: after.messages,
                    pending_abort: if exists|i: int|
                        0 <= i < outcomes@.len() && (
                        #[trigger] outcomes@[i]).aborts_turn {
                        Some(InterruptReason::ToolAborted)
                    } else {
                        self.pending_abort
                    },
                    force_compact: self.force_compact || self.turn.budget.growth(
                        agent::current_tokens(
                            after.views(),
                            self.turn.static_input_tokens,
                            counter,
                        ),
                    ) >= self.turn.budget.auto_threshold || exists|i: int|
                        0 <= i < outcomes@.len() && (
                        #[trigger] outcomes@[i]).requests_compaction,
                    ..self
                })
            },
        }
    }

    /// Takes in the results of a batch that ran: each is bounded and enters the transcript. A
    /// result that refuses to go on stops the run at the next lap; where the transcript has grown
    /// too long, or a tool asks for it, the next lap compacts. Results that do not match the
    /// calls end the run.
    pub fn accept_outcomes<C: TokenCounter>(
        &mut self,
        expected_ids: &Vec<ToolCallId>,
        outcomes: Vec<ModelToolResult>,
        counter: &C,
    ) -> (accepted: Result<Vec<ModelToolResult>, AgentError>)
        ensures
            old(self).accepts(*expected_ids, outcomes, *counter, accepted, *final(self)),
    {
        match agent::validate_tool_outcomes(expected_ids.as_slice(), outcomes.as_slice()) {
            Ok(()) => {},
            Err(error) => {
                return Err(error);
            },
        }
        let (tokens, bytes) = agent::feedback_limits(&self.turn.model_runtime);
        let ghost limits = agent::limits_of(self.turn.model_runtime);
        let ghost before = self.views();
        let mut results: Vec<ModelToolResult> = Vec::new();
        let mut aborts = false;
        let mut asks = false;
        let mut i: usize = 0;
        assert(before + results@.map_values(
            |result: ModelToolResult| MessageView::tool_result(result),
        ) =~= before);
        while i < outcomes.len()
            invariant
                i <= outcomes.len(),
                limits == (tokens as nat, bytes as nat),
                results@.len() == i,
                forall|k: int|
                    0 <= k < i ==> bounded_from(
                        #[trigger] results@[k],
                        outcomes@[k],
                        limits,
                        *counter,
                    ),
                aborts == exists|k: int| 0 <= k < i && (#[trigger] outcomes@[k]).aborts_turn,
                asks == exists|k: int|
                    0 <= k < i && (#[trigger] outcomes@[k]).requests_compaction,
                message::message_views(self.messages@) == before + results@.map_values(
                    |result: ModelToolResult| MessageView::tool_result(result),
                ),
                *self == (RunState { messages: self.messages, ..*old(self) }),
            decreases outcomes.len() - i,
        {
            let outcome = outcomes[i].clone();
            let ghost copy = outcome;
            proof {
                if copy.aborts_turn {
                    assert(outcomes@[i as int].aborts_turn);
                }
                if copy.requests_compaction {
                    assert(outcomes@[i as int].requests_compaction);
                }
            }
            aborts = aborts || outcome.aborts_turn;
            asks = asks || outcome.requests_compaction;
            let result = outcome.bound_feedback(counter, tokens, bytes);
            proof {
                assert(bounded_from(result, copy, limits, *counter));
                lemma_bounded_from_view(result, copy, outcomes@[i as int], limits, *counter);
            }
            let message = Message::tool_result_from_model(&result);
            let ghost here = self.messages@;
            let ghost earlier = results@;
            let ghost shown = message@;
            self.messages.push(message);
            results.push(result);
            proof {
                let all = |list: Seq<ModelToolResult>|
                    list.map_values(|r: ModelToolResult| MessageView::tool_result(r));
                assert(message::message_views(self.messages@) =~= message::message_views(
                    here,
                ).push(shown));
                assert(results@.map_values(
                    |r: ModelToolResult| MessageView::tool_result(r),
                ) =~= earlier.map_values(
                    |r: ModelToolResult| MessageView::tool_result(r),
                ).push(shown));
                assert(before + results@.map_values(
                    |r: ModelToolResult| MessageView::tool_result(r),
                ) =~= (before + earlier.map_values(
                    |r: ModelToolResult| MessageView::tool_result(r),
                )).push(shown));
            }
            i += 1;
        }
        if aborts {
            self.pending_abort = Some(InterruptReason::ToolAborted);
        }
        let projected: u32 = agent::estimate_current_input(
            self.messages.as_slice(),
            self.turn.static_input_tokens,
            counter,
        );
        if self.turn.budget.would_autocompact(projected) || asks {
            self.force_compact = true;
        }
        Ok(results)
    }

    // ------------------------------------------------------------ compaction

    /// What a compaction leaves behind.
    pub open spec fn compacts<C: TokenCounter>(
        self,
        kind: CompactKind,
        usage: TokenUsage,
        counter: C,
        after: RunState,
    ) -> bool {
        let required = kind != CompactKind::Reactive
            && self.turn.required_profile_compaction is Some;
        &&& after.turn.transition_causes@ == (if required {
            self.turn.transition_causes@
        } else {
            self.turn.transition_causes@.push(ContextTransitionCause::Compaction)
        })
        &&& after == (RunState {
            usage_budget: self.usage_budget.recorded(usage.input, usage.output),
            compaction: CompactionState { consecutive_failures: 0 },
            context_baseline: if required {
                self.context_baseline
            } else {
                None
            },
            turn: TurnRuntime {
                required_profile_compaction: if required {
                    None
                } else {
                    self.turn.required_profile_compaction
                },
                transition_causes: after.turn.transition_causes,
                budget: self.turn.budget.compacted(
                    agent::current_tokens(
                        self.views(),
                        self.turn.static_input_tokens,
                        counter,
                    ),
                ),
                ..self.turn
            },
            ..self
        })
    }

    /// Takes in that a compaction has replaced the transcript. A compaction that a change of
    /// model asked for keeps the baseline; another one voids it.
    pub fn accept_compaction<C: TokenCounter>(
        &mut self,
        kind: CompactKind,
        usage: TokenUsage,
        counter: &C,
    )
        ensures
            old(self).compacts(kind, usage, *counter, *final(self)),
    {
        self.usage_budget.record_usage(usage);
        self.compaction.record_success();
        if kind != CompactKind::Reactive && self.turn.required_profile_compaction.is_some() {
            self.turn.required_profile_compaction = None;
        } else {
            self.context_baseline = None;
            self.turn.transition_causes.push(ContextTransitionCause::Compaction);
        }
        let compacted: u32 = agent::estimate_current_input(
            self.messages.as_slice(),
            self.turn.static_input_tokens,
            counter,
        );
        self.turn.budget.mark_compacted(compacted);
    }

    /// The failures in a row after one more.
    pub open spec fn next_failures(self) -> u32 {
        if self.compaction.consecutive_failures < u32::MAX {
            (self.compaction.consecutive_failures + 1) as u32
        } else {
            u32::MAX
        }
    }

    /// What a compaction that failed leaves behind.
    pub open spec fn misses<C: TokenCounter>(
        self,
        counter: C,
        pruned: Result<bool, AgentError>,
        after: RunState,
    ) -> bool {
        let failures = self.next_failures();
        let keep = self.config.micro_keep_recent as nat;
        let before = self.views();
        let changed = compaction::pruned_count(before, keep, before.len()) > 0;
        if self.turn.required_profile_compaction is Some {
            &&& pruned matches Err(e) && e@ == error::contract_fault(
                "required comp_hash compaction failed before model switch"@,
            )
            &&& after == self
        } else if failures >= self.config.compaction_breaker_limit {
            &&& pruned matches Err(e) && e@ == AgentFault::CompactionCircuitBreaker(
                failures,
            )
            &&& after == (RunState {
                compaction: CompactionState { consecutive_failures: failures },
                ..self
            })
        } else {
            &&& pruned == Ok::<bool, AgentError>(changed)
            &&& after.views() == compaction::microcompacted(before, keep)
            &&& after == (RunState {
                messages: after.messages,
                compaction: CompactionState {
                    consecutive_failures: if changed {
                        0
                    } else {
                        failures
                    },
                },
                turn: TurnRuntime {
                    budget: ContextBudget {
                        current_input: agent::current_tokens(
                            after.views(),
                            self.turn.static_input_tokens,
                            counter,
                        ),
                        ..self.turn.budget
                    },
                    ..self.turn
                },
                ..self
            })
        }
    }

    /// Takes in that a compaction failed. One that a change of model needs ends the run, and so
    /// does one too many in a row; otherwise old tool results are pruned, and it is told whether
    /// something changed.
    pub fn compaction_failed<C: TokenCounter>(&mut self, counter: &C) -> (pruned: Result<
        bool,
        AgentError,
    >)
        ensures
            old(self).misses(*counter, pruned, *final(self)),
    {
        if self.turn.requires_profile_compaction() {
            return Err(
                error::contract_error("required comp_hash compaction failed before model switch"),
            );
        }
        let failures: u32 = self.compaction.record_failure();
        if self.compaction.tripped(self.config.compaction_breaker_limit) {
            return Err(AgentError::CompactionCircuitBreaker(failures));
        }
        let changed: usize = compaction::microcompact(
            &mut self.messages,
            self.config.micro_keep_recent,
        );
        if changed > 0 {
            self.compaction.record_success();
        }
        self.turn.observe_estimated(&self.messages, counter);
        Ok(changed > 0)
    }

    // ------------------------------------------------------------ the end of a run

    /// How a run is stopped.
    pub open spec fn stops(
        self,
        told: Vec<ToolResultView>,
        after: RunState,
    ) -> bool {
        let open = message::unanswered(self.views());
        &&& after.views() == agent::reconciled(self.views())
        &&& after == (RunState { messages: after.messages, ..self })
        &&& told@.len() == open.len()
        &&& forall|i: int|
            0 <= i < told@.len() ==> agent::tells_of_interruption(
                #[trigger] told@[i],
                open[i],
            )
    }

    /// Stops a run: every call without a result gets one, and clients are told of each.
    pub fn interrupt(&mut self) -> (told: Vec<ToolResultView>)
        ensures
            old(self).stops(told, *final(self)),
    {
        agent::reconcile_interrupted_calls(&mut self.messages)
    }

    /// What clients are told of a stop.
    pub open spec fn stop_view(
        self,
        reason: InterruptReason,
        reconciled: nat,
        now_ms: u64,
    ) -> InterruptedView {
        InterruptedView {
            reason,
            started_at_ms: Some(self.started_ms),
            completed_at_ms: Some(now_ms),
            duration_ms: Some(
                if now_ms >= self.started_ms {
                    (now_ms - self.started_ms) as u64
                } else {
                    0
                },
            ),
            reconciled_tool_calls: tokenizer::capped_u32(reconciled) as u32,
        }
    }

    /// What clients are told of a stop once its transcript is written: how long the run took, and
    /// how many calls it left without a result.
    pub fn interruption(&self, reason: InterruptReason, reconciled: usize, now_ms: u64) -> (view:
        InterruptedView)
        ensures
            view == self.stop_view(reason, reconciled as nat, now_ms),
    {
        InterruptedView {
            reason,
            started_at_ms: Some(self.started_ms),
            completed_at_ms: Some(now_ms),
            duration_ms: Some(now_ms.saturating_sub(self.started_ms)),
            reconciled_tool_calls: tokenizer::to_u32(reconciled),
        }
    }
}

impl Sampling {
    /// No text, no reasoning, no complete call.
    pub open spec fn brought_nothing(self) -> bool {
        !self.accumulator@.visible() && self.accumulator@.reasonings.len() == 0
            && self.accumulator@.completed.len() == 0
    }
}

/// The error of a run whose context could not be compacted after it was refused.
pub fn unrecoverable(error: &AgentError) -> (fault: AgentError)
    ensures
        fault@ == AgentFault::ContextUnrecoverable(error.text()),
{
    AgentError::ContextUnrecoverable(error.message())
}

/// The answer to a call that repeats itself.
pub open spec fn loop_answer(call: InvocationView, register: LoopRegister, count: u32) -> tools::ResultView {
    tools::ResultView {
        id: call.id,
        content: guardrail::loop_message(register, call.name, count, call.input),
        structured_content: None,
        status: ToolResultStatus::Error,
        is_error: true,
        untrusted: false,
        error_kind: Some(ToolErrorKind::Semantic),
        duration_ms: None,
        truncation: None,
        execution: None,
        images: seq![],
        aborts_turn: false,
        requests_compaction: false,
    }
}

/// The transcript form of a result.
pub open spec fn result_message(result: tools::ResultView) -> MessageView {
    MessageView::single(
        Role::Tool,
        BlockView::ToolResult {
            tool_use_id: result.id,
            content: result.content,
            status: Some(result.status),
            structured_content: result.structured_content,
            untrusted: result.untrusted,
            is_error: result.is_error,
            error_kind: result.error_kind,
            duration_ms: result.duration_ms,
            truncation: result.truncation,
            execution: result.execution,
            images: result.images,
        },
    )
}

/// Whether a result is another one, bounded.
pub open spec fn bounded_from<C: TokenCounter>(
    result: ModelToolResult,
    outcome: ModelToolResult,
    limits: (nat, nat),
    counter: C,
) -> bool {
    outcome.bounded_as(result, counter, limits.0 as usize, limits.1 as usize)
}

proof fn lemma_bounded_from_view<C: TokenCounter>(
    result: ModelToolResult,
    copy: ModelToolResult,
    outcome: ModelToolResult,
    limits: (nat, nat),
    counter: C,
)
    requires
        copy@ == outcome@,
        bounded_from(result, copy, limits, counter),
    ensures
        bounded_from(result, outcome, limits, counter),
{
    assert(tools::opt_json(copy.structured_content) == tools::opt_json(
        outcome.structured_content,
    ));
    assert(copy.bounding(counter, limits.0 as usize, limits.1 as usize) == outcome.bounding(
        counter,
        limits.0 as usize,
        limits.1 as usize,
    ));
}

/// A budget that is used up and a stop of the user come before any work of a lap.
pub proof fn law_stops_come_before_work(state: RunState, cancelled: bool)
    requires
        cancelled || state.usage_budget.reached(
            state.usage_budget.tokens(),
            state.usage_budget.spent_cost(),
        ) is Some,
    ensures
        state.head_decision(cancelled) matches Some(decision) && (decision is Exhausted
            || decision is Interrupted),
{
}

/// While an error of the context is held back, no lap samples: it recovers or ends the run.
pub proof fn law_withheld_errors_come_before_sampling(state: RunState, cancelled: bool)
    requires
        state.pending is Some,
    ensures
        state.head_decision(cancelled) matches Some(decision) && !(decision is Compact),
        (!cancelled && state.pending_abort is None && state.usage_budget.reached(
            state.usage_budget.tokens(),
            state.usage_budget.spent_cost(),
        ) is None) ==> state.head_decision(cancelled) == Some(
            TransitionView::Recover(state.pending->0),
        ),
{
}

/// A lap samples only where nothing asks for compaction: not the pressure on the context, not a
/// tool, not a change of model.
pub proof fn law_full_contexts_are_not_sampled(state: RunState, cancelled: bool)
    requires
        state.head_decision(cancelled) is None,
    ensures
        state.turn.budget.growth(state.turn.budget.current_input)
            < state.turn.budget.auto_threshold,
        !state.force_compact,
        state.turn.required_profile_compaction is None,
        state.pending is None,
        !cancelled,
{
}

/// The answer to a repeated call is an error that names no other call, and it is not untrusted.
pub proof fn law_signalled_calls_are_answered(
    calls: Seq<InvocationView>,
    register: LoopRegister,
    count: u32,
    at: int,
)
    requires
        0 <= at < calls.len(),
    ensures
        ({
            let answers = calls.map_values(
                |call: InvocationView| result_message(loop_answer(call, register, count)),
            );
            &&& answers.len() == calls.len()
            &&& answers[at].role == Role::Tool
            &&& answers[at].content.len() == 1
            &&& answers[at].content[0] matches BlockView::ToolResult {
                tool_use_id,
                is_error,
                untrusted,
                ..
            } && tool_use_id == calls[at].id && is_error && !untrusted
        }),
{
}

fn project_kinds(count: usize) -> (kinds: Vec<ContextFragmentKind>)
    ensures
        kinds@ == Seq::new(count as nat, |i: int| ContextFragmentKind::Project),
{
    let mut kinds: Vec<ContextFragmentKind> = Vec::new();
    while kinds.len() < count
        invariant
            kinds@.len() <= count,
            forall|i: int|
                0 <= i < kinds@.len() ==> #[trigger] kinds@[i] == ContextFragmentKind::Project,
        decreases count - kinds.len(),
    {
        kinds.push(ContextFragmentKind::Project);
    }
    assert(kinds@ =~= Seq::new(count as nat, |i: int| ContextFragmentKind::Project));
    kinds
}

/// Messages with their wire forms.
pub open spec fn encoded_pairs(messages: Seq<MessageView>, wires: Seq<Seq<char>>) -> Seq<
    EncodedView,
> {
    Seq::new(messages.len(), |i: int| EncodedView { message: messages[i], wire: wires[i] })
}

fn encode(messages: &Vec<Message>, wires: Vec<String>) -> (encoded: Vec<EncodedMessage>)
    requires
        wires@.len() == messages@.len(),
    ensures
        prompt::encoded_views(encoded@) == encoded_pairs(
            message::message_views(messages@),
            text::texts(wires@),
        ),
{
    let mut encoded: Vec<EncodedMessage> = Vec::new();
    let mut i: usize = 0;
    while i < messages.len()
        invariant
            i <= messages.len(),
            wires@.len() == messages@.len(),
            encoded@.len() == i,
            forall|k: int|
                0 <= k < i ==> (#[trigger] encoded@[k])@ == (EncodedView {
                    message: messages@[k]@,
                    wire: wires@[k]@,
                }),
        decreases messages.len() - i,
    {
        encoded.push(EncodedMessage { message: messages[i].clone(), wire: wires[i].clone() });
        i += 1;
    }
    assert(prompt::encoded_views(encoded@) =~= encoded_pairs(
        message::message_views(messages@),
        text::texts(wires@),
    ));
    encoded
}

fn copy_kinds(kinds: &Vec<ContextFragmentKind>) -> (copy: Vec<ContextFragmentKind>)
    ensures
        copy@ == kinds@,
{
    let mut copy: Vec<ContextFragmentKind> = Vec::new();
    let mut i: usize = 0;
    while i < kinds.len()
        invariant
            i <= kinds.len(),
            copy@ == kinds@.take(i as int),
        decreases kinds.len() - i,
    {
        copy.push(kinds[i]);
        i += 1;
        assert(copy@ =~= kinds@.take(i as int));
    }
    assert(kinds@.take(i as int) =~= kinds@);
    copy
}

/// What a lap does first, in this order: a budget that is used up ends the run, a stop of the user
/// ends it, a stop that a tool asked for ends it, an error that is held back is recovered from, and
/// a context that is full, or asked to be compacted, is compacted. Else the lap samples.
pub proof fn law_laps_decide_in_order(state: RunState, cancelled: bool)
    ensures
        ({
            let spent = state.usage_budget;
            let reached = spent.reached(spent.tokens(), spent.spent_cost());
            let full = state.turn.budget.growth(state.turn.budget.current_input)
                >= state.turn.budget.auto_threshold;
            let decision = state.head_decision(cancelled);
            let free = reached is None && !cancelled;
            &&& reached is Some ==> decision == Some(TransitionView::Exhausted(reached->0))
            &&& reached is None && cancelled ==> decision == Some(
                TransitionView::Interrupted(InterruptReason::Cancelled),
            )
            &&& free && state.pending_abort is Some ==> decision == Some(
                TransitionView::Interrupted(state.pending_abort->0),
            )
            &&& free && state.pending_abort is None && state.pending is Some ==> decision == Some(
                TransitionView::Recover(state.pending->0),
            )
            &&& free && state.pending_abort is None && state.pending is None ==> {
                &&& full || state.force_compact || state.turn.required_profile_compaction is Some
                    ==> decision == Some(TransitionView::Compact(CompactKind::Auto))
                &&& !full && !state.force_compact && state.turn.required_profile_compaction is None
                    ==> decision is None
            }
        }),
{
}

/// Deciding uses up what it decides on and touches nothing else: a stop or an error that is taken
/// is no longer pending, a compaction that is taken is no longer asked for.
pub proof fn law_decisions_are_taken_once(
    state: RunState,
    cancelled: bool,
    decision: Option<Transition>,
    after: RunState,
)
    requires
        state.heads(cancelled, decision, after),
    ensures
        after.messages == state.messages,
        after.usage_budget == state.usage_budget,
        after.turn == state.turn,
        after.loop_guard == state.loop_guard,
        after.compaction == state.compaction,
        decision matches Some(taken) ==> {
            &&& taken@ is Recover ==> after.pending is None && taken@->Recover_0
                == state.pending->0
            &&& !(taken@ is Recover) ==> after.pending == state.pending
            &&& taken@ is Compact && state.turn.required_profile_compaction is None
                ==> !after.force_compact
            &&& taken@ is Interrupted && !cancelled ==> after.pending_abort is None
        },
        decision is None ==> after == state,
{
}

/// Inputs of the user follow the transcript in order and break a run of repeated calls; without
/// one nothing changes.
pub proof fn law_inputs_follow_the_transcript(state: RunState, inputs: Vec<Message>, after: RunState)
    requires
        state.takes_inputs(inputs, after),
    ensures
        after.views().len() == state.views().len() + inputs@.len(),
        after.views().take(state.views().len() as int) == state.views(),
        forall|i: int|
            0 <= i < inputs@.len() ==> #[trigger] after.views()[state.views().len() + i]
                == inputs@[i]@,
        inputs@.len() > 0 ==> after.loop_guard.count == 0 && after.loop_guard.last_sig is None,
        inputs@.len() == 0 ==> after.loop_guard.run() == state.loop_guard.run(),
        after.loop_guard.thresholds == state.loop_guard.thresholds,
        after.usage_budget == state.usage_budget,
        after.turn == state.turn,
{
    assert(after.views().take(state.views().len() as int) =~= state.views());
}

/// A step frame is put in place once for its generation, with its context and the tools of its
/// frozen dispatch; a frame with tools and no dispatch is refused. The transcript stays, and the
/// input is estimated anew.
pub proof fn law_frames_are_installed_once<C: TokenCounter>(
    state: RunState,
    frame: StepFrame,
    kinds: Vec<ContextFragmentKind>,
    dispatch: Option<ToolDispatchSnapshot>,
    counter: C,
    installed: Result<bool, AgentError>,
    after: RunState,
)
    requires
        state.installs(frame, kinds, dispatch, counter, installed, after),
    ensures
        after.messages == state.messages,
        after.usage_budget == state.usage_budget,
        state.step_generation == Some(frame.generation) ==> installed == Ok::<bool, AgentError>(
            false,
        ) && after == state,
        state.step_generation != Some(frame.generation) ==> after.step_generation == Some(
            frame.generation,
        ) && !(installed == Ok::<bool, AgentError>(false)),
        state.step_generation != Some(frame.generation) && dispatch is None && frame.tools@.len()
            > 0 ==> installed is Err && after.context == state.context && after.turn == state.turn,
        installed == Ok::<bool, AgentError>(true) ==> {
            let sum = budget::transcript_tokens(state.views(), counter)
                + after.turn.static_input_tokens;
            &&& after.context == frame.context_messages
            &&& dispatch matches Some(snapshot) ==> after.turn.tool_plan.specs == snapshot.specs
                && after.turn.tool_plan.wire == snapshot.wire
            &&& dispatch is None ==> after.turn.tool_plan.specs@.len() == 0
            &&& sum <= u32::MAX ==> after.turn.budget.current_input == sum
            &&& after.turn.budget.prefill_input == state.turn.budget.prefill_input
            &&& after.turn.budget.auto_threshold == state.turn.budget.auto_threshold
            &&& after.turn.model == state.turn.model && after.turn.attempt_ordinal
                == state.turn.attempt_ordinal
        },
{
    if installed == Ok::<bool, AgentError>(true) {
        agent::law_input_is_transcript_and_rest(
            state.views(),
            after.turn.static_input_tokens,
            counter,
        );
    }
}

/// Old results are pruned where the growth of the context comes up to the lower threshold, and only
/// there; where something was pruned the input is estimated anew and failures are forgotten.
pub proof fn law_pressure_is_relieved<C: TokenCounter>(
    state: RunState,
    counter: C,
    pruned: bool,
    after: RunState,
)
    requires
        state.relieves(counter, pruned, after),
    ensures
        after.views().len() == state.views().len(),
        state.turn.budget.growth(state.turn.budget.current_input)
            < state.turn.budget.micro_threshold ==> !pruned && after == state,
        state.turn.budget.growth(state.turn.budget.current_input)
            >= state.turn.budget.micro_threshold ==> after.views() == compaction::microcompacted(
            state.views(),
            state.config.micro_keep_recent as nat,
        ) && (pruned <==> after.views() != state.views()),
        pruned ==> after.compaction.consecutive_failures == 0 && after.turn.budget.current_input
            == agent::current_tokens(after.views(), state.turn.static_input_tokens, counter),
        !pruned ==> after.turn == state.turn && after.compaction == state.compaction,
        after.usage_budget == state.usage_budget,
{
    compaction::law_pruning_is_counted(state.views(), state.config.micro_keep_recent as nat);
}

/// After a change of model no opaque reasoning is left in the transcript; without one the
/// transcript stays as it is.
pub proof fn law_other_models_see_no_opaque_reasoning(
    state: RunState,
    forgotten: bool,
    after: RunState,
    i: int,
)
    requires
        state.forgets(forgotten, after),
        0 <= i < state.messages@.len(),
    ensures
        ({
            let moved = state.context_baseline is Some && state.turn.model_runtime is Some
                && state.context_baseline->0.profile_fingerprint@
                != state.turn.model_runtime->0.fingerprint@;
            &&& after.views().len() == state.views().len()
            &&& after.views()[i].role == state.views()[i].role
            &&& moved ==> !agent::holds_reasoning(after.views()[i])
            &&& !moved ==> after == state && !forgotten
            &&& moved && !agent::holds_reasoning(state.views()[i]) ==> after.views()[i]
                == state.views()[i]
            &&& moved && agent::holds_reasoning(state.views()[i]) ==> forgotten
            &&& after.turn == state.turn && after.usage_budget == state.usage_budget
        }),
{
    let keep = |block: BlockView| !(block is EncryptedReasoning);
    let message = state.views()[i];
    assert(message == state.messages@[i]@);
    if state.switched_model() {
        let kept = agent::without_reasoning(message);
        assert(after.views()[i] == kept);
        if agent::holds_reasoning(kept) {
            let k = choose|k: int|
                0 <= k < kept.content.len() && (#[trigger] kept.content[k]) is EncryptedReasoning;
            message.content.lemma_filter_pred(keep, k);
        }
        if !agent::holds_reasoning(message) {
            lemma_filter_all(message.content, keep);
        }
    }
}

proof fn lemma_filter_all(blocks: Seq<BlockView>, keep: spec_fn(BlockView) -> bool)
    requires
        forall|i: int| 0 <= i < blocks.len() ==> keep(#[trigger] blocks[i]),
    ensures
        blocks.filter(keep) == blocks,
    decreases blocks.len(),
{
    reveal(Seq::filter);
    if blocks.len() > 0 {
        let front = blocks.drop_last();
        assert forall|i: int| 0 <= i < front.len() implies keep(#[trigger] front[i]) by {
            assert(front[i] == blocks[i]);
        }
        lemma_filter_all(front, keep);
        assert(keep(blocks[blocks.len() - 1]));
        assert(blocks.filter(keep) =~= blocks);
    } else {
        assert(blocks.filter(keep) =~= blocks);
    }
}

/// A sampling is not opened where its input and the longest output it may give would come up to a
/// limit of tokens, on top of what was spent; where it is, a change of the baseline is told with
/// its causes, which are used up by that. The transcript stays.
pub proof fn law_unaffordable_samplings_are_not_opened<C: TokenCounter>(
    state: RunState,
    snapshot: PromptSnapshot,
    counter: C,
    opened: Result<Option<ContextTransition>, ExhaustReason>,
    after: RunState,
)
    requires
        state.opens(snapshot, counter, opened, after),
    ensures
        ({
            let estimate = agent::current_tokens(
                state.views(),
                after.turn.static_input_tokens,
                counter,
            );
            let spent = state.usage_budget;
            &&& after.messages == state.messages && after.usage_budget == state.usage_budget
                && after.config == state.config
            &&& spent.token_limit is None && spent.cost is None ==> opened is Ok
            &&& spent.token_limit is Some && spent.tokens() + estimate
                + state.config.max_output_tokens >= spent.token_limit->0 ==> opened is Err
                && opened->Err_0 is TokenBudget
            &&& spent.cost is Some && spent.spent_cost() >= spent.cost->0.limit_micro_usd
                ==> opened is Err
            &&& opened matches Ok(told) ==> {
                &&& prompt::opt_baseline(after.context_baseline) == Some(snapshot.baseline@)
                &&& after.turn.transition_causes@.len() == 0
                &&& !after.turn.budget.usage_seen
                &&& told is None <==> prompt::opt_baseline(state.context_baseline) == Some(
                    snapshot.baseline@,
                ) && state.turn.transition_causes@.len() == 0
                &&& told matches Some(moved) ==> moved.to@ == snapshot.baseline@
                    && prompt::opt_baseline(moved.from) == prompt::opt_baseline(
                    state.context_baseline,
                )
            }
            &&& opened is Err ==> after.context_baseline == state.context_baseline
                && after.turn.transition_causes == state.turn.transition_causes
        }),
{
    let spent = state.usage_budget;
    let estimate = agent::current_tokens(state.views(), after.turn.static_input_tokens, counter);
    if spent.cost is Some {
        guardrail::law_projection_adds_the_turn(
            spent,
            estimate as u64,
            state.config.max_output_tokens as u64,
        );
    }
}

/// A prompt is made of the whole transcript in order, of the context and of what is only for this
/// sampling, and of the model, the instructions, the tools and the limits of the turn. Where the
/// model is another one than before, a note about that comes first of what is only for this
/// sampling.
pub proof fn law_prompts_hold_the_transcript(
    state: RunState,
    context: Seq<Seq<char>>,
    messages: Seq<Seq<char>>,
    ephemeral: Seq<Seq<char>>,
    source: PromptSource,
    i: int,
)
    requires
        state.gathers(context, messages, ephemeral, source),
    ensures
        source.messages.len() == state.messages@.len(),
        0 <= i < state.messages@.len() ==> source.messages[i].message == state.messages@[i]@
            && source.messages[i].wire == messages[i],
        source.context.len() == state.context@.len(),
        0 <= i < state.context@.len() ==> source.context[i].encoded.message == state.context@[i]@
            && source.context[i].encoded.wire == context[i],
        !state.switched_model() ==> source.ephemeral.len() == state.ephemeral@.len() && (0 <= i
            < state.ephemeral@.len() ==> source.ephemeral[i].message == state.ephemeral@[i]@
            && source.ephemeral[i].wire == ephemeral[i]),
        state.switched_model() ==> source.ephemeral.len() == state.ephemeral@.len() + 1
            && source.ephemeral[0].message.role == Role::User && (0 <= i < state.ephemeral@.len()
            ==> source.ephemeral[i + 1].message == state.ephemeral@[i]@ && source.ephemeral[i
            + 1].wire == ephemeral[i]),
        source.model == state.turn.model@,
        source.system == text::opt_text(state.turn.system),
        source.plan_wire == state.turn.tool_plan.wire@,
        source.plan_fingerprint == state.turn.tool_plan.fingerprint@,
        source.max_output_tokens == state.config.max_output_tokens,
        source.reasoning_replay == state.turn.reasoning_replay,
        source.reasoning_effort == text::opt_text(state.turn.reasoning_effort),
{
}

/// A request sends the context, then the history, then what is only for this sampling, to the model
/// of the snapshot with its tools, and carries the identity of the turn alone.
pub proof fn law_requests_send_the_snapshot(
    state: RunState,
    snapshot: PromptSnapshot,
    request: CanonicalRequest,
)
    requires
        state.requests(snapshot, request),
    ensures
        ({
            let sent = message::message_views(request.messages@);
            let a = snapshot.context_messages@.len();
            let b = snapshot.messages@.len();
            let c = snapshot.ephemeral_messages@.len();
            &&& sent.len() == a + b + c
            &&& forall|i: int|
                0 <= i < a ==> #[trigger] sent[i] == snapshot.context_messages@[i]@
            &&& forall|i: int| 0 <= i < b ==> #[trigger] sent[a + i] == snapshot.messages@[i]@
            &&& forall|i: int|
                0 <= i < c ==> #[trigger] sent[a + b + i] == snapshot.ephemeral_messages@[i]@
            &&& request.model@ == snapshot.model@
            &&& request.max_output_tokens == snapshot.max_output_tokens
            &&& request.reasoning_replay == snapshot.reasoning_replay
            &&& text::opt_text(request.system) == text::opt_text(snapshot.system)
            &&& tool_spec::spec_views(request.tools@) == tool_spec::spec_views(
                snapshot.tool_plan.specs@,
            )
            &&& state.turn_id is None ==> request.client_metadata@.len() == 0
            &&& state.turn_id matches Some(id) ==> request.client_metadata@.len() == 1
                && request.client_metadata@[0] == (TURN_ID_METADATA_KEY@, id@)
            &&& request.cache_key is None && request.service_tier is None && request.output_schema
                is None
        }),
{
}

/// What clients are shown of a stream: text and reasoning word for word, quotas and metadata that
/// say something, items and what is not understood as they came; of calls and usage nothing.
pub proof fn law_clients_are_shown_the_stream(event: StreamEvent, shown: Option<AgentEvent>)
    requires
        RunState::shows(event, shown),
    ensures
        event matches StreamEvent::TextDelta { text } ==> shown is Some && shown->0 is Text
            && shown->0->Text_0@ == text@,
        event matches StreamEvent::ReasoningDelta { text } ==> shown is Some && shown->0
            is Reasoning && shown->0->Reasoning_0@ == text@,
        event matches StreamEvent::Quota { snapshot } ==> (shown is Some <==> snapshot.primary
            is Some || snapshot.secondary is Some) && (shown is Some ==> shown->0
            == AgentEvent::Quota(snapshot)),
        event matches StreamEvent::ResponseMetadata { metadata } ==> (shown is Some
            <==> !metadata.empty()),
        event is ReasoningReplayDisabled || event is ResponseItem || event is ProviderExtension
            || event is UnmappedItem ==> shown is Some,
        event is ToolCallStart || event is ToolCallDelta || event is ToolCallInputDone
            || event is ToolCallEnd || event is Usage || event is Done
            || event is EncryptedReasoning ==> shown is None,
{
}

/// A usage that is reported feeds the thresholds and the sum of the run; a replay that is refused
/// is given up for the run; no other event touches the state, and none the transcript.
pub proof fn law_streams_feed_the_counts<C: TokenCounter>(
    state: RunState,
    sampling: Sampling,
    event: StreamEvent,
    counter: C,
    shown: Result<Option<AgentEvent>, AgentError>,
    after: RunState,
    sampled: Sampling,
)
    requires
        state.reads(sampling, event, counter, shown, after, sampled),
    ensures
        after.messages == state.messages,
        after.usage_budget == state.usage_budget,
        sampled.accumulator@ == sampling.accumulator@.step(event).0,
        shown is Ok <==> sampling.accumulator@.step(event).1 is None,
        event matches StreamEvent::Usage { usage } ==> sampled.last_usage == Some(usage)
            && after.run_usage == state.run_usage.plus(usage) && after.turn.budget
            == state.turn.budget.with_usage(usage),
        !(event is Usage) ==> sampled.last_usage == sampling.last_usage && after.run_usage
            == state.run_usage && after.turn.budget == state.turn.budget
            && sampled.estimated_input == sampling.estimated_input,
        event is ReasoningReplayDisabled ==> !after.turn.reasoning_replay
            && after.turn.reasoning_replay_downgraded,
        !(event is Usage) && !(event is ReasoningReplayDisabled) ==> after == state,
{
}

/// A round-trip costs what the provider reported last; where it reported nothing, the estimate of
/// the input and of all that was generated.
pub proof fn law_every_round_trip_is_paid<C: TokenCounter>(
    state: RunState,
    sampling: Sampling,
    counter: C,
)
    ensures
        ({
            let (spent, budget) = state.counted(sampling, counter);
            let input = agent::current_tokens(
                state.views(),
                state.turn.static_input_tokens,
                counter,
            );
            let output = sampling.accumulator@.tokens(counter);
            &&& sampling.last_usage matches Some(usage) ==> spent == state.usage_budget.recorded(
                usage.input,
                usage.output,
            ) && budget == state.turn.budget
            &&& sampling.last_usage is None && output <= u32::MAX ==> spent
                == state.usage_budget.recorded(input as u64, output as u64)
            &&& sampling.last_usage is None && output > u32::MAX ==> spent
                == state.usage_budget.recorded(input as u64, u32::MAX as u64)
            &&& sampling.last_usage is None ==> budget.current_input == input
                && budget.prefill_input == state.turn.budget.prefill_input
            &&& state.lost(sampling, counter).usage_budget == spent
            &&& state.lost(sampling, counter).messages == state.messages
            &&& state.lost(sampling, counter).turn.budget == budget
        }),
{
}

/// A complete sampling is written to the transcript, behind what is there, exactly where it ends
/// the turn, goes on or calls tools, and brought something; else the transcript stays, and what was
/// shown of it is void. Each counts as a round-trip, and the next one has all its attempts.
pub proof fn law_samplings_are_written_or_void<C: TokenCounter>(
    state: RunState,
    sampling: Sampling,
    declared_window: Option<u32>,
    counter: C,
    settled: Settled,
    after: RunState,
)
    requires
        state.settles(sampling, declared_window, counter, settled, after),
    ensures
        ({
            let built = sampling.accumulator@;
            let decision = built.decision();
            let commits = decision is EndTurn || decision is Continue || decision is RunTools;
            let something = built.text.len() > 0 || built.reasoning.len() > 0
                || built.reasonings.len() > 0 || built.completed.len() > 0;
            &&& settled.transition@ == decision
            &&& commits && something ==> after.views() == state.views().push(built.message())
                && !settled.reset
            &&& !(commits && something) ==> after.views() == state.views()
            &&& !(commits && something) && (built.text.len() > 0 || built.reasoning.len() > 0)
                ==> settled.reset
            &&& built.text.len() == 0 && built.reasoning.len() == 0 ==> !settled.reset
            &&& commits ==> after.compaction.consecutive_failures == 0
            &&& !commits ==> after.compaction == state.compaction
            &&& state.model_turns < u32::MAX ==> after.model_turns == state.model_turns + 1
            &&& after.turn.attempt_ordinal == 1 && !after.turn.credential_refresh_attempted
            &&& after.usage_budget == state.counted(sampling, counter).0
            &&& after.run_usage == state.run_usage
            &&& after.loop_guard == state.loop_guard
            &&& settled.turn.index == after.model_turns
            &&& settled.turn.input_tokens == after.usage_budget.spent_input
            &&& settled.turn.output_tokens == after.usage_budget.spent_output
            &&& settled.turn.last_usage == sampling.last_usage
            &&& settled.turn.total_usage == state.run_usage
            &&& sampling.last_usage matches Some(usage) ==> settled.turn.context_tokens == Some(
                usage.input,
            )
            &&& sampling.last_usage is None ==> settled.turn.context_tokens is None
            &&& state.turn.model_runtime matches Some(runtime) ==> settled.turn.context_window
                == Some(runtime.context_window) && settled.turn.auto_compact_token_limit == Some(
                runtime.auto_compact_token_limit,
            )
            &&& state.turn.model_runtime is None ==> settled.turn.context_window == declared_window
                && settled.turn.auto_compact_token_limit is None
        }),
{
}

/// What an interrupted sampling brought is kept, if it brought anything.
pub proof fn law_interrupted_samplings_are_kept(state: RunState, sampling: Sampling, after: RunState)
    requires
        state.keeps(sampling, after),
    ensures
        ({
            let built = sampling.accumulator@;
            let something = built.text.len() > 0 || built.reasoning.len() > 0
                || built.reasonings.len() > 0 || built.completed.len() > 0;
            &&& something ==> after.views() == state.views().push(built.message())
            &&& !something ==> after.views() == state.views()
            &&& after.usage_budget == state.usage_budget && after.turn == state.turn
        }),
{
}

/// A failed opening counts as an attempt, unless it ends the run or the credential is refreshed,
/// which counts itself; an error that is held back is pending from then on, and the transcript
/// stays.
pub proof fn law_failed_openings_count<C: TokenCounter>(
    state: RunState,
    error: ProviderError,
    facts: FailureFacts,
    counter: C,
    plan: (ErrorClass, FailureAction),
    after: RunState,
)
    requires
        state.fails(error, facts, counter, plan, after),
        state.turn.attempt_ordinal < u32::MAX,
    ensures
        after.messages == state.messages,
        after.usage_budget == state.usage_budget,
        plan.1 is Fail || plan.1 is RefreshCredentials ==> after.turn.attempt_ordinal
            == state.turn.attempt_ordinal,
        !(plan.1 is Fail) && !(plan.1 is RefreshCredentials) ==> after.turn.attempt_ordinal
            == state.turn.attempt_ordinal + 1,
        plan.1 matches FailureAction::Withhold(kind) ==> after.pending == Some(
            PendingError { kind },
        ),
        !(plan.1 is Withhold) ==> after.pending == state.pending,
        plan.1 is DowngradeReplay ==> !after.turn.reasoning_replay
            && after.turn.reasoning_replay_downgraded,
        plan.1 is RefreshCredentials ==> after.turn.credential_refresh_attempted,
        plan.1@ matches ActionView::Retry { fallback_model: Some(slug), .. } ==> after.turn.model@
            == slug && after.turn.overload_fallback_used,
        state.refreshed().turn.attempt_ordinal == state.turn.attempt_ordinal + 1,
        state.refreshed().messages == state.messages,
{
}

/// A batch that repeats is answered in its calls' place, each call with the reminder; it does not
/// run. The last step of the ladder ends the run; a batch of exempt calls is not counted.
pub proof fn law_repeated_batches_do_not_run(
    state: RunState,
    calls: Vec<ToolInvocation>,
    exempt: Vec<bool>,
    step: ToolStep,
    after: RunState,
)
    requires
        state.guards(calls, exempt, step, after),
        guardrail::valid_ladder(state.loop_guard.thresholds@),
    ensures
        ({
            let views = tools::invocation_views(calls@);
            let signature = guardrail::batch_signature(views, exempt@);
            let same = signature is Some && state.loop_guard.run().signature == signature;
            let before = state.loop_guard.count;
            let steps = state.loop_guard.thresholds@;
            &&& after.usage_budget == state.usage_budget && after.turn == state.turn
            &&& signature is None ==> step is Proceed && after.views() == state.views()
                && after.loop_guard.run() == state.loop_guard.run()
            &&& signature is Some && !same ==> step is Proceed && after.views() == state.views()
                && after.loop_guard.count == 1 && after.loop_guard.run().signature == signature
            &&& same && before < u32::MAX ==> after.loop_guard.count == before + 1
            &&& same && before + 1 < steps[0] ==> step is Proceed && after.views() == state.views()
            &&& same && steps[0] <= before + 1 < steps[2] ==> step is Signal && after.views().len()
                == state.views().len() + calls@.len()
            &&& same && steps[2] <= before + 1 <= u32::MAX ==> step == ToolStep::Abort(
                ExhaustReason::ToolLoop { count: (before + 1) as u32 },
            ) && after.views() == state.views()
        }),
{
}

/// Results that match their calls are written behind the transcript, one message for each and in
/// their order, each under the identifier of its call; others are refused and change nothing. A
/// result that ends the turn or asks for a fresh window has that happen at the next lap.
pub proof fn law_results_are_written_in_order<C: TokenCounter>(
    state: RunState,
    expected_ids: Vec<ToolCallId>,
    outcomes: Vec<ModelToolResult>,
    counter: C,
    accepted: Result<Vec<ModelToolResult>, AgentError>,
    after: RunState,
    i: int,
)
    requires
        state.accepts(expected_ids, outcomes, counter, accepted, after),
    ensures
        accepted is Err ==> after == state,
        accepted is Ok <==> agent::outcome_fault(
            text::texts(expected_ids@),
            agent::outcome_ids(outcomes@),
        ) is None,
        accepted is Ok ==> {
            &&& after.views().len() == state.views().len() + outcomes@.len()
            &&& after.views().take(state.views().len() as int) == state.views()
            &&& 0 <= i < outcomes@.len() ==> {
                let written = after.views()[state.views().len() + i];
                &&& written.role == Role::Tool
                &&& written.content.len() == 1
                &&& written.content[0] is ToolResult
                &&& written.content[0]->tool_use_id == outcomes@[i].id@
                &&& written.content[0]->untrusted == outcomes@[i].untrusted
                &&& outcomes@[i].aborts_turn ==> after.pending_abort == Some(
                    InterruptReason::ToolAborted,
                )
                &&& outcomes@[i].requests_compaction ==> after.force_compact
            }
            &&& state.force_compact ==> after.force_compact
            &&& state.turn.budget.growth(
                agent::current_tokens(after.views(), state.turn.static_input_tokens, counter),
            ) >= state.turn.budget.auto_threshold ==> after.force_compact
            &&& (forall|k: int|
                0 <= k < outcomes@.len() ==> !(#[trigger] outcomes@[k]).aborts_turn)
                ==> after.pending_abort == state.pending_abort
            &&& after.turn == state.turn && after.usage_budget == state.usage_budget
        },
{
    if accepted is Ok {
        assert(after.views().take(state.views().len() as int) =~= state.views());
        let results = accepted->Ok_0;
        if 0 <= i < outcomes@.len() {
            assert(bounded_from(
                results@[i],
                outcomes@[i],
                agent::limits_of(state.turn.model_runtime),
                counter,
            ));
            assert(after.views()[state.views().len() + i] == MessageView::tool_result(results@[i]));
        }
    }
}

/// A compaction costs what its summary cost; growth is measured anew from what it left, failures
/// are forgotten, and the prompt after it starts a new baseline, unless it was due to a change of
/// model, which is done with it.
pub proof fn law_compactions_are_paid<C: TokenCounter>(
    state: RunState,
    kind: CompactKind,
    usage: TokenUsage,
    counter: C,
    after: RunState,
)
    requires
        state.compacts(kind, usage, counter, after),
    ensures
        after.messages == state.messages,
        after.usage_budget == state.usage_budget.recorded(usage.input, usage.output),
        after.run_usage == state.run_usage,
        after.compaction.consecutive_failures == 0,
        after.turn.budget.current_input == agent::current_tokens(
            state.views(),
            state.turn.static_input_tokens,
            counter,
        ),
        after.turn.budget.growth(after.turn.budget.current_input) == 0,
        kind != CompactKind::Reactive ==> after.turn.required_profile_compaction is None,
        kind == CompactKind::Reactive || state.turn.required_profile_compaction is None
            ==> after.context_baseline is None && after.turn.transition_causes@.last()
            == ContextTransitionCause::Compaction && after.turn.transition_causes@.drop_last()
            == state.turn.transition_causes@,
        kind != CompactKind::Reactive && state.turn.required_profile_compaction is Some
            ==> after.context_baseline == state.context_baseline
            && after.turn.transition_causes@ == state.turn.transition_causes@,
{
    assert(state.turn.transition_causes@.push(
        ContextTransitionCause::Compaction,
    ).drop_last() =~= state.turn.transition_causes@);
}

/// A compaction that failed is counted; as many in a row as the settings allow end the run, and
/// before that old results are pruned in its place, which ends the row where it helps. One that a
/// change of model needs ends the run at once.
pub proof fn law_failed_compactions_are_counted<C: TokenCounter>(
    state: RunState,
    counter: C,
    pruned: Result<bool, AgentError>,
    after: RunState,
)
    requires
        state.misses(counter, pruned, after),
        state.compaction.consecutive_failures < u32::MAX,
    ensures
        ({
            let failures = state.compaction.consecutive_failures + 1;
            let needed = state.turn.required_profile_compaction is Some;
            let breaks = failures >= state.config.compaction_breaker_limit;
            &&& pruned is Err <==> needed || breaks
            &&& pruned is Err ==> after.messages == state.messages
            &&& !needed && breaks ==> pruned->Err_0@ == AgentFault::CompactionCircuitBreaker(
                failures as u32,
            ) && after.compaction.consecutive_failures == failures
            &&& !needed && !breaks ==> {
                &&& after.views() == compaction::microcompacted(
                    state.views(),
                    state.config.micro_keep_recent as nat,
                )
                &&& pruned->Ok_0 <==> after.views() != state.views()
                &&& pruned->Ok_0 ==> after.compaction.consecutive_failures == 0
                &&& !pruned->Ok_0 ==> after.compaction.consecutive_failures == failures
                &&& after.turn.budget.current_input == agent::current_tokens(
                    after.views(),
                    state.turn.static_input_tokens,
                    counter,
                )
            }
            &&& after.usage_budget == state.usage_budget
        }),
{
    compaction::law_pruning_is_counted(state.views(), state.config.micro_keep_recent as nat);
}

/// What is told of a run that stopped: why, from when to when, how long, and how many calls were
/// answered for it.
pub proof fn law_stops_are_told(
    state: RunState,
    reason: InterruptReason,
    reconciled: nat,
    now_ms: u64,
)
    ensures
        ({
            let view = state.stop_view(reason, reconciled, now_ms);
            &&& view.reason == reason
            &&& view.started_at_ms == Some(state.started_ms)
            &&& view.completed_at_ms == Some(now_ms)
            &&& now_ms >= state.started_ms ==> view.duration_ms == Some(
                (now_ms - state.started_ms) as u64,
            )
            &&& now_ms < state.started_ms ==> view.duration_ms == Some(0u64)
            &&& reconciled <= u32::MAX ==> view.reconciled_tool_calls == reconciled
        }),
{
}

/// A run cannot start with a model that is not one, nor with a window that leaves no room; the
/// window is that of the resolved model where there is one.
pub proof fn law_runs_start_with_a_usable_model(context: AgentContext, provider_context: u32)
    ensures
        context.model_runtime is None ==> (start_fault(context, provider_context) is None <==> 0
            < context.config.max_output_tokens < provider_context),
        context.model_runtime matches Some(runtime) ==> (start_fault(context, provider_context)
            is None <==> runtime@.fault() is None && 0 < runtime.max_output_tokens
            < runtime.context_window),
        context.model_runtime matches Some(runtime) ==> start_config(context).max_output_tokens
            == runtime.max_output_tokens && start_config(context).overload_fallback_model is None,
        context.model_runtime is None ==> start_config(context) == context.config,
{
}

/// A run starts with its transcript as it was given, nothing spent, nothing pending, and its own
/// limits.
pub proof fn law_runs_start_afresh(
    state: RunState,
    context: AgentContext,
    baseline: Option<ContextBaseline>,
    now_ms: u64,
)
    requires
        state.fresh(context, baseline, now_ms),
    ensures
        state.messages == context.messages && state.context == context.context_messages
            && state.ephemeral == context.ephemeral_messages,
        state.usage_budget.spent_input == 0 && state.usage_budget.spent_output == 0,
        state.usage_budget.token_limit == context.config.token_budget && state.usage_budget.cost
            == context.config.cost_budget,
        state.run_usage.total_tokens() == 0 && state.model_turns == 0,
        state.pending is None && state.pending_abort is None && !state.force_compact,
        state.compaction.consecutive_failures == 0 && state.loop_guard.count == 0,
        state.started_ms == now_ms && state.context_baseline == baseline,
{
}

/// A run starts under its model: the resolved one with its own instructions, effort, window and
/// modes, else the one that was asked for with the window of the provider; with all its attempts,
/// and none of its remedies used. A transcript of another compaction profile is compacted first.
pub proof fn law_runs_start_under_their_model<C: TokenCounter>(
    state: RunState,
    context: AgentContext,
    tools_wire: Seq<char>,
    provider_context: u32,
    baseline: Option<ContextBaseline>,
    counter: C,
)
    requires
        state.turn_started(context, tools_wire, provider_context, baseline, counter),
    ensures
        ({
            let turn = state.turn;
            &&& context.model_runtime matches Some(runtime) ==> {
                &&& turn.model@ == runtime.slug@
                &&& turn.budget.max_context == runtime.context_window
                    && turn.budget.output_reserve == runtime.max_output_tokens
                    && turn.budget.auto_threshold == runtime.auto_compact_token_limit
                &&& turn.parallel_tools == runtime.supports_parallel_tool_calls
                &&& turn.reasoning_replay <==> runtime.reasoning_replay
                    == ReasoningReplaySupport::Enabled
                &&& context.system is None ==> text::opt_text(turn.system) == Some(
                    runtime.instructions@,
                )
            }
            &&& context.model_runtime is None ==> {
                &&& turn.model@ == context.model@
                &&& turn.budget.max_context == provider_context && turn.budget.output_reserve
                    == context.config.max_output_tokens
                &&& turn.parallel_tools && !turn.reasoning_replay
                &&& text::opt_text(turn.system) == text::opt_text(context.system)
            }
            &&& context.system matches Some(system) ==> text::opt_text(turn.system) == Some(system@)
            &&& turn.tool_plan.specs == context.tools && turn.tool_plan.wire@ == tools_wire
            &&& turn.attempt_ordinal == 1 && turn.attempt_policy.max_attempts >= 1
            &&& !turn.overload_fallback_used && !turn.credential_refresh_attempted
                && !turn.reasoning_replay_downgraded
            &&& turn.budget.current_input == 0 && !turn.budget.usage_seen
            &&& turn.required_profile_compaction is Some <==> baseline is Some
                && context.model_runtime is Some && text::opt_text(baseline->0.comp_hash)
                != text::opt_text(context.model_runtime->0.comp_hash)
            &&& turn.required_profile_compaction matches Some(slug) ==> slug@
                == baseline->0.model_slug@
        }),
{
}

/// Attempts are numbered by round-trip, from one, and carry the identities of their prompt.
pub proof fn law_attempts_name_their_prompt(
    state: RunState,
    snapshot: PromptSnapshot,
    attempt: AttemptContext,
)
    requires
        state.attempts(snapshot, attempt),
        state.model_turns < u32::MAX,
    ensures
        attempt.step == state.model_turns + 1,
        attempt.prompt_fingerprint@ == snapshot.fingerprint@,
        attempt.model_runtime_fingerprint@ == snapshot.baseline@.profile_fingerprint,
        attempt.tool_plan_fingerprint@ == snapshot.baseline@.tool_plan_fingerprint,
        text::opt_text(attempt.turn_id) == text::opt_text(state.turn_id),
{
}

/// A stop answers every open call, in order, and tells clients of each that it was cancelled.
pub proof fn law_stops_answer_every_call(
    state: RunState,
    told: Vec<ToolResultView>,
    after: RunState,
    i: int,
)
    requires
        state.stops(told, after),
    ensures
        told@.len() == message::unanswered(state.views()).len(),
        after.views().len() == state.views().len() + told@.len(),
        message::unanswered(after.views()).len() == 0,
        0 <= i < told@.len() ==> told@[i].id@ == message::unanswered(state.views())[i]
            && told@[i].is_error && told@[i].status == Some(ToolResultStatus::Cancelled),
        after.usage_budget == state.usage_budget,
{
    agent::law_reconciled_transcripts_are_answered(state.views());
    if 0 <= i < told@.len() {
        assert(agent::tells_of_interruption(told@[i], message::unanswered(state.views())[i]));
    }
}

} // verus!
