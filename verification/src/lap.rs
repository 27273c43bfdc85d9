//! The loop of a run, as a step from what happened to what comes next: the caller performs an
//! action and hands back what came of it, and the step tells clients and names the next action.
use crate::agent;
use crate::agent::{AgentContext, AttemptContext};
use crate::compaction;
use crate::compaction::CompactKind;
use crate::error;
use crate::error::{AgentError, AgentFault};
use crate::event::{
    AgentEvent, CredentialRefreshOutcome, InterruptReason, ToolCallKind, ToolCallView,
    ToolResultView,
};
use crate::message;
use crate::message::{Message, ToolCallId};
use crate::prompt::{ContextBaseline, ContextTransition, PromptSnapshot};
use crate::provider::{CanonicalResponse, ErrorClass, ProviderError, StreamEvent, TokenUsage};
use crate::request::CanonicalRequest;
use crate::run;
use crate::run::{RunState, Sampling, Settled, ToolStep};
use crate::step::{ContextFragmentKind, StepFrame};
use crate::text;
use crate::tokenizer::TokenCounter;
use crate::tools::{ModelToolResult, ToolDispatchSnapshot, ToolInvocation};
use crate::transition::{ExhaustReason, Transition};
use crate::turn::{FailureAction, FailureFacts};
use vstd::prelude::*;
use vstd::string::*;

verus! {

// ---------------------------------------------------------------- actions and events

/// What is to be done next.
#[derive(Debug, PartialEq, Eq)]
pub enum Action {
    /// Write the transcript.
    Write,
    /// Take the inputs that the user gave meanwhile.
    TakeInputs,
    /// Read the step frame, where there is a source of frames.
    ReadFrame,
    /// Record that the opaque reasoning written so far counts no more.
    Redact,
    /// Give the wire forms of the context, of the transcript and of the messages behind it.
    Encode,
    /// Record a move of the baseline.
    Record(ContextTransition),
    /// Open a stream.
    Open(CanonicalRequest),
    /// Wait for a stop, an input or the stream, in this order.
    Listen,
    /// Refresh the credential.
    Refresh,
    /// Wait so many milliseconds.
    Sleep(u128),
    /// Say of each call what its dispatcher knows of it.
    Examine,
    /// Run the calls.
    Dispatch(Vec<ToolInvocation>),
    /// Give the context window of a model.
    Measure(String),
    /// Have a summary written.
    Complete(CanonicalRequest),
    /// Write the compacted transcript.
    Checkpoint(CompactKind),
    /// Nothing: the run is over.
    End,
}

/// A step frame with the registry read that its tools come from.
#[derive(Debug, PartialEq, Eq)]
pub struct FrameRead {
    pub frame: StepFrame,
    pub kinds: Vec<ContextFragmentKind>,
    pub dispatch: Option<ToolDispatchSnapshot>,
}

/// What a dispatcher knows of a call.
#[derive(Debug, PartialEq, Eq)]
pub struct CallFacts {
    /// Whether repeating the call is its purpose.
    pub exempt: bool,
    pub kind: ToolCallKind,
}

/// What came of an action.
#[derive(Debug, PartialEq, Eq)]
pub enum Event {
    /// Something was written, or could not be; whether a stop was asked for, and the time.
    Written { outcome: Result<(), String>, cancelled: bool, now_ms: u64 },
    Inputs(Vec<Message>),
    Frame(Option<FrameRead>),
    Encoded { context: Vec<String>, messages: Vec<String>, ephemeral: Vec<String> },
    Opened,
    Streamed(StreamEvent),
    /// The stream came to its end; the window that the provider declares for the model.
    Ended(Option<u32>),
    Failed { error: ProviderError, facts: FailureFacts },
    /// An input of the user waits.
    Steered,
    /// A stop was asked for before the action was done.
    Cancelled,
    Refreshed(Result<(), ProviderError>),
    Slept,
    Examined(Vec<CallFacts>),
    Ran(Vec<ModelToolResult>),
    Measured(u32),
    Completed(Result<CanonicalResponse, ProviderError>),
}

/// Where in a lap a run stands: what it waits for, and what it needs then.
#[derive(Debug, PartialEq, Eq)]
pub enum Phase {
    Head,
    Inputs,
    Frame,
    Redacting,
    Encoding,
    Recording { snapshot: PromptSnapshot },
    Opening { attempt: AttemptContext },
    Listening { attempt: AttemptContext, sampling: Sampling },
    Refreshing { attempt: AttemptContext, class: ErrorClass },
    Sleeping,
    Calling { calls: Vec<ToolInvocation> },
    Examining { calls: Vec<ToolInvocation> },
    Running { ids: Vec<ToolCallId> },
    Measuring { kind: CompactKind, recovering: bool, model: String },
    Summarizing { kind: CompactKind, recovering: bool },
    Checkpointing { kind: CompactKind, usage: TokenUsage },
    Stopping { reason: InterruptReason, reconciled: usize },
    Closing,
    Over,
}

/// A run with the place in its lap.
#[derive(Debug, PartialEq, Eq)]
pub struct Lap {
    pub state: RunState,
    pub phase: Phase,
}

/// What follows an event: the run, what clients are told, and what is to be done.
#[derive(Debug, PartialEq, Eq)]
pub struct Next {
    pub lap: Lap,
    pub told: Vec<AgentEvent>,
    pub action: Action,
}

/// The last event of a run.
pub open spec fn terminal(event: AgentEvent) -> bool {
    event is EndTurn || event is Interrupted || event is Exhausted || event is Error
}

/// What tells clients to erase what they show, where they show something.
pub open spec fn resets(visible: bool) -> Seq<AgentEvent> {
    if visible {
        seq![AgentEvent::StreamReset]
    } else {
        seq![]
    }
}

/// Whether clients are told of each result, in order.
pub open spec fn tells_results(told: Seq<AgentEvent>, results: Seq<ModelToolResult>) -> bool {
    &&& told.len() == results.len()
    &&& forall|i: int|
        0 <= i < results.len() ==> (#[trigger] told[i] matches AgentEvent::ToolResult(view)
            && view.tells(results[i]))
}

/// Whether clients are told of each call, in order.
pub open spec fn tells_calls(
    told: Seq<AgentEvent>,
    calls: Seq<ToolInvocation>,
    facts: Seq<CallFacts>,
) -> bool {
    &&& told.len() == calls.len()
    &&& forall|i: int|
        0 <= i < calls.len() ==> (#[trigger] told[i] matches AgentEvent::ToolCall(view) && view.id@
            == calls[i].id@ && view.name@ == calls[i].name@ && view.input@ == calls[i].input@
            && view.kind == facts[i].kind)
}

// ---------------------------------------------------------------- what follows what

impl Next {
    /// A new lap begins.
    pub open spec fn again(self, state: RunState) -> bool {
        self.lap.state == state && self.lap.phase is Head && self.action is Write
    }

    /// The run is over.
    pub open spec fn over(self, state: RunState) -> bool {
        self.lap.state == state && self.lap.phase is Over && self.action is End
    }

    /// The run is over with an error.
    pub open spec fn fails(self, state: RunState, fault: AgentFault) -> bool {
        self.over(state) && self.told@.len() == 1 && (self.told@[0] matches AgentEvent::Error(e)
            && e@ == fault)
    }

    /// What a decision leads to, after clients were told `before`.
    pub open spec fn enters(
        self,
        state: RunState,
        transition: Transition,
        before: Seq<AgentEvent>,
    ) -> bool {
        match transition {
            Transition::Continue => self.again(state) && self.told@ == before,
            Transition::EndTurn => {
                &&& self.lap == (Lap { state, phase: Phase::Closing })
                &&& self.action is Write
                &&& self.told@ == before
            },
            Transition::RunTools(calls) => {
                &&& self.lap == (Lap { state, phase: Phase::Calling { calls } })
                &&& self.action is Write
                &&& self.told@ == before
            },
            Transition::Compact(kind) => self.measures(
                state,
                kind,
                false,
                match state.turn.required_profile_compaction {
                    Some(slug) => slug@,
                    None => state.turn.model@,
                },
                before,
            ),
            Transition::Recover(_) => self.measures(
                state,
                CompactKind::Reactive,
                true,
                state.turn.model@,
                before,
            ),
            Transition::Interrupted(reason) => exists|views: Vec<ToolResultView>|
                {
                    &&& #[trigger] state.stops(views, self.lap.state)
                    &&& self.lap.phase == (Phase::Stopping { reason, reconciled: views.len() })
                    &&& self.action is Write
                    &&& self.told@ == before + views@.map_values(
                        |view: ToolResultView| AgentEvent::ToolResult(view),
                    )
                },
            Transition::Exhausted(reason) => {
                &&& self.over(state)
                &&& self.told@ == before.push(AgentEvent::Exhausted(reason))
            },
            Transition::Fail(error) => {
                &&& self.over(state)
                &&& self.told@ == before.push(AgentEvent::Error(error))
            },
        }
    }

    /// A compaction begins: the window of its model is asked for.
    pub open spec fn measures(
        self,
        state: RunState,
        kind: CompactKind,
        recovering: bool,
        model: Seq<char>,
        before: Seq<AgentEvent>,
    ) -> bool {
        &&& self.lap.state == state
        &&& self.lap.phase matches Phase::Measuring { kind: k, recovering: r, model: m } && k == kind
            && r == recovering && m@ == model
        &&& self.action matches Action::Measure(name) && name@ == model
        &&& self.told@ == before
    }

    /// The pressure is relieved and foreign reasoning forgotten, before the prompt is encoded.
    pub open spec fn prepares<C: TokenCounter>(self, state: RunState, counter: C) -> bool {
        exists|pruned: bool, forgotten: bool, eased: RunState|
            {
                &&& #[trigger] state.relieves(counter, pruned, eased)
                &&& #[trigger] eased.forgets(forgotten, self.lap.state)
                &&& self.told@ == (if pruned {
                    seq![AgentEvent::Compacted(CompactKind::Micro)]
                } else {
                    seq![]
                })
                &&& if forgotten {
                    self.lap.phase is Redacting && self.action is Redact
                } else {
                    self.lap.phase is Encoding && self.action is Encode
                }
            }
    }

    /// The request of a prompt is sent, or its fault ends the run.
    pub open spec fn sends(self, state: RunState, snapshot: PromptSnapshot) -> bool {
        exists|request: Result<CanonicalRequest, AgentError>|
            #[trigger] state.sends(snapshot, request) && match request {
                Ok(sent) => {
                    &&& self.lap.state == state
                    &&& self.lap.phase matches Phase::Opening { attempt } && state.attempts(
                        snapshot,
                        attempt,
                    )
                    &&& self.action == Action::Open(sent)
                    &&& self.told@.len() == 0
                },
                Err(e) => self.over(state) && self.told@ == seq![AgentEvent::Error(e)],
            }
    }

    /// What follows a sampling that failed, of which clients may show something.
    pub open spec fn recovers<C: TokenCounter>(
        self,
        state: RunState,
        attempt: AttemptContext,
        visible: bool,
        error: ProviderError,
        facts: FailureFacts,
        counter: C,
    ) -> bool {
        exists|plan: (ErrorClass, FailureAction), planned: RunState|
            #[trigger] state.fails(error, facts, counter, plan, planned) && self.follows(
                planned,
                attempt,
                resets(visible),
                plan,
            )
    }

    /// What follows a plan after a failure.
    pub open spec fn follows(
        self,
        state: RunState,
        attempt: AttemptContext,
        before: Seq<AgentEvent>,
        plan: (ErrorClass, FailureAction),
    ) -> bool {
        let told = self.told@;
        let ordinal = state.turn.attempt_ordinal;
        let policy = state.turn.attempt_policy;
        match plan.1 {
            FailureAction::Fail(e) => self.over(state) && told == before.push(AgentEvent::Error(e)),
            FailureAction::Withhold(_) => {
                &&& self.again(state)
                &&& told == before.push(told.last())
                &&& attempt.schedules(told.last(), ordinal, policy, plan.0, 0, None)
            },
            FailureAction::DowngradeReplay => {
                &&& self.again(state)
                &&& told == before.push(told[before.len() as int]).push(told.last())
                &&& told[before.len() as int] matches AgentEvent::ReasoningReplayDisabled { reason }
                    && reason@ == "backend rejected encrypted reasoning replay"@
                &&& attempt.schedules(told.last(), ordinal, policy, plan.0, 0, None)
            },
            FailureAction::RefreshCredentials => {
                &&& self.lap == (Lap { state, phase: Phase::Refreshing { attempt, class: plan.0 } })
                &&& self.action is Refresh
                &&& told == before.push(told.last())
                &&& attempt.refreshes(told.last(), ordinal, CredentialRefreshOutcome::Started)
            },
            FailureAction::Retry { delay_ms, fallback_model } => {
                &&& told == before.push(told.last())
                &&& attempt.schedules(
                    told.last(),
                    ordinal,
                    policy,
                    plan.0,
                    delay_ms,
                    fallback_model,
                )
                &&& if delay_ms > 0 {
                    self.lap.state == state && self.lap.phase is Sleeping && self.action
                        == Action::Sleep(delay_ms)
                } else {
                    self.again(state)
                }
            },
        }
    }

    /// What follows a compaction that failed for a reason.
    pub open spec fn misses<C: TokenCounter>(
        self,
        state: RunState,
        recovering: bool,
        reason: Seq<char>,
        counter: C,
    ) -> bool {
        if recovering {
            self.fails(state, AgentFault::ContextUnrecoverable(reason))
        } else {
            exists|pruned: Result<bool, AgentError>, after: RunState|
                #[trigger] state.misses(counter, pruned, after) && match pruned {
                    Ok(changed) => self.again(after) && self.told@ == (if changed {
                        seq![AgentEvent::Compacted(CompactKind::Micro)]
                    } else {
                        seq![]
                    }),
                    Err(e) => self.over(after) && self.told@ == seq![AgentEvent::Error(e)],
                }
        }
    }
}

impl Lap {
    /// What holds of every lap.
    pub open spec fn wf(self) -> bool {
        self.state.wf()
    }

    /// Whether an event is what the run waits for.
    pub open spec fn awaits(self, event: Event) -> bool {
        match self.phase {
            Phase::Head => event is Written,
            Phase::Inputs => event is Inputs,
            Phase::Frame => event is Frame,
            Phase::Redacting => event is Written,
            Phase::Encoding => event matches Event::Encoded { context, messages, ephemeral }
                && context@.len() == self.state.context@.len() && messages@.len()
                == self.state.messages@.len() && ephemeral@.len() == self.state.ephemeral@.len(),
            Phase::Recording { .. } => event is Written,
            Phase::Opening { .. } => event is Opened || event is Failed || event is Cancelled,
            Phase::Listening { .. } => event is Streamed || event is Ended || event is Failed
                || event is Steered || event is Cancelled,
            Phase::Refreshing { .. } => event is Refreshed || event is Cancelled,
            Phase::Sleeping => event is Slept,
            Phase::Calling { .. } => event is Written,
            Phase::Examining { calls } => event matches Event::Examined(facts) && facts@.len()
                == calls@.len(),
            Phase::Running { .. } => event is Ran || event is Cancelled,
            Phase::Measuring { .. } => event is Measured,
            Phase::Summarizing { .. } => event is Completed || event is Cancelled,
            Phase::Checkpointing { .. } => event is Written,
            Phase::Stopping { .. } => event is Written,
            Phase::Closing => event is Written,
            Phase::Over => false,
        }
    }

    /// What follows a write that was done.
    pub open spec fn wrote<C: TokenCounter>(
        self,
        cancelled: bool,
        now_ms: u64,
        next: Next,
        counter: C,
    ) -> bool {
        match self.phase {
            Phase::Head => exists|decision: Option<Transition>, after: RunState|
                #[trigger] self.state.heads(cancelled, decision, after) && match decision {
                    Some(transition) => next.enters(after, transition, seq![]),
                    None => {
                        &&& next.lap == (Lap { state: after, phase: Phase::Inputs })
                        &&& next.action is TakeInputs
                        &&& next.told@.len() == 0
                    },
                },
            Phase::Redacting => {
                &&& next.lap == (Lap { state: self.state, phase: Phase::Encoding })
                &&& next.action is Encode
                &&& next.told@.len() == 0
            },
            Phase::Recording { snapshot } => next.sends(self.state, snapshot),
            Phase::Calling { calls } => {
                &&& next.lap == (Lap { state: self.state, phase: Phase::Examining { calls } })
                &&& next.action is Examine
                &&& next.told@.len() == 0
            },
            Phase::Checkpointing { kind, usage } => {
                &&& self.state.compacts(kind, usage, counter, next.lap.state)
                &&& next.again(next.lap.state)
                &&& next.told@ == seq![AgentEvent::Compacted(kind)]
            },
            Phase::Stopping { reason, reconciled } => {
                &&& next.over(self.state)
                &&& next.told@ == seq![
                    AgentEvent::Interrupted(
                        self.state.stop_view(reason, reconciled as nat, now_ms),
                    ),
                ]
            },
            _ => next.over(self.state) && next.told@ == seq![AgentEvent::EndTurn],
        }
    }

    /// What follows the wire forms of a prompt.
    pub open spec fn encoded<C: TokenCounter>(
        self,
        context: Seq<Seq<char>>,
        messages: Seq<Seq<char>>,
        ephemeral: Seq<Seq<char>>,
        next: Next,
        counter: C,
    ) -> bool {
        exists|captured: Result<PromptSnapshot, AgentError>|
            #[trigger] self.state.captures(context, messages, ephemeral, captured) && match captured {
                Ok(snapshot) => exists|
                    opened: Result<Option<ContextTransition>, ExhaustReason>,
                    after: RunState,
                |
                    #[trigger] self.state.opens(snapshot, counter, opened, after) && match opened {
                        Ok(None) => next.sends(after, snapshot),
                        Ok(Some(moved)) => {
                            &&& next.lap == (Lap {
                                state: after,
                                phase: Phase::Recording { snapshot },
                            })
                            &&& next.action == Action::Record(moved)
                            &&& next.told@.len() == 0
                        },
                        Err(reason) => next.over(after) && next.told@ == seq![
                            AgentEvent::Exhausted(reason),
                        ],
                    },
                Err(e) => next.over(self.state) && next.told@ == seq![AgentEvent::Error(e)],
            }
    }

    /// What follows an event while the stream is listened to.
    pub open spec fn listened<C: TokenCounter>(
        self,
        attempt: AttemptContext,
        sampling: Sampling,
        event: Event,
        next: Next,
        counter: C,
    ) -> bool {
        match event {
            Event::Streamed(streamed) => exists|
                shown: Result<Option<AgentEvent>, AgentError>,
                after: RunState,
                sampled: Sampling,
            |
                #[trigger] self.state.reads(sampling, streamed, counter, shown, after, sampled)
                    && match shown {
                    Ok(shown) => {
                        &&& next.lap == (Lap {
                            state: after,
                            phase: Phase::Listening { attempt, sampling: sampled },
                        })
                        &&& next.action is Listen
                        &&& next.told@ == (match shown {
                            Some(event) => seq![event],
                            None => seq![],
                        })
                    },
                    Err(e) => next.over(after) && next.told@ == seq![AgentEvent::Error(e)],
                },
            Event::Ended(window) => exists|settled: Settled, after: RunState|
                #[trigger] self.state.settles(sampling, window, counter, settled, after)
                    && next.enters(
                    after,
                    settled.transition,
                    seq![AgentEvent::ModelTurn(settled.turn)] + resets(settled.reset),
                ),
            Event::Failed { error, facts } => next.recovers(
                self.state.lost(sampling, counter),
                attempt,
                sampling.accumulator@.visible(),
                error,
                facts,
                counter,
            ),
            Event::Steered => next.again(self.state) && next.told@ == resets(
                sampling.accumulator@.visible(),
            ),
            _ => {
                &&& self.state.keeps(sampling, next.lap.state)
                &&& next.again(next.lap.state)
                &&& next.told@.len() == 0
            },
        }
    }

    /// What follows what a dispatcher knows of the calls.
    pub open spec fn examined(
        self,
        calls: Vec<ToolInvocation>,
        facts: Seq<CallFacts>,
        next: Next,
    ) -> bool {
        exists|exempt: Vec<bool>, step: ToolStep, after: RunState|
            {
                &&& #[trigger] self.state.guards(calls, exempt, step, after)
                &&& exempt@ == facts.map_values(|fact: CallFacts| fact.exempt)
                &&& match step {
                    ToolStep::Abort(reason) => next.over(after) && next.told@ == seq![
                        AgentEvent::Exhausted(reason),
                    ],
                    ToolStep::Signal(results) => next.again(after) && tells_results(
                        next.told@,
                        results@,
                    ),
                    ToolStep::Proceed => {
                        &&& next.lap.state == after
                        &&& next.lap.phase matches Phase::Running { ids } && text::texts(ids@)
                            == calls@.map_values(|call: ToolInvocation| call.id@)
                        &&& next.action == Action::Dispatch(calls)
                        &&& tells_calls(next.told@, calls@, facts)
                    },
                }
            }
    }

    /// What follows a summary, or the lack of one.
    pub open spec fn completed<C: TokenCounter>(
        self,
        kind: CompactKind,
        recovering: bool,
        response: Result<CanonicalResponse, ProviderError>,
        next: Next,
        counter: C,
    ) -> bool {
        match response {
            Ok(summary) => exists|result: Result<TokenUsage, AgentError>, messages: Vec<Message>|
                #[trigger] compaction::summarizes(self.state.messages, summary, result, messages)
                    && match result {
                    Ok(usage) => {
                        &&& next.lap == (Lap {
                            state: RunState { messages, ..self.state },
                            phase: Phase::Checkpointing { kind, usage },
                        })
                        &&& next.action == Action::Checkpoint(kind)
                        &&& next.told@.len() == 0
                    },
                    Err(e) => next.misses(
                        RunState { messages, ..self.state },
                        recovering,
                        e.text(),
                        counter,
                    ),
                },
            Err(error) => exists|e: AgentError|
                {
                    &&& #[trigger] e@ == AgentFault::Provider(error::failure_of(error))
                    &&& next.misses(self.state, recovering, e.text(), counter)
                },
        }
    }

    /// What follows an event.
    pub open spec fn leads<C: TokenCounter>(self, event: Event, next: Next, counter: C) -> bool {
        match event {
            Event::Written { outcome, cancelled, now_ms } => match outcome {
                Ok(()) => self.wrote(cancelled, now_ms, next, counter),
                Err(detail) => next.fails(self.state, AgentFault::Session(detail@)),
            },
            Event::Inputs(inputs) => {
                &&& self.state.takes_inputs(inputs, next.lap.state)
                &&& next.lap.phase is Frame
                &&& next.action is ReadFrame
                &&& next.told@.len() == 0
            },
            Event::Frame(read) => match read {
                None => next.prepares(self.state, counter),
                Some(read) => exists|installed: Result<bool, AgentError>, after: RunState|
                    #[trigger] self.state.installs(
                        read.frame,
                        read.kinds,
                        read.dispatch,
                        counter,
                        installed,
                        after,
                    ) && match installed {
                        Ok(_) => next.prepares(after, counter),
                        Err(e) => next.over(after) && next.told@ == seq![AgentEvent::Error(e)],
                    },
            },
            Event::Encoded { context, messages, ephemeral } => self.encoded(
                text::texts(context@),
                text::texts(messages@),
                text::texts(ephemeral@),
                next,
                counter,
            ),
            Event::Slept => next.again(self.state) && next.told@.len() == 0,
            Event::Examined(facts) => self.phase matches Phase::Examining { calls }
                && self.examined(calls, facts@, next),
            Event::Ran(outcomes) => self.phase matches Phase::Running { ids } && exists|
                accepted: Result<Vec<ModelToolResult>, AgentError>,
                after: RunState,
            |
                #[trigger] self.state.accepts(ids, outcomes, counter, accepted, after)
                    && match accepted {
                    Ok(results) => next.again(after) && tells_results(next.told@, results@),
                    Err(e) => next.over(after) && next.told@ == seq![AgentEvent::Error(e)],
                },
            Event::Measured(window) => self.phase matches Phase::Measuring {
                kind,
                recovering,
                model,
            } && exists|request: Result<CanonicalRequest, AgentError>|
                #[trigger] compaction::asks_summary(
                    self.state.views(),
                    model@,
                    window,
                    self.state.config.max_output_tokens,
                    request,
                ) && match request {
                    Ok(sent) => {
                        &&& next.lap == (Lap {
                            state: self.state,
                            phase: Phase::Summarizing { kind, recovering },
                        })
                        &&& next.action == Action::Complete(sent)
                        &&& next.told@.len() == 0
                    },
                    Err(e) => next.misses(self.state, recovering, e.text(), counter),
                },
            Event::Completed(response) => self.phase matches Phase::Summarizing {
                kind,
                recovering,
            } && self.completed(kind, recovering, response, next, counter),
            Event::Refreshed(outcome) => self.phase matches Phase::Refreshing { attempt, class }
                && match outcome {
                Ok(()) => {
                    let after = self.state.refreshed();
                    &&& next.again(after)
                    &&& next.told@.len() == 2
                    &&& attempt.refreshes(
                        next.told@[0],
                        self.state.turn.attempt_ordinal,
                        CredentialRefreshOutcome::Succeeded,
                    )
                    &&& attempt.schedules(
                        next.told@[1],
                        after.turn.attempt_ordinal,
                        after.turn.attempt_policy,
                        class,
                        0,
                        None,
                    )
                },
                Err(error) => {
                    let cause = agent::recovery_outcome(error);
                    &&& next.over(self.state)
                    &&& next.told@.len() == 2
                    &&& attempt.refreshes(
                        next.told@[0],
                        self.state.turn.attempt_ordinal,
                        cause.0,
                    )
                    &&& next.told@[1] == AgentEvent::Error(AgentError::Auth(cause.1))
                },
            },
            _ => match self.phase {
                Phase::Opening { attempt } => match event {
                    Event::Opened => {
                        &&& next.lap.state == self.state
                        &&& next.lap.phase matches Phase::Listening { attempt: a, sampling } && a
                            == attempt && sampling.fresh()
                        &&& next.action is Listen
                        &&& next.told@.len() == 0
                    },
                    Event::Failed { error, facts } => next.recovers(
                        self.state,
                        attempt,
                        false,
                        error,
                        facts,
                        counter,
                    ),
                    _ => next.again(self.state) && next.told@.len() == 0,
                },
                Phase::Listening { attempt, sampling } => self.listened(
                    attempt,
                    sampling,
                    event,
                    next,
                    counter,
                ),
                Phase::Refreshing { attempt, .. } => {
                    &&& next.again(self.state)
                    &&& next.told@.len() == 1
                    &&& attempt.refreshes(
                        next.told@[0],
                        self.state.turn.attempt_ordinal,
                        CredentialRefreshOutcome::Cancelled,
                    )
                },
                _ => next.again(self.state) && next.told@.len() == 0,
            },
        }
    }
}

// ---------------------------------------------------------------- the step

fn at(state: RunState, phase: Phase, told: Vec<AgentEvent>, action: Action) -> (next: Next)
    ensures
        next == (Next { lap: Lap { state, phase }, told, action }),
{
    Next { lap: Lap { state, phase }, told, action }
}

fn one(event: AgentEvent) -> (told: Vec<AgentEvent>)
    ensures
        told@ == seq![event],
{
    let mut told: Vec<AgentEvent> = Vec::new();
    told.push(event);
    assert(told@ =~= seq![event]);
    told
}

fn reset_events(visible: bool) -> (told: Vec<AgentEvent>)
    ensures
        told@ == resets(visible),
{
    if visible {
        one(AgentEvent::StreamReset)
    } else {
        let told: Vec<AgentEvent> = Vec::new();
        assert(told@ =~= seq![]);
        told
    }
}

fn stop_with(state: RunState, error: AgentError) -> (next: Next)
    ensures
        next.over(state),
        next.told@ == seq![AgentEvent::Error(error)],
{
    at(state, Phase::Over, one(AgentEvent::Error(error)), Action::End)
}

fn next_lap(state: RunState, told: Vec<AgentEvent>) -> (next: Next)
    ensures
        next.again(state),
        next.told == told,
{
    at(state, Phase::Head, told, Action::Write)
}

fn result_events(results: &Vec<ModelToolResult>) -> (told: Vec<AgentEvent>)
    ensures
        tells_results(told@, results@),
{
    let mut told: Vec<AgentEvent> = Vec::new();
    let mut i: usize = 0;
    while i < results.len()
        invariant
            i <= results.len(),
            told@.len() == i,
            forall|k: int|
                0 <= k < i ==> (#[trigger] told@[k] matches AgentEvent::ToolResult(view)
                    && view.tells(results@[k])),
        decreases results.len() - i,
    {
        told.push(AgentEvent::ToolResult(ToolResultView::from_model(&results[i])));
        i += 1;
    }
    told
}

fn view_events(told: &mut Vec<AgentEvent>, views: Vec<ToolResultView>)
    ensures
        final(told)@ == old(told)@ + views@.map_values(
            |view: ToolResultView| AgentEvent::ToolResult(view),
        ),
{
    let ghost before = told@;
    let ghost all = views@;
    let mut views = views;
    let ghost mut done: int = 0;
    assert(before + all.take(0).map_values(
        |view: ToolResultView| AgentEvent::ToolResult(view),
    ) =~= before);
    while views.len() > 0
        invariant
            0 <= done <= all.len(),
            views@ == all.skip(done),
            told@ == before + all.take(done).map_values(
                |view: ToolResultView| AgentEvent::ToolResult(view),
            ),
        decreases views.len(),
    {
        let view = views.remove(0);
        proof {
            assert(view == all[done]);
            assert(views@ =~= all.skip(done + 1));
            assert(all.take(done + 1).map_values(
                |view: ToolResultView| AgentEvent::ToolResult(view),
            ) =~= all.take(done).map_values(
                |view: ToolResultView| AgentEvent::ToolResult(view),
            ).push(AgentEvent::ToolResult(view)));
            done = done + 1;
        }
        told.push(AgentEvent::ToolResult(view));
        assert(told@ =~= before + all.take(done).map_values(
            |view: ToolResultView| AgentEvent::ToolResult(view),
        ));
    }
    assert(all.take(done) =~= all);
}

fn enter(state: RunState, transition: Transition, told: Vec<AgentEvent>) -> (next: Next)
    requires
        state.wf(),
    ensures
        next.lap.wf(),
        next.enters(state, transition, told@),
{
    let mut state = state;
    let mut told = told;
    match transition {
        Transition::Continue => next_lap(state, told),
        Transition::EndTurn => at(state, Phase::Closing, told, Action::Write),
        Transition::RunTools(calls) => at(state, Phase::Calling { calls }, told, Action::Write),
        Transition::Compact(kind) => {
            let model = state.turn.compaction_model();
            let name = model.clone();
            at(
                state,
                Phase::Measuring { kind, recovering: false, model },
                told,
                Action::Measure(name),
            )
        },
        Transition::Recover(_) => {
            let model = state.turn.model.clone();
            let name = model.clone();
            at(
                state,
                Phase::Measuring { kind: CompactKind::Reactive, recovering: true, model },
                told,
                Action::Measure(name),
            )
        },
        Transition::Interrupted(reason) => {
            let ghost before = state;
            let views = state.interrupt();
            assert(before.stops(views, state));
            let reconciled: usize = views.len();
            view_events(&mut told, views);
            at(state, Phase::Stopping { reason, reconciled }, told, Action::Write)
        },
        Transition::Exhausted(reason) => {
            told.push(AgentEvent::Exhausted(reason));
            at(state, Phase::Over, told, Action::End)
        },
        Transition::Fail(error) => {
            told.push(AgentEvent::Error(error));
            at(state, Phase::Over, told, Action::End)
        },
    }
}

fn prepare<C: TokenCounter>(state: RunState, counter: &C) -> (next: Next)
    requires
        state.wf(),
    ensures
        next.lap.wf(),
        next.prepares(state, *counter),
{
    let ghost before = state;
    let mut state = state;
    let mut told: Vec<AgentEvent> = Vec::new();
    let pruned = state.relieve(counter);
    let ghost eased = state;
    if pruned {
        told.push(AgentEvent::Compacted(CompactKind::Micro));
    }
    let forgotten = state.forget_reasoning();
    proof {
        assert(before.relieves(*counter, pruned, eased));
        assert(eased.forgets(forgotten, state));
        assert(told@ =~= (if pruned {
            seq![AgentEvent::Compacted(CompactKind::Micro)]
        } else {
            seq![]
        }));
    }
    if forgotten {
        at(state, Phase::Redacting, told, Action::Redact)
    } else {
        at(state, Phase::Encoding, told, Action::Encode)
    }
}

fn send(state: RunState, snapshot: &PromptSnapshot) -> (next: Next)
    requires
        state.wf(),
    ensures
        next.lap.wf(),
        next.sends(state, *snapshot),
{
    let request = state.request(snapshot);
    assert(state.sends(*snapshot, request));
    match request {
        Ok(sent) => {
            let attempt = state.attempt(snapshot);
            at(state, Phase::Opening { attempt }, Vec::new(), Action::Open(sent))
        },
        Err(error) => stop_with(state, error),
    }
}

fn recover<C: TokenCounter>(
    state: RunState,
    attempt: AttemptContext,
    visible: bool,
    error: ProviderError,
    facts: FailureFacts,
    counter: &C,
) -> (next: Next)
    requires
        state.wf(),
    ensures
        next.lap.wf(),
        next.recovers(state, attempt, visible, error, facts, *counter),
{
    let ghost before = state;
    let mut state = state;
    let mut told = reset_events(visible);
    let ghost shown = told@;
    let plan = state.on_failure(&error, facts, counter);
    assert(before.fails(error, facts, *counter, plan, state));
    let ordinal: u32 = state.turn.attempt_ordinal;
    let policy = state.turn.attempt_policy;
    let class = plan.0;
    match plan.1 {
        FailureAction::Fail(fault) => {
            told.push(AgentEvent::Error(fault));
            at(state, Phase::Over, told, Action::End)
        },
        FailureAction::Withhold(_) => {
            told.push(attempt.retry_scheduled(ordinal, policy, class, 0, None));
            next_lap(state, told)
        },
        FailureAction::DowngradeReplay => {
            told.push(
                AgentEvent::ReasoningReplayDisabled {
                    reason: "backend rejected encrypted reasoning replay".to_owned(),
                },
            );
            told.push(attempt.retry_scheduled(ordinal, policy, class, 0, None));
            next_lap(state, told)
        },
        FailureAction::RefreshCredentials => {
            told.push(attempt.credential_refresh(ordinal, CredentialRefreshOutcome::Started));
            at(state, Phase::Refreshing { attempt, class }, told, Action::Refresh)
        },
        FailureAction::Retry { delay_ms, fallback_model } => {
            told.push(attempt.retry_scheduled(ordinal, policy, class, delay_ms, fallback_model));
            if delay_ms > 0 {
                at(state, Phase::Sleeping, told, Action::Sleep(delay_ms))
            } else {
                next_lap(state, told)
            }
        },
    }
}

fn miss<C: TokenCounter>(
    state: RunState,
    recovering: bool,
    error: &AgentError,
    counter: &C,
) -> (next: Next)
    requires
        state.wf(),
    ensures
        next.lap.wf(),
        next.misses(state, recovering, error.text(), *counter),
{
    if recovering {
        return stop_with(state, run::unrecoverable(error));
    }
    let ghost before = state;
    let mut state = state;
    let pruned = state.compaction_failed(counter);
    assert(before.misses(*counter, pruned, state));
    match pruned {
        Ok(changed) => {
            let mut told: Vec<AgentEvent> = Vec::new();
            if changed {
                told.push(AgentEvent::Compacted(CompactKind::Micro));
            }
            assert(told@ =~= (if changed {
                seq![AgentEvent::Compacted(CompactKind::Micro)]
            } else {
                seq![]
            }));
            next_lap(state, told)
        },
        Err(fault) => stop_with(state, fault),
    }
}

fn exemptions(facts: &Vec<CallFacts>) -> (exempt: Vec<bool>)
    ensures
        exempt@ == facts@.map_values(|fact: CallFacts| fact.exempt),
{
    let mut exempt: Vec<bool> = Vec::new();
    let mut i: usize = 0;
    while i < facts.len()
        invariant
            i <= facts.len(),
            exempt@.len() == i,
            forall|k: int| 0 <= k < i ==> #[trigger] exempt@[k] == facts@[k].exempt,
        decreases facts.len() - i,
    {
        exempt.push(facts[i].exempt);
        i += 1;
    }
    assert(exempt@ =~= facts@.map_values(|fact: CallFacts| fact.exempt));
    exempt
}

fn call_events(calls: &Vec<ToolInvocation>, facts: Vec<CallFacts>) -> (told: Vec<AgentEvent>)
    requires
        facts@.len() == calls@.len(),
    ensures
        tells_calls(told@, calls@, facts@),
{
    let ghost all = facts@;
    let mut facts = facts;
    let mut told: Vec<AgentEvent> = Vec::new();
    let mut i: usize = 0;
    while i < calls.len()
        invariant
            i <= calls.len(),
            all.len() == calls@.len(),
            facts@ == all.skip(i as int),
            told@.len() == i,
            forall|k: int|
                0 <= k < i ==> (#[trigger] told@[k] matches AgentEvent::ToolCall(view) && view.id@
                    == calls@[k].id@ && view.name@ == calls@[k].name@ && view.input@
                    == calls@[k].input@ && view.kind == all[k].kind),
        decreases calls.len() - i,
    {
        let fact = facts.remove(0);
        assert(fact == all[i as int]);
        assert(facts@ =~= all.skip(i + 1));
        told.push(
            AgentEvent::ToolCall(
                ToolCallView {
                    id: calls[i].id.clone(),
                    name: calls[i].name.clone(),
                    input: calls[i].input.clone(),
                    kind: fact.kind,
                },
            ),
        );
        i += 1;
    }
    told
}

fn call_ids(calls: &Vec<ToolInvocation>) -> (ids: Vec<ToolCallId>)
    ensures
        text::texts(ids@) == calls@.map_values(|call: ToolInvocation| call.id@),
{
    let mut ids: Vec<ToolCallId> = Vec::new();
    let mut i: usize = 0;
    while i < calls.len()
        invariant
            i <= calls.len(),
            ids@.len() == i,
            forall|k: int| 0 <= k < i ==> (#[trigger] ids@[k])@ == calls@[k].id@,
        decreases calls.len() - i,
    {
        ids.push(calls[i].id.clone());
        i += 1;
    }
    assert(text::texts(ids@) =~= calls@.map_values(|call: ToolInvocation| call.id@));
    ids
}

impl Lap {
    /// Starts a run; the first action is to write its transcript. `provider_context` is the window
    /// that the provider has for the model, and `tools_wire` the JSON array of the tools.
    pub fn start<C: TokenCounter>(
        context: AgentContext,
        tools_wire: String,
        provider_context: u32,
        baseline: Option<ContextBaseline>,
        now_ms: u64,
        counter: &C,
    ) -> (started: Result<Lap, AgentError>)
        ensures
            match run::start_fault(context, provider_context) {
                Some(reason) => started matches Err(e) && e@ == AgentFault::InvalidRequest(reason),
                None => started matches Ok(lap) && lap.wf() && lap.phase is Head && lap.state.fresh(
                    context,
                    baseline,
                    now_ms,
                ) && lap.state.turn_started(
                    context,
                    tools_wire@,
                    provider_context,
                    baseline,
                    *counter,
                ),
            },
    {
        match RunState::start(context, tools_wire, provider_context, baseline, now_ms, counter) {
            Ok(state) => Ok(Lap { state, phase: Phase::Head }),
            Err(error) => Err(error),
        }
    }

    fn written<C: TokenCounter>(self, cancelled: bool, now_ms: u64, counter: &C) -> (next: Next)
        requires
            self.wf(),
        ensures
            next.lap.wf(),
            self.wrote(cancelled, now_ms, next, *counter),
    {
        let Lap { state, phase } = self;
        let mut state = state;
        match phase {
            Phase::Head => {
                let decision = state.head(cancelled);
                assert(self.state.heads(cancelled, decision, state));
                match decision {
                    Some(transition) => {
                        let told: Vec<AgentEvent> = Vec::new();
                        assert(told@ =~= seq![]);
                        enter(state, transition, told)
                    },
                    None => at(state, Phase::Inputs, Vec::new(), Action::TakeInputs),
                }
            },
            Phase::Redacting => at(state, Phase::Encoding, Vec::new(), Action::Encode),
            Phase::Recording { snapshot } => send(state, &snapshot),
            Phase::Calling { calls } => at(
                state,
                Phase::Examining { calls },
                Vec::new(),
                Action::Examine,
            ),
            Phase::Checkpointing { kind, usage } => {
                state.accept_compaction(kind, usage, counter);
                next_lap(state, one(AgentEvent::Compacted(kind)))
            },
            Phase::Stopping { reason, reconciled } => {
                let view = state.interruption(reason, reconciled, now_ms);
                at(state, Phase::Over, one(AgentEvent::Interrupted(view)), Action::End)
            },
            _ => at(state, Phase::Over, one(AgentEvent::EndTurn), Action::End),
        }
    }

    fn compose<C: TokenCounter>(
        self,
        context: Vec<String>,
        messages: Vec<String>,
        ephemeral: Vec<String>,
        counter: &C,
    ) -> (next: Next)
        requires
            self.wf(),
            context@.len() == self.state.context@.len(),
            messages@.len() == self.state.messages@.len(),
            ephemeral@.len() == self.state.ephemeral@.len(),
        ensures
            next.lap.wf(),
            self.encoded(
                text::texts(context@),
                text::texts(messages@),
                text::texts(ephemeral@),
                next,
                *counter,
            ),
    {
        let ghost wires = (text::texts(context@), text::texts(messages@), text::texts(ephemeral@));
        let mut state = self.state;
        let captured = state.capture(context, messages, ephemeral);
        assert(self.state.captures(wires.0, wires.1, wires.2, captured));
        match captured {
            Ok(snapshot) => {
                let opened = state.open(&snapshot, counter);
                assert(self.state.opens(snapshot, *counter, opened, state));
                match opened {
                    Ok(None) => send(state, &snapshot),
                    Ok(Some(moved)) => at(
                        state,
                        Phase::Recording { snapshot },
                        Vec::new(),
                        Action::Record(moved),
                    ),
                    Err(reason) => at(
                        state,
                        Phase::Over,
                        one(AgentEvent::Exhausted(reason)),
                        Action::End,
                    ),
                }
            },
            Err(error) => stop_with(state, error),
        }
    }

    fn listen<C: TokenCounter>(self, event: Event, counter: &C) -> (next: Next)
        requires
            self.wf(),
            self.phase is Listening,
        ensures
            next.lap.wf(),
            self.listened(
                self.phase->Listening_attempt,
                self.phase->Listening_sampling,
                event,
                next,
                *counter,
            ),
    {
        let Lap { state, phase } = self;
        let mut state = state;
        match phase {
            Phase::Listening { attempt, sampling } => match event {
                Event::Streamed(streamed) => {
                    let mut sampled = sampling;
                    let shown = state.on_event(&mut sampled, streamed, counter);
                    assert(self.state.reads(sampling, streamed, *counter, shown, state, sampled));
                    match shown {
                        Ok(shown) => {
                            let mut told: Vec<AgentEvent> = Vec::new();
                            let ghost seen = shown;
                            match shown {
                                Some(event) => {
                                    told.push(event);
                                },
                                None => {},
                            }
                            assert(told@ =~= (match seen {
                                Some(event) => seq![event],
                                None => seq![],
                            }));
                            at(
                                state,
                                Phase::Listening { attempt, sampling: sampled },
                                told,
                                Action::Listen,
                            )
                        },
                        Err(error) => stop_with(state, error),
                    }
                },
                Event::Ended(window) => {
                    let settled = state.settle(&sampling, window, counter);
                    assert(self.state.settles(sampling, window, *counter, settled, state));
                    let mut told = one(AgentEvent::ModelTurn(settled.turn));
                    if settled.reset {
                        told.push(AgentEvent::StreamReset);
                    }
                    assert(told@ =~= seq![AgentEvent::ModelTurn(settled.turn)] + resets(
                        settled.reset,
                    ));
                    enter(state, settled.transition, told)
                },
                Event::Failed { error, facts } => {
                    let visible = sampling.accumulator.has_visible_output();
                    state.count_lost(&sampling, counter);
                    recover(state, attempt, visible, error, facts, counter)
                },
                Event::Steered => next_lap(
                    state,
                    reset_events(sampling.accumulator.has_visible_output()),
                ),
                _ => {
                    state.keep_partial(&sampling);
                    next_lap(state, Vec::new())
                },
            },
            _ => next_lap(state, Vec::new()),
        }
    }

    fn examine(self, facts: Vec<CallFacts>) -> (next: Next)
        requires
            self.wf(),
            self.phase matches Phase::Examining { calls } && facts@.len() == calls@.len(),
        ensures
            next.lap.wf(),
            self.examined(self.phase->Examining_calls, facts@, next),
    {
        let Lap { state, phase } = self;
        let mut state = state;
        match phase {
            Phase::Examining { calls } => {
                let exempt = exemptions(&facts);
                let step = state.guard_tools(&calls, &exempt);
                assert(self.state.guards(calls, exempt, step, state));
                match step {
                    ToolStep::Abort(reason) => at(
                        state,
                        Phase::Over,
                        one(AgentEvent::Exhausted(reason)),
                        Action::End,
                    ),
                    ToolStep::Signal(results) => next_lap(state, result_events(&results)),
                    ToolStep::Proceed => {
                        let told = call_events(&calls, facts);
                        let ids = call_ids(&calls);
                        at(state, Phase::Running { ids }, told, Action::Dispatch(calls))
                    },
                }
            },
            _ => next_lap(state, Vec::new()),
        }
    }

    fn complete<C: TokenCounter>(
        self,
        response: Result<CanonicalResponse, ProviderError>,
        counter: &C,
    ) -> (next: Next)
        requires
            self.wf(),
            self.phase is Summarizing,
        ensures
            next.lap.wf(),
            self.completed(
                self.phase->Summarizing_kind,
                self.phase->Summarizing_recovering,
                response,
                next,
                *counter,
            ),
    {
        let Lap { state, phase } = self;
        let mut state = state;
        match phase {
            Phase::Summarizing { kind, recovering } => match response {
                Ok(summary) => {
                    let result = compaction::full_compact(&mut state.messages, &summary);
                    assert(compaction::summarizes(
                        self.state.messages,
                        summary,
                        result,
                        state.messages,
                    ));
                    match result {
                        Ok(usage) => at(
                            state,
                            Phase::Checkpointing { kind, usage },
                            Vec::new(),
                            Action::Checkpoint(kind),
                        ),
                        Err(error) => miss(state, recovering, &error, counter),
                    }
                },
                Err(error) => {
                    let fault = AgentError::from(&error);
                    assert(fault@ == AgentFault::Provider(error::failure_of(error)));
                    miss(state, recovering, &fault, counter)
                },
            },
            _ => next_lap(state, Vec::new()),
        }
    }

    /// Takes the event that the run waits for to what follows.
    pub fn advance<C: TokenCounter>(self, event: Event, counter: &C) -> (next: Next)
        requires
            self.wf(),
            self.awaits(event),
        ensures
            next.lap.wf(),
            self.leads(event, next, *counter),
    {
        match event {
            Event::Written { outcome, cancelled, now_ms } => match outcome {
                Ok(()) => self.written(cancelled, now_ms, counter),
                Err(detail) => stop_with(self.state, AgentError::Session(detail)),
            },
            Event::Inputs(inputs) => {
                let mut state = self.state;
                state.take_inputs(inputs);
                at(state, Phase::Frame, Vec::new(), Action::ReadFrame)
            },
            Event::Frame(read) => match read {
                None => prepare(self.state, counter),
                Some(read) => {
                    let mut state = self.state;
                    let FrameRead { frame, kinds, dispatch } = read;
                    let installed = state.install_frame(frame, kinds, dispatch, counter);
                    assert(self.state.installs(
                        frame,
                        kinds,
                        dispatch,
                        *counter,
                        installed,
                        state,
                    ));
                    match installed {
                        Ok(_) => prepare(state, counter),
                        Err(error) => stop_with(state, error),
                    }
                },
            },
            Event::Encoded { context, messages, ephemeral } => self.compose(
                context,
                messages,
                ephemeral,
                counter,
            ),
            Event::Slept => next_lap(self.state, Vec::new()),
            Event::Examined(facts) => self.examine(facts),
            Event::Ran(outcomes) => {
                let Lap { state, phase } = self;
                let mut state = state;
                match phase {
                    Phase::Running { ids } => {
                        let accepted = state.accept_outcomes(&ids, outcomes, counter);
                        assert(self.state.accepts(ids, outcomes, *counter, accepted, state));
                        match accepted {
                            Ok(results) => next_lap(state, result_events(&results)),
                            Err(error) => stop_with(state, error),
                        }
                    },
                    _ => next_lap(state, Vec::new()),
                }
            },
            Event::Measured(window) => {
                let Lap { state, phase } = self;
                match phase {
                    Phase::Measuring { kind, recovering, model } => {
                        let request = compaction::summary_request(
                            &state.messages,
                            model.as_str(),
                            window,
                            state.config.max_output_tokens,
                        );
                        assert(compaction::asks_summary(
                            self.state.views(),
                            model@,
                            window,
                            self.state.config.max_output_tokens,
                            request,
                        ));
                        match request {
                            Ok(sent) => at(
                                state,
                                Phase::Summarizing { kind, recovering },
                                Vec::new(),
                                Action::Complete(sent),
                            ),
                            Err(error) => miss(state, recovering, &error, counter),
                        }
                    },
                    _ => next_lap(state, Vec::new()),
                }
            },
            Event::Completed(response) => self.complete(response, counter),
            Event::Refreshed(outcome) => {
                let Lap { state, phase } = self;
                let mut state = state;
                match phase {
                    Phase::Refreshing { attempt, class } => match outcome {
                        Ok(()) => {
                            let mut told = one(
                                attempt.credential_refresh(
                                    state.turn.attempt_ordinal,
                                    CredentialRefreshOutcome::Succeeded,
                                ),
                            );
                            state.after_refresh();
                            told.push(
                                attempt.retry_scheduled(
                                    state.turn.attempt_ordinal,
                                    state.turn.attempt_policy,
                                    class,
                                    0,
                                    None,
                                ),
                            );
                            next_lap(state, told)
                        },
                        Err(error) => {
                            let (outcome, cause) = agent::recovery_failure(&error);
                            let mut told = one(
                                attempt.credential_refresh(state.turn.attempt_ordinal, outcome),
                            );
                            told.push(AgentEvent::Error(AgentError::Auth(cause)));
                            at(state, Phase::Over, told, Action::End)
                        },
                    },
                    _ => next_lap(state, Vec::new()),
                }
            },
            other => match &self.phase {
                Phase::Listening { .. } => self.listen(other, counter),
                _ => self.resume(other, counter),
            },
        }
    }

    /// What follows a stream that was opened or not, and a stop.
    fn resume<C: TokenCounter>(self, event: Event, counter: &C) -> (next: Next)
        requires
            self.wf(),
            self.awaits(event),
            !(self.phase is Listening),
            event is Opened || event is Failed || event is Cancelled,
        ensures
            next.lap.wf(),
            self.leads(event, next, *counter),
    {
        let Lap { state, phase } = self;
        match phase {
            Phase::Opening { attempt } => match event {
                Event::Opened => at(
                    state,
                    Phase::Listening { attempt, sampling: Sampling::new() },
                    Vec::new(),
                    Action::Listen,
                ),
                Event::Failed { error, facts } => recover(
                    state,
                    attempt,
                    false,
                    error,
                    facts,
                    counter,
                ),
                _ => next_lap(state, Vec::new()),
            },
            Phase::Refreshing { attempt, .. } => {
                let told = one(
                    attempt.credential_refresh(
                        state.turn.attempt_ordinal,
                        CredentialRefreshOutcome::Cancelled,
                    ),
                );
                next_lap(state, told)
            },
            _ => next_lap(state, Vec::new()),
        }
    }
}

// ---------------------------------------------------------------- laws

impl Next {
    /// The run ends exactly where its last event is told, and no other such event comes before.
    pub open spec fn ends_once(self) -> bool {
        &&& (self.action is End) == (self.told@.len() > 0 && terminal(self.told@.last()))
        &&& (self.action is End) == (self.lap.phase is Over)
        &&& forall|i: int| 0 <= i < self.told@.len() - 1 ==> !terminal(#[trigger] self.told@[i])
    }
}

proof fn lemma_decisions_end_once(
    next: Next,
    state: RunState,
    transition: Transition,
    before: Seq<AgentEvent>,
)
    requires
        next.enters(state, transition, before),
        forall|i: int| 0 <= i < before.len() ==> !terminal(#[trigger] before[i]),
    ensures
        next.ends_once(),
{
}

proof fn lemma_plans_end_once(
    next: Next,
    state: RunState,
    attempt: AttemptContext,
    visible: bool,
    plan: (ErrorClass, FailureAction),
)
    requires
        next.follows(state, attempt, resets(visible), plan),
    ensures
        next.ends_once(),
{
    let before = resets(visible);
    let told = next.told@;
    match plan.1 {
        FailureAction::DowngradeReplay => {
            assert forall|i: int| 0 <= i < told.len() - 1 implies !terminal(#[trigger] told[i]) by {
                assert(told[i] == before.push(told[before.len() as int]).push(told.last())[i]);
            }
        },
        FailureAction::Fail(e) => {
            assert forall|i: int| 0 <= i < told.len() - 1 implies !terminal(#[trigger] told[i]) by {
                assert(told[i] == before[i]);
            }
        },
        _ => {
            assert forall|i: int| 0 <= i < told.len() - 1 implies !terminal(#[trigger] told[i]) by {
                assert(told[i] == before.push(told.last())[i]);
            }
        },
    }
}

proof fn lemma_failures_end_once<C: TokenCounter>(
    next: Next,
    state: RunState,
    attempt: AttemptContext,
    visible: bool,
    error: ProviderError,
    facts: FailureFacts,
    counter: C,
)
    requires
        next.recovers(state, attempt, visible, error, facts, counter),
    ensures
        next.ends_once(),
{
    let (plan, planned) = choose|plan: (ErrorClass, FailureAction), planned: RunState|
        #[trigger] state.fails(error, facts, counter, plan, planned) && next.follows(
            planned,
            attempt,
            resets(visible),
            plan,
        );
    lemma_plans_end_once(next, planned, attempt, visible, plan);
}

proof fn lemma_preparations_end_once<C: TokenCounter>(next: Next, state: RunState, counter: C)
    requires
        next.prepares(state, counter),
    ensures
        next.ends_once(),
{
}

proof fn lemma_requests_end_once(next: Next, state: RunState, snapshot: PromptSnapshot)
    requires
        next.sends(state, snapshot),
    ensures
        next.ends_once(),
{
}

proof fn lemma_writes_end_once<C: TokenCounter>(
    lap: Lap,
    cancelled: bool,
    now_ms: u64,
    next: Next,
    counter: C,
)
    requires
        lap.wrote(cancelled, now_ms, next, counter),
    ensures
        next.ends_once(),
{
    match lap.phase {
        Phase::Head => {
            let (decision, after) = choose|decision: Option<Transition>, after: RunState|
                #[trigger] lap.state.heads(cancelled, decision, after) && match decision {
                    Some(transition) => next.enters(after, transition, seq![]),
                    None => {
                        &&& next.lap == (Lap { state: after, phase: Phase::Inputs })
                        &&& next.action is TakeInputs
                        &&& next.told@.len() == 0
                    },
                };
            match decision {
                Some(transition) => {
                    lemma_decisions_end_once(next, after, transition, seq![]);
                },
                None => {},
            }
        },
        Phase::Recording { snapshot } => {
            lemma_requests_end_once(next, lap.state, snapshot);
        },
        _ => {},
    }
}

proof fn lemma_prompts_end_once<C: TokenCounter>(
    lap: Lap,
    context: Seq<Seq<char>>,
    messages: Seq<Seq<char>>,
    ephemeral: Seq<Seq<char>>,
    next: Next,
    counter: C,
)
    requires
        lap.encoded(context, messages, ephemeral, next, counter),
    ensures
        next.ends_once(),
{
}

proof fn lemma_samplings_end_once<C: TokenCounter>(
    lap: Lap,
    attempt: AttemptContext,
    sampling: Sampling,
    event: Event,
    next: Next,
    counter: C,
)
    requires
        lap.listened(attempt, sampling, event, next, counter),
    ensures
        next.ends_once(),
{
    match event {
        Event::Ended(window) => {
            let (settled, after) = choose|settled: Settled, after: RunState|
                #[trigger] lap.state.settles(sampling, window, counter, settled, after)
                    && next.enters(
                    after,
                    settled.transition,
                    seq![AgentEvent::ModelTurn(settled.turn)] + resets(settled.reset),
                );
            lemma_decisions_end_once(
                next,
                after,
                settled.transition,
                seq![AgentEvent::ModelTurn(settled.turn)] + resets(settled.reset),
            );
        },
        Event::Failed { error, facts } => {
            lemma_failures_end_once(
                next,
                lap.state.lost(sampling, counter),
                attempt,
                sampling.accumulator@.visible(),
                error,
                facts,
                counter,
            );
        },
        _ => {},
    }
}

proof fn lemma_summaries_end_once<C: TokenCounter>(
    lap: Lap,
    kind: CompactKind,
    recovering: bool,
    response: Result<CanonicalResponse, ProviderError>,
    next: Next,
    counter: C,
)
    requires
        lap.completed(kind, recovering, response, next, counter),
    ensures
        next.ends_once(),
{
}

/// A run ends exactly where its last event is told, and tells no other such event before it.
pub proof fn law_one_terminal_event<C: TokenCounter>(
    lap: Lap,
    event: Event,
    next: Next,
    counter: C,
)
    requires
        lap.awaits(event),
        lap.leads(event, next, counter),
    ensures
        next.ends_once(),
{
    match event {
        Event::Written { outcome, cancelled, now_ms } => {
            if outcome is Ok {
                lemma_writes_end_once(lap, cancelled, now_ms, next, counter);
            }
        },
        Event::Frame(None) => {
            lemma_preparations_end_once(next, lap.state, counter);
        },
        Event::Frame(Some(read)) => {
            let (installed, after) = choose|installed: Result<bool, AgentError>, after: RunState|
                #[trigger] lap.state.installs(
                    read.frame,
                    read.kinds,
                    read.dispatch,
                    counter,
                    installed,
                    after,
                ) && match installed {
                    Ok(_) => next.prepares(after, counter),
                    Err(e) => next.over(after) && next.told@ == seq![AgentEvent::Error(e)],
                };
            if installed is Ok {
                lemma_preparations_end_once(next, after, counter);
            }
        },
        Event::Encoded { context, messages, ephemeral } => {
            lemma_prompts_end_once(
                lap,
                text::texts(context@),
                text::texts(messages@),
                text::texts(ephemeral@),
                next,
                counter,
            );
        },
        Event::Completed(response) => {
            lemma_summaries_end_once(
                lap,
                lap.phase->Summarizing_kind,
                lap.phase->Summarizing_recovering,
                response,
                next,
                counter,
            );
        },
        Event::Streamed(_) | Event::Ended(_) | Event::Steered => {
            lemma_samplings_end_once(
                lap,
                lap.phase->Listening_attempt,
                lap.phase->Listening_sampling,
                event,
                next,
                counter,
            );
        },
        Event::Failed { error, facts } => {
            if lap.phase is Opening {
                lemma_failures_end_once(
                    next,
                    lap.state,
                    lap.phase->Opening_attempt,
                    false,
                    error,
                    facts,
                    counter,
                );
            } else {
                lemma_samplings_end_once(
                    lap,
                    lap.phase->Listening_attempt,
                    lap.phase->Listening_sampling,
                    event,
                    next,
                    counter,
                );
            }
        },
        _ => {},
    }
}

/// Calls run only once the transcript that holds them is written: between the write and the run
/// the transcript stays as it is.
#[verifier::rlimit(40)]
#[verifier::spinoff_prover]
pub proof fn law_calls_are_written_before_they_run<C: TokenCounter>(
    lap: Lap,
    event: Event,
    next: Next,
    counter: C,
)
    requires
        lap.awaits(event),
        lap.leads(event, next, counter),
    ensures
        next.action is Dispatch ==> lap.phase is Examining && next.action == Action::Dispatch(
            lap.phase->Examining_calls,
        ) && next.lap.state.messages == lap.state.messages,
        next.lap.phase is Examining ==> lap.phase is Calling && next.lap.phase->Examining_calls
            == lap.phase->Calling_calls && (event matches Event::Written { outcome: Ok(()), .. })
            && next.lap.state == lap.state,
        next.lap.phase is Calling ==> next.action is Write,
{
}

/// A stream is opened only in a lap that began with a write of the transcript; what enters it in
/// between are inputs of the user.
#[verifier::rlimit(40)]
#[verifier::spinoff_prover]
pub proof fn law_samplings_follow_a_write<C: TokenCounter>(
    lap: Lap,
    event: Event,
    next: Next,
    counter: C,
)
    requires
        lap.awaits(event),
        lap.leads(event, next, counter),
    ensures
        next.lap.phase is Inputs ==> lap.phase is Head && (event matches Event::Written {
            outcome: Ok(()),
            ..
        }) && next.lap.state.messages == lap.state.messages,
        next.lap.phase is Frame ==> lap.phase is Inputs && (event matches Event::Inputs(inputs)
            && next.lap.state.messages@ == lap.state.messages@ + inputs@),
        next.lap.phase is Encoding ==> lap.phase is Frame || lap.phase is Redacting,
        next.action is Open ==> lap.phase is Encoding || lap.phase is Recording,
        next.action is Open ==> next.lap.state.messages == lap.state.messages,
        next.lap.phase is Listening ==> lap.phase is Opening || lap.phase is Listening,
{
}

/// A stopped run leaves no call without a result.
pub proof fn law_stopped_runs_are_answered<C: TokenCounter>(
    lap: Lap,
    event: Event,
    next: Next,
    counter: C,
)
    requires
        lap.awaits(event),
        lap.leads(event, next, counter),
        next.lap.phase is Stopping,
    ensures
        message::unanswered(next.lap.state.views()).len() == 0,
{
    match event {
        Event::Written { cancelled, .. } => {
            let (decision, after) = choose|decision: Option<Transition>, after: RunState|
                #[trigger] lap.state.heads(cancelled, decision, after) && match decision {
                    Some(transition) => next.enters(after, transition, seq![]),
                    None => next.lap == (Lap { state: after, phase: Phase::Inputs }),
                };
            lemma_stops_are_answered(next, after, decision->0, seq![]);
        },
        Event::Ended(window) => {
            let sampling = lap.phase->Listening_sampling;
            let (settled, after) = choose|settled: Settled, after: RunState|
                #[trigger] lap.state.settles(sampling, window, counter, settled, after)
                    && next.enters(
                    after,
                    settled.transition,
                    seq![AgentEvent::ModelTurn(settled.turn)] + resets(settled.reset),
                );
            lemma_stops_are_answered(
                next,
                after,
                settled.transition,
                seq![AgentEvent::ModelTurn(settled.turn)] + resets(settled.reset),
            );
        },
        _ => {},
    }
}

proof fn lemma_stops_are_answered(
    next: Next,
    state: RunState,
    transition: Transition,
    before: Seq<AgentEvent>,
)
    requires
        next.enters(state, transition, before),
        next.lap.phase is Stopping,
    ensures
        message::unanswered(next.lap.state.views()).len() == 0,
{
    agent::law_reconciled_transcripts_are_answered(state.views());
}

/// What clients were shown of a sampling enters the transcript, or they are told to erase it.
#[verifier::rlimit(40)]
#[verifier::spinoff_prover]
pub proof fn law_shown_output_is_kept_or_reset<C: TokenCounter>(
    lap: Lap,
    event: Event,
    next: Next,
    counter: C,
)
    requires
        lap.awaits(event),
        lap.leads(event, next, counter),
        lap.phase is Listening,
        lap.phase->Listening_sampling.accumulator@.visible(),
        !(event is Streamed),
    ensures
        next.told@.contains(AgentEvent::StreamReset) || next.lap.state.views()
            == lap.state.views().push(lap.phase->Listening_sampling.accumulator@.message()),
{
}

/// What could not be written ends the run with an error of the session, and nothing else happens.
pub proof fn law_failed_writes_end_the_run<C: TokenCounter>(
    lap: Lap,
    event: Event,
    next: Next,
    counter: C,
)
    requires
        lap.leads(event, next, counter),
        event is Written,
        event->outcome is Err,
    ensures
        next.lap.phase is Over && next.action is End,
        next.lap.state == lap.state,
        next.told@.len() == 1,
        next.told@[0] is Error && next.told@[0]->Error_0@ == AgentFault::Session(
            event->outcome->Err_0@,
        ),
{
}

/// A lap starts with what stops it: a budget that is used up ends the run and is told, a stop is
/// answered for and told; else the inputs of the user are taken, or a full context is compacted.
pub proof fn law_laps_start_with_what_stops_them<C: TokenCounter>(
    lap: Lap,
    event: Event,
    next: Next,
    counter: C,
)
    requires
        lap.leads(event, next, counter),
        lap.phase is Head,
        event is Written,
        event->outcome is Ok,
    ensures
        ({
            let state = lap.state;
            let cancelled = event->cancelled;
            let spent = state.usage_budget;
            let reached = spent.reached(spent.tokens(), spent.spent_cost());
            let full = state.turn.budget.growth(state.turn.budget.current_input)
                >= state.turn.budget.auto_threshold || state.force_compact
                || state.turn.required_profile_compaction is Some;
            let free = reached is None && !cancelled && state.pending_abort is None;
            &&& reached is Some ==> next.action is End && next.told@ == seq![
                AgentEvent::Exhausted(reached->0),
            ]
            &&& reached is None && cancelled ==> next.lap.phase is Stopping
                && next.lap.phase->Stopping_reason == InterruptReason::Cancelled && next.action
                is Write
            &&& reached is None && !cancelled && state.pending_abort is Some ==> next.lap.phase
                is Stopping && next.lap.phase->Stopping_reason == state.pending_abort->0
            &&& free && state.pending is Some ==> next.action is Measure && next.lap.phase
                is Measuring && next.lap.phase->Measuring_recovering
            &&& free && state.pending is None && full ==> next.action is Measure && next.lap.phase
                is Measuring && !next.lap.phase->Measuring_recovering
            &&& free && state.pending is None && !full ==> next.action is TakeInputs
                && next.lap.phase is Inputs && next.lap.state == state
        }),
{
}

/// The steps of a lap follow one another: inputs are taken and then the frame is read, calls are
/// written and then examined, a pause leads to another lap, and what ends a run is told as the last
/// thing: a stop with its reason, an end of the turn, a compaction with its kind.
pub proof fn law_steps_follow_one_another<C: TokenCounter>(
    lap: Lap,
    event: Event,
    next: Next,
    counter: C,
)
    requires
        lap.leads(event, next, counter),
        lap.awaits(event),
        event is Written ==> event->outcome is Ok,
    ensures
        event matches Event::Inputs(inputs) ==> next.action is ReadFrame && next.lap.phase is Frame
            && next.lap.state.messages@ == lap.state.messages@ + inputs@,
        event is Slept ==> next.action is Write && next.lap.phase is Head && next.lap.state
            == lap.state,
        lap.phase is Redacting ==> next.action is Encode && next.lap.phase is Encoding,
        lap.phase matches Phase::Calling { calls } ==> next.action is Examine && next.lap.phase == (
        Phase::Examining { calls }),
        lap.phase matches Phase::Stopping { reason, reconciled } ==> next.action is End
            && next.told@.len() == 1 && next.told@[0] is Interrupted
            && next.told@[0]->Interrupted_0.reason == reason,
        lap.phase is Closing ==> next.action is End && next.told@ == seq![AgentEvent::EndTurn],
        lap.phase matches Phase::Checkpointing { kind, usage } ==> next.action is Write
            && next.lap.phase is Head && next.told@ == seq![AgentEvent::Compacted(kind)],
        lap.phase is Opening && event is Opened ==> next.action is Listen && next.lap.phase
            is Listening && next.lap.phase->sampling.fresh() && next.lap.state == lap.state,
        lap.phase is Opening && event is Cancelled ==> next.action is Write && next.lap.phase
            is Head && next.lap.state == lap.state,
        lap.phase is Running && event is Cancelled ==> next.action is Write && next.lap.phase
            is Head && next.lap.state == lap.state,
{
}

/// Calls that may run are dispatched as they were asked for, all of them, and told one by one; the
/// run waits for a result of each. Those that repeat are not dispatched.
pub proof fn law_calls_are_dispatched_as_asked<C: TokenCounter>(
    lap: Lap,
    event: Event,
    next: Next,
    counter: C,
    i: int,
)
    requires
        lap.leads(event, next, counter),
        lap.phase is Examining,
        event is Examined,
        next.action is Dispatch,
    ensures
        ({
            let calls = lap.phase->Examining_calls;
            &&& next.action == Action::Dispatch(calls)
            &&& next.lap.phase is Running && next.lap.phase->ids@.len() == calls@.len()
            &&& next.told@.len() == calls@.len()
            &&& next.lap.state.messages == lap.state.messages
            &&& 0 <= i < calls@.len() ==> {
                &&& next.lap.phase->ids@[i]@ == calls@[i].id@
                &&& next.told@[i] is ToolCall
                &&& next.told@[i]->ToolCall_0.id@ == calls@[i].id@
                &&& next.told@[i]->ToolCall_0.name@ == calls@[i].name@
                &&& next.told@[i]->ToolCall_0.input@ == calls@[i].input@
            }
        }),
{
    let calls = lap.phase->Examining_calls;
    let ids = next.lap.phase->ids;
    assert(text::texts(ids@).len() == calls@.len());
    if 0 <= i < calls@.len() {
        assert(text::texts(ids@)[i] == ids@[i]@);
        assert(text::texts(ids@)[i] == calls@[i].id@);
        assert(next.told@[i] is ToolCall);
    }
}

/// A pause before another attempt is as long as was planned, and clients are told of it first.
pub proof fn law_attempts_wait_as_planned(
    next: Next,
    state: RunState,
    attempt: AttemptContext,
    before: Seq<AgentEvent>,
    plan: (ErrorClass, FailureAction),
)
    requires
        next.follows(state, attempt, before, plan),
    ensures
        plan.1 matches FailureAction::Retry { delay_ms, fallback_model } ==> {
            &&& delay_ms > 0 ==> next.action == Action::Sleep(delay_ms) && next.lap.phase
                is Sleeping
            &&& delay_ms == 0 ==> next.action is Write && next.lap.phase is Head
            &&& next.told@.len() == before.len() + 1 && next.told@.last() is RetryScheduled
        },
        plan.1 matches FailureAction::Fail(error) ==> next.action is End && next.told@.last()
            == AgentEvent::Error(error),
        plan.1 is Withhold || plan.1 is DowngradeReplay ==> next.action is Write && next.lap.phase
            is Head,
        plan.1 is RefreshCredentials ==> next.action is Refresh && next.lap.phase is Refreshing,
        next.lap.state == state,
        next.told@.len() > before.len() && next.told@.take(before.len() as int) == before,
{
    assert(next.told@.take(before.len() as int) =~= before);
}

/// The end of a stream is told as a round-trip first, then what was shown is taken back where it is
/// void, and then the decision of the stream is carried out.
pub proof fn law_round_trips_are_told<C: TokenCounter>(
    lap: Lap,
    event: Event,
    next: Next,
    counter: C,
)
    requires
        lap.leads(event, next, counter),
        lap.phase is Listening,
        event is Ended,
    ensures
        ({
            let built = lap.phase->sampling.accumulator@;
            let decision = built.decision();
            &&& next.told@.len() > 0 && next.told@[0] is ModelTurn
            &&& decision is EndTurn ==> next.lap.phase is Closing && next.action is Write
            &&& decision is Continue ==> next.lap.phase is Head && next.action is Write
            &&& decision is RunTools ==> next.lap.phase is Calling && next.action is Write
                && crate::tools::invocation_views(next.lap.phase->Calling_calls@) == built.calls()
            &&& decision is Exhausted || decision is Fail ==> next.action is End
            &&& decision is Recover ==> next.action is Measure && next.lap.phase is Measuring
                && next.lap.phase->Measuring_recovering
        }),
{
}

} // verus!
