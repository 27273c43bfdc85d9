//! The decisions of the turn loop: what follows before a sampling and after it, and the
//! accumulator that folds a stream into the state on which the second rests.
use crate::compaction::CompactKind;
use crate::error;
use crate::error::{AgentError, AgentFault};
use crate::event::InterruptReason;
use crate::first;
use crate::json;
use crate::json::{Json, JsonView};
use crate::message;
use crate::message::{
    BlockView, ContentBlock, Message, MessageView, Role, ToolCallFormat, ToolCallId,
};
use crate::provider::{StopReason, StreamEvent};
use crate::text;
use crate::tokenizer;
use crate::tokenizer::TokenCounter;
use crate::tools;
use crate::tools::{InvocationView, ToolInvocation};
use vstd::prelude::*;
use vstd::string::*;

verus! {

/// An error of the context that is held back to be recovered from.
#[derive(Debug, Clone, Copy, PartialEq, Eq, Structural)]
pub enum ContextErrorKind {
    PromptTooLong,
    MaxTokensInput,
}

#[derive(Debug, Clone, Copy, PartialEq, Eq, Structural)]
pub struct PendingError {
    pub kind: ContextErrorKind,
}

/// What is used up when a run stops.
#[derive(Debug, Clone, Copy, PartialEq, Eq, Structural)]
pub enum ExhaustReason {
    TokenBudget { spent: u64, limit: u64 },
    CostBudget { spent_micro_usd: u64, limit_micro_usd: u64 },
    ToolLoop { count: u32 },
    /// The model used up its output; the answer may be cut off, or empty.
    MaxOutputTokens { visible_output: bool },
}

/// One decision of the turn loop.
#[derive(Debug, PartialEq, Eq)]
pub enum Transition {
    EndTurn,
    /// Sample again without a message of the user in between.
    Continue,
    RunTools(Vec<ToolInvocation>),
    Compact(CompactKind),
    Recover(PendingError),
    Interrupted(InterruptReason),
    Exhausted(ExhaustReason),
    Fail(AgentError),
}

/// What a decision is.
pub enum TransitionView {
    EndTurn,
    Continue,
    RunTools(Seq<InvocationView>),
    Compact(CompactKind),
    Recover(PendingError),
    Interrupted(InterruptReason),
    Exhausted(ExhaustReason),
    Fail(AgentFault),
}

impl View for Transition {
    type V = TransitionView;

    open spec fn view(&self) -> TransitionView {
        match self {
            Transition::EndTurn => TransitionView::EndTurn,
            Transition::Continue => TransitionView::Continue,
            Transition::RunTools(calls) => TransitionView::RunTools(
                tools::invocation_views(calls@),
            ),
            Transition::Compact(kind) => TransitionView::Compact(*kind),
            Transition::Recover(pending) => TransitionView::Recover(*pending),
            Transition::Interrupted(reason) => TransitionView::Interrupted(*reason),
            Transition::Exhausted(reason) => TransitionView::Exhausted(*reason),
            Transition::Fail(error) => TransitionView::Fail(error@),
        }
    }
}

/// Decides before a sampling; `None` means to open the stream. To recover comes before to
/// compact. No count of turns ends a run here.
pub fn pre_stream_transition(pending: Option<PendingError>, should_autocompact: bool) -> (decision:
    Option<Transition>)
    ensures
        match pending {
            Some(error) => decision is Some && decision->0@ == TransitionView::Recover(error),
            None => if should_autocompact {
                decision is Some && decision->0@ == TransitionView::Compact(CompactKind::Auto)
            } else {
                decision is None
            },
        },
{
    match pending {
        Some(error) => Some(Transition::Recover(error)),
        None => if should_autocompact {
            Some(Transition::Compact(CompactKind::Auto))
        } else {
            None
        },
    }
}

// ---------------------------------------------------------------- the accumulator

/// A call whose arguments are still coming.
#[derive(Debug, PartialEq, Eq)]
pub struct PartialCall {
    pub id: ToolCallId,
    pub name: String,
    pub args: String,
    pub format: ToolCallFormat,
}

/// What such a call is.
pub struct PartialView {
    pub id: Seq<char>,
    pub name: Seq<char>,
    pub args: Seq<char>,
    pub format: ToolCallFormat,
}

impl View for PartialCall {
    type V = PartialView;

    open spec fn view(&self) -> PartialView {
        PartialView { id: self.id@, name: self.name@, args: self.args@, format: self.format }
    }
}

pub open spec fn partial_views(calls: Seq<PartialCall>) -> Seq<PartialView> {
    calls.map_values(|call: PartialCall| call@)
}

/// One opaque reasoning item.
#[derive(Debug, PartialEq, Eq)]
pub struct ReasoningItem {
    pub id: String,
    pub encrypted_content: String,
}

pub open spec fn reasoning_views(items: Seq<ReasoningItem>) -> Seq<(Seq<char>, Seq<char>)> {
    items.map_values(|item: ReasoningItem| (item.id@, item.encrypted_content@))
}

/// The state that a stream is folded into.
#[derive(Debug, PartialEq, Eq, Default)]
pub struct Accumulator {
    pub text: String,
    pub reasoning: String,
    pub stop: Option<StopReason>,
    /// Calls that have started and not ended.
    pub open: Vec<PartialCall>,
    /// Calls that have ended, with their arguments read.
    pub completed: Vec<ToolInvocation>,
    /// Every started call, in the order of the starts.
    pub order: Vec<ToolCallId>,
    pub reasonings: Vec<ReasoningItem>,
}

/// What an accumulator is.
pub struct AccumulatorView {
    pub text: Seq<char>,
    pub reasoning: Seq<char>,
    pub stop: Option<StopReason>,
    pub open: Seq<PartialView>,
    pub completed: Seq<InvocationView>,
    pub order: Seq<Seq<char>>,
    pub reasonings: Seq<(Seq<char>, Seq<char>)>,
}

impl View for Accumulator {
    type V = AccumulatorView;

    open spec fn view(&self) -> AccumulatorView {
        AccumulatorView {
            text: self.text@,
            reasoning: self.reasoning@,
            stop: self.stop,
            open: partial_views(self.open@),
            completed: tools::invocation_views(self.completed@),
            order: text::texts(self.order@),
            reasonings: reasoning_views(self.reasonings@),
        }
    }
}

/// Where the open call of an identifier stands.
pub open spec fn open_at(open: Seq<PartialView>, id: Seq<char>) -> Option<int> {
    first::first_some(
        Seq::new(
            open.len(),
            |i: int|
                if open[i].id == id {
                    Some(i)
                } else {
                    None
                },
        ),
    )
}

/// The completed call of an identifier.
pub open spec fn completed_call(completed: Seq<InvocationView>, id: Seq<char>) -> Option<
    InvocationView,
> {
    first::first_some(
        completed.map_values(
            |call: InvocationView|
                if call.id == id {
                    Some(call)
                } else {
                    None
                },
        ),
    )
}

/// The arguments of a call: none at all are an empty object; what is no JSON gives the reason.
pub open spec fn read_args(id: Seq<char>, args: Seq<char>) -> Result<JsonView, Seq<char>> {
    if text::blank(args) {
        Ok(JsonView::Object(seq![]))
    } else {
        match json::parsed(args) {
            Ok(document) => Ok(document),
            Err(reason) => Err("invalid JSON arguments for tool call "@ + id + ": "@ + reason),
        }
    }
}

/// The calls that have ended, in the order of their starts.
pub open spec fn finished(order: Seq<Seq<char>>, completed: Seq<InvocationView>) -> Seq<
    InvocationView,
>
    decreases order.len(),
{
    if order.len() == 0 {
        seq![]
    } else {
        let before = finished(order.drop_last(), completed);
        match completed_call(completed, order.last()) {
            Some(call) => before.push(call),
            None => before,
        }
    }
}

impl AccumulatorView {
    pub open spec fn empty() -> AccumulatorView {
        AccumulatorView {
            text: seq![],
            reasoning: seq![],
            stop: None,
            open: seq![],
            completed: seq![],
            order: seq![],
            reasonings: seq![],
        }
    }

    /// The state after one event, and the breach of contract that the event is, if it is one.
    pub open spec fn step(self, event: StreamEvent) -> (AccumulatorView, Option<Seq<char>>) {
        match event {
            StreamEvent::TextDelta { text } => (
                AccumulatorView { text: self.text + text@, ..self },
                None,
            ),
            StreamEvent::ReasoningDelta { text } => (
                AccumulatorView { reasoning: self.reasoning + text@, ..self },
                None,
            ),
            StreamEvent::ToolCallStart { id, name, format } => if text::blank(id@) {
                (self, Some("tool call id is empty"@))
            } else if text::blank(name@) {
                (self, Some("tool call "@ + id@ + " name is empty"@))
            } else if open_at(self.open, id@) is Some || completed_call(
                self.completed,
                id@,
            ) is Some {
                (self, Some("duplicate tool call id: "@ + id@))
            } else {
                (
                    AccumulatorView {
                        open: self.open.push(
                            PartialView { id: id@, name: name@, args: seq![], format },
                        ),
                        order: self.order.push(id@),
                        ..self
                    },
                    None,
                )
            },
            StreamEvent::ToolCallDelta { id, input_delta } => match open_at(self.open, id@) {
                Some(at) => (
                    AccumulatorView {
                        open: self.open.update(
                            at,
                            PartialView {
                                args: self.open[at].args + input_delta@,
                                ..self.open[at]
                            },
                        ),
                        ..self
                    },
                    None,
                ),
                None => (self, Some("tool call delta without start: "@ + id@)),
            },
            StreamEvent::ToolCallInputDone { id, input } => match open_at(self.open, id@) {
                Some(at) => (
                    AccumulatorView {
                        open: self.open.update(
                            at,
                            PartialView { args: input@, ..self.open[at] },
                        ),
                        ..self
                    },
                    None,
                ),
                None => (self, Some("tool call terminal input without start: "@ + id@)),
            },
            StreamEvent::ToolCallEnd { id } => match open_at(self.open, id@) {
                Some(at) => {
                    let call = self.open[at];
                    let closed = AccumulatorView { open: self.open.remove(at), ..self };
                    let input = match call.format {
                        ToolCallFormat::Json => read_args(id@, call.args),
                        ToolCallFormat::Text => Ok(JsonView::Text(call.args)),
                    };
                    match input {
                        Ok(document) => (
                            AccumulatorView {
                                completed: self.completed.push(
                                    InvocationView {
                                        id: id@,
                                        name: call.name,
                                        input: document,
                                        format: call.format,
                                    },
                                ),
                                ..closed
                            },
                            None,
                        ),
                        Err(reason) => (closed, Some(reason)),
                    }
                },
                None => (self, Some("tool call end without start: "@ + id@)),
            },
            StreamEvent::EncryptedReasoning { id, encrypted_content } => (
                AccumulatorView {
                    reasonings: self.reasonings.push((id@, encrypted_content@)),
                    ..self
                },
                None,
            ),
            StreamEvent::Done { stop } => (AccumulatorView { stop: Some(stop), ..self }, None),
            _ => (self, None),
        }
    }

    /// The calls that have ended, in the order of their starts.
    pub open spec fn calls(self) -> Seq<InvocationView> {
        finished(self.order, self.completed)
    }

    pub open spec fn visible(self) -> bool {
        self.text.len() > 0 || self.reasoning.len() > 0
    }

    /// The message of the assistant that the stream amounts to.
    pub open spec fn message(self) -> MessageView {
        MessageView {
            role: Role::Assistant,
            content: (if self.reasoning.len() > 0 {
                seq![BlockView::Thinking { text: self.reasoning }]
            } else {
                seq![]
            }) + (if self.text.len() > 0 {
                seq![BlockView::Text { text: self.text }]
            } else {
                seq![]
            }) + self.reasonings.map_values(
                |item: (Seq<char>, Seq<char>)|
                    BlockView::EncryptedReasoning { id: item.0, encrypted_content: item.1 },
            ) + self.calls().map_values(|call: InvocationView| call_block(call)),
        }
    }

    /// The tokens of everything that was generated.
    pub open spec fn tokens<C: TokenCounter>(self, counter: C) -> nat {
        counter.tokens(self.text) + counter.tokens(self.reasoning) + tokenizer::total(
            self.reasonings.map_values(
                |item: (Seq<char>, Seq<char>)| counter.tokens(item.0) + counter.tokens(item.1),
            ),
        ) + tokenizer::total(
            self.completed.map_values(
                |call: InvocationView|
                    counter.tokens(call.name) + counter.tokens(json::rendered(call.input)),
            ),
        ) + tokenizer::total(
            self.open.map_values(
                |call: PartialView| counter.tokens(call.name) + counter.tokens(call.args),
            ),
        )
    }

    /// Open and completed calls all have identifiers of their own.
    pub open spec fn apart(self) -> bool {
        &&& forall|i: int, j: int|
            0 <= i < j < self.open.len() ==> (#[trigger] self.open[i]).id != (
            #[trigger] self.open[j]).id
        &&& forall|i: int, j: int|
            0 <= i < j < self.completed.len() ==> (#[trigger] self.completed[i]).id != (
            #[trigger] self.completed[j]).id
        &&& forall|i: int, j: int|
            0 <= i < self.open.len() && 0 <= j < self.completed.len() ==> (
            #[trigger] self.open[i]).id != (#[trigger] self.completed[j]).id
    }

    /// The decision that follows a stream.
    pub open spec fn decision(self) -> TransitionView {
        let fail = |reason: Seq<char>| TransitionView::Fail(error::contract_fault(reason));
        match self.stop {
            None => fail("provider stream ended without terminal event"@),
            Some(StopReason::ToolUse) => if self.open.len() > 0 {
                fail("provider ended with an open tool call"@)
            } else if self.calls().len() > 0 {
                TransitionView::RunTools(self.calls())
            } else {
                fail("provider signaled tool_use without tool calls"@)
            },
            Some(StopReason::MaxTokens) => if self.calls().len() > 0 || self.open.len() > 0 {
                TransitionView::Recover(PendingError { kind: ContextErrorKind::MaxTokensInput })
            } else {
                TransitionView::Exhausted(
                    ExhaustReason::MaxOutputTokens { visible_output: self.visible() },
                )
            },
            Some(StopReason::ContentFilter) => fail("model output blocked by content filter"@),
            Some(StopReason::IncompleteUnknown) => fail(
                "model response incomplete for an unknown reason"@,
            ),
            Some(StopReason::Refusal) => fail("model refusal"@),
            Some(StopReason::Continue) => TransitionView::Continue,
            Some(StopReason::EndTurn) => TransitionView::EndTurn,
            Some(StopReason::StopSequence) => TransitionView::EndTurn,
        }
    }
}

/// The block that records a call.
pub open spec fn call_block(call: InvocationView) -> BlockView {
    BlockView::ToolUse { id: call.id, name: call.name, input: call.input, format: call.format }
}

fn find_open(open: &Vec<PartialCall>, id: &str) -> (found: Option<usize>)
    ensures
        match found {
            Some(at) => at < open@.len() && open_at(partial_views(open@), id@) == Some(at as int),
            None => open_at(partial_views(open@), id@) is None,
        },
{
    let ghost views = partial_views(open@);
    let ghost marks = Seq::new(
        views.len(),
        |i: int|
            if views[i].id == id@ {
                Some(i)
            } else {
                None
            },
    );
    let mut i: usize = 0;
    while i < open.len()
        invariant
            i <= open.len(),
            views == partial_views(open@),
            marks == Seq::new(
                views.len(),
                |i: int|
                    if views[i].id == id@ {
                        Some(i)
                    } else {
                        None
                    },
            ),
            forall|k: int| 0 <= k < i ==> (#[trigger] marks[k]) is None,
        decreases open.len() - i,
    {
        assert(views[i as int].id == open@[i as int].id@);
        if text::same_text(open[i].id.as_str(), id) {
            proof {
                first::lemma_first_some_at(marks, i as int);
            }
            return Some(i);
        }
        i += 1;
    }
    proof {
        first::lemma_first_some_at(marks, i as int);
    }
    None
}

fn find_completed<'a>(completed: &'a Vec<ToolInvocation>, id: &str) -> (found: Option<
    &'a ToolInvocation,
>)
    ensures
        completed_call(tools::invocation_views(completed@), id@) == match found {
            Some(call) => Some(call@),
            None => None,
        },
{
    let ghost views = tools::invocation_views(completed@);
    let ghost marks = views.map_values(
        |call: InvocationView|
            if call.id == id@ {
                Some(call)
            } else {
                None
            },
    );
    let mut i: usize = 0;
    while i < completed.len()
        invariant
            i <= completed.len(),
            views == tools::invocation_views(completed@),
            marks == views.map_values(
                |call: InvocationView|
                    if call.id == id@ {
                        Some(call)
                    } else {
                        None
                    },
            ),
            forall|k: int| 0 <= k < i ==> (#[trigger] marks[k]) is None,
        decreases completed.len() - i,
    {
        assert(views[i as int] == completed@[i as int]@);
        if text::same_text(completed[i].id.as_str(), id) {
            proof {
                first::lemma_first_some_at(marks, i as int);
            }
            return Some(&completed[i]);
        }
        i += 1;
    }
    proof {
        first::lemma_first_some_at(marks, i as int);
    }
    None
}

fn breach(before: &str, id: &str, after: &str) -> (error: Result<(), AgentError>)
    ensures
        error matches Err(e) && e@ == error::contract_fault(before@ + id@ + after@),
        after@ == ""@ ==> (error matches Err(e) && e@ == error::contract_fault(before@ + id@)),
{
    let message = text::joined(before, id, after, "");
    proof {
        reveal_strlit("");
        if after@ == ""@ {
            assert(before@ + id@ + after@ =~= before@ + id@);
        }
    }
    Err(error::contract_error(message.as_str()))
}

fn parse_tool_args(id: &str, args: &str) -> (read: Result<Json, AgentError>)
    ensures
        match read {
            Ok(document) => read_args(id@, args@) == Ok::<JsonView, Seq<char>>(document@),
            Err(e) => read_args(id@, args@) is Err && e@ == error::contract_fault(
                read_args(id@, args@)->Err_0,
            ),
        },
{
    if text::is_blank(args) {
        let members = Vec::new();
        let document = Json::Object(members);
        assert(document@ == JsonView::Object(seq![])) by {
            assert(document@->Object_0 =~= seq![]);
        }
        return Ok(document);
    }
    match Json::parse(args) {
        Ok(document) => Ok(document),
        Err(reason) => {
            let message = text::joined(
                "invalid JSON arguments for tool call ",
                id,
                ": ",
                reason.as_str(),
            );
            Err(error::contract_error(message.as_str()))
        },
    }
}

/// What the result of folding in an event says of the breach it is, if it is one.
pub open spec fn tells(result: Result<(), AgentError>, breach: Option<Seq<char>>) -> bool {
    match breach {
        None => result is Ok,
        Some(reason) => result matches Err(e) && e@ == error::contract_fault(reason),
    }
}

impl Accumulator {
    pub fn new() -> (accumulator: Accumulator)
        ensures
            accumulator@ == AccumulatorView::empty(),
    {
        let accumulator = Accumulator {
            text: String::new(),
            reasoning: String::new(),
            stop: None,
            open: Vec::new(),
            completed: Vec::new(),
            order: Vec::new(),
            reasonings: Vec::new(),
        };
        proof {
            let view = accumulator@;
            assert(view.text =~= seq![]);
            assert(view.reasoning =~= seq![]);
            assert(view.open =~= seq![]);
            assert(view.completed =~= seq![]);
            assert(view.order =~= seq![]);
            assert(view.reasonings =~= seq![]);
        }
        accumulator
    }

    fn start(&mut self, id: String, name: String, format: ToolCallFormat) -> (result: Result<
        (),
        AgentError,
    >)
        ensures
            ({
                let event = StreamEvent::ToolCallStart { id, name, format };
                final(self)@ == old(self)@.step(event).0 && tells(
                    result,
                    old(self)@.step(event).1,
                )
            }),
    {
        if text::is_blank(id.as_str()) {
            return Err(error::contract_error("tool call id is empty"));
        }
        if text::is_blank(name.as_str()) {
            return breach("tool call ", id.as_str(), " name is empty");
        }
        if find_open(&self.open, id.as_str()).is_some() || find_completed(
            &self.completed,
            id.as_str(),
        ).is_some() {
            return breach("duplicate tool call id: ", id.as_str(), "");
        }
        let ghost before = self@;
        let key = id.clone();
        self.open.push(PartialCall { id, name, args: String::new(), format });
        self.order.push(key);
        proof {
            let after = before.step(StreamEvent::ToolCallStart { id, name, format }).0;
            assert(self@.open =~= after.open);
            assert(self@.order =~= after.order);
            assert(self@.completed =~= after.completed);
            assert(self@.reasonings =~= after.reasonings);
        }
        Ok(())
    }

    fn extend(&mut self, id: String, input_delta: String) -> (result: Result<(), AgentError>)
        ensures
            ({
                let event = StreamEvent::ToolCallDelta { id, input_delta };
                final(self)@ == old(self)@.step(event).0 && tells(
                    result,
                    old(self)@.step(event).1,
                )
            }),
    {
        match find_open(&self.open, id.as_str()) {
            None => breach("tool call delta without start: ", id.as_str(), ""),
            Some(at) => {
                let ghost before = self@;
                let mut args = self.open[at].args.clone();
                args.append(input_delta.as_str());
                self.open[at].args = args;
                proof {
                    let after = before.step(StreamEvent::ToolCallDelta { id, input_delta }).0;
                    assert(self@.open =~= after.open);
                }
                Ok(())
            },
        }
    }

    fn replace(&mut self, id: String, input: String) -> (result: Result<(), AgentError>)
        ensures
            ({
                let event = StreamEvent::ToolCallInputDone { id, input };
                final(self)@ == old(self)@.step(event).0 && tells(
                    result,
                    old(self)@.step(event).1,
                )
            }),
    {
        match find_open(&self.open, id.as_str()) {
            None => breach("tool call terminal input without start: ", id.as_str(), ""),
            Some(at) => {
                let ghost before = self@;
                let ghost event = StreamEvent::ToolCallInputDone { id, input };
                self.open[at].args = input;
                proof {
                    let after = before.step(event).0;
                    assert(self@.open =~= after.open);
                }
                Ok(())
            },
        }
    }

    fn end(&mut self, id: String) -> (result: Result<(), AgentError>)
        ensures
            ({
                let event = StreamEvent::ToolCallEnd { id };
                final(self)@ == old(self)@.step(event).0 && tells(
                    result,
                    old(self)@.step(event).1,
                )
            }),
    {
        match find_open(&self.open, id.as_str()) {
            None => breach("tool call end without start: ", id.as_str(), ""),
            Some(at) => {
                let ghost before = self@;
                let ghost event = StreamEvent::ToolCallEnd { id };
                let call = self.open.remove(at);
                proof {
                    assert(call@ == before.open[at as int]);
                    assert(self@.open =~= before.open.remove(at as int));
                }
                let input = match call.format {
                    ToolCallFormat::Json => parse_tool_args(id.as_str(), call.args.as_str()),
                    ToolCallFormat::Text => Ok(Json::Text(call.args)),
                };
                match input {
                    Ok(input) => {
                        self.completed.push(
                            ToolInvocation { id, name: call.name, input, format: call.format },
                        );
                        proof {
                            let after = before.step(event).0;
                            assert(self@.completed =~= after.completed);
                        }
                        Ok(())
                    },
                    Err(error) => Err(error),
                }
            },
        }
    }

    /// Folds in one event. Usage and other telemetry change nothing here.
    pub fn push(&mut self, event: StreamEvent) -> (result: Result<(), AgentError>)
        ensures
            final(self)@ == old(self)@.step(event).0,
            tells(result, old(self)@.step(event).1),
    {
        match event {
            StreamEvent::TextDelta { text } => {
                self.text.append(text.as_str());
                Ok(())
            },
            StreamEvent::ReasoningDelta { text } => {
                self.reasoning.append(text.as_str());
                Ok(())
            },
            StreamEvent::ToolCallStart { id, name, format } => self.start(id, name, format),
            StreamEvent::ToolCallDelta { id, input_delta } => self.extend(id, input_delta),
            StreamEvent::ToolCallInputDone { id, input } => self.replace(id, input),
            StreamEvent::ToolCallEnd { id } => self.end(id),
            StreamEvent::EncryptedReasoning { id, encrypted_content } => {
                let ghost before = self@;
                self.reasonings.push(ReasoningItem { id, encrypted_content });
                assert(self@.reasonings =~= before.reasonings.push((id@, encrypted_content@)));
                Ok(())
            },
            StreamEvent::Done { stop } => {
                self.stop = Some(stop);
                Ok(())
            },
            StreamEvent::Usage { .. } => Ok(()),
            StreamEvent::Quota { .. } => Ok(()),
            StreamEvent::ResponseMetadata { .. } => Ok(()),
            StreamEvent::ResponseItem { .. } => Ok(()),
            StreamEvent::ProviderExtension { .. } => Ok(()),
            StreamEvent::UnmappedItem { .. } => Ok(()),
            StreamEvent::ReasoningReplayDisabled { .. } => Ok(()),
        }
    }

    pub fn text(&self) -> (text: &str)
        ensures
            text@ == self@.text,
    {
        self.text.as_str()
    }

    pub fn has_open_tool_calls(&self) -> (yes: bool)
        ensures
            yes == (self@.open.len() > 0),
    {
        self.open.len() > 0
    }

    pub fn has_visible_output(&self) -> (yes: bool)
        ensures
            yes == self@.visible(),
    {
        let shown: usize = text::byte_len_of(self.text.as_str());
        let hidden: usize = text::byte_len_of(self.reasoning.as_str());
        proof {
            text::lemma_byte_len_bounds(self.text@);
            text::lemma_byte_len_bounds(self.reasoning@);
        }
        shown > 0 || hidden > 0
    }

    /// The calls that have ended, in the order of their starts.
    pub fn tool_calls(&self) -> (calls: Vec<ToolInvocation>)
        ensures
            tools::invocation_views(calls@) == self@.calls(),
    {
        let mut calls: Vec<ToolInvocation> = Vec::new();
        let ghost order = self@.order;
        let mut i: usize = 0;
        assert(tools::invocation_views(calls@) =~= finished(order.take(0), self@.completed));
        while i < self.order.len()
            invariant
                i <= self.order.len(),
                order == self@.order,
                order.len() == self.order@.len(),
                tools::invocation_views(calls@) == finished(
                    order.take(i as int),
                    self@.completed,
                ),
            decreases self.order.len() - i,
        {
            assert(order.take(i + 1).drop_last() =~= order.take(i as int));
            assert(order.take(i + 1).last() == self.order@[i as int]@);
            match find_completed(&self.completed, self.order[i].as_str()) {
                Some(call) => {
                    let ghost before = calls@;
                    let copy = call.clone();
                    calls.push(copy);
                    assert(tools::invocation_views(calls@) =~= tools::invocation_views(
                        before,
                    ).push(call@));
                },
                None => {},
            }
            i += 1;
        }
        assert(order.take(i as int) =~= order);
        calls
    }

    /// The message of the assistant: reasoning, text, opaque reasoning, then the calls.
    pub fn to_assistant_message(&self) -> (message: Message)
        ensures
            message@ == self@.message(),
    {
        let mut content: Vec<ContentBlock> = Vec::new();
        let ghost whole = self@.message().content;
        let ghost first_part: Seq<BlockView> = if self@.reasoning.len() > 0 {
            seq![BlockView::Thinking { text: self@.reasoning }]
        } else {
            seq![]
        };
        let ghost second_part: Seq<BlockView> = if self@.text.len() > 0 {
            seq![BlockView::Text { text: self@.text }]
        } else {
            seq![]
        };
        proof {
            text::lemma_byte_len_bounds(self.text@);
            text::lemma_byte_len_bounds(self.reasoning@);
        }
        if text::byte_len_of(self.reasoning.as_str()) > 0 {
            content.push(ContentBlock::Thinking { text: self.reasoning.clone() });
        }
        assert(message::block_views(content@) =~= first_part);
        if text::byte_len_of(self.text.as_str()) > 0 {
            content.push(ContentBlock::Text { text: self.text.clone() });
        }
        assert(message::block_views(content@) =~= first_part + second_part);
        let ghost items = self@.reasonings.map_values(
            |item: (Seq<char>, Seq<char>)|
                BlockView::EncryptedReasoning { id: item.0, encrypted_content: item.1 },
        );
        let mut i: usize = 0;
        assert(message::block_views(content@) =~= first_part + second_part + items.take(0));
        while i < self.reasonings.len()
            invariant
                i <= self.reasonings.len(),
                items == self@.reasonings.map_values(
                    |item: (Seq<char>, Seq<char>)|
                        BlockView::EncryptedReasoning { id: item.0, encrypted_content: item.1 },
                ),
                message::block_views(content@) == first_part + second_part + items.take(i as int),
            decreases self.reasonings.len() - i,
        {
            let ghost before = content@;
            content.push(
                ContentBlock::EncryptedReasoning {
                    id: self.reasonings[i].id.clone(),
                    encrypted_content: self.reasonings[i].encrypted_content.clone(),
                },
            );
            proof {
                message::lemma_block_views_push(before, content@.last());
                assert(content@ =~= before.push(content@.last()));
                assert(items[i as int] == content@.last()@);
                assert(items.take(i + 1) =~= items.take(i as int).push(items[i as int]));
                assert(message::block_views(content@) =~= first_part + second_part + items.take(
                    i + 1,
                ));
            }
            i += 1;
        }
        assert(items.take(i as int) =~= items);
        let calls = self.tool_calls();
        let ghost blocks = self@.calls().map_values(|call: InvocationView| call_block(call));
        let mut k: usize = 0;
        assert(message::block_views(content@) =~= first_part + second_part + items + blocks.take(
            0,
        ));
        while k < calls.len()
            invariant
                k <= calls.len(),
                tools::invocation_views(calls@) == self@.calls(),
                blocks == self@.calls().map_values(|call: InvocationView| call_block(call)),
                blocks.len() == calls@.len(),
                message::block_views(content@) == first_part + second_part + items + blocks.take(
                    k as int,
                ),
            decreases calls.len() - k,
        {
            let ghost before = content@;
            let call = calls[k].clone();
            content.push(
                ContentBlock::ToolUse {
                    id: call.id,
                    name: call.name,
                    input: call.input,
                    format: call.format,
                },
            );
            proof {
                assert(self@.calls()[k as int] == calls@[k as int]@);
                message::lemma_block_views_push(before, content@.last());
                assert(content@ =~= before.push(content@.last()));
                assert(blocks[k as int] == content@.last()@);
                assert(blocks.take(k + 1) =~= blocks.take(k as int).push(blocks[k as int]));
                assert(message::block_views(content@) =~= first_part + second_part + items
                    + blocks.take(k + 1));
            }
            k += 1;
        }
        assert(blocks.take(k as int) =~= blocks);
        Message { role: Role::Assistant, content }
    }

    pub fn is_empty(&self) -> (yes: bool)
        ensures
            yes == (!self@.visible() && self@.reasonings.len() == 0 && self@.completed.len() == 0),
    {
        !self.has_visible_output() && self.reasonings.len() == 0 && self.completed.len() == 0
    }

    /// An estimate of what was generated, for a provider that reports no usage: text, reasoning,
    /// calls, and calls that were cut off.
    pub fn estimate_output<C: TokenCounter>(&self, counter: &C) -> (tokens: u32)
        ensures
            tokens == tokenizer::capped_u32(self@.tokens(*counter)),
    {
        let shown: usize = counter.count_text(self.text.as_str());
        let hidden: usize = counter.count_text(self.reasoning.as_str());
        let mut sum: usize = shown.saturating_add(hidden);
        let ghost base = counter.tokens(self@.text) + counter.tokens(self@.reasoning);
        let ghost first_counts = self@.reasonings.map_values(
            |item: (Seq<char>, Seq<char>)| counter.tokens(item.0) + counter.tokens(item.1),
        );
        let mut i: usize = 0;
        assert(first_counts.take(0) =~= seq![]);
        while i < self.reasonings.len()
            invariant
                i <= self.reasonings.len(),
                first_counts == self@.reasonings.map_values(
                    |item: (Seq<char>, Seq<char>)|
                        counter.tokens(item.0) + counter.tokens(item.1),
                ),
                sum == tokenizer::capped_usize(
                    base + tokenizer::total(first_counts.take(i as int)),
                ),
            decreases self.reasonings.len() - i,
        {
            let a: usize = counter.count_text(self.reasonings[i].id.as_str());
            let b: usize = counter.count_text(self.reasonings[i].encrypted_content.as_str());
            proof {
                assert(first_counts.take(i + 1).drop_last() =~= first_counts.take(i as int));
                assert(first_counts[i as int] == a + b);
            }
            sum = sum.saturating_add(a).saturating_add(b);
            i += 1;
        }
        assert(first_counts.take(i as int) =~= first_counts);
        let ghost base = base + tokenizer::total(first_counts);
        let ghost second_counts = self@.completed.map_values(
            |call: InvocationView|
                counter.tokens(call.name) + counter.tokens(json::rendered(call.input)),
        );
        let mut j: usize = 0;
        assert(second_counts.take(0) =~= seq![]);
        while j < self.completed.len()
            invariant
                j <= self.completed.len(),
                second_counts == self@.completed.map_values(
                    |call: InvocationView|
                        counter.tokens(call.name) + counter.tokens(json::rendered(call.input)),
                ),
                sum == tokenizer::capped_usize(
                    base + tokenizer::total(second_counts.take(j as int)),
                ),
            decreases self.completed.len() - j,
        {
            let rendering = self.completed[j].input.render();
            let a: usize = counter.count_text(self.completed[j].name.as_str());
            let b: usize = counter.count_text(rendering.as_str());
            proof {
                assert(self@.completed[j as int] == self.completed@[j as int]@);
                assert(second_counts.take(j + 1).drop_last() =~= second_counts.take(j as int));
                assert(second_counts[j as int] == a + b);
            }
            sum = sum.saturating_add(a).saturating_add(b);
            j += 1;
        }
        assert(second_counts.take(j as int) =~= second_counts);
        let ghost base = base + tokenizer::total(second_counts);
        let ghost third_counts = self@.open.map_values(
            |call: PartialView| counter.tokens(call.name) + counter.tokens(call.args),
        );
        let mut k: usize = 0;
        assert(third_counts.take(0) =~= seq![]);
        while k < self.open.len()
            invariant
                k <= self.open.len(),
                third_counts == self@.open.map_values(
                    |call: PartialView| counter.tokens(call.name) + counter.tokens(call.args),
                ),
                sum == tokenizer::capped_usize(
                    base + tokenizer::total(third_counts.take(k as int)),
                ),
            decreases self.open.len() - k,
        {
            let a: usize = counter.count_text(self.open[k].name.as_str());
            let b: usize = counter.count_text(self.open[k].args.as_str());
            proof {
                assert(self@.open[k as int] == self.open@[k as int]@);
                assert(third_counts.take(k + 1).drop_last() =~= third_counts.take(k as int));
                assert(third_counts[k as int] == a + b);
            }
            sum = sum.saturating_add(a).saturating_add(b);
            k += 1;
        }
        assert(third_counts.take(k as int) =~= third_counts);
        tokenizer::to_u32(sum)
    }
}

/// Decides after a stream: what to run, to recover from, or to end with.
pub fn post_stream_transition(accumulator: &Accumulator) -> (decision: Transition)
    ensures
        decision@ == accumulator@.decision(),
{
    let open = accumulator.has_open_tool_calls();
    let calls = accumulator.tool_calls();
    match accumulator.stop {
        None => Transition::Fail(
            error::contract_error("provider stream ended without terminal event"),
        ),
        Some(StopReason::ToolUse) => if open {
            Transition::Fail(error::contract_error("provider ended with an open tool call"))
        } else if calls.len() > 0 {
            Transition::RunTools(calls)
        } else {
            Transition::Fail(
                error::contract_error("provider signaled tool_use without tool calls"),
            )
        },
        Some(StopReason::MaxTokens) => if calls.len() > 0 || open {
            Transition::Recover(PendingError { kind: ContextErrorKind::MaxTokensInput })
        } else {
            Transition::Exhausted(
                ExhaustReason::MaxOutputTokens {
                    visible_output: accumulator.has_visible_output(),
                },
            )
        },
        Some(StopReason::ContentFilter) => Transition::Fail(
            error::contract_error("model output blocked by content filter"),
        ),
        Some(StopReason::IncompleteUnknown) => Transition::Fail(
            error::contract_error("model response incomplete for an unknown reason"),
        ),
        Some(StopReason::Refusal) => Transition::Fail(error::contract_error("model refusal")),
        Some(StopReason::Continue) => Transition::Continue,
        Some(StopReason::EndTurn) => Transition::EndTurn,
        Some(StopReason::StopSequence) => Transition::EndTurn,
    }
}

// ---------------------------------------------------------------- laws

/// Where an open call is found, it stands there; where none is found, none has the identifier.
pub proof fn lemma_open_at(open: Seq<PartialView>, id: Seq<char>)
    ensures
        match open_at(open, id) {
            Some(at) => 0 <= at < open.len() && open[at].id == id,
            None => forall|i: int| 0 <= i < open.len() ==> (#[trigger] open[i]).id != id,
        },
{
    let marks = Seq::new(
        open.len(),
        |i: int|
            if open[i].id == id {
                Some(i)
            } else {
                None
            },
    );
    if first::first_some(marks) is Some {
        let at = first::lemma_first_some_place(marks);
    } else {
        assert forall|i: int| 0 <= i < open.len() implies (#[trigger] open[i]).id != id by {
            first::lemma_first_some_none(marks, i);
        }
    }
}

/// Where a completed call is found, it has the identifier; where none is found, none has it.
pub proof fn lemma_completed_call(completed: Seq<InvocationView>, id: Seq<char>)
    ensures
        match completed_call(completed, id) {
            Some(call) => call.id == id && completed.contains(call),
            None => forall|i: int|
                0 <= i < completed.len() ==> (#[trigger] completed[i]).id != id,
        },
{
    let marks = completed.map_values(
        |call: InvocationView|
            if call.id == id {
                Some(call)
            } else {
                None
            },
    );
    if first::first_some(marks) is Some {
        let at = first::lemma_first_some_place(marks);
        assert(completed[at] == marks[at]->0);
    } else {
        assert forall|i: int| 0 <= i < completed.len() implies (#[trigger] completed[i]).id
            != id by {
            first::lemma_first_some_none(marks, i);
            assert(marks[i] is None);
        }
    }
}

/// No event makes two calls share an identifier: the empty accumulator has none, and every event
/// keeps the open and the completed calls apart.
pub proof fn law_calls_stay_apart(state: AccumulatorView, event: StreamEvent)
    requires
        state.apart(),
    ensures
        AccumulatorView::empty().apart(),
        state.step(event).0.apart(),
{
    let after = state.step(event).0;
    match event {
        StreamEvent::ToolCallStart { id, name, format } => {
            lemma_open_at(state.open, id@);
            lemma_completed_call(state.completed, id@);
        },
        StreamEvent::ToolCallDelta { id, input_delta } => {
            lemma_open_at(state.open, id@);
        },
        StreamEvent::ToolCallInputDone { id, input } => {
            lemma_open_at(state.open, id@);
        },
        StreamEvent::ToolCallEnd { id } => {
            lemma_open_at(state.open, id@);
            if open_at(state.open, id@) is Some {
                let at = open_at(state.open, id@)->0;
                assert forall|i: int| 0 <= i < after.open.len() implies (
                #[trigger] after.open[i]).id != id@ by {
                    let k = if i < at {
                        i
                    } else {
                        i + 1
                    };
                    assert(after.open[i] == state.open[k]);
                    assert(state.open[k].id != state.open[at].id);
                }
                assert forall|i: int, j: int| 0 <= i < j < after.open.len() implies (
                #[trigger] after.open[i]).id != (#[trigger] after.open[j]).id by {
                    let k = if i < at {
                        i
                    } else {
                        i + 1
                    };
                    let l = if j < at {
                        j
                    } else {
                        j + 1
                    };
                    assert(after.open[i] == state.open[k] && after.open[j] == state.open[l]);
                }
                assert forall|i: int, j: int|
                    0 <= i < after.open.len() && 0 <= j < state.completed.len() implies (
                #[trigger] after.open[i]).id != (#[trigger] state.completed[j]).id by {
                    let k = if i < at {
                        i
                    } else {
                        i + 1
                    };
                    assert(after.open[i] == state.open[k]);
                }
                assert forall|j: int| 0 <= j < state.completed.len() implies (
                #[trigger] state.completed[j]).id != id@ by {
                    assert(state.open[at].id == id@);
                }
            }
        },
        _ => {},
    }
}

/// Tools run only when the model stopped for them, with no call cut off; and they are then the
/// completed calls in the order of their starts.
pub proof fn law_tools_run_only_when_complete(state: AccumulatorView)
    ensures
        state.decision() is RunTools <==> state.stop == Some(StopReason::ToolUse)
            && state.open.len() == 0 && state.calls().len() > 0,
        state.decision() is RunTools ==> state.decision() == TransitionView::RunTools(
            state.calls(),
        ),
        state.open.len() > 0 ==> !(state.decision() is RunTools) && !(
        state.decision() is Exhausted),
{
}

/// An open call is found again after its arguments change.
proof fn lemma_open_at_update(open: Seq<PartialView>, id: Seq<char>, at: int, call: PartialView)
    requires
        open_at(open, id) == Some(at),
        call.id == id,
    ensures
        open_at(open.update(at, call), id) == Some(at),
{
    lemma_open_at(open, id);
    let changed = open.update(at, call);
    let marks = |calls: Seq<PartialView>|
        Seq::new(
            calls.len(),
            |i: int|
                if calls[i].id == id {
                    Some(i)
                } else {
                    None
                },
        );
    assert(marks(changed) =~= marks(open));
}

/// What a freeform call is sent in fragments is its input, character for character: after a
/// fragment, the end of the call completes it with the text so far and the fragment, unread.
pub proof fn law_freeform_input_is_verbatim(
    state: AccumulatorView,
    id: String,
    delta: StreamEvent,
    end: StreamEvent,
    at: int,
)
    requires
        open_at(state.open, id@) == Some(at),
        state.open[at].format == ToolCallFormat::Text,
        delta matches StreamEvent::ToolCallDelta { id: of, .. } && of@ == id@,
        end matches StreamEvent::ToolCallEnd { id: of } && of@ == id@,
    ensures
        state.step(delta).1 is None,
        state.step(delta).0.step(end).1 is None,
        state.step(delta).0.step(end).0.completed == state.completed.push(
            InvocationView {
                id: id@,
                name: state.open[at].name,
                input: JsonView::Text(state.open[at].args + delta->ToolCallDelta_input_delta@),
                format: ToolCallFormat::Text,
            },
        ),
{
    let call = PartialView {
        args: state.open[at].args + delta->ToolCallDelta_input_delta@,
        ..state.open[at]
    };
    lemma_open_at(state.open, id@);
    lemma_open_at_update(state.open, id@, at, call);
}

/// A complete input sent for a call replaces every fragment of it: what was sent before makes no
/// difference to the completed call.
pub proof fn law_terminal_input_replaces_fragments(
    state: AccumulatorView,
    id: String,
    delta: StreamEvent,
    done: StreamEvent,
    end: StreamEvent,
    at: int,
)
    requires
        open_at(state.open, id@) == Some(at),
        delta matches StreamEvent::ToolCallDelta { id: of, .. } && of@ == id@,
        done matches StreamEvent::ToolCallInputDone { id: of, .. } && of@ == id@,
        end matches StreamEvent::ToolCallEnd { id: of } && of@ == id@,
    ensures
        state.step(delta).0.step(done).0.step(end) == state.step(done).0.step(end),
{
    lemma_open_at(state.open, id@);
    let call = state.open[at];
    let longer = PartialView { args: call.args + delta->ToolCallDelta_input_delta@, ..call };
    let replaced = PartialView { args: done->ToolCallInputDone_input@, ..call };
    lemma_open_at_update(state.open, id@, at, longer);
    lemma_open_at_update(state.open, id@, at, replaced);
    assert(state.open.update(at, longer).update(at, replaced) =~= state.open.update(at, replaced));
}

// ---------------------------------------------------------------- laws of whole streams

impl AccumulatorView {
    /// The state after a stream of events.
    pub open spec fn folded(self, events: Seq<StreamEvent>) -> AccumulatorView
        decreases events.len(),
    {
        if events.len() == 0 {
            self
        } else {
            self.folded(events.drop_last()).step(events.last()).0
        }
    }
}

/// The fragments of a call among some events, one after the other.
pub open spec fn fragments(events: Seq<StreamEvent>, id: Seq<char>) -> Seq<char>
    decreases events.len(),
{
    if events.len() == 0 {
        seq![]
    } else {
        match events.last() {
            StreamEvent::ToolCallDelta { id: of, input_delta } if of@ == id => fragments(
                events.drop_last(),
                id,
            ) + input_delta@,
            _ => fragments(events.drop_last(), id),
        }
    }
}

/// Whether an event closes a call or replaces what was sent for it.
pub open spec fn settles_call(event: StreamEvent, id: Seq<char>) -> bool {
    match event {
        StreamEvent::ToolCallInputDone { id: of, .. } => of@ == id,
        StreamEvent::ToolCallEnd { id: of } => of@ == id,
        _ => false,
    }
}

/// Whether the one open call of its identifier is this one.
pub open spec fn is_open(state: AccumulatorView, call: PartialView) -> bool {
    &&& state.open.contains(call)
    &&& forall|k: int|
        0 <= k < state.open.len() && (#[trigger] state.open[k]).id == call.id ==> state.open[k]
            == call
}

proof fn lemma_is_open(state: AccumulatorView, call: PartialView)
    requires
        state.apart(),
        state.open.contains(call),
    ensures
        is_open(state, call),
{
    let at = choose|at: int| 0 <= at < state.open.len() && state.open[at] == call;
    assert forall|k: int|
        0 <= k < state.open.len() && (#[trigger] state.open[k]).id == call.id implies state.open[k]
        == call by {
        if k < at {
            assert(state.open[k].id != state.open[at].id);
        } else if at < k {
            assert(state.open[at].id != state.open[k].id);
        }
    }
}

proof fn lemma_folded_apart(state: AccumulatorView, events: Seq<StreamEvent>)
    requires
        state.apart(),
    ensures
        state.folded(events).apart(),
    decreases events.len(),
{
    if events.len() > 0 {
        lemma_folded_apart(state, events.drop_last());
        law_calls_stay_apart(state.folded(events.drop_last()), events.last());
    }
}

/// What is sent of the arguments of a call adds up: while a call is open, whatever else comes
/// between, its arguments are those it had and then every fragment in order. This holds of calls
/// of either format.
pub proof fn law_arguments_are_the_fragments(
    state: AccumulatorView,
    call: PartialView,
    events: Seq<StreamEvent>,
)
    requires
        state.apart(),
        state.open.contains(call),
        forall|i: int| 0 <= i < events.len() ==> !settles_call(#[trigger] events[i], call.id),
    ensures
        is_open(
            state.folded(events),
            PartialView {
                id: call.id,
                name: call.name,
                args: call.args + fragments(events, call.id),
                format: call.format,
            },
        ),
    decreases events.len(),
{
    lemma_folded_apart(state, events);
    if events.len() == 0 {
        assert(call.args + fragments(events, call.id) =~= call.args);
        lemma_is_open(state, call);
    } else {
        let front = events.drop_last();
        let event = events.last();
        assert forall|i: int| 0 <= i < front.len() implies !settles_call(
            #[trigger] front[i],
            call.id,
        ) by {
            assert(front[i] == events[i]);
        }
        assert(!settles_call(events[events.len() - 1], call.id));
        law_arguments_are_the_fragments(state, call, front);
        let before = state.folded(front);
        let after = before.step(event).0;
        let had = PartialView { args: call.args + fragments(front, call.id), ..call };
        let has = PartialView { args: call.args + fragments(events, call.id), ..call };
        let at = choose|at: int| 0 <= at < before.open.len() && before.open[at] == had;
        match event {
            StreamEvent::ToolCallStart { id, .. } => {
                lemma_open_at(before.open, id@);
                assert(after.open[at] == has);
            },
            StreamEvent::ToolCallDelta { id, input_delta } => {
                lemma_open_at(before.open, id@);
                if id@ == call.id {
                    let k = open_at(before.open, id@)->0;
                    assert(before.open[k] == had);
                    assert(had.args + input_delta@ =~= has.args);
                    assert(after.open[k] == has);
                } else {
                    assert(after.open[at] == has);
                }
            },
            StreamEvent::ToolCallInputDone { id, .. } => {
                lemma_open_at(before.open, id@);
                assert(after.open[at] == has);
            },
            StreamEvent::ToolCallEnd { id } => {
                lemma_open_at(before.open, id@);
                match open_at(before.open, id@) {
                    Some(k) => {
                        if at < k {
                            assert(after.open[at] == has);
                        } else {
                            assert(after.open[at - 1] == has);
                        }
                    },
                    None => {
                        assert(after.open[at] == has);
                    },
                }
            },
            _ => {
                assert(after.open[at] == has);
            },
        }
        assert(after.open.contains(has));
        lemma_is_open(after, has);
    }
}

/// The end of a call completes it, and nothing but it: JSON arguments are the document that is
/// read from all that was sent, an empty object where only blanks were; text arguments are all
/// that was sent, unread. Arguments that are no document end the call without completing it.
pub proof fn law_ends_complete_calls(state: AccumulatorView, call: PartialView, end: StreamEvent)
    requires
        state.apart(),
        state.open.contains(call),
        end matches StreamEvent::ToolCallEnd { id } && id@ == call.id,
    ensures
        ({
            let (after, breach) = state.step(end);
            let said = exists|i: int|
                0 <= i < call.args.len() && !text::is_space(#[trigger] call.args[i]);
            let completes = |input: JsonView|
                breach is None && after.completed == state.completed.push(
                    InvocationView {
                        id: call.id,
                        name: call.name,
                        input,
                        format: call.format,
                    },
                );
            &&& !(exists|k: int|
                0 <= k < after.open.len() && (#[trigger] after.open[k]).id == call.id)
            &&& after.open.len() == state.open.len() - 1
            &&& forall|other: PartialView|
                other.id != call.id ==> (#[trigger] state.open.contains(other)
                    <==> after.open.contains(other))
            &&& after.text == state.text && after.reasoning == state.reasoning && after.stop
                == state.stop && after.order == state.order && after.reasonings
                == state.reasonings
            &&& match call.format {
                ToolCallFormat::Text => completes(JsonView::Text(call.args)),
                ToolCallFormat::Json => if !said {
                    completes(JsonView::Object(seq![]))
                } else {
                    match json::parsed(call.args) {
                        Ok(document) => completes(document),
                        Err(_) => breach is Some && after.completed == state.completed,
                    }
                },
            }
        }),
{
    lemma_open_at(state.open, call.id);
    lemma_is_open(state, call);
    let spot = choose|k: int| 0 <= k < state.open.len() && state.open[k] == call;
    assert(state.open[spot].id == call.id);
    let at = open_at(state.open, call.id)->0;
    let (after, breach) = state.step(end);
    assert(state.open[at] == call);
    assert(after.open == state.open.remove(at));
    assert forall|k: int| 0 <= k < after.open.len() implies (#[trigger] after.open[k]).id
        != call.id by {
        if k < at {
            assert(state.open[k].id != state.open[at].id);
        } else {
            assert(state.open[at].id != state.open[k + 1].id);
        }
    }
    assert forall|other: PartialView| other.id != call.id implies (
    #[trigger] state.open.contains(other) <==> after.open.contains(other)) by {
        if state.open.contains(other) {
            let k = choose|k: int| 0 <= k < state.open.len() && state.open[k] == other;
            if k < at {
                assert(after.open[k] == other);
            } else {
                assert(after.open[k - 1] == other);
            }
        }
        if after.open.contains(other) {
            let k = choose|k: int| 0 <= k < after.open.len() && after.open[k] == other;
            if k < at {
                assert(state.open[k] == other);
            } else {
                assert(state.open[k + 1] == other);
            }
        }
    }
}

/// A call that is started under an identifier of its own opens with no arguments, last in the
/// order of starts; one without an identifier or a name, or with an identifier that is taken, is
/// refused and changes nothing.
pub proof fn law_starts_open_calls(state: AccumulatorView, start: StreamEvent)
    requires
        start is ToolCallStart,
    ensures
        ({
            let id = start->ToolCallStart_id@;
            let name = start->ToolCallStart_name@;
            let (after, breach) = state.step(start);
            let named = (exists|i: int| 0 <= i < id.len() && !text::is_space(#[trigger] id[i]))
                && (exists|i: int| 0 <= i < name.len() && !text::is_space(#[trigger] name[i]));
            let taken = (exists|i: int| 0 <= i < state.open.len() && (#[trigger] state.open[i]).id
                == id) || (exists|i: int|
                0 <= i < state.completed.len() && (#[trigger] state.completed[i]).id == id);
            &&& breach is None <==> named && !taken
            &&& breach is Some ==> after == state
            &&& breach is None ==> {
                &&& after.open.len() == state.open.len() + 1
                &&& after.open.drop_last() == state.open
                &&& after.open.last() == (PartialView {
                    id,
                    name,
                    args: seq![],
                    format: start->ToolCallStart_format,
                })
                &&& after.order == state.order.push(id)
                &&& after.completed == state.completed && after.text == state.text
                    && after.reasoning == state.reasoning && after.stop == state.stop
                    && after.reasonings == state.reasonings
            }
        }),
{
    let id = start->ToolCallStart_id@;
    let name = start->ToolCallStart_name@;
    lemma_open_at(state.open, id);
    lemma_completed_call(state.completed, id);
    let after = state.step(start).0;
    if state.step(start).1 is None {
        assert(after.open.drop_last() =~= state.open);
    }
    if completed_call(state.completed, id) is Some {
        let call = completed_call(state.completed, id)->0;
        let k = choose|k: int| 0 <= k < state.completed.len() && state.completed[k] == call;
        assert(state.completed[k].id == id);
    }
    if open_at(state.open, id) is Some {
        assert(state.open[open_at(state.open, id)->0].id == id);
    }
}

/// A call that is sent whole, from its start over fragments to its end, is completed with what
/// its fragments say together.
pub proof fn law_streamed_calls_are_completed(
    state: AccumulatorView,
    start: StreamEvent,
    events: Seq<StreamEvent>,
    end: StreamEvent,
)
    requires
        state.apart(),
        start is ToolCallStart,
        state.step(start).1 is None,
        forall|i: int|
            0 <= i < events.len() ==> !settles_call(
                #[trigger] events[i],
                start->ToolCallStart_id@,
            ),
        end matches StreamEvent::ToolCallEnd { id } && id@ == start->ToolCallStart_id@,
    ensures
        ({
            let id = start->ToolCallStart_id@;
            let sent = fragments(events, id);
            let before = state.step(start).0.folded(events);
            let (after, breach) = before.step(end);
            let completes = |input: JsonView|
                breach is None && after.completed == before.completed.push(
                    InvocationView {
                        id,
                        name: start->ToolCallStart_name@,
                        input,
                        format: start->ToolCallStart_format,
                    },
                );
            let said = exists|i: int| 0 <= i < sent.len() && !text::is_space(#[trigger] sent[i]);
            match start->ToolCallStart_format {
                ToolCallFormat::Text => completes(JsonView::Text(sent)),
                ToolCallFormat::Json => if !said {
                    completes(JsonView::Object(seq![]))
                } else {
                    match json::parsed(sent) {
                        Ok(document) => completes(document),
                        Err(_) => breach is Some && after.completed == before.completed,
                    }
                },
            }
        }),
{
    let id = start->ToolCallStart_id@;
    law_starts_open_calls(state, start);
    law_calls_stay_apart(state, start);
    let opened = state.step(start).0;
    let call = opened.open.last();
    assert(opened.open[opened.open.len() - 1] == call);
    assert(opened.open.contains(call));
    law_arguments_are_the_fragments(opened, call, events);
    lemma_folded_apart(opened, events);
    let sent = fragments(events, id);
    let grown = PartialView { args: call.args + sent, ..call };
    assert(grown.args =~= sent);
    law_ends_complete_calls(opened.folded(events), grown, end);
}

/// A complete input for an open call is its arguments from then on, and the call stays open; a
/// fragment, an input or an end for a call that is not open is refused and changes nothing.
pub proof fn law_inputs_need_an_open_call(state: AccumulatorView, event: StreamEvent, id: Seq<char>)
    requires
        state.apart(),
        match event {
            StreamEvent::ToolCallDelta { id: of, .. } => of@ == id,
            StreamEvent::ToolCallInputDone { id: of, .. } => of@ == id,
            StreamEvent::ToolCallEnd { id: of } => of@ == id,
            _ => false,
        },
    ensures
        ({
            let found = exists|i: int|
                0 <= i < state.open.len() && (#[trigger] state.open[i]).id == id;
            &&& !found ==> state.step(event).1 is Some && state.step(event).0 == state
            &&& found && !(event is ToolCallEnd) ==> state.step(event).1 is None
            &&& forall|call: PartialView|
                #[trigger] state.open.contains(call) && call.id == id
                    && event is ToolCallInputDone ==> is_open(
                    state.step(event).0,
                    PartialView {
                        id,
                        name: call.name,
                        args: event->ToolCallInputDone_input@,
                        format: call.format,
                    },
                )
            &&& event is ToolCallInputDone ==> state.step(event).0.completed == state.completed
                && state.step(event).0.open.len() == state.open.len()
        }),
{
    lemma_open_at(state.open, id);
    law_calls_stay_apart(state, event);
    if open_at(state.open, id) is Some {
        assert(state.open[open_at(state.open, id)->0].id == id);
    }
    assert forall|call: PartialView|
        #[trigger] state.open.contains(call) && call.id == id
            && event is ToolCallInputDone implies is_open(
        state.step(event).0,
        PartialView {
            id,
            name: call.name,
            args: event->ToolCallInputDone_input@,
            format: call.format,
        },
    ) by {
        lemma_is_open(state, call);
        let spot = choose|k: int| 0 <= k < state.open.len() && state.open[k] == call;
        assert(state.open[spot].id == id);
        let at = open_at(state.open, id)->0;
        assert(state.open[at] == call);
        let has = PartialView { args: event->ToolCallInputDone_input@, ..call };
        assert(state.step(event).0.open[at] == has);
        lemma_is_open(state.step(event).0, has);
    }
}

/// The text deltas of a stream, one after the other.
pub open spec fn streamed_text(events: Seq<StreamEvent>) -> Seq<char>
    decreases events.len(),
{
    if events.len() == 0 {
        seq![]
    } else {
        match events.last() {
            StreamEvent::TextDelta { text } => streamed_text(events.drop_last()) + text@,
            _ => streamed_text(events.drop_last()),
        }
    }
}

/// The reasoning deltas of a stream, one after the other.
pub open spec fn streamed_reasoning(events: Seq<StreamEvent>) -> Seq<char>
    decreases events.len(),
{
    if events.len() == 0 {
        seq![]
    } else {
        match events.last() {
            StreamEvent::ReasoningDelta { text } => streamed_reasoning(events.drop_last()) + text@,
            _ => streamed_reasoning(events.drop_last()),
        }
    }
}

/// The opaque reasoning items of a stream, in order.
pub open spec fn streamed_items(events: Seq<StreamEvent>) -> Seq<(Seq<char>, Seq<char>)>
    decreases events.len(),
{
    if events.len() == 0 {
        seq![]
    } else {
        match events.last() {
            StreamEvent::EncryptedReasoning { id, encrypted_content } => streamed_items(
                events.drop_last(),
            ).push((id@, encrypted_content@)),
            _ => streamed_items(events.drop_last()),
        }
    }
}

/// What a stream says is kept whole and in order: its text, its reasoning and its opaque items
/// follow what was there, and the last reason to stop is the one that counts. No event but these
/// touches them.
pub proof fn law_streams_are_kept_in_order(state: AccumulatorView, events: Seq<StreamEvent>)
    ensures
        ({
            let after = state.folded(events);
            &&& after.text == state.text + streamed_text(events)
            &&& after.reasoning == state.reasoning + streamed_reasoning(events)
            &&& after.reasonings == state.reasonings + streamed_items(events)
            &&& events.len() > 0 && events.last() is Done ==> after.stop == Some(
                events.last()->Done_stop,
            )
            &&& (forall|i: int| 0 <= i < events.len() ==> !(#[trigger] events[i] is Done))
                ==> after.stop == state.stop
        }),
    decreases events.len(),
{
    let after = state.folded(events);
    if events.len() == 0 {
        assert(after.text =~= state.text + streamed_text(events));
        assert(after.reasoning =~= state.reasoning + streamed_reasoning(events));
        assert(after.reasonings =~= state.reasonings + streamed_items(events));
    } else {
        let front = events.drop_last();
        law_streams_are_kept_in_order(state, front);
        if forall|i: int| 0 <= i < events.len() ==> !(#[trigger] events[i] is Done) {
            assert forall|i: int| 0 <= i < front.len() implies !(#[trigger] front[i] is Done) by {
                assert(front[i] == events[i]);
            }
            assert(!(events[events.len() - 1] is Done));
        }
        assert(after.text =~= state.text + streamed_text(events));
        assert(after.reasoning =~= state.reasoning + streamed_reasoning(events));
        assert(after.reasonings =~= state.reasonings + streamed_items(events));
    }
}

/// Usage, quota, metadata and items that clients alone are told of leave no trace in the turn.
pub proof fn law_telemetry_leaves_no_trace(state: AccumulatorView, event: StreamEvent)
    requires
        event is Usage || event is Quota || event is ResponseMetadata || event is ResponseItem
            || event is ProviderExtension || event is UnmappedItem
            || event is ReasoningReplayDisabled,
    ensures
        state.step(event).0 == state,
        state.step(event).1 is None,
{
}

/// Text, reasoning and opaque items are never a breach and leave the calls alone.
pub proof fn law_output_leaves_calls_alone(state: AccumulatorView, event: StreamEvent)
    requires
        event is TextDelta || event is ReasoningDelta || event is EncryptedReasoning
            || event is Done,
    ensures
        state.step(event).1 is None,
        state.step(event).0.open == state.open,
        state.step(event).0.completed == state.completed,
        state.step(event).0.order == state.order,
{
}

proof fn lemma_finished_places(order: Seq<Seq<char>>, completed: Seq<InvocationView>, i: int)
    requires
        0 <= i < finished(order, completed).len(),
    ensures
        completed.contains(finished(order, completed)[i]),
        order.contains(finished(order, completed)[i].id),
    decreases order.len(),
{
    let front = order.drop_last();
    lemma_completed_call(completed, order.last());
    let given = finished(order, completed);
    if i < finished(front, completed).len() {
        lemma_finished_places(front, completed, i);
        assert(given[i] == finished(front, completed)[i]);
        let k = choose|k: int| 0 <= k < front.len() && front[k] == given[i].id;
        assert(order[k] == given[i].id);
    } else {
        assert(order[order.len() - 1] == given[i].id);
    }
}

proof fn lemma_finished_holds(
    order: Seq<Seq<char>>,
    completed: Seq<InvocationView>,
    call: InvocationView,
)
    requires
        completed.contains(call),
        order.contains(call.id),
        forall|i: int, j: int|
            0 <= i < j < completed.len() ==> (#[trigger] completed[i]).id != (
            #[trigger] completed[j]).id,
    ensures
        finished(order, completed).contains(call),
    decreases order.len(),
{
    let front = order.drop_last();
    let given = finished(order, completed);
    let before = finished(front, completed);
    lemma_completed_call(completed, order.last());
    if order.last() == call.id {
        let k = choose|k: int| 0 <= k < completed.len() && completed[k] == call;
        assert(completed[k].id == order.last());
        let found = completed_call(completed, order.last())->0;
        let l = choose|l: int| 0 <= l < completed.len() && completed[l] == found;
        if k < l {
            assert(completed[k].id != completed[l].id);
        } else if l < k {
            assert(completed[l].id != completed[k].id);
        }
        assert(given[given.len() - 1] == call);
    } else {
        let k = choose|k: int| 0 <= k < order.len() && order[k] == call.id;
        assert(front[k] == call.id);
        lemma_finished_holds(front, completed, call);
        let m = choose|m: int| 0 <= m < before.len() && before[m] == call;
        assert(given[m] == call);
    }
}

/// The calls that a stream asks for are those that were completed, each under an identifier that
/// was started, and none besides.
pub proof fn law_completed_calls_are_all_given(state: AccumulatorView, call: InvocationView)
    requires
        state.apart(),
    ensures
        state.calls().contains(call) <==> state.completed.contains(call) && state.order.contains(
            call.id,
        ),
{
    if state.calls().contains(call) {
        let i = choose|i: int| 0 <= i < state.calls().len() && state.calls()[i] == call;
        lemma_finished_places(state.order, state.completed, i);
    }
    if state.completed.contains(call) && state.order.contains(call.id) {
        lemma_finished_holds(state.order, state.completed, call);
    }
}

proof fn lemma_finished_order(
    order: Seq<Seq<char>>,
    completed: Seq<InvocationView>,
    i: int,
    j: int,
) -> (places: (int, int))
    requires
        0 <= i < j < finished(order, completed).len(),
    ensures
        0 <= places.0 < places.1 < order.len(),
        order[places.0] == finished(order, completed)[i].id,
        order[places.1] == finished(order, completed)[j].id,
    decreases order.len(),
{
    let front = order.drop_last();
    let before = finished(front, completed);
    let given = finished(order, completed);
    lemma_completed_call(completed, order.last());
    if j < before.len() {
        let places = lemma_finished_order(front, completed, i, j);
        assert(order[places.0] == front[places.0] && order[places.1] == front[places.1]);
        places
    } else {
        lemma_finished_places(front, completed, i);
        let k = choose|k: int| 0 <= k < front.len() && front[k] == before[i].id;
        assert(given[i] == before[i]);
        assert(order[k] == front[k]);
        (k, order.len() - 1)
    }
}

/// Calls are given in the order in which they were started, whatever the order of their ends.
pub proof fn law_calls_follow_their_starts(state: AccumulatorView, i: int, j: int) -> (places: (
    int,
    int,
))
    requires
        0 <= i < j < state.calls().len(),
    ensures
        0 <= places.0 < places.1 < state.order.len(),
        state.order[places.0] == state.calls()[i].id,
        state.order[places.1] == state.calls()[j].id,
{
    lemma_finished_order(state.order, state.completed, i, j)
}

/// The message of a turn: the assistant speaks, what was said and thought is in it once where
/// there was any, every opaque item stands before the calls, and the last blocks are the calls in
/// order, each as it was completed.
pub proof fn law_messages_record_the_stream(state: AccumulatorView)
    ensures
        ({
            let content = state.message().content;
            let calls = state.calls();
            let items = state.reasonings;
            let head = content.len() - calls.len() - items.len();
            &&& state.message().role == Role::Assistant
            &&& message::text_of(content) == state.text
            &&& head == (if state.reasoning.len() > 0 {
                1int
            } else {
                0
            }) + (if state.text.len() > 0 {
                1int
            } else {
                0
            })
            &&& state.reasoning.len() > 0 ==> content[0] == (BlockView::Thinking {
                text: state.reasoning,
            })
            &&& state.text.len() > 0 ==> content[head - 1] == (BlockView::Text {
                text: state.text,
            })
            &&& forall|i: int|
                0 <= i < items.len() ==> #[trigger] content[head + i] == (
                BlockView::EncryptedReasoning {
                    id: items[i].0,
                    encrypted_content: items[i].1,
                })
            &&& forall|i: int|
                0 <= i < calls.len() ==> #[trigger] content[head + items.len() + i] == (
                BlockView::ToolUse {
                    id: calls[i].id,
                    name: calls[i].name,
                    input: calls[i].input,
                    format: calls[i].format,
                })
        }),
{
    let thought: Seq<BlockView> = if state.reasoning.len() > 0 {
        seq![BlockView::Thinking { text: state.reasoning }]
    } else {
        seq![]
    };
    let said: Seq<BlockView> = if state.text.len() > 0 {
        seq![BlockView::Text { text: state.text }]
    } else {
        seq![]
    };
    let items = state.reasonings.map_values(
        |item: (Seq<char>, Seq<char>)|
            BlockView::EncryptedReasoning { id: item.0, encrypted_content: item.1 },
    );
    let asked = state.calls().map_values(|call: InvocationView| call_block(call));
    let content = state.message().content;
    assert(content =~= thought + said + (items + asked));
    message::lemma_text_of_add(thought + said, items + asked);
    message::lemma_text_of_add(thought, said);
    assert forall|i: int| 0 <= i < (items + asked).len() implies (#[trigger] (items
        + asked)[i]).visible_text() == Seq::<char>::empty() by {}
    message::lemma_text_of_silent(items + asked);
    if state.reasoning.len() > 0 {
        message::lemma_text_of_silent(thought);
    }
    if state.text.len() > 0 {
        assert(said.drop_last() =~= seq![]);
        assert(message::text_of(said.drop_last()) =~= seq![]);
        assert(said.last().visible_text() == state.text);
        assert(message::text_of(said) =~= state.text);
    } else {
        assert(state.text =~= seq![]);
    }
    assert(message::text_of(content) =~= state.text);
}

/// What follows a stream, by the reason to stop: a natural end ends the turn, a pause samples
/// again, a call cut off by the output limit is recovered from, an answer cut off ends the run,
/// and a stream that was blocked, refused or broken off fails.
pub proof fn law_stops_decide(state: AccumulatorView)
    ensures
        state.decision() is EndTurn <==> state.stop == Some(StopReason::EndTurn) || state.stop
            == Some(StopReason::StopSequence),
        state.decision() is Continue <==> state.stop == Some(StopReason::Continue),
        state.decision() is Recover <==> state.stop == Some(StopReason::MaxTokens) && (
        state.open.len() > 0 || state.calls().len() > 0),
        state.decision() matches TransitionView::Recover(pending) ==> pending.kind
            == ContextErrorKind::MaxTokensInput,
        state.decision() is Exhausted <==> state.stop == Some(StopReason::MaxTokens)
            && state.open.len() == 0 && state.calls().len() == 0,
        state.decision() matches TransitionView::Exhausted(reason) ==> reason == (
        ExhaustReason::MaxOutputTokens {
            visible_output: state.text.len() > 0 || state.reasoning.len() > 0,
        }),
        state.decision() is Fail <==> state.stop is None || state.stop == Some(
            StopReason::ContentFilter,
        ) || state.stop == Some(StopReason::IncompleteUnknown) || state.stop == Some(
            StopReason::Refusal,
        ) || state.stop == Some(StopReason::ToolUse) && (state.open.len() > 0
            || state.calls().len() == 0),
        !(state.decision() is Compact) && !(state.decision() is Interrupted),
{
}

proof fn lemma_total_push(counts: Seq<nat>, count: nat)
    ensures
        tokenizer::total(counts.push(count)) == tokenizer::total(counts) + count,
{
    assert(counts.push(count).drop_last() =~= counts);
}

/// The estimate of what was generated counts all of it: the text and the reasoning, and then each
/// opaque item, each completed call and each call that was cut off adds its own tokens.
pub proof fn law_all_output_is_counted<C: TokenCounter>(
    state: AccumulatorView,
    counter: C,
    item: (Seq<char>, Seq<char>),
    call: InvocationView,
    cut: PartialView,
)
    ensures
        (AccumulatorView {
            text: state.text,
            reasoning: state.reasoning,
            ..AccumulatorView::empty()
        }).tokens(counter) == counter.tokens(state.text) + counter.tokens(state.reasoning),
        (AccumulatorView { reasonings: state.reasonings.push(item), ..state }).tokens(counter)
            == state.tokens(counter) + counter.tokens(item.0) + counter.tokens(item.1),
        (AccumulatorView { completed: state.completed.push(call), ..state }).tokens(counter)
            == state.tokens(counter) + counter.tokens(call.name) + counter.tokens(
            json::rendered(call.input),
        ),
        (AccumulatorView { open: state.open.push(cut), ..state }).tokens(counter) == state.tokens(
            counter,
        ) + counter.tokens(cut.name) + counter.tokens(cut.args),
{
    let of_item = |i: (Seq<char>, Seq<char>)| counter.tokens(i.0) + counter.tokens(i.1);
    let of_call = |c: InvocationView|
        counter.tokens(c.name) + counter.tokens(json::rendered(c.input));
    let of_cut = |c: PartialView| counter.tokens(c.name) + counter.tokens(c.args);
    assert(state.reasonings.push(item).map_values(of_item) =~= state.reasonings.map_values(
        of_item,
    ).push(of_item(item)));
    assert(state.completed.push(call).map_values(of_call) =~= state.completed.map_values(
        of_call,
    ).push(of_call(call)));
    assert(state.open.push(cut).map_values(of_cut) =~= state.open.map_values(of_cut).push(
        of_cut(cut),
    ));
    lemma_total_push(state.reasonings.map_values(of_item), of_item(item));
    lemma_total_push(state.completed.map_values(of_call), of_call(call));
    lemma_total_push(state.open.map_values(of_cut), of_cut(cut));
}

/// A stream that fails says why: it broke off, left a call open, asked for tools and named none, or
/// was blocked, cut short or refused.
pub proof fn law_failed_streams_tell_why(state: AccumulatorView)
    requires
        state.decision() is Fail,
    ensures
        ({
            let reason = |words: Seq<char>|
                state.decision() == TransitionView::Fail(error::contract_fault(words));
            &&& state.stop is None ==> reason("provider stream ended without terminal event"@)
            &&& state.stop == Some(StopReason::ToolUse) && state.open.len() > 0 ==> reason(
                "provider ended with an open tool call"@,
            )
            &&& state.stop == Some(StopReason::ToolUse) && state.open.len() == 0 ==> reason(
                "provider signaled tool_use without tool calls"@,
            )
            &&& state.stop == Some(StopReason::ContentFilter) ==> reason(
                "model output blocked by content filter"@,
            )
            &&& state.stop == Some(StopReason::IncompleteUnknown) ==> reason(
                "model response incomplete for an unknown reason"@,
            )
            &&& state.stop == Some(StopReason::Refusal) ==> reason("model refusal"@)
        }),
{
}

/// A breach names the call that it is about.
pub proof fn law_breaches_name_their_call(state: AccumulatorView, event: StreamEvent, id: Seq<char>)
    requires
        state.step(event).1 is Some,
        match event {
            StreamEvent::ToolCallStart { id: of, .. } => of@ == id && exists|i: int|
                0 <= i < id.len() && !text::is_space(#[trigger] id[i]),
            StreamEvent::ToolCallDelta { id: of, .. } => of@ == id,
            StreamEvent::ToolCallInputDone { id: of, .. } => of@ == id,
            StreamEvent::ToolCallEnd { id: of } => of@ == id,
            _ => false,
        },
    ensures
        exists|from: int|
            0 <= from && from + id.len() <= state.step(event).1->0.len() && #[trigger] state.step(
                event,
            ).1->0.subrange(from, from + id.len()) == id,
{
    let said = state.step(event).1->0;
    match event {
        StreamEvent::ToolCallStart { name, .. } => {
            if text::blank(name@) {
                let from = "tool call "@.len() as int;
                assert(said.subrange(from, from + id.len()) =~= id);
            } else {
                let from = "duplicate tool call id: "@.len() as int;
                assert(said.subrange(from, from + id.len()) =~= id);
            }
        },
        StreamEvent::ToolCallDelta { .. } => {
            let from = "tool call delta without start: "@.len() as int;
            assert(said.subrange(from, from + id.len()) =~= id);
        },
        StreamEvent::ToolCallInputDone { .. } => {
            let from = "tool call terminal input without start: "@.len() as int;
            assert(said.subrange(from, from + id.len()) =~= id);
        },
        _ => {
            let from = said.len() - id.len();
            if open_at(state.open, id) is None {
                assert(said.subrange(from, from + id.len()) =~= id);
            } else {
                let front = "invalid JSON arguments for tool call "@.len() as int;
                assert(said.subrange(front, front + id.len()) =~= id);
            }
        },
    }
}

} // verus!
