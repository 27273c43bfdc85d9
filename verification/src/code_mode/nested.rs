//! Tool calls from inside a cell. They go through the pipeline of the step that opened the cell,
//! so what refuses a direct call refuses a nested one.
use crate::code_mode::protocol::CellId;
use crate::event::{ToolCallKind, ToolCallView};
use crate::guardrail;
use crate::guardrail::{LoopDecision, LoopGuard, LoopRegister, LoopRun, LOOP_GUARD_THRESHOLDS};
use crate::json::{Json, JsonView};
use crate::message;
use crate::message::{ToolCallFormat, ToolErrorKind};
use crate::text;
use crate::tool_spec;
use crate::tool_spec::{SpecView, ToolSpec};
use crate::tools;
use crate::tools::{
    InvocationView, ModelToolResult, ResultView, StepToolPlan, ToolDispatchEvent,
    ToolDispatchSnapshot, ToolInvocation, ToolResultStatus,
};
use vstd::prelude::*;
use vstd::string::*;

verus! {

/// How many events are kept while nobody listens.
pub const MAX_PENDING_EVENTS: usize = 1024;

/// The input of a nested call: a function takes JSON, a freeform tool takes text.
#[derive(Debug, Clone, PartialEq, Eq)]
pub enum NestedToolInput {
    Json(Json),
    Text(String),
}

/// A call that a cell makes.
#[derive(Debug, Clone, PartialEq, Eq)]
pub struct NestedToolCall {
    pub cell_id: CellId,
    /// By which the cell finds its answer.
    pub call_id: String,
    pub tool: String,
    pub input: NestedToolInput,
}

/// What a cell reads of a nested call.
#[derive(Debug, Clone, PartialEq, Eq)]
pub struct NestedToolOutcome {
    pub call_id: String,
    pub tool: String,
    pub content: String,
    pub structured: Option<Json>,
    pub is_error: bool,
    /// The category of a failure, and only of one.
    pub error_kind: Option<&'static str>,
}

/// What an outcome is.
pub struct NestedOutcomeView {
    pub call_id: Seq<char>,
    pub tool: Seq<char>,
    pub content: Seq<char>,
    pub structured: Option<JsonView>,
    pub is_error: bool,
    pub error_kind: Option<&'static str>,
}

impl View for NestedToolOutcome {
    type V = NestedOutcomeView;

    open spec fn view(&self) -> NestedOutcomeView {
        NestedOutcomeView {
            call_id: self.call_id@,
            tool: self.tool@,
            content: self.content@,
            structured: tools::opt_json(self.structured),
            is_error: self.is_error,
            error_kind: self.error_kind,
        }
    }
}

/// The outcome of a call that failed.
pub open spec fn failed(
    call: NestedToolCall,
    kind: &'static str,
    content: Seq<char>,
) -> NestedOutcomeView {
    NestedOutcomeView {
        call_id: call.call_id@,
        tool: call.tool@,
        content,
        structured: None,
        is_error: true,
        error_kind: Some(kind),
    }
}

impl NestedToolOutcome {
    pub fn error(call: &NestedToolCall, kind: &'static str, content: &str) -> (outcome:
        NestedToolOutcome)
        ensures
            outcome@ == failed(*call, kind, content@),
    {
        NestedToolOutcome {
            call_id: call.call_id.clone(),
            tool: call.tool.clone(),
            content: content.to_owned(),
            structured: None,
            is_error: true,
            error_kind: Some(kind),
        }
    }
}

// ---------------------------------------------------------------- repetition

/// What the guard decides of a nested call.
#[derive(Debug, PartialEq, Eq)]
pub enum NestedLoopVerdict {
    Proceed,
    /// Refuse the call, in this register.
    Reminder(LoopRegister, u32),
    /// Every call is refused with this text.
    Locked(String),
}

/// What a verdict is.
pub enum VerdictView {
    Proceed,
    Reminder(LoopRegister, u32),
    Locked(Seq<char>),
}

impl View for NestedLoopVerdict {
    type V = VerdictView;

    open spec fn view(&self) -> VerdictView {
        match self {
            NestedLoopVerdict::Proceed => VerdictView::Proceed,
            NestedLoopVerdict::Reminder(register, count) => VerdictView::Reminder(
                *register,
                *count,
            ),
            NestedLoopVerdict::Locked(message) => VerdictView::Locked(message@),
        }
    }
}

/// The guard of the nested calls of one turn, over all its cells. Past the last step of the
/// ladder it locks: a cell can catch an error and try again, and that is the loop to be broken.
/// Its ladder is that of direct calls, always.
#[derive(Debug, PartialEq, Eq)]
pub struct NestedLoopGuard {
    guard: LoopGuard,
    locked: Option<String>,
}

/// What a nested guard is.
pub struct NestedGuardView {
    pub thresholds: Seq<u32>,
    pub run: LoopRun,
    pub locked: Option<Seq<char>>,
}

impl View for NestedLoopGuard {
    type V = NestedGuardView;

    closed spec fn view(&self) -> NestedGuardView {
        NestedGuardView {
            thresholds: self.guard.thresholds@,
            run: self.guard.run(),
            locked: text::opt_text(self.locked),
        }
    }
}

impl NestedGuardView {
    /// A guard that has seen nothing.
    pub open spec fn fresh() -> NestedGuardView {
        NestedGuardView {
            thresholds: LOOP_GUARD_THRESHOLDS@,
            run: LoopRun { signature: None, count: 0 },
            locked: None,
        }
    }

    /// The guard with its run broken and its lock lifted.
    pub open spec fn cleared(self) -> NestedGuardView {
        NestedGuardView { run: LoopRun { signature: None, count: 0 }, locked: None, ..self }
    }

    /// The guard after calls that come one after the other.
    pub open spec fn afterwards(
        self,
        calls: Seq<InvocationView>,
        exempt: Seq<bool>,
    ) -> NestedGuardView
        decreases calls.len(),
    {
        if calls.len() == 0 {
            self
        } else {
            let before = self.afterwards(calls.drop_last(), exempt);
            before.step(calls.last(), exempt[calls.len() - 1]).1
        }
    }

    /// What the guard decides of calls that come one after the other.
    pub open spec fn verdicts(
        self,
        calls: Seq<InvocationView>,
        exempt: Seq<bool>,
    ) -> Seq<VerdictView> {
        Seq::new(
            calls.len(),
            |i: int| self.afterwards(calls.take(i), exempt).step(calls[i], exempt[i]).0,
        )
    }

    /// What the guard decides of a call, and the guard after it.
    pub open spec fn step(self, call: InvocationView, exempt: bool) -> (
        VerdictView,
        NestedGuardView,
    ) {
        let signature = guardrail::batch_signature(seq![call], seq![exempt]);
        if self.locked is Some {
            (VerdictView::Locked(self.locked->0), self)
        } else if signature is None {
            (VerdictView::Proceed, self)
        } else {
            let run = self.run.after(signature->0);
            let after = NestedGuardView { run, ..self };
            match guardrail::tier(self.thresholds, run.count) {
                LoopDecision::Proceed => (VerdictView::Proceed, after),
                LoopDecision::Signal(register) => (
                    VerdictView::Reminder(register, run.count),
                    after,
                ),
                LoopDecision::Abort => {
                    let message = guardrail::loop_message(
                        LoopRegister::Terminal,
                        call.name,
                        run.count,
                        call.input,
                    );
                    (
                        VerdictView::Locked(message),
                        NestedGuardView { locked: Some(message), ..after },
                    )
                },
            }
        }
    }
}

impl Default for NestedLoopGuard {
    fn default() -> (guard: Self)
        ensures
            guard@ == NestedGuardView::fresh(),
    {
        NestedLoopGuard { guard: LoopGuard::new(LOOP_GUARD_THRESHOLDS), locked: None }
    }
}

impl NestedLoopGuard {
    #[verifier::type_invariant]
    closed spec fn wf(self) -> bool {
        self.guard.thresholds == LOOP_GUARD_THRESHOLDS
    }

    /// Takes in a call and decides. `exempt` tells whether the dispatcher exempts it.
    pub fn observe(&mut self, invocation: &ToolInvocation, exempt: bool) -> (verdict:
        NestedLoopVerdict)
        ensures
            (verdict@, final(self)@) == old(self)@.step(invocation@, exempt),
    {
        proof {
            use_type_invariant(&*self);
        }
        match &self.locked {
            Some(message) => {
                return NestedLoopVerdict::Locked(message.clone());
            },
            None => {},
        }
        let mut batch: Vec<ToolInvocation> = Vec::new();
        batch.push(invocation.clone());
        let mut exempts: Vec<bool> = Vec::new();
        exempts.push(exempt);
        proof {
            assert(tools::invocation_views(batch@) =~= seq![invocation@]);
            assert(exempts@ =~= seq![exempt]);
        }
        let signature = match guardrail::guarded_batch_signature(
            batch.as_slice(),
            exempts.as_slice(),
        ) {
            Some(signature) => signature,
            None => {
                return NestedLoopVerdict::Proceed;
            },
        };
        let mut guard = LoopGuard::new(LOOP_GUARD_THRESHOLDS);
        std::mem::swap(&mut guard, &mut self.guard);
        let decision = guard.observe(signature);
        let count: u32 = guard.count();
        self.guard = guard;
        match decision {
            LoopDecision::Proceed => NestedLoopVerdict::Proceed,
            LoopDecision::Signal(register) => NestedLoopVerdict::Reminder(register, count),
            LoopDecision::Abort => {
                let message = guardrail::loop_guard_message(
                    LoopRegister::Terminal,
                    invocation.name.as_str(),
                    count,
                    &invocation.input,
                );
                self.locked = Some(message.clone());
                NestedLoopVerdict::Locked(message)
            },
        }
    }

    /// Breaks the run and lifts the lock, as a new turn and an input of the user do. The guard is
    /// then as good as new.
    pub fn reset(&mut self)
        ensures
            final(self)@ == old(self)@.cleared(),
            final(self)@ == NestedGuardView::fresh(),
    {
        proof {
            use_type_invariant(&*self);
        }
        self.guard = LoopGuard::new(LOOP_GUARD_THRESHOLDS);
        self.locked = None;
    }
}

/// A call does not change the ladder.
pub proof fn law_calls_keep_the_ladder(guard: NestedGuardView, call: InvocationView, exempt: bool)
    ensures
        guard.step(call, exempt).1.thresholds == guard.thresholds,
{
}

proof fn lemma_calls_keep_the_ladder(
    guard: NestedGuardView,
    calls: Seq<InvocationView>,
    exempt: Seq<bool>,
)
    ensures
        guard.afterwards(calls, exempt).thresholds == guard.thresholds,
    decreases calls.len(),
{
    if calls.len() > 0 {
        lemma_calls_keep_the_ladder(guard, calls.drop_last(), exempt);
    }
}

/// Whatever calls a guard has seen, and even where they locked it, once it is reset it is a fresh
/// guard: it decides of any calls as a fresh one does, and the next call proceeds, the one that
/// locked it too.
pub proof fn law_reset_guards_are_fresh(
    seen: Seq<InvocationView>,
    seen_exempt: Seq<bool>,
    calls: Seq<InvocationView>,
    exempt: Seq<bool>,
)
    ensures
        ({
            let reset = NestedGuardView::fresh().afterwards(seen, seen_exempt).cleared();
            &&& reset == NestedGuardView::fresh()
            &&& reset.verdicts(calls, exempt) == NestedGuardView::fresh().verdicts(calls, exempt)
            &&& calls.len() > 0 ==> reset.verdicts(calls, exempt)[0] is Proceed
        }),
{
    lemma_calls_keep_the_ladder(NestedGuardView::fresh(), seen, seen_exempt);
    if calls.len() > 0 {
        let start = NestedGuardView::fresh();
        assert(calls.take(0) =~= seq![]);
        assert(start.afterwards(calls.take(0), exempt) == start);
        assert(start.thresholds[0] == 3);
    }
}

/// A locked guard refuses every call with one text, whatever the tool, and stays locked.
pub proof fn law_locked_guards_refuse_everything(
    guard: NestedGuardView,
    call: InvocationView,
    exempt: bool,
)
    requires
        guard.locked is Some,
    ensures
        guard.step(call, exempt) == (VerdictView::Locked(guard.locked->0), guard),
{
}

/// An exempt call neither counts nor breaks a run.
pub proof fn law_exempt_nested_calls_leave_no_trace(guard: NestedGuardView, call: InvocationView)
    ensures
        guard.step(call, true).1 == guard,
        guard.locked is None ==> guard.step(call, true).0 is Proceed,
{
    let calls = seq![call];
    assert(calls.drop_last() =~= seq![]);
    assert(guardrail::guarded_keys(calls.drop_last(), seq![true]).len() == 0);
    assert(guardrail::guarded_keys(calls, seq![true]).len() == 0);
}

// ---------------------------------------------------------------- events

/// The events of nested calls that nobody has listened to yet.
#[derive(Debug, PartialEq, Eq)]
pub struct NestedEventState {
    pub pending: Vec<ToolDispatchEvent>,
    /// How many events the ceiling refused.
    pub dropped: usize,
}

impl NestedEventState {
    pub fn new() -> (state: NestedEventState)
        ensures
            state.pending@.len() == 0,
            state.dropped == 0,
    {
        NestedEventState { pending: Vec::new(), dropped: 0 }
    }

    /// Keeps an event that nobody took; beyond the ceiling it is only counted.
    pub fn keep(&mut self, event: ToolDispatchEvent)
        ensures
            if old(self).pending@.len() >= MAX_PENDING_EVENTS {
                &&& final(self).pending == old(self).pending
                &&& final(self).dropped == if old(self).dropped < usize::MAX {
                    old(self).dropped + 1
                } else {
                    usize::MAX as int
                }
            } else {
                &&& final(self).pending@ == old(self).pending@.push(event)
                &&& final(self).dropped == old(self).dropped
            },
    {
        if self.pending.len() >= MAX_PENDING_EVENTS {
            self.dropped = self.dropped.saturating_add(1);
        } else {
            self.pending.push(event);
        }
    }

    /// Hands out what was kept to a new listener, and how much was lost.
    pub fn take(&mut self) -> (taken: (Vec<ToolDispatchEvent>, usize))
        ensures
            taken.0@ == old(self).pending@,
            taken.1 == old(self).dropped,
            final(self).pending@.len() == 0,
            final(self).dropped == 0,
    {
        let mut events: Vec<ToolDispatchEvent> = Vec::new();
        events.append(&mut self.pending);
        assert(events@ =~= old(self).pending@);
        let dropped: usize = self.dropped;
        self.dropped = 0;
        (events, dropped)
    }
}

// ---------------------------------------------------------------- dispatch

/// The tools that are not hidden, in their order.
pub open spec fn shown(specs: Seq<SpecView>, hidden: Seq<Seq<char>>) -> Seq<SpecView> {
    specs.filter(|spec: SpecView| !hidden.contains(spec.name))
}

/// The tools of a registry read that a cell may call: all but the hidden ones.
pub fn callable_specs(snapshot: &ToolDispatchSnapshot, hidden: &Vec<String>) -> (specs: Vec<
    ToolSpec,
>)
    ensures
        tool_spec::spec_views(specs@) == shown(
            tool_spec::spec_views(snapshot.specs@),
            text::texts(hidden@),
        ),
{
    let ghost all = tool_spec::spec_views(snapshot.specs@);
    let ghost keep = |spec: SpecView| !text::texts(hidden@).contains(spec.name);
    let mut specs: Vec<ToolSpec> = Vec::new();
    let mut i: usize = 0;
    proof {
        reveal(Seq::filter);
    }
    assert(tool_spec::spec_views(specs@) =~= all.take(0).filter(keep));
    while i < snapshot.specs.len()
        invariant
            i <= snapshot.specs.len(),
            all == tool_spec::spec_views(snapshot.specs@),
            keep == (|spec: SpecView| !text::texts(hidden@).contains(spec.name)),
            tool_spec::spec_views(specs@) == all.take(i as int).filter(keep),
        decreases snapshot.specs.len() - i,
    {
        let ghost before = tool_spec::spec_views(specs@);
        proof {
            reveal(Seq::filter);
            assert(all.take(i + 1).drop_last() =~= all.take(i as int));
            assert(all.take(i + 1).last() == snapshot.specs@[i as int]@);
        }
        if !message::holds_text(hidden, snapshot.specs[i].name.as_str()) {
            let spec = snapshot.specs[i].clone();
            let ghost view = spec@;
            specs.push(spec);
            assert(tool_spec::spec_views(specs@) =~= before.push(view));
        }
        i += 1;
    }
    assert(all.take(i as int) =~= all);
    specs
}

/// A hidden tool is in no catalog of a cell.
pub proof fn law_hidden_tools_are_not_callable(
    specs: Seq<SpecView>,
    hidden: Seq<Seq<char>>,
    at: int,
)
    requires
        0 <= at < shown(specs, hidden).len(),
    ensures
        !hidden.contains(shown(specs, hidden)[at].name),
        specs.contains(shown(specs, hidden)[at]),
{
    let keep = |spec: SpecView| !hidden.contains(spec.name);
    specs.lemma_filter_pred(keep, at);
    assert(specs.filter(keep).contains(specs.filter(keep)[at]));
    specs.lemma_filter_contains_rev(keep, specs.filter(keep)[at]);
}

/// Dispatches the calls of cells over the tools of a step. Calls run one at a time, so they end in
/// the order in which the cell made them.
#[derive(Debug, PartialEq, Eq)]
pub struct PlanDispatcher {
    pub plan: StepToolPlan,
    /// The number of the next call.
    pub ordinal: u64,
}

/// The identifier of a call in the pipeline.
pub open spec fn invocation_name(cell: Seq<char>, call: Seq<char>, ordinal: nat) -> Seq<char> {
    cell + "::"@ + call + "::"@ + text::decimal(ordinal)
}

/// The input of a call in the form of the pipeline.
pub open spec fn input_view(input: NestedToolInput) -> (JsonView, ToolCallFormat) {
    match input {
        NestedToolInput::Json(value) => (value@, ToolCallFormat::Json),
        NestedToolInput::Text(value) => (JsonView::Text(value@), ToolCallFormat::Text),
    }
}

impl PlanDispatcher {
    /// The dispatcher over a registry read without the hidden tools; `wire` is the JSON array of
    /// the tools that are left.
    pub fn new(snapshot: &ToolDispatchSnapshot, hidden: &Vec<String>, wire: String) -> (dispatcher:
        PlanDispatcher)
        ensures
            dispatcher.plan.wf(),
            dispatcher.plan.generation == snapshot.generation,
            dispatcher.plan.wire == wire,
            !dispatcher.plan.parallel_allowed,
            tool_spec::spec_views(dispatcher.plan.specs@) == shown(
                tool_spec::spec_views(snapshot.specs@),
                text::texts(hidden@),
            ),
            dispatcher.ordinal == 0,
    {
        let specs = callable_specs(snapshot, hidden);
        let plan = StepToolPlan::capture(snapshot.with_specs(specs, wire), false);
        PlanDispatcher { plan, ordinal: 0 }
    }

    /// The tools that a cell may call.
    pub fn catalog(&self) -> (specs: Vec<ToolSpec>)
        ensures
            tool_spec::spec_views(specs@) == tool_spec::spec_views(self.plan.specs@),
    {
        tool_spec::clone_specs(&self.plan.specs)
    }

    fn is_callable(&self, name: &str) -> (callable: bool)
        ensures
            callable == tools::visible(self.plan.specs@, name@),
    {
        let mut i: usize = 0;
        while i < self.plan.specs.len()
            invariant
                i <= self.plan.specs.len(),
                forall|k: int|
                    0 <= k < i ==> (#[trigger] self.plan.specs@[k]).name@ != name@,
            decreases self.plan.specs.len() - i,
        {
            if text::same_text(self.plan.specs[i].name.as_str(), name) {
                return true;
            }
            i += 1;
        }
        false
    }

    /// Turns a call of a cell into one of the pipeline. A tool that the cell may not call never
    /// gets there.
    pub fn prepare(&mut self, call: &NestedToolCall) -> (prepared: Result<
        ToolInvocation,
        NestedToolOutcome,
    >)
        ensures
            final(self).plan == old(self).plan,
            if tools::visible(old(self).plan.specs@, call.tool@) {
                &&& prepared matches Ok(invocation) && invocation@ == (InvocationView {
                    id: invocation_name(
                        call.cell_id@,
                        call.call_id@,
                        old(self).ordinal as nat,
                    ),
                    name: call.tool@,
                    input: input_view(call.input).0,
                    format: input_view(call.input).1,
                })
                &&& final(self).ordinal == if old(self).ordinal < u64::MAX {
                    old(self).ordinal + 1
                } else {
                    0
                }
            } else {
                &&& prepared matches Err(outcome) && outcome@ == failed(
                    *call,
                    ToolErrorKind::UnknownTool.label_text(),
                    "tool `"@ + call.tool@ + "` is not available in this cell"@,
                )
                &&& final(self).ordinal == old(self).ordinal
            },
    {
        if !self.is_callable(call.tool.as_str()) {
            let content = text::joined(
                "tool `",
                call.tool.as_str(),
                "` is not available in this cell",
                "",
            );
            return Err(
                NestedToolOutcome::error(
                    call,
                    ToolErrorKind::UnknownTool.label(),
                    content.as_str(),
                ),
            );
        }
        let (input, format) = match &call.input {
            NestedToolInput::Json(value) => (value.clone(), ToolCallFormat::Json),
            NestedToolInput::Text(value) => (Json::text(value.as_str()), ToolCallFormat::Text),
        };
        let number = text::decimal_of(self.ordinal as u128);
        let mut id = text::joined(
            call.cell_id.as_str(),
            "::",
            call.call_id.as_str(),
            "::",
        );
        id.append(number.as_str());
        self.ordinal = self.ordinal.wrapping_add(1);
        Ok(ToolInvocation { id, name: call.tool.clone(), input, format })
    }
}

/// The refusal that a verdict of the guard leads to; nothing where the call proceeds.
pub open spec fn refusal_of(
    call: NestedToolCall,
    invocation: InvocationView,
    verdict: VerdictView,
) -> Option<NestedOutcomeView> {
    match verdict {
        VerdictView::Proceed => None,
        VerdictView::Reminder(register, count) => Some(
            failed(
                call,
                ToolErrorKind::Semantic.label_text(),
                guardrail::loop_message(register, invocation.name, count, invocation.input),
            ),
        ),
        VerdictView::Locked(message) => Some(
            failed(call, ToolErrorKind::Semantic.label_text(), message),
        ),
    }
}

/// Holds a prepared call against the guard of the turn, before it has any effect.
pub fn screen(
    call: &NestedToolCall,
    invocation: &ToolInvocation,
    exempt: bool,
    guard: &mut NestedLoopGuard,
) -> (refusal: Option<NestedToolOutcome>)
    ensures
        final(guard)@ == old(guard)@.step(invocation@, exempt).1,
        match refusal_of(*call, invocation@, old(guard)@.step(invocation@, exempt).0) {
            Some(outcome) => refusal matches Some(told) && told@ == outcome,
            None => refusal is None,
        },
{
    match guard.observe(invocation, exempt) {
        NestedLoopVerdict::Proceed => None,
        NestedLoopVerdict::Reminder(register, count) => {
            let content = guardrail::loop_guard_message(
                register,
                invocation.name.as_str(),
                count,
                &invocation.input,
            );
            Some(
                NestedToolOutcome::error(
                    call,
                    ToolErrorKind::Semantic.label(),
                    content.as_str(),
                ),
            )
        },
        NestedLoopVerdict::Locked(message) => Some(
            NestedToolOutcome::error(call, ToolErrorKind::Semantic.label(), message.as_str()),
        ),
    }
}

/// What clients are told when a nested call starts.
pub fn started(invocation: &ToolInvocation, kind: ToolCallKind) -> (event: ToolDispatchEvent)
    ensures
        event matches ToolDispatchEvent::NestedToolCall(view) && view.id@ == invocation.id@
            && view.name@ == invocation.name@ && view.input@ == invocation.input@ && view.kind
            == kind,
{
    ToolDispatchEvent::NestedToolCall(
        ToolCallView {
            id: invocation.id.clone(),
            name: invocation.name.clone(),
            input: invocation.input.clone(),
            kind,
        },
    )
}

/// The category of a failure that names none of its own.
pub open spec fn status_word(status: ToolResultStatus) -> &'static str {
    match status {
        ToolResultStatus::Success => "error",
        ToolResultStatus::Error => "error",
        ToolResultStatus::Rejected => "rejected",
        ToolResultStatus::Cancelled => "cancelled",
        ToolResultStatus::TimedOut => "timeout",
        ToolResultStatus::SandboxDenied => "sandbox_denied",
    }
}

fn status_label(status: ToolResultStatus) -> (label: &'static str)
    ensures
        label == status_word(status),
{
    match status {
        ToolResultStatus::Success => "error",
        ToolResultStatus::Error => "error",
        ToolResultStatus::Rejected => "rejected",
        ToolResultStatus::Cancelled => "cancelled",
        ToolResultStatus::TimedOut => "timeout",
        ToolResultStatus::SandboxDenied => "sandbox_denied",
    }
}

/// What a cell reads of a result of the pipeline.
pub open spec fn outcome_of(call: NestedToolCall, result: ResultView) -> NestedOutcomeView {
    NestedOutcomeView {
        call_id: call.call_id@,
        tool: call.tool@,
        content: result.content,
        structured: result.structured_content,
        is_error: result.is_error,
        error_kind: if result.is_error {
            match result.error_kind {
                Some(kind) => Some(kind.label_text()),
                None => Some(status_word(result.status)),
            }
        } else {
            None
        },
    }
}

/// The result that stands for a call: the last one that came back, or a refusal where none did.
pub open spec fn result_for(id: Seq<char>, results: Seq<ResultView>) -> ResultView {
    if results.len() > 0 {
        results.last()
    } else {
        tools::rejection(
            id,
            "the tool pipeline returned no result"@,
            ToolErrorKind::Semantic,
        )
    }
}

/// Closes a nested call with what the pipeline gave back: the event for clients, and what the cell
/// reads.
pub fn conclude(call: &NestedToolCall, invocation_id: String, outcomes: Vec<ModelToolResult>) -> (
ended: (ModelToolResult, NestedToolOutcome))
    ensures
        ended.0@ == result_for(invocation_id@, tools::result_views(outcomes@)),
        ended.1@ == outcome_of(
            *call,
            result_for(invocation_id@, tools::result_views(outcomes@)),
        ),
{
    let ghost views = tools::result_views(outcomes@);
    let mut outcomes = outcomes;
    let result = match outcomes.pop() {
        Some(result) => {
            assert(views.last() == result@);
            result
        },
        None => ModelToolResult::rejected(
            invocation_id,
            "the tool pipeline returned no result",
            ToolErrorKind::Semantic,
        ),
    };
    let error_kind = if result.is_error {
        match result.error_kind {
            Some(kind) => Some(kind.label()),
            None => Some(status_label(result.status)),
        }
    } else {
        None
    };
    let outcome = NestedToolOutcome {
        call_id: call.call_id.clone(),
        tool: call.tool.clone(),
        content: result.content.clone(),
        structured: tools::clone_opt_json(&result.structured_content),
        is_error: result.is_error,
        error_kind,
    };
    (result, outcome)
}

/// A failure always has a category, and a success never has one.
pub proof fn law_failures_are_categorized(
    call: NestedToolCall,
    result: ResultView,
    kind: &'static str,
    content: Seq<char>,
)
    ensures
        outcome_of(call, result).is_error == (outcome_of(call, result).error_kind is Some),
        failed(call, kind, content).is_error && failed(call, kind, content).error_kind is Some,
{
}

proof fn lemma_last_number(front: Seq<char>, back: Seq<char>, a: nat, b: nat)
    requires
        front + seq![':'] + text::decimal(a) == back + seq![':'] + text::decimal(b),
    ensures
        a == b,
    decreases a,
{
    let left = front + seq![':'] + text::decimal(a);
    let right = back + seq![':'] + text::decimal(b);
    assert(text::decimal(a).last() == text::digit_char(a % 10));
    assert(text::decimal(b).last() == text::digit_char(b % 10));
    assert(left.last() == text::digit_char(a % 10));
    assert(right.last() == text::digit_char(b % 10));
    assert(a % 10 == b % 10);
    if a < 10 {
        assert(left.drop_last() =~= front + seq![':']);
        assert(left.drop_last().last() == ':');
        if b >= 10 {
            assert(right.drop_last() =~= back + seq![':'] + text::decimal(b / 10));
            assert(text::decimal(b / 10).last() == text::digit_char((b / 10) % 10));
            assert(right.drop_last().last() == text::digit_char((b / 10) % 10));
        }
    } else {
        assert(left.drop_last() =~= front + seq![':'] + text::decimal(a / 10));
        if b < 10 {
            assert(right.drop_last() =~= back + seq![':']);
            assert(right.drop_last().last() == ':');
            assert(text::decimal(a / 10).last() == text::digit_char((a / 10) % 10));
            assert(left.drop_last().last() == text::digit_char((a / 10) % 10));
        } else {
            assert(right.drop_last() =~= back + seq![':'] + text::decimal(b / 10));
            lemma_last_number(front, back, a / 10, b / 10);
        }
    }
}

/// Two calls with different numbers never share an identifier, whatever their cells and names.
pub proof fn law_invocations_are_told_apart(
    cell: Seq<char>,
    call: Seq<char>,
    a: nat,
    other_cell: Seq<char>,
    other_call: Seq<char>,
    b: nat,
)
    requires
        invocation_name(cell, call, a) == invocation_name(other_cell, other_call, b),
    ensures
        a == b,
{
    reveal_strlit("::");
    let front = cell + "::"@ + call + seq![':'];
    let back = other_cell + "::"@ + other_call + seq![':'];
    assert(invocation_name(cell, call, a) =~= front + seq![':'] + text::decimal(a));
    assert(invocation_name(other_cell, other_call, b) =~= back + seq![':'] + text::decimal(b));
    lemma_last_number(front, back, a, b);
}

/// The dispatcher of a session that has none: it knows no tool.
#[derive(Debug, Clone, Copy, PartialEq, Eq, Structural)]
pub struct NoNestedTools {}

impl NoNestedTools {
    pub fn dispatch(&self, call: &NestedToolCall) -> (outcome: NestedToolOutcome)
        ensures
            outcome@ == failed(
                *call,
                ToolErrorKind::UnknownTool.label_text(),
                "no nested tool is available in this cell"@,
            ),
    {
        NestedToolOutcome::error(
            call,
            ToolErrorKind::UnknownTool.label(),
            "no nested tool is available in this cell",
        )
    }

    pub fn catalog(&self) -> (specs: Vec<ToolSpec>)
        ensures
            specs@.len() == 0,
    {
        Vec::new()
    }
}

/// A call that is not exempt climbs the ladder with each repetition: it proceeds below the first
/// step, is answered with a reminder from there, in detail from the second on, and from the third
/// on the guard locks, with a last word that names the call. Another call starts again.
pub proof fn law_nested_calls_climb_the_ladder(guard: NestedGuardView, call: InvocationView)
    requires
        guard.locked is None,
        guardrail::valid_ladder(guard.thresholds),
        guard.run.count < u32::MAX,
    ensures
        ({
            let (verdict, after) = guard.step(call, false);
            let key = guardrail::batch_signature(seq![call], seq![false]);
            let count = if guard.run.signature == key {
                (guard.run.count + 1) as u32
            } else {
                1u32
            };
            let steps = guard.thresholds;
            &&& after.run.signature == key && after.run.count == count
            &&& verdict is Proceed <==> count < steps[0]
            &&& steps[0] <= count < steps[1] ==> verdict == VerdictView::Reminder(
                LoopRegister::Gentle,
                count,
            )
            &&& steps[1] <= count < steps[2] ==> verdict == VerdictView::Reminder(
                LoopRegister::Detailed,
                count,
            )
            &&& steps[2] <= count ==> verdict is Locked && after.locked is Some && verdict
                == VerdictView::Locked(after.locked->0) && after.locked->0
                == guardrail::loop_message(LoopRegister::Terminal, call.name, count, call.input)
            &&& count < steps[2] ==> after.locked is None
        }),
{
    guardrail::law_batches_sign_unless_exempt(seq![call], seq![false]);
    assert(!seq![false][0]);
}

/// A refusal of the guard answers the call that was made, as an error, and a call that proceeds is
/// not refused.
pub proof fn law_refusals_answer_their_call(
    call: NestedToolCall,
    invocation: InvocationView,
    verdict: VerdictView,
)
    ensures
        ({
            let refusal = refusal_of(call, invocation, verdict);
            &&& refusal is None <==> verdict is Proceed
            &&& refusal matches Some(outcome) ==> outcome.call_id == call.call_id@ && outcome.tool
                == call.tool@ && outcome.is_error && outcome.structured is None
            &&& verdict matches VerdictView::Locked(message) ==> refusal->0.content == message
            &&& verdict matches VerdictView::Reminder(register, count) ==> refusal->0.content
                == guardrail::loop_message(register, invocation.name, count, invocation.input)
        }),
{
}

/// A cell reads of a result its content, its structure and whether it is an error, as the answer to
/// its own call; the last result counts, and where none came back it reads a refusal.
pub proof fn law_cells_read_their_result(
    call: NestedToolCall,
    id: Seq<char>,
    results: Seq<ResultView>,
    result: ResultView,
)
    ensures
        ({
            let outcome = outcome_of(call, result);
            &&& outcome.call_id == call.call_id@ && outcome.tool == call.tool@
            &&& outcome.content == result.content && outcome.structured
                == result.structured_content && outcome.is_error == result.is_error
            &&& result_for(id, results.push(result)) == result
            &&& result_for(id, seq![]).id == id && result_for(id, seq![]).is_error
        }),
{
}

/// The input of a call reaches the pipeline as it is: a document as one, a text as a text.
pub proof fn law_nested_inputs_are_kept(input: NestedToolInput)
    ensures
        input matches NestedToolInput::Json(value) ==> input_view(input) == (
            value@,
            ToolCallFormat::Json,
        ),
        input matches NestedToolInput::Text(value) ==> input_view(input) == (
            JsonView::Text(value@),
            ToolCallFormat::Text,
        ),
{
}

/// A tool that is not hidden can be called, in the order of the registry.
pub proof fn law_other_tools_stay_callable(
    specs: Seq<SpecView>,
    hidden: Seq<Seq<char>>,
    spec: SpecView,
)
    ensures
        hidden.contains(spec.name) ==> shown(specs.push(spec), hidden) == shown(specs, hidden),
        !hidden.contains(spec.name) ==> shown(specs.push(spec), hidden) == shown(
            specs,
            hidden,
        ).push(spec),
{
    reveal(Seq::filter);
    assert(specs.push(spec).drop_last() =~= specs);
}

/// A failure is told by its own category where it has one, else by how its result ended.
pub proof fn law_failures_are_named(call: NestedToolCall, result: ResultView)
    requires
        result.is_error,
    ensures
        result.error_kind matches Some(kind) ==> outcome_of(call, result).error_kind == Some(
            kind.label_text(),
        ),
        result.error_kind is None ==> {
            let word = outcome_of(call, result).error_kind->0@;
            match result.status {
                ToolResultStatus::TimedOut => word == "timeout"@,
                ToolResultStatus::Cancelled => word == "cancelled"@,
                ToolResultStatus::Rejected => word == "rejected"@,
                ToolResultStatus::SandboxDenied => word == "sandbox_denied"@,
                _ => word == "error"@,
            }
        },
{
}

} // verus!
