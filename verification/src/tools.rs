//! Tool calls, their results, and the plan of tools of one model sampling.
use crate::digest;
use crate::event::{
    HookRunView, OutputStream, PermissionReq, PlanView, ToolCallView, ToolResultView,
};
use crate::json::{Json, JsonView};
use crate::message::{ToolCallFormat, ToolCallId, ToolErrorKind};
use crate::text;
use crate::tool_spec;
use crate::tool_spec::ToolSpec;
use vstd::prelude::*;
use vstd::string::*;

verus! {

/// Ceiling of one model-visible tool result, whatever the model profile asks for.
pub const MAX_MODEL_TOOL_RESULT_BYTES: usize = 65536;

/// Smallest byte budget of a result that carries terminal execution facts.
pub const MIN_MODEL_TOOL_RESULT_BYTES: usize = 256;

/// Smallest token budget of a result that carries terminal execution facts.
pub const MIN_MODEL_TOOL_RESULT_TOKENS: usize = 64;

#[derive(Debug, Clone, Copy, PartialEq, Eq, Structural)]
pub enum ToolResultStatus {
    Success,
    Error,
    Rejected,
    Cancelled,
    TimedOut,
    SandboxDenied,
}

/// Which end of a text is kept when it is cut.
#[derive(Debug, Clone, Copy, PartialEq, Eq, Structural)]
pub enum TruncationStrategy {
    Head,
    Tail,
}

/// How a result was cut.
#[derive(Debug, PartialEq, Eq)]
pub struct ToolResultTruncation {
    pub original_bytes: usize,
    pub kept_bytes: usize,
    pub strategy: TruncationStrategy,
    pub continuation_hint: String,
}

/// Terminal facts of a shell-like execution, apart from the text shown, so that cutting the
/// text cannot erase the only proof of completion.
#[derive(Debug, PartialEq, Eq)]
pub struct ToolExecution {
    pub exit_code: Option<i32>,
    pub signal: Option<i32>,
    pub timed_out: bool,
    pub cancelled: bool,
    pub session_closed: bool,
    pub stderr_tail: Option<String>,
}

/// An image that a tool read for the model: its media type and its base64 data.
#[derive(Debug, PartialEq, Eq)]
pub struct ToolImage {
    pub media_type: String,
    pub data: String,
}

impl Clone for ToolResultTruncation {
    fn clone(&self) -> (copy: Self)
        ensures
            copy == *self,
    {
        ToolResultTruncation {
            original_bytes: self.original_bytes,
            kept_bytes: self.kept_bytes,
            strategy: self.strategy,
            continuation_hint: self.continuation_hint.clone(),
        }
    }
}

impl Clone for ToolExecution {
    fn clone(&self) -> (copy: Self)
        ensures
            copy == *self,
    {
        ToolExecution {
            exit_code: self.exit_code,
            signal: self.signal,
            timed_out: self.timed_out,
            cancelled: self.cancelled,
            session_closed: self.session_closed,
            stderr_tail: text::clone_opt(&self.stderr_tail),
        }
    }
}

impl Default for ToolExecution {
    fn default() -> (execution: Self)
        ensures
            execution == (ToolExecution {
                exit_code: None,
                signal: None,
                timed_out: false,
                cancelled: false,
                session_closed: false,
                stderr_tail: None,
            }),
    {
        ToolExecution {
            exit_code: None,
            signal: None,
            timed_out: false,
            cancelled: false,
            session_closed: false,
            stderr_tail: None,
        }
    }
}

impl Clone for ToolImage {
    fn clone(&self) -> (copy: Self)
        ensures
            copy == *self,
    {
        ToolImage { media_type: self.media_type.clone(), data: self.data.clone() }
    }
}

/// A copy of a list of images.
pub fn clone_images(images: &Vec<ToolImage>) -> (copy: Vec<ToolImage>)
    ensures
        copy@ == images@,
{
    let mut copy: Vec<ToolImage> = Vec::new();
    let mut i: usize = 0;
    while i < images.len()
        invariant
            i <= images.len(),
            copy@ == images@.take(i as int),
        decreases images.len() - i,
    {
        copy.push(images[i].clone());
        i += 1;
        assert(copy@ =~= images@.take(i as int));
    }
    assert(images@.take(i as int) =~= images@);
    copy
}

/// What an optional document is.
pub open spec fn opt_json(value: Option<Json>) -> Option<JsonView> {
    match value {
        Some(document) => Some(document@),
        None => None,
    }
}

pub fn clone_opt_json(value: &Option<Json>) -> (copy: Option<Json>)
    ensures
        opt_json(copy) == opt_json(*value),
{
    match value {
        Some(document) => Some(document.clone()),
        None => None,
    }
}

/// A tool call that the model asks for.
#[derive(Debug, PartialEq, Eq)]
pub struct ToolInvocation {
    pub id: ToolCallId,
    pub name: String,
    /// Arguments of a `Json` call, the raw text of a `Text` one.
    pub input: Json,
    pub format: ToolCallFormat,
}

/// What a call is.
pub struct InvocationView {
    pub id: Seq<char>,
    pub name: Seq<char>,
    pub input: JsonView,
    pub format: ToolCallFormat,
}

impl View for ToolInvocation {
    type V = InvocationView;

    open spec fn view(&self) -> InvocationView {
        InvocationView {
            id: self.id@,
            name: self.name@,
            input: self.input@,
            format: self.format,
        }
    }
}

pub open spec fn invocation_views(calls: Seq<ToolInvocation>) -> Seq<InvocationView> {
    calls.map_values(|call: ToolInvocation| call@)
}

impl Clone for ToolInvocation {
    fn clone(&self) -> (copy: Self)
        ensures
            copy@ == self@,
    {
        ToolInvocation {
            id: self.id.clone(),
            name: self.name.clone(),
            input: self.input.clone(),
            format: self.format,
        }
    }
}

impl ToolInvocation {
    /// A call with JSON arguments.
    pub fn json(id: &str, name: &str, input: Json) -> (call: ToolInvocation)
        ensures
            call.id@ == id@,
            call.name@ == name@,
            call.input == input,
            call.format == ToolCallFormat::Json,
    {
        ToolInvocation {
            id: id.to_owned(),
            name: name.to_owned(),
            input,
            format: ToolCallFormat::Json,
        }
    }

    /// The text of a freeform call, as the model sent it.
    pub fn text_input(&self) -> (text: Option<&str>)
        ensures
            match text {
                Some(value) => self.format == ToolCallFormat::Text && self.input@
                    == JsonView::Text(value@),
                None => self.format == ToolCallFormat::Json || !(self.input@ is Text),
            },
    {
        if self.format.is_text() {
            self.input.as_str()
        } else {
            None
        }
    }
}

/// The result of one tool call. What the model reads, the transcript and the client's event are
/// all made from it.
#[derive(Debug, PartialEq, Eq)]
pub struct ModelToolResult {
    pub id: ToolCallId,
    pub content: String,
    pub structured_content: Option<Json>,
    pub status: ToolResultStatus,
    pub is_error: bool,
    pub untrusted: bool,
    pub error_kind: Option<ToolErrorKind>,
    pub duration_ms: Option<u64>,
    pub truncation: Option<ToolResultTruncation>,
    pub execution: Option<ToolExecution>,
    /// Images that the tool brought into the turn.
    pub images: Vec<ToolImage>,
    /// The user refused this call and ended the turn with it.
    pub aborts_turn: bool,
    /// The tool asked for a fresh context window.
    pub requests_compaction: bool,
}

/// The terminal status that an error category stands for.
pub open spec fn status_of(is_error: bool, error_kind: Option<ToolErrorKind>) -> ToolResultStatus {
    match error_kind {
        Some(kind) => match kind {
            ToolErrorKind::Timeout => ToolResultStatus::TimedOut,
            ToolErrorKind::UnknownTool
            | ToolErrorKind::Parse
            | ToolErrorKind::Validation
            | ToolErrorKind::OutsideWorkspace
            | ToolErrorKind::Rejected
            | ToolErrorKind::PermissionDenied => ToolResultStatus::Rejected,
            ToolErrorKind::SandboxDenied => ToolResultStatus::SandboxDenied,
            ToolErrorKind::Cancelled => ToolResultStatus::Cancelled,
            ToolErrorKind::Io | ToolErrorKind::Semantic => ToolResultStatus::Error,
        },
        None => if is_error {
            ToolResultStatus::Error
        } else {
            ToolResultStatus::Success
        },
    }
}

/// The terminal status that an error category stands for.
pub fn status_from_error(is_error: bool, error_kind: Option<ToolErrorKind>) -> (status:
    ToolResultStatus)
    ensures
        status == status_of(is_error, error_kind),
{
    match error_kind {
        Some(ToolErrorKind::Timeout) => ToolResultStatus::TimedOut,
        Some(
            ToolErrorKind::UnknownTool
            | ToolErrorKind::Parse
            | ToolErrorKind::Validation
            | ToolErrorKind::OutsideWorkspace
            | ToolErrorKind::Rejected
            | ToolErrorKind::PermissionDenied,
        ) => ToolResultStatus::Rejected,
        Some(ToolErrorKind::SandboxDenied) => ToolResultStatus::SandboxDenied,
        Some(ToolErrorKind::Cancelled) => ToolResultStatus::Cancelled,
        Some(ToolErrorKind::Io | ToolErrorKind::Semantic) => ToolResultStatus::Error,
        None => {
            if is_error {
                ToolResultStatus::Error
            } else {
                ToolResultStatus::Success
            }
        },
    }
}

/// What a result is.
pub struct ResultView {
    pub id: Seq<char>,
    pub content: Seq<char>,
    pub structured_content: Option<JsonView>,
    pub status: ToolResultStatus,
    pub is_error: bool,
    pub untrusted: bool,
    pub error_kind: Option<ToolErrorKind>,
    pub duration_ms: Option<u64>,
    pub truncation: Option<ToolResultTruncation>,
    pub execution: Option<ToolExecution>,
    pub images: Seq<ToolImage>,
    pub aborts_turn: bool,
    pub requests_compaction: bool,
}

impl View for ModelToolResult {
    type V = ResultView;

    open spec fn view(&self) -> ResultView {
        ResultView {
            id: self.id@,
            content: self.content@,
            structured_content: opt_json(self.structured_content),
            status: self.status,
            is_error: self.is_error,
            untrusted: self.untrusted,
            error_kind: self.error_kind,
            duration_ms: self.duration_ms,
            truncation: self.truncation,
            execution: self.execution,
            images: self.images@,
            aborts_turn: self.aborts_turn,
            requests_compaction: self.requests_compaction,
        }
    }
}

pub open spec fn result_views(results: Seq<ModelToolResult>) -> Seq<ResultView> {
    results.map_values(|result: ModelToolResult| result@)
}

/// A call refused before it had any effect.
pub open spec fn rejection(id: Seq<char>, content: Seq<char>, kind: ToolErrorKind) -> ResultView {
    ResultView {
        id,
        content,
        structured_content: None,
        status: ToolResultStatus::Rejected,
        is_error: true,
        untrusted: false,
        error_kind: Some(kind),
        duration_ms: None,
        truncation: None,
        execution: None,
        images: seq![],
        aborts_turn: false,
        requests_compaction: false,
    }
}

impl Clone for ModelToolResult {
    fn clone(&self) -> (copy: Self)
        ensures
            copy@ == self@,
    {
        ModelToolResult {
            id: self.id.clone(),
            content: self.content.clone(),
            structured_content: clone_opt_json(&self.structured_content),
            status: self.status,
            is_error: self.is_error,
            untrusted: self.untrusted,
            error_kind: self.error_kind,
            duration_ms: self.duration_ms,
            truncation: match &self.truncation {
                Some(truncation) => Some(truncation.clone()),
                None => None,
            },
            execution: match &self.execution {
                Some(execution) => Some(execution.clone()),
                None => None,
            },
            images: clone_images(&self.images),
            aborts_turn: self.aborts_turn,
            requests_compaction: self.requests_compaction,
        }
    }
}

impl ModelToolResult {
    /// The fields that bounding the feedback never touches hold the same as in `other`.
    pub open spec fn same_apart_from_content(self, other: Self) -> bool {
        &&& self.id@ == other.id@
        &&& opt_json(self.structured_content) == opt_json(other.structured_content)
        &&& self.untrusted == other.untrusted
        &&& self.duration_ms == other.duration_ms
        &&& self.execution == other.execution
        &&& self.images@ == other.images@
        &&& self.aborts_turn == other.aborts_turn
        &&& self.requests_compaction == other.requests_compaction
    }

    /// A result without structure, duration, cut, execution or image.
    pub open spec fn is_plain(self, is_error: bool, untrusted: bool, error_kind: Option<ToolErrorKind>) -> bool {
        &&& self.structured_content is None
        &&& self.is_error == is_error
        &&& self.untrusted == untrusted
        &&& self.error_kind == error_kind
        &&& self.duration_ms is None
        &&& self.truncation is None
        &&& self.images@.len() == 0
        &&& !self.aborts_turn
        &&& !self.requests_compaction
    }

    /// A result whose status follows from its error category.
    pub fn new(
        id: ToolCallId,
        content: String,
        is_error: bool,
        untrusted: bool,
        error_kind: Option<ToolErrorKind>,
    ) -> (result: ModelToolResult)
        ensures
            result.id == id,
            result.content == content,
            result.status == status_of(is_error, error_kind),
            result.is_plain(is_error, untrusted, error_kind),
            result.execution is None,
    {
        ModelToolResult {
            id,
            content,
            structured_content: None,
            status: status_from_error(is_error, error_kind),
            is_error,
            untrusted,
            error_kind,
            duration_ms: None,
            truncation: None,
            execution: None,
            images: Vec::new(),
            aborts_turn: false,
            requests_compaction: false,
        }
    }

    /// A call refused before it had any effect.
    pub fn rejected(id: ToolCallId, content: &str, kind: ToolErrorKind) -> (result: ModelToolResult)
        ensures
            result.id == id,
            result.content@ == content@,
            result.status == ToolResultStatus::Rejected,
            result.is_plain(true, false, Some(kind)),
            result.execution is None,
            result@ == rejection(id@, content@, kind),
    {
        let mut result = ModelToolResult::new(id, content.to_owned(), true, false, Some(kind));
        result.status = ToolResultStatus::Rejected;
        assert(result@.images =~= seq![]);
        result
    }

    /// A call that was stopped, with the terminal fact that says so.
    pub fn cancelled(id: ToolCallId, content: &str) -> (result: ModelToolResult)
        ensures
            result.id == id,
            result.content@ == content@,
            result.status == ToolResultStatus::Cancelled,
            result.is_plain(true, false, Some(ToolErrorKind::Cancelled)),
            result.execution == Some(
                ToolExecution {
                    exit_code: None,
                    signal: None,
                    timed_out: false,
                    cancelled: true,
                    session_closed: false,
                    stderr_tail: None,
                },
            ),
    {
        let mut result = ModelToolResult::new(
            id,
            content.to_owned(),
            true,
            false,
            Some(ToolErrorKind::Cancelled),
        );
        result.status = ToolResultStatus::Cancelled;
        let mut execution = ToolExecution::default();
        execution.cancelled = true;
        result.execution = Some(execution);
        result
    }

    /// The result with the time that the call took, in milliseconds.
    pub fn with_duration(self, millis: u128) -> (result: ModelToolResult)
        ensures
            result == (ModelToolResult {
                duration_ms: Some(
                    if millis <= u64::MAX {
                        millis as u64
                    } else {
                        u64::MAX
                    },
                ),
                ..self
            }),
    {
        let mut result = self;
        let capped: u64 = if millis <= u64::MAX as u128 {
            millis as u64
        } else {
            u64::MAX
        };
        result.duration_ms = Some(capped);
        result
    }
}

// ---------------------------------------------------------------- the plan of a sampling

/// The tools of one registry read, with their wire form.
#[derive(Debug, Clone, PartialEq, Eq)]
pub struct ToolDispatchSnapshot {
    pub generation: u64,
    pub specs: Vec<ToolSpec>,
    /// The tools as they are sent: a JSON array.
    pub wire: String,
}

impl ToolDispatchSnapshot {
    pub fn new(generation: u64, specs: Vec<ToolSpec>, wire: String) -> (snapshot:
        ToolDispatchSnapshot)
        ensures
            snapshot == (ToolDispatchSnapshot { generation, specs, wire }),
    {
        ToolDispatchSnapshot { generation, specs, wire }
    }

    pub fn generation(&self) -> (generation: u64)
        ensures
            generation == self.generation,
    {
        self.generation
    }

    pub fn specs(&self) -> (specs: &Vec<ToolSpec>)
        ensures
            *specs == self.specs,
    {
        &self.specs
    }

    /// The same registry read with another visible catalog.
    pub fn with_specs(&self, specs: Vec<ToolSpec>, wire: String) -> (snapshot:
        ToolDispatchSnapshot)
        ensures
            snapshot == (ToolDispatchSnapshot { generation: self.generation, specs, wire }),
    {
        ToolDispatchSnapshot { generation: self.generation, specs, wire }
    }
}

/// The whole tool contract of one sampling, which never changes.
#[derive(Debug, PartialEq, Eq)]
pub struct StepToolPlan {
    pub generation: u64,
    pub fingerprint: String,
    pub specs: Vec<ToolSpec>,
    /// The tools as they are sent: a JSON array.
    pub wire: String,
    pub parallel_allowed: bool,
}

/// What identifies a plan: whether calls may run side by side, and the tools as they are sent.
pub open spec fn plan_bytes(wire: Seq<char>, parallel_allowed: bool) -> Seq<u8> {
    seq![
        if parallel_allowed {
            1u8
        } else {
            0u8
        },
    ] + vstd::utf8::encode_utf8(wire)
}

/// The fingerprint of a plan.
pub fn tool_plan_fingerprint(wire: &str, parallel_allowed: bool) -> (fingerprint: String)
    ensures
        fingerprint@ == digest::sha256_text(plan_bytes(wire@, parallel_allowed)),
        text::is_sha256(fingerprint@),
{
    let first: u8 = if parallel_allowed {
        1
    } else {
        0
    };
    let mut bytes: Vec<u8> = Vec::new();
    bytes.push(first);
    bytes.extend_from_slice(wire.as_bytes());
    assert(bytes@ =~= plan_bytes(wire@, parallel_allowed));
    digest::sha256_hex(&bytes)
}

/// Whether a name is in a catalog.
pub open spec fn visible(specs: Seq<ToolSpec>, name: Seq<char>) -> bool {
    exists|i: int| 0 <= i < specs.len() && (#[trigger] specs[i]).name@ == name
}

/// The calls to tools of a catalog, in their order.
pub open spec fn known_calls(specs: Seq<ToolSpec>, calls: Seq<InvocationView>) -> Seq<
    InvocationView,
>
    decreases calls.len(),
{
    if calls.len() == 0 {
        seq![]
    } else {
        let before = known_calls(specs, calls.drop_last());
        if visible(specs, calls.last().name) {
            before.push(calls.last())
        } else {
            before
        }
    }
}

/// The refusals of the other calls, in their order.
pub open spec fn unknown_calls(specs: Seq<ToolSpec>, calls: Seq<InvocationView>) -> Seq<ResultView>
    decreases calls.len(),
{
    if calls.len() == 0 {
        seq![]
    } else {
        let before = unknown_calls(specs, calls.drop_last());
        let call = calls.last();
        if visible(specs, call.name) {
            before
        } else {
            before.push(
                rejection(
                    call.id,
                    "tool unavailable in this step: "@ + call.name,
                    ToolErrorKind::UnknownTool,
                ),
            )
        }
    }
}

/// The calls that go to the dispatcher, and the refusals of those that do not.
#[derive(Debug, PartialEq, Eq)]
pub struct Screening {
    pub known: Vec<ToolInvocation>,
    pub rejected: Vec<ModelToolResult>,
}

impl Clone for StepToolPlan {
    fn clone(&self) -> (copy: Self)
        ensures
            copy.same_as(*self),
    {
        StepToolPlan {
            generation: self.generation,
            fingerprint: self.fingerprint.clone(),
            specs: tool_spec::clone_specs(&self.specs),
            wire: self.wire.clone(),
            parallel_allowed: self.parallel_allowed,
        }
    }
}

impl StepToolPlan {
    /// Whether two plans hold the same.
    pub open spec fn same_as(self, other: StepToolPlan) -> bool {
        &&& self.generation == other.generation
        &&& self.fingerprint@ == other.fingerprint@
        &&& tool_spec::spec_views(self.specs@) == tool_spec::spec_views(other.specs@)
        &&& self.wire@ == other.wire@
        &&& self.parallel_allowed == other.parallel_allowed
    }

    /// The plan is identified by what it is made of.
    pub open spec fn wf(self) -> bool {
        self.fingerprint@ == digest::sha256_text(plan_bytes(self.wire@, self.parallel_allowed))
    }

    pub fn capture(snapshot: ToolDispatchSnapshot, parallel_allowed: bool) -> (plan: StepToolPlan)
        ensures
            plan.wf(),
            text::is_sha256(plan.fingerprint@),
            plan.generation == snapshot.generation,
            plan.specs == snapshot.specs,
            plan.wire == snapshot.wire,
            plan.parallel_allowed == parallel_allowed,
    {
        let fingerprint = tool_plan_fingerprint(snapshot.wire.as_str(), parallel_allowed);
        StepToolPlan {
            generation: snapshot.generation,
            fingerprint,
            specs: snapshot.specs,
            wire: snapshot.wire,
            parallel_allowed,
        }
    }

    pub fn generation(&self) -> (generation: u64)
        ensures
            generation == self.generation,
    {
        self.generation
    }

    pub fn fingerprint(&self) -> (fingerprint: &str)
        ensures
            fingerprint@ == self.fingerprint@,
    {
        self.fingerprint.as_str()
    }

    pub fn specs(&self) -> (specs: &Vec<ToolSpec>)
        ensures
            *specs == self.specs,
    {
        &self.specs
    }

    /// The same tools under another rule for calls side by side.
    pub fn with_parallel_allowed(&self, parallel_allowed: bool) -> (plan: StepToolPlan)
        ensures
            plan.wf(),
            plan.generation == self.generation,
            tool_spec::spec_views(plan.specs@) == tool_spec::spec_views(self.specs@),
            plan.wire@ == self.wire@,
            plan.parallel_allowed == parallel_allowed,
    {
        StepToolPlan {
            generation: self.generation,
            fingerprint: tool_plan_fingerprint(self.wire.as_str(), parallel_allowed),
            specs: tool_spec::clone_specs(&self.specs),
            wire: self.wire.clone(),
            parallel_allowed,
        }
    }

    fn knows(&self, name: &str) -> (yes: bool)
        ensures
            yes == visible(self.specs@, name@),
    {
        let mut i: usize = 0;
        while i < self.specs.len()
            invariant
                i <= self.specs.len(),
                forall|k: int| 0 <= k < i ==> (#[trigger] self.specs@[k]).name@ != name@,
            decreases self.specs.len() - i,
        {
            if text::same_text(self.specs[i].name.as_str(), name) {
                return true;
            }
            i += 1;
        }
        false
    }

    /// Holds calls against the catalog that the model saw, before any of them runs.
    pub fn screen(&self, calls: &Vec<ToolInvocation>) -> (screening: Screening)
        ensures
            invocation_views(screening.known@) == known_calls(
                self.specs@,
                invocation_views(calls@),
            ),
            result_views(screening.rejected@) == unknown_calls(
                self.specs@,
                invocation_views(calls@),
            ),
    {
        let ghost views = invocation_views(calls@);
        let mut known: Vec<ToolInvocation> = Vec::new();
        let mut rejected: Vec<ModelToolResult> = Vec::new();
        let mut i: usize = 0;
        assert(views.take(0) =~= seq![]);
        assert(invocation_views(known@) =~= seq![]);
        assert(result_views(rejected@) =~= seq![]);
        while i < calls.len()
            invariant
                i <= calls.len(),
                views == invocation_views(calls@),
                invocation_views(known@) == known_calls(self.specs@, views.take(i as int)),
                result_views(rejected@) == unknown_calls(self.specs@, views.take(i as int)),
            decreases calls.len() - i,
        {
            proof {
                assert(views.take(i + 1).drop_last() =~= views.take(i as int));
                assert(views.take(i + 1).last() == calls@[i as int]@);
            }
            if self.knows(calls[i].name.as_str()) {
                let ghost before = known@;
                let call = calls[i].clone();
                let ghost view = call@;
                known.push(call);
                assert(invocation_views(known@) =~= invocation_views(before).push(view));
            } else {
                let ghost before = rejected@;
                let content = text::joined(
                    "tool unavailable in this step: ",
                    calls[i].name.as_str(),
                    "",
                    "",
                );
                let result = ModelToolResult::rejected(
                    calls[i].id.clone(),
                    content.as_str(),
                    ToolErrorKind::UnknownTool,
                );
                let ghost view = result@;
                rejected.push(result);
                assert(result_views(rejected@) =~= result_views(before).push(view));
            }
            i += 1;
        }
        assert(views.take(i as int) =~= views);
        Screening { known, rejected }
    }

    /// The batches in which known calls go to the dispatcher: one where they may run side by
    /// side, else one for each call.
    pub fn batches(&self, known: Vec<ToolInvocation>) -> (batches: Vec<Vec<ToolInvocation>>)
        ensures
            self.parallel_allowed ==> batches@.len() == 1 && batches@[0]@ == known@,
            !self.parallel_allowed ==> batches@.len() == known@.len() && forall|i: int|
                0 <= i < known@.len() ==> invocation_views((#[trigger] batches@[i])@)
                    == seq![known@[i]@],
    {
        let mut batches: Vec<Vec<ToolInvocation>> = Vec::new();
        if self.parallel_allowed {
            batches.push(known);
            return batches;
        }
        let mut i: usize = 0;
        while i < known.len()
            invariant
                i <= known.len(),
                batches@.len() == i,
                forall|k: int|
                    0 <= k < i ==> invocation_views((#[trigger] batches@[k])@) == seq![known@[k]@],
            decreases known.len() - i,
        {
            let call = known[i].clone();
            let ghost view = call@;
            let single = vec![call];
            assert(invocation_views(single@) =~= seq![view]);
            batches.push(single);
            i += 1;
        }
        batches
    }
}

// ---------------------------------------------------------------- the order of results

pub open spec fn result_ids(results: Seq<ResultView>) -> Seq<Seq<char>> {
    results.map_values(|result: ResultView| result.id)
}

/// Results by their calls: the last one for each call, in the order of the first ones, and every
/// one that came for a call that had one already.
pub struct Indexed {
    pub by_id: Seq<ResultView>,
    pub extras: Seq<ResultView>,
}

pub open spec fn indexed(results: Seq<ResultView>) -> Indexed
    decreases results.len(),
{
    if results.len() == 0 {
        Indexed { by_id: seq![], extras: seq![] }
    } else {
        let before = indexed(results.drop_last());
        let last = results.last();
        match text::place(result_ids(before.by_id), last.id) {
            Some(at) => Indexed {
                by_id: before.by_id.update(at, last),
                extras: before.extras.push(last),
            },
            None => Indexed { by_id: before.by_id.push(last), extras: before.extras },
        }
    }
}

/// Results drawn in the order of their calls, and those that are left.
pub struct Drawn {
    pub ordered: Seq<ResultView>,
    pub left: Seq<ResultView>,
}

pub open spec fn drawn(order: Seq<Seq<char>>, by_id: Seq<ResultView>) -> Drawn
    decreases order.len(),
{
    if order.len() == 0 {
        Drawn { ordered: seq![], left: by_id }
    } else {
        let before = drawn(order.drop_last(), by_id);
        match text::place(result_ids(before.left), order.last()) {
            Some(at) => Drawn {
                ordered: before.ordered.push(before.left[at]),
                left: before.left.remove(at),
            },
            None => before,
        }
    }
}

/// Results in the order of their calls, then those of no call, then repeated ones. For a call
/// that has several, the last one stands in the order of calls, and each but the first stands at
/// the end.
pub open spec fn settled(order: Seq<Seq<char>>, results: Seq<ResultView>) -> Seq<ResultView> {
    let index = indexed(results);
    let draw = drawn(order, index.by_id);
    draw.ordered + draw.left + index.extras
}

fn find_result(results: &Vec<ModelToolResult>, id: &str) -> (found: Option<usize>)
    ensures
        match found {
            Some(at) => at < results@.len() && text::place(
                result_ids(result_views(results@)),
                id@,
            ) == Some(at as int),
            None => text::place(result_ids(result_views(results@)), id@) is None,
        },
{
    let ghost ids = result_ids(result_views(results@));
    let mut i: usize = 0;
    while i < results.len()
        invariant
            i <= results.len(),
            ids == result_ids(result_views(results@)),
            forall|k: int| 0 <= k < i ==> #[trigger] ids[k] != id@,
        decreases results.len() - i,
    {
        assert(ids[i as int] == results@[i as int].id@);
        if text::same_text(results[i].id.as_str(), id) {
            proof {
                text::lemma_place_at(ids, id@, i as int);
            }
            return Some(i);
        }
        i += 1;
    }
    proof {
        text::lemma_place_at(ids, id@, i as int);
    }
    None
}

/// Puts results in the order of their calls. A result that no call asked for comes after them.
/// One that repeats another takes its place and comes once more at the end: of several for one call
/// the first alone is gone, and their count is kept.
pub fn settle(order: &Vec<ToolCallId>, results: Vec<ModelToolResult>) -> (sorted: Vec<
    ModelToolResult,
>)
    ensures
        result_views(sorted@) == settled(text::texts(order@), result_views(results@)),
{
    let ghost views = result_views(results@);
    let mut by_id: Vec<ModelToolResult> = Vec::new();
    let mut extras: Vec<ModelToolResult> = Vec::new();
    let mut i: usize = 0;
    assert(views.take(0) =~= seq![]);
    assert(result_views(by_id@) =~= seq![]);
    assert(result_views(extras@) =~= seq![]);
    while i < results.len()
        invariant
            i <= results.len(),
            views == result_views(results@),
            result_views(by_id@) == indexed(views.take(i as int)).by_id,
            result_views(extras@) == indexed(views.take(i as int)).extras,
        decreases results.len() - i,
    {
        proof {
            assert(views.take(i + 1).drop_last() =~= views.take(i as int));
            assert(views.take(i + 1).last() == results@[i as int]@);
        }
        let ghost before = by_id@;
        let ghost more = extras@;
        let result = results[i].clone();
        let ghost view = result@;
        match find_result(&by_id, result.id.as_str()) {
            Some(at) => {
                extras.push(result.clone());
                by_id.set(at, result);
                assert(result_views(by_id@) =~= result_views(before).update(at as int, view));
                assert(result_views(extras@) =~= result_views(more).push(view));
            },
            None => {
                by_id.push(result);
                assert(result_views(by_id@) =~= result_views(before).push(view));
            },
        }
        i += 1;
    }
    assert(views.take(i as int) =~= views);
    let ghost index = indexed(views);
    let ghost ids = text::texts(order@);
    let mut sorted: Vec<ModelToolResult> = Vec::new();
    let mut j: usize = 0;
    assert(ids.take(0) =~= seq![]);
    assert(result_views(sorted@) =~= seq![]);
    while j < order.len()
        invariant
            j <= order.len(),
            ids == text::texts(order@),
            result_views(sorted@) == drawn(ids.take(j as int), index.by_id).ordered,
            result_views(by_id@) == drawn(ids.take(j as int), index.by_id).left,
        decreases order.len() - j,
    {
        proof {
            assert(ids.take(j + 1).drop_last() =~= ids.take(j as int));
            assert(ids.take(j + 1).last() == order@[j as int]@);
        }
        let ghost left = by_id@;
        let ghost done = sorted@;
        match find_result(&by_id, order[j].as_str()) {
            Some(at) => {
                let result = by_id.remove(at);
                let ghost view = result@;
                sorted.push(result);
                assert(result_views(by_id@) =~= result_views(left).remove(at as int));
                assert(result_views(sorted@) =~= result_views(done).push(view));
            },
            None => {},
        }
        j += 1;
    }
    assert(ids.take(j as int) =~= ids);
    let ghost first = sorted@;
    let ghost second = by_id@;
    let ghost third = extras@;
    sorted.append(&mut by_id);
    sorted.append(&mut extras);
    assert(result_views(sorted@) =~= settled(ids, views));
    sorted
}

proof fn lemma_indexed_distinct(results: Seq<ResultView>)
    requires
        forall|i: int, j: int|
            0 <= i < j < results.len() ==> (#[trigger] results[i]).id != (#[trigger] results[j]).id,
    ensures
        indexed(results).by_id == results,
        indexed(results).extras == Seq::<ResultView>::empty(),
    decreases results.len(),
{
    if results.len() == 0 {
        assert(indexed(results).by_id =~= results);
    } else {
        let shorter = results.drop_last();
        lemma_indexed_distinct(shorter);
        let ids = result_ids(shorter);
        text::lemma_place(ids, results.last().id);
        if text::place(ids, results.last().id) is Some {
            let at = text::place(ids, results.last().id)->0;
            assert(ids[at] == results[at].id);
        }
        assert(shorter.push(results.last()) =~= results);
    }
}

/// Whether the results hold one for this call.
pub open spec fn has_result(results: Seq<ResultView>, id: Seq<char>) -> bool {
    exists|i: int| 0 <= i < results.len() && (#[trigger] results[i]).id == id
}

proof fn lemma_drawn(order: Seq<Seq<char>>, by_id: Seq<ResultView>)
    requires
        forall|i: int, j: int|
            0 <= i < j < order.len() ==> #[trigger] order[i] != #[trigger] order[j],
        forall|i: int| 0 <= i < order.len() ==> has_result(by_id, #[trigger] order[i]),
    ensures
        drawn(order, by_id).ordered.len() == order.len(),
        result_ids(drawn(order, by_id).ordered) == order,
        forall|id: Seq<char>|
            !order.contains(id) && has_result(by_id, id) ==> #[trigger] has_result(
                drawn(order, by_id).left,
                id,
            ),
        drawn(order, by_id).left.len() == by_id.len() - order.len(),
    decreases order.len(),
{
    let draw = drawn(order, by_id);
    if order.len() == 0 {
        assert(result_ids(draw.ordered) =~= order);
    } else {
        let shorter = order.drop_last();
        let before = drawn(shorter, by_id);
        lemma_drawn(shorter, by_id);
        let last = order.last();
        assert(!shorter.contains(last)) by {
            if shorter.contains(last) {
                let k = choose|k: int| 0 <= k < shorter.len() && shorter[k] == last;
                assert(order[k] == order[order.len() - 1]);
            }
        }
        assert(has_result(by_id, order[order.len() - 1]));
        assert(has_result(before.left, last));
        let ids = result_ids(before.left);
        text::lemma_place(ids, last);
        let k = choose|k: int| 0 <= k < before.left.len() && (#[trigger] before.left[k]).id == last;
        assert(ids[k] == last);
        let at = text::place(ids, last)->0;
        assert(ids[at] == before.left[at].id);
        assert(result_ids(draw.ordered) =~= order) by {
            assert(result_ids(draw.ordered) =~= result_ids(before.ordered).push(last));
            assert(shorter.push(last) =~= order);
        }
        assert forall|id: Seq<char>|
            !order.contains(id) && has_result(by_id, id) implies #[trigger] has_result(
            draw.left,
            id,
        ) by {
            assert(!shorter.contains(id)) by {
                if shorter.contains(id) {
                    let m = choose|m: int| 0 <= m < shorter.len() && shorter[m] == id;
                    assert(order[m] == id);
                }
            }
            assert(id != last) by {
                if id == last {
                    assert(order[order.len() - 1] == id);
                }
            }
            assert(has_result(before.left, id));
            let m = choose|m: int|
                0 <= m < before.left.len() && (#[trigger] before.left[m]).id == id;
            let n = if m < at {
                m
            } else {
                m - 1
            };
            assert(draw.left[n] == before.left[m]);
        }
    }
}

/// Where a dispatcher answers each call once, in whatever order, each call has its answer in the
/// place of the call, and nothing is added or lost.
pub proof fn law_results_follow_their_calls(order: Seq<Seq<char>>, results: Seq<ResultView>)
    requires
        forall|i: int, j: int|
            0 <= i < j < order.len() ==> #[trigger] order[i] != #[trigger] order[j],
        forall|i: int, j: int|
            0 <= i < j < results.len() ==> (#[trigger] results[i]).id != (#[trigger] results[j]).id,
        forall|i: int| 0 <= i < order.len() ==> has_result(results, #[trigger] order[i]),
        results.len() == order.len(),
    ensures
        settled(order, results).len() == order.len(),
        result_ids(settled(order, results)) == order,
{
    lemma_indexed_distinct(results);
    lemma_drawn(order, results);
    let draw = drawn(order, results);
    assert(draw.left =~= seq![]);
    assert(settled(order, results) =~= draw.ordered);
}

/// A call to a tool that the model did not see never reaches the dispatcher, and gets one refusal
/// that names it.
pub proof fn law_hidden_tools_are_refused(
    specs: Seq<ToolSpec>,
    calls: Seq<InvocationView>,
    i: int,
)
    requires
        0 <= i < calls.len(),
        !visible(specs, calls[i].name),
    ensures
        forall|k: int|
            0 <= k < known_calls(specs, calls).len() ==> visible(
                specs,
                (#[trigger] known_calls(specs, calls)[k]).name,
            ),
        unknown_calls(specs, calls).contains(
            rejection(
                calls[i].id,
                "tool unavailable in this step: "@ + calls[i].name,
                ToolErrorKind::UnknownTool,
            ),
        ),
    decreases calls.len(),
{
    lemma_known_are_visible(specs, calls);
    let last = calls.last();
    let before = unknown_calls(specs, calls.drop_last());
    if i < calls.len() - 1 {
        law_hidden_tools_are_refused(specs, calls.drop_last(), i);
        let found = rejection(
            calls[i].id,
            "tool unavailable in this step: "@ + calls[i].name,
            ToolErrorKind::UnknownTool,
        );
        let k = choose|k: int| 0 <= k < before.len() && before[k] == found;
        assert(unknown_calls(specs, calls)[k] == found);
    } else {
        assert(unknown_calls(specs, calls)[before.len() as int] == rejection(
            last.id,
            "tool unavailable in this step: "@ + last.name,
            ToolErrorKind::UnknownTool,
        ));
    }
}

proof fn lemma_known_are_visible(specs: Seq<ToolSpec>, calls: Seq<InvocationView>)
    ensures
        forall|k: int|
            0 <= k < known_calls(specs, calls).len() ==> visible(
                specs,
                (#[trigger] known_calls(specs, calls)[k]).name,
            ),
        known_calls(specs, calls).len() + unknown_calls(specs, calls).len() == calls.len(),
    decreases calls.len(),
{
    if calls.len() > 0 {
        lemma_known_are_visible(specs, calls.drop_last());
    }
}

/// What a dispatcher tells while it works.
#[derive(Debug, Clone, PartialEq, Eq)]
pub enum ToolDispatchEvent {
    PermissionAsk(PermissionReq),
    /// A tool that a code cell called has started.
    NestedToolCall(ToolCallView),
    /// The result of a tool that a code cell called.
    NestedToolResult(ToolResultView),
    OutputDelta { id: ToolCallId, stream: OutputStream, chunk: Vec<u8> },
    Plan(PlanView),
    Hook(HookRunView),
}

/// What a result ended as, by its error: none, a time limit, a sandbox, a cancellation, a refusal
/// before any effect, or a failure of the tool itself.
pub proof fn law_statuses_tell_the_error(is_error: bool, kind: Option<ToolErrorKind>)
    ensures
        ({
            let status = status_of(is_error, kind);
            &&& status == ToolResultStatus::Success <==> kind is None && !is_error
            &&& status == ToolResultStatus::TimedOut <==> kind == Some(ToolErrorKind::Timeout)
            &&& status == ToolResultStatus::SandboxDenied <==> kind == Some(
                ToolErrorKind::SandboxDenied,
            )
            &&& status == ToolResultStatus::Cancelled <==> kind == Some(ToolErrorKind::Cancelled)
            &&& status == ToolResultStatus::Error <==> kind is None && is_error || kind == Some(
                ToolErrorKind::Io,
            ) || kind == Some(ToolErrorKind::Semantic)
        }),
{
}

/// Screening parts the calls: each goes to the dispatcher as it is, in its place among the others
/// that do, or gets a refusal of its own, in its place among the refusals.
pub proof fn law_calls_are_screened_in_order(
    specs: Seq<ToolSpec>,
    calls: Seq<InvocationView>,
    call: InvocationView,
)
    ensures
        ({
            let seen = exists|i: int| 0 <= i < specs.len() && (#[trigger] specs[i]).name@
                == call.name;
            let known = known_calls(specs, calls.push(call));
            let refused = unknown_calls(specs, calls.push(call));
            &&& seen ==> known == known_calls(specs, calls).push(call) && refused == unknown_calls(
                specs,
                calls,
            )
            &&& !seen ==> known == known_calls(specs, calls) && refused.drop_last()
                == unknown_calls(specs, calls) && refused.len() == unknown_calls(specs, calls).len()
                + 1 && refused.last().id == call.id && refused.last().is_error
                && refused.last().status == ToolResultStatus::Rejected
                && refused.last().error_kind == Some(ToolErrorKind::UnknownTool)
                && refused.last().content == "tool unavailable in this step: "@ + call.name
                && !refused.last().aborts_turn && !refused.last().requests_compaction
            &&& known_calls(specs, seq![]) == Seq::<InvocationView>::empty()
            &&& unknown_calls(specs, seq![]) == Seq::<ResultView>::empty()
        }),
{
    assert(calls.push(call).drop_last() =~= calls);
    let refused = unknown_calls(specs, calls.push(call));
    if !visible(specs, call.name) {
        assert(refused.drop_last() =~= unknown_calls(specs, calls));
    }
}

/// Each answer in the place of its call is one that the dispatcher gave.
pub proof fn law_settled_results_are_given(order: Seq<Seq<char>>, results: Seq<ResultView>, i: int)
    requires
        0 <= i < settled(order, results).len(),
    ensures
        results.contains(settled(order, results)[i]),
{
    let index = indexed(results);
    let draw = drawn(order, index.by_id);
    lemma_indexed_from(results);
    lemma_drawn_from(order, index.by_id);
    let all = settled(order, results);
    if i < draw.ordered.len() {
        assert(all[i] == draw.ordered[i]);
        assert(index.by_id.contains(draw.ordered[i]));
        let k = choose|k: int| 0 <= k < index.by_id.len() && index.by_id[k] == draw.ordered[i];
        assert(results.contains(index.by_id[k]));
    } else if i < draw.ordered.len() + draw.left.len() {
        let n = i - draw.ordered.len();
        assert(all[i] == draw.left[n]);
        assert(index.by_id.contains(draw.left[n]));
        let k = choose|k: int| 0 <= k < index.by_id.len() && index.by_id[k] == draw.left[n];
        assert(results.contains(index.by_id[k]));
    } else {
        let n = i - draw.ordered.len() - draw.left.len();
        assert(all[i] == index.extras[n]);
        assert(results.contains(index.extras[n]));
    }
}

proof fn lemma_indexed_from(results: Seq<ResultView>)
    ensures
        forall|k: int|
            0 <= k < indexed(results).by_id.len() ==> results.contains(
                #[trigger] indexed(results).by_id[k],
            ),
        forall|k: int|
            0 <= k < indexed(results).extras.len() ==> results.contains(
                #[trigger] indexed(results).extras[k],
            ),
    decreases results.len(),
{
    if results.len() > 0 {
        let front = results.drop_last();
        let before = indexed(front);
        let index = indexed(results);
        lemma_indexed_from(front);
        assert(results[results.len() - 1] == results.last());
        assert forall|r: ResultView| #[trigger] front.contains(r) implies results.contains(r) by {
            let k = choose|k: int| 0 <= k < front.len() && front[k] == r;
            assert(results[k] == r);
        }
        text::lemma_place(result_ids(before.by_id), results.last().id);
        assert forall|k: int| 0 <= k < index.by_id.len() implies results.contains(
            #[trigger] index.by_id[k],
        ) by {
            if k < before.by_id.len() && index.by_id[k] == before.by_id[k] {
                assert(front.contains(before.by_id[k]));
            } else {
                assert(index.by_id[k] == results.last());
            }
        }
        assert forall|k: int| 0 <= k < index.extras.len() implies results.contains(
            #[trigger] index.extras[k],
        ) by {
            if k < before.extras.len() {
                assert(front.contains(before.extras[k]));
            } else {
                assert(index.extras[k] == results.last());
            }
        }
    }
}

proof fn lemma_drawn_from(order: Seq<Seq<char>>, by_id: Seq<ResultView>)
    ensures
        forall|k: int|
            0 <= k < drawn(order, by_id).ordered.len() ==> by_id.contains(
                #[trigger] drawn(order, by_id).ordered[k],
            ),
        forall|k: int|
            0 <= k < drawn(order, by_id).left.len() ==> by_id.contains(
                #[trigger] drawn(order, by_id).left[k],
            ),
    decreases order.len(),
{
    if order.len() > 0 {
        let before = drawn(order.drop_last(), by_id);
        let draw = drawn(order, by_id);
        lemma_drawn_from(order.drop_last(), by_id);
        text::lemma_place(result_ids(before.left), order.last());
        match text::place(result_ids(before.left), order.last()) {
            Some(at) => {
                assert forall|k: int| 0 <= k < draw.ordered.len() implies by_id.contains(
                    #[trigger] draw.ordered[k],
                ) by {
                    if k < before.ordered.len() {
                        assert(by_id.contains(before.ordered[k]));
                    } else {
                        assert(by_id.contains(before.left[at]));
                    }
                }
                assert forall|k: int| 0 <= k < draw.left.len() implies by_id.contains(
                    #[trigger] draw.left[k],
                ) by {
                    if k < at {
                        assert(by_id.contains(before.left[k]));
                    } else {
                        assert(by_id.contains(before.left[k + 1]));
                    }
                }
            },
            None => {},
        }
    }
}

proof fn lemma_indexed_one(results: Seq<ResultView>, id: Seq<char>)
    requires
        results.len() > 0,
        forall|i: int| 0 <= i < results.len() ==> (#[trigger] results[i]).id == id,
    ensures
        indexed(results).by_id == seq![results.last()],
        indexed(results).extras == results.skip(1),
    decreases results.len(),
{
    let front = results.drop_last();
    let before = indexed(front);
    assert(results[results.len() - 1].id == id);
    if front.len() == 0 {
        assert(before.by_id =~= seq![]);
        text::lemma_place(result_ids(before.by_id), results.last().id);
        assert(indexed(results).by_id =~= seq![results.last()]);
        assert(indexed(results).extras =~= results.skip(1));
    } else {
        assert forall|i: int| 0 <= i < front.len() implies (#[trigger] front[i]).id == id by {
            assert(front[i] == results[i]);
        }
        lemma_indexed_one(front, id);
        assert(front[front.len() - 1].id == id);
        assert(result_ids(before.by_id)[0] == id);
        text::lemma_place(result_ids(before.by_id), results.last().id);
        assert(indexed(results).by_id =~= seq![results.last()]);
        assert(indexed(results).extras =~= results.skip(1));
    }
}

/// Of several results for one call the last stands in its place, and every one but the first comes
/// again at the end: none is passed over in silence.
pub proof fn law_repeated_results_come_last(id: Seq<char>, results: Seq<ResultView>)
    requires
        results.len() > 0,
        forall|i: int| 0 <= i < results.len() ==> (#[trigger] results[i]).id == id,
    ensures
        settled(seq![id], results) == seq![results.last()] + results.skip(1),
{
    lemma_indexed_one(results, id);
    let by_id = indexed(results).by_id;
    let order = seq![id];
    assert(order.drop_last() =~= seq![]);
    assert(drawn(order.drop_last(), by_id).left == by_id);
    assert(results[results.len() - 1].id == id);
    assert(result_ids(by_id)[0] == id);
    text::lemma_place(result_ids(by_id), id);
    let draw = drawn(order, by_id);
    assert(draw.ordered =~= seq![results.last()]);
    assert(draw.left =~= seq![]);
    assert(settled(order, results) =~= seq![results.last()] + results.skip(1));
}

/// Results of no call are kept, in the order they came in, where no two are of one.
pub proof fn law_strays_are_kept(results: Seq<ResultView>)
    requires
        forall|i: int, j: int|
            0 <= i < j < results.len() ==> (#[trigger] results[i]).id != (#[trigger] results[j]).id,
    ensures
        settled(seq![], results) == results,
{
    lemma_indexed_distinct(results);
    assert(settled(seq![], results) =~= results);
}

/// Plans that differ in their tools or in whether calls may run side by side are different bytes.
pub proof fn law_plans_are_told_apart(a: Seq<char>, a_parallel: bool, b: Seq<char>, b_parallel: bool)
    requires
        plan_bytes(a, a_parallel) == plan_bytes(b, b_parallel),
    ensures
        a_parallel == b_parallel,
        vstd::utf8::encode_utf8(a) == vstd::utf8::encode_utf8(b),
{
    let left = plan_bytes(a, a_parallel);
    let right = plan_bytes(b, b_parallel);
    assert(left[0] == right[0]);
    assert(left.skip(1) =~= vstd::utf8::encode_utf8(a));
    assert(right.skip(1) =~= vstd::utf8::encode_utf8(b));
}

} // verus!
