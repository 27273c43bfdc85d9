//! The events of a run, as clients see them: data, no presentation.
use crate::compaction::CompactKind;
use crate::error::AgentError;
use crate::json::Json;
use crate::message::{ToolCallId, ToolErrorKind};
use crate::permission::PermissionMode;
use crate::provider::{ErrorClass, TokenUsage};
use crate::provider_extension::ProviderExtension;
use crate::quota::QuotaSnapshot;
use crate::response_item::{ResponseItem, ResponseItemPhase};
use crate::response_metadata::ResponseMetadata;
use crate::tokenizer;
use crate::tools;
use crate::tools::{ModelToolResult, ToolExecution, ToolResultStatus, ToolResultTruncation};
use crate::transition::ExhaustReason;
use base64::Engine;
use vstd::prelude::*;
use vstd::string::*;

verus! {

/// One event of a run.
#[derive(Debug, Clone, PartialEq, Eq)]
pub enum AgentEvent {
    /// The stream was given up before it was committed; what was shown of it is void.
    StreamReset,
    Text(String),
    Reasoning(String),
    ReasoningReplayDisabled { reason: String },
    ResponseMetadata(Box<ResponseMetadata>),
    ResponseItem { phase: ResponseItemPhase, output_index: Option<u64>, item: Box<ResponseItem> },
    ProviderExtension(ProviderExtension),
    /// An item of a kind that no adapter reads: reported, so that silence does not look like
    /// an empty answer.
    UnmappedResponseItem { item_type: String, extension: Option<ProviderExtension> },
    RetryScheduled(RetryScheduledView),
    CredentialRefresh(CredentialRefreshView),
    ToolCall(ToolCallView),
    ToolOutputDelta(ToolOutputDeltaView),
    ToolResult(ToolResultView),
    Compacted(CompactKind),
    ModelTurn(ModelTurnView),
    TurnDiff(TurnDiffView),
    Quota(QuotaSnapshot),
    Plan(PlanView),
    PermissionAsk(PermissionReq),
    Hook(HookRunView),
    EndTurn,
    Interrupted(InterruptedView),
    Exhausted(ExhaustReason),
    Error(AgentError),
}

/// Why a turn stopped short, and what it cost before.
#[derive(Debug, Clone, Copy, PartialEq, Eq, Structural)]
pub struct InterruptedView {
    pub reason: InterruptReason,
    pub started_at_ms: Option<u64>,
    pub completed_at_ms: Option<u64>,
    pub duration_ms: Option<u64>,
    /// Tool calls that had no result and got one written for them.
    pub reconciled_tool_calls: u32,
}

#[derive(Debug, Clone, Copy, PartialEq, Eq, Structural)]
pub enum InterruptReason {
    /// The client asked for it.
    Cancelled,
    /// The user refused a tool call and ended the turn with that.
    ToolAborted,
}

impl InterruptedView {
    /// A cancellation of which no time was observed.
    pub fn cancelled() -> (view: InterruptedView)
        ensures
            view == (InterruptedView {
                reason: InterruptReason::Cancelled,
                started_at_ms: None,
                completed_at_ms: None,
                duration_ms: None,
                reconciled_tool_calls: 0,
            }),
    {
        InterruptedView {
            reason: InterruptReason::Cancelled,
            started_at_ms: None,
            completed_at_ms: None,
            duration_ms: None,
            reconciled_tool_calls: 0,
        }
    }
}

/// A provider opening that is planned out of the attempts of one sampling.
#[derive(Debug, Clone, PartialEq, Eq)]
pub struct RetryScheduledView {
    pub turn_id: Option<String>,
    /// Sampling within the turn, counted from one.
    pub step: u32,
    /// The opening that follows, counted from one.
    pub ordinal: u32,
    pub max_attempts: u32,
    pub cause: ErrorClass,
    pub delay_ms: u64,
    pub fallback_model: Option<String>,
    pub prompt_fingerprint: String,
    pub model_runtime_fingerprint: String,
    pub tool_plan_fingerprint: String,
}

#[derive(Debug, Clone, Copy, PartialEq, Eq, Structural)]
pub enum CredentialRefreshOutcome {
    Started,
    Succeeded,
    Permanent,
    Transient,
    Unavailable,
    /// It failed without a cause of its own.
    Rejected,
    Cancelled,
}

#[derive(Debug, Clone, PartialEq, Eq)]
pub struct CredentialRefreshView {
    pub turn_id: Option<String>,
    pub step: u32,
    pub attempt_ordinal: u32,
    pub outcome: CredentialRefreshOutcome,
}

/// What kind of act a tool call is.
#[derive(Debug, Clone, PartialEq, Eq)]
pub enum ToolCallKind {
    Other,
    Exec { command: String, cwd: Option<String> },
    Patch { paths: Vec<String> },
    Mcp { server: String, tool: String },
}

impl Default for ToolCallKind {
    fn default() -> (kind: Self)
        ensures
            kind is Other,
    {
        ToolCallKind::Other
    }
}

#[derive(Debug, Clone, PartialEq, Eq)]
pub struct ToolCallView {
    pub id: ToolCallId,
    pub name: String,
    pub input: Json,
    pub kind: ToolCallKind,
}

/// Which of its two streams a process wrote to.
#[derive(Debug, Clone, Copy, PartialEq, Eq, Structural)]
pub enum OutputStream {
    Stdout,
    Stderr,
}

/// A part of the output of a tool that still runs: the bytes as the process wrote them.
#[derive(Debug, Clone, PartialEq, Eq)]
pub struct ToolOutputDeltaView {
    pub id: ToolCallId,
    pub stream: OutputStream,
    pub chunk: Vec<u8>,
}

/// The text that `String::from_utf8_lossy` makes of bytes.
pub uninterp spec fn lossy_text(bytes: Seq<u8>) -> Seq<char>;

/// `String::from_utf8_lossy`: bytes that are the encoding of a text give that text; what stands
/// for other bytes is named, not spelled out.
#[verifier::external_body]
fn from_utf8_lossy(bytes: &Vec<u8>) -> (text: String)
    ensures
        text@ == lossy_text(bytes@),
        vstd::utf8::valid_utf8(bytes@) ==> text@ == vstd::utf8::decode_utf8(bytes@),
{
    String::from_utf8_lossy(bytes).into_owned()
}

/// The base64 text of bytes, in the standard alphabet and with padding.
pub uninterp spec fn base64_text(bytes: Seq<u8>) -> Seq<char>;

/// The bytes of a base64 text in the standard alphabet and with padding, if it is one.
pub uninterp spec fn base64_bytes(text: Seq<char>) -> Option<Seq<u8>>;

/// `base64::engine::general_purpose::STANDARD.encode`: what it writes is named, and the decoder
/// of the same engine reads it back. It panics where the length of the result does not fit.
#[verifier::external_body]
fn base64_encode(bytes: &Vec<u8>) -> (text: String)
    requires
        bytes@.len() / 3 * 4 + 4 <= usize::MAX,
    ensures
        text@ == base64_text(bytes@),
        base64_bytes(text@) == Some(bytes@),
{
    base64::engine::general_purpose::STANDARD.encode(bytes)
}

/// `base64::engine::general_purpose::STANDARD.decode`: what it reads is named; of its error only
/// that there is one.
#[verifier::external_body]
fn base64_decode(text: &str) -> (read: Option<Vec<u8>>)
    ensures
        match read {
            Some(bytes) => base64_bytes(text@) == Some(bytes@),
            None => base64_bytes(text@) is None,
        },
{
    base64::engine::general_purpose::STANDARD.decode(text.as_bytes()).ok()
}

impl ToolOutputDeltaView {
    /// The fragment as text, with a mark in place of what is none.
    pub fn chunk_lossy(&self) -> (text: String)
        ensures
            text@ == lossy_text(self.chunk@),
            vstd::utf8::valid_utf8(self.chunk@) ==> text@ == vstd::utf8::decode_utf8(self.chunk@),
    {
        from_utf8_lossy(&self.chunk)
    }

    /// The fragment as it stands in an event on the wire.
    pub fn encoded_chunk(&self) -> (text: String)
        requires
            self.chunk@.len() / 3 * 4 + 4 <= usize::MAX,
        ensures
            text@ == base64_text(self.chunk@),
            base64_bytes(text@) == Some(self.chunk@),
    {
        base64_encode(&self.chunk)
    }

    /// The fragment of an event on the wire; `None` where the text is no base64.
    pub fn from_encoded(id: &str, stream: OutputStream, encoded: &str) -> (view: Option<
        ToolOutputDeltaView,
    >)
        ensures
            match view {
                Some(delta) => delta.id@ == id@ && delta.stream == stream && base64_bytes(encoded@)
                    == Some(delta.chunk@),
                None => base64_bytes(encoded@) is None,
            },
    {
        match base64_decode(encoded) {
            Some(chunk) => Some(ToolOutputDeltaView { id: id.to_owned(), stream, chunk }),
            None => None,
        }
    }
}

/// The result of a tool call, as clients see it.
#[derive(Debug, Clone, PartialEq, Eq)]
pub struct ToolResultView {
    pub id: ToolCallId,
    pub content: String,
    pub status: Option<ToolResultStatus>,
    pub structured_content: Option<Json>,
    pub is_error: bool,
    pub error_kind: Option<ToolErrorKind>,
    pub untrusted: bool,
    pub duration_ms: Option<u64>,
    pub truncation: Option<ToolResultTruncation>,
    pub execution: Option<ToolExecution>,
}

impl ToolResultView {
    /// Whether the view tells every fact of a result but its images.
    pub open spec fn tells(self, result: ModelToolResult) -> bool {
        &&& self.id == result.id
        &&& self.content == result.content
        &&& self.status == Some(result.status)
        &&& tools::opt_json(self.structured_content) == tools::opt_json(result.structured_content)
        &&& self.is_error == result.is_error
        &&& self.error_kind == result.error_kind
        &&& self.untrusted == result.untrusted
        &&& self.duration_ms == result.duration_ms
        &&& self.truncation == result.truncation
        &&& self.execution == result.execution
    }

    /// The view of a result: every fact of it but its images.
    pub fn from_model(result: &ModelToolResult) -> (view: ToolResultView)
        ensures
            view.tells(*result),
    {
        ToolResultView {
            id: result.id.clone(),
            content: result.content.clone(),
            status: Some(result.status),
            structured_content: tools::clone_opt_json(&result.structured_content),
            is_error: result.is_error,
            error_kind: result.error_kind,
            untrusted: result.untrusted,
            duration_ms: result.duration_ms,
            truncation: match &result.truncation {
                Some(truncation) => Some(truncation.clone()),
                None => None,
            },
            execution: match &result.execution {
                Some(execution) => Some(execution.clone()),
                None => None,
            },
        }
    }
}

/// The end of a model round-trip. The counters add up since the start of the run.
#[derive(Debug, Clone, Copy, PartialEq, Eq, Structural)]
pub struct ModelTurnView {
    /// The model turn that ended, counted from one.
    pub index: u32,
    pub input_tokens: u64,
    pub output_tokens: u64,
    /// What the backend reported of this round-trip, where it reported something.
    pub last_usage: Option<TokenUsage>,
    /// The sum of the reported round-trips.
    pub total_usage: TokenUsage,
    pub context_tokens: Option<u64>,
    pub context_window: Option<u32>,
    pub auto_compact_token_limit: Option<u32>,
    pub estimated_context_tokens: Option<u32>,
}

impl Default for ModelTurnView {
    fn default() -> (view: Self)
        ensures
            view == (ModelTurnView {
                index: 0,
                input_tokens: 0,
                output_tokens: 0,
                last_usage: None,
                total_usage: TokenUsage::new_spec(0, 0),
                context_tokens: None,
                context_window: None,
                auto_compact_token_limit: None,
                estimated_context_tokens: None,
            }),
    {
        ModelTurnView {
            index: 0,
            input_tokens: 0,
            output_tokens: 0,
            last_usage: None,
            total_usage: TokenUsage::new(0, 0),
            context_tokens: None,
            context_window: None,
            auto_compact_token_limit: None,
            estimated_context_tokens: None,
        }
    }
}

/// The difference that a turn made to files.
#[derive(Debug, Clone, PartialEq, Eq, Default)]
pub struct TurnDiffView {
    pub files: Vec<FileDiffView>,
}

#[derive(Debug, Clone, PartialEq, Eq)]
pub struct FileDiffView {
    pub path: String,
    pub change: FileChange,
    pub added_lines: u32,
    pub removed_lines: u32,
    pub unified: Option<String>,
    pub moved_from: Option<String>,
}

#[derive(Debug, Clone, Copy, PartialEq, Eq, Structural)]
pub enum FileChange {
    Added,
    Modified,
    Deleted,
    Renamed,
}

/// The lines added in all these files.
pub open spec fn added(files: Seq<FileDiffView>) -> nat
    decreases files.len(),
{
    if files.len() == 0 {
        0
    } else {
        added(files.drop_last()) + files.last().added_lines as nat
    }
}

/// The lines removed in all these files.
pub open spec fn removed(files: Seq<FileDiffView>) -> nat
    decreases files.len(),
{
    if files.len() == 0 {
        0
    } else {
        removed(files.drop_last()) + files.last().removed_lines as nat
    }
}

impl TurnDiffView {
    pub fn is_empty(&self) -> (yes: bool)
        ensures
            yes == (self.files@.len() == 0),
    {
        self.files.len() == 0
    }

    /// The lines added and the lines removed, over all files.
    pub fn totals(&self) -> (totals: (u32, u32))
        ensures
            totals.0 == tokenizer::capped_u32(added(self.files@)),
            totals.1 == tokenizer::capped_u32(removed(self.files@)),
    {
        let mut plus: u32 = 0;
        let mut minus: u32 = 0;
        let mut i: usize = 0;
        while i < self.files.len()
            invariant
                i <= self.files.len(),
                plus == tokenizer::capped_u32(added(self.files@.take(i as int))),
                minus == tokenizer::capped_u32(removed(self.files@.take(i as int))),
            decreases self.files.len() - i,
        {
            assert(self.files@.take(i + 1).drop_last() =~= self.files@.take(i as int));
            plus = plus.saturating_add(self.files[i].added_lines);
            minus = minus.saturating_add(self.files[i].removed_lines);
            i += 1;
        }
        assert(self.files@.take(i as int) =~= self.files@);
        (plus, minus)
    }
}

/// The plan of a task, as the model states it.
#[derive(Debug, Clone, PartialEq, Eq, Default)]
pub struct PlanView {
    pub explanation: Option<String>,
    pub steps: Vec<PlanStep>,
}

#[derive(Debug, Clone, PartialEq, Eq)]
pub struct PlanStep {
    pub step: String,
    pub status: PlanStatus,
}

#[derive(Debug, Clone, Copy, PartialEq, Eq, Structural)]
pub enum PlanStatus {
    Pending,
    InProgress,
    Completed,
}

/// How a hook ended.
#[derive(Debug, Clone, Copy, PartialEq, Eq, Structural)]
pub enum HookRunStatus {
    Completed,
    Blocked,
    Failed,
}

#[derive(Debug, Clone, PartialEq, Eq)]
pub struct HookRunView {
    pub event: String,
    pub tool: Option<String>,
    pub status: HookRunStatus,
    pub message: Option<String>,
}

/// A question to the user, raised under a permission mode.
#[derive(Debug, Clone, PartialEq, Eq)]
pub struct PermissionReq {
    pub call_id: ToolCallId,
    pub tool: String,
    pub reason: String,
    pub taint_forced: bool,
    pub input_summary: String,
    pub input: Json,
    pub mode: PermissionMode,
}

/// Lines are counted over all files.
pub proof fn law_lines_add_up(files: Seq<FileDiffView>, file: FileDiffView)
    ensures
        added(files.push(file)) == added(files) + file.added_lines,
        removed(files.push(file)) == removed(files) + file.removed_lines,
        added(Seq::<FileDiffView>::empty()) == 0 && removed(Seq::<FileDiffView>::empty()) == 0,
{
    assert(files.push(file).drop_last() =~= files);
}

/// Clients are told of a result what the model is.
pub proof fn law_clients_read_what_the_model_reads(view: ToolResultView, result: ModelToolResult)
    requires
        view.tells(result),
    ensures
        view.id@ == result.id@ && view.content@ == result.content@,
        view.status == Some(result.status) && view.is_error == result.is_error,
        view.error_kind == result.error_kind && view.untrusted == result.untrusted,
        view.duration_ms == result.duration_ms,
{
}

} // verus!
