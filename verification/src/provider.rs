//! The streaming vocabulary of a provider, its capabilities and its errors.
use crate::first;
use crate::json::Json;
use crate::message;
use crate::message::{BlockView, ContentBlock, ToolCallFormat};
use crate::provider_extension::ProviderExtension;
use crate::quota::QuotaSnapshot;
use crate::request::CanonicalRequest;
use crate::response_item::{ResponseItem, ResponseItemPhase};
use crate::response_metadata::ResponseMetadata;
use crate::text;
use crate::tool_spec::{KindView, SpecView, ToolKind, ToolSpec};
use vstd::prelude::*;
use vstd::string::*;

verus! {

#[derive(Debug, Clone, Copy, PartialEq, Eq, Structural)]
pub enum ProviderKind {
    Anthropic,
    OpenAiChat,
    OpenAiChatGpt,
    OpenAiResponses,
    AmazonBedrock,
    Gemini,
    OpenRouter,
}

/// The one streaming vocabulary. Fragments can be seen as they come; a complete input sent later
/// replaces them before the call ends.
#[derive(Debug, Clone, PartialEq, Eq)]
pub enum StreamEvent {
    TextDelta { text: String },
    ReasoningDelta { text: String },
    ToolCallStart { id: String, name: String, format: ToolCallFormat },
    ToolCallDelta { id: String, input_delta: String },
    ToolCallInputDone { id: String, input: String },
    ToolCallEnd { id: String },
    Usage { usage: TokenUsage },
    Done { stop: StopReason },
    EncryptedReasoning { id: String, encrypted_content: String },
    ReasoningReplayDisabled { reason: String },
    Quota { snapshot: QuotaSnapshot },
    ResponseMetadata { metadata: Box<ResponseMetadata> },
    ResponseItem { phase: ResponseItemPhase, output_index: Option<u64>, item: Box<ResponseItem> },
    ProviderExtension { extension: ProviderExtension },
    UnmappedItem { item_type: String, item_extension: Option<ProviderExtension> },
}

impl StreamEvent {
    /// The start of a call with JSON arguments.
    pub fn tool_call_start(id: &str, name: &str) -> (event: StreamEvent)
        ensures
            event matches StreamEvent::ToolCallStart { id: i, name: n, format } && i@ == id@ && n@
                == name@ && format == ToolCallFormat::Json,
    {
        StreamEvent::ToolCallStart {
            id: id.to_owned(),
            name: name.to_owned(),
            format: ToolCallFormat::Json,
        }
    }

    /// The start of a freeform call.
    pub fn custom_tool_call_start(id: &str, name: &str) -> (event: StreamEvent)
        ensures
            event matches StreamEvent::ToolCallStart { id: i, name: n, format } && i@ == id@ && n@
                == name@ && format == ToolCallFormat::Text,
    {
        StreamEvent::ToolCallStart {
            id: id.to_owned(),
            name: name.to_owned(),
            format: ToolCallFormat::Text,
        }
    }
}

// ---------------------------------------------------------------- usage

/// The tokens of one round-trip. `input` counts the cached prefix too.
#[derive(Debug, Clone, Copy, PartialEq, Eq, Structural)]
pub struct TokenUsage {
    pub input: u64,
    pub cached_input: u64,
    pub cache_write_input: u64,
    pub output: u64,
    pub reasoning_output: u64,
    /// The total as the backend reports it; zero where it reports none.
    pub total: u64,
}

/// A sum that stops at the largest number.
pub open spec fn capped_sum(a: u64, b: u64) -> u64 {
    if a + b <= u64::MAX {
        (a + b) as u64
    } else {
        u64::MAX
    }
}

impl Default for TokenUsage {
    fn default() -> (usage: Self)
        ensures
            usage == (TokenUsage {
                input: 0,
                cached_input: 0,
                cache_write_input: 0,
                output: 0,
                reasoning_output: 0,
                total: 0,
            }),
    {
        TokenUsage {
            input: 0,
            cached_input: 0,
            cache_write_input: 0,
            output: 0,
            reasoning_output: 0,
            total: 0,
        }
    }
}

impl TokenUsage {
    /// The reported total, or the sum of both directions where none is reported.
    pub open spec fn total_tokens(self) -> u64 {
        if self.total == 0 {
            capped_sum(self.input, self.output)
        } else {
            self.total
        }
    }

    /// Both counts added, field by field; the total is the sum of both totals.
    pub open spec fn plus(self, other: TokenUsage) -> TokenUsage {
        TokenUsage {
            input: capped_sum(self.input, other.input),
            cached_input: capped_sum(self.cached_input, other.cached_input),
            cache_write_input: capped_sum(self.cache_write_input, other.cache_write_input),
            output: capped_sum(self.output, other.output),
            reasoning_output: capped_sum(self.reasoning_output, other.reasoning_output),
            total: capped_sum(self.total_tokens(), other.total_tokens()),
        }
    }

    /// The counts of a provider that reports both directions alone.
    pub fn new(input: u64, output: u64) -> (usage: TokenUsage)
        ensures
            usage == (TokenUsage {
                input,
                cached_input: 0,
                cache_write_input: 0,
                output,
                reasoning_output: 0,
                total: 0,
            }),
    {
        TokenUsage {
            input,
            cached_input: 0,
            cache_write_input: 0,
            output,
            reasoning_output: 0,
            total: 0,
        }
    }

    pub fn total(&self) -> (total: u64)
        ensures
            total == self.total_tokens(),
    {
        if self.total == 0 {
            self.input.saturating_add(self.output)
        } else {
            self.total
        }
    }

    pub fn is_zero(&self) -> (yes: bool)
        ensures
            yes == (self.total_tokens() == 0),
    {
        self.total() == 0
    }

    /// The input paid for at full price.
    pub fn non_cached_input(&self) -> (tokens: u64)
        ensures
            tokens == if self.input >= self.cached_input {
                self.input - self.cached_input
            } else {
                0
            },
    {
        self.input.saturating_sub(self.cached_input)
    }

    /// What the round-trip cost beyond the cache.
    pub fn blended_total(&self) -> (tokens: u64)
        ensures
            tokens == capped_sum(
                if self.input >= self.cached_input {
                    (self.input - self.cached_input) as u64
                } else {
                    0
                },
                self.output,
            ),
    {
        self.non_cached_input().saturating_add(self.output)
    }

    /// Adds another round-trip, field by field. A backend without a total of its own does not make
    /// the sum collapse.
    pub fn add_assign(&mut self, other: &TokenUsage)
        ensures
            *final(self) == old(self).plus(*other),
    {
        let total: u64 = self.total().saturating_add(other.total());
        self.input = self.input.saturating_add(other.input);
        self.cached_input = self.cached_input.saturating_add(other.cached_input);
        self.cache_write_input = self.cache_write_input.saturating_add(other.cache_write_input);
        self.output = self.output.saturating_add(other.output);
        self.reasoning_output = self.reasoning_output.saturating_add(other.reasoning_output);
        self.total = total;
    }
}

/// The total of a sum is the sum of the totals, whether or not a backend reports its own: a run
/// costs what its round-trips cost together.
pub proof fn law_totals_add_up(a: TokenUsage, b: TokenUsage)
    ensures
        a.plus(b).total_tokens() == capped_sum(a.total_tokens(), b.total_tokens()),
{
}

/// The cost of round-trips that were added up one after the other.
pub open spec fn usage_sum(usages: Seq<TokenUsage>) -> TokenUsage
    decreases usages.len(),
{
    if usages.len() == 0 {
        TokenUsage {
            input: 0,
            cached_input: 0,
            cache_write_input: 0,
            output: 0,
            reasoning_output: 0,
            total: 0,
        }
    } else {
        usage_sum(usages.drop_last()).plus(usages.last())
    }
}

/// The totals of some round-trips, added without a limit.
pub open spec fn total_sum(usages: Seq<TokenUsage>) -> nat
    decreases usages.len(),
{
    if usages.len() == 0 {
        0
    } else {
        total_sum(usages.drop_last()) + usages.last().total_tokens() as nat
    }
}

/// The total of a run is the sum of the totals of its round-trips, up to the largest number.
pub proof fn law_run_total_is_the_sum(usages: Seq<TokenUsage>)
    ensures
        usage_sum(usages).total_tokens() == if total_sum(usages) <= u64::MAX {
            total_sum(usages)
        } else {
            u64::MAX as nat
        },
    decreases usages.len(),
{
    if usages.len() > 0 {
        law_run_total_is_the_sum(usages.drop_last());
        law_totals_add_up(usage_sum(usages.drop_last()), usages.last());
    }
}

#[derive(Debug, Clone, Copy, PartialEq, Eq, Structural)]
pub enum StopReason {
    EndTurn,
    Continue,
    ToolUse,
    MaxTokens,
    ContentFilter,
    IncompleteUnknown,
    StopSequence,
    Refusal,
}

impl StopReason {
    pub open spec fn word(self) -> &'static str {
        match self {
            StopReason::EndTurn => "EndTurn",
            StopReason::Continue => "Continue",
            StopReason::ToolUse => "ToolUse",
            StopReason::MaxTokens => "MaxTokens",
            StopReason::ContentFilter => "ContentFilter",
            StopReason::IncompleteUnknown => "IncompleteUnknown",
            StopReason::StopSequence => "StopSequence",
            StopReason::Refusal => "Refusal",
        }
    }

    /// The reason as a word.
    pub fn name(self) -> (word: &'static str)
        ensures
            word == self.word(),
    {
        match self {
            StopReason::EndTurn => "EndTurn",
            StopReason::Continue => "Continue",
            StopReason::ToolUse => "ToolUse",
            StopReason::MaxTokens => "MaxTokens",
            StopReason::ContentFilter => "ContentFilter",
            StopReason::IncompleteUnknown => "IncompleteUnknown",
            StopReason::StopSequence => "StopSequence",
            StopReason::Refusal => "Refusal",
        }
    }
}

/// A response that is not streamed.
#[derive(Debug, Clone, PartialEq, Eq)]
pub struct CanonicalResponse {
    pub content: Vec<ContentBlock>,
    pub usage: TokenUsage,
    pub stop: StopReason,
}

/// The response gathered from a stream: its text in order, the last usage and the last stop.
#[derive(Debug, PartialEq, Eq)]
pub struct ResponseFold {
    pub text: String,
    pub usage: TokenUsage,
    pub stop: StopReason,
}

impl ResponseFold {
    pub fn new() -> (fold: ResponseFold)
        ensures
            fold.text@.len() == 0,
            fold.usage == TokenUsage::new_spec(0, 0),
            fold.stop == StopReason::EndTurn,
    {
        ResponseFold {
            text: String::new(),
            usage: TokenUsage::new(0, 0),
            stop: StopReason::EndTurn,
        }
    }

    /// Folds in one event; events of other kinds change nothing.
    pub fn push(&mut self, event: &StreamEvent)
        ensures
            final(self).text@ == match event {
                StreamEvent::TextDelta { text } => old(self).text@ + text@,
                _ => old(self).text@,
            },
            final(self).usage == match event {
                StreamEvent::Usage { usage } => *usage,
                _ => old(self).usage,
            },
            final(self).stop == match event {
                StreamEvent::Done { stop } => *stop,
                _ => old(self).stop,
            },
    {
        match event {
            StreamEvent::TextDelta { text } => {
                self.text.append(text.as_str());
            },
            StreamEvent::Usage { usage } => {
                self.usage = *usage;
            },
            StreamEvent::Done { stop } => {
                self.stop = *stop;
            },
            _ => {},
        }
    }

    /// The response: one text block.
    pub fn finish(self) -> (response: CanonicalResponse)
        ensures
            message::block_views(response.content@) == seq![BlockView::Text { text: self.text@ }],
            response.usage == self.usage,
            response.stop == self.stop,
    {
        let ghost text = self.text@;
        let content = vec![ContentBlock::Text { text: self.text }];
        assert(message::block_views(content@) =~= seq![BlockView::Text { text }]);
        CanonicalResponse { content, usage: self.usage, stop: self.stop }
    }
}

impl TokenUsage {
    pub open spec fn new_spec(input: u64, output: u64) -> TokenUsage {
        TokenUsage {
            input,
            cached_input: 0,
            cache_write_input: 0,
            output,
            reasoning_output: 0,
            total: 0,
        }
    }
}

// ---------------------------------------------------------------- errors

/// The provider-neutral categories of a failure.
#[derive(Debug, Clone, Copy, PartialEq, Eq, Structural)]
pub enum ProviderErrorCategory {
    ContextOverflow,
    Quota,
    UsageNotIncluded,
    CyberPolicy,
    InvalidPrompt,
    InvalidImage,
    RateLimited,
    Overloaded,
    Authentication,
    PermissionDenied,
    Incomplete,
    InvalidRequest,
    Failed,
}

impl ProviderErrorCategory {
    pub open spec fn word(self) -> &'static str {
        match self {
            ProviderErrorCategory::ContextOverflow => "ContextOverflow",
            ProviderErrorCategory::Quota => "Quota",
            ProviderErrorCategory::UsageNotIncluded => "UsageNotIncluded",
            ProviderErrorCategory::CyberPolicy => "CyberPolicy",
            ProviderErrorCategory::InvalidPrompt => "InvalidPrompt",
            ProviderErrorCategory::InvalidImage => "InvalidImage",
            ProviderErrorCategory::RateLimited => "RateLimited",
            ProviderErrorCategory::Overloaded => "Overloaded",
            ProviderErrorCategory::Authentication => "Authentication",
            ProviderErrorCategory::PermissionDenied => "PermissionDenied",
            ProviderErrorCategory::Incomplete => "Incomplete",
            ProviderErrorCategory::InvalidRequest => "InvalidRequest",
            ProviderErrorCategory::Failed => "Failed",
        }
    }

    /// The category as a word.
    pub fn name(self) -> (word: &'static str)
        ensures
            word == self.word(),
    {
        match self {
            ProviderErrorCategory::ContextOverflow => "ContextOverflow",
            ProviderErrorCategory::Quota => "Quota",
            ProviderErrorCategory::UsageNotIncluded => "UsageNotIncluded",
            ProviderErrorCategory::CyberPolicy => "CyberPolicy",
            ProviderErrorCategory::InvalidPrompt => "InvalidPrompt",
            ProviderErrorCategory::InvalidImage => "InvalidImage",
            ProviderErrorCategory::RateLimited => "RateLimited",
            ProviderErrorCategory::Overloaded => "Overloaded",
            ProviderErrorCategory::Authentication => "Authentication",
            ProviderErrorCategory::PermissionDenied => "PermissionDenied",
            ProviderErrorCategory::Incomplete => "Incomplete",
            ProviderErrorCategory::InvalidRequest => "InvalidRequest",
            ProviderErrorCategory::Failed => "Failed",
        }
    }
}

/// The class of an error, which decides what follows it.
#[derive(Debug, Clone, Copy, PartialEq, Eq, Structural)]
pub enum ErrorClass {
    Retryable,
    RateLimited,
    Overloaded(u16),
    /// Reopened only after reactive compaction, within the same budget of attempts.
    ContextLimit,
    /// Reopened without encrypted reasoning, within the same budget of attempts.
    ReasoningReplayRejected,
    Auth(AuthError),
    InvalidRequest,
}

#[derive(Debug, Clone, Copy, PartialEq, Eq, Structural)]
pub enum AuthError {
    Expired,
    ThirdPartyBlocked,
    Invalid,
    ReconnectRequired,
    RecoveryPermanent,
    RecoveryTransient,
    RecoveryUnavailable,
}

impl AuthError {
    pub open spec fn word(self) -> &'static str {
        match self {
            AuthError::Expired => "Expired",
            AuthError::ThirdPartyBlocked => "ThirdPartyBlocked",
            AuthError::Invalid => "Invalid",
            AuthError::ReconnectRequired => "ReconnectRequired",
            AuthError::RecoveryPermanent => "RecoveryPermanent",
            AuthError::RecoveryTransient => "RecoveryTransient",
            AuthError::RecoveryUnavailable => "RecoveryUnavailable",
        }
    }

    /// The error as a word.
    pub fn name(self) -> (word: &'static str)
        ensures
            word == self.word(),
    {
        match self {
            AuthError::Expired => "Expired",
            AuthError::ThirdPartyBlocked => "ThirdPartyBlocked",
            AuthError::Invalid => "Invalid",
            AuthError::ReconnectRequired => "ReconnectRequired",
            AuthError::RecoveryPermanent => "RecoveryPermanent",
            AuthError::RecoveryTransient => "RecoveryTransient",
            AuthError::RecoveryUnavailable => "RecoveryUnavailable",
        }
    }
}

/// What can go wrong at a provider.
#[derive(Debug, PartialEq, Eq)]
pub enum ProviderError {
    Transport(String),
    Http { status: u16, message: String, retry_after_ms: Option<u64> },
    Api {
        category: ProviderErrorCategory,
        api_status: Option<u16>,
        message: String,
        retry_after_ms: Option<u64>,
        request_id: Option<String>,
        auth_request_id: Option<String>,
    },
    Decode(String),
    Stream(String),
    Credential(AuthError),
    UnsupportedTool { tool: String, reason: String },
    UnsupportedCapability { capability: String, reason: String },
    ContextLengthExceeded,
}

impl ProviderError {
    /// An error of the context, which is withheld and never retried as it is.
    pub open spec fn of_context(self) -> bool {
        match self {
            ProviderError::ContextLengthExceeded => true,
            ProviderError::Http { status, .. } => status == 413,
            ProviderError::Api { category, .. } => category
                == ProviderErrorCategory::ContextOverflow,
            _ => false,
        }
    }

    pub open spec fn text(self) -> Seq<char> {
        match self {
            ProviderError::Transport(detail) => "transport: "@ + detail@,
            ProviderError::Http { status, message, .. } => "http "@ + text::decimal(status as nat)
                + ": "@ + message@,
            ProviderError::Api { category, message, .. } => "provider "@ + category.word()@ + ": "@
                + message@,
            ProviderError::Decode(detail) => "decode: "@ + detail@,
            ProviderError::Stream(detail) => "stream interrupted: "@ + detail@,
            ProviderError::Credential(error) => "credential: "@ + error.word()@,
            ProviderError::UnsupportedTool { tool, reason } => "tool "@ + tool@
                + " is unsupported: "@ + reason@,
            ProviderError::UnsupportedCapability { capability, reason } => "capability "@
                + capability@ + " is unsupported: "@ + reason@,
            ProviderError::ContextLengthExceeded => "context too long (PTL/413)"@,
        }
    }

    /// Whether the context is at fault.
    pub fn is_context_error(&self) -> (yes: bool)
        ensures
            yes == self.of_context(),
    {
        match self {
            ProviderError::ContextLengthExceeded => true,
            ProviderError::Http { status, .. } => *status == 413,
            ProviderError::Api { category, .. } => *category
                == ProviderErrorCategory::ContextOverflow,
            _ => false,
        }
    }

    /// The error in words.
    pub fn message(&self) -> (message: String)
        ensures
            message@ == self.text(),
    {
        match self {
            ProviderError::Transport(detail) => text::joined("transport: ", detail.as_str(), "", ""),
            ProviderError::Http { status, message, .. } => {
                let number = text::decimal_of(*status as u128);
                text::joined("http ", number.as_str(), ": ", message.as_str())
            },
            ProviderError::Api { category, message, .. } => text::joined(
                "provider ",
                category.name(),
                ": ",
                message.as_str(),
            ),
            ProviderError::Decode(detail) => text::joined("decode: ", detail.as_str(), "", ""),
            ProviderError::Stream(detail) => text::joined("stream interrupted: ", detail.as_str(), "", ""),
            ProviderError::Credential(error) => text::joined("credential: ", error.name(), "", ""),
            ProviderError::UnsupportedTool { tool, reason } => text::joined(
                "tool ",
                tool.as_str(),
                " is unsupported: ",
                reason.as_str(),
            ),
            ProviderError::UnsupportedCapability { capability, reason } => text::joined(
                "capability ",
                capability.as_str(),
                " is unsupported: ",
                reason.as_str(),
            ),
            ProviderError::ContextLengthExceeded => "context too long (PTL/413)".to_owned(),
        }
    }
}

// ---------------------------------------------------------------- capabilities

#[derive(Debug, Clone, Copy, PartialEq, Eq, Structural, Default)]
pub struct CapabilityLimits {
    pub max_images_per_request: Option<u32>,
    pub max_tool_schema_bytes: Option<u32>,
}

#[derive(Debug, Clone, Copy, PartialEq, Eq, Structural, Default)]
pub struct ToolCallingCapabilities {
    pub parallel_tool_calls: bool,
    pub strict_json_schema: bool,
    pub freeform_tools: bool,
    pub namespace_tools: bool,
    pub tool_search: bool,
    pub web_search: bool,
}

#[derive(Debug, Clone, Copy, PartialEq, Eq, Structural, Default)]
pub struct ReasoningCapabilities {
    pub encrypted_replay: bool,
}

#[derive(Debug, Clone, Copy, PartialEq, Eq, Structural, Default)]
pub struct CacheCapabilities {
    pub prompt_cache_key: bool,
}

/// What a provider declares that it can do.
#[derive(Debug, Clone, Copy, PartialEq, Eq, Structural)]
pub struct Capabilities {
    pub vision: bool,
    pub tools: bool,
    pub structured_output: bool,
    pub prompt_caching: bool,
    pub reasoning: bool,
    pub server_side_state: bool,
    pub max_context: u32,
    pub limits: CapabilityLimits,
    pub tool_calling: ToolCallingCapabilities,
    pub reasoning_options: ReasoningCapabilities,
    pub cache: CacheCapabilities,
}

impl Default for Capabilities {
    fn default() -> (capabilities: Self)
        ensures
            capabilities == (Capabilities {
                vision: false,
                tools: false,
                structured_output: false,
                prompt_caching: false,
                reasoning: false,
                server_side_state: false,
                max_context: 0,
                limits: CapabilityLimits {
                    max_images_per_request: None,
                    max_tool_schema_bytes: None,
                },
                tool_calling: ToolCallingCapabilities {
                    parallel_tool_calls: false,
                    strict_json_schema: false,
                    freeform_tools: false,
                    namespace_tools: false,
                    tool_search: false,
                    web_search: false,
                },
                reasoning_options: ReasoningCapabilities { encrypted_replay: false },
                cache: CacheCapabilities { prompt_cache_key: false },
            }),
    {
        Capabilities {
            vision: false,
            tools: false,
            structured_output: false,
            prompt_caching: false,
            reasoning: false,
            server_side_state: false,
            max_context: 0,
            limits: CapabilityLimits { max_images_per_request: None, max_tool_schema_bytes: None },
            tool_calling: ToolCallingCapabilities {
                parallel_tool_calls: false,
                strict_json_schema: false,
                freeform_tools: false,
                namespace_tools: false,
                tool_search: false,
                web_search: false,
            },
            reasoning_options: ReasoningCapabilities { encrypted_replay: false },
            cache: CacheCapabilities { prompt_cache_key: false },
        }
    }
}

/// What a provider refuses: a capability or a tool, and why.
pub enum Refusal {
    Capability(Seq<char>, Seq<char>),
    Tool(Seq<char>, Seq<char>),
}

/// What a check gives where the refusal is `refusal`.
pub open spec fn refuses(checked: Result<(), ProviderError>, refusal: Option<Refusal>) -> bool {
    match (checked, refusal) {
        (Ok(()), None) => true,
        (
            Err(ProviderError::UnsupportedCapability { capability, reason }),
            Some(Refusal::Capability(c, r)),
        ) => capability@ == c && reason@ == r,
        (Err(ProviderError::UnsupportedTool { tool, reason }), Some(Refusal::Tool(t, r))) => tool@
            == t && reason@ == r,
        _ => false,
    }
}

fn unsupported(capability: &str, reason: &str) -> (error: Result<(), ProviderError>)
    ensures
        refuses(error, Some(Refusal::Capability(capability@, reason@))),
{
    Err(
        ProviderError::UnsupportedCapability {
            capability: capability.to_owned(),
            reason: reason.to_owned(),
        },
    )
}

fn unsupported_tool(tool: &str, reason: &str) -> (error: Result<(), ProviderError>)
    ensures
        refuses(error, Some(Refusal::Tool(tool@, reason@))),
{
    Err(ProviderError::UnsupportedTool { tool: tool.to_owned(), reason: reason.to_owned() })
}

impl Capabilities {
    /// What contradicts itself in the declaration.
    pub open spec fn contradiction(self) -> Option<Refusal> {
        if self.max_context == 0 {
            Some(Refusal::Capability("max_context"@, "must be nonzero"@))
        } else if !self.tools && (self.tool_calling.parallel_tool_calls
            || self.tool_calling.strict_json_schema || self.tool_calling.freeform_tools
            || self.tool_calling.namespace_tools || self.tool_calling.tool_search
            || self.tool_calling.web_search) {
            Some(Refusal::Capability("tools"@, "tool modes require tool calling"@))
        } else if !self.reasoning && self.reasoning_options.encrypted_replay {
            Some(
                Refusal::Capability("reasoning"@, "encrypted replay requires reasoning support"@),
            )
        } else if !self.prompt_caching && self.cache.prompt_cache_key {
            Some(
                Refusal::Capability("prompt_caching"@, "prompt cache keys require prompt caching"@),
            )
        } else {
            None
        }
    }

    /// Why a tool cannot be sent to the provider.
    pub open spec fn tool_refusal(self, tool: SpecView) -> Option<Refusal>
        decreases tool, 1nat,
    {
        match tool.kind {
            KindView::Function { strict, .. } => if strict && !self.tool_calling.strict_json_schema {
                Some(
                    Refusal::Tool(tool.name, "provider does not support strict JSON schemas"@),
                )
            } else {
                None
            },
            KindView::Freeform { .. } => if !self.tool_calling.freeform_tools {
                Some(Refusal::Tool(tool.name, "provider does not support freeform tools"@))
            } else {
                None
            },
            KindView::Namespace { .. } => if !self.tool_calling.namespace_tools {
                Some(Refusal::Tool(tool.name, "provider does not support tool namespaces"@))
            } else {
                first::first_some(self.member_refusals(tool))
            },
            KindView::ToolSearch { .. } => if !self.tool_calling.tool_search {
                Some(Refusal::Tool(tool.name, "provider does not support tool search"@))
            } else {
                None
            },
            KindView::WebSearch { .. } => if !self.tool_calling.web_search {
                Some(Refusal::Tool(tool.name, "provider does not support web search"@))
            } else {
                None
            },
        }
    }

    pub open spec fn member_refusals(self, tool: SpecView) -> Seq<Option<Refusal>>
        decreases tool, 0nat,
    {
        match tool.kind {
            KindView::Namespace { tools } => Seq::new(
                tools.len(),
                |i: int|
                    if 0 <= i < tools.len() {
                        self.tool_refusal(tools[i])
                    } else {
                        None
                    },
            ),
            _ => Seq::empty(),
        }
    }

    /// Why a list of tools cannot be sent to the provider.
    pub open spec fn plan_refusal(self, specs: Seq<ToolSpec>) -> Option<Refusal> {
        if specs.len() == 0 {
            None
        } else if !self.tools {
            Some(Refusal::Tool(specs[0].name@, "provider does not support tool calling"@))
        } else {
            first::first_some(specs.map_values(|spec: ToolSpec| self.tool_refusal(spec@)))
        }
    }

    /// Why a request cannot be sent to the provider.
    pub open spec fn request_refusal(self, request: CanonicalRequest) -> Option<Refusal> {
        if request.output_schema is Some && !self.structured_output {
            Some(
                Refusal::Capability(
                    "structured_output"@,
                    "provider does not support structured output"@,
                ),
            )
        } else if (request.reasoning_effort is Some || request.reasoning_replay)
            && !self.reasoning {
            Some(
                Refusal::Capability("reasoning"@, "provider does not support reasoning controls"@),
            )
        } else if request.cache_key is Some && (!self.prompt_caching
            || !self.cache.prompt_cache_key) {
            Some(
                Refusal::Capability(
                    "prompt_cache_key"@,
                    "provider does not support prompt cache keys"@,
                ),
            )
        } else if !self.vision && exists|i: int|
            0 <= i < request.messages@.len() && message::images_in(
                (#[trigger] request.messages@[i])@.content,
            ) > 0 {
            Some(Refusal::Capability("vision"@, "provider does not support image input"@))
        } else {
            self.plan_refusal(request.tools@)
        }
    }

    /// Refuses a declaration that contradicts itself.
    pub fn validate(&self) -> (checked: Result<(), ProviderError>)
        ensures
            refuses(checked, self.contradiction()),
    {
        if self.max_context == 0 {
            return unsupported("max_context", "must be nonzero");
        }
        if !self.tools && (self.tool_calling.parallel_tool_calls
            || self.tool_calling.strict_json_schema || self.tool_calling.freeform_tools
            || self.tool_calling.namespace_tools || self.tool_calling.tool_search
            || self.tool_calling.web_search) {
            return unsupported("tools", "tool modes require tool calling");
        }
        if !self.reasoning && self.reasoning_options.encrypted_replay {
            return unsupported("reasoning", "encrypted replay requires reasoning support");
        }
        if !self.prompt_caching && self.cache.prompt_cache_key {
            return unsupported("prompt_caching", "prompt cache keys require prompt caching");
        }
        Ok(())
    }

    /// Refuses what a request asks for and the provider does not declare, before any call.
    pub fn ensure_request_supported(&self, request: &CanonicalRequest) -> (checked: Result<
        (),
        ProviderError,
    >)
        ensures
            refuses(checked, self.request_refusal(*request)),
    {
        if request.output_schema.is_some() && !self.structured_output {
            return unsupported(
                "structured_output",
                "provider does not support structured output",
            );
        }
        if (request.reasoning_effort.is_some() || request.reasoning_replay) && !self.reasoning {
            return unsupported("reasoning", "provider does not support reasoning controls");
        }
        if request.cache_key.is_some() && (!self.prompt_caching || !self.cache.prompt_cache_key) {
            return unsupported(
                "prompt_cache_key",
                "provider does not support prompt cache keys",
            );
        }
        if !self.vision {
            let mut i: usize = 0;
            while i < request.messages.len()
                invariant
                    i <= request.messages.len(),
                    !self.vision,
                    !(request.output_schema is Some && !self.structured_output),
                    !((request.reasoning_effort is Some || request.reasoning_replay)
                        && !self.reasoning),
                    !(request.cache_key is Some && (!self.prompt_caching
                        || !self.cache.prompt_cache_key)),
                    forall|k: int|
                        0 <= k < i ==> message::images_in(
                            (#[trigger] request.messages@[k])@.content,
                        ) == 0,
                decreases request.messages.len() - i,
            {
                if request.messages[i].has_images() {
                    return unsupported("vision", "provider does not support image input");
                }
                i += 1;
            }
        }
        self.ensure_tools_supported(request.tools.as_slice())
    }

    /// Refuses a tool that the provider cannot be sent, before any call.
    pub fn ensure_tools_supported(&self, specs: &[ToolSpec]) -> (checked: Result<
        (),
        ProviderError,
    >)
        ensures
            refuses(checked, self.plan_refusal(specs@)),
    {
        if specs.len() == 0 {
            return Ok(());
        }
        if !self.tools {
            return unsupported_tool(
                specs[0].name.as_str(),
                "provider does not support tool calling",
            );
        }
        let ghost refusals = specs@.map_values(|spec: ToolSpec| self.tool_refusal(spec@));
        let mut i: usize = 0;
        while i < specs.len()
            invariant
                i <= specs.len(),
                specs@.len() > 0,
                self.tools,
                refusals == specs@.map_values(|spec: ToolSpec| self.tool_refusal(spec@)),
                forall|k: int| 0 <= k < i ==> (#[trigger] refusals[k]) is None,
            decreases specs.len() - i,
        {
            let checked = self.ensure_tool_supported(&specs[i]);
            assert(refusals[i as int] == self.tool_refusal(specs@[i as int]@));
            if checked.is_err() {
                proof {
                    first::lemma_first_some_at(refusals, i as int);
                }
                return checked;
            }
            i += 1;
        }
        proof {
            first::lemma_first_some_at(refusals, i as int);
        }
        Ok(())
    }

    fn ensure_tool_supported(&self, tool: &ToolSpec) -> (checked: Result<(), ProviderError>)
        ensures
            refuses(checked, self.tool_refusal(tool@)),
        decreases tool,
    {
        let name = tool.name.as_str();
        match &tool.kind {
            ToolKind::Function { strict, .. } => if *strict
                && !self.tool_calling.strict_json_schema {
                unsupported_tool(name, "provider does not support strict JSON schemas")
            } else {
                Ok(())
            },
            ToolKind::Freeform { .. } => if !self.tool_calling.freeform_tools {
                unsupported_tool(name, "provider does not support freeform tools")
            } else {
                Ok(())
            },
            ToolKind::Namespace { tools } => {
                if !self.tool_calling.namespace_tools {
                    return unsupported_tool(name, "provider does not support tool namespaces");
                }
                let ghost refusals = self.member_refusals(tool@);
                let ghost views = tool@.kind->tools;
                let mut i: usize = 0;
                while i < tools.len()
                    invariant
                        i <= tools.len(),
                        self.tool_calling.namespace_tools,
                        tool.kind == (ToolKind::Namespace { tools: *tools }),
                        tool@.kind == (KindView::Namespace { tools: views }),
                        views.len() == tools@.len(),
                        forall|k: int| 0 <= k < tools@.len() ==> #[trigger] views[k] == tools@[k]@,
                        refusals == self.member_refusals(tool@),
                        refusals.len() == tools@.len(),
                        forall|k: int| 0 <= k < i ==> (#[trigger] refusals[k]) is None,
                    decreases tools.len() - i,
                {
                    proof {
                        assert(decreases_to!(*tool => tool.kind));
                        assert(decreases_to!(tool.kind => tool.kind->tools));
                        assert(decreases_to!(tools => tools@));
                        assert(decreases_to!(tools@ => tools@[i as int]));
                    }
                    let checked = self.ensure_tool_supported(&tools[i]);
                    assert(refusals[i as int] == self.tool_refusal(views[i as int]));
                    if checked.is_err() {
                        proof {
                            first::lemma_first_some_at(refusals, i as int);
                        }
                        return checked;
                    }
                    i += 1;
                }
                proof {
                    first::lemma_first_some_at(refusals, i as int);
                }
                Ok(())
            },
            ToolKind::ToolSearch { .. } => if !self.tool_calling.tool_search {
                unsupported_tool(name, "provider does not support tool search")
            } else {
                Ok(())
            },
            ToolKind::WebSearch { .. } => if !self.tool_calling.web_search {
                unsupported_tool(name, "provider does not support web search")
            } else {
                Ok(())
            },
        }
    }
}

/// A total that the backend reports is the total; without one it is what went in and what came out.
pub proof fn law_reported_totals_count(usage: TokenUsage)
    ensures
        usage.total > 0 ==> usage.total_tokens() == usage.total,
        usage.total == 0 && usage.input + usage.output <= u64::MAX ==> usage.total_tokens()
            == usage.input + usage.output,
        usage.total == 0 && usage.input + usage.output > u64::MAX ==> usage.total_tokens()
            == u64::MAX,
{
}

/// Round-trips add up count by count, and a count that overflows stays at the largest number.
pub proof fn law_usage_adds_up_by_count(a: TokenUsage, b: TokenUsage)
    ensures
        ({
            let sum = a.plus(b);
            let adds = |s: u64, x: u64, y: u64|
                s == if x + y <= u64::MAX {
                    x + y
                } else {
                    u64::MAX as int
                };
            &&& adds(sum.input, a.input, b.input)
            &&& adds(sum.cached_input, a.cached_input, b.cached_input)
            &&& adds(sum.cache_write_input, a.cache_write_input, b.cache_write_input)
            &&& adds(sum.output, a.output, b.output)
            &&& adds(sum.reasoning_output, a.reasoning_output, b.reasoning_output)
            &&& adds(sum.total, a.total_tokens(), b.total_tokens())
            &&& a.plus(b) == b.plus(a)
        }),
{
}

/// A declaration stands if it has a window and claims no mode of what it does not support.
pub proof fn law_declarations_agree(capabilities: Capabilities)
    ensures
        ({
            let modes = capabilities.tool_calling;
            capabilities.contradiction() is None <==> {
                &&& capabilities.max_context > 0
                &&& capabilities.tools || !modes.parallel_tool_calls && !modes.strict_json_schema
                    && !modes.freeform_tools && !modes.namespace_tools && !modes.tool_search
                    && !modes.web_search
                &&& capabilities.reasoning || !capabilities.reasoning_options.encrypted_replay
                &&& capabilities.prompt_caching || !capabilities.cache.prompt_cache_key
            }
        }),
{
}

/// A tool is sent exactly where the provider supports its kind: a function always, a strict one
/// with strict schemas; a namespace with all of its members.
pub proof fn law_tools_need_their_mode(capabilities: Capabilities, tool: SpecView)
    ensures
        ({
            let modes = capabilities.tool_calling;
            capabilities.tool_refusal(tool) is None <==> match tool.kind {
                KindView::Function { strict, .. } => !strict || modes.strict_json_schema,
                KindView::Freeform { .. } => modes.freeform_tools,
                KindView::Namespace { tools } => modes.namespace_tools && forall|i: int|
                    0 <= i < tools.len() ==> capabilities.tool_refusal(
                        #[trigger] tools[i],
                    ) is None,
                KindView::ToolSearch { .. } => modes.tool_search,
                KindView::WebSearch { .. } => modes.web_search,
            }
        }),
{
    if tool.kind is Namespace {
        let tools = tool.kind->tools;
        let refusals = capabilities.member_refusals(tool);
        if forall|i: int|
            0 <= i < tools.len() ==> capabilities.tool_refusal(#[trigger] tools[i]) is None {
            assert forall|i: int| 0 <= i < refusals.len() implies (#[trigger] refusals[i])
                is None by {
                assert(refusals[i] == capabilities.tool_refusal(tools[i]));
            }
            first::lemma_first_some_at(refusals, refusals.len() as int);
        }
        if first::first_some(refusals) is None {
            assert forall|i: int| 0 <= i < tools.len() implies capabilities.tool_refusal(
                #[trigger] tools[i],
            ) is None by {
                first::lemma_first_some_none(refusals, i);
                assert(refusals[i] == capabilities.tool_refusal(tools[i]));
            }
        }
    }
}

/// A request is sent exactly where the provider supports all that it asks for: a schema for the
/// output, reasoning, a cache key, images, tools at all, and each tool.
pub proof fn law_requests_need_their_capabilities(
    capabilities: Capabilities,
    request: CanonicalRequest,
)
    ensures
        capabilities.request_refusal(request) is None <==> {
            &&& request.output_schema is Some ==> capabilities.structured_output
            &&& request.reasoning_effort is Some ==> capabilities.reasoning
            &&& request.reasoning_replay ==> capabilities.reasoning
            &&& request.cache_key is Some ==> capabilities.prompt_caching
                && capabilities.cache.prompt_cache_key
            &&& capabilities.vision || forall|i: int|
                0 <= i < request.messages@.len() ==> message::images_in(
                    (#[trigger] request.messages@[i])@.content,
                ) == 0
            &&& request.tools@.len() > 0 ==> capabilities.tools
            &&& forall|i: int|
                0 <= i < request.tools@.len() ==> capabilities.tool_refusal(
                    (#[trigger] request.tools@[i])@,
                ) is None
        },
{
    let refusals = request.tools@.map_values(
        |spec: ToolSpec| capabilities.tool_refusal(spec@),
    );
    if forall|i: int|
        0 <= i < request.tools@.len() ==> capabilities.tool_refusal(
            (#[trigger] request.tools@[i])@,
        ) is None {
        assert forall|i: int| 0 <= i < refusals.len() implies (#[trigger] refusals[i]) is None by {
            assert(capabilities.tool_refusal(request.tools@[i]@) is None);
        }
        first::lemma_first_some_at(refusals, refusals.len() as int);
    }
    if first::first_some(refusals) is None {
        assert forall|i: int| 0 <= i < request.tools@.len() implies capabilities.tool_refusal(
            (#[trigger] request.tools@[i])@,
        ) is None by {
            first::lemma_first_some_none(refusals, i);
            assert(refusals[i] == capabilities.tool_refusal(request.tools@[i]@));
        }
    }
}

/// A refusal names the tool that cannot be sent.
pub proof fn law_refusals_name_the_tool(capabilities: Capabilities, tool: SpecView)
    requires
        capabilities.tool_refusal(tool) is Some,
        tool.kind is Namespace ==> !capabilities.tool_calling.namespace_tools,
    ensures
        capabilities.tool_refusal(tool)->0 is Tool,
        capabilities.tool_refusal(tool)->0->Tool_0 == tool.name,
{
}

/// Which errors are of the context: the provider says so in words, by a payload that is too large,
/// or by its own category.
pub proof fn law_errors_of_the_context(error: ProviderError)
    ensures
        error.of_context() <==> (error is ContextLengthExceeded || (
        error matches ProviderError::Http { status, .. } && status == 413) || (
        error matches ProviderError::Api { category, .. } && category
            == ProviderErrorCategory::ContextOverflow)),
{
}

} // verus!
