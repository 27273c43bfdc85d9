//! The model descriptor of a catalog and the runtime resolved from it for one turn.
use crate::first;
use crate::text;
use crate::tool_spec::{KindView, SpecView, ToolKind, ToolSpec};
use crate::tools;
use vstd::prelude::*;
use vstd::string::*;

verus! {

pub const MAX_MODEL_INSTRUCTIONS_BYTES: usize = 65536;

#[derive(Debug, PartialEq, Eq)]
pub enum ModelRuntimeSource {
    Remote { endpoint: String, fetched_at: String },
    Embedded { version: String },
}

#[derive(Debug, Clone, Copy, PartialEq, Eq, Structural)]
pub enum InputModality {
    Text,
    Image,
    Audio,
}

#[derive(Debug, Clone, Copy, PartialEq, Eq, Structural)]
pub enum ResponsesDialect {
    Standard,
    Lite,
}

#[derive(Debug, Clone, Copy, PartialEq, Eq, Structural)]
pub enum ModelToolMode {
    /// Every tool is called directly by the model.
    Direct,
    /// The model may call tools directly and orchestrate them from a cell.
    CodeMode,
    /// The model orchestrates only: the nested tools are dispatched, not shown.
    CodeModeOnly,
}

impl ModelToolMode {
    /// Whether the mode needs a code-mode runtime.
    pub fn needs_code_mode(self) -> (yes: bool)
        ensures
            yes == (self == ModelToolMode::CodeMode || self == ModelToolMode::CodeModeOnly),
    {
        match self {
            ModelToolMode::CodeMode | ModelToolMode::CodeModeOnly => true,
            ModelToolMode::Direct => false,
        }
    }

    /// Whether the nested tools are hidden from the model.
    pub fn hides_nested_tools(self) -> (yes: bool)
        ensures
            yes == (self == ModelToolMode::CodeModeOnly),
    {
        match self {
            ModelToolMode::CodeModeOnly => true,
            _ => false,
        }
    }
}

/// The multi-agent protocol that a model drives.
#[derive(Debug, Clone, Copy, PartialEq, Eq, Structural)]
pub enum MultiAgentVersion {
    Disabled,
    V1,
    V2,
}

impl Default for MultiAgentVersion {
    fn default() -> (version: Self)
        ensures
            version == MultiAgentVersion::Disabled,
    {
        MultiAgentVersion::Disabled
    }
}

impl MultiAgentVersion {
    pub open spec fn name(self) -> &'static str {
        match self {
            MultiAgentVersion::Disabled => "disabled",
            MultiAgentVersion::V1 => "v1",
            MultiAgentVersion::V2 => "v2",
        }
    }

    /// Whether the model drives the second version of the protocol. The first is another set of
    /// tools, and a model of it is not handed those of the second.
    pub fn drives_v2(self) -> (yes: bool)
        ensures
            yes == (self == MultiAgentVersion::V2),
    {
        match self {
            MultiAgentVersion::V2 => true,
            _ => false,
        }
    }

    pub fn as_str(self) -> (name: &'static str)
        ensures
            name == self.name(),
    {
        match self {
            MultiAgentVersion::Disabled => "disabled",
            MultiAgentVersion::V1 => "v1",
            MultiAgentVersion::V2 => "v2",
        }
    }
}

#[derive(Debug, Clone, Copy, PartialEq, Eq, Structural)]
pub enum TruncationMode {
    Bytes,
    Tokens,
}

#[derive(Debug, Clone, Copy, PartialEq, Eq, Structural)]
pub struct TruncationPolicy {
    pub mode: TruncationMode,
    pub limit: u32,
}

#[derive(Debug, Clone, Copy, PartialEq, Eq, Structural)]
pub struct ModelRetryPolicy {
    /// Openings of the provider allowed for one sampling, the first one among them.
    pub max_attempts: u32,
    pub backoff_base_ms: u64,
}

impl ModelRetryPolicy {
    /// The policy of a stored record: the number of attempts, or that of the retries after the
    /// first attempt, which is how older records count. `None` where the record has neither.
    pub fn from_record(max_attempts: Option<u32>, max_retries: Option<u32>, backoff_base_ms: u64)
        -> (policy: Option<ModelRetryPolicy>)
        ensures
            policy == match (max_attempts, max_retries) {
                (Some(attempts), _) => Some(
                    ModelRetryPolicy { max_attempts: attempts, backoff_base_ms },
                ),
                (None, Some(retries)) => Some(
                    ModelRetryPolicy {
                        max_attempts: if retries < u32::MAX {
                            (retries + 1) as u32
                        } else {
                            u32::MAX
                        },
                        backoff_base_ms,
                    },
                ),
                (None, None) => None,
            },
    {
        match (max_attempts, max_retries) {
            (Some(attempts), _) => Some(
                ModelRetryPolicy { max_attempts: attempts, backoff_base_ms },
            ),
            (None, Some(retries)) => Some(
                ModelRetryPolicy { max_attempts: retries.saturating_add(1), backoff_base_ms },
            ),
            (None, None) => None,
        }
    }
}

#[derive(Debug, Clone, Copy, PartialEq, Eq, Structural)]
pub enum ReasoningReplaySupport {
    Disabled,
    Enabled,
}

impl Default for ReasoningReplaySupport {
    fn default() -> (support: Self)
        ensures
            support == ReasoningReplaySupport::Disabled,
    {
        ReasoningReplaySupport::Disabled
    }
}

#[derive(Debug, Clone, Copy, PartialEq, Eq, Structural)]
pub enum WebSearchToolType {
    Text,
    TextAndImage,
}

impl Default for WebSearchToolType {
    fn default() -> (kind: Self)
        ensures
            kind == WebSearchToolType::Text,
    {
        WebSearchToolType::Text
    }
}

/// What the selected model is declared able to use, whatever the provider can encode.
#[derive(Debug, PartialEq, Eq)]
pub struct ModelToolCapabilities {
    pub supports_search_tool: bool,
    pub web_search_tool_type: WebSearchToolType,
    pub experimental_supported_tools: Vec<String>,
}

/// What the capabilities of a model are.
pub struct ToolCapabilitiesView {
    pub supports_search_tool: bool,
    pub web_search_tool_type: WebSearchToolType,
    pub experimental_supported_tools: Seq<Seq<char>>,
}

impl View for ModelToolCapabilities {
    type V = ToolCapabilitiesView;

    open spec fn view(&self) -> ToolCapabilitiesView {
        ToolCapabilitiesView {
            supports_search_tool: self.supports_search_tool,
            web_search_tool_type: self.web_search_tool_type,
            experimental_supported_tools: text::texts(self.experimental_supported_tools@),
        }
    }
}

impl Default for ModelToolCapabilities {
    fn default() -> (capabilities: Self)
        ensures
            capabilities@ == (ToolCapabilitiesView {
                supports_search_tool: false,
                web_search_tool_type: WebSearchToolType::Text,
                experimental_supported_tools: Seq::empty(),
            }),
    {
        let capabilities = ModelToolCapabilities {
            supports_search_tool: false,
            web_search_tool_type: WebSearchToolType::Text,
            experimental_supported_tools: Vec::new(),
        };
        assert(capabilities@.experimental_supported_tools =~= Seq::<Seq<char>>::empty());
        capabilities
    }
}

impl Clone for ModelToolCapabilities {
    fn clone(&self) -> (copy: Self)
        ensures
            copy@ == self@,
    {
        ModelToolCapabilities {
            supports_search_tool: self.supports_search_tool,
            web_search_tool_type: self.web_search_tool_type,
            experimental_supported_tools: text::clone_texts(&self.experimental_supported_tools),
        }
    }
}

/// A tool that the selected model cannot use, and why.
#[derive(Debug, Clone, PartialEq, Eq)]
pub struct ModelToolCompatibilityError {
    pub tool: String,
    pub reason: String,
}

impl ModelToolCompatibilityError {
    /// The text of the error.
    pub open spec fn text(self) -> Seq<char> {
        "tool "@ + self.tool@ + " is unsupported by the selected model: "@ + self.reason@
    }

    /// The error in words.
    pub fn message(&self) -> (message: String)
        ensures
            message@ == self.text(),
    {
        text::joined(
            "tool ",
            self.tool.as_str(),
            " is unsupported by the selected model: ",
            self.reason.as_str(),
        )
    }
}

impl ToolCapabilitiesView {
    /// The name of the first tool that the model cannot use, and the reason.
    pub open spec fn refusal(self, tool: SpecView) -> Option<(Seq<char>, Seq<char>)>
        decreases tool, 1nat,
    {
        match tool.kind {
            KindView::Namespace { tools } => first::first_some(self.member_refusals(tool)),
            KindView::ToolSearch { .. } => if self.supports_search_tool {
                None
            } else {
                Some((tool.name, "selected model does not support tool search"@))
            },
            KindView::WebSearch { content_types, .. } => if content_types.contains("image"@)
                && self.web_search_tool_type != WebSearchToolType::TextAndImage {
                Some((tool.name, "selected model supports text-only web search"@))
            } else {
                None
            },
            _ => None,
        }
    }

    pub open spec fn member_refusals(self, tool: SpecView) -> Seq<Option<(Seq<char>, Seq<char>)>>
        decreases tool, 0nat,
    {
        match tool.kind {
            KindView::Namespace { tools } => Seq::new(
                tools.len(),
                |i: int|
                    if 0 <= i < tools.len() {
                        self.refusal(tools[i])
                    } else {
                        None
                    },
            ),
            _ => Seq::empty(),
        }
    }

    /// What the model refuses of each tool of a list.
    pub open spec fn refusals(self, specs: Seq<ToolSpec>) -> Seq<Option<(Seq<char>, Seq<char>)>> {
        specs.map_values(|spec: ToolSpec| self.refusal(spec@))
    }
}

/// What a check gives where the refusal is `refusal`.
pub open spec fn tells(
    checked: Result<(), ModelToolCompatibilityError>,
    refusal: Option<(Seq<char>, Seq<char>)>,
) -> bool {
    match (checked, refusal) {
        (Ok(()), None) => true,
        (Err(error), Some((tool, reason))) => error.tool@ == tool && error.reason@ == reason,
        _ => false,
    }
}

fn holds_image(kinds: &Vec<String>) -> (found: bool)
    ensures
        found == text::texts(kinds@).contains("image"@),
{
    crate::message::holds_text(kinds, "image")
}

impl ModelToolCapabilities {
    /// Refuses the first tool that the selected model cannot use.
    pub fn ensure_tools_supported(&self, specs: &[ToolSpec]) -> (checked: Result<
        (),
        ModelToolCompatibilityError,
    >)
        ensures
            tells(checked, first::first_some(self@.refusals(specs@))),
    {
        let ghost refusals = self@.refusals(specs@);
        let mut i: usize = 0;
        while i < specs.len()
            invariant
                i <= specs.len(),
                refusals == self@.refusals(specs@),
                forall|k: int| 0 <= k < i ==> (#[trigger] refusals[k]) is None,
            decreases specs.len() - i,
        {
            let checked = self.ensure_tool_supported(&specs[i]);
            assert(refusals[i as int] == self@.refusal(specs@[i as int]@));
            if checked.is_err() {
                proof {
                    first::lemma_first_some_at(refusals, i as int);
                }
                return checked;
            }
            i += 1;
        }
        proof {
            first::lemma_first_some_at(refusals, i as int);
        }
        Ok(())
    }

    fn ensure_tool_supported(&self, tool: &ToolSpec) -> (checked: Result<
        (),
        ModelToolCompatibilityError,
    >)
        ensures
            tells(checked, self@.refusal(tool@)),
        decreases tool,
    {
        match &tool.kind {
            ToolKind::Namespace { tools } => {
                let ghost refusals = self@.member_refusals(tool@);
                let ghost views = tool@.kind->tools;
                let mut i: usize = 0;
                while i < tools.len()
                    invariant
                        i <= tools.len(),
                        tool.kind == (ToolKind::Namespace { tools: *tools }),
                        tool@.kind == (KindView::Namespace { tools: views }),
                        views.len() == tools@.len(),
                        forall|k: int| 0 <= k < tools@.len() ==> #[trigger] views[k] == tools@[k]@,
                        refusals == self@.member_refusals(tool@),
                        refusals.len() == tools@.len(),
                        forall|k: int| 0 <= k < i ==> (#[trigger] refusals[k]) is None,
                    decreases tools.len() - i,
                {
                    proof {
                        assert(decreases_to!(*tool => tool.kind));
                        assert(decreases_to!(tool.kind => tool.kind->tools));
                        assert(decreases_to!(tools => tools@));
                        assert(decreases_to!(tools@ => tools@[i as int]));
                    }
                    let checked = self.ensure_tool_supported(&tools[i]);
                    assert(refusals[i as int] == self@.refusal(views[i as int]));
                    if checked.is_err() {
                        proof {
                            first::lemma_first_some_at(refusals, i as int);
                        }
                        return checked;
                    }
                    i += 1;
                }
                proof {
                    first::lemma_first_some_at(refusals, i as int);
                }
                Ok(())
            },
            ToolKind::ToolSearch { .. } => if self.supports_search_tool {
                Ok(())
            } else {
                Err(
                    ModelToolCompatibilityError {
                        tool: tool.name.clone(),
                        reason: "selected model does not support tool search".to_owned(),
                    },
                )
            },
            ToolKind::WebSearch { content_types, .. } => if holds_image(content_types)
                && self.web_search_tool_type != WebSearchToolType::TextAndImage {
                Err(
                    ModelToolCompatibilityError {
                        tool: tool.name.clone(),
                        reason: "selected model supports text-only web search".to_owned(),
                    },
                )
            } else {
                Ok(())
            },
            _ => Ok(()),
        }
    }
}

// ---------------------------------------------------------------- descriptors

/// One entry of a catalog, before the configuration of a session is applied to it.
#[derive(Debug, Clone, PartialEq, Eq)]
pub struct ModelDescriptor {
    pub slug: String,
    pub display_name: String,
    pub instructions: String,
    pub context_window: u32,
    pub auto_compact_token_limit: u32,
    pub input_modalities: Vec<InputModality>,
    pub supports_reasoning: bool,
    pub default_reasoning_effort: Option<String>,
    pub supported_reasoning_efforts: Vec<String>,
    pub supports_verbosity: bool,
    pub default_verbosity: Option<String>,
    pub supports_parallel_tool_calls: bool,
    pub tool_capabilities: ModelToolCapabilities,
    pub service_tiers: Vec<String>,
    pub reasoning_replay: ReasoningReplaySupport,
    pub responses_dialect: ResponsesDialect,
    pub tool_mode: ModelToolMode,
    pub multi_agent_version: MultiAgentVersion,
    pub truncation: TruncationPolicy,
    pub comp_hash: Option<String>,
}

/// What a descriptor is.
pub struct DescriptorView {
    pub slug: Seq<char>,
    pub display_name: Seq<char>,
    pub instructions: Seq<char>,
    pub context_window: u32,
    pub auto_compact_token_limit: u32,
    pub input_modalities: Seq<InputModality>,
    pub supports_reasoning: bool,
    pub default_reasoning_effort: Option<Seq<char>>,
    pub supported_reasoning_efforts: Seq<Seq<char>>,
    pub supports_verbosity: bool,
    pub default_verbosity: Option<Seq<char>>,
    pub supports_parallel_tool_calls: bool,
    pub tool_capabilities: ToolCapabilitiesView,
    pub service_tiers: Seq<Seq<char>>,
    pub reasoning_replay: ReasoningReplaySupport,
    pub responses_dialect: ResponsesDialect,
    pub tool_mode: ModelToolMode,
    pub multi_agent_version: MultiAgentVersion,
    pub truncation: TruncationPolicy,
    pub comp_hash: Option<Seq<char>>,
}

impl View for ModelDescriptor {
    type V = DescriptorView;

    open spec fn view(&self) -> DescriptorView {
        DescriptorView {
            slug: self.slug@,
            display_name: self.display_name@,
            instructions: self.instructions@,
            context_window: self.context_window,
            auto_compact_token_limit: self.auto_compact_token_limit,
            input_modalities: self.input_modalities@,
            supports_reasoning: self.supports_reasoning,
            default_reasoning_effort: text::opt_text(self.default_reasoning_effort),
            supported_reasoning_efforts: text::texts(self.supported_reasoning_efforts@),
            supports_verbosity: self.supports_verbosity,
            default_verbosity: text::opt_text(self.default_verbosity),
            supports_parallel_tool_calls: self.supports_parallel_tool_calls,
            tool_capabilities: self.tool_capabilities@,
            service_tiers: text::texts(self.service_tiers@),
            reasoning_replay: self.reasoning_replay,
            responses_dialect: self.responses_dialect,
            tool_mode: self.tool_mode,
            multi_agent_version: self.multi_agent_version,
            truncation: self.truncation,
            comp_hash: text::opt_text(self.comp_hash),
        }
    }
}

#[derive(Debug, Clone, PartialEq, Eq)]
pub enum ModelRuntimeError {
    EmptySlug,
    InstructionsTooLarge { bytes: usize, max: usize },
    InvalidField { field: &'static str, detail: String },
    Incompatible { slug: String, reason: String },
    UnsupportedReasoningEffort { slug: String, effort: String },
}

/// What is wrong with a descriptor or a runtime.
pub enum ModelFault {
    EmptySlug,
    InstructionsTooLarge { bytes: nat },
    InvalidField { field: &'static str, detail: Seq<char> },
}

impl ModelFault {
    pub open spec fn text(self) -> Seq<char> {
        match self {
            ModelFault::EmptySlug => "model slug is empty"@,
            ModelFault::InstructionsTooLarge { bytes } => "model instructions exceed "@
                + text::decimal(MAX_MODEL_INSTRUCTIONS_BYTES as nat) + " bytes ("@ + text::decimal(
                bytes,
            ) + ")"@,
            ModelFault::InvalidField { field, detail } => "invalid model field "@ + field@ + ": "@
                + detail,
        }
    }
}

impl ModelRuntimeError {
    pub open spec fn text(self) -> Seq<char> {
        match self {
            ModelRuntimeError::EmptySlug => "model slug is empty"@,
            ModelRuntimeError::InstructionsTooLarge { bytes, max } => "model instructions exceed "@
                + text::decimal(max as nat) + " bytes ("@ + text::decimal(bytes as nat) + ")"@,
            ModelRuntimeError::InvalidField { field, detail } => "invalid model field "@ + field@
                + ": "@ + detail@,
            ModelRuntimeError::Incompatible { slug, reason } => "model "@ + slug@
                + " is incompatible: "@ + reason@,
            ModelRuntimeError::UnsupportedReasoningEffort { slug, effort } => "model "@ + slug@
                + " does not support reasoning effort "@ + effort@,
        }
    }

    /// The error in words.
    pub fn message(&self) -> (message: String)
        ensures
            message@ == self.text(),
    {
        match self {
            ModelRuntimeError::EmptySlug => "model slug is empty".to_owned(),
            ModelRuntimeError::InstructionsTooLarge { bytes, max } => {
                let limit = text::decimal_of(*max as u128);
                let size = text::decimal_of(*bytes as u128);
                let mut message = text::joined(
                    "model instructions exceed ",
                    limit.as_str(),
                    " bytes (",
                    size.as_str(),
                );
                message.append(")");
                message
            },
            ModelRuntimeError::InvalidField { field, detail } => text::joined(
                "invalid model field ",
                field,
                ": ",
                detail.as_str(),
            ),
            ModelRuntimeError::Incompatible { slug, reason } => text::joined(
                "model ",
                slug.as_str(),
                " is incompatible: ",
                reason.as_str(),
            ),
            ModelRuntimeError::UnsupportedReasoningEffort { slug, effort } => text::joined(
                "model ",
                slug.as_str(),
                " does not support reasoning effort ",
                effort.as_str(),
            ),
        }
    }
}

/// What a check gives where the fault is `fault`.
pub open spec fn reports(checked: Result<(), ModelRuntimeError>, fault: Option<ModelFault>) -> bool {
    match (checked, fault) {
        (Ok(()), None) => true,
        (Err(ModelRuntimeError::EmptySlug), Some(ModelFault::EmptySlug)) => true,
        (
            Err(ModelRuntimeError::InstructionsTooLarge { bytes, max }),
            Some(ModelFault::InstructionsTooLarge { bytes: size }),
        ) => bytes == size && max == MAX_MODEL_INSTRUCTIONS_BYTES,
        (
            Err(ModelRuntimeError::InvalidField { field, detail }),
            Some(ModelFault::InvalidField { field: f, detail: d }),
        ) => field == f && detail@ == d,
        _ => false,
    }
}

pub open spec fn field_fault(field: &'static str, detail: Seq<char>) -> Option<ModelFault> {
    Some(ModelFault::InvalidField { field, detail })
}

/// The smallest feedback budget that can hold terminal facts.
pub open spec fn minimum_feedback(mode: TruncationMode) -> nat {
    match mode {
        TruncationMode::Bytes => tools::MIN_MODEL_TOOL_RESULT_BYTES as nat,
        TruncationMode::Tokens => tools::MIN_MODEL_TOOL_RESULT_TOKENS as nat,
    }
}

/// At most `max` entries, each no blank, of at most `bytes` bytes and without control
/// characters, no two of them the same apart from their case.
pub open spec fn word_list(list: Seq<Seq<char>>, max: nat, bytes: nat) -> bool {
    list.len() <= max && text::all_words(list, bytes) && text::distinct_words(list)
}

fn is_word_list(list: &Vec<String>, max: usize, bytes: usize) -> (yes: bool)
    ensures
        yes == word_list(text::texts(list@), max as nat, bytes as nat),
{
    list.len() <= max && text::are_all_words(list, bytes) && text::are_distinct_words(list)
}

impl DescriptorView {
    /// Whether one of the efforts is `effort`, apart from the case of ASCII letters.
    pub open spec fn supports_effort(self, effort: Seq<char>) -> bool {
        exists|i: int|
            0 <= i < self.supported_reasoning_efforts.len() && text::ascii_lower(
                #[trigger] self.supported_reasoning_efforts[i],
            ) == text::ascii_lower(effort)
    }

    /// The faults of the names and texts, in the order in which they are looked for.
    pub open spec fn text_fault(self) -> Option<ModelFault> {
        if text::blank(self.slug) {
            Some(ModelFault::EmptySlug)
        } else if !text::plain(self.slug, 256) {
            field_fault("slug", "must not exceed 256 bytes or contain control characters"@)
        } else if !text::plain(self.display_name, 512) {
            field_fault("display_name", "must not exceed 512 bytes or contain control characters"@)
        } else if text::blank(self.instructions) {
            field_fault("instructions", "must not be empty"@)
        } else if text::byte_len(self.instructions) > MAX_MODEL_INSTRUCTIONS_BYTES {
            Some(ModelFault::InstructionsTooLarge { bytes: text::byte_len(self.instructions) })
        } else {
            None
        }
    }

    /// The faults of the context window and of the modalities.
    pub open spec fn window_fault(self) -> Option<ModelFault> {
        if self.context_window == 0 {
            field_fault("context_window", "must be greater than zero"@)
        } else if self.auto_compact_token_limit == 0 || self.auto_compact_token_limit
            > self.context_window {
            field_fault("auto_compact_token_limit", "must be within the context window"@)
        } else if !self.input_modalities.contains(InputModality::Text) {
            field_fault("input_modalities", "text is required"@)
        } else if self.input_modalities.len() > 8 {
            field_fault("input_modalities", "must not contain more than 8 entries"@)
        } else {
            None
        }
    }

    /// The faults of the reasoning efforts.
    pub open spec fn reasoning_fault(self) -> Option<ModelFault> {
        if self.supports_reasoning && self.supported_reasoning_efforts.len() == 0 {
            field_fault(
                "supported_reasoning_efforts",
                "must not be empty when reasoning is supported"@,
            )
        } else if !text::all_words(self.supported_reasoning_efforts, 64) {
            field_fault(
                "supported_reasoning_efforts",
                "must contain non-empty efforts of at most 64 bytes"@,
            )
        } else if self.supported_reasoning_efforts.len() > 32 {
            field_fault("supported_reasoning_efforts", "must not contain more than 32 efforts"@)
        } else if !self.supports_reasoning && (self.default_reasoning_effort is Some
            || self.supported_reasoning_efforts.len() > 0) {
            field_fault("supports_reasoning", "contradicts the declared reasoning efforts"@)
        } else if self.default_reasoning_effort is Some && !self.supports_effort(
            self.default_reasoning_effort->0,
        ) {
            field_fault("default_reasoning_effort", "must be one of the supported efforts"@)
        } else {
            None
        }
    }

    /// The faults of the verbosity, the tools, the tiers and the feedback budget.
    pub open spec fn option_fault(self) -> Option<ModelFault> {
        if !self.supports_verbosity && self.default_verbosity is Some {
            field_fault("default_verbosity", "requires verbosity support"@)
        } else if !word_list(self.tool_capabilities.experimental_supported_tools, 64, 128) {
            field_fault(
                "tool_capabilities.experimental_supported_tools",
                "must contain at most 64 unique non-empty names of at most 128 bytes"@,
            )
        } else if !text::opt_plain(self.default_verbosity, 64) {
            field_fault("default_verbosity", "must contain at most 64 bytes"@)
        } else if !word_list(self.service_tiers, 32, 64) {
            field_fault(
                "service_tiers",
                "must contain at most 32 unique non-empty values of at most 64 bytes"@,
            )
        } else if self.truncation.limit < minimum_feedback(self.truncation.mode) {
            field_fault(
                "truncation.limit",
                "must be at least "@ + text::decimal(minimum_feedback(self.truncation.mode))
                    + " for terminal tool feedback"@,
            )
        } else if !text::opt_plain(self.comp_hash, 256) {
            field_fault("comp_hash", "must contain at most 256 bytes"@)
        } else {
            None
        }
    }

    /// The first fault of the descriptor.
    pub open spec fn fault(self) -> Option<ModelFault> {
        if self.text_fault() is Some {
            self.text_fault()
        } else if self.window_fault() is Some {
            self.window_fault()
        } else if self.reasoning_fault() is Some {
            self.reasoning_fault()
        } else {
            self.option_fault()
        }
    }
}

fn invalid(field: &'static str, detail: &str) -> (error: Result<(), ModelRuntimeError>)
    ensures
        reports(error, field_fault(field, detail@)),
{
    Err(ModelRuntimeError::InvalidField { field, detail: detail.to_owned() })
}

fn has_modality(list: &Vec<InputModality>, wanted: InputModality) -> (found: bool)
    ensures
        found == list@.contains(wanted),
{
    let mut i: usize = 0;
    while i < list.len()
        invariant
            i <= list.len(),
            forall|k: int| 0 <= k < i ==> list@[k] != wanted,
        decreases list.len() - i,
    {
        if list[i] == wanted {
            return true;
        }
        i += 1;
    }
    false
}

impl ModelDescriptor {
    fn check_texts(&self) -> (checked: Result<(), ModelRuntimeError>)
        ensures
            reports(checked, self@.text_fault()),
    {
        if text::is_blank(self.slug.as_str()) {
            return Err(ModelRuntimeError::EmptySlug);
        }
        if !text::is_plain(self.slug.as_str(), 256) {
            return invalid("slug", "must not exceed 256 bytes or contain control characters");
        }
        if !text::is_plain(self.display_name.as_str(), 512) {
            return invalid(
                "display_name",
                "must not exceed 512 bytes or contain control characters",
            );
        }
        if text::is_blank(self.instructions.as_str()) {
            return invalid("instructions", "must not be empty");
        }
        let bytes: usize = text::byte_len_of(self.instructions.as_str());
        if bytes > MAX_MODEL_INSTRUCTIONS_BYTES {
            return Err(
                ModelRuntimeError::InstructionsTooLarge {
                    bytes,
                    max: MAX_MODEL_INSTRUCTIONS_BYTES,
                },
            );
        }
        Ok(())
    }

    fn check_window(&self) -> (checked: Result<(), ModelRuntimeError>)
        ensures
            reports(checked, self@.window_fault()),
    {
        if self.context_window == 0 {
            return invalid("context_window", "must be greater than zero");
        }
        if self.auto_compact_token_limit == 0 || self.auto_compact_token_limit
            > self.context_window {
            return invalid("auto_compact_token_limit", "must be within the context window");
        }
        if !has_modality(&self.input_modalities, InputModality::Text) {
            return invalid("input_modalities", "text is required");
        }
        if self.input_modalities.len() > 8 {
            return invalid("input_modalities", "must not contain more than 8 entries");
        }
        Ok(())
    }

    fn supports_effort(&self, effort: &str) -> (yes: bool)
        ensures
            yes == self@.supports_effort(effort@),
    {
        let ghost views = self@.supported_reasoning_efforts;
        let mut i: usize = 0;
        while i < self.supported_reasoning_efforts.len()
            invariant
                i <= self.supported_reasoning_efforts.len(),
                views == self@.supported_reasoning_efforts,
                views == text::texts(self.supported_reasoning_efforts@),
                forall|k: int|
                    0 <= k < i ==> text::ascii_lower(#[trigger] views[k]) != text::ascii_lower(
                        effort@,
                    ),
            decreases self.supported_reasoning_efforts.len() - i,
        {
            if text::same_ignoring_case(self.supported_reasoning_efforts[i].as_str(), effort) {
                assert(text::ascii_lower(views[i as int]) == text::ascii_lower(effort@));
                return true;
            }
            i += 1;
        }
        false
    }

    fn check_reasoning(&self) -> (checked: Result<(), ModelRuntimeError>)
        ensures
            reports(checked, self@.reasoning_fault()),
    {
        if self.supports_reasoning && self.supported_reasoning_efforts.len() == 0 {
            return invalid(
                "supported_reasoning_efforts",
                "must not be empty when reasoning is supported",
            );
        }
        if !text::are_all_words(&self.supported_reasoning_efforts, 64) {
            return invalid(
                "supported_reasoning_efforts",
                "must contain non-empty efforts of at most 64 bytes",
            );
        }
        if self.supported_reasoning_efforts.len() > 32 {
            return invalid("supported_reasoning_efforts", "must not contain more than 32 efforts");
        }
        if !self.supports_reasoning && (self.default_reasoning_effort.is_some()
            || self.supported_reasoning_efforts.len() > 0) {
            return invalid("supports_reasoning", "contradicts the declared reasoning efforts");
        }
        match &self.default_reasoning_effort {
            Some(effort) => {
                if !self.supports_effort(effort.as_str()) {
                    return invalid(
                        "default_reasoning_effort",
                        "must be one of the supported efforts",
                    );
                }
            },
            None => {},
        }
        Ok(())
    }

    fn check_options(&self) -> (checked: Result<(), ModelRuntimeError>)
        ensures
            reports(checked, self@.option_fault()),
    {
        if !self.supports_verbosity && self.default_verbosity.is_some() {
            return invalid("default_verbosity", "requires verbosity support");
        }
        if !is_word_list(&self.tool_capabilities.experimental_supported_tools, 64, 128) {
            return invalid(
                "tool_capabilities.experimental_supported_tools",
                "must contain at most 64 unique non-empty names of at most 128 bytes",
            );
        }
        if !text::is_opt_plain(&self.default_verbosity, 64) {
            return invalid("default_verbosity", "must contain at most 64 bytes");
        }
        if !is_word_list(&self.service_tiers, 32, 64) {
            return invalid(
                "service_tiers",
                "must contain at most 32 unique non-empty values of at most 64 bytes",
            );
        }
        let minimum: usize = match self.truncation.mode {
            TruncationMode::Bytes => tools::MIN_MODEL_TOOL_RESULT_BYTES,
            TruncationMode::Tokens => tools::MIN_MODEL_TOOL_RESULT_TOKENS,
        };
        if (self.truncation.limit as usize) < minimum {
            let mut detail = "must be at least ".to_owned();
            detail.append(text::decimal_of(minimum as u128).as_str());
            detail.append(" for terminal tool feedback");
            return Err(ModelRuntimeError::InvalidField { field: "truncation.limit", detail });
        }
        if !text::is_opt_plain(&self.comp_hash, 256) {
            return invalid("comp_hash", "must contain at most 256 bytes");
        }
        Ok(())
    }

    /// Refuses the first contradiction or excess of a catalog entry.
    pub fn validate(&self) -> (checked: Result<(), ModelRuntimeError>)
        ensures
            reports(checked, self@.fault()),
    {
        let texts = self.check_texts();
        if texts.is_err() {
            return texts;
        }
        let window = self.check_window();
        if window.is_err() {
            return window;
        }
        let reasoning = self.check_reasoning();
        if reasoning.is_err() {
            return reasoning;
        }
        self.check_options()
    }
}

// ---------------------------------------------------------------- runtimes

/// The only model contract that a turn reads.
#[derive(Debug, PartialEq, Eq)]
pub struct ResolvedModelRuntime {
    pub slug: String,
    pub source: ModelRuntimeSource,
    pub instructions: String,
    pub fingerprint: String,
    pub context_window: u32,
    pub auto_compact_token_limit: u32,
    pub input_modalities: Vec<InputModality>,
    pub reasoning_effort: Option<String>,
    pub supports_verbosity: bool,
    pub verbosity: Option<String>,
    pub supports_parallel_tool_calls: bool,
    pub tool_capabilities: ModelToolCapabilities,
    pub service_tiers: Vec<String>,
    pub reasoning_replay: ReasoningReplaySupport,
    pub responses_dialect: ResponsesDialect,
    pub tool_mode: ModelToolMode,
    pub multi_agent_version: MultiAgentVersion,
    pub truncation: TruncationPolicy,
    pub retry: ModelRetryPolicy,
    pub max_output_tokens: u32,
    pub comp_hash: Option<String>,
}

/// What a runtime is.
pub struct RuntimeView {
    pub slug: Seq<char>,
    pub source: ModelRuntimeSource,
    pub instructions: Seq<char>,
    pub fingerprint: Seq<char>,
    pub context_window: u32,
    pub auto_compact_token_limit: u32,
    pub input_modalities: Seq<InputModality>,
    pub reasoning_effort: Option<Seq<char>>,
    pub supports_verbosity: bool,
    pub verbosity: Option<Seq<char>>,
    pub supports_parallel_tool_calls: bool,
    pub tool_capabilities: ToolCapabilitiesView,
    pub service_tiers: Seq<Seq<char>>,
    pub reasoning_replay: ReasoningReplaySupport,
    pub responses_dialect: ResponsesDialect,
    pub tool_mode: ModelToolMode,
    pub multi_agent_version: MultiAgentVersion,
    pub truncation: TruncationPolicy,
    pub retry: ModelRetryPolicy,
    pub max_output_tokens: u32,
    pub comp_hash: Option<Seq<char>>,
}

impl View for ResolvedModelRuntime {
    type V = RuntimeView;

    open spec fn view(&self) -> RuntimeView {
        RuntimeView {
            slug: self.slug@,
            source: self.source,
            instructions: self.instructions@,
            fingerprint: self.fingerprint@,
            context_window: self.context_window,
            auto_compact_token_limit: self.auto_compact_token_limit,
            input_modalities: self.input_modalities@,
            reasoning_effort: text::opt_text(self.reasoning_effort),
            supports_verbosity: self.supports_verbosity,
            verbosity: text::opt_text(self.verbosity),
            supports_parallel_tool_calls: self.supports_parallel_tool_calls,
            tool_capabilities: self.tool_capabilities@,
            service_tiers: text::texts(self.service_tiers@),
            reasoning_replay: self.reasoning_replay,
            responses_dialect: self.responses_dialect,
            tool_mode: self.tool_mode,
            multi_agent_version: self.multi_agent_version,
            truncation: self.truncation,
            retry: self.retry,
            max_output_tokens: self.max_output_tokens,
            comp_hash: text::opt_text(self.comp_hash),
        }
    }
}

impl RuntimeView {
    /// The runtime read as an entry of a catalog: the active effort is its only one.
    pub open spec fn as_descriptor(self) -> DescriptorView {
        DescriptorView {
            slug: self.slug,
            display_name: self.slug,
            instructions: self.instructions,
            context_window: self.context_window,
            auto_compact_token_limit: self.auto_compact_token_limit,
            input_modalities: self.input_modalities,
            supports_reasoning: self.reasoning_effort is Some,
            default_reasoning_effort: self.reasoning_effort,
            supported_reasoning_efforts: match self.reasoning_effort {
                Some(effort) => seq![effort],
                None => Seq::empty(),
            },
            supports_verbosity: self.supports_verbosity,
            default_verbosity: self.verbosity,
            supports_parallel_tool_calls: self.supports_parallel_tool_calls,
            tool_capabilities: self.tool_capabilities,
            service_tiers: self.service_tiers,
            reasoning_replay: self.reasoning_replay,
            responses_dialect: self.responses_dialect,
            tool_mode: self.tool_mode,
            multi_agent_version: self.multi_agent_version,
            truncation: self.truncation,
            comp_hash: self.comp_hash,
        }
    }

    /// The first fault of the runtime.
    pub open spec fn fault(self) -> Option<ModelFault> {
        if self.as_descriptor().fault() is Some {
            self.as_descriptor().fault()
        } else if !text::is_sha256(self.fingerprint) {
            field_fault("fingerprint", "must be a 64-character hexadecimal SHA-256"@)
        } else if self.max_output_tokens == 0 || self.max_output_tokens >= self.context_window {
            field_fault(
                "max_output_tokens",
                "must be greater than zero and below the context window"@,
            )
        } else if self.retry.max_attempts == 0 {
            field_fault("retry.max_attempts", "must be greater than zero"@)
        } else if self.retry.backoff_base_ms == 0 {
            field_fault("retry.backoff_base_ms", "must be greater than zero"@)
        } else if self.reasoning_replay == ReasoningReplaySupport::Enabled
            && self.reasoning_effort is None {
            field_fault("reasoning_replay", "requires an active reasoning effort"@)
        } else {
            None
        }
    }
}

fn clone_modalities(list: &Vec<InputModality>) -> (copy: Vec<InputModality>)
    ensures
        copy@ == list@,
{
    let mut copy: Vec<InputModality> = Vec::new();
    let mut i: usize = 0;
    while i < list.len()
        invariant
            i <= list.len(),
            copy@ == list@.take(i as int),
        decreases list.len() - i,
    {
        copy.push(list[i]);
        i += 1;
        assert(copy@ =~= list@.take(i as int));
    }
    assert(list@.take(i as int) =~= list@);
    copy
}

impl Clone for ModelRuntimeSource {
    fn clone(&self) -> (copy: Self)
        ensures
            copy == *self,
    {
        match self {
            ModelRuntimeSource::Remote { endpoint, fetched_at } => ModelRuntimeSource::Remote {
                endpoint: endpoint.clone(),
                fetched_at: fetched_at.clone(),
            },
            ModelRuntimeSource::Embedded { version } => ModelRuntimeSource::Embedded {
                version: version.clone(),
            },
        }
    }
}

impl Clone for ResolvedModelRuntime {
    fn clone(&self) -> (copy: Self)
        ensures
            copy@ == self@,
    {
        ResolvedModelRuntime {
            slug: self.slug.clone(),
            source: self.source.clone(),
            instructions: self.instructions.clone(),
            fingerprint: self.fingerprint.clone(),
            context_window: self.context_window,
            auto_compact_token_limit: self.auto_compact_token_limit,
            input_modalities: clone_modalities(&self.input_modalities),
            reasoning_effort: text::clone_opt(&self.reasoning_effort),
            supports_verbosity: self.supports_verbosity,
            verbosity: text::clone_opt(&self.verbosity),
            supports_parallel_tool_calls: self.supports_parallel_tool_calls,
            tool_capabilities: self.tool_capabilities.clone(),
            service_tiers: text::clone_texts(&self.service_tiers),
            reasoning_replay: self.reasoning_replay,
            responses_dialect: self.responses_dialect,
            tool_mode: self.tool_mode,
            multi_agent_version: self.multi_agent_version,
            truncation: self.truncation,
            retry: self.retry,
            max_output_tokens: self.max_output_tokens,
            comp_hash: text::clone_opt(&self.comp_hash),
        }
    }
}

impl ResolvedModelRuntime {
    fn descriptor(&self) -> (descriptor: ModelDescriptor)
        ensures
            descriptor@ == self@.as_descriptor(),
    {
        let mut efforts: Vec<String> = Vec::new();
        match &self.reasoning_effort {
            Some(effort) => {
                efforts.push(effort.clone());
            },
            None => {},
        }
        proof {
            match &self.reasoning_effort {
                Some(effort) => {
                    assert(text::texts(efforts@) =~= seq![effort@]);
                },
                None => {
                    assert(text::texts(efforts@) =~= Seq::<Seq<char>>::empty());
                },
            }
        }
        ModelDescriptor {
            slug: self.slug.clone(),
            display_name: self.slug.clone(),
            instructions: self.instructions.clone(),
            context_window: self.context_window,
            auto_compact_token_limit: self.auto_compact_token_limit,
            input_modalities: clone_modalities(&self.input_modalities),
            supports_reasoning: self.reasoning_effort.is_some(),
            default_reasoning_effort: text::clone_opt(&self.reasoning_effort),
            supported_reasoning_efforts: efforts,
            supports_verbosity: self.supports_verbosity,
            default_verbosity: text::clone_opt(&self.verbosity),
            supports_parallel_tool_calls: self.supports_parallel_tool_calls,
            tool_capabilities: self.tool_capabilities.clone(),
            service_tiers: text::clone_texts(&self.service_tiers),
            reasoning_replay: self.reasoning_replay,
            responses_dialect: self.responses_dialect,
            tool_mode: self.tool_mode,
            multi_agent_version: self.multi_agent_version,
            truncation: self.truncation,
            comp_hash: text::clone_opt(&self.comp_hash),
        }
    }

    /// Refuses the first contradiction or excess of a resolved runtime.
    pub fn validate(&self) -> (checked: Result<(), ModelRuntimeError>)
        ensures
            reports(checked, self@.fault()),
    {
        let described = self.descriptor().validate();
        if described.is_err() {
            return described;
        }
        if !text::is_sha256_text(self.fingerprint.as_str()) {
            return invalid("fingerprint", "must be a 64-character hexadecimal SHA-256");
        }
        if self.max_output_tokens == 0 || self.max_output_tokens >= self.context_window {
            return invalid(
                "max_output_tokens",
                "must be greater than zero and below the context window",
            );
        }
        if self.retry.max_attempts == 0 {
            return invalid("retry.max_attempts", "must be greater than zero");
        }
        if self.retry.backoff_base_ms == 0 {
            return invalid("retry.backoff_base_ms", "must be greater than zero");
        }
        if self.reasoning_replay == ReasoningReplaySupport::Enabled
            && self.reasoning_effort.is_none() {
            return invalid("reasoning_replay", "requires an active reasoning effort");
        }
        Ok(())
    }

    pub fn accepts_images(&self) -> (yes: bool)
        ensures
            yes == self.input_modalities@.contains(InputModality::Image),
    {
        has_modality(&self.input_modalities, InputModality::Image)
    }

    pub fn accepts_audio(&self) -> (yes: bool)
        ensures
            yes == self.input_modalities@.contains(InputModality::Audio),
    {
        has_modality(&self.input_modalities, InputModality::Audio)
    }

    /// Refuses the first tool that the selected model cannot use.
    pub fn ensure_tools_supported(&self, specs: &[ToolSpec]) -> (checked: Result<
        (),
        ModelToolCompatibilityError,
    >)
        ensures
            tells(checked, first::first_some(self@.tool_capabilities.refusals(specs@))),
    {
        self.tool_capabilities.ensure_tools_supported(specs)
    }

    pub fn uses_responses_lite(&self) -> (yes: bool)
        ensures
            yes == (self.responses_dialect == ResponsesDialect::Lite),
    {
        self.responses_dialect == ResponsesDialect::Lite
    }

    /// Why encrypted reasoning is not sent back, where it is not.
    pub fn reasoning_replay_disabled_reason(&self) -> (reason: Option<&'static str>)
        ensures
            reason == if self.reasoning_replay == ReasoningReplaySupport::Disabled {
                Some("descriptor does not prove encrypted stateless reasoning replay")
            } else {
                None
            },
    {
        if self.reasoning_replay == ReasoningReplaySupport::Disabled {
            Some("descriptor does not prove encrypted stateless reasoning replay")
        } else {
            None
        }
    }
}

/// A runtime that passes its check leaves room for output inside its window, can be opened at
/// least once, and triggers its compaction inside the window.
pub proof fn law_valid_runtime_geometry(runtime: RuntimeView)
    requires
        runtime.fault() is None,
    ensures
        0 < runtime.max_output_tokens < runtime.context_window,
        0 < runtime.auto_compact_token_limit <= runtime.context_window,
        runtime.retry.max_attempts >= 1,
        runtime.input_modalities.contains(InputModality::Text),
        text::is_sha256(runtime.fingerprint),
        runtime.truncation.limit >= minimum_feedback(runtime.truncation.mode),
{
}

/// A catalog entry passes exactly where its texts are there and bounded, its window holds its
/// threshold, it reads text, its efforts agree with what it supports, and its options are bounded
/// and leave room for terminal facts.
pub proof fn law_descriptors_that_pass(model: DescriptorView)
    ensures
        model.fault() is None <==> {
            &&& !text::blank(model.slug) && text::plain(model.slug, 256)
            &&& text::plain(model.display_name, 512)
            &&& !text::blank(model.instructions)
            &&& text::byte_len(model.instructions) <= MAX_MODEL_INSTRUCTIONS_BYTES
            &&& 0 < model.auto_compact_token_limit <= model.context_window
            &&& model.input_modalities.contains(InputModality::Text)
                && model.input_modalities.len() <= 8
            &&& model.supports_reasoning <==> model.supported_reasoning_efforts.len() > 0
            &&& model.supported_reasoning_efforts.len() <= 32
            &&& forall|i: int|
                0 <= i < model.supported_reasoning_efforts.len() ==> !text::blank(
                    #[trigger] model.supported_reasoning_efforts[i],
                ) && text::plain(model.supported_reasoning_efforts[i], 64)
            &&& model.default_reasoning_effort matches Some(effort) ==> exists|i: int|
                0 <= i < model.supported_reasoning_efforts.len() && text::ascii_lower(
                    #[trigger] model.supported_reasoning_efforts[i],
                ) == text::ascii_lower(effort)
            &&& model.default_verbosity matches Some(verbosity) ==> model.supports_verbosity
                && verbosity.len() > 0 && text::plain(verbosity, 64)
            &&& word_list(model.tool_capabilities.experimental_supported_tools, 64, 128)
            &&& word_list(model.service_tiers, 32, 64)
            &&& model.truncation.mode == TruncationMode::Bytes ==> model.truncation.limit
                >= tools::MIN_MODEL_TOOL_RESULT_BYTES
            &&& model.truncation.mode == TruncationMode::Tokens ==> model.truncation.limit
                >= tools::MIN_MODEL_TOOL_RESULT_TOKENS
            &&& model.comp_hash matches Some(hash) ==> hash.len() > 0 && text::plain(hash, 256)
        },
{
}

/// A list of words has no more of them than it may, each with something in it, short and without
/// controls, and no two the same but for their case.
pub proof fn law_word_lists(list: Seq<Seq<char>>, max: nat, bytes: nat, i: int, j: int)
    requires
        word_list(list, max, bytes),
    ensures
        list.len() <= max,
        0 <= i < list.len() ==> text::byte_len(list[i]) <= bytes && exists|k: int|
            0 <= k < list[i].len() && !text::is_space(#[trigger] list[i][k]),
        0 <= i < j < list.len() ==> text::ascii_lower(list[i]) != text::ascii_lower(list[j]),
{
    if 0 <= i < list.len() {
        assert(!text::blank(list[i]));
    }
}

/// A runtime passes exactly where it would as an entry of a catalog with its active effort alone,
/// has a fingerprint, an output below its window, at least one attempt with a delay, and replays
/// reasoning only where it reasons.
pub proof fn law_runtimes_that_pass(runtime: RuntimeView)
    ensures
        runtime.fault() is None <==> {
            &&& runtime.as_descriptor().fault() is None
            &&& text::is_sha256(runtime.fingerprint)
            &&& 0 < runtime.max_output_tokens < runtime.context_window
            &&& runtime.retry.max_attempts > 0 && runtime.retry.backoff_base_ms > 0
            &&& runtime.reasoning_replay == ReasoningReplaySupport::Enabled
                ==> runtime.reasoning_effort is Some
        },
        runtime.as_descriptor().slug == runtime.slug,
        runtime.as_descriptor().instructions == runtime.instructions,
        runtime.as_descriptor().context_window == runtime.context_window,
        runtime.as_descriptor().auto_compact_token_limit == runtime.auto_compact_token_limit,
        runtime.as_descriptor().truncation == runtime.truncation,
        runtime.as_descriptor().service_tiers == runtime.service_tiers,
{
}

/// A model can use every tool but a search of tools that it does not support, and a web search for
/// images that it cannot see; of a namespace, all of its members.
pub proof fn law_models_use_what_they_support(model: ToolCapabilitiesView, tool: SpecView)
    ensures
        model.refusal(tool) is None <==> match tool.kind {
            KindView::Namespace { tools } => forall|i: int|
                0 <= i < tools.len() ==> model.refusal(#[trigger] tools[i]) is None,
            KindView::ToolSearch { .. } => model.supports_search_tool,
            KindView::WebSearch { content_types, .. } => !content_types.contains("image"@)
                || model.web_search_tool_type == WebSearchToolType::TextAndImage,
            _ => true,
        },
        !(tool.kind is Namespace) ==> match model.refusal(tool) {
            Some((name, _)) => name == tool.name,
            None => true,
        },
{
    if tool.kind is Namespace {
        let tools = tool.kind->tools;
        let refusals = model.member_refusals(tool);
        first::lemma_no_first(refusals);
        if forall|i: int| 0 <= i < tools.len() ==> model.refusal(#[trigger] tools[i]) is None {
            assert forall|i: int| 0 <= i < refusals.len() implies (#[trigger] refusals[i])
                is None by {
                assert(refusals[i] == model.refusal(tools[i]));
            }
        }
        if first::first_some(refusals) is None {
            assert forall|i: int| 0 <= i < tools.len() implies model.refusal(#[trigger] tools[i])
                is None by {
                assert(refusals[i] == model.refusal(tools[i]));
            }
        }
    }
}

} // verus!
