//! The model request and its validation.
use crate::first;
use crate::json;
use crate::json::Json;
use crate::message::{ContentBlock, Message};
use crate::model::{InputModality, ReasoningReplaySupport, ResolvedModelRuntime};
use crate::redaction;
use crate::text;
use crate::tool_spec::{SpecFault, ToolKind, ToolSpec, ToolSpecValidationError};
use vstd::prelude::*;
use vstd::string::*;

verus! {

/// The key under which a request names its turn.
pub const TURN_ID_METADATA_KEY: &'static str = "turn_id";

#[derive(Debug, Clone, PartialEq, Eq)]
pub struct OutputSchema {
    pub name: String,
    pub schema: Json,
    pub strict: bool,
}

#[derive(Debug, Clone, Copy, PartialEq, Eq, Structural)]
pub enum ReasoningSummaryDelivery {
    SequentialCutoff,
}

#[derive(Debug, Clone, Copy, PartialEq, Eq, Structural)]
pub struct RequestStreamOptions {
    pub reasoning_summary_delivery: Option<ReasoningSummaryDelivery>,
    pub include_usage: bool,
}

impl Default for RequestStreamOptions {
    fn default() -> (options: Self)
        ensures
            options.is_default(),
    {
        RequestStreamOptions { reasoning_summary_delivery: None, include_usage: false }
    }
}

impl RequestStreamOptions {
    pub open spec fn is_default(self) -> bool {
        self.reasoning_summary_delivery is None && !self.include_usage
    }

    pub fn is_empty(&self) -> (yes: bool)
        ensures
            yes == self.is_default(),
    {
        self.reasoning_summary_delivery.is_none() && !self.include_usage
    }
}

/// One entry of the client metadata.
#[derive(Debug, Clone, PartialEq, Eq)]
pub struct MetadataEntry {
    pub key: String,
    pub value: String,
}

/// What the entries of the client metadata are, in the order in which they are held.
pub open spec fn entry_views(entries: Seq<MetadataEntry>) -> Seq<(Seq<char>, Seq<char>)> {
    entries.map_values(|entry: MetadataEntry| (entry.key@, entry.value@))
}

/// The client metadata: each key once, in the order of keys.
#[derive(Debug, PartialEq, Eq)]
pub struct ClientMetadata {
    entries: Vec<MetadataEntry>,
}

impl View for ClientMetadata {
    type V = Seq<(Seq<char>, Seq<char>)>;

    closed spec fn view(&self) -> Seq<(Seq<char>, Seq<char>)> {
        entry_views(self.entries@)
    }
}

impl Default for ClientMetadata {
    fn default() -> (metadata: Self)
        ensures
            metadata@ == Seq::<(Seq<char>, Seq<char>)>::empty(),
    {
        ClientMetadata::new()
    }
}

impl Clone for ClientMetadata {
    fn clone(&self) -> (copy: Self)
        ensures
            copy@ == self@,
    {
        proof {
            use_type_invariant(self);
        }
        let mut entries: Vec<MetadataEntry> = Vec::new();
        let mut i: usize = 0;
        while i < self.entries.len()
            invariant
                i <= self.entries.len(),
                entry_views(entries@) == self@.take(i as int),
            decreases self.entries.len() - i,
        {
            let ghost before = entries@;
            let entry = MetadataEntry {
                key: self.entries[i].key.clone(),
                value: self.entries[i].value.clone(),
            };
            entries.push(entry);
            i += 1;
            assert(entry_views(entries@) =~= entry_views(before).push((entry.key@, entry.value@)));
            assert(entry_views(entries@) =~= self@.take(i as int));
        }
        assert(entry_views(entries@) =~= self@);
        ClientMetadata { entries }
    }
}

impl ClientMetadata {
    #[verifier::type_invariant]
    closed spec fn wf(self) -> bool {
        json::ordered(entry_views(self.entries@))
    }

    pub fn new() -> (metadata: ClientMetadata)
        ensures
            metadata@ == Seq::<(Seq<char>, Seq<char>)>::empty(),
    {
        let entries: Vec<MetadataEntry> = Vec::new();
        assert(entry_views(entries@) =~= Seq::<(Seq<char>, Seq<char>)>::empty());
        ClientMetadata { entries }
    }

    /// The entries in the order of their keys, each key once.
    pub fn entries(&self) -> (entries: &Vec<MetadataEntry>)
        ensures
            entry_views(entries@) == self@,
            json::ordered(self@),
    {
        proof {
            use_type_invariant(self);
        }
        &self.entries
    }

    pub fn len(&self) -> (count: usize)
        ensures
            count == self@.len(),
    {
        self.entries.len()
    }

    pub fn is_empty(&self) -> (yes: bool)
        ensures
            yes == (self@.len() == 0),
    {
        self.entries.len() == 0
    }

    /// Sets one entry at its place in the order of keys.
    pub fn insert(&mut self, key: &str, value: &str)
        ensures
            final(self)@ == json::set_member(old(self)@, key@, value@),
            json::ordered(final(self)@),
    {
        proof {
            use_type_invariant(&*self);
        }
        let ghost before = self@;
        let ghost whole = json::set_member(before, key@, value@);
        let ghost entry = (key@, value@);
        let mut entries: Vec<MetadataEntry> = Vec::new();
        assert(entry_views(entries@) =~= Seq::<(Seq<char>, Seq<char>)>::empty());
        std::mem::swap(&mut entries, &mut self.entries);
        let mut at: usize = entries.len();
        assert(before.take(at as int) =~= before);
        assert(whole =~= json::set_member(before.take(at as int), key@, value@) + before.skip(
            at as int,
        ));
        while at > 0 && !text::same_text(entries[at - 1].key.as_str(), key)
            && !text::text_before(entries[at - 1].key.as_str(), key)
            invariant
                at <= entries.len(),
                before == entry_views(entries@),
                whole == json::set_member(before.take(at as int), key@, value@) + before.skip(
                    at as int,
                ),
            decreases at,
        {
            proof {
                let here = before.take(at as int);
                assert(here.last() == before[at - 1]);
                assert(here.drop_last() =~= before.take(at - 1));
                assert(before.skip(at - 1) =~= seq![before[at - 1]] + before.skip(at as int));
            }
            at -= 1;
            assert(whole =~= json::set_member(before.take(at as int), key@, value@) + before.skip(
                at as int,
            ));
        }
        let ghost here = before.take(at as int);
        let set = MetadataEntry { key: key.to_owned(), value: value.to_owned() };
        if at > 0 && text::same_text(entries[at - 1].key.as_str(), key) {
            entries.set(at - 1, set);
            proof {
                assert(here.last() == before[at - 1]);
                assert(here.drop_last().push(entry) + before.skip(at as int) =~= before.update(
                    at - 1,
                    entry,
                ));
                assert(entry_views(entries@) =~= before.update(at - 1, entry));
            }
        } else {
            entries.insert(at, set);
            proof {
                if at > 0 {
                    assert(here.last() == before[at - 1]);
                }
                assert(here.push(entry) + before.skip(at as int) =~= before.insert(
                    at as int,
                    entry,
                ));
                assert(entry_views(entries@) =~= before.insert(at as int, entry));
            }
        }
        proof {
            assert(entry_views(entries@) =~= whole);
            json::lemma_set_member_ordered(before, key@, value@);
        }
        self.entries = entries;
    }
}

/// The request made at the prompt boundary.
#[derive(Debug, Clone, PartialEq, Eq)]
pub struct CanonicalRequest {
    pub model: String,
    pub model_runtime: Option<ResolvedModelRuntime>,
    pub reasoning_effort: Option<String>,
    pub reasoning_replay: bool,
    pub system: Option<String>,
    pub service_tier: Option<String>,
    pub output_schema: Option<OutputSchema>,
    pub stream_options: RequestStreamOptions,
    pub client_metadata: ClientMetadata,
    pub cache_key: Option<String>,
    pub messages: Vec<Message>,
    pub tools: Vec<ToolSpec>,
    pub max_output_tokens: u32,
}

impl Default for CanonicalRequest {
    fn default() -> (request: Self)
        ensures
            request.model@.len() == 0,
            request.max_output_tokens == 0,
            request.messages@.len() == 0,
            request.tools@.len() == 0,
            request.is_basic(),
            request.model_runtime is None,
            request.reasoning_effort is None,
            !request.reasoning_replay,
            request.system is None,
    {
        CanonicalRequest {
            model: String::new(),
            model_runtime: None,
            reasoning_effort: None,
            reasoning_replay: false,
            system: None,
            service_tier: None,
            output_schema: None,
            stream_options: RequestStreamOptions::default(),
            client_metadata: ClientMetadata::new(),
            cache_key: None,
            messages: Vec::new(),
            tools: Vec::new(),
            max_output_tokens: 0,
        }
    }
}

impl CanonicalRequest {
    /// A request without tier, output schema, stream options, metadata and cache key.
    pub open spec fn is_basic(self) -> bool {
        &&& self.service_tier is None
        &&& self.output_schema is None
        &&& self.stream_options.is_default()
        &&& self.client_metadata@.len() == 0
        &&& self.cache_key is None
    }
}

/// Why a request is refused.
#[derive(Debug, Clone, PartialEq, Eq)]
pub enum CanonicalRequestValidationError {
    EmptyModel,
    ZeroMaxOutputTokens,
    InvalidServiceTier,
    InvalidOutputSchema { detail: String },
    InvalidClientMetadata { detail: String },
    InvalidModelRuntime { detail: String },
    UnsupportedImageModality { model: String },
    UnsupportedReasoningReplay { model: String },
    UnsupportedServiceTier { model: String, tier: String },
    IncompatibleControl { model: String, control: String },
    InvalidMessage { index: usize, detail: String },
    InvalidTool(ToolSpecValidationError),
    DuplicateToolName { tool: String },
    MissingDeferredToolSearch,
}

/// What is wrong with a request.
pub enum RequestFault {
    EmptyModel,
    ZeroMaxOutputTokens,
    InvalidServiceTier,
    InvalidOutputSchema(Seq<char>),
    InvalidClientMetadata(Seq<char>),
    InvalidModelRuntime(Seq<char>),
    UnsupportedImageModality(Seq<char>),
    UnsupportedReasoningReplay(Seq<char>),
    UnsupportedServiceTier(Seq<char>, Seq<char>),
    IncompatibleControl(Seq<char>, Seq<char>),
    InvalidMessage(nat, Seq<char>),
    InvalidTool(SpecFault),
    DuplicateToolName(Seq<char>),
    MissingDeferredToolSearch,
}

impl View for CanonicalRequestValidationError {
    type V = RequestFault;

    open spec fn view(&self) -> RequestFault {
        match self {
            CanonicalRequestValidationError::EmptyModel => RequestFault::EmptyModel,
            CanonicalRequestValidationError::ZeroMaxOutputTokens => {
                RequestFault::ZeroMaxOutputTokens
            },
            CanonicalRequestValidationError::InvalidServiceTier => RequestFault::InvalidServiceTier,
            CanonicalRequestValidationError::InvalidOutputSchema { detail } => {
                RequestFault::InvalidOutputSchema(detail@)
            },
            CanonicalRequestValidationError::InvalidClientMetadata { detail } => {
                RequestFault::InvalidClientMetadata(detail@)
            },
            CanonicalRequestValidationError::InvalidModelRuntime { detail } => {
                RequestFault::InvalidModelRuntime(detail@)
            },
            CanonicalRequestValidationError::UnsupportedImageModality { model } => {
                RequestFault::UnsupportedImageModality(model@)
            },
            CanonicalRequestValidationError::UnsupportedReasoningReplay { model } => {
                RequestFault::UnsupportedReasoningReplay(model@)
            },
            CanonicalRequestValidationError::UnsupportedServiceTier { model, tier } => {
                RequestFault::UnsupportedServiceTier(model@, tier@)
            },
            CanonicalRequestValidationError::IncompatibleControl { model, control } => {
                RequestFault::IncompatibleControl(model@, control@)
            },
            CanonicalRequestValidationError::InvalidMessage { index, detail } => {
                RequestFault::InvalidMessage(*index as nat, detail@)
            },
            CanonicalRequestValidationError::InvalidTool(error) => RequestFault::InvalidTool(
                error@,
            ),
            CanonicalRequestValidationError::DuplicateToolName { tool } => {
                RequestFault::DuplicateToolName(tool@)
            },
            CanonicalRequestValidationError::MissingDeferredToolSearch => {
                RequestFault::MissingDeferredToolSearch
            },
        }
    }
}

/// What a check gives where the fault is `fault`.
pub open spec fn reports(
    checked: Result<(), CanonicalRequestValidationError>,
    fault: Option<RequestFault>,
) -> bool {
    match (checked, fault) {
        (Ok(()), None) => true,
        (Err(error), Some(f)) => error@ == f,
        _ => false,
    }
}

impl CanonicalRequestValidationError {
    pub open spec fn text(self) -> Seq<char> {
        match self {
            CanonicalRequestValidationError::EmptyModel => "model is empty"@,
            CanonicalRequestValidationError::ZeroMaxOutputTokens => {
                "max_output_tokens must be greater than zero"@
            },
            CanonicalRequestValidationError::InvalidServiceTier => {
                "service tier must contain 1..=64 bytes"@
            },
            CanonicalRequestValidationError::InvalidOutputSchema { detail } => {
                "invalid output schema: "@ + detail@
            },
            CanonicalRequestValidationError::InvalidClientMetadata { detail } => {
                "invalid client metadata: "@ + detail@
            },
            CanonicalRequestValidationError::InvalidModelRuntime { detail } => {
                "invalid model runtime: "@ + detail@
            },
            CanonicalRequestValidationError::UnsupportedImageModality { model } => "model "@
                + model@ + " does not accept image input"@,
            CanonicalRequestValidationError::UnsupportedReasoningReplay { model } => "model "@
                + model@ + " does not support encrypted stateless reasoning replay"@,
            CanonicalRequestValidationError::UnsupportedServiceTier { model, tier } => "model "@
                + model@ + " does not support service tier "@ + tier@,
            CanonicalRequestValidationError::IncompatibleControl { model, control } => "model "@
                + model@ + " does not support request control "@ + control@,
            CanonicalRequestValidationError::InvalidMessage { index, detail } => "message "@
                + text::decimal(index as nat) + " is invalid: "@ + detail@,
            CanonicalRequestValidationError::InvalidTool(error) => "tool spec is invalid: "@
                + error.text(),
            CanonicalRequestValidationError::DuplicateToolName { tool } => "duplicate tool name: "@
                + tool@,
            CanonicalRequestValidationError::MissingDeferredToolSearch => {
                "deferred tools require a tool_search reference in the same catalog"@
            },
        }
    }

    /// The refusal in words.
    pub fn message(&self) -> (message: String)
        ensures
            message@ == self.text(),
    {
        match self {
            CanonicalRequestValidationError::EmptyModel => "model is empty".to_owned(),
            CanonicalRequestValidationError::ZeroMaxOutputTokens => {
                "max_output_tokens must be greater than zero".to_owned()
            },
            CanonicalRequestValidationError::InvalidServiceTier => {
                "service tier must contain 1..=64 bytes".to_owned()
            },
            CanonicalRequestValidationError::InvalidOutputSchema { detail } => {
                text::joined("invalid output schema: ", detail.as_str(), "", "")
            },
            CanonicalRequestValidationError::InvalidClientMetadata { detail } => {
                text::joined("invalid client metadata: ", detail.as_str(), "", "")
            },
            CanonicalRequestValidationError::InvalidModelRuntime { detail } => {
                text::joined("invalid model runtime: ", detail.as_str(), "", "")
            },
            CanonicalRequestValidationError::UnsupportedImageModality { model } => {
                text::joined("model ", model.as_str(), " does not accept image input", "")
            },
            CanonicalRequestValidationError::UnsupportedReasoningReplay { model } => {
                text::joined(
                    "model ",
                    model.as_str(),
                    " does not support encrypted stateless reasoning replay",
                    "",
                )
            },
            CanonicalRequestValidationError::UnsupportedServiceTier { model, tier } => {
                text::joined(
                    "model ",
                    model.as_str(),
                    " does not support service tier ",
                    tier.as_str(),
                )
            },
            CanonicalRequestValidationError::IncompatibleControl { model, control } => {
                text::joined(
                    "model ",
                    model.as_str(),
                    " does not support request control ",
                    control.as_str(),
                )
            },
            CanonicalRequestValidationError::InvalidMessage { index, detail } => {
                let number = text::decimal_of(*index as u128);
                text::joined("message ", number.as_str(), " is invalid: ", detail.as_str())
            },
            CanonicalRequestValidationError::InvalidTool(error) => {
                let detail = error.message();
                text::joined("tool spec is invalid: ", detail.as_str(), "", "")
            },
            CanonicalRequestValidationError::DuplicateToolName { tool } => {
                text::joined("duplicate tool name: ", tool.as_str(), "", "")
            },
            CanonicalRequestValidationError::MissingDeferredToolSearch => {
                "deferred tools require a tool_search reference in the same catalog".to_owned()
            },
        }
    }
}

// ---------------------------------------------------------------- what is refused

/// What is wrong with one entry of the client metadata.
pub open spec fn entry_fault(key: Seq<char>, value: Seq<char>) -> Option<RequestFault> {
    if key.len() == 0 || text::byte_len(key) > 128 || text::byte_len(value) > 1024 {
        Some(
            RequestFault::InvalidClientMetadata(
                "field `"@ + key + "` exceeds its key/value bound"@,
            ),
        )
    } else if redaction::sensitive(key) {
        Some(
            RequestFault::InvalidClientMetadata(
                "sensitive field `"@ + key + "` is not allowed"@,
            ),
        )
    } else if redaction::signed_url(value) {
        Some(
            RequestFault::InvalidClientMetadata(
                "signed URL in field `"@ + key + "` is not allowed"@,
            ),
        )
    } else {
        None
    }
}

pub open spec fn metadata_fault(entries: Seq<(Seq<char>, Seq<char>)>) -> Option<RequestFault> {
    if entries.len() > 64 {
        Some(RequestFault::InvalidClientMetadata("at most 64 entries are allowed"@))
    } else {
        first::first_some(
            entries.map_values(|entry: (Seq<char>, Seq<char>)| entry_fault(entry.0, entry.1)),
        )
    }
}

/// Whether a message holds an image block of its own.
pub open spec fn shows_image(message: Message) -> bool {
    exists|j: int| 0 <= j < message@.content.len() && #[trigger] message@.content[j] is Image
}

/// What is wrong with the message at this position.
pub open spec fn message_fault(messages: Seq<Message>, index: int) -> Option<RequestFault> {
    match messages[index]@.fault() {
        Some(fault) => Some(RequestFault::InvalidMessage(index as nat, fault.text())),
        None => None,
    }
}

pub open spec fn tool_fault(tool: ToolSpec) -> Option<RequestFault> {
    match tool@.fault() {
        Some(fault) => Some(RequestFault::InvalidTool(fault)),
        None => None,
    }
}

/// A name that an earlier tool has.
pub open spec fn repeated_name(tools: Seq<ToolSpec>, index: int) -> Option<RequestFault> {
    if exists|j: int| 0 <= j < index && (#[trigger] tools[j]).name@ == tools[index].name@ {
        Some(RequestFault::DuplicateToolName(tools[index].name@))
    } else {
        None
    }
}

pub open spec fn messages_fault(messages: Seq<Message>) -> Option<RequestFault> {
    first::first_some(Seq::new(messages.len(), |i: int| message_fault(messages, i)))
}

pub open spec fn tools_fault(tools: Seq<ToolSpec>) -> Option<RequestFault> {
    first::first_some(tools.map_values(|tool: ToolSpec| tool_fault(tool)))
}

pub open spec fn names_fault(tools: Seq<ToolSpec>) -> Option<RequestFault> {
    first::first_some(Seq::new(tools.len(), |i: int| repeated_name(tools, i)))
}

pub open spec fn deferral_fault(tools: Seq<ToolSpec>) -> Option<RequestFault> {
    if (exists|i: int| 0 <= i < tools.len() && (#[trigger] tools[i])@.deferred()) && !(exists|
        i: int,
    |
        0 <= i < tools.len() && (#[trigger] tools[i]).kind is ToolSearch) {
        Some(RequestFault::MissingDeferredToolSearch)
    } else {
        None
    }
}

/// The first fault there is, of two.
pub open spec fn either(a: Option<RequestFault>, b: Option<RequestFault>) -> Option<RequestFault> {
    if a is Some {
        a
    } else {
        b
    }
}

impl CanonicalRequest {
    /// What is wrong with the request's own fields.
    pub open spec fn header_fault(self) -> Option<RequestFault> {
        if text::blank(self.model@) {
            Some(RequestFault::EmptyModel)
        } else if self.max_output_tokens == 0 {
            Some(RequestFault::ZeroMaxOutputTokens)
        } else if self.service_tier matches Some(tier) && (text::blank(tier@) || text::byte_len(
            tier@,
        ) > 64) {
            Some(RequestFault::InvalidServiceTier)
        } else {
            match self.output_schema {
                Some(output) => if text::blank(output.name@) || text::byte_len(output.name@) > 64 {
                    Some(RequestFault::InvalidOutputSchema("name must contain 1..=64 bytes"@))
                } else if !(output.schema@ is Object) {
                    Some(RequestFault::InvalidOutputSchema("schema must be a JSON object"@))
                } else {
                    None
                },
                None => None,
            }
        }
    }

    /// Where the request contradicts the runtime it was resolved for.
    pub open spec fn runtime_fault(self, runtime: ResolvedModelRuntime) -> Option<RequestFault> {
        let slug = runtime.slug@;
        if runtime@.fault() is Some {
            Some(RequestFault::InvalidModelRuntime(runtime@.fault()->0.text()))
        } else if slug != self.model@ {
            Some(
                RequestFault::InvalidModelRuntime("runtime slug does not match request model"@),
            )
        } else if runtime.max_output_tokens != self.max_output_tokens {
            Some(
                RequestFault::InvalidModelRuntime("runtime output limit does not match request"@),
            )
        } else if text::opt_text(runtime.reasoning_effort) != text::opt_text(
            self.reasoning_effort,
        ) {
            Some(
                RequestFault::InvalidModelRuntime(
                    "runtime reasoning effort does not match request"@,
                ),
            )
        } else if self.service_tier matches Some(tier) && tier@ != "default"@ && !(exists|i: int|
            0 <= i < runtime.service_tiers@.len() && text::ascii_lower(
                (#[trigger] runtime.service_tiers@[i])@,
            ) == text::ascii_lower(tier@)) {
            Some(RequestFault::UnsupportedServiceTier(slug, self.service_tier->0@))
        } else if self.stream_options.reasoning_summary_delivery is Some
            && runtime.reasoning_effort is None {
            Some(RequestFault::IncompatibleControl(slug, "reasoning_summary_delivery"@))
        } else if self.reasoning_replay && runtime.reasoning_replay
            != ReasoningReplaySupport::Enabled {
            Some(RequestFault::UnsupportedReasoningReplay(slug))
        } else if !runtime.input_modalities@.contains(InputModality::Image) && exists|i: int|
            0 <= i < self.messages@.len() && shows_image(#[trigger] self.messages@[i]) {
            Some(RequestFault::UnsupportedImageModality(slug))
        } else {
            None
        }
    }

    /// The first thing that is wrong with the request.
    pub open spec fn fault(self) -> Option<RequestFault> {
        either(
            self.header_fault(),
            either(
                metadata_fault(self.client_metadata@),
                either(
                    match self.model_runtime {
                        Some(runtime) => self.runtime_fault(runtime),
                        None => None,
                    },
                    either(
                        messages_fault(self.messages@),
                        either(
                            tools_fault(self.tools@),
                            either(names_fault(self.tools@), deferral_fault(self.tools@)),
                        ),
                    ),
                ),
            ),
        )
    }
}

// ---------------------------------------------------------------- the checks

fn bad_metadata(before: &str, key: &str, after: &str) -> (error: Result<
    (),
    CanonicalRequestValidationError,
>)
    ensures
        reports(error, Some(RequestFault::InvalidClientMetadata(before@ + key@ + after@))),
{
    Err(
        CanonicalRequestValidationError::InvalidClientMetadata {
            detail: text::joined(before, key, after, ""),
        },
    )
}

fn bad_runtime(detail: &str) -> (error: Result<(), CanonicalRequestValidationError>)
    ensures
        reports(error, Some(RequestFault::InvalidModelRuntime(detail@))),
{
    Err(CanonicalRequestValidationError::InvalidModelRuntime { detail: detail.to_owned() })
}

fn validate_entry(entry: &MetadataEntry) -> (checked: Result<(), CanonicalRequestValidationError>)
    ensures
        reports(checked, entry_fault(entry.key@, entry.value@)),
{
    let key = entry.key.as_str();
    let value = entry.value.as_str();
    let key_bytes: usize = text::byte_len_of(key);
    proof {
        text::lemma_byte_len_bounds(key@);
    }
    if key_bytes == 0 || key_bytes > 128 || text::byte_len_of(value) > 1024 {
        return bad_metadata("field `", key, "` exceeds its key/value bound");
    }
    if redaction::is_sensitive_key(key) {
        return bad_metadata("sensitive field `", key, "` is not allowed");
    }
    if redaction::looks_like_signed_url(value) {
        return bad_metadata("signed URL in field `", key, "` is not allowed");
    }
    Ok(())
}

fn validate_client_metadata(metadata: &ClientMetadata) -> (checked: Result<
    (),
    CanonicalRequestValidationError,
>)
    ensures
        reports(checked, metadata_fault(metadata@)),
{
    let entries = metadata.entries();
    if entries.len() > 64 {
        return Err(
            CanonicalRequestValidationError::InvalidClientMetadata {
                detail: "at most 64 entries are allowed".to_owned(),
            },
        );
    }
    let ghost faults = metadata@.map_values(
        |entry: (Seq<char>, Seq<char>)| entry_fault(entry.0, entry.1),
    );
    let mut i: usize = 0;
    while i < entries.len()
        invariant
            i <= entries.len() <= 64,
            entry_views(entries@) == metadata@,
            faults == metadata@.map_values(
                |entry: (Seq<char>, Seq<char>)| entry_fault(entry.0, entry.1),
            ),
            forall|k: int| 0 <= k < i ==> (#[trigger] faults[k]) is None,
        decreases entries.len() - i,
    {
        let checked = validate_entry(&entries[i]);
        assert(metadata@[i as int] == (entries@[i as int].key@, entries@[i as int].value@));
        assert(faults[i as int] == entry_fault(
            entries@[i as int].key@,
            entries@[i as int].value@,
        ));
        if checked.is_err() {
            proof {
                first::lemma_first_some_at(faults, i as int);
            }
            return checked;
        }
        i += 1;
    }
    proof {
        first::lemma_first_some_at(faults, i as int);
    }
    Ok(())
}

fn offers_tier(tiers: &Vec<String>, tier: &str) -> (found: bool)
    ensures
        found == exists|i: int|
            0 <= i < tiers@.len() && text::ascii_lower((#[trigger] tiers@[i])@)
                == text::ascii_lower(tier@),
{
    let mut i: usize = 0;
    while i < tiers.len()
        invariant
            i <= tiers.len(),
            forall|k: int|
                0 <= k < i ==> text::ascii_lower((#[trigger] tiers@[k])@) != text::ascii_lower(
                    tier@,
                ),
        decreases tiers.len() - i,
    {
        if text::same_ignoring_case(tiers[i].as_str(), tier) {
            return true;
        }
        i += 1;
    }
    false
}

fn shows_an_image(message: &Message) -> (found: bool)
    ensures
        found == shows_image(*message),
{
    let mut i: usize = 0;
    while i < message.content.len()
        invariant
            i <= message.content.len(),
            forall|k: int| 0 <= k < i ==> !(#[trigger] message@.content[k] is Image),
        decreases message.content.len() - i,
    {
        assert(message@.content[i as int] == message.content@[i as int]@);
        if matches!(&message.content[i], ContentBlock::Image { .. }) {
            return true;
        }
        i += 1;
    }
    false
}

fn any_shows_image(messages: &Vec<Message>) -> (found: bool)
    ensures
        found == exists|i: int|
            0 <= i < messages@.len() && shows_image(#[trigger] messages@[i]),
{
    let mut i: usize = 0;
    while i < messages.len()
        invariant
            i <= messages.len(),
            forall|k: int| 0 <= k < i ==> !shows_image(#[trigger] messages@[k]),
        decreases messages.len() - i,
    {
        if shows_an_image(&messages[i]) {
            return true;
        }
        i += 1;
    }
    false
}

fn validate_messages(messages: &Vec<Message>) -> (checked: Result<
    (),
    CanonicalRequestValidationError,
>)
    ensures
        reports(checked, messages_fault(messages@)),
{
    let ghost faults = Seq::new(messages@.len(), |i: int| message_fault(messages@, i));
    let mut i: usize = 0;
    while i < messages.len()
        invariant
            i <= messages.len(),
            faults == Seq::new(messages@.len(), |i: int| message_fault(messages@, i)),
            forall|k: int| 0 <= k < i ==> (#[trigger] faults[k]) is None,
        decreases messages.len() - i,
    {
        assert(faults[i as int] == message_fault(messages@, i as int));
        match messages[i].validate() {
            Ok(()) => {},
            Err(error) => {
                proof {
                    first::lemma_first_some_at(faults, i as int);
                }
                return Err(
                    CanonicalRequestValidationError::InvalidMessage {
                        index: i,
                        detail: error.message(),
                    },
                );
            },
        }
        i += 1;
    }
    proof {
        first::lemma_first_some_at(faults, i as int);
    }
    Ok(())
}

fn validate_tools(tools: &Vec<ToolSpec>) -> (checked: Result<(), CanonicalRequestValidationError>)
    ensures
        reports(checked, tools_fault(tools@)),
{
    let ghost faults = tools@.map_values(|tool: ToolSpec| tool_fault(tool));
    let mut i: usize = 0;
    while i < tools.len()
        invariant
            i <= tools.len(),
            faults == tools@.map_values(|tool: ToolSpec| tool_fault(tool)),
            forall|k: int| 0 <= k < i ==> (#[trigger] faults[k]) is None,
        decreases tools.len() - i,
    {
        assert(faults[i as int] == tool_fault(tools@[i as int]));
        match tools[i].validate() {
            Ok(()) => {},
            Err(error) => {
                proof {
                    first::lemma_first_some_at(faults, i as int);
                }
                return Err(CanonicalRequestValidationError::InvalidTool(error));
            },
        }
        i += 1;
    }
    proof {
        first::lemma_first_some_at(faults, i as int);
    }
    Ok(())
}

fn name_seen(tools: &Vec<ToolSpec>, index: usize) -> (found: bool)
    requires
        index < tools@.len(),
    ensures
        found == exists|j: int|
            0 <= j < index && (#[trigger] tools@[j]).name@ == tools@[index as int].name@,
{
    let mut j: usize = 0;
    while j < index
        invariant
            j <= index < tools@.len(),
            forall|k: int|
                0 <= k < j ==> (#[trigger] tools@[k]).name@ != tools@[index as int].name@,
        decreases index - j,
    {
        if text::same_text(tools[j].name.as_str(), tools[index].name.as_str()) {
            return true;
        }
        j += 1;
    }
    false
}

fn validate_names(tools: &Vec<ToolSpec>) -> (checked: Result<(), CanonicalRequestValidationError>)
    ensures
        reports(checked, names_fault(tools@)),
{
    let ghost faults = Seq::new(tools@.len(), |i: int| repeated_name(tools@, i));
    let mut i: usize = 0;
    while i < tools.len()
        invariant
            i <= tools.len(),
            faults == Seq::new(tools@.len(), |i: int| repeated_name(tools@, i)),
            forall|k: int| 0 <= k < i ==> (#[trigger] faults[k]) is None,
        decreases tools.len() - i,
    {
        assert(faults[i as int] == repeated_name(tools@, i as int));
        if name_seen(tools, i) {
            proof {
                first::lemma_first_some_at(faults, i as int);
            }
            return Err(
                CanonicalRequestValidationError::DuplicateToolName { tool: tools[i].name.clone() },
            );
        }
        i += 1;
    }
    proof {
        first::lemma_first_some_at(faults, i as int);
    }
    Ok(())
}

fn validate_deferral(tools: &Vec<ToolSpec>) -> (checked: Result<
    (),
    CanonicalRequestValidationError,
>)
    ensures
        reports(checked, deferral_fault(tools@)),
{
    let mut deferred = false;
    let mut search = false;
    let mut i: usize = 0;
    while i < tools.len()
        invariant
            i <= tools.len(),
            deferred == exists|k: int| 0 <= k < i && (#[trigger] tools@[k])@.deferred(),
            search == exists|k: int| 0 <= k < i && (#[trigger] tools@[k]).kind is ToolSearch,
        decreases tools.len() - i,
    {
        let here = tools[i].is_deferred();
        let searches = matches!(&tools[i].kind, ToolKind::ToolSearch { .. });
        proof {
            if here {
                assert(tools@[i as int]@.deferred());
            }
            if searches {
                assert(tools@[i as int].kind is ToolSearch);
            }
        }
        deferred = deferred || here;
        search = search || searches;
        i += 1;
    }
    if deferred && !search {
        Err(CanonicalRequestValidationError::MissingDeferredToolSearch)
    } else {
        Ok(())
    }
}

impl CanonicalRequest {
    fn validate_header(&self) -> (checked: Result<(), CanonicalRequestValidationError>)
        ensures
            reports(checked, self.header_fault()),
    {
        if text::is_blank(self.model.as_str()) {
            return Err(CanonicalRequestValidationError::EmptyModel);
        }
        if self.max_output_tokens == 0 {
            return Err(CanonicalRequestValidationError::ZeroMaxOutputTokens);
        }
        match &self.service_tier {
            Some(tier) => {
                if text::is_blank(tier.as_str()) || text::byte_len_of(tier.as_str()) > 64 {
                    return Err(CanonicalRequestValidationError::InvalidServiceTier);
                }
            },
            None => {},
        }
        match &self.output_schema {
            Some(output) => {
                if text::is_blank(output.name.as_str()) || text::byte_len_of(output.name.as_str())
                    > 64 {
                    return Err(
                        CanonicalRequestValidationError::InvalidOutputSchema {
                            detail: "name must contain 1..=64 bytes".to_owned(),
                        },
                    );
                }
                if !output.schema.is_object() {
                    return Err(
                        CanonicalRequestValidationError::InvalidOutputSchema {
                            detail: "schema must be a JSON object".to_owned(),
                        },
                    );
                }
            },
            None => {},
        }
        Ok(())
    }

    fn validate_runtime(&self, runtime: &ResolvedModelRuntime) -> (checked: Result<
        (),
        CanonicalRequestValidationError,
    >)
        ensures
            reports(checked, self.runtime_fault(*runtime)),
    {
        match runtime.validate() {
            Ok(()) => {},
            Err(error) => {
                let detail = error.message();
                return bad_runtime(detail.as_str());
            },
        }
        if !text::same_text(runtime.slug.as_str(), self.model.as_str()) {
            return bad_runtime("runtime slug does not match request model");
        }
        if runtime.max_output_tokens != self.max_output_tokens {
            return bad_runtime("runtime output limit does not match request");
        }
        if !text::same_opt(&runtime.reasoning_effort, &self.reasoning_effort) {
            return bad_runtime("runtime reasoning effort does not match request");
        }
        match &self.service_tier {
            Some(tier) => {
                if !text::same_text(tier.as_str(), "default") && !offers_tier(
                    &runtime.service_tiers,
                    tier.as_str(),
                ) {
                    return Err(
                        CanonicalRequestValidationError::UnsupportedServiceTier {
                            model: runtime.slug.clone(),
                            tier: tier.clone(),
                        },
                    );
                }
            },
            None => {},
        }
        if self.stream_options.reasoning_summary_delivery.is_some()
            && runtime.reasoning_effort.is_none() {
            return Err(
                CanonicalRequestValidationError::IncompatibleControl {
                    model: runtime.slug.clone(),
                    control: "reasoning_summary_delivery".to_owned(),
                },
            );
        }
        if self.reasoning_replay && runtime.reasoning_replay != ReasoningReplaySupport::Enabled {
            return Err(
                CanonicalRequestValidationError::UnsupportedReasoningReplay {
                    model: runtime.slug.clone(),
                },
            );
        }
        if !runtime.accepts_images() && any_shows_image(&self.messages) {
            return Err(
                CanonicalRequestValidationError::UnsupportedImageModality {
                    model: runtime.slug.clone(),
                },
            );
        }
        Ok(())
    }

    /// Refuses the first thing that is wrong with a request, before it leaves.
    pub fn validate(&self) -> (checked: Result<(), CanonicalRequestValidationError>)
        ensures
            reports(checked, self.fault()),
    {
        let header = self.validate_header();
        if header.is_err() {
            return header;
        }
        let metadata = validate_client_metadata(&self.client_metadata);
        if metadata.is_err() {
            return metadata;
        }
        match &self.model_runtime {
            Some(runtime) => {
                let resolved = self.validate_runtime(runtime);
                if resolved.is_err() {
                    return resolved;
                }
            },
            None => {},
        }
        let messages = validate_messages(&self.messages);
        if messages.is_err() {
            return messages;
        }
        let tools = validate_tools(&self.tools);
        if tools.is_err() {
            return tools;
        }
        let names = validate_names(&self.tools);
        if names.is_err() {
            return names;
        }
        validate_deferral(&self.tools)
    }
}

/// A valid request has a model, a positive output limit, at most 64 metadata entries none of
/// which is sensitive, valid messages, and tools with distinct names.
pub proof fn law_valid_requests(request: CanonicalRequest, i: int, j: int)
    requires
        request.fault() is None,
    ensures
        !text::blank(request.model@),
        request.max_output_tokens > 0,
        request.client_metadata@.len() <= 64,
        0 <= i < request.client_metadata@.len() ==> !redaction::sensitive(
            request.client_metadata@[i].0,
        ) && !redaction::signed_url(request.client_metadata@[i].1),
        0 <= i < request.messages@.len() ==> request.messages@[i]@.fault() is None,
        0 <= i < j < request.tools@.len() ==> request.tools@[i].name@ != request.tools@[j].name@,
{
    let entries = request.client_metadata@;
    let entry_faults = entries.map_values(
        |entry: (Seq<char>, Seq<char>)| entry_fault(entry.0, entry.1),
    );
    if 0 <= i < entries.len() {
        first::lemma_first_some_none(entry_faults, i);
        assert(entry_faults[i] == entry_fault(entries[i].0, entries[i].1));
    }
    if 0 <= i < request.messages@.len() {
        let faults = Seq::new(
            request.messages@.len(),
            |k: int| message_fault(request.messages@, k),
        );
        first::lemma_first_some_none(faults, i);
        assert(faults[i] == message_fault(request.messages@, i));
    }
    if 0 <= i < j < request.tools@.len() {
        let faults = Seq::new(request.tools@.len(), |k: int| repeated_name(request.tools@, k));
        first::lemma_first_some_none(faults, j);
        assert(faults[j] == repeated_name(request.tools@, j));
    }
}

/// An entry of the metadata passes exactly where it is bounded, its name carries no credential and
/// its value is no signed URL.
pub proof fn law_metadata_that_passes(entries: Seq<(Seq<char>, Seq<char>)>)
    ensures
        metadata_fault(entries) is None <==> entries.len() <= 64 && forall|i: int|
            0 <= i < entries.len() ==> {
                let entry = #[trigger] entries[i];
                &&& 0 < entry.0.len() && text::byte_len(entry.0) <= 128 && text::byte_len(entry.1)
                    <= 1024
                &&& !redaction::sensitive(entry.0) && !redaction::signed_url(entry.1)
            },
{
    let faults = entries.map_values(
        |entry: (Seq<char>, Seq<char>)| entry_fault(entry.0, entry.1),
    );
    first::lemma_no_first(faults);
    assert forall|i: int| 0 <= i < entries.len() implies (#[trigger] faults[i]) == entry_fault(
        entries[i].0,
        entries[i].1,
    ) by {}
    if first::first_some(faults) is None {
        assert forall|i: int| 0 <= i < entries.len() implies entry_fault(
            (#[trigger] entries[i]).0,
            entries[i].1,
        ) is None by {
            assert(faults[i] is None);
        }
    }
}

/// A request agrees with the runtime that it was resolved for: the same model, output limit and
/// effort, a tier that the model has, and no control, replay or image that the model does not take.
pub proof fn law_requests_agree_with_their_runtime(
    request: CanonicalRequest,
    runtime: ResolvedModelRuntime,
)
    ensures
        request.runtime_fault(runtime) is None <==> {
            &&& runtime@.fault() is None
            &&& runtime.slug@ == request.model@
            &&& runtime.max_output_tokens == request.max_output_tokens
            &&& text::opt_text(runtime.reasoning_effort) == text::opt_text(request.reasoning_effort)
            &&& request.service_tier matches Some(tier) ==> tier@ == "default"@ || exists|i: int|
                0 <= i < runtime.service_tiers@.len() && text::ascii_lower(
                    (#[trigger] runtime.service_tiers@[i])@,
                ) == text::ascii_lower(tier@)
            &&& request.stream_options.reasoning_summary_delivery is Some
                ==> runtime.reasoning_effort is Some
            &&& request.reasoning_replay ==> runtime.reasoning_replay
                == ReasoningReplaySupport::Enabled
            &&& runtime.input_modalities@.contains(InputModality::Image) || forall|i: int|
                0 <= i < request.messages@.len() ==> !shows_image(#[trigger] request.messages@[i])
        },
{
}

/// A request passes exactly where its own fields, its metadata, its runtime, each of its messages
/// and each of its tools do, where no two tools have one name, and where tools that are loaded on
/// demand come with a search.
pub proof fn law_requests_that_pass(request: CanonicalRequest)
    ensures
        request.fault() is None <==> {
            &&& !text::blank(request.model@) && request.max_output_tokens > 0
            &&& request.service_tier matches Some(tier) ==> !text::blank(tier@) && text::byte_len(
                tier@,
            ) <= 64
            &&& request.output_schema matches Some(output) ==> !text::blank(output.name@)
                && text::byte_len(output.name@) <= 64 && output.schema@ is Object
            &&& metadata_fault(request.client_metadata@) is None
            &&& request.model_runtime matches Some(runtime) ==> request.runtime_fault(
                runtime,
            ) is None
            &&& forall|i: int|
                0 <= i < request.messages@.len() ==> (#[trigger] request.messages@[i])@.fault()
                    is None
            &&& forall|i: int|
                0 <= i < request.tools@.len() ==> (#[trigger] request.tools@[i])@.fault() is None
            &&& forall|i: int, j: int|
                0 <= i < j < request.tools@.len() ==> (#[trigger] request.tools@[i]).name@ != (
                #[trigger] request.tools@[j]).name@
            &&& (exists|i: int|
                0 <= i < request.tools@.len() && (#[trigger] request.tools@[i])@.deferred()) ==> (
            exists|i: int|
                0 <= i < request.tools@.len() && (#[trigger] request.tools@[i]).kind is ToolSearch)
        },
{
    let messages = request.messages@;
    let tools = request.tools@;
    let of_messages = Seq::new(messages.len(), |i: int| message_fault(messages, i));
    let of_tools = tools.map_values(|tool: ToolSpec| tool_fault(tool));
    let of_names = Seq::new(tools.len(), |i: int| repeated_name(tools, i));
    first::lemma_no_first(of_messages);
    first::lemma_no_first(of_tools);
    first::lemma_no_first(of_names);
    if messages_fault(messages) is None {
        assert forall|i: int| 0 <= i < messages.len() implies (#[trigger] messages[i])@.fault()
            is None by {
            assert(of_messages[i] == message_fault(messages, i));
        }
    }
    if tools_fault(tools) is None {
        assert forall|i: int| 0 <= i < tools.len() implies (#[trigger] tools[i])@.fault()
            is None by {
            assert(of_tools[i] == tool_fault(tools[i]));
        }
    }
    if names_fault(tools) is None {
        assert forall|i: int, j: int| 0 <= i < j < tools.len() implies (#[trigger] tools[i]).name@
            != (#[trigger] tools[j]).name@ by {
            assert(of_names[j] == repeated_name(tools, j));
        }
    } else {
        let at = choose|at: int| 0 <= at < of_names.len() && (#[trigger] of_names[at]) is Some;
        assert(repeated_name(tools, at) is Some);
        let j = choose|j: int| 0 <= j < at && (#[trigger] tools[j]).name@ == tools[at].name@;
        assert(tools[j].name@ == tools[at].name@);
    }
    if tools_fault(tools) is Some {
        let at = choose|at: int| 0 <= at < of_tools.len() && (#[trigger] of_tools[at]) is Some;
        assert(tool_fault(tools[at]) is Some);
    }
    if messages_fault(messages) is Some {
        let at = choose|at: int|
            0 <= at < of_messages.len() && (#[trigger] of_messages[at]) is Some;
        assert(message_fault(messages, at) is Some);
        assert(messages[at]@.fault() is Some);
    }
}

/// A message shows an image wherever a block of it is one.
pub proof fn law_images_are_seen(message: Message, j: int)
    requires
        0 <= j < message@.content.len(),
    ensures
        message@.content[j] is Image ==> shows_image(message),
        (forall|k: int| 0 <= k < message@.content.len() ==> !(#[trigger] message@.content[k]
            is Image)) ==> !shows_image(message),
{
}

} // verus!
