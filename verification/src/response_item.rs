//! Response items of a provider: typed by kind, with the whole payload bounded and sanitized.
use crate::json::{Json, JsonMember, JsonView};
use crate::provider_extension;
use crate::provider_extension::{ExtensionView, ProviderExtension};
use crate::text;
use vstd::prelude::*;
use vstd::string::*;

verus! {

#[derive(Debug, Clone, Copy, PartialEq, Eq, Structural)]
pub enum ResponseItemPhase {
    Added,
    Done,
}

#[derive(Debug, PartialEq, Eq)]
pub enum ResponseItemKind {
    Message,
    AgentMessage,
    Reasoning,
    LocalShellCall,
    FunctionCall,
    FunctionCallOutput,
    CustomToolCall,
    CustomToolCallOutput,
    ToolSearchCall,
    ToolSearchOutput,
    WebSearchCall,
    ImageGenerationCall,
    Compaction,
    CompactionTrigger,
    ContextCompaction,
    Other(String),
}

/// What the kind of an item is.
pub enum ItemKind {
    Message,
    AgentMessage,
    Reasoning,
    LocalShellCall,
    FunctionCall,
    FunctionCallOutput,
    CustomToolCall,
    CustomToolCallOutput,
    ToolSearchCall,
    ToolSearchOutput,
    WebSearchCall,
    ImageGenerationCall,
    Compaction,
    CompactionTrigger,
    ContextCompaction,
    Other(Seq<char>),
}

impl View for ResponseItemKind {
    type V = ItemKind;

    open spec fn view(&self) -> ItemKind {
        match self {
            ResponseItemKind::Message => ItemKind::Message,
            ResponseItemKind::AgentMessage => ItemKind::AgentMessage,
            ResponseItemKind::Reasoning => ItemKind::Reasoning,
            ResponseItemKind::LocalShellCall => ItemKind::LocalShellCall,
            ResponseItemKind::FunctionCall => ItemKind::FunctionCall,
            ResponseItemKind::FunctionCallOutput => ItemKind::FunctionCallOutput,
            ResponseItemKind::CustomToolCall => ItemKind::CustomToolCall,
            ResponseItemKind::CustomToolCallOutput => ItemKind::CustomToolCallOutput,
            ResponseItemKind::ToolSearchCall => ItemKind::ToolSearchCall,
            ResponseItemKind::ToolSearchOutput => ItemKind::ToolSearchOutput,
            ResponseItemKind::WebSearchCall => ItemKind::WebSearchCall,
            ResponseItemKind::ImageGenerationCall => ItemKind::ImageGenerationCall,
            ResponseItemKind::Compaction => ItemKind::Compaction,
            ResponseItemKind::CompactionTrigger => ItemKind::CompactionTrigger,
            ResponseItemKind::ContextCompaction => ItemKind::ContextCompaction,
            ResponseItemKind::Other(name) => ItemKind::Other(name@),
        }
    }
}

/// The kind that a wire type names; an unknown one is kept, clipped to 128 characters.
pub open spec fn kind_of(wire: Seq<char>) -> ItemKind {
    if wire == "message"@ {
        ItemKind::Message
    } else if wire == "agent_message"@ {
        ItemKind::AgentMessage
    } else if wire == "reasoning"@ {
        ItemKind::Reasoning
    } else if wire == "local_shell_call"@ {
        ItemKind::LocalShellCall
    } else if wire == "function_call"@ {
        ItemKind::FunctionCall
    } else if wire == "function_call_output"@ {
        ItemKind::FunctionCallOutput
    } else if wire == "custom_tool_call"@ {
        ItemKind::CustomToolCall
    } else if wire == "custom_tool_call_output"@ {
        ItemKind::CustomToolCallOutput
    } else if wire == "tool_search_call"@ {
        ItemKind::ToolSearchCall
    } else if wire == "tool_search_output"@ {
        ItemKind::ToolSearchOutput
    } else if wire == "web_search_call"@ {
        ItemKind::WebSearchCall
    } else if wire == "image_generation_call"@ {
        ItemKind::ImageGenerationCall
    } else if wire == "compaction"@ || wire == "compaction_summary"@ {
        ItemKind::Compaction
    } else if wire == "compaction_trigger"@ {
        ItemKind::CompactionTrigger
    } else if wire == "context_compaction"@ {
        ItemKind::ContextCompaction
    } else {
        ItemKind::Other(provider_extension::clipped(wire, 128))
    }
}

impl ItemKind {
    /// The wire type of the kind.
    pub open spec fn wire(self) -> Seq<char> {
        match self {
            ItemKind::Message => "message"@,
            ItemKind::AgentMessage => "agent_message"@,
            ItemKind::Reasoning => "reasoning"@,
            ItemKind::LocalShellCall => "local_shell_call"@,
            ItemKind::FunctionCall => "function_call"@,
            ItemKind::FunctionCallOutput => "function_call_output"@,
            ItemKind::CustomToolCall => "custom_tool_call"@,
            ItemKind::CustomToolCallOutput => "custom_tool_call_output"@,
            ItemKind::ToolSearchCall => "tool_search_call"@,
            ItemKind::ToolSearchOutput => "tool_search_output"@,
            ItemKind::WebSearchCall => "web_search_call"@,
            ItemKind::ImageGenerationCall => "image_generation_call"@,
            ItemKind::Compaction => "compaction"@,
            ItemKind::CompactionTrigger => "compaction_trigger"@,
            ItemKind::ContextCompaction => "context_compaction"@,
            ItemKind::Other(name) => name,
        }
    }
}

impl ResponseItemKind {
    pub fn from_wire_type(value: &str) -> (kind: ResponseItemKind)
        ensures
            kind@ == kind_of(value@),
    {
        if text::same_text(value, "message") {
            ResponseItemKind::Message
        } else if text::same_text(value, "agent_message") {
            ResponseItemKind::AgentMessage
        } else if text::same_text(value, "reasoning") {
            ResponseItemKind::Reasoning
        } else if text::same_text(value, "local_shell_call") {
            ResponseItemKind::LocalShellCall
        } else if text::same_text(value, "function_call") {
            ResponseItemKind::FunctionCall
        } else if text::same_text(value, "function_call_output") {
            ResponseItemKind::FunctionCallOutput
        } else if text::same_text(value, "custom_tool_call") {
            ResponseItemKind::CustomToolCall
        } else if text::same_text(value, "custom_tool_call_output") {
            ResponseItemKind::CustomToolCallOutput
        } else if text::same_text(value, "tool_search_call") {
            ResponseItemKind::ToolSearchCall
        } else if text::same_text(value, "tool_search_output") {
            ResponseItemKind::ToolSearchOutput
        } else if text::same_text(value, "web_search_call") {
            ResponseItemKind::WebSearchCall
        } else if text::same_text(value, "image_generation_call") {
            ResponseItemKind::ImageGenerationCall
        } else if text::same_text(value, "compaction") || text::same_text(value, "compaction_summary") {
            ResponseItemKind::Compaction
        } else if text::same_text(value, "compaction_trigger") {
            ResponseItemKind::CompactionTrigger
        } else if text::same_text(value, "context_compaction") {
            ResponseItemKind::ContextCompaction
        } else {
            ResponseItemKind::Other(provider_extension::clip(value, 128))
        }
    }

    pub fn wire_type(&self) -> (wire: &str)
        ensures
            wire@ == self@.wire(),
    {
        match self {
            ResponseItemKind::Message => "message",
            ResponseItemKind::AgentMessage => "agent_message",
            ResponseItemKind::Reasoning => "reasoning",
            ResponseItemKind::LocalShellCall => "local_shell_call",
            ResponseItemKind::FunctionCall => "function_call",
            ResponseItemKind::FunctionCallOutput => "function_call_output",
            ResponseItemKind::CustomToolCall => "custom_tool_call",
            ResponseItemKind::CustomToolCallOutput => "custom_tool_call_output",
            ResponseItemKind::ToolSearchCall => "tool_search_call",
            ResponseItemKind::ToolSearchOutput => "tool_search_output",
            ResponseItemKind::WebSearchCall => "web_search_call",
            ResponseItemKind::ImageGenerationCall => "image_generation_call",
            ResponseItemKind::Compaction => "compaction",
            ResponseItemKind::CompactionTrigger => "compaction_trigger",
            ResponseItemKind::ContextCompaction => "context_compaction",
            ResponseItemKind::Other(name) => name.as_str(),
        }
    }

    pub fn is_other(&self) -> (yes: bool)
        ensures
            yes == (self@ is Other),
    {
        match self {
            ResponseItemKind::Other(_) => true,
            _ => false,
        }
    }

    fn same_kind(&self, other: &ResponseItemKind) -> (same: bool)
        ensures
            same == (self@ == other@),
    {
        match (self, other) {
            (ResponseItemKind::Message, ResponseItemKind::Message) => true,
            (ResponseItemKind::AgentMessage, ResponseItemKind::AgentMessage) => true,
            (ResponseItemKind::Reasoning, ResponseItemKind::Reasoning) => true,
            (ResponseItemKind::LocalShellCall, ResponseItemKind::LocalShellCall) => true,
            (ResponseItemKind::FunctionCall, ResponseItemKind::FunctionCall) => true,
            (ResponseItemKind::FunctionCallOutput, ResponseItemKind::FunctionCallOutput) => true,
            (ResponseItemKind::CustomToolCall, ResponseItemKind::CustomToolCall) => true,
            (ResponseItemKind::CustomToolCallOutput, ResponseItemKind::CustomToolCallOutput) => true,
            (ResponseItemKind::ToolSearchCall, ResponseItemKind::ToolSearchCall) => true,
            (ResponseItemKind::ToolSearchOutput, ResponseItemKind::ToolSearchOutput) => true,
            (ResponseItemKind::WebSearchCall, ResponseItemKind::WebSearchCall) => true,
            (ResponseItemKind::ImageGenerationCall, ResponseItemKind::ImageGenerationCall) => true,
            (ResponseItemKind::Compaction, ResponseItemKind::Compaction) => true,
            (ResponseItemKind::CompactionTrigger, ResponseItemKind::CompactionTrigger) => true,
            (ResponseItemKind::ContextCompaction, ResponseItemKind::ContextCompaction) => true,
            (ResponseItemKind::Other(a), ResponseItemKind::Other(b)) => text::same_text(
                a.as_str(),
                b.as_str(),
            ),
            _ => false,
        }
    }
}

impl Clone for ResponseItemKind {
    fn clone(&self) -> (copy: Self)
        ensures
            copy@ == self@,
    {
        match self {
            ResponseItemKind::Message => ResponseItemKind::Message,
            ResponseItemKind::AgentMessage => ResponseItemKind::AgentMessage,
            ResponseItemKind::Reasoning => ResponseItemKind::Reasoning,
            ResponseItemKind::LocalShellCall => ResponseItemKind::LocalShellCall,
            ResponseItemKind::FunctionCall => ResponseItemKind::FunctionCall,
            ResponseItemKind::FunctionCallOutput => ResponseItemKind::FunctionCallOutput,
            ResponseItemKind::CustomToolCall => ResponseItemKind::CustomToolCall,
            ResponseItemKind::CustomToolCallOutput => ResponseItemKind::CustomToolCallOutput,
            ResponseItemKind::ToolSearchCall => ResponseItemKind::ToolSearchCall,
            ResponseItemKind::ToolSearchOutput => ResponseItemKind::ToolSearchOutput,
            ResponseItemKind::WebSearchCall => ResponseItemKind::WebSearchCall,
            ResponseItemKind::ImageGenerationCall => ResponseItemKind::ImageGenerationCall,
            ResponseItemKind::Compaction => ResponseItemKind::Compaction,
            ResponseItemKind::CompactionTrigger => ResponseItemKind::CompactionTrigger,
            ResponseItemKind::ContextCompaction => ResponseItemKind::ContextCompaction,
            ResponseItemKind::Other(name) => ResponseItemKind::Other(name.clone()),
        }
    }
}

/// Writing the kind of an item and reading it again gives the same kind.
pub proof fn law_kind_survives_the_wire(wire: Seq<char>)
    ensures
        kind_of(kind_of(wire).wire()) == kind_of(wire),
{
    reveal_strlit("message");
    reveal_strlit("agent_message");
    reveal_strlit("reasoning");
    reveal_strlit("local_shell_call");
    reveal_strlit("function_call");
    reveal_strlit("function_call_output");
    reveal_strlit("custom_tool_call");
    reveal_strlit("custom_tool_call_output");
    reveal_strlit("tool_search_call");
    reveal_strlit("tool_search_output");
    reveal_strlit("web_search_call");
    reveal_strlit("image_generation_call");
    reveal_strlit("compaction");
    reveal_strlit("compaction_trigger");
    reveal_strlit("context_compaction");
    reveal_strlit("compaction_summary");
    assert("agent_message"@[0] == 'a' && "function_call"@[0] == 'f');
    assert("local_shell_call"@[0] == 'l' && "custom_tool_call"@[0] == 'c');
    assert("tool_search_call"@[0] == 't' && "tool_search_output"@[0] == 't');
    assert("compaction_trigger"@[2] == 'm' && "context_compaction"@[2] == 'n');
    assert("compaction_summary"@[2] == 'm' && "compaction_summary"@[11] == 's');
    assert("compaction_trigger"@[11] == 't' && "compaction_trigger"@[0] == 'c');
    assert("context_compaction"@[0] == 'c' && "compaction_summary"@[0] == 'c');
    assert("message"@.len() == 7);
    assert("agent_message"@.len() == 13);
    assert("reasoning"@.len() == 9);
    assert("local_shell_call"@.len() == 16);
    assert("function_call"@.len() == 13);
    assert("function_call_output"@.len() == 20);
    assert("custom_tool_call"@.len() == 16);
    assert("custom_tool_call_output"@.len() == 23);
    assert("tool_search_call"@.len() == 16);
    assert("tool_search_output"@.len() == 18);
    assert("web_search_call"@.len() == 15);
    assert("image_generation_call"@.len() == 21);
    assert("compaction"@.len() == 10);
    assert("compaction_trigger"@.len() == 18);
    assert("context_compaction"@.len() == 18);
    assert("compaction_summary"@.len() == 18);
    assert(kind_of("message"@) == ItemKind::Message);
    assert(kind_of("agent_message"@) == ItemKind::AgentMessage);
    assert(kind_of("reasoning"@) == ItemKind::Reasoning);
    assert(kind_of("local_shell_call"@) == ItemKind::LocalShellCall);
    assert(kind_of("function_call"@) == ItemKind::FunctionCall);
    assert(kind_of("function_call_output"@) == ItemKind::FunctionCallOutput);
    assert(kind_of("custom_tool_call"@) == ItemKind::CustomToolCall);
    assert(kind_of("custom_tool_call_output"@) == ItemKind::CustomToolCallOutput);
    assert(kind_of("tool_search_call"@) == ItemKind::ToolSearchCall);
    assert(kind_of("tool_search_output"@) == ItemKind::ToolSearchOutput);
    assert(kind_of("web_search_call"@) == ItemKind::WebSearchCall);
    assert(kind_of("image_generation_call"@) == ItemKind::ImageGenerationCall);
    assert(kind_of("compaction"@) == ItemKind::Compaction);
    assert(kind_of("compaction_trigger"@) == ItemKind::CompactionTrigger);
    assert(kind_of("context_compaction"@) == ItemKind::ContextCompaction);
    let again = kind_of(wire).wire();
    if kind_of(wire) is Other {
        assert(again == provider_extension::clipped(wire, 128));
        assert(again.len() <= 128);
        if wire.len() > 128 {
            assert(again.len() == 128);
        }
    }
}

#[derive(Debug, Clone, Copy, PartialEq, Eq)]
pub enum ResponseItemError {
    NotObject,
    MissingType,
    InvalidType,
    InvalidField { field: &'static str },
}

impl ResponseItemError {
    /// The text of the error.
    pub open spec fn text(self) -> Seq<char> {
        match self {
            ResponseItemError::NotObject => "response item must be an object"@,
            ResponseItemError::MissingType => "response item type is missing"@,
            ResponseItemError::InvalidType => "response item type is invalid"@,
            ResponseItemError::InvalidField { field } => "response item field "@ + field@
                + " is missing or invalid"@,
        }
    }

    /// The error in words.
    pub fn message(&self) -> (message: String)
        ensures
            message@ == self.text(),
    {
        match self {
            ResponseItemError::NotObject => "response item must be an object".to_owned(),
            ResponseItemError::MissingType => "response item type is missing".to_owned(),
            ResponseItemError::InvalidType => "response item type is invalid".to_owned(),
            ResponseItemError::InvalidField { field } => {
                let mut message = "response item field ".to_owned();
                message.append(field);
                message.append(" is missing or invalid");
                message
            },
        }
    }
}

/// A bounded item with the kind, the identity and the state that it states of itself.
#[derive(Debug, PartialEq, Eq)]
pub struct ResponseItem {
    id: Option<String>,
    status: Option<String>,
    kind: ResponseItemKind,
    payload: ProviderExtension,
    diagnostic: Option<String>,
}

/// What an item is.
pub struct ItemView {
    pub id: Option<Seq<char>>,
    pub status: Option<Seq<char>>,
    pub kind: ItemKind,
    pub payload: ExtensionView,
    pub diagnostic: Option<Seq<char>>,
}

impl View for ResponseItem {
    type V = ItemView;

    closed spec fn view(&self) -> ItemView {
        ItemView {
            id: text::opt_text(self.id),
            status: text::opt_text(self.status),
            kind: self.kind@,
            payload: self.payload@,
            diagnostic: text::opt_text(self.diagnostic),
        }
    }
}

// ---------------------------------------------------------------- checks

/// A character that a wire type may hold.
pub open spec fn wire_char(c: char) -> bool {
    text::is_alnum(c) || c == '_' || c == '-' || c == '.'
}

pub open spec fn valid_wire_type(wire: Seq<char>) -> bool {
    0 < wire.len() && text::byte_len(wire) <= 114 && forall|i: int|
        0 <= i < wire.len() ==> wire_char(#[trigger] wire[i])
}

/// An optional text of a payload: absent or null, else a text of 1 to `max` bytes without
/// control characters.
pub open spec fn optional_text(value: Option<JsonView>, max: nat) -> Option<Option<Seq<char>>> {
    match value {
        None | Some(JsonView::Null) => Some(None),
        Some(JsonView::Text(content)) => if content.len() > 0 && text::plain(content, max) {
            Some(Some(content))
        } else {
            None
        },
        Some(_) => None,
    }
}

/// What a field of a known item must be.
#[derive(Clone, Copy)]
pub enum FieldShape {
    Text,
    Array,
    Object,
    Any,
}

pub open spec fn has_shape(value: JsonView, shape: FieldShape) -> bool {
    match shape {
        FieldShape::Text => value is Text,
        FieldShape::Array => value is Array,
        FieldShape::Object => value is Object,
        FieldShape::Any => true,
    }
}

/// The fault of a field that must be there in a shape.
pub open spec fn need(document: JsonView, field: &'static str, shape: FieldShape) -> Option<
    ResponseItemError,
> {
    match document.get(field@) {
        Some(value) => if has_shape(value, shape) {
            None
        } else {
            Some(ResponseItemError::InvalidField { field })
        },
        None => Some(ResponseItemError::InvalidField { field }),
    }
}

/// The first of two faults.
pub open spec fn either(a: Option<ResponseItemError>, b: Option<ResponseItemError>) -> Option<
    ResponseItemError,
> {
    if a is Some {
        a
    } else {
        b
    }
}

/// The first field of a finished item that its kind requires and that is missing or of another
/// shape.
pub open spec fn payload_fault(kind: ItemKind, document: JsonView) -> Option<ResponseItemError> {
    match kind {
        ItemKind::Message => either(
            need(document, "role", FieldShape::Text),
            need(document, "content", FieldShape::Array),
        ),
        ItemKind::AgentMessage => either(
            need(document, "author", FieldShape::Text),
            either(
                need(document, "recipient", FieldShape::Text),
                need(document, "content", FieldShape::Array),
            ),
        ),
        ItemKind::Reasoning => match document.get("summary"@) {
            None | Some(JsonView::Null) | Some(JsonView::Array(_)) => None,
            Some(_) => Some(ResponseItemError::InvalidField { field: "summary" }),
        },
        ItemKind::LocalShellCall => either(
            need(document, "status", FieldShape::Text),
            need(document, "action", FieldShape::Object),
        ),
        ItemKind::FunctionCall => either(
            need(document, "name", FieldShape::Text),
            either(
                need(document, "arguments", FieldShape::Text),
                need(document, "call_id", FieldShape::Text),
            ),
        ),
        ItemKind::FunctionCallOutput => either(
            need(document, "call_id", FieldShape::Text),
            need(document, "output", FieldShape::Any),
        ),
        ItemKind::CustomToolCall => either(
            need(document, "call_id", FieldShape::Text),
            either(
                need(document, "name", FieldShape::Text),
                need(document, "input", FieldShape::Text),
            ),
        ),
        ItemKind::CustomToolCallOutput => either(
            need(document, "call_id", FieldShape::Text),
            need(document, "output", FieldShape::Any),
        ),
        ItemKind::ToolSearchCall => either(
            need(document, "execution", FieldShape::Text),
            need(document, "arguments", FieldShape::Any),
        ),
        ItemKind::ToolSearchOutput => either(
            need(document, "status", FieldShape::Text),
            either(
                need(document, "execution", FieldShape::Text),
                need(document, "tools", FieldShape::Array),
            ),
        ),
        ItemKind::ImageGenerationCall => either(
            need(document, "status", FieldShape::Text),
            need(document, "result", FieldShape::Text),
        ),
        ItemKind::Compaction => need(document, "encrypted_content", FieldShape::Text),
        ItemKind::WebSearchCall
        | ItemKind::CompactionTrigger
        | ItemKind::ContextCompaction
        | ItemKind::Other(_) => None,
    }
}

/// The document with the binary result of a generated image replaced.
pub open spec fn without_binary(document: JsonView) -> JsonView {
    match document {
        JsonView::Object(members) => JsonView::Object(
            members.map_values(
                |m: (Seq<char>, JsonView)|
                    if m.0 == "result"@ {
                        (m.0, JsonView::Text("[REDACTED_BINARY]"@))
                    } else {
                        m
                    },
            ),
        ),
        other => other,
    }
}

/// The note on an item of an unknown kind.
pub open spec fn note_of(kind: ItemKind) -> Option<Seq<char>> {
    if kind is Other {
        Some("unknown response item type preserved as bounded Other"@)
    } else {
        None
    }
}

/// The wire type of a document: its non-empty `type`.
pub open spec fn wire_of(document: JsonView) -> Option<Seq<char>> {
    match document.get("type"@) {
        Some(JsonView::Text(wire)) => if wire.len() > 0 {
            Some(wire)
        } else {
            None
        },
        _ => None,
    }
}

/// What reading an item gives.
pub open spec fn read_item(document: JsonView, phase: ResponseItemPhase) -> Result<
    ItemView,
    ResponseItemError,
> {
    if !(document is Object) {
        Err(ResponseItemError::NotObject)
    } else if wire_of(document) is None {
        Err(ResponseItemError::MissingType)
    } else if !valid_wire_type(wire_of(document)->0) {
        Err(ResponseItemError::InvalidType)
    } else {
        let wire = wire_of(document)->0;
        let kind = kind_of(wire);
        let id = optional_text(document.get("id"@), 256);
        let status = optional_text(document.get("status"@), 128);
        let bytes = provider_extension::rendered_bytes(document) as u64;
        let binary = kind is ImageGenerationCall && document.get("result"@) is Some;
        if phase == ResponseItemPhase::Done && payload_fault(kind, document) is Some {
            Err(payload_fault(kind, document)->0)
        } else if id is None {
            Err(ResponseItemError::InvalidField { field: "id" })
        } else if status is None {
            Err(ResponseItemError::InvalidField { field: "status" })
        } else {
            Ok(
                ItemView {
                    id: id->0,
                    status: status->0,
                    kind,
                    payload: provider_extension::built(
                        "response.item."@ + wire,
                        if binary {
                            without_binary(document)
                        } else {
                            document
                        },
                        binary,
                        bytes,
                    ),
                    diagnostic: note_of(kind),
                },
            )
        }
    }
}

fn is_wire_type(wire: &str) -> (valid: bool)
    ensures
        valid == valid_wire_type(wire@),
{
    let chars = text::to_chars(wire);
    if chars.len() == 0 || text::byte_len_of(wire) > 114 {
        return false;
    }
    let mut i: usize = 0;
    while i < chars.len()
        invariant
            i <= chars.len(),
            chars@ == wire@,
            0 < wire@.len(),
            text::byte_len(wire@) <= 114,
            forall|k: int| 0 <= k < i ==> wire_char(#[trigger] chars@[k]),
        decreases chars.len() - i,
    {
        let c: char = chars[i];
        if !(text::is_alnum_char(c) || c == '_' || c == '-' || c == '.') {
            assert(!wire_char(wire@[i as int]));
            return false;
        }
        i += 1;
    }
    true
}

fn optional_bounded_string(
    value: Option<&Json>,
    field: &'static str,
    max_bytes: usize,
) -> (read: Result<Option<String>, ResponseItemError>)
    ensures
        match (
            read,
            optional_text(
                match value {
                    Some(document) => Some(document@),
                    None => None,
                },
                max_bytes as nat,
            ),
        ) {
            (Ok(content), Some(expected)) => text::opt_text(content) == expected,
            (Err(error), None) => error == (ResponseItemError::InvalidField { field }),
            _ => false,
        },
{
    match value {
        None | Some(Json::Null) => Ok(None),
        Some(Json::Text(content)) => if !content.as_str().is_empty() && text::is_plain(
            content.as_str(),
            max_bytes,
        ) {
            Ok(Some(content.clone()))
        } else {
            Err(ResponseItemError::InvalidField { field })
        },
        Some(_) => Err(ResponseItemError::InvalidField { field }),
    }
}

fn require(document: &Json, field: &'static str, shape: FieldShape) -> (fault: Option<
    ResponseItemError,
>)
    ensures
        fault == need(document@, field, shape),
{
    match document.get(field) {
        Some(value) => {
            let fits = match (shape, value) {
                (FieldShape::Any, _) => true,
                (FieldShape::Text, Json::Text(_)) => true,
                (FieldShape::Array, Json::Array(_)) => true,
                (FieldShape::Object, Json::Object(_)) => true,
                _ => false,
            };
            if fits {
                None
            } else {
                Some(ResponseItemError::InvalidField { field })
            }
        },
        None => Some(ResponseItemError::InvalidField { field }),
    }
}

fn require_two(
    document: &Json,
    first: (&'static str, FieldShape),
    second: (&'static str, FieldShape),
) -> (fault: Option<ResponseItemError>)
    ensures
        fault == either(
            need(document@, first.0, first.1),
            need(document@, second.0, second.1),
        ),
{
    let fault = require(document, first.0, first.1);
    if fault.is_some() {
        return fault;
    }
    require(document, second.0, second.1)
}

fn require_three(
    document: &Json,
    first: (&'static str, FieldShape),
    second: (&'static str, FieldShape),
    third: (&'static str, FieldShape),
) -> (fault: Option<ResponseItemError>)
    ensures
        fault == either(
            need(document@, first.0, first.1),
            either(
                need(document@, second.0, second.1),
                need(document@, third.0, third.1),
            ),
        ),
{
    let fault = require(document, first.0, first.1);
    if fault.is_some() {
        return fault;
    }
    require_two(document, second, third)
}

/// The first field of a finished item that is missing or of another shape than its kind requires.
fn validate_known_payload(kind: &ResponseItemKind, document: &Json) -> (fault: Option<
    ResponseItemError,
>)
    ensures
        fault == payload_fault(kind@, document@),
{
    match kind {
        ResponseItemKind::Message => require_two(
            document,
            ("role", FieldShape::Text),
            ("content", FieldShape::Array),
        ),
        ResponseItemKind::AgentMessage => require_three(
            document,
            ("author", FieldShape::Text),
            ("recipient", FieldShape::Text),
            ("content", FieldShape::Array),
        ),
        ResponseItemKind::Reasoning => match document.get("summary") {
            None | Some(Json::Null) | Some(Json::Array(_)) => None,
            Some(_) => Some(ResponseItemError::InvalidField { field: "summary" }),
        },
        ResponseItemKind::LocalShellCall => require_two(
            document,
            ("status", FieldShape::Text),
            ("action", FieldShape::Object),
        ),
        ResponseItemKind::FunctionCall => require_three(
            document,
            ("name", FieldShape::Text),
            ("arguments", FieldShape::Text),
            ("call_id", FieldShape::Text),
        ),
        ResponseItemKind::FunctionCallOutput => require_two(
            document,
            ("call_id", FieldShape::Text),
            ("output", FieldShape::Any),
        ),
        ResponseItemKind::CustomToolCall => require_three(
            document,
            ("call_id", FieldShape::Text),
            ("name", FieldShape::Text),
            ("input", FieldShape::Text),
        ),
        ResponseItemKind::CustomToolCallOutput => require_two(
            document,
            ("call_id", FieldShape::Text),
            ("output", FieldShape::Any),
        ),
        ResponseItemKind::ToolSearchCall => require_two(
            document,
            ("execution", FieldShape::Text),
            ("arguments", FieldShape::Any),
        ),
        ResponseItemKind::ToolSearchOutput => require_three(
            document,
            ("status", FieldShape::Text),
            ("execution", FieldShape::Text),
            ("tools", FieldShape::Array),
        ),
        ResponseItemKind::ImageGenerationCall => require_two(
            document,
            ("status", FieldShape::Text),
            ("result", FieldShape::Text),
        ),
        ResponseItemKind::Compaction => require(document, "encrypted_content", FieldShape::Text),
        ResponseItemKind::WebSearchCall
        | ResponseItemKind::CompactionTrigger
        | ResponseItemKind::ContextCompaction
        | ResponseItemKind::Other(_) => None,
    }
}

/// The document with the binary result of a generated image replaced.
fn remove_binary(document: &Json) -> (kept: Json)
    ensures
        kept@ == without_binary(document@),
{
    match document {
        Json::Object(members) => {
            let ghost view = document@->Object_0;
            let mut kept: Vec<JsonMember> = Vec::new();
            let mut i: usize = 0;
            while i < members.len()
                invariant
                    i <= members.len(),
                    view.len() == members@.len(),
                    forall|k: int|
                        0 <= k < members@.len() ==> #[trigger] view[k] == (
                            members@[k].name@,
                            members@[k].value@,
                        ),
                    kept.len() == i,
                    forall|k: int|
                        0 <= k < i ==> (#[trigger] kept@[k]).name@ == view[k].0 && kept@[k].value@
                            == if view[k].0 == "result"@ {
                            JsonView::Text("[REDACTED_BINARY]"@)
                        } else {
                            view[k].1
                        },
                decreases members.len() - i,
            {
                let member = &members[i];
                assert(view[i as int] == (member.name@, member.value@));
                let value = if text::same_text(member.name.as_str(), "result") {
                    Json::text("[REDACTED_BINARY]")
                } else {
                    member.value.clone()
                };
                kept.push(JsonMember { name: member.name.clone(), value });
                i += 1;
            }
            let document_kept = Json::Object(kept);
            proof {
                assert(document_kept@->Object_0 =~= without_binary(document@)->Object_0);
            }
            document_kept
        },
        _ => document.clone(),
    }
}

fn note_for(kind: &ResponseItemKind) -> (note: Option<String>)
    ensures
        text::opt_text(note) == note_of(kind@),
{
    if kind.is_other() {
        Some("unknown response item type preserved as bounded Other".to_owned())
    } else {
        None
    }
}

impl ResponseItem {
    /// Reads a finished item.
    pub fn from_wire(value: &Json) -> (read: Result<ResponseItem, ResponseItemError>)
        ensures
            match (read, read_item(value@, ResponseItemPhase::Done)) {
                (Ok(item), Ok(expected)) => item@ == expected,
                (Err(error), Err(expected)) => error == expected,
                _ => false,
            },
    {
        ResponseItem::from_wire_at_phase(value, ResponseItemPhase::Done)
    }

    /// Reads an item. A finished item must hold what its kind requires.
    pub fn from_wire_at_phase(value: &Json, phase: ResponseItemPhase) -> (read: Result<
        ResponseItem,
        ResponseItemError,
    >)
        ensures
            match (read, read_item(value@, phase)) {
                (Ok(item), Ok(expected)) => item@ == expected,
                (Err(error), Err(expected)) => error == expected,
                _ => false,
            },
    {
        if !value.is_object() {
            return Err(ResponseItemError::NotObject);
        }
        let wire = match value.get("type") {
            Some(Json::Text(wire)) => wire.as_str(),
            _ => {
                return Err(ResponseItemError::MissingType);
            },
        };
        if wire.is_empty() {
            return Err(ResponseItemError::MissingType);
        }
        if !is_wire_type(wire) {
            return Err(ResponseItemError::InvalidType);
        }
        let kind = ResponseItemKind::from_wire_type(wire);
        if phase == ResponseItemPhase::Done {
            match validate_known_payload(&kind, value) {
                Some(fault) => {
                    return Err(fault);
                },
                None => {},
            }
        }
        let id = match optional_bounded_string(value.get("id"), "id", 256) {
            Ok(id) => id,
            Err(error) => {
                return Err(error);
            },
        };
        let status = match optional_bounded_string(value.get("status"), "status", 128) {
            Ok(status) => status,
            Err(error) => {
                return Err(error);
            },
        };
        let mut event_type = "response.item.".to_owned();
        event_type.append(wire);
        let is_image = match &kind {
            ResponseItemKind::ImageGenerationCall => true,
            _ => false,
        };
        let payload = if is_image && value.get("result").is_some() {
            let rendering = value.render();
            let original_bytes: u64 = text::byte_len_of(rendering.as_str()) as u64;
            let kept = remove_binary(value);
            ProviderExtension::from_redacted_value(event_type.as_str(), &kept, original_bytes)
        } else {
            ProviderExtension::from_value(event_type.as_str(), value)
        };
        let diagnostic = note_for(&kind);
        Ok(ResponseItem { id, status, kind, payload, diagnostic })
    }

    pub fn id(&self) -> (id: Option<&str>)
        ensures
            match id {
                Some(value) => self@.id == Some(value@),
                None => self@.id is None,
            },
    {
        match &self.id {
            Some(id) => Some(id.as_str()),
            None => None,
        }
    }

    pub fn status(&self) -> (status: Option<&str>)
        ensures
            match status {
                Some(value) => self@.status == Some(value@),
                None => self@.status is None,
            },
    {
        match &self.status {
            Some(status) => Some(status.as_str()),
            None => None,
        }
    }

    pub fn kind(&self) -> (kind: &ResponseItemKind)
        ensures
            kind@ == self@.kind,
    {
        &self.kind
    }

    pub fn payload(&self) -> (payload: &ProviderExtension)
        ensures
            payload@ == self@.payload,
    {
        &self.payload
    }

    pub fn diagnostic(&self) -> (diagnostic: Option<&str>)
        ensures
            match diagnostic {
                Some(value) => self@.diagnostic == Some(value@),
                None => self@.diagnostic is None,
            },
    {
        match &self.diagnostic {
            Some(note) => Some(note.as_str()),
            None => None,
        }
    }
}

impl Clone for ResponseItem {
    fn clone(&self) -> (copy: Self)
        ensures
            copy@ == self@,
    {
        ResponseItem {
            id: text::clone_opt(&self.id),
            status: text::clone_opt(&self.status),
            kind: self.kind.clone(),
            payload: self.payload.clone(),
            diagnostic: text::clone_opt(&self.diagnostic),
        }
    }
}

// ---------------------------------------------------------------- stored items

/// Why a stored item is refused.
#[derive(Debug, Clone, Copy, PartialEq, Eq)]
pub enum StoredItemError {
    Item(ResponseItemError),
    Contradiction(&'static str),
}

impl StoredItemError {
    /// The text of the error.
    pub open spec fn text(self) -> Seq<char> {
        match self {
            StoredItemError::Item(error) => error.text(),
            StoredItemError::Contradiction(detail) => detail@,
        }
    }

    /// The error in words.
    pub fn message(&self) -> (message: String)
        ensures
            message@ == self.text(),
    {
        match self {
            StoredItemError::Item(error) => error.message(),
            StoredItemError::Contradiction(detail) => (*detail).to_owned(),
        }
    }
}

/// The fields of a stored item, as they were found.
pub struct StoredItem {
    pub id: Option<String>,
    pub status: Option<String>,
    pub kind: ResponseItemKind,
    pub payload: ProviderExtension,
    pub diagnostic: Option<String>,
}

impl View for StoredItem {
    type V = ItemView;

    open spec fn view(&self) -> ItemView {
        ItemView {
            id: text::opt_text(self.id),
            status: text::opt_text(self.status),
            kind: self.kind@,
            payload: self.payload@,
            diagnostic: text::opt_text(self.diagnostic),
        }
    }
}

/// The wire type that the event type of a payload names.
pub open spec fn event_wire(event_type: Seq<char>) -> Option<Seq<char>> {
    if text::has_prefix(event_type, "response.item."@) {
        Some(event_type.subrange("response.item."@.len() as int, event_type.len() as int))
    } else {
        None
    }
}

/// What contradicts the fields of a stored item in its payload.
pub open spec fn identity_fault(item: ItemView) -> Option<StoredItemError> {
    if !(item.payload.payload is Object) || (item.payload.payload.get("type"@) is None
        && !item.payload.truncated) {
        Some(StoredItemError::Contradiction("response item payload must contain its type"))
    } else if item.payload.payload.get("type"@) is None {
        None
    } else if !(item.payload.payload.get("type"@)->0 is Text) {
        Some(StoredItemError::Contradiction("invalid response item payload type"))
    } else if kind_of(item.payload.payload.get("type"@)->0->Text_0) != item.kind {
        Some(StoredItemError::Contradiction("response item kind contradicts payload type"))
    } else if optional_text(item.payload.payload.get("id"@), 256) is None {
        Some(StoredItemError::Item(ResponseItemError::InvalidField { field: "id" }))
    } else if optional_text(item.payload.payload.get("status"@), 128) is None {
        Some(StoredItemError::Item(ResponseItemError::InvalidField { field: "status" }))
    } else if optional_text(item.payload.payload.get("id"@), 256)->0 != item.id || optional_text(
        item.payload.payload.get("status"@),
        128,
    )->0 != item.status {
        Some(StoredItemError::Contradiction("response item identity contradicts payload"))
    } else {
        None
    }
}

/// What is wrong with a stored item.
pub open spec fn stored_fault(item: ItemView) -> Option<StoredItemError> {
    if !text::opt_plain(item.id, 256) {
        Some(StoredItemError::Item(ResponseItemError::InvalidField { field: "id" }))
    } else if !text::opt_plain(item.status, 128) {
        Some(StoredItemError::Item(ResponseItemError::InvalidField { field: "status" }))
    } else if event_wire(item.payload.event_type) is None {
        Some(StoredItemError::Contradiction("invalid response item payload event type"))
    } else if !valid_wire_type(event_wire(item.payload.event_type)->0) {
        Some(StoredItemError::Item(ResponseItemError::InvalidType))
    } else if kind_of(event_wire(item.payload.event_type)->0) != item.kind {
        Some(StoredItemError::Contradiction("response item kind contradicts payload event type"))
    } else if identity_fault(item) is Some {
        identity_fault(item)
    } else if item.diagnostic != note_of(item.kind) {
        Some(StoredItemError::Contradiction("response item diagnostic contradicts its kind"))
    } else {
        None
    }
}

impl StoredItem {
    fn check_identity(&self) -> (fault: Option<StoredItemError>)
        ensures
            fault == identity_fault(self@),
    {
        let document = self.payload.payload();
        if !document.is_object() {
            return Some(
                StoredItemError::Contradiction("response item payload must contain its type"),
            );
        }
        match document.get("type") {
            None => if self.payload.is_truncated() {
                None
            } else {
                Some(StoredItemError::Contradiction("response item payload must contain its type"))
            },
            Some(Json::Text(wire)) => {
                if !ResponseItemKind::from_wire_type(wire.as_str()).same_kind(&self.kind) {
                    return Some(
                        StoredItemError::Contradiction(
                            "response item kind contradicts payload type",
                        ),
                    );
                }
                let id = match optional_bounded_string(document.get("id"), "id", 256) {
                    Ok(id) => id,
                    Err(error) => {
                        return Some(StoredItemError::Item(error));
                    },
                };
                let status = match optional_bounded_string(document.get("status"), "status", 128) {
                    Ok(status) => status,
                    Err(error) => {
                        return Some(StoredItemError::Item(error));
                    },
                };
                if text::same_opt(&id, &self.id) && text::same_opt(&status, &self.status) {
                    None
                } else {
                    Some(
                        StoredItemError::Contradiction("response item identity contradicts payload"),
                    )
                }
            },
            Some(_) => Some(StoredItemError::Contradiction("invalid response item payload type")),
        }
    }

    /// Takes a stored item, unless its fields contradict each other or its payload.
    pub fn restore(self) -> (read: Result<ResponseItem, StoredItemError>)
        ensures
            match (read, stored_fault(self@)) {
                (Ok(item), None) => item@ == self@,
                (Err(error), Some(fault)) => error == fault,
                _ => false,
            },
    {
        if !text::is_opt_plain(&self.id, 256) {
            return Err(StoredItemError::Item(ResponseItemError::InvalidField { field: "id" }));
        }
        if !text::is_opt_plain(&self.status, 128) {
            return Err(StoredItemError::Item(ResponseItemError::InvalidField { field: "status" }));
        }
        let chars = text::to_chars(self.payload.event_type());
        let prefix = text::to_chars("response.item.");
        if !text::part_at(&chars, &prefix, 0) {
            return Err(
                StoredItemError::Contradiction("invalid response item payload event type"),
            );
        }
        let wire = text::from_chars(&chars, prefix.len(), chars.len());
        if !is_wire_type(wire.as_str()) {
            return Err(StoredItemError::Item(ResponseItemError::InvalidType));
        }
        if !ResponseItemKind::from_wire_type(wire.as_str()).same_kind(&self.kind) {
            return Err(
                StoredItemError::Contradiction(
                    "response item kind contradicts payload event type",
                ),
            );
        }
        match self.check_identity() {
            Some(fault) => {
                return Err(fault);
            },
            None => {},
        }
        let note = note_for(&self.kind);
        if !text::same_opt(&self.diagnostic, &note) {
            return Err(
                StoredItemError::Contradiction("response item diagnostic contradicts its kind"),
            );
        }
        Ok(
            ResponseItem {
                id: self.id,
                status: self.status,
                kind: self.kind,
                payload: self.payload,
                diagnostic: self.diagnostic,
            },
        )
    }
}

/// A finished item has what its kind needs: a message its role and content, a call its name, its
/// input and its identifier, an output the call it answers, and so on for each kind.
pub proof fn law_finished_items_are_complete(document: JsonView)
    requires
        read_item(document, ResponseItemPhase::Done) is Ok,
    ensures
        ({
            let kind = read_item(document, ResponseItemPhase::Done)->Ok_0.kind;
            let text = |field: Seq<char>| document.get(field) is Some && document.get(field)->0
                is Text;
            let list = |field: Seq<char>| document.get(field) is Some && document.get(field)->0
                is Array;
            let there = |field: Seq<char>| document.get(field) is Some;
            &&& kind == ItemKind::Message ==> text("role"@) && list("content"@)
            &&& kind == ItemKind::AgentMessage ==> text("author"@) && text("recipient"@) && list(
                "content"@,
            )
            &&& kind == ItemKind::Reasoning && there("summary"@) ==> list("summary"@)
                || document.get("summary"@)->0 is Null
            &&& kind == ItemKind::LocalShellCall ==> text("status"@) && there("action"@)
                && document.get("action"@)->0 is Object
            &&& kind == ItemKind::FunctionCall ==> text("name"@) && text("arguments"@) && text(
                "call_id"@,
            )
            &&& kind == ItemKind::FunctionCallOutput ==> text("call_id"@) && there("output"@)
            &&& kind == ItemKind::CustomToolCall ==> text("call_id"@) && text("name"@) && text(
                "input"@,
            )
            &&& kind == ItemKind::CustomToolCallOutput ==> text("call_id"@) && there("output"@)
            &&& kind == ItemKind::ToolSearchCall ==> text("execution"@) && there("arguments"@)
            &&& kind == ItemKind::ToolSearchOutput ==> text("status"@) && text("execution"@)
                && list("tools"@)
            &&& kind == ItemKind::ImageGenerationCall ==> text("status"@) && text("result"@)
            &&& kind == ItemKind::Compaction ==> text("encrypted_content"@)
        }),
{
}

/// An item is read as its type says, with the identifier and the status that it has; a document
/// without a type that can be one is none. One that is not finished needs nothing more, and one of
/// an unknown kind is kept with a note.
pub proof fn law_items_are_read_by_their_type(document: JsonView, phase: ResponseItemPhase)
    ensures
        ({
            let read = read_item(document, phase);
            let kind = document.get("type"@);
            let typed = document is Object && kind is Some && kind->0 is Text && valid_wire_type(
                kind->0->Text_0,
            );
            let bounded = |field: Seq<char>, max: nat|
                document.get(field) is None || document.get(field)->0 is Null || (document.get(
                    field,
                )->0 is Text && document.get(field)->0->Text_0.len() > 0 && text::plain(
                    document.get(field)->0->Text_0,
                    max,
                ));
            &&& !typed ==> read is Err
            &&& read is Ok ==> bounded("id"@, 256) && bounded("status"@, 128)
            &&& phase != ResponseItemPhase::Done ==> (read is Ok <==> typed && bounded("id"@, 256)
                && bounded("status"@, 128))
            &&& read matches Ok(item) ==> {
                &&& item.kind == kind_of(kind->0->Text_0)
                &&& item.id matches Some(id) ==> document.get("id"@) == Some(JsonView::Text(id))
                &&& document.get("id"@) is Some && document.get("id"@)->0 is Text ==> item.id
                    is Some
                &&& item.status matches Some(status) ==> document.get("status"@) == Some(
                    JsonView::Text(status),
                )
                &&& document.get("status"@) is Some && document.get("status"@)->0 is Text
                    ==> item.status is Some
                &&& item.diagnostic is Some <==> item.kind is Other
                &&& item.payload.original_bytes
                    == provider_extension::rendered_bytes(document) as u64
                &&& item.kind is ImageGenerationCall && document.get("result"@) is Some
                    ==> item.payload.redacted
            }
        }),
{
}

/// A wire type is short and made of letters, digits, underscores, dashes and dots.
pub proof fn law_wire_types(wire: Seq<char>)
    ensures
        valid_wire_type(wire) <==> 0 < wire.len() && text::byte_len(wire) <= 114 && forall|i: int|
            0 <= i < wire.len() ==> {
                let c = #[trigger] wire[i];
                '0' <= c <= '9' || 'a' <= c <= 'z' || 'A' <= c <= 'Z' || c == '_' || c == '-' || c
                    == '.'
            },
{
}

/// The bytes of a generated image are replaced and nothing else is.
pub proof fn law_only_binary_results_are_replaced(members: Seq<(Seq<char>, JsonView)>, i: int)
    requires
        0 <= i < members.len(),
    ensures
        ({
            let kept = without_binary(JsonView::Object(members));
            &&& kept is Object && kept->Object_0.len() == members.len()
            &&& kept->Object_0[i].0 == members[i].0
            &&& members[i].0 == "result"@ ==> kept->Object_0[i].1 == JsonView::Text(
                "[REDACTED_BINARY]"@,
            )
            &&& members[i].0 != "result"@ ==> kept->Object_0[i] == members[i]
        }),
{
}

/// A stored item is taken back only where its fields say what its payload says: its kind, its
/// identifier, its status and its note.
pub proof fn law_stored_items_agree_with_their_payload(item: ItemView)
    requires
        stored_fault(item) is None,
    ensures
        ({
            let document = item.payload.payload;
            let kind = document.get("type"@);
            &&& document is Object
            &&& "response.item."@.is_prefix_of(item.payload.event_type)
            &&& kind_of(
                item.payload.event_type.skip("response.item."@.len() as int),
            ) == item.kind
            &&& !item.payload.truncated ==> kind is Some
            &&& kind is Some ==> kind->0 is Text && kind_of(kind->0->Text_0) == item.kind
            &&& kind is Some && item.id is Some ==> document.get("id"@) == Some(
                JsonView::Text(item.id->0),
            )
            &&& kind is Some && item.status is Some ==> document.get("status"@) == Some(
                JsonView::Text(item.status->0),
            )
            &&& kind is Some && item.id is None ==> document.get("id"@) is None || document.get(
                "id"@,
            ) == Some(JsonView::Null)
            &&& item.diagnostic is Some <==> item.kind is Other
        }),
{
    let event = item.payload.event_type;
    let prefix = "response.item."@;
    assert(event.subrange(prefix.len() as int, event.len() as int) =~= event.skip(
        prefix.len() as int,
    ));
    assert(prefix.is_prefix_of(event)) by {
        assert(event.subrange(0, prefix.len() as int) == prefix);
    }
}

/// Each wire type stands for its kind, and no other one does.
pub proof fn law_kinds_have_their_wire_type(wire: Seq<char>)
    ensures
        kind_of(wire) == ItemKind::Message <==> wire == "message"@,
        kind_of(wire) is Other ==> kind_of(wire)->Other_0.is_prefix_of(wire) && wire != "message"@
            && wire != "agent_message"@ && wire != "reasoning"@ && wire != "local_shell_call"@
            && wire != "function_call"@ && wire != "function_call_output"@ && wire
            != "custom_tool_call"@ && wire != "custom_tool_call_output"@ && wire
            != "tool_search_call"@ && wire != "tool_search_output"@ && wire != "web_search_call"@
            && wire != "image_generation_call"@ && wire != "compaction"@ && wire
            != "compaction_summary"@ && wire != "compaction_trigger"@ && wire
            != "context_compaction"@,
        !(kind_of(wire) is Other) ==> kind_of(wire).wire() == wire || wire == "compaction_summary"@,
{
}

} // verus!
