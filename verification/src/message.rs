//! Canonical messages: roles, content blocks, and the pairing of calls with results.
use crate::json::{Json, JsonView};
use crate::text;
use crate::tools;
use crate::tools::{
    ModelToolResult, ToolExecution, ToolImage, ToolResultStatus, ToolResultTruncation,
};
use vstd::prelude::*;
use vstd::string::*;

verus! {

pub type ToolCallId = String;

/// Content of the result written for a call that an interruption left without one. It tells the
/// model the consequence, not the fact alone: an interrupted tool may have written half of its
/// effects.
pub const INTERRUPTED_TOOL_RESULT: &'static str = "Interrupted by the user before this tool call completed. No result is available: the tool may have partially executed and any process it started may still be running.";

/// First line of a summary written as a plain user text.
pub const SUMMARY_TEXT_PREFIX: &'static str = "[Previous conversation summary]\n";

#[derive(Debug, Clone, Copy, PartialEq, Eq, Hash, Structural)]
pub enum ToolErrorKind {
    UnknownTool,
    Parse,
    Validation,
    OutsideWorkspace,
    Io,
    Rejected,
    PermissionDenied,
    SandboxDenied,
    Timeout,
    Cancelled,
    Semantic,
}

impl ToolErrorKind {
    pub open spec fn label_text(self) -> &'static str {
        match self {
            ToolErrorKind::UnknownTool => "unknown_tool",
            ToolErrorKind::Parse => "parse",
            ToolErrorKind::Validation => "validation",
            ToolErrorKind::OutsideWorkspace => "outside_workspace",
            ToolErrorKind::Io => "io",
            ToolErrorKind::Rejected => "rejected",
            ToolErrorKind::PermissionDenied => "permission_denied",
            ToolErrorKind::SandboxDenied => "sandbox_denied",
            ToolErrorKind::Timeout => "timeout",
            ToolErrorKind::Cancelled => "cancelled",
            ToolErrorKind::Semantic => "semantic",
        }
    }

    /// The category as a plain word.
    pub fn label(self) -> (label: &'static str)
        ensures
            label == self.label_text(),
    {
        match self {
            ToolErrorKind::UnknownTool => "unknown_tool",
            ToolErrorKind::Parse => "parse",
            ToolErrorKind::Validation => "validation",
            ToolErrorKind::OutsideWorkspace => "outside_workspace",
            ToolErrorKind::Io => "io",
            ToolErrorKind::Rejected => "rejected",
            ToolErrorKind::PermissionDenied => "permission_denied",
            ToolErrorKind::SandboxDenied => "sandbox_denied",
            ToolErrorKind::Timeout => "timeout",
            ToolErrorKind::Cancelled => "cancelled",
            ToolErrorKind::Semantic => "semantic",
        }
    }
}

/// How a tool call carries its input.
#[derive(Debug, Clone, Copy, PartialEq, Eq, Structural)]
pub enum ToolCallFormat {
    Json,
    Text,
}

impl Default for ToolCallFormat {
    fn default() -> (format: Self)
        ensures
            format == ToolCallFormat::Json,
    {
        ToolCallFormat::Json
    }
}

impl ToolCallFormat {
    pub fn is_json(&self) -> (yes: bool)
        ensures
            yes == (*self == ToolCallFormat::Json),
    {
        *self == ToolCallFormat::Json
    }

    pub fn is_text(&self) -> (yes: bool)
        ensures
            yes == (*self == ToolCallFormat::Text),
    {
        *self == ToolCallFormat::Text
    }
}

#[derive(Debug, Clone, Copy, PartialEq, Eq, Structural)]
pub enum Role {
    System,
    User,
    Assistant,
    Tool,
}

/// One block of the content of a message.
#[derive(Debug, PartialEq, Eq)]
pub enum ContentBlock {
    Text { text: String },
    Thinking { text: String },
    ToolUse {
        id: String,
        name: String,
        /// Arguments of a `Json` call, the raw text of a `Text` one.
        input: Json,
        format: ToolCallFormat,
    },
    ToolResult {
        tool_use_id: String,
        content: String,
        status: Option<ToolResultStatus>,
        structured_content: Option<Json>,
        untrusted: bool,
        is_error: bool,
        error_kind: Option<ToolErrorKind>,
        duration_ms: Option<u64>,
        truncation: Option<ToolResultTruncation>,
        execution: Option<ToolExecution>,
        images: Vec<ToolImage>,
    },
    Image { media_type: String, data: String },
    /// Opaque reasoning of the provider, kept to be sent back and dropped on compaction.
    EncryptedReasoning { id: String, encrypted_content: String },
    /// A compaction summary, and whether it rests on content that cannot be trusted.
    Summary { text: String, source_untrusted: bool },
}

/// What a block is, its texts as sequences of characters.
pub enum BlockView {
    Text { text: Seq<char> },
    Thinking { text: Seq<char> },
    ToolUse { id: Seq<char>, name: Seq<char>, input: JsonView, format: ToolCallFormat },
    ToolResult {
        tool_use_id: Seq<char>,
        content: Seq<char>,
        status: Option<ToolResultStatus>,
        structured_content: Option<JsonView>,
        untrusted: bool,
        is_error: bool,
        error_kind: Option<ToolErrorKind>,
        duration_ms: Option<u64>,
        truncation: Option<ToolResultTruncation>,
        execution: Option<ToolExecution>,
        images: Seq<ToolImage>,
    },
    Image { media_type: Seq<char>, data: Seq<char> },
    EncryptedReasoning { id: Seq<char>, encrypted_content: Seq<char> },
    Summary { text: Seq<char>, source_untrusted: bool },
}

impl View for ContentBlock {
    type V = BlockView;

    open spec fn view(&self) -> BlockView {
        match self {
            ContentBlock::Text { text } => BlockView::Text { text: text@ },
            ContentBlock::Thinking { text } => BlockView::Thinking { text: text@ },
            ContentBlock::ToolUse { id, name, input, format } => BlockView::ToolUse {
                id: id@,
                name: name@,
                input: input@,
                format: *format,
            },
            ContentBlock::ToolResult {
                tool_use_id,
                content,
                status,
                structured_content,
                untrusted,
                is_error,
                error_kind,
                duration_ms,
                truncation,
                execution,
                images,
            } => BlockView::ToolResult {
                tool_use_id: tool_use_id@,
                content: content@,
                status: *status,
                structured_content: tools::opt_json(*structured_content),
                untrusted: *untrusted,
                is_error: *is_error,
                error_kind: *error_kind,
                duration_ms: *duration_ms,
                truncation: *truncation,
                execution: *execution,
                images: images@,
            },
            ContentBlock::Image { media_type, data } => BlockView::Image {
                media_type: media_type@,
                data: data@,
            },
            ContentBlock::EncryptedReasoning { id, encrypted_content } => {
                BlockView::EncryptedReasoning { id: id@, encrypted_content: encrypted_content@ }
            },
            ContentBlock::Summary { text, source_untrusted } => BlockView::Summary {
                text: text@,
                source_untrusted: *source_untrusted,
            },
        }
    }
}

/// One message of a transcript.
#[derive(Debug, PartialEq, Eq)]
pub struct Message {
    pub role: Role,
    pub content: Vec<ContentBlock>,
}

/// What a message is.
pub struct MessageView {
    pub role: Role,
    pub content: Seq<BlockView>,
}

pub open spec fn block_views(blocks: Seq<ContentBlock>) -> Seq<BlockView> {
    blocks.map_values(|block: ContentBlock| block@)
}

pub proof fn lemma_block_views_push(blocks: Seq<ContentBlock>, block: ContentBlock)
    ensures
        block_views(blocks.push(block)) == block_views(blocks).push(block@),
{
    assert(block_views(blocks.push(block)) =~= block_views(blocks).push(block@));
}

impl View for Message {
    type V = MessageView;

    open spec fn view(&self) -> MessageView {
        MessageView { role: self.role, content: block_views(self.content@) }
    }
}

pub open spec fn message_views(messages: Seq<Message>) -> Seq<MessageView> {
    messages.map_values(|message: Message| message@)
}

impl Clone for ContentBlock {
    fn clone(&self) -> (copy: Self)
        ensures
            copy@ == self@,
    {
        match self {
            ContentBlock::Text { text } => ContentBlock::Text { text: text.clone() },
            ContentBlock::Thinking { text } => ContentBlock::Thinking { text: text.clone() },
            ContentBlock::ToolUse { id, name, input, format } => ContentBlock::ToolUse {
                id: id.clone(),
                name: name.clone(),
                input: input.clone(),
                format: *format,
            },
            ContentBlock::ToolResult {
                tool_use_id,
                content,
                status,
                structured_content,
                untrusted,
                is_error,
                error_kind,
                duration_ms,
                truncation,
                execution,
                images,
            } => ContentBlock::ToolResult {
                tool_use_id: tool_use_id.clone(),
                content: content.clone(),
                status: *status,
                structured_content: tools::clone_opt_json(structured_content),
                untrusted: *untrusted,
                is_error: *is_error,
                error_kind: *error_kind,
                duration_ms: *duration_ms,
                truncation: match truncation {
                    Some(cut) => Some(cut.clone()),
                    None => None,
                },
                execution: match execution {
                    Some(facts) => Some(facts.clone()),
                    None => None,
                },
                images: tools::clone_images(images),
            },
            ContentBlock::Image { media_type, data } => ContentBlock::Image {
                media_type: media_type.clone(),
                data: data.clone(),
            },
            ContentBlock::EncryptedReasoning { id, encrypted_content } => {
                ContentBlock::EncryptedReasoning {
                    id: id.clone(),
                    encrypted_content: encrypted_content.clone(),
                }
            },
            ContentBlock::Summary { text, source_untrusted } => ContentBlock::Summary {
                text: text.clone(),
                source_untrusted: *source_untrusted,
            },
        }
    }
}

impl Clone for Message {
    fn clone(&self) -> (copy: Self)
        ensures
            copy@ == self@,
    {
        let mut content: Vec<ContentBlock> = Vec::new();
        let mut i: usize = 0;
        while i < self.content.len()
            invariant
                i <= self.content.len(),
                block_views(content@) == block_views(self.content@).take(i as int),
            decreases self.content.len() - i,
        {
            let ghost before = content@;
            let copy = self.content[i].clone();
            content.push(copy);
            i += 1;
            proof {
                lemma_block_views_push(before, copy);
            }
            assert(block_views(content@) =~= block_views(self.content@).take(i as int));
        }
        assert(block_views(self.content@).take(i as int) =~= block_views(self.content@));
        Message { role: self.role, content }
    }
}

// ---------------------------------------------------------------- blocks

impl BlockView {
    pub open spec fn kind_text(self) -> &'static str {
        match self {
            BlockView::Text { .. } => "text",
            BlockView::Thinking { .. } => "thinking",
            BlockView::ToolUse { .. } => "tool_use",
            BlockView::ToolResult { .. } => "tool_result",
            BlockView::Image { .. } => "image",
            BlockView::EncryptedReasoning { .. } => "encrypted_reasoning",
            BlockView::Summary { .. } => "summary",
        }
    }

    /// Content that the next tool or compaction decision must treat as untrusted.
    pub open spec fn untrusted_content(self) -> bool {
        match self {
            BlockView::ToolResult { untrusted, .. } => untrusted,
            BlockView::Summary { source_untrusted, .. } => source_untrusted,
            _ => false,
        }
    }

    /// The text that the block adds to the text of its message.
    pub open spec fn visible_text(self) -> Seq<char> {
        match self {
            BlockView::Text { text } => text,
            BlockView::Summary { text, .. } => text,
            _ => seq![],
        }
    }

    /// Images that the block carries.
    pub open spec fn image_count(self) -> nat {
        match self {
            BlockView::Image { .. } => 1,
            BlockView::ToolResult { images, .. } => images.len(),
            _ => 0,
        }
    }

    /// The block without its images; nothing is left of an image block.
    pub open spec fn without_images(self) -> Option<BlockView> {
        match self {
            BlockView::Image { .. } => None,
            BlockView::ToolResult {
                tool_use_id,
                content,
                status,
                structured_content,
                untrusted,
                is_error,
                error_kind,
                duration_ms,
                truncation,
                execution,
                images,
            } => Some(
                BlockView::ToolResult {
                    tool_use_id,
                    content,
                    status,
                    structured_content,
                    untrusted,
                    is_error,
                    error_kind,
                    duration_ms,
                    truncation,
                    execution,
                    images: Seq::empty(),
                },
            ),
            other => Some(other),
        }
    }

    /// Whether a message of this role may hold the block.
    pub open spec fn allowed_for(self, role: Role) -> bool {
        match role {
            Role::System => self is Text,
            Role::User => self is Text || self is Image || self is Summary,
            Role::Assistant => self is Text || self is Thinking || self is ToolUse
                || self is EncryptedReasoning,
            Role::Tool => self is ToolResult,
        }
    }
}

impl ContentBlock {
    /// A call with JSON arguments.
    pub fn tool_use(id: &str, name: &str, input: Json) -> (block: ContentBlock)
        ensures
            block@ == (BlockView::ToolUse {
                id: id@,
                name: name@,
                input: input@,
                format: ToolCallFormat::Json,
            }),
    {
        ContentBlock::ToolUse {
            id: id.to_owned(),
            name: name.to_owned(),
            input,
            format: ToolCallFormat::Json,
        }
    }

    /// A call whose input is raw text, held as a JSON text.
    pub fn custom_tool_use(id: &str, name: &str, input: &str) -> (block: ContentBlock)
        ensures
            block@ == (BlockView::ToolUse {
                id: id@,
                name: name@,
                input: JsonView::Text(input@),
                format: ToolCallFormat::Text,
            }),
    {
        ContentBlock::ToolUse {
            id: id.to_owned(),
            name: name.to_owned(),
            input: Json::text(input),
            format: ToolCallFormat::Text,
        }
    }

    /// The name of the block's kind.
    pub fn kind(&self) -> (kind: &'static str)
        ensures
            kind == self@.kind_text(),
    {
        match self {
            ContentBlock::Text { .. } => "text",
            ContentBlock::Thinking { .. } => "thinking",
            ContentBlock::ToolUse { .. } => "tool_use",
            ContentBlock::ToolResult { .. } => "tool_result",
            ContentBlock::Image { .. } => "image",
            ContentBlock::EncryptedReasoning { .. } => "encrypted_reasoning",
            ContentBlock::Summary { .. } => "summary",
        }
    }

    pub fn carries_untrusted_content(&self) -> (untrusted: bool)
        ensures
            untrusted == self@.untrusted_content(),
    {
        match self {
            ContentBlock::ToolResult { untrusted, .. } => *untrusted,
            ContentBlock::Summary { source_untrusted, .. } => *source_untrusted,
            _ => false,
        }
    }

    fn allowed(&self, role: Role) -> (yes: bool)
        ensures
            yes == self@.allowed_for(role),
    {
        match (role, self) {
            (Role::System, ContentBlock::Text { .. }) => true,
            (
                Role::User,
                ContentBlock::Text { .. }
                | ContentBlock::Image { .. }
                | ContentBlock::Summary { .. },
            ) => true,
            (
                Role::Assistant,
                ContentBlock::Text { .. }
                | ContentBlock::Thinking { .. }
                | ContentBlock::ToolUse { .. }
                | ContentBlock::EncryptedReasoning { .. },
            ) => true,
            (Role::Tool, ContentBlock::ToolResult { .. }) => true,
            _ => false,
        }
    }
}

// ---------------------------------------------------------------- messages

#[derive(Debug, Clone, Copy, PartialEq, Eq)]
pub enum MessageValidationError {
    EmptyContent,
    InvalidBlockForRole { role: Role, block_type: &'static str },
}

impl Role {
    pub open spec fn word(self) -> &'static str {
        match self {
            Role::System => "System",
            Role::User => "User",
            Role::Assistant => "Assistant",
            Role::Tool => "Tool",
        }
    }

    /// The role as a word.
    pub fn name(self) -> (word: &'static str)
        ensures
            word == self.word(),
    {
        match self {
            Role::System => "System",
            Role::User => "User",
            Role::Assistant => "Assistant",
            Role::Tool => "Tool",
        }
    }
}

impl MessageValidationError {
    pub open spec fn text(self) -> Seq<char> {
        match self {
            MessageValidationError::EmptyContent => "message content is empty"@,
            MessageValidationError::InvalidBlockForRole { role, block_type } => "block "@
                + block_type@ + " is invalid for role "@ + role.word()@,
        }
    }

    /// The error in words.
    pub fn message(&self) -> (message: String)
        ensures
            message@ == self.text(),
    {
        match self {
            MessageValidationError::EmptyContent => "message content is empty".to_owned(),
            MessageValidationError::InvalidBlockForRole { role, block_type } => text::joined(
                "block ",
                block_type,
                " is invalid for role ",
                role.name(),
            ),
        }
    }
}

/// The text of the blocks, one after the other.
pub open spec fn text_of(blocks: Seq<BlockView>) -> Seq<char>
    decreases blocks.len(),
{
    if blocks.len() == 0 {
        seq![]
    } else {
        text_of(blocks.drop_last()) + blocks.last().visible_text()
    }
}

/// Images that the blocks carry.
pub open spec fn images_in(blocks: Seq<BlockView>) -> nat
    decreases blocks.len(),
{
    if blocks.len() == 0 {
        0
    } else {
        images_in(blocks.drop_last()) + blocks.last().image_count()
    }
}

/// The blocks without their images.
pub open spec fn imageless(blocks: Seq<BlockView>) -> Seq<BlockView>
    decreases blocks.len(),
{
    if blocks.len() == 0 {
        seq![]
    } else {
        match blocks.last().without_images() {
            Some(block) => imageless(blocks.drop_last()).push(block),
            None => imageless(blocks.drop_last()),
        }
    }
}

/// What is wrong with the first block that the role does not allow.
pub open spec fn first_fault(role: Role, blocks: Seq<BlockView>) -> Option<MessageValidationError>
    decreases blocks.len(),
{
    if blocks.len() == 0 {
        None
    } else if !blocks[0].allowed_for(role) {
        Some(
            MessageValidationError::InvalidBlockForRole { role, block_type: blocks[0].kind_text() },
        )
    } else {
        first_fault(role, blocks.drop_first())
    }
}

impl MessageView {
    pub open spec fn single(role: Role, block: BlockView) -> MessageView {
        MessageView { role, content: seq![block] }
    }

    /// A user message of one text.
    pub open spec fn user(text: Seq<char>) -> MessageView {
        MessageView::single(Role::User, BlockView::Text { text })
    }

    /// The message of one tool result.
    pub open spec fn tool_result(result: ModelToolResult) -> MessageView {
        MessageView::single(
            Role::Tool,
            BlockView::ToolResult {
                tool_use_id: result.id@,
                content: result.content@,
                status: Some(result.status),
                structured_content: tools::opt_json(result.structured_content),
                untrusted: result.untrusted,
                is_error: result.is_error,
                error_kind: result.error_kind,
                duration_ms: result.duration_ms,
                truncation: result.truncation,
                execution: result.execution,
                images: result.images@,
            },
        )
    }

    pub open spec fn has_tool_result(self) -> bool {
        exists|i: int| 0 <= i < self.content.len() && (#[trigger] self.content[i]) is ToolResult
    }

    /// A user text that begins like a summary counts as one of unknown origin.
    pub open spec fn carries_untrusted(self) -> bool {
        exists|i: int|
            0 <= i < self.content.len() && {
                ||| (#[trigger] self.content[i]).untrusted_content()
                ||| self.role == Role::User && self.content[i] is Text && text::has_prefix(
                    self.content[i]->Text_text,
                    SUMMARY_TEXT_PREFIX@,
                )
            }
    }

    pub open spec fn fault(self) -> Option<MessageValidationError> {
        if self.content.len() == 0 {
            Some(MessageValidationError::EmptyContent)
        } else {
            first_fault(self.role, self.content)
        }
    }
}

proof fn lemma_first_fault_at(role: Role, blocks: Seq<BlockView>, at: int)
    requires
        0 <= at <= blocks.len(),
        forall|i: int| 0 <= i < at ==> (#[trigger] blocks[i]).allowed_for(role),
        at < blocks.len() ==> !blocks[at].allowed_for(role),
    ensures
        first_fault(role, blocks) == if at < blocks.len() {
            Some(
                MessageValidationError::InvalidBlockForRole {
                    role,
                    block_type: blocks[at].kind_text(),
                },
            )
        } else {
            None
        },
    decreases at,
{
    if at > 0 {
        assert(blocks[0].allowed_for(role));
        assert forall|i: int| 0 <= i < at - 1 implies (#[trigger] blocks.drop_first()[i]).allowed_for(
            role,
        ) by {
            assert(blocks.drop_first()[i] == blocks[i + 1]);
        }
        lemma_first_fault_at(role, blocks.drop_first(), at - 1);
    }
}

impl Message {
    fn single(role: Role, block: ContentBlock) -> (message: Message)
        ensures
            message@ == MessageView::single(role, block@),
    {
        let message = Message { role, content: vec![block] };
        assert(message@.content =~= seq![block@]);
        message
    }

    pub fn system(text: &str) -> (message: Message)
        ensures
            message@ == MessageView::single(Role::System, BlockView::Text { text: text@ }),
    {
        Message::single(Role::System, ContentBlock::Text { text: text.to_owned() })
    }

    pub fn user(text: &str) -> (message: Message)
        ensures
            message@ == MessageView::user(text@),
    {
        Message::single(Role::User, ContentBlock::Text { text: text.to_owned() })
    }

    pub fn assistant(content: Vec<ContentBlock>) -> (message: Message)
        ensures
            message.role == Role::Assistant,
            message.content == content,
    {
        Message { role: Role::Assistant, content }
    }

    pub fn assistant_text(text: &str) -> (message: Message)
        ensures
            message@ == MessageView::single(Role::Assistant, BlockView::Text { text: text@ }),
    {
        Message::single(Role::Assistant, ContentBlock::Text { text: text.to_owned() })
    }

    /// The result of a call, untrusted unless it is said otherwise.
    pub fn tool_result(id: &str, content: &str, is_error: bool) -> (message: Message)
        ensures
            exists|result: ModelToolResult|
                {
                    &&& message@ == #[trigger] MessageView::tool_result(result)
                    &&& result.id@ == id@
                    &&& result.content@ == content@
                    &&& result.status == tools::status_of(is_error, None)
                    &&& result.is_plain(is_error, true, None)
                    &&& result.execution is None
                },
    {
        Message::tool_result_with_trust(id, content, is_error, true)
    }

    pub fn tool_result_with_trust(
        id: &str,
        content: &str,
        is_error: bool,
        untrusted: bool,
    ) -> (message: Message)
        ensures
            exists|result: ModelToolResult|
                {
                    &&& message@ == #[trigger] MessageView::tool_result(result)
                    &&& result.id@ == id@
                    &&& result.content@ == content@
                    &&& result.status == tools::status_of(is_error, None)
                    &&& result.is_plain(is_error, untrusted, None)
                    &&& result.execution is None
                },
    {
        Message::tool_result_with_metadata(id, content, is_error, untrusted, None)
    }

    pub fn tool_result_with_metadata(
        id: &str,
        content: &str,
        is_error: bool,
        untrusted: bool,
        error_kind: Option<ToolErrorKind>,
    ) -> (message: Message)
        ensures
            exists|result: ModelToolResult|
                {
                    &&& message@ == #[trigger] MessageView::tool_result(result)
                    &&& result.id@ == id@
                    &&& result.content@ == content@
                    &&& result.status == tools::status_of(is_error, error_kind)
                    &&& result.is_plain(is_error, untrusted, error_kind)
                    &&& result.execution is None
                },
    {
        let result = ModelToolResult::new(
            id.to_owned(),
            content.to_owned(),
            is_error,
            untrusted,
            error_kind,
        );
        Message::tool_result_from_model(&result)
    }

    /// The transcript form of a result.
    pub fn tool_result_from_model(result: &ModelToolResult) -> (message: Message)
        ensures
            message@ == MessageView::tool_result(*result),
    {
        let copy = result.clone();
        Message::single(
            Role::Tool,
            ContentBlock::ToolResult {
                tool_use_id: copy.id,
                content: copy.content,
                status: Some(copy.status),
                structured_content: copy.structured_content,
                untrusted: copy.untrusted,
                is_error: copy.is_error,
                error_kind: copy.error_kind,
                duration_ms: copy.duration_ms,
                truncation: copy.truncation,
                execution: copy.execution,
                images: copy.images,
            },
        )
    }

    /// The text of the message: its text and summary blocks, one after the other.
    pub fn text(&self) -> (text: String)
        ensures
            text@ == text_of(self@.content),
    {
        let mut out = String::new();
        let mut i: usize = 0;
        while i < self.content.len()
            invariant
                i <= self.content.len(),
                out@ == text_of(self@.content.take(i as int)),
            decreases self.content.len() - i,
        {
            proof {
                let after = self@.content.take(i + 1);
                assert(after.drop_last() =~= self@.content.take(i as int));
                assert(after.last() == self.content@[i as int]@);
                assert(text_of(after) =~= text_of(self@.content.take(i as int))
                    + self.content@[i as int]@.visible_text());
                assert(out@ + Seq::<char>::empty() =~= out@);
            }
            match &self.content[i] {
                ContentBlock::Text { text } => {
                    out.append(text.as_str());
                },
                ContentBlock::Summary { text, .. } => {
                    out.append(text.as_str());
                },
                _ => {},
            }
            i += 1;
        }
        assert(self@.content.take(i as int) =~= self@.content);
        out
    }

    /// Whether the message carries a tool result.
    pub fn is_tool_result(&self) -> (yes: bool)
        ensures
            yes == self@.has_tool_result(),
    {
        let mut i: usize = 0;
        while i < self.content.len()
            invariant
                i <= self.content.len(),
                forall|k: int| 0 <= k < i ==> !((#[trigger] self@.content[k]) is ToolResult),
            decreases self.content.len() - i,
        {
            assert(self@.content[i as int] == self.content@[i as int]@);
            match &self.content[i] {
                ContentBlock::ToolResult { .. } => {
                    return true;
                },
                _ => {},
            }
            i += 1;
        }
        false
    }

    /// Whether the message carries an image, in a block of its own or in a tool result.
    pub fn has_images(&self) -> (yes: bool)
        ensures
            yes == (images_in(self@.content) > 0),
    {
        let mut i: usize = 0;
        while i < self.content.len()
            invariant
                i <= self.content.len(),
                images_in(self@.content.take(i as int)) == 0,
            decreases self.content.len() - i,
        {
            proof {
                let after = self@.content.take(i + 1);
                assert(after.drop_last() =~= self@.content.take(i as int));
                assert(after.last() == self.content@[i as int]@);
                lemma_images_in_prefix(self@.content, i + 1);
            }
            match &self.content[i] {
                ContentBlock::Image { .. } => {
                    return true;
                },
                ContentBlock::ToolResult { images, .. } => {
                    if images.len() > 0 {
                        return true;
                    }
                },
                _ => {},
            }
            i += 1;
        }
        assert(self@.content.take(i as int) =~= self@.content);
        false
    }

    /// Removes every image and gives their number, those of tool results among them.
    pub fn strip_images(&mut self) -> (removed: usize)
        ensures
            final(self)@.role == old(self)@.role,
            final(self)@.content == imageless(old(self)@.content),
            removed == if images_in(old(self)@.content) <= usize::MAX {
                images_in(old(self)@.content)
            } else {
                usize::MAX as nat
            },
    {
        let ghost blocks = self@.content;
        let mut kept: Vec<ContentBlock> = Vec::new();
        let mut removed: usize = 0;
        let mut i: usize = 0;
        while i < self.content.len()
            invariant
                i <= self.content.len(),
                blocks == self@.content,
                blocks == block_views(self.content@),
                block_views(kept@) == imageless(blocks.take(i as int)),
                removed == if images_in(blocks.take(i as int)) <= usize::MAX {
                    images_in(blocks.take(i as int))
                } else {
                    usize::MAX as nat
                },
            decreases self.content.len() - i,
        {
            let ghost before = kept@;
            proof {
                let after = blocks.take(i + 1);
                assert(after.drop_last() =~= blocks.take(i as int));
                assert(after.last() == self.content@[i as int]@);
            }
            match self.content[i].clone() {
                ContentBlock::Image { .. } => {
                    removed = removed.saturating_add(1);
                },
                ContentBlock::ToolResult {
                    tool_use_id,
                    content,
                    status,
                    structured_content,
                    untrusted,
                    is_error,
                    error_kind,
                    duration_ms,
                    truncation,
                    execution,
                    images,
                } => {
                    removed = removed.saturating_add(images.len());
                    let block = ContentBlock::ToolResult {
                        tool_use_id,
                        content,
                        status,
                        structured_content,
                        untrusted,
                        is_error,
                        error_kind,
                        duration_ms,
                        truncation,
                        execution,
                        images: Vec::new(),
                    };
                    assert(block@->ToolResult_images =~= Seq::<ToolImage>::empty());
                    proof {
                        lemma_block_views_push(before, block);
                    }
                    kept.push(block);
                },
                other => {
                    proof {
                        lemma_block_views_push(before, other);
                    }
                    kept.push(other);
                },
            }
            i += 1;
        }
        assert(blocks.take(i as int) =~= blocks);
        self.content = kept;
        removed
    }

    /// Whether the message carries content that stays untrusted.
    pub fn carries_untrusted_content(&self) -> (untrusted: bool)
        ensures
            untrusted == self@.carries_untrusted(),
    {
        let mut i: usize = 0;
        while i < self.content.len()
            invariant
                i <= self.content.len(),
                forall|k: int|
                    0 <= k < i ==> !(#[trigger] self@.content[k]).untrusted_content() && !(
                    self.role == Role::User && self@.content[k] is Text && text::has_prefix(
                        self@.content[k]->Text_text,
                        SUMMARY_TEXT_PREFIX@,
                    )),
            decreases self.content.len() - i,
        {
            assert(self@.content[i as int] == self.content@[i as int]@);
            if self.content[i].carries_untrusted_content() {
                return true;
            }
            if self.role == Role::User {
                match &self.content[i] {
                    ContentBlock::Text { text } => {
                        if text::starts_with(text.as_str(), SUMMARY_TEXT_PREFIX) {
                            return true;
                        }
                    },
                    _ => {},
                }
            }
            i += 1;
        }
        false
    }

    /// Refuses an empty message and the first block that its role may not hold.
    pub fn validate(&self) -> (checked: Result<(), MessageValidationError>)
        ensures
            checked == match self@.fault() {
                Some(fault) => Err(fault),
                None => Ok(()),
            },
    {
        if self.content.len() == 0 {
            return Err(MessageValidationError::EmptyContent);
        }
        let mut i: usize = 0;
        while i < self.content.len()
            invariant
                i <= self.content.len(),
                self.content.len() > 0,
                forall|k: int| 0 <= k < i ==> (#[trigger] self@.content[k]).allowed_for(self.role),
            decreases self.content.len() - i,
        {
            assert(self@.content[i as int] == self.content@[i as int]@);
            if !self.content[i].allowed(self.role) {
                proof {
                    lemma_first_fault_at(self.role, self@.content, i as int);
                }
                return Err(
                    MessageValidationError::InvalidBlockForRole {
                        role: self.role,
                        block_type: self.content[i].kind(),
                    },
                );
            }
            i += 1;
        }
        proof {
            lemma_first_fault_at(self.role, self@.content, i as int);
        }
        Ok(())
    }
}

proof fn lemma_images_in_prefix(blocks: Seq<BlockView>, at: int)
    requires
        0 <= at <= blocks.len(),
    ensures
        images_in(blocks.take(at)) <= images_in(blocks),
    decreases blocks.len() - at,
{
    if at == blocks.len() {
        assert(blocks.take(at) =~= blocks);
    } else {
        lemma_images_in_prefix(blocks, at + 1);
        assert(blocks.take(at + 1).drop_last() =~= blocks.take(at));
    }
}

/// Removing the images leaves none.
pub proof fn law_strip_images_leaves_none(blocks: Seq<BlockView>)
    ensures
        images_in(imageless(blocks)) == 0,
    decreases blocks.len(),
{
    if blocks.len() > 0 {
        law_strip_images_leaves_none(blocks.drop_last());
        match blocks.last().without_images() {
            Some(block) => {
                let kept = imageless(blocks.drop_last());
                assert(kept.push(block).drop_last() =~= kept);
            },
            None => {},
        }
    }
}

/// A block that is left once the images are removed was one of the blocks, with or without images.
pub proof fn lemma_imageless_from(blocks: Seq<BlockView>, j: int) -> (at: int)
    requires
        0 <= j < imageless(blocks).len(),
    ensures
        0 <= at < blocks.len(),
        blocks[at].without_images() == Some(imageless(blocks)[j]),
    decreases blocks.len(),
{
    let front = blocks.drop_last();
    if j < imageless(front).len() {
        let at = lemma_imageless_from(front, j);
        assert(front[at] == blocks[at]);
        at
    } else {
        blocks.len() - 1
    }
}

/// Whether one of the last `window_messages` messages carries untrusted content.
pub fn recent_untrusted_content(messages: &[Message], window_messages: usize) -> (untrusted: bool)
    ensures
        untrusted == exists|i: int|
            0 <= i < messages@.len() && messages@.len() - window_messages <= i
                && (#[trigger] messages@[i])@.carries_untrusted(),
{
    let mut seen: usize = 0;
    while seen < messages.len() && seen < window_messages
        invariant
            seen <= messages.len(),
            seen <= window_messages,
            forall|i: int|
                messages@.len() - seen <= i < messages@.len() ==> !(
                #[trigger] messages@[i])@.carries_untrusted(),
        decreases messages.len() - seen,
    {
        let at: usize = messages.len() - 1 - seen;
        if messages[at].carries_untrusted_content() {
            return true;
        }
        seen += 1;
    }
    false
}

// ---------------------------------------------------------------- pairing of calls and results

/// The blocks of a transcript, in order.
pub open spec fn blocks_of(messages: Seq<MessageView>) -> Seq<BlockView>
    decreases messages.len(),
{
    if messages.len() == 0 {
        seq![]
    } else {
        blocks_of(messages.drop_last()) + messages.last().content
    }
}

/// Whether the blocks hold a result for the call `id`.
pub open spec fn answered(blocks: Seq<BlockView>, id: Seq<char>) -> bool {
    exists|i: int|
        0 <= i < blocks.len() && (#[trigger] blocks[i]) is ToolResult
            && blocks[i]->ToolResult_tool_use_id == id
}

/// Whether the blocks hold a call `id`.
pub open spec fn called(blocks: Seq<BlockView>, id: Seq<char>) -> bool {
    exists|i: int|
        0 <= i < blocks.len() && (#[trigger] blocks[i]) is ToolUse && blocks[i]->ToolUse_id == id
}

/// The calls among `blocks` that no block of `all` answers: each once, in order of first
/// appearance.
pub open spec fn pending_calls(blocks: Seq<BlockView>, all: Seq<BlockView>) -> Seq<Seq<char>>
    decreases blocks.len(),
{
    if blocks.len() == 0 {
        seq![]
    } else {
        let earlier = pending_calls(blocks.drop_last(), all);
        match blocks.last() {
            BlockView::ToolUse { id, .. } => if !answered(all, id) && !earlier.contains(id) {
                earlier.push(id)
            } else {
                earlier
            },
            _ => earlier,
        }
    }
}

/// The calls of a transcript that have no result.
pub open spec fn unanswered(messages: Seq<MessageView>) -> Seq<Seq<char>> {
    pending_calls(blocks_of(messages), blocks_of(messages))
}

/// A pending call stands once in the list, and the list holds exactly the calls without a result.
pub proof fn lemma_pending_calls(blocks: Seq<BlockView>, all: Seq<BlockView>)
    ensures
        pending_calls(blocks, all).no_duplicates(),
        forall|id: Seq<char>|
            #[trigger] pending_calls(blocks, all).contains(id) <==> called(blocks, id) && !answered(
                all,
                id,
            ),
    decreases blocks.len(),
{
    if blocks.len() > 0 {
        let front = blocks.drop_last();
        let earlier = pending_calls(front, all);
        let now = pending_calls(blocks, all);
        lemma_pending_calls(front, all);
        assert forall|id: Seq<char>| called(blocks, id) <==> called(front, id) || (blocks.last()
            is ToolUse && blocks.last()->ToolUse_id == id) by {
            if called(front, id) {
                let i = choose|i: int|
                    0 <= i < front.len() && (#[trigger] front[i]) is ToolUse
                        && front[i]->ToolUse_id == id;
                assert(blocks[i] == front[i]);
            }
            if called(blocks, id) {
                let i = choose|i: int|
                    0 <= i < blocks.len() && (#[trigger] blocks[i]) is ToolUse
                        && blocks[i]->ToolUse_id == id;
                if i < front.len() {
                    assert(front[i] == blocks[i]);
                }
            }
            if blocks.last() is ToolUse && blocks.last()->ToolUse_id == id {
                assert(blocks[blocks.len() - 1] == blocks.last());
            }
        }
        assert forall|id: Seq<char>| #[trigger] now.contains(id) <==> called(blocks, id)
            && !answered(all, id) by {
            assert(earlier.contains(id) <==> called(front, id) && !answered(all, id));
            if now.len() > earlier.len() {
                assert(now =~= earlier.push(blocks.last()->ToolUse_id));
                assert(now[now.len() - 1] == blocks.last()->ToolUse_id);
                if earlier.contains(id) {
                    let k = choose|k: int| 0 <= k < earlier.len() && earlier[k] == id;
                    assert(now[k] == id);
                }
                if now.contains(id) {
                    let k = choose|k: int| 0 <= k < now.len() && now[k] == id;
                    if k < earlier.len() {
                        assert(earlier[k] == id);
                    }
                }
            }
        }
    }
}

/// A call without a result is reported once, and no call with a result is reported.
pub proof fn law_unanswered_calls(messages: Seq<MessageView>)
    ensures
        unanswered(messages).no_duplicates(),
        forall|id: Seq<char>|
            #[trigger] unanswered(messages).contains(id) <==> called(blocks_of(messages), id)
                && !answered(blocks_of(messages), id),
{
    lemma_pending_calls(blocks_of(messages), blocks_of(messages));
}

pub proof fn lemma_blocks_of_push(messages: Seq<MessageView>, message: MessageView)
    ensures
        blocks_of(messages.push(message)) == blocks_of(messages) + message.content,
{
    assert(messages.push(message).drop_last() =~= messages);
}

pub open spec fn ref_views(blocks: Seq<&ContentBlock>) -> Seq<BlockView> {
    blocks.map_values(|block: &ContentBlock| block@)
}

proof fn lemma_ref_views_push(blocks: Seq<&ContentBlock>, block: &ContentBlock)
    ensures
        ref_views(blocks.push(block)) == ref_views(blocks).push(block@),
{
    assert(ref_views(blocks.push(block)) =~= ref_views(blocks).push(block@));
}

/// The blocks of the messages, in order.
fn flat_blocks(messages: &[Message]) -> (blocks: Vec<&ContentBlock>)
    ensures
        ref_views(blocks@) == blocks_of(message_views(messages@)),
{
    let mut blocks: Vec<&ContentBlock> = Vec::new();
    let mut m: usize = 0;
    let ghost views = message_views(messages@);
    while m < messages.len()
        invariant
            m <= messages.len(),
            views == message_views(messages@),
            ref_views(blocks@) == blocks_of(views.take(m as int)),
        decreases messages.len() - m,
    {
        let content = &messages[m].content;
        let ghost start = blocks_of(views.take(m as int));
        let mut b: usize = 0;
        assert(block_views(content@).take(0) =~= Seq::<BlockView>::empty());
        assert(start + Seq::<BlockView>::empty() =~= start);
        while b < content.len()
            invariant
                b <= content.len(),
                ref_views(blocks@) == start + block_views(
                    content@,
                ).take(b as int),
            decreases content.len() - b,
        {
            proof {
                lemma_ref_views_push(blocks@, &content@[b as int]);
            }
            blocks.push(&content[b]);
            b += 1;
            assert(ref_views(blocks@) =~= start + block_views(
                content@,
            ).take(b as int));
        }
        m += 1;
        proof {
            assert(block_views(content@).take(b as int) =~= block_views(content@));
            assert(views.take(m as int).drop_last() =~= views.take(m - 1));
            assert(views.take(m as int).last() == messages@[m - 1]@);
        }
    }
    assert(views.take(m as int) =~= views);
    blocks
}

/// The calls of a transcript that have no result: each once, in order of first appearance.
pub fn unanswered_tool_calls(messages: &[Message]) -> (pending: Vec<ToolCallId>)
    ensures
        text::texts(pending@) == unanswered(message_views(messages@)),
{
    let blocks = flat_blocks(messages);
    let ghost views = ref_views(blocks@);
    let mut pending: Vec<ToolCallId> = Vec::new();
    let mut i: usize = 0;
    while i < blocks.len()
        invariant
            i <= blocks.len(),
            views == ref_views(blocks@),
            text::texts(pending@) == pending_calls(views.take(i as int), views),
        decreases blocks.len() - i,
    {
        proof {
            assert(views.take(i + 1).drop_last() =~= views.take(i as int));
            assert(views.take(i + 1).last() == blocks@[i as int]@);
        }
        match blocks[i] {
            ContentBlock::ToolUse { id, .. } => {
                let seen = holds_text(&pending, id.as_str());
                let done = has_result(&blocks, id.as_str());
                if !done && !seen {
                    let ghost before = pending@;
                    pending.push(id.clone());
                    assert(text::texts(pending@) =~= text::texts(before).push(id@));
                }
            },
            _ => {},
        }
        i += 1;
    }
    assert(views.take(i as int) =~= views);
    pending
}

/// Whether `list` holds `item`.
pub fn holds_text(list: &Vec<String>, item: &str) -> (found: bool)
    ensures
        found == text::texts(list@).contains(item@),
{
    let ghost views = text::texts(list@);
    let mut i: usize = 0;
    while i < list.len()
        invariant
            i <= list.len(),
            views == text::texts(list@),
            forall|k: int| 0 <= k < i ==> #[trigger] views[k] != item@,
        decreases list.len() - i,
    {
        if text::same_text(list[i].as_str(), item) {
            assert(views[i as int] == item@);
            return true;
        }
        i += 1;
    }
    false
}

fn has_result(blocks: &Vec<&ContentBlock>, call: &str) -> (found: bool)
    ensures
        found == answered(ref_views(blocks@), call@),
{
    let ghost views = ref_views(blocks@);
    let mut i: usize = 0;
    while i < blocks.len()
        invariant
            i <= blocks.len(),
            views == ref_views(blocks@),
            forall|k: int|
                0 <= k < i ==> !((#[trigger] views[k]) is ToolResult
                    && views[k]->ToolResult_tool_use_id == call@),
        decreases blocks.len() - i,
    {
        assert(views[i as int] == blocks@[i as int]@);
        match blocks[i] {
            ContentBlock::ToolResult { tool_use_id, .. } => {
                if text::same_text(tool_use_id.as_str(), call) {
                    return true;
                }
            },
            _ => {},
        }
        i += 1;
    }
    false
}

/// The text of blocks is the text of the first ones and then of the others.
pub proof fn lemma_text_of_add(first: Seq<BlockView>, second: Seq<BlockView>)
    ensures
        text_of(first + second) == text_of(first) + text_of(second),
    decreases second.len(),
{
    if second.len() == 0 {
        assert(first + second =~= first);
        assert(text_of(first) + text_of(second) =~= text_of(first));
    } else {
        lemma_text_of_add(first, second.drop_last());
        assert((first + second).drop_last() =~= first + second.drop_last());
        assert(text_of(first + second) =~= text_of(first) + text_of(second));
    }
}

/// Blocks without a text of their own have none together.
pub proof fn lemma_text_of_silent(blocks: Seq<BlockView>)
    requires
        forall|i: int|
            0 <= i < blocks.len() ==> (#[trigger] blocks[i]).visible_text() == Seq::<char>::empty(),
    ensures
        text_of(blocks) == Seq::<char>::empty(),
    decreases blocks.len(),
{
    if blocks.len() > 0 {
        let front = blocks.drop_last();
        assert forall|i: int| 0 <= i < front.len() implies (#[trigger] front[i]).visible_text()
            == Seq::<char>::empty() by {
            assert(front[i] == blocks[i]);
        }
        lemma_text_of_silent(front);
        assert(blocks[blocks.len() - 1].visible_text() == Seq::<char>::empty());
        assert(text_of(blocks) =~= Seq::<char>::empty());
    }
}

/// The text of a message is what its texts and summaries say, in order; nothing else of it is.
pub proof fn law_message_text_is_what_is_said(blocks: Seq<BlockView>, block: BlockView)
    ensures
        text_of(Seq::<BlockView>::empty()) == Seq::<char>::empty(),
        block is Text ==> text_of(blocks.push(block)) == text_of(blocks) + block->Text_text,
        block is Summary ==> text_of(blocks.push(block)) == text_of(blocks) + block->Summary_text,
        !(block is Text) && !(block is Summary) ==> text_of(blocks.push(block)) == text_of(blocks),
{
    assert(blocks.push(block).drop_last() =~= blocks);
    assert(text_of(blocks.push(block)) =~= text_of(blocks) + block.visible_text());
    assert(text_of(blocks) + Seq::<char>::empty() =~= text_of(blocks));
}

/// Images are counted wherever they stand: one for an image block, and those of a tool result.
pub proof fn law_images_are_counted(blocks: Seq<BlockView>, block: BlockView)
    ensures
        images_in(blocks.push(block)) == images_in(blocks) + (if block is Image {
            1nat
        } else if block is ToolResult {
            block->images.len()
        } else {
            0
        }),
{
    assert(blocks.push(block).drop_last() =~= blocks);
}

/// Removing the images removes nothing else: an image block goes, a tool result stays with all its
/// other fields, every other block stays as it is, in order.
pub proof fn law_only_images_are_stripped(blocks: Seq<BlockView>, block: BlockView)
    ensures
        block is Image ==> imageless(blocks.push(block)) == imageless(blocks),
        !(block is Image) && !(block is ToolResult) ==> imageless(blocks.push(block)) == imageless(
            blocks,
        ).push(block),
        block matches BlockView::ToolResult {
            tool_use_id,
            content,
            status,
            structured_content,
            untrusted,
            is_error,
            error_kind,
            duration_ms,
            truncation,
            execution,
            images,
        } ==> imageless(blocks.push(block)) == imageless(blocks).push(
            BlockView::ToolResult {
                tool_use_id,
                content,
                status,
                structured_content,
                untrusted,
                is_error,
                error_kind,
                duration_ms,
                truncation,
                execution,
                images: seq![],
            },
        ),
{
    assert(blocks.push(block).drop_last() =~= blocks);
}

/// Who may say what: text alone is the system's; text, images and summaries are the user's; text,
/// reasoning and calls are the assistant's; results are the tools'. A message of anything else, or
/// of nothing, is refused, and no other is.
pub proof fn law_roles_hold_their_blocks(message: MessageView)
    ensures
        message.fault() is None <==> message.content.len() > 0 && forall|i: int|
            0 <= i < message.content.len() ==> {
                let block = #[trigger] message.content[i];
                match block {
                    BlockView::Text { .. } => message.role != Role::Tool,
                    BlockView::Image { .. } | BlockView::Summary { .. } => message.role
                        == Role::User,
                    BlockView::Thinking { .. } | BlockView::ToolUse { .. }
                    | BlockView::EncryptedReasoning { .. } => message.role == Role::Assistant,
                    BlockView::ToolResult { .. } => message.role == Role::Tool,
                }
            },
{
    let blocks = message.content;
    if forall|i: int| 0 <= i < blocks.len() ==> (#[trigger] blocks[i]).allowed_for(message.role) {
        lemma_first_fault_at(message.role, blocks, blocks.len() as int);
    } else {
        let at = lemma_first_refused(message.role, blocks);
        lemma_first_fault_at(message.role, blocks, at);
        assert(!blocks[at].allowed_for(message.role));
    }
}

proof fn lemma_first_refused(role: Role, blocks: Seq<BlockView>) -> (at: int)
    requires
        exists|i: int| 0 <= i < blocks.len() && !(#[trigger] blocks[i]).allowed_for(role),
    ensures
        0 <= at < blocks.len(),
        !blocks[at].allowed_for(role),
        forall|i: int| 0 <= i < at ==> (#[trigger] blocks[i]).allowed_for(role),
    decreases blocks.len(),
{
    let front = blocks.drop_last();
    if exists|i: int| 0 <= i < front.len() && !(#[trigger] front[i]).allowed_for(role) {
        let at = lemma_first_refused(role, front);
        assert(front[at] == blocks[at]);
        assert forall|i: int| 0 <= i < at implies (#[trigger] blocks[i]).allowed_for(role) by {
            assert(front[i] == blocks[i]);
        }
        at
    } else {
        assert forall|i: int| 0 <= i < blocks.len() - 1 implies (
        #[trigger] blocks[i]).allowed_for(role) by {
            assert(front[i] == blocks[i]);
        }
        blocks.len() - 1
    }
}

/// A message carries content that cannot be trusted when a tool result in it is not, when a summary
/// in it was made of such content, or when a text of the user begins like a summary.
pub proof fn law_distrust_has_a_source(message: MessageView)
    ensures
        message.carries_untrusted() <==> exists|i: int|
            0 <= i < message.content.len() && {
                let block = #[trigger] message.content[i];
                ||| block is ToolResult && block->untrusted
                ||| block is Summary && block->source_untrusted
                ||| block is Text && message.role == Role::User
                    && SUMMARY_TEXT_PREFIX@.is_prefix_of(block->Text_text)
            },
{
    assert forall|i: int| 0 <= i < message.content.len() && (#[trigger] message.content[i]) is Text
        implies (SUMMARY_TEXT_PREFIX@.is_prefix_of(message.content[i]->Text_text)
        <==> text::has_prefix(message.content[i]->Text_text, SUMMARY_TEXT_PREFIX@)) by {
        let said = message.content[i]->Text_text;
        if SUMMARY_TEXT_PREFIX@.is_prefix_of(said) {
            assert(said.take(SUMMARY_TEXT_PREFIX@.len() as int) =~= SUMMARY_TEXT_PREFIX@);
        }
    }
}

/// The blocks of a transcript are those of its messages, in order.
pub proof fn law_transcripts_are_read_in_order(first: Seq<MessageView>, second: Seq<MessageView>)
    ensures
        blocks_of(first + second) == blocks_of(first) + blocks_of(second),
        first.len() == 1 ==> blocks_of(first) == first[0].content,
    decreases second.len(),
{
    if second.len() == 0 {
        assert(first + second =~= first);
        assert(blocks_of(first) + blocks_of(second) =~= blocks_of(first));
    } else {
        law_transcripts_are_read_in_order(first, second.drop_last());
        assert((first + second).drop_last() =~= first + second.drop_last());
        assert(blocks_of(first + second) =~= blocks_of(first) + blocks_of(second));
    }
    if first.len() == 1 {
        assert(first.drop_last() =~= seq![]);
        assert(blocks_of(first.drop_last()) =~= seq![]);
        assert(blocks_of(first) =~= first[0].content);
    }
}

/// A call is unanswered as long as it has no result: one that is added is the last of them, and its
/// result takes it from them.
pub proof fn law_results_answer_their_calls(
    messages: Seq<MessageView>,
    message: MessageView,
    id: Seq<char>,
)
    ensures
        unanswered(messages.push(message)).contains(id) <==> (called(blocks_of(messages), id)
            || exists|i: int|
            0 <= i < message.content.len() && (#[trigger] message.content[i]) is ToolUse
                && message.content[i]->ToolUse_id == id) && !answered(blocks_of(messages), id) && !(
        exists|i: int|
            0 <= i < message.content.len() && (#[trigger] message.content[i]) is ToolResult
                && message.content[i]->tool_use_id == id),
{
    let before = blocks_of(messages);
    let more = message.content;
    let all = blocks_of(messages.push(message));
    lemma_blocks_of_push(messages, message);
    law_unanswered_calls(messages.push(message));
    assert forall|k: int| 0 <= k < before.len() implies #[trigger] all[k] == before[k] by {}
    assert forall|k: int| 0 <= k < more.len() implies #[trigger] more[k] == all[before.len() + k] by {}
    if called(before, id) {
        let k = choose|k: int|
            0 <= k < before.len() && (#[trigger] before[k]) is ToolUse && before[k]->ToolUse_id
                == id;
        assert(all[k] is ToolUse);
    }
    if answered(before, id) {
        let k = choose|k: int|
            0 <= k < before.len() && (#[trigger] before[k]) is ToolResult
                && before[k]->ToolResult_tool_use_id == id;
        assert(all[k] is ToolResult);
    }
    if called(all, id) {
        let k = choose|k: int|
            0 <= k < all.len() && (#[trigger] all[k]) is ToolUse && all[k]->ToolUse_id == id;
        if k < before.len() {
            assert(before[k] is ToolUse);
        } else {
            assert(more[k - before.len()] is ToolUse);
        }
    }
    if answered(all, id) {
        let k = choose|k: int|
            0 <= k < all.len() && (#[trigger] all[k]) is ToolResult
                && all[k]->ToolResult_tool_use_id == id;
        if k < before.len() {
            assert(before[k] is ToolResult);
        } else {
            assert(more[k - before.len()] is ToolResult);
        }
    }
    if exists|i: int| 0 <= i < more.len() && (#[trigger] more[i]) is ToolUse && more[i]->ToolUse_id
        == id {
        let i = choose|i: int|
            0 <= i < more.len() && (#[trigger] more[i]) is ToolUse && more[i]->ToolUse_id == id;
        assert(all[before.len() + i] is ToolUse);
    }
    if exists|i: int|
        0 <= i < more.len() && (#[trigger] more[i]) is ToolResult && more[i]->tool_use_id == id {
        let i = choose|i: int|
            0 <= i < more.len() && (#[trigger] more[i]) is ToolResult && more[i]->tool_use_id == id;
        assert(all[before.len() + i] is ToolResult);
    }
}

} // verus!
