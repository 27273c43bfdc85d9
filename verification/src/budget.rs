//! The context budget of one model: the thresholds of compaction, and the estimates that feed
//! them where a provider reports no usage.
use crate::json;
use crate::message;
use crate::message::{BlockView, ContentBlock, Message, MessageView};
use crate::provider::TokenUsage;
use crate::text;
use crate::tokenizer;
use crate::tokenizer::TokenCounter;
use crate::tool_spec;
use crate::tool_spec::{KindView, SpecView, ToolSpec};
use vstd::prelude::*;
use vstd::string::*;

verus! {

/// What a model has of context, how much is in use, and when to compact.
#[derive(Debug, Clone, Copy, PartialEq, Eq, Structural)]
pub struct ContextBudget {
    pub max_context: u32,
    pub output_reserve: u32,
    pub micro_threshold: u32,
    pub auto_threshold: u32,
    pub current_input: u32,
    pub usage_seen: bool,
    /// The input that was left right after the last compaction. Thresholds measure the growth
    /// beyond it; else what cannot be compacted would ask for compaction again at once.
    pub prefill_input: u32,
    /// Between a compaction and the first usage after it, which becomes the new base.
    pub awaiting_baseline: bool,
}

/// So many parts of a hundred, rounded down.
pub open spec fn percent(value: nat, part: nat) -> nat {
    value * part / 100
}

fn pct(value: u32, part: u32) -> (share: u32)
    requires
        part <= 100,
    ensures
        share == percent(value as nat, part as nat),
{
    assert(value * part <= value * 100) by (nonlinear_arith)
        requires
            part <= 100,
            value >= 0,
    ;
    assert(0 <= value * part) by (nonlinear_arith);
    assert(value as nat * part as nat == value * part);
    (value as u64 * part as u64 / 100) as u32
}

/// Why a window cannot be used.
pub open spec fn geometry_fault(max_context: u32, output_reserve: u32) -> Option<Seq<char>> {
    if max_context == 0 {
        Some("max_context provider nul"@)
    } else if output_reserve == 0 {
        Some("max_output_tokens nul"@)
    } else if output_reserve >= max_context {
        Some(
            "max_output_tokens ("@ + text::decimal(output_reserve as nat)
                + ") must be lower than context ("@ + text::decimal(max_context as nat) + ")"@,
        )
    } else {
        None
    }
}

impl ContextBudget {
    /// The budget of a window: compaction of tool results at 70, of the whole at 80 percent of
    /// what the reserve for the output leaves.
    pub open spec fn of_model(max_context: u32, output_reserve: u32) -> ContextBudget {
        let usable: nat = if max_context >= output_reserve {
            (max_context - output_reserve) as nat
        } else {
            0
        };
        ContextBudget {
            max_context,
            output_reserve,
            micro_threshold: percent(usable, 70) as u32,
            auto_threshold: percent(usable, 80) as u32,
            current_input: 0,
            usage_seen: false,
            prefill_input: 0,
            awaiting_baseline: false,
        }
    }

    /// The growth of the input since the last compaction.
    pub open spec fn growth(self, input: u32) -> int {
        if input >= self.prefill_input {
            input - self.prefill_input
        } else {
            0
        }
    }

    /// The budget of a window that can be used.
    pub fn try_for_model(max_context: u32, output_reserve: u32) -> (budget: Result<
        ContextBudget,
        String,
    >)
        ensures
            match geometry_fault(max_context, output_reserve) {
                None => budget == Ok::<ContextBudget, String>(
                    ContextBudget::of_model(max_context, output_reserve),
                ),
                Some(reason) => budget matches Err(message) && message@ == reason,
            },
    {
        if max_context == 0 {
            return Err("max_context provider nul".to_owned());
        }
        if output_reserve == 0 {
            return Err("max_output_tokens nul".to_owned());
        }
        if output_reserve >= max_context {
            let reserve = text::decimal_of(output_reserve as u128);
            let context = text::decimal_of(max_context as u128);
            let mut message = text::joined(
                "max_output_tokens (",
                reserve.as_str(),
                ") must be lower than context (",
                context.as_str(),
            );
            message.append(")");
            return Err(message);
        }
        Ok(ContextBudget::for_model(max_context, output_reserve))
    }

    /// The budget of a window that can be used, with the model's own limit for compaction of the
    /// whole where it has one.
    pub fn try_for_model_with_auto_limit(
        max_context: u32,
        output_reserve: u32,
        auto_limit: Option<u32>,
    ) -> (budget: Result<ContextBudget, String>)
        ensures
            match geometry_fault(max_context, output_reserve) {
                None => budget == Ok::<ContextBudget, String>(
                    match auto_limit {
                        Some(limit) => ContextBudget {
                            auto_threshold: limit,
                            ..ContextBudget::of_model(max_context, output_reserve)
                        },
                        None => ContextBudget::of_model(max_context, output_reserve),
                    },
                ),
                Some(reason) => budget matches Err(message) && message@ == reason,
            },
    {
        match ContextBudget::try_for_model(max_context, output_reserve) {
            Ok(mut budget) => {
                match auto_limit {
                    Some(limit) => {
                        budget.auto_threshold = limit;
                    },
                    None => {},
                }
                Ok(budget)
            },
            Err(message) => Err(message),
        }
    }

    pub fn for_model(max_context: u32, output_reserve: u32) -> (budget: ContextBudget)
        ensures
            budget == ContextBudget::of_model(max_context, output_reserve),
    {
        let usable: u32 = max_context.saturating_sub(output_reserve);
        ContextBudget {
            max_context,
            output_reserve,
            micro_threshold: pct(usable, 70),
            auto_threshold: pct(usable, 80),
            current_input: 0,
            usage_seen: false,
            prefill_input: 0,
            awaiting_baseline: false,
        }
    }

    pub fn max_context(&self) -> (tokens: u32)
        ensures
            tokens == self.max_context,
    {
        self.max_context
    }

    pub fn output_reserve(&self) -> (tokens: u32)
        ensures
            tokens == self.output_reserve,
    {
        self.output_reserve
    }

    pub fn micro_threshold(&self) -> (tokens: u32)
        ensures
            tokens == self.micro_threshold,
    {
        self.micro_threshold
    }

    pub fn auto_threshold(&self) -> (tokens: u32)
        ensures
            tokens == self.auto_threshold,
    {
        self.auto_threshold
    }

    pub fn current_input(&self) -> (tokens: u32)
        ensures
            tokens == self.current_input,
    {
        self.current_input
    }

    pub fn usage_seen(&self) -> (seen: bool)
        ensures
            seen == self.usage_seen,
    {
        self.usage_seen
    }

    /// A new turn: no usage has been seen in it. The input in use stays.
    pub fn begin_turn(&mut self)
        ensures
            *final(self) == (ContextBudget { usage_seen: false, ..*old(self) }),
    {
        self.usage_seen = false;
    }

    /// The budget after a reported usage.
    pub open spec fn with_usage(self, usage: TokenUsage) -> ContextBudget {
        let input = tokenizer::capped_u32(usage.input as nat) as u32;
        ContextBudget {
            current_input: input,
            usage_seen: true,
            prefill_input: if self.awaiting_baseline {
                input
            } else {
                self.prefill_input
            },
            awaiting_baseline: false,
            ..self
        }
    }

    /// Takes in the usage of the stream. The first after a compaction becomes the base of the
    /// growth.
    pub fn observe_usage(&mut self, usage: TokenUsage)
        ensures
            *final(self) == old(self).with_usage(usage),
    {
        let input: u32 = if usage.input <= u32::MAX as u64 {
            usage.input as u32
        } else {
            u32::MAX
        };
        self.current_input = input;
        self.usage_seen = true;
        if self.awaiting_baseline {
            self.prefill_input = input;
            self.awaiting_baseline = false;
        }
    }

    /// Takes in an estimate, which is no usage and no base.
    pub fn observe_estimated(&mut self, estimated_input: u32)
        ensures
            *final(self) == (ContextBudget { current_input: estimated_input, ..*old(self) }),
    {
        self.current_input = estimated_input;
    }

    /// The budget right after a compaction.
    pub open spec fn compacted(self, compacted_input: u32) -> ContextBudget {
        ContextBudget {
            current_input: compacted_input,
            prefill_input: compacted_input,
            awaiting_baseline: true,
            ..self
        }
    }

    /// Takes in that a compaction left this much input.
    pub fn mark_compacted(&mut self, compacted_input: u32)
        ensures
            *final(self) == old(self).compacted(compacted_input),
    {
        self.current_input = compacted_input;
        self.prefill_input = compacted_input;
        self.awaiting_baseline = true;
    }

    pub fn prefill_input(&self) -> (tokens: u32)
        ensures
            tokens == self.prefill_input,
    {
        self.prefill_input
    }

    pub fn should_microcompact(&self) -> (yes: bool)
        ensures
            yes == (self.growth(self.current_input) >= self.micro_threshold),
    {
        self.current_input.saturating_sub(self.prefill_input) >= self.micro_threshold
    }

    pub fn should_autocompact(&self) -> (yes: bool)
        ensures
            yes == (self.growth(self.current_input) >= self.auto_threshold),
    {
        self.current_input.saturating_sub(self.prefill_input) >= self.auto_threshold
    }

    /// Whether an input of this size would ask for compaction. Nothing changes.
    pub fn would_autocompact(&self, projected_input: u32) -> (yes: bool)
        ensures
            yes == (self.growth(projected_input) >= self.auto_threshold),
    {
        projected_input.saturating_sub(self.prefill_input) >= self.auto_threshold
    }
}

/// Right after a compaction, and after the first usage that follows it, no compaction is asked
/// for, whatever the compacted input is.
pub proof fn law_no_compaction_right_after_one(
    budget: ContextBudget,
    compacted_input: u32,
    usage: TokenUsage,
)
    requires
        budget.auto_threshold > 0,
    ensures
        ({
            let after = budget.compacted(compacted_input);
            let measured = after.with_usage(usage);
            &&& after.growth(after.current_input) < after.auto_threshold
            &&& measured.growth(measured.current_input) < measured.auto_threshold
        }),
{
}

/// The cheaper compaction is asked for no later than the other.
pub proof fn law_micro_comes_first(max_context: u32, output_reserve: u32, input: u32)
    ensures
        ({
            let budget = ContextBudget::of_model(max_context, output_reserve);
            budget.growth(input) >= budget.auto_threshold ==> budget.growth(input)
                >= budget.micro_threshold
        }),
{
}

/// A budget that can be made leaves room for the output, and its thresholds lie within what is
/// left.
pub proof fn law_usable_budgets(max_context: u32, output_reserve: u32)
    requires
        geometry_fault(max_context, output_reserve) is None,
    ensures
        ({
            let budget = ContextBudget::of_model(max_context, output_reserve);
            budget.micro_threshold <= budget.auto_threshold <= max_context - output_reserve
        }),
{
}

// ---------------------------------------------------------------- estimates

/// The tokens of a block. Images count for nothing.
pub open spec fn block_tokens<C: TokenCounter>(block: BlockView, counter: C) -> nat {
    match block {
        BlockView::Text { text } => counter.tokens(text),
        BlockView::Thinking { text } => counter.tokens(text),
        BlockView::Summary { text, .. } => counter.tokens(text),
        BlockView::ToolUse { name, input, .. } => counter.tokens(name) + counter.tokens(
            json::rendered(input),
        ),
        BlockView::ToolResult { content, .. } => counter.tokens(content),
        BlockView::Image { .. } => 0,
        BlockView::EncryptedReasoning { encrypted_content, .. } => counter.tokens(
            encrypted_content,
        ),
    }
}

/// The tokens of a transcript.
pub open spec fn transcript_tokens<C: TokenCounter>(
    messages: Seq<MessageView>,
    counter: C,
) -> nat {
    tokenizer::total(
        messages.map_values(
            |message: MessageView|
                tokenizer::total(
                    message.content.map_values(|block: BlockView| block_tokens(block, counter)),
                ),
        ),
    )
}

fn count_block<C: TokenCounter>(block: &ContentBlock, counter: &C) -> (count: usize)
    ensures
        count == tokenizer::capped_usize(block_tokens(block@, *counter)),
{
    match block {
        ContentBlock::Text { text } => counter.count_text(text.as_str()),
        ContentBlock::Thinking { text } => counter.count_text(text.as_str()),
        ContentBlock::Summary { text, .. } => counter.count_text(text.as_str()),
        ContentBlock::ToolUse { name, input, .. } => {
            let rendering = input.render();
            let a: usize = counter.count_text(name.as_str());
            a.saturating_add(counter.count_text(rendering.as_str()))
        },
        ContentBlock::ToolResult { content, .. } => counter.count_text(content.as_str()),
        ContentBlock::Image { .. } => 0,
        ContentBlock::EncryptedReasoning { encrypted_content, .. } => counter.count_text(
            encrypted_content.as_str(),
        ),
    }
}

fn count_message<C: TokenCounter>(message: &Message, counter: &C) -> (count: usize)
    ensures
        count == tokenizer::capped_usize(
            tokenizer::total(
                message@.content.map_values(|block: BlockView| block_tokens(block, *counter)),
            ),
        ),
{
    let ghost counts = message@.content.map_values(
        |block: BlockView| block_tokens(block, *counter),
    );
    let mut sum: usize = 0;
    let mut i: usize = 0;
    assert(counts.take(0) =~= seq![]);
    while i < message.content.len()
        invariant
            i <= message.content.len(),
            counts == message@.content.map_values(
                |block: BlockView| block_tokens(block, *counter),
            ),
            sum == tokenizer::capped_usize(tokenizer::total(counts.take(i as int))),
        decreases message.content.len() - i,
    {
        let count: usize = count_block(&message.content[i], counter);
        proof {
            assert(message@.content[i as int] == message.content@[i as int]@);
            assert(counts.take(i + 1).drop_last() =~= counts.take(i as int));
        }
        sum = sum.saturating_add(count);
        i += 1;
    }
    assert(counts.take(i as int) =~= counts);
    sum
}

/// The tokens of a transcript, for a provider that reports no usage.
pub fn estimate_input<C: TokenCounter>(messages: &[Message], counter: &C) -> (tokens: u32)
    ensures
        tokens == tokenizer::capped_u32(
            transcript_tokens(message::message_views(messages@), *counter),
        ),
{
    let ghost views = message::message_views(messages@);
    let ghost counts = views.map_values(
        |message: MessageView|
            tokenizer::total(
                message.content.map_values(|block: BlockView| block_tokens(block, *counter)),
            ),
    );
    let mut sum: usize = 0;
    let mut i: usize = 0;
    assert(counts.take(0) =~= seq![]);
    while i < messages.len()
        invariant
            i <= messages.len(),
            views == message::message_views(messages@),
            counts == views.map_values(
                |message: MessageView|
                    tokenizer::total(
                        message.content.map_values(
                            |block: BlockView| block_tokens(block, *counter),
                        ),
                    ),
            ),
            sum == tokenizer::capped_usize(tokenizer::total(counts.take(i as int))),
        decreases messages.len() - i,
    {
        let count: usize = count_message(&messages[i], counter);
        proof {
            assert(views[i as int] == messages@[i as int]@);
            assert(counts.take(i + 1).drop_last() =~= counts.take(i as int));
        }
        sum = sum.saturating_add(count);
        i += 1;
    }
    assert(counts.take(i as int) =~= counts);
    tokenizer::to_u32(sum)
}

/// The tokens of a tool: its name, its description, and its schema where it has one.
pub open spec fn tool_tokens<C: TokenCounter>(tool: SpecView, counter: C) -> nat {
    counter.tokens(tool.name) + counter.tokens(tool.description) + match tool.kind {
        KindView::Function { input_schema, .. } => counter.tokens(json::rendered(input_schema)),
        _ => 0,
    }
}

/// The tokens that every request carries: the instructions, the context messages and the tools.
pub open spec fn static_tokens<C: TokenCounter>(
    system: Option<Seq<char>>,
    context: Seq<MessageView>,
    tools: Seq<SpecView>,
    counter: C,
) -> nat {
    (match system {
        Some(text) => counter.tokens(text),
        None => 0,
    }) + tokenizer::capped_u32(transcript_tokens(context, counter)) + tokenizer::total(
        tools.map_values(|tool: SpecView| tool_tokens(tool, counter)),
    )
}

/// The tokens that every request carries, beside its transcript.
pub fn estimate_static_input<C: TokenCounter>(
    system: &Option<String>,
    context_messages: &[Message],
    tools: &[ToolSpec],
    counter: &C,
) -> (tokens: u32)
    ensures
        tokens == tokenizer::capped_u32(
            static_tokens(
                text::opt_text(*system),
                message::message_views(context_messages@),
                tool_spec::spec_views(tools@),
                *counter,
            ),
        ),
{
    let first: usize = match system {
        Some(text) => counter.count_text(text.as_str()),
        None => 0,
    };
    let context: u32 = estimate_input(context_messages, counter);
    let mut sum: usize = first.saturating_add(context as usize);
    let ghost base = (match text::opt_text(*system) {
        Some(text) => counter.tokens(text),
        None => 0,
    }) + context as nat;
    let ghost views = tool_spec::spec_views(tools@);
    let ghost counts = views.map_values(|tool: SpecView| tool_tokens(tool, *counter));
    let mut i: usize = 0;
    assert(counts.take(0) =~= seq![]);
    while i < tools.len()
        invariant
            i <= tools.len(),
            views == tool_spec::spec_views(tools@),
            counts == views.map_values(|tool: SpecView| tool_tokens(tool, *counter)),
            sum == tokenizer::capped_usize(base + tokenizer::total(counts.take(i as int))),
        decreases tools.len() - i,
    {
        let name: usize = counter.count_text(tools[i].name.as_str());
        let description: usize = counter.count_text(tools[i].description.as_str());
        let schema: usize = match tools[i].input_schema() {
            Some(document) => {
                let rendering = document.render();
                counter.count_text(rendering.as_str())
            },
            None => 0,
        };
        proof {
            assert(views[i as int] == tools@[i as int]@);
            assert(counts.take(i + 1).drop_last() =~= counts.take(i as int));
            assert(counts[i as int] == name + description + schema);
        }
        sum = sum.saturating_add(name).saturating_add(description).saturating_add(schema);
        i += 1;
    }
    assert(counts.take(i as int) =~= counts);
    tokenizer::to_u32(sum)
}

proof fn lemma_transcript_add<C: TokenCounter>(
    first: Seq<MessageView>,
    second: Seq<MessageView>,
    counter: C,
)
    ensures
        transcript_tokens(first + second, counter) == transcript_tokens(first, counter)
            + transcript_tokens(second, counter),
{
    let of = |message: MessageView|
        tokenizer::total(
            message.content.map_values(|block: BlockView| block_tokens(block, counter)),
        );
    assert((first + second).map_values(of) =~= first.map_values(of) + second.map_values(of));
    tokenizer::lemma_total_add(first.map_values(of), second.map_values(of));
}

/// The estimate of a transcript is that of its parts: messages add up, and so do the blocks of one
/// message, whatever its role.
pub proof fn law_estimates_add_up<C: TokenCounter>(
    first: Seq<MessageView>,
    second: Seq<MessageView>,
    role: message::Role,
    blocks: Seq<BlockView>,
    more: Seq<BlockView>,
    counter: C,
)
    ensures
        transcript_tokens(Seq::<MessageView>::empty(), counter) == 0,
        transcript_tokens(first + second, counter) == transcript_tokens(first, counter)
            + transcript_tokens(second, counter),
        transcript_tokens(seq![MessageView { role, content: blocks + more }], counter)
            == transcript_tokens(seq![MessageView { role, content: blocks }], counter)
            + transcript_tokens(seq![MessageView { role, content: more }], counter),
{
    let of = |message: MessageView|
        tokenizer::total(
            message.content.map_values(|block: BlockView| block_tokens(block, counter)),
        );
    let count = |block: BlockView| block_tokens(block, counter);
    lemma_transcript_add(first, second, counter);
    assert((blocks + more).map_values(count) =~= blocks.map_values(count) + more.map_values(count));
    tokenizer::lemma_total_add(blocks.map_values(count), more.map_values(count));
    lemma_one_message(role, blocks + more, counter);
    lemma_one_message(role, blocks, counter);
    lemma_one_message(role, more, counter);
    assert(Seq::<MessageView>::empty().map_values(of) =~= seq![]);
}

proof fn lemma_one_message<C: TokenCounter>(
    role: message::Role,
    content: Seq<BlockView>,
    counter: C,
)
    ensures
        transcript_tokens(seq![MessageView { role, content }], counter) == tokenizer::total(
            content.map_values(|block: BlockView| block_tokens(block, counter)),
        ),
{
    let of = |message: MessageView|
        tokenizer::total(
            message.content.map_values(|block: BlockView| block_tokens(block, counter)),
        );
    let one = MessageView { role, content };
    assert(seq![one].map_values(of) =~= seq![of(one)]);
    tokenizer::lemma_total_one(of(one));
}

/// A block adds the tokens of what it says: a text, a thought, a summary, a tool result and an
/// opaque item those of their text, a call those of its name and its arguments, an image none.
pub proof fn law_blocks_add_their_text<C: TokenCounter>(
    role: message::Role,
    block: BlockView,
    counter: C,
)
    ensures
        ({
            let tokens = transcript_tokens(seq![MessageView { role, content: seq![block] }], counter);
            match block {
                BlockView::Text { text } => tokens == counter.tokens(text),
                BlockView::Thinking { text } => tokens == counter.tokens(text),
                BlockView::Summary { text, .. } => tokens == counter.tokens(text),
                BlockView::ToolResult { content, .. } => tokens == counter.tokens(content),
                BlockView::EncryptedReasoning { encrypted_content, .. } => tokens
                    == counter.tokens(encrypted_content),
                BlockView::ToolUse { name, input, .. } => tokens == counter.tokens(name)
                    + counter.tokens(json::rendered(input)),
                BlockView::Image { .. } => tokens == 0,
            }
        }),
{
    let count = |block: BlockView| block_tokens(block, counter);
    lemma_one_message(role, seq![block], counter);
    assert(seq![block].map_values(count) =~= seq![count(block)]);
    tokenizer::lemma_total_one(count(block));
}

/// What every request carries is counted whole: the instructions by their text, the context as a
/// transcript, and each tool by its name, its description and, of a function, its schema.
pub proof fn law_static_input_adds_up<C: TokenCounter>(
    text: Seq<char>,
    context: Seq<MessageView>,
    tools: Seq<SpecView>,
    tool: SpecView,
    counter: C,
)
    ensures
        static_tokens(None, Seq::<MessageView>::empty(), Seq::<SpecView>::empty(), counter) == 0,
        static_tokens(Some(text), context, tools, counter) == static_tokens(
            None,
            context,
            tools,
            counter,
        ) + counter.tokens(text),
        transcript_tokens(context, counter) <= u32::MAX ==> static_tokens(
            None,
            context,
            tools,
            counter,
        ) == static_tokens(None, Seq::<MessageView>::empty(), tools, counter) + transcript_tokens(
            context,
            counter,
        ),
        static_tokens(None, context, tools.push(tool), counter) == static_tokens(
            None,
            context,
            tools,
            counter,
        ) + counter.tokens(tool.name) + counter.tokens(tool.description) + (
        if tool.kind is Function {
            counter.tokens(json::rendered(tool.kind->input_schema))
        } else {
            0
        }),
{
    let of = |tool: SpecView| tool_tokens(tool, counter);
    assert(tools.push(tool).map_values(of) =~= tools.map_values(of) + seq![of(tool)]);
    tokenizer::lemma_total_add(tools.map_values(of), seq![of(tool)]);
    tokenizer::lemma_total_one(of(tool));
    law_estimates_add_up(context, context, message::Role::User, seq![], seq![], counter);
    assert(Seq::<SpecView>::empty().map_values(of) =~= seq![]);
}

/// The thresholds are the largest whole numbers of tokens within seven and eight tenths of what the
/// reserve for the output leaves.
pub proof fn law_thresholds_are_shares(max_context: u32, output_reserve: u32)
    requires
        output_reserve <= max_context,
    ensures
        ({
            let budget = ContextBudget::of_model(max_context, output_reserve);
            let usable = max_context - output_reserve;
            &&& 10 * budget.micro_threshold <= 7 * usable < 10 * (budget.micro_threshold + 1)
            &&& 10 * budget.auto_threshold <= 8 * usable < 10 * (budget.auto_threshold + 1)
            &&& budget.max_context == max_context && budget.output_reserve == output_reserve
            &&& budget.current_input == 0 && !budget.usage_seen
            &&& budget.growth(0) == 0
        }),
{
}

/// A window can be used if and only if it holds an output of at least one token and something else
/// beside it.
pub proof fn law_windows_hold_input_and_output(max_context: u32, output_reserve: u32)
    ensures
        geometry_fault(max_context, output_reserve) is None <==> 0 < output_reserve < max_context,
{
}

/// Growth is measured from the first usage after a compaction, until the next compaction; usage of
/// the turns between never moves that base, and an input below it has not grown.
pub proof fn law_growth_is_measured_from_the_base(
    budget: ContextBudget,
    compacted_input: u32,
    first: TokenUsage,
    second: TokenUsage,
    third: TokenUsage,
)
    requires
        first.input <= u32::MAX,
        second.input <= u32::MAX,
        third.input <= u32::MAX,
    ensures
        ({
            let left = budget.compacted(compacted_input);
            let base = left.with_usage(first);
            let later = base.with_usage(second).with_usage(third);
            &&& left.current_input == compacted_input && left.growth(compacted_input) == 0
            &&& forall|input: u32|
                input >= compacted_input ==> #[trigger] left.growth(input) == input
                    - compacted_input
            &&& base.current_input == first.input && base.growth(base.current_input) == 0
            &&& base.usage_seen && later.usage_seen
            &&& later.current_input == third.input
            &&& third.input >= first.input ==> later.growth(later.current_input) == third.input
                - first.input
            &&& third.input < first.input ==> later.growth(later.current_input) == 0
            &&& later.micro_threshold == budget.micro_threshold && later.auto_threshold
                == budget.auto_threshold && later.max_context == budget.max_context
                && later.output_reserve == budget.output_reserve
        }),
{
}

/// A usage too large to count is counted as the largest, never as a small one.
pub proof fn law_large_usage_stays_large(budget: ContextBudget, usage: TokenUsage)
    requires
        usage.input >= u32::MAX,
    ensures
        budget.with_usage(usage).current_input == u32::MAX,
{
}

} // verus!
