//! Guardrails around the turn loop: the detector of repeated tool calls and the budget of a
//! session. They decide from outside, whatever the model does.
use crate::json;
use crate::json::{Json, JsonView};
use crate::provider::TokenUsage;
use crate::text;
use crate::tools;
use crate::tools::{InvocationView, ToolInvocation};
use crate::transition::ExhaustReason;
use vstd::prelude::*;
use vstd::string::*;

verus! {

/// The escalation ladder, in identical batches in a row. Below the first step a batch runs; from
/// it on none does, and the last step ends the run.
pub const LOOP_GUARD_THRESHOLDS: [u32; 3] = [3, 5, 8];

/// How many bytes of the arguments a reminder quotes. The key of the detection is never cut.
pub const LOOP_GUARD_ARGS_PREVIEW_BYTES: usize = 500;

/// A ladder climbs, and starts where a repetition is more than one retry.
pub open spec fn valid_ladder(thresholds: Seq<u32>) -> bool {
    thresholds[0] >= 2 && thresholds[0] < thresholds[1] && thresholds[1] < thresholds[2]
}

/// Whether a ladder can be used.
pub fn loop_guard_thresholds_are_valid(thresholds: &[u32; 3]) -> (valid: bool)
    ensures
        valid == valid_ladder(thresholds@),
{
    thresholds[0] >= 2 && thresholds[0] < thresholds[1] && thresholds[1] < thresholds[2]
}

/// How the guard speaks to the model.
#[derive(Debug, Clone, Copy, PartialEq, Eq, Structural)]
pub enum LoopRegister {
    /// Short, quoting nothing.
    Gentle,
    /// Names the tool, the number of repetitions and the arguments.
    Detailed,
    /// The run is over.
    Terminal,
}

/// What the guard decides of a batch of calls.
#[derive(Debug, Clone, Copy, PartialEq, Eq, Structural)]
pub enum LoopDecision {
    Proceed,
    /// Do not run the batch; answer in this register.
    Signal(LoopRegister),
    /// Stop the run.
    Abort,
}

/// The arguments as a reminder quotes them: whole where they are short, else the longest start
/// that fits, and how much was left out.
pub open spec fn preview(arguments: JsonView) -> Seq<char> {
    let canonical = json::rendered(arguments);
    if text::byte_len(canonical) <= LOOP_GUARD_ARGS_PREVIEW_BYTES {
        canonical
    } else {
        let shown = text::fitting_prefix(canonical, LOOP_GUARD_ARGS_PREVIEW_BYTES as nat);
        shown + "... ["@ + text::decimal(
            (text::byte_len(canonical) - text::byte_len(shown)) as nat,
        ) + " more bytes]"@
    }
}

fn preview_arguments(arguments: &Json) -> (quote: String)
    ensures
        quote@ == preview(arguments@),
{
    let canonical = arguments.render();
    let size: usize = text::byte_len_of(canonical.as_str());
    if size <= LOOP_GUARD_ARGS_PREVIEW_BYTES {
        return canonical;
    }
    let chars = text::to_chars(canonical.as_str());
    let end: usize = text::fitting_prefix_len(&chars, LOOP_GUARD_ARGS_PREVIEW_BYTES);
    let shown = text::from_chars(&chars, 0, end);
    proof {
        assert(chars@.subrange(0, end as int) =~= chars@.take(end as int));
        text::lemma_byte_len_prefix(canonical@, end as int);
    }
    let kept: usize = text::byte_len_of(shown.as_str());
    let dropped = text::decimal_of((size - kept) as u128);
    text::joined(shown.as_str(), "... [", dropped.as_str(), " more bytes]")
}

/// What the guard tells the model.
pub open spec fn loop_message(
    register: LoopRegister,
    tool: Seq<char>,
    count: u32,
    arguments: JsonView,
) -> Seq<char> {
    match register {
        LoopRegister::Gentle => {
            "Loop guard: this tool call repeats the previous one exactly, so it was not executed. Take a different approach before calling again."@
        },
        LoopRegister::Detailed => "Loop guard: `"@ + tool + "` was called "@ + text::decimal(
            count as nat,
        )
            + " times in a row with identical arguments, and this call was not executed. Arguments: "@
            + preview(arguments)
            + ". Change the arguments or the approach, or ask the user."@,
        LoopRegister::Terminal => "Loop guard: `"@ + tool + "` was called "@ + text::decimal(
            count as nat,
        )
            + " times in a row with identical arguments. Dispatch is stopped for the rest of this turn. Arguments: "@
            + preview(arguments) + "."@,
    }
}

/// The text that the model reads in place of a result.
pub fn loop_guard_message(register: LoopRegister, tool: &str, count: u32, arguments: &Json) -> (
message: String)
    ensures
        message@ == loop_message(register, tool@, count, arguments@),
{
    match register {
        LoopRegister::Gentle => {
            "Loop guard: this tool call repeats the previous one exactly, so it was not executed. Take a different approach before calling again.".to_owned()
        },
        LoopRegister::Detailed => {
            let number = text::decimal_of(count as u128);
            let quote = preview_arguments(arguments);
            let mut message = text::joined("Loop guard: `", tool, "` was called ", number.as_str());
            message.append(
                " times in a row with identical arguments, and this call was not executed. Arguments: ",
            );
            message.append(quote.as_str());
            message.append(". Change the arguments or the approach, or ask the user.");
            message
        },
        LoopRegister::Terminal => {
            let number = text::decimal_of(count as u128);
            let quote = preview_arguments(arguments);
            let mut message = text::joined("Loop guard: `", tool, "` was called ", number.as_str());
            message.append(
                " times in a row with identical arguments. Dispatch is stopped for the rest of this turn. Arguments: ",
            );
            message.append(quote.as_str());
            message.append(".");
            message
        },
    }
}

/// Counts identical batches in a row.
#[derive(Debug, PartialEq, Eq)]
pub struct LoopGuard {
    pub thresholds: [u32; 3],
    pub last_sig: Option<String>,
    pub count: u32,
}

/// The run of identical batches that a guard has seen.
pub struct LoopRun {
    pub signature: Option<Seq<char>>,
    pub count: u32,
}

impl LoopRun {
    /// The run after one more batch.
    pub open spec fn after(self, signature: Seq<char>) -> LoopRun {
        LoopRun {
            signature: Some(signature),
            count: if self.signature == Some(signature) {
                if self.count < u32::MAX {
                    (self.count + 1) as u32
                } else {
                    u32::MAX
                }
            } else {
                1
            },
        }
    }

    /// The run after so many more batches of one signature.
    pub open spec fn repeated(self, signature: Seq<char>, times: nat) -> LoopRun
        decreases times,
    {
        if times == 0 {
            self
        } else {
            self.repeated(signature, (times - 1) as nat).after(signature)
        }
    }
}

/// Where a count stands on the ladder.
pub open spec fn tier(thresholds: Seq<u32>, count: u32) -> LoopDecision {
    if count < thresholds[0] {
        LoopDecision::Proceed
    } else if count < thresholds[1] {
        LoopDecision::Signal(LoopRegister::Gentle)
    } else if count < thresholds[2] {
        LoopDecision::Signal(LoopRegister::Detailed)
    } else {
        LoopDecision::Abort
    }
}

impl LoopGuard {
    /// The run that the guard has seen so far.
    pub open spec fn run(self) -> LoopRun {
        LoopRun { signature: text::opt_text(self.last_sig), count: self.count }
    }

    /// A guard over a ladder, with no batch seen. A ladder that does not climb is a mistake of
    /// the caller.
    pub fn new(thresholds: [u32; 3]) -> (guard: LoopGuard)
        requires
            valid_ladder(thresholds@),
        ensures
            guard.thresholds == thresholds,
            guard.run() == (LoopRun { signature: None, count: 0 }),
    {
        LoopGuard { thresholds, last_sig: None, count: 0 }
    }

    pub fn count(&self) -> (count: u32)
        ensures
            count == self.run().count,
    {
        self.count
    }

    /// Breaks the run, as an input of the user does. A batch that is exempt does not.
    pub fn reset(&mut self)
        ensures
            final(self).run() == (LoopRun { signature: None, count: 0 }),
            final(self).thresholds == old(self).thresholds,
    {
        self.last_sig = None;
        self.count = 0;
    }

    /// Takes in the signature of a batch and decides.
    pub fn observe(&mut self, signature: String) -> (decision: LoopDecision)
        ensures
            final(self).run() == old(self).run().after(signature@),
            final(self).thresholds == old(self).thresholds,
            decision == tier(old(self).thresholds@, old(self).run().after(signature@).count),
    {
        let same = match &self.last_sig {
            Some(last) => text::same_text(last.as_str(), signature.as_str()),
            None => false,
        };
        if same {
            self.count = self.count.saturating_add(1);
        } else {
            self.last_sig = Some(signature);
            self.count = 1;
        }
        if self.count < self.thresholds[0] {
            LoopDecision::Proceed
        } else if self.count < self.thresholds[1] {
            LoopDecision::Signal(LoopRegister::Gentle)
        } else if self.count < self.thresholds[2] {
            LoopDecision::Signal(LoopRegister::Detailed)
        } else {
            LoopDecision::Abort
        }
    }
}

// ---------------------------------------------------------------- signatures

/// The key of one call: its name and its arguments, whole.
pub open spec fn call_key(call: InvocationView) -> Seq<char> {
    call.name + seq!['\0'] + json::rendered(call.input)
}

/// The keys of the calls that are not exempt.
pub open spec fn guarded_keys(calls: Seq<InvocationView>, exempt: Seq<bool>) -> Seq<Seq<char>>
    decreases calls.len(),
{
    if calls.len() == 0 {
        seq![]
    } else {
        let before = guarded_keys(calls.drop_last(), exempt);
        if exempt[calls.len() - 1] {
            before
        } else {
            before.push(call_key(calls.last()))
        }
    }
}

/// The signature of a batch: the keys of its guarded calls, sorted and joined. A batch without a
/// guarded call has none.
pub open spec fn batch_signature(calls: Seq<InvocationView>, exempt: Seq<bool>) -> Option<Seq<char>> {
    let keys = guarded_keys(calls, exempt);
    if keys.len() == 0 {
        None
    } else {
        Some(text::join(text::sorted_texts(keys), seq!['\u{1}']))
    }
}

/// The signature by which the guard knows a batch. `exempt` tells of each call whether the
/// dispatcher exempts it: to repeat such a call is how it makes progress.
pub fn guarded_batch_signature(calls: &[ToolInvocation], exempt: &[bool]) -> (signature: Option<
    String,
>)
    requires
        exempt@.len() == calls@.len(),
    ensures
        text::opt_text(signature) == batch_signature(tools::invocation_views(calls@), exempt@),
{
    let ghost views = tools::invocation_views(calls@);
    let mut parts: Vec<String> = Vec::new();
    let mut i: usize = 0;
    assert(text::texts(parts@) =~= guarded_keys(views.take(0), exempt@));
    while i < calls.len()
        invariant
            i <= calls.len(),
            exempt@.len() == calls@.len(),
            views == tools::invocation_views(calls@),
            text::texts(parts@) == guarded_keys(views.take(i as int), exempt@),
        decreases calls.len() - i,
    {
        assert(views.take(i + 1).drop_last() =~= views.take(i as int));
        assert(views.take(i + 1).last() == calls@[i as int]@);
        if !exempt[i] {
            let ghost before = parts@;
            let arguments = calls[i].input.render();
            let mut key = calls[i].name.clone();
            key.push('\0');
            key.append(arguments.as_str());
            parts.push(key);
            proof {
                assert(calls@[i as int].name@.push('\0') =~= calls@[i as int].name@ + seq!['\0']);
                assert(text::texts(parts@) =~= text::texts(before).push(key@));
            }
        }
        i += 1;
    }
    assert(views.take(i as int) =~= views);
    if parts.len() == 0 {
        return None;
    }
    let sorted = text::sort_texts(&parts);
    proof {
        reveal_strlit("\u{1}");
        assert("\u{1}"@ =~= seq!['\u{1}']);
    }
    Some(text::join_of(&sorted, "\u{1}"))
}

/// The signature does not depend on the order of the calls in a batch.
pub proof fn law_signature_ignores_order(
    calls: Seq<InvocationView>,
    exempt: Seq<bool>,
    other_calls: Seq<InvocationView>,
    other_exempt: Seq<bool>,
)
    requires
        guarded_keys(calls, exempt).to_multiset() == guarded_keys(
            other_calls,
            other_exempt,
        ).to_multiset(),
    ensures
        batch_signature(calls, exempt) == batch_signature(other_calls, other_exempt),
{
    let a = guarded_keys(calls, exempt);
    let b = guarded_keys(other_calls, other_exempt);
    vstd::seq_lib::to_multiset_len(a);
    vstd::seq_lib::to_multiset_len(b);
    text::lemma_sorting_ignores_order(a, b);
}

/// The signature does not depend on the order of the members inside the arguments of a call.
pub proof fn law_signature_ignores_member_order(
    calls: Seq<InvocationView>,
    other_calls: Seq<InvocationView>,
    exempt: Seq<bool>,
)
    requires
        calls.len() == other_calls.len(),
        forall|i: int|
            0 <= i < calls.len() ==> {
                &&& (#[trigger] calls[i]).name == other_calls[i].name
                &&& json::in_order(calls[i].input)
                &&& json::in_order(other_calls[i].input)
                &&& json::same_members(calls[i].input, other_calls[i].input)
            },
    ensures
        batch_signature(calls, exempt) == batch_signature(other_calls, exempt),
{
    lemma_member_order_keeps_keys(calls, other_calls, exempt);
}

proof fn lemma_member_order_keeps_keys(
    calls: Seq<InvocationView>,
    other_calls: Seq<InvocationView>,
    exempt: Seq<bool>,
)
    requires
        calls.len() == other_calls.len(),
        forall|i: int|
            0 <= i < calls.len() ==> {
                &&& (#[trigger] calls[i]).name == other_calls[i].name
                &&& json::in_order(calls[i].input)
                &&& json::in_order(other_calls[i].input)
                &&& json::same_members(calls[i].input, other_calls[i].input)
            },
    ensures
        guarded_keys(calls, exempt) == guarded_keys(other_calls, exempt),
    decreases calls.len(),
{
    if calls.len() > 0 {
        let last = calls.len() - 1;
        assert forall|i: int| 0 <= i < last implies {
            &&& (#[trigger] calls.drop_last()[i]).name == other_calls.drop_last()[i].name
            &&& json::in_order(calls.drop_last()[i].input)
            &&& json::in_order(other_calls.drop_last()[i].input)
            &&& json::same_members(calls.drop_last()[i].input, other_calls.drop_last()[i].input)
        } by {
            assert(calls[i] == calls.drop_last()[i]);
        }
        lemma_member_order_keeps_keys(calls.drop_last(), other_calls.drop_last(), exempt);
        json::law_ordered_documents_are_canonical(calls[last].input, other_calls[last].input);
    }
}

/// A call that is exempt changes nothing in the signature of the others.
pub proof fn law_exempt_calls_do_not_sign(
    calls: Seq<InvocationView>,
    exempt: Seq<bool>,
    call: InvocationView,
)
    requires
        exempt.len() == calls.len(),
    ensures
        batch_signature(calls.push(call), exempt.push(true)) == batch_signature(calls, exempt),
{
    assert(calls.push(call).drop_last() =~= calls);
    lemma_keys_of_prefix(calls, exempt, exempt.push(true));
}

proof fn lemma_keys_of_prefix(calls: Seq<InvocationView>, exempt: Seq<bool>, longer: Seq<bool>)
    requires
        exempt.len() >= calls.len(),
        longer.len() >= calls.len(),
        forall|i: int| 0 <= i < calls.len() ==> exempt[i] == longer[i],
    ensures
        guarded_keys(calls, exempt) == guarded_keys(calls, longer),
    decreases calls.len(),
{
    if calls.len() > 0 {
        lemma_keys_of_prefix(calls.drop_last(), exempt, longer);
    }
}

/// The signature of one guarded call is its key, whole: nothing of the arguments is cut.
pub proof fn law_single_call_signature(call: InvocationView)
    ensures
        batch_signature(seq![call], seq![false]) == Some(call_key(call)),
{
    let keys = guarded_keys(seq![call], seq![false]);
    assert(guarded_keys(seq![call].drop_last(), seq![false]) =~= seq![]);
    assert(keys =~= seq![call_key(call)]);
    text::lemma_at_most_total();
    keys.lemma_sort_by_ensures(text::at_most());
    vstd::seq_lib::lemma_sorted_unique(text::sorted_texts(keys), keys, text::at_most());
}

/// So many batches of one signature in a row, after a run that was not of it, count just that;
/// the guard lets them run below the first step of the ladder, reminds from there, and stops the
/// run from the last step on.
pub proof fn law_ladder_counts_repetitions(
    run: LoopRun,
    signature: Seq<char>,
    times: nat,
    thresholds: Seq<u32>,
)
    requires
        run.signature != Some(signature),
        1 <= times <= u32::MAX,
        valid_ladder(thresholds),
    ensures
        run.repeated(signature, times).count == times,
        run.repeated(signature, times).signature == Some(signature),
        tier(thresholds, run.repeated(signature, times).count) == LoopDecision::Proceed <==> times
            < thresholds[0],
        tier(thresholds, run.repeated(signature, times).count) == LoopDecision::Abort <==> times
            >= thresholds[2],
    decreases times,
{
    if times > 1 {
        law_ladder_counts_repetitions(run, signature, (times - 1) as nat, thresholds);
    } else {
        assert(run.repeated(signature, 0) == run);
    }
}

/// Another batch ends a run: the count starts again at one, and the batch runs.
pub proof fn law_another_batch_starts_again(run: LoopRun, signature: Seq<char>, thresholds: Seq<u32>)
    requires
        run.signature != Some(signature),
        valid_ladder(thresholds),
    ensures
        run.after(signature).count == 1,
        tier(thresholds, run.after(signature).count) == LoopDecision::Proceed,
{
}

/// A reminder quotes short arguments whole; of longer ones it quotes a start that ends between
/// two characters and takes no more bytes than the ceiling.
pub proof fn law_previews_are_cut_between_characters(arguments: JsonView)
    ensures
        ({
            let canonical = json::rendered(arguments);
            let shown = text::fitting_prefix(canonical, LOOP_GUARD_ARGS_PREVIEW_BYTES as nat);
            &&& text::byte_len(canonical) <= LOOP_GUARD_ARGS_PREVIEW_BYTES ==> preview(arguments)
                == canonical
            &&& text::has_prefix(canonical, shown)
            &&& text::byte_len(shown) <= LOOP_GUARD_ARGS_PREVIEW_BYTES
            &&& text::has_prefix(preview(arguments), shown)
        }),
{
    let canonical = json::rendered(arguments);
    let shown = text::fitting_prefix(canonical, LOOP_GUARD_ARGS_PREVIEW_BYTES as nat);
    text::lemma_fitting_fits(canonical, LOOP_GUARD_ARGS_PREVIEW_BYTES as nat);
    assert(preview(arguments).subrange(0, shown.len() as int) =~= shown);
}

// ---------------------------------------------------------------- the budget

/// The price of a model in millionths of a dollar per thousand tokens, and the limit.
#[derive(Debug, Clone, Copy, PartialEq, Eq, Structural)]
pub struct CostBudget {
    pub limit_micro_usd: u64,
    pub input_micro_per_ktok: u64,
    pub output_micro_per_ktok: u64,
}

/// The budget of a session. Without a limit it never stops a run.
#[derive(Debug, Clone, Copy, PartialEq, Eq, Structural)]
pub struct UsageBudget {
    pub token_limit: Option<u64>,
    pub cost: Option<CostBudget>,
    pub spent_input: u64,
    pub spent_output: u64,
}

impl Default for UsageBudget {
    fn default() -> (budget: Self)
        ensures
            budget == (UsageBudget {
                token_limit: None,
                cost: None,
                spent_input: 0,
                spent_output: 0,
            }),
    {
        UsageBudget { token_limit: None, cost: None, spent_input: 0, spent_output: 0 }
    }
}

/// A number, cut off at the largest one.
pub open spec fn capped(n: int) -> int {
    if n <= u64::MAX {
        n
    } else {
        u64::MAX as int
    }
}

/// The cost of tokens, each product cut off at the largest number before the division.
pub open spec fn cost_of(input: int, output: int, price: CostBudget) -> int {
    capped(
        capped(input * price.input_micro_per_ktok) / 1000 + capped(
            output * price.output_micro_per_ktok,
        ) / 1000,
    )
}

fn capped_product(a: u64, b: u64) -> (product: u64)
    ensures
        product == capped(a * b),
{
    assert(a * b <= u64::MAX * u64::MAX) by (nonlinear_arith)
        requires
            a <= u64::MAX,
            b <= u64::MAX,
    ;
    assert(0 <= a * b) by (nonlinear_arith);
    let wide: u128 = a as u128 * b as u128;
    if wide <= u64::MAX as u128 {
        wide as u64
    } else {
        u64::MAX
    }
}

fn micro_cost(input: u64, output: u64, price: &CostBudget) -> (cost: u64)
    ensures
        cost == cost_of(input as int, output as int, *price),
{
    let input_cost: u64 = capped_product(input, price.input_micro_per_ktok) / 1000;
    let output_cost: u64 = capped_product(output, price.output_micro_per_ktok) / 1000;
    input_cost.saturating_add(output_cost)
}

impl UsageBudget {
    pub open spec fn tokens(self) -> int {
        capped(self.spent_input + self.spent_output)
    }

    pub open spec fn spent_cost(self) -> int {
        match self.cost {
            Some(price) => cost_of(self.spent_input as int, self.spent_output as int, price),
            None => 0,
        }
    }

    /// The budget after a turn.
    pub open spec fn recorded(self, input: u64, output: u64) -> UsageBudget {
        UsageBudget {
            spent_input: capped(self.spent_input + input) as u64,
            spent_output: capped(self.spent_output + output) as u64,
            ..self
        }
    }

    /// Which limit these tokens and this cost reach, tokens first.
    pub open spec fn reached(self, tokens: int, cost: int) -> Option<ExhaustReason> {
        if self.token_limit is Some && tokens >= self.token_limit->0 {
            Some(
                ExhaustReason::TokenBudget { spent: tokens as u64, limit: self.token_limit->0 },
            )
        } else if self.cost is Some && cost >= self.cost->0.limit_micro_usd {
            Some(
                ExhaustReason::CostBudget {
                    spent_micro_usd: cost as u64,
                    limit_micro_usd: self.cost->0.limit_micro_usd,
                },
            )
        } else {
            None
        }
    }

    /// The cost after a turn that costs this much more.
    pub open spec fn projected_cost(self, input: u64, output: u64) -> int {
        match self.cost {
            Some(price) => capped(
                self.spent_cost() + cost_of(input as int, output as int, price),
            ),
            None => 0,
        }
    }

    pub fn new(token_limit: Option<u64>, cost: Option<CostBudget>) -> (budget: UsageBudget)
        ensures
            budget == (UsageBudget { token_limit, cost, spent_input: 0, spent_output: 0 }),
    {
        UsageBudget { token_limit, cost, spent_input: 0, spent_output: 0 }
    }

    /// Whether there is a limit at all.
    pub fn is_active(&self) -> (active: bool)
        ensures
            active == (self.token_limit is Some || self.cost is Some),
    {
        self.token_limit.is_some() || self.cost.is_some()
    }

    /// Adds what a turn spent.
    pub fn record(&mut self, input: u64, output: u64)
        ensures
            *final(self) == old(self).recorded(input, output),
    {
        self.spent_input = self.spent_input.saturating_add(input);
        self.spent_output = self.spent_output.saturating_add(output);
    }

    pub fn record_usage(&mut self, usage: TokenUsage)
        ensures
            *final(self) == old(self).recorded(usage.input, usage.output),
    {
        self.record(usage.input, usage.output);
    }

    pub fn spent_tokens(&self) -> (tokens: u64)
        ensures
            tokens == self.tokens(),
    {
        self.spent_input.saturating_add(self.spent_output)
    }

    pub fn spent_input(&self) -> (tokens: u64)
        ensures
            tokens == self.spent_input,
    {
        self.spent_input
    }

    pub fn spent_output(&self) -> (tokens: u64)
        ensures
            tokens == self.spent_output,
    {
        self.spent_output
    }

    /// The cost so far; zero without a price.
    pub fn spent_micro_usd(&self) -> (cost: u64)
        ensures
            cost == self.spent_cost(),
    {
        match &self.cost {
            Some(price) => micro_cost(self.spent_input, self.spent_output, price),
            None => 0,
        }
    }

    /// The limit that is reached, if one is: tokens first, then cost.
    pub fn exceeded(&self) -> (reason: Option<ExhaustReason>)
        ensures
            reason == self.reached(self.tokens(), self.spent_cost()),
    {
        match self.token_limit {
            Some(limit) => {
                let spent: u64 = self.spent_tokens();
                if spent >= limit {
                    return Some(ExhaustReason::TokenBudget { spent, limit });
                }
            },
            None => {},
        }
        match &self.cost {
            Some(price) => {
                let spent: u64 = micro_cost(self.spent_input, self.spent_output, price);
                if spent >= price.limit_micro_usd {
                    return Some(
                        ExhaustReason::CostBudget {
                            spent_micro_usd: spent,
                            limit_micro_usd: price.limit_micro_usd,
                        },
                    );
                }
            },
            None => {},
        }
        None
    }

    /// The limit that a turn of this size would reach, before it is taken.
    pub fn would_exceed(&self, next_input: u64, next_output: u64) -> (reason: Option<ExhaustReason>)
        ensures
            reason == self.reached(
                capped(self.tokens() + next_input + next_output),
                self.projected_cost(next_input, next_output),
            ),
    {
        match self.token_limit {
            Some(limit) => {
                let projected: u64 = self.spent_tokens().saturating_add(
                    next_input,
                ).saturating_add(next_output);
                if projected >= limit {
                    return Some(ExhaustReason::TokenBudget { spent: projected, limit });
                }
            },
            None => {},
        }
        match &self.cost {
            Some(price) => {
                let next: u64 = micro_cost(next_input, next_output, price);
                let projected: u64 = self.spent_micro_usd().saturating_add(next);
                if projected >= price.limit_micro_usd {
                    return Some(
                        ExhaustReason::CostBudget {
                            spent_micro_usd: projected,
                            limit_micro_usd: price.limit_micro_usd,
                        },
                    );
                }
            },
            None => {},
        }
        None
    }
}

proof fn lemma_cost_grows(price: CostBudget, input: int, output: int, more_in: int, more_out: int)
    requires
        0 <= input <= more_in,
        0 <= output <= more_out,
    ensures
        cost_of(input, output, price) <= cost_of(more_in, more_out, price),
{
    let p = price.input_micro_per_ktok as int;
    let q = price.output_micro_per_ktok as int;
    assert(input * p <= more_in * p) by (nonlinear_arith)
        requires
            0 <= input <= more_in,
            p >= 0,
    ;
    assert(output * q <= more_out * q) by (nonlinear_arith)
        requires
            0 <= output <= more_out,
            q >= 0,
    ;
}

/// Once a limit is reached, more spending never lifts it.
pub proof fn law_reached_limits_stay_reached(budget: UsageBudget, input: u64, output: u64)
    requires
        budget.reached(budget.tokens(), budget.spent_cost()) is Some,
    ensures
        ({
            let later = budget.recorded(input, output);
            later.reached(later.tokens(), later.spent_cost()) is Some
        }),
{
    let later = budget.recorded(input, output);
    if budget.cost is Some {
        lemma_cost_grows(
            budget.cost->0,
            budget.spent_input as int,
            budget.spent_output as int,
            later.spent_input as int,
            later.spent_output as int,
        );
    }
}

/// Without a limit nothing is ever reached.
pub proof fn law_inactive_budgets_never_stop(budget: UsageBudget, tokens: int, cost: int)
    requires
        budget.token_limit is None,
        budget.cost is None,
    ensures
        budget.reached(tokens, cost) is None,
{
}

/// For a budget of tokens, the estimate before a turn agrees with the count after it.
pub proof fn law_projection_agrees_with_record(budget: UsageBudget, input: u64, output: u64)
    requires
        budget.cost is None,
    ensures
        ({
            let later = budget.recorded(input, output);
            budget.reached(
                capped(budget.tokens() + input + output),
                budget.projected_cost(input, output),
            ) == later.reached(later.tokens(), later.spent_cost())
        }),
{
}

/// The cost of input alone is the whole millionths that its price gives, rounded down; so is that
/// of output; and both together cost the sum.
pub proof fn law_costs_follow_the_prices(price: CostBudget, input: u64, output: u64)
    requires
        input * price.input_micro_per_ktok <= u64::MAX,
        output * price.output_micro_per_ktok <= u64::MAX,
    ensures
        ({
            let for_input = cost_of(input as int, 0, price);
            let for_output = cost_of(0, output as int, price);
            &&& 1000 * for_input <= input * price.input_micro_per_ktok < 1000 * (for_input + 1)
            &&& 1000 * for_output <= output * price.output_micro_per_ktok < 1000 * (for_output + 1)
            &&& cost_of(input as int, output as int, price) == for_input + for_output
        }),
{
    assert(0 * price.input_micro_per_ktok == 0) by (nonlinear_arith);
    assert(0 * price.output_micro_per_ktok == 0) by (nonlinear_arith);
    assert(0 <= input * price.input_micro_per_ktok) by (nonlinear_arith);
    assert(0 <= output * price.output_micro_per_ktok) by (nonlinear_arith);
}

/// More tokens never cost less, and no cost is beyond the largest number.
pub proof fn law_costs_grow(price: CostBudget, input: u64, output: u64, more_in: u64, more_out: u64)
    requires
        input <= more_in,
        output <= more_out,
    ensures
        0 <= cost_of(input as int, output as int, price) <= cost_of(
            more_in as int,
            more_out as int,
            price,
        ) <= u64::MAX,
{
    lemma_cost_grows(price, input as int, output as int, more_in as int, more_out as int);
    assert(0 <= input * price.input_micro_per_ktok) by (nonlinear_arith);
    assert(0 <= output * price.output_micro_per_ktok) by (nonlinear_arith);
}

/// The cost projected before a turn is the cost so far and the cost of the turn, which is what a
/// budget of the same price that spent nothing else would have spent; it is cut off at the largest
/// number. So it is never less than either.
pub proof fn law_projection_adds_the_turn(budget: UsageBudget, input: u64, output: u64)
    requires
        budget.cost is Some,
    ensures
        ({
            let turn = UsageBudget { spent_input: input, spent_output: output, ..budget };
            let projected = budget.projected_cost(input, output);
            let sum = budget.spent_cost() + turn.spent_cost();
            &&& projected == if sum <= u64::MAX {
                sum
            } else {
                u64::MAX as int
            }
            &&& projected >= budget.spent_cost()
            &&& projected >= turn.spent_cost()
        }),
{
    let turn = UsageBudget { spent_input: input, spent_output: output, ..budget };
    let price = budget.cost->0;
    law_costs_grow(price, 0, 0, budget.spent_input, budget.spent_output);
    law_costs_grow(price, 0, 0, input, output);
}

/// A budget that is reached refuses every next turn, however small.
pub proof fn law_reached_budgets_refuse_every_turn(budget: UsageBudget, input: u64, output: u64)
    requires
        budget.reached(budget.tokens(), budget.spent_cost()) is Some,
    ensures
        budget.reached(
            capped(budget.tokens() + input + output),
            budget.projected_cost(input, output),
        ) is Some,
{
    if budget.cost is Some {
        law_projection_adds_the_turn(budget, input, output);
    }
}

/// The cost projected before a turn is the cost counted after it, but for what rounding down twice
/// loses: it is never more, and at most two millionths less.
pub proof fn law_projected_costs_come_true(budget: UsageBudget, input: u64, output: u64)
    requires
        budget.cost is Some,
        budget.spent_input + input <= u64::MAX,
        budget.spent_output + output <= u64::MAX,
        (budget.spent_input + input) * budget.cost->0.input_micro_per_ktok <= u64::MAX,
        (budget.spent_output + output) * budget.cost->0.output_micro_per_ktok <= u64::MAX,
    ensures
        budget.projected_cost(input, output) <= budget.recorded(input, output).spent_cost()
            <= budget.projected_cost(input, output) + 2,
{
    let p = budget.cost->0.input_micro_per_ktok as int;
    let q = budget.cost->0.output_micro_per_ktok as int;
    let a = budget.spent_input as int;
    let b = input as int;
    let c = budget.spent_output as int;
    let d = output as int;
    assert((a + b) * p == a * p + b * p) by (nonlinear_arith);
    assert((c + d) * q == c * q + d * q) by (nonlinear_arith);
    assert(0 <= a * p && 0 <= b * p && 0 <= c * q && 0 <= d * q) by (nonlinear_arith)
        requires
            a >= 0,
            b >= 0,
            c >= 0,
            d >= 0,
            p >= 0,
            q >= 0,
    ;
}

/// Which limit is reached, and when: the tokens where they come up to their limit, else the cost
/// where it comes up to its own; each tells what was spent of how much.
pub proof fn law_limits_are_reached_at_their_value(budget: UsageBudget, tokens: u64, cost: u64)
    ensures
        ({
            let reason = budget.reached(tokens as int, cost as int);
            let by_tokens = budget.token_limit is Some && budget.token_limit->0 <= tokens;
            let by_cost = budget.cost is Some && budget.cost->0.limit_micro_usd <= cost;
            &&& reason is None <==> !by_tokens && !by_cost
            &&& by_tokens ==> reason == Some(
                ExhaustReason::TokenBudget { spent: tokens, limit: budget.token_limit->0 },
            )
            &&& !by_tokens && by_cost ==> reason == Some(
                ExhaustReason::CostBudget {
                    spent_micro_usd: cost,
                    limit_micro_usd: budget.cost->0.limit_micro_usd,
                },
            )
        }),
{
}

/// Turns add up: what was spent after two is the sum of both, of input and of output, and together
/// they are the tokens spent. Limits and prices stay.
pub proof fn law_turns_add_up(
    budget: UsageBudget,
    input: u64,
    output: u64,
    more_in: u64,
    more_out: u64,
)
    requires
        budget.spent_input + input + more_in + budget.spent_output + output + more_out <= u64::MAX,
    ensures
        ({
            let after = budget.recorded(input, output).recorded(more_in, more_out);
            &&& after.spent_input == budget.spent_input + input + more_in
            &&& after.spent_output == budget.spent_output + output + more_out
            &&& after.tokens() == budget.tokens() + input + output + more_in + more_out
            &&& after.token_limit == budget.token_limit && after.cost == budget.cost
        }),
{
}

/// A count that overflows stays at the largest number.
pub proof fn law_counts_never_wrap(budget: UsageBudget, input: u64, output: u64)
    ensures
        ({
            let after = budget.recorded(input, output);
            &&& after.spent_input >= budget.spent_input && after.spent_input >= input
            &&& after.spent_output >= budget.spent_output && after.spent_output >= output
            &&& after.tokens() >= budget.tokens()
            &&& after.tokens() >= after.spent_input && after.tokens() >= after.spent_output
        }),
{
}

/// The ladder has four steps: below the first threshold the batch runs, from it on the model is
/// reminded, from the second on in detail, from the third on the run stops.
pub proof fn law_ladder_steps(thresholds: Seq<u32>, count: u32)
    requires
        valid_ladder(thresholds),
    ensures
        thresholds[0] > 1 && thresholds[1] > thresholds[0] && thresholds[2] > thresholds[1],
        tier(thresholds, count) == LoopDecision::Proceed <==> count < thresholds[0],
        tier(thresholds, count) == LoopDecision::Signal(LoopRegister::Gentle) <==> thresholds[0]
            <= count < thresholds[1],
        tier(thresholds, count) == LoopDecision::Signal(LoopRegister::Detailed) <==> thresholds[1]
            <= count < thresholds[2],
        tier(thresholds, count) == LoopDecision::Abort <==> thresholds[2] <= count,
{
}

proof fn lemma_some_key(calls: Seq<InvocationView>, exempt: Seq<bool>)
    requires
        exempt.len() == calls.len(),
    ensures
        guarded_keys(calls, exempt).len() == 0 <==> forall|i: int|
            0 <= i < calls.len() ==> #[trigger] exempt[i],
    decreases calls.len(),
{
    if calls.len() > 0 {
        let front = calls.drop_last();
        lemma_keys_of_prefix(front, exempt.drop_last(), exempt);
        lemma_some_key(front, exempt.drop_last());
        if forall|i: int| 0 <= i < calls.len() ==> #[trigger] exempt[i] {
            assert forall|i: int| 0 <= i < front.len() implies #[trigger] exempt.drop_last()[i] by {
                assert(exempt[i]);
            }
        }
        if guarded_keys(calls, exempt).len() == 0 {
            assert forall|i: int| 0 <= i < calls.len() implies #[trigger] exempt[i] by {
                if i < front.len() {
                    assert(exempt.drop_last()[i]);
                }
            }
        }
    }
}

/// A batch signs unless every one of its calls is exempt.
pub proof fn law_batches_sign_unless_exempt(calls: Seq<InvocationView>, exempt: Seq<bool>)
    requires
        exempt.len() == calls.len(),
    ensures
        batch_signature(calls, exempt) is None <==> forall|i: int|
            0 <= i < calls.len() ==> #[trigger] exempt[i],
{
    lemma_some_key(calls, exempt);
}

/// Long arguments are quoted up to where one more character would be too much, with the number of
/// bytes that were left out.
pub proof fn law_previews_tell_what_is_left_out(arguments: JsonView) -> (n: int)
    requires
        text::byte_len(json::rendered(arguments)) > LOOP_GUARD_ARGS_PREVIEW_BYTES,
    ensures
        ({
            let canonical = json::rendered(arguments);
            &&& 0 <= n < canonical.len()
            &&& preview(arguments) == canonical.take(n) + "... ["@ + text::decimal(
                text::byte_len(canonical.skip(n)),
            ) + " more bytes]"@
            &&& text::byte_len(canonical.take(n)) <= LOOP_GUARD_ARGS_PREVIEW_BYTES
            &&& text::byte_len(canonical.take(n + 1)) > LOOP_GUARD_ARGS_PREVIEW_BYTES
        }),
{
    let canonical = json::rendered(arguments);
    let n = text::lemma_fitting_prefix_longest(canonical, LOOP_GUARD_ARGS_PREVIEW_BYTES as nat);
    text::lemma_byte_len_prefix(canonical, n);
    n
}

/// A reminder in detail, and the last word, name the tool, the number of repetitions and the
/// arguments; a gentle one quotes nothing.
pub proof fn law_reminders_name_the_call(
    register: LoopRegister,
    tool: Seq<char>,
    count: u32,
    arguments: JsonView,
    other: JsonView,
)
    ensures
        register == LoopRegister::Gentle ==> loop_message(register, tool, count, arguments)
            == loop_message(register, ""@, 0, other),
        register != LoopRegister::Gentle ==> {
            let said = loop_message(register, tool, count, arguments);
            &&& exists|k: int, l: int|
                0 <= k <= l <= said.len() && #[trigger] said.subrange(k, l) == preview(arguments)
            &&& exists|k: int, l: int|
                0 <= k <= l <= said.len() && #[trigger] said.subrange(k, l) == tool
            &&& exists|k: int, l: int|
                0 <= k <= l <= said.len() && #[trigger] said.subrange(k, l) == text::decimal(
                    count as nat,
                )
        },
{
    let said = loop_message(register, tool, count, arguments);
    let a = "Loop guard: `"@;
    let b = "` was called "@;
    let number = text::decimal(count as nat);
    let quote = preview(arguments);
    if register != LoopRegister::Gentle {
        let c = if register == LoopRegister::Detailed {
            " times in a row with identical arguments, and this call was not executed. Arguments: "@
        } else {
            " times in a row with identical arguments. Dispatch is stopped for the rest of this turn. Arguments: "@
        };
        let d = if register == LoopRegister::Detailed {
            ". Change the arguments or the approach, or ask the user."@
        } else {
            "."@
        };
        assert(said =~= a + tool + b + number + c + quote + d);
        let at = a.len() as int;
        let then = (a.len() + tool.len() + b.len()) as int;
        let last = (a.len() + tool.len() + b.len() + number.len() + c.len()) as int;
        assert(said.subrange(at, at + tool.len()) =~= tool);
        assert(said.subrange(then, then + number.len()) =~= number);
        assert(said.subrange(last, last + quote.len()) =~= quote);
    }
}

/// Calls are the same to the guard only where they are to the same tool with the same arguments: two
/// calls to tools whose names hold no mark of their own sign alike exactly where names and
/// arguments are alike.
pub proof fn law_different_calls_sign_differently(a: InvocationView, b: InvocationView)
    requires
        !a.name.contains('\0') && !b.name.contains('\0'),
    ensures
        batch_signature(seq![a], seq![false]) == batch_signature(seq![b], seq![false]) <==> a.name
            == b.name && json::rendered(a.input) == json::rendered(b.input),
{
    law_single_call_signature(a);
    law_single_call_signature(b);
    let left = a.name + seq!['\0'] + json::rendered(a.input);
    let right = b.name + seq!['\0'] + json::rendered(b.input);
    assert(call_key(a) == left && call_key(b) == right);
    if left == right {
        let n = a.name.len() as int;
        let m = b.name.len() as int;
        if n < m {
            assert(left[n] == '\0');
            assert(right[n] == b.name[n]);
            assert(b.name.contains(b.name[n]));
        }
        if m < n {
            assert(right[m] == '\0');
            assert(left[m] == a.name[m]);
            assert(a.name.contains(a.name[m]));
        }
        assert(left.take(n) =~= a.name);
        assert(right.take(n) =~= b.name);
        assert(left.skip(n + 1) =~= json::rendered(a.input));
        assert(right.skip(n + 1) =~= json::rendered(b.input));
    }
}

/// Every call of a batch that is not exempt signs it, by its name and its arguments, and no exempt
/// one does; the signature is of all of them, sorted.
pub proof fn law_every_guarded_call_signs(
    calls: Seq<InvocationView>,
    exempt: Seq<bool>,
    call: InvocationView,
    spared: bool,
)
    requires
        exempt.len() == calls.len(),
    ensures
        ({
            let before = guarded_keys(calls, exempt);
            let keys = guarded_keys(calls.push(call), exempt.push(spared));
            &&& !spared ==> keys == before.push(call.name + seq!['\0'] + json::rendered(call.input))
            &&& spared ==> keys == before
            &&& guarded_keys(seq![], exempt) == Seq::<Seq<char>>::empty()
            &&& keys.len() > 0 ==> batch_signature(calls.push(call), exempt.push(spared)) == Some(
                text::join(text::sorted_texts(keys), seq!['\u{1}']),
            )
        }),
{
    assert(calls.push(call).drop_last() =~= calls);
    assert(exempt.push(spared).take(exempt.len() as int) =~= exempt);
    lemma_keys_of_prefix(calls, exempt, exempt.push(spared));
}

} // verus!
