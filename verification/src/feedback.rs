//! The one bounded text of a tool result that the model reads: terminal facts first, structure
//! whole or not at all, and text cut between two characters.
use crate::json;
use crate::json::{Json, JsonView};
use crate::message::ToolErrorKind;
use crate::text;
use crate::tokenizer::TokenCounter;
use crate::tools;
use crate::tools::{
    ModelToolResult, ToolExecution, ToolResultStatus, ToolResultTruncation, TruncationStrategy,
};
use vstd::prelude::*;
use vstd::string::*;

verus! {

/// What a text may take, in tokens and in bytes.
#[derive(Debug, Clone, Copy, PartialEq, Eq, Structural)]
pub struct FeedbackLimit {
    pub tokens: usize,
    pub bytes: usize,
}

pub open spec fn fits<C: TokenCounter>(s: Seq<char>, counter: C, limit: FeedbackLimit) -> bool {
    text::byte_len(s) <= limit.bytes && counter.tokens(s) <= limit.tokens
}

/// So many characters of a text, from the end that the strategy keeps.
pub open spec fn kept(s: Seq<char>, n: int, strategy: TruncationStrategy) -> Seq<char> {
    match strategy {
        TruncationStrategy::Head => s.take(n),
        TruncationStrategy::Tail => s.skip(s.len() - n),
    }
}

/// The number that a binary search from `low` to `high` ends at: it moves up where the middle,
/// rounded up, is good, and down where it is not.
pub open spec fn bisect(low: int, high: int, good: spec_fn(int) -> bool) -> int
    decreases high - low,
{
    if low >= high {
        low
    } else {
        let mid = (low + high + 1) / 2;
        if good(mid) {
            bisect(mid, high, good)
        } else {
            bisect(low, mid - 1, good)
        }
    }
}

/// A binary search ends within its range, at a good number or where it began.
pub proof fn lemma_bisect(low: int, high: int, good: spec_fn(int) -> bool)
    requires
        low <= high,
    ensures
        low <= bisect(low, high, good) <= high,
        bisect(low, high, good) == low || good(bisect(low, high, good)),
    decreases high - low,
{
    if low < high {
        let mid = (low + high + 1) / 2;
        if good(mid) {
            lemma_bisect(mid, high, good);
        } else {
            lemma_bisect(low, mid - 1, good);
        }
    }
}

/// Where every number below a good one is good, a binary search ends at the largest good one.
pub proof fn law_bisect_finds_the_largest(low: int, high: int, good: spec_fn(int) -> bool, n: int)
    requires
        low <= n <= high,
        good(n),
        forall|a: int, b: int| low <= a <= b <= high && #[trigger] good(b) ==> #[trigger] good(a),
    ensures
        n <= bisect(low, high, good),
    decreases high - low,
{
    if low < high {
        let mid = (low + high + 1) / 2;
        if good(mid) {
            if n >= mid {
                law_bisect_finds_the_largest(mid, high, good, n);
            } else {
                lemma_bisect(mid, high, good);
            }
        } else {
            assert(n < mid);
            law_bisect_finds_the_largest(low, mid - 1, good, n);
        }
    }
}

// ---------------------------------------------------------------- terminal facts

pub open spec fn maybe(word: Seq<char>, there: bool) -> Seq<Seq<char>> {
    if there {
        seq![word]
    } else {
        seq![]
    }
}

pub open spec fn number_field(name: Seq<char>, number: Option<i32>) -> Seq<Seq<char>> {
    match number {
        Some(n) => seq![name + text::decimal_int(n as int)],
        None => seq![],
    }
}

/// The terminal facts of an execution, one by one.
pub open spec fn facts(execution: ToolExecution, duration_ms: Option<u64>) -> Seq<Seq<char>> {
    number_field("exit_code="@, execution.exit_code) + number_field(
        "signal="@,
        execution.signal,
    ) + maybe("timed_out=true"@, execution.timed_out) + maybe(
        "cancelled=true"@,
        execution.cancelled,
    ) + maybe("session_closed=true"@, execution.session_closed) + match duration_ms {
        Some(n) => seq!["duration_ms="@ + text::decimal(n as nat)],
        None => seq![],
    }
}

pub open spec fn fact_line(fields: Seq<Seq<char>>) -> Seq<char> {
    "[execution "@ + text::join(fields, " "@) + "]"@
}

/// The facts with the end of the error output behind them.
pub open spec fn with_stderr(fields: Seq<Seq<char>>, tail: Seq<char>) -> Seq<char> {
    fact_line(fields.push("stderr_tail="@ + json::rendered(JsonView::Text(tail))))
}

pub open spec fn stderr_fits<C: TokenCounter>(
    fields: Seq<Seq<char>>,
    stderr: Seq<char>,
    counter: C,
    limit: FeedbackLimit,
) -> spec_fn(int) -> bool {
    |n: int| fits(with_stderr(fields, kept(stderr, n, TruncationStrategy::Tail)), counter, limit)
}

/// The terminal facts as a line, with as much of the end of the error output as the search finds
/// room for, and without it where there is none.
pub open spec fn execution_text<C: TokenCounter>(
    execution: ToolExecution,
    duration_ms: Option<u64>,
    counter: C,
    limit: FeedbackLimit,
) -> Seq<char> {
    let fields = facts(execution, duration_ms);
    match execution.stderr_tail {
        None => fact_line(fields),
        Some(tail) => if tail@.len() == 0 {
            fact_line(fields)
        } else if fits(with_stderr(fields, tail@), counter, limit) {
            with_stderr(fields, tail@)
        } else {
            let n = bisect(
                0,
                tail@.len() as int,
                stderr_fits(fields, tail@, counter, limit),
            );
            let bounded = with_stderr(fields, kept(tail@, n, TruncationStrategy::Tail));
            if fits(bounded, counter, limit) {
                bounded
            } else {
                fact_line(fields)
            }
        },
    }
}

fn feedback_fits<C: TokenCounter>(value: &str, counter: &C, limit: FeedbackLimit) -> (yes: bool)
    ensures
        yes == fits(value@, *counter, limit),
{
    text::byte_len_of(value) <= limit.bytes && counter.count_text(value) <= limit.tokens
}

fn slice_chars(chars: &Vec<char>, n: usize, strategy: TruncationStrategy) -> (part: String)
    requires
        n <= chars@.len(),
    ensures
        part@ == kept(chars@, n as int, strategy),
{
    match strategy {
        TruncationStrategy::Head => {
            assert(chars@.subrange(0, n as int) =~= chars@.take(n as int));
            text::from_chars(chars, 0, n)
        },
        TruncationStrategy::Tail => {
            let from: usize = chars.len() - n;
            assert(chars@.subrange(from as int, chars@.len() as int) =~= chars@.skip(from as int));
            text::from_chars(chars, from, chars.len())
        },
    }
}

fn collect_facts(execution: &ToolExecution, duration_ms: Option<u64>) -> (fields: Vec<String>)
    ensures
        text::texts(fields@) == facts(*execution, duration_ms),
{
    let mut fields: Vec<String> = Vec::new();
    match execution.exit_code {
        Some(code) => {
            let number = text::decimal_int_of(code as i64);
            fields.push(text::joined("exit_code=", number.as_str(), "", ""));
        },
        None => {},
    }
    let ghost all = number_field("exit_code="@, execution.exit_code);
    assert(text::texts(fields@) =~= all);
    match execution.signal {
        Some(signal) => {
            let number = text::decimal_int_of(signal as i64);
            fields.push(text::joined("signal=", number.as_str(), "", ""));
        },
        None => {},
    }
    let ghost all = all + number_field("signal="@, execution.signal);
    assert(text::texts(fields@) =~= all);
    if execution.timed_out {
        fields.push("timed_out=true".to_owned());
    }
    let ghost all = all + maybe("timed_out=true"@, execution.timed_out);
    assert(text::texts(fields@) =~= all);
    if execution.cancelled {
        fields.push("cancelled=true".to_owned());
    }
    let ghost all = all + maybe("cancelled=true"@, execution.cancelled);
    assert(text::texts(fields@) =~= all);
    if execution.session_closed {
        fields.push("session_closed=true".to_owned());
    }
    let ghost all = all + maybe("session_closed=true"@, execution.session_closed);
    assert(text::texts(fields@) =~= all);
    match duration_ms {
        Some(duration) => {
            let number = text::decimal_of(duration as u128);
            fields.push(text::joined("duration_ms=", number.as_str(), "", ""));
        },
        None => {},
    }
    assert(text::texts(fields@) =~= facts(*execution, duration_ms));
    fields
}

fn line_of(fields: &Vec<String>) -> (line: String)
    ensures
        line@ == fact_line(text::texts(fields@)),
{
    let inner = text::join_of(fields, " ");
    text::joined("[execution ", inner.as_str(), "]", "")
}

fn line_with_stderr(fields: &Vec<String>, tail: &str) -> (line: String)
    ensures
        line@ == with_stderr(text::texts(fields@), tail@),
{
    let mut longer = text::clone_texts(fields);
    let quoted = Json::text(tail);
    let quote = quoted.render();
    let ghost before = longer@;
    longer.push(text::joined("stderr_tail=", quote.as_str(), "", ""));
    assert(text::texts(longer@) =~= text::texts(fields@).push(
        "stderr_tail="@ + json::rendered(JsonView::Text(tail@)),
    ));
    line_of(&longer)
}

fn render_execution<C: TokenCounter>(
    execution: &ToolExecution,
    duration_ms: Option<u64>,
    counter: &C,
    limit: FeedbackLimit,
) -> (line: String)
    ensures
        line@ == execution_text(*execution, duration_ms, *counter, limit),
{
    let fields = collect_facts(execution, duration_ms);
    let ghost names = text::texts(fields@);
    let core = line_of(&fields);
    let stderr = match &execution.stderr_tail {
        Some(tail) => tail.as_str(),
        None => {
            return core;
        },
    };
    let chars = text::to_chars(stderr);
    if chars.len() == 0 {
        return core;
    }
    let full = line_with_stderr(&fields, stderr);
    if feedback_fits(full.as_str(), counter, limit) {
        return full;
    }
    let ghost good = stderr_fits(names, stderr@, *counter, limit);
    let mut low: usize = 0;
    let mut high: usize = chars.len();
    while low < high
        invariant
            low <= high <= chars@.len(),
            chars@ == stderr@,
            names == text::texts(fields@),
            good == stderr_fits(names, stderr@, *counter, limit),
            bisect(low as int, high as int, good) == bisect(0, stderr@.len() as int, good),
        decreases high - low,
    {
        let mid: usize = low + (high - low) / 2 + (high - low) % 2;
        let part = slice_chars(&chars, mid, TruncationStrategy::Tail);
        let candidate = line_with_stderr(&fields, part.as_str());
        assert(mid == (low + high + 1) / 2);
        if feedback_fits(candidate.as_str(), counter, limit) {
            assert(good(mid as int));
            low = mid;
        } else {
            assert(!good(mid as int));
            high = mid - 1;
        }
    }
    let part = slice_chars(&chars, low, TruncationStrategy::Tail);
    let bounded = line_with_stderr(&fields, part.as_str());
    if feedback_fits(bounded.as_str(), counter, limit) {
        bounded
    } else {
        core
    }
}

// ---------------------------------------------------------------- the whole

pub open spec fn feedback_parts(
    text: Seq<char>,
    structured: Option<Seq<char>>,
    execution: Option<Seq<char>>,
) -> Seq<Seq<char>> {
    (match structured {
        Some(document) => seq!["[structured_content]\n"@ + document],
        None => seq![],
    }) + maybe(text, text.len() > 0) + match execution {
        Some(line) => seq![line],
        None => seq![],
    }
}

/// The text of a result: structure, text, terminal facts.
pub open spec fn feedback(
    text: Seq<char>,
    structured: Option<Seq<char>>,
    execution: Option<Seq<char>>,
) -> Seq<char> {
    text::join(feedback_parts(text, structured, execution), "\n"@)
}

fn render_feedback(text: &str, structured: &Option<String>, execution: &Option<String>) -> (whole:
    String)
    ensures
        whole@ == feedback(text@, text::opt_text(*structured), text::opt_text(*execution)),
{
    let mut parts: Vec<String> = Vec::new();
    match structured {
        Some(document) => {
            parts.push(text::joined("[structured_content]\n", document.as_str(), "", ""));
        },
        None => {},
    }
    let size: usize = text::byte_len_of(text);
    proof {
        text::lemma_byte_len_bounds(text@);
    }
    if size > 0 {
        parts.push(text.to_owned());
    }
    match execution {
        Some(line) => {
            parts.push(line.clone());
        },
        None => {},
    }
    assert(text::texts(parts@) =~= feedback_parts(
        text@,
        text::opt_text(*structured),
        text::opt_text(*execution),
    ));
    text::join_of(&parts, "\n")
}

/// A cut text with its mark.
pub open spec fn marked(part: Seq<char>, marker: Seq<char>) -> Seq<char> {
    part + "\n"@ + marker
}

pub open spec fn cut_fits<C: TokenCounter>(
    text: Seq<char>,
    structured: Option<Seq<char>>,
    execution: Option<Seq<char>>,
    marker: Seq<char>,
    strategy: TruncationStrategy,
    counter: C,
    limit: FeedbackLimit,
) -> spec_fn(int) -> bool {
    |n: int|
        fits(
            feedback(marked(kept(text, n, strategy), marker), structured, execution),
            counter,
            limit,
        )
}

/// The result with its text cut to what the search finds room for, and marked.
pub open spec fn cut_feedback<C: TokenCounter>(
    text: Seq<char>,
    structured: Option<Seq<char>>,
    execution: Option<Seq<char>>,
    marker: Seq<char>,
    strategy: TruncationStrategy,
    counter: C,
    limit: FeedbackLimit,
) -> Seq<char> {
    let n = bisect(
        0,
        text.len() as int,
        cut_fits(text, structured, execution, marker, strategy, counter, limit),
    );
    feedback(marked(kept(text, n, strategy), marker), structured, execution)
}

fn render_cut<C: TokenCounter>(
    text: &str,
    structured: &Option<String>,
    execution: &Option<String>,
    marker: &str,
    strategy: TruncationStrategy,
    counter: &C,
    limit: FeedbackLimit,
) -> (rendered: String)
    ensures
        rendered@ == cut_feedback(
            text@,
            text::opt_text(*structured),
            text::opt_text(*execution),
            marker@,
            strategy,
            *counter,
            limit,
        ),
{
    let chars = text::to_chars(text);
    let ghost good = cut_fits(
        text@,
        text::opt_text(*structured),
        text::opt_text(*execution),
        marker@,
        strategy,
        *counter,
        limit,
    );
    let mut low: usize = 0;
    let mut high: usize = chars.len();
    while low < high
        invariant
            low <= high <= chars@.len(),
            chars@ == text@,
            good == cut_fits(
                text@,
                text::opt_text(*structured),
                text::opt_text(*execution),
                marker@,
                strategy,
                *counter,
                limit,
            ),
            bisect(low as int, high as int, good) == bisect(0, text@.len() as int, good),
        decreases high - low,
    {
        let mid: usize = low + (high - low) / 2 + (high - low) % 2;
        let part = slice_chars(&chars, mid, strategy);
        let whole = text::joined(part.as_str(), "\n", marker, "");
        let candidate = render_feedback(whole.as_str(), structured, execution);
        assert(mid == (low + high + 1) / 2);
        if feedback_fits(candidate.as_str(), counter, limit) {
            assert(good(mid as int));
            low = mid;
        } else {
            assert(!good(mid as int));
            high = mid - 1;
        }
    }
    let part = slice_chars(&chars, low, strategy);
    let whole = text::joined(part.as_str(), "\n", marker, "");
    render_feedback(whole.as_str(), structured, execution)
}

pub open spec fn plain_fits<C: TokenCounter>(
    text: Seq<char>,
    strategy: TruncationStrategy,
    counter: C,
    limit: FeedbackLimit,
) -> spec_fn(int) -> bool {
    |n: int| fits(kept(text, n, strategy), counter, limit)
}

/// A text cut to what the search finds room for.
pub open spec fn cut_plain<C: TokenCounter>(
    text: Seq<char>,
    strategy: TruncationStrategy,
    counter: C,
    limit: FeedbackLimit,
) -> Seq<char> {
    kept(
        text,
        bisect(0, text.len() as int, plain_fits(text, strategy, counter, limit)),
        strategy,
    )
}

fn truncate_plain<C: TokenCounter>(
    text: &str,
    strategy: TruncationStrategy,
    counter: &C,
    limit: FeedbackLimit,
) -> (part: String)
    ensures
        part@ == cut_plain(text@, strategy, *counter, limit),
{
    let chars = text::to_chars(text);
    let ghost good = plain_fits(text@, strategy, *counter, limit);
    let mut low: usize = 0;
    let mut high: usize = chars.len();
    while low < high
        invariant
            low <= high <= chars@.len(),
            chars@ == text@,
            good == plain_fits(text@, strategy, *counter, limit),
            bisect(low as int, high as int, good) == bisect(0, text@.len() as int, good),
        decreases high - low,
    {
        let mid: usize = low + (high - low) / 2 + (high - low) % 2;
        let candidate = slice_chars(&chars, mid, strategy);
        assert(mid == (low + high + 1) / 2);
        if feedback_fits(candidate.as_str(), counter, limit) {
            assert(good(mid as int));
            low = mid;
        } else {
            assert(!good(mid as int));
            high = mid - 1;
        }
    }
    slice_chars(&chars, low, strategy)
}

/// The limit that holds: bytes within the ceiling, and room for terminal facts where there are
/// some.
pub open spec fn effective_limit(terminal: bool, tokens: usize, bytes: usize) -> FeedbackLimit {
    let least_bytes: usize = if terminal {
        tools::MIN_MODEL_TOOL_RESULT_BYTES
    } else {
        1
    };
    let least_tokens: usize = if terminal {
        tools::MIN_MODEL_TOOL_RESULT_TOKENS
    } else {
        1
    };
    let within: usize = if bytes < tools::MAX_MODEL_TOOL_RESULT_BYTES {
        bytes
    } else {
        tools::MAX_MODEL_TOOL_RESULT_BYTES
    };
    FeedbackLimit {
        tokens: if tokens > least_tokens {
            tokens
        } else {
            least_tokens
        },
        bytes: if within > least_bytes {
            within
        } else {
            least_bytes
        },
    }
}

fn limit_for(terminal: bool, tokens: usize, bytes: usize) -> (limit: FeedbackLimit)
    ensures
        limit == effective_limit(terminal, tokens, bytes),
{
    let least_bytes: usize = if terminal {
        tools::MIN_MODEL_TOOL_RESULT_BYTES
    } else {
        1
    };
    let least_tokens: usize = if terminal {
        tools::MIN_MODEL_TOOL_RESULT_TOKENS
    } else {
        1
    };
    let within: usize = if bytes < tools::MAX_MODEL_TOOL_RESULT_BYTES {
        bytes
    } else {
        tools::MAX_MODEL_TOOL_RESULT_BYTES
    };
    FeedbackLimit {
        tokens: if tokens > least_tokens {
            tokens
        } else {
            least_tokens
        },
        bytes: if within > least_bytes {
            within
        } else {
            least_bytes
        },
    }
}

pub const CONTINUATION_HINT: &'static str = "Re-run the tool with a narrower query or explicit range.";

/// The mark behind a cut text.
pub open spec fn cut_marker(strategy: TruncationStrategy) -> Seq<char> {
    "[tool output truncated; strategy="@ + (match strategy {
        TruncationStrategy::Head => "head"@,
        TruncationStrategy::Tail => "tail"@,
    }) + "; continuation="@ + CONTINUATION_HINT@ + "]"@
}

fn marker_of(strategy: TruncationStrategy) -> (marker: String)
    ensures
        marker@ == cut_marker(strategy),
{
    let name = match strategy {
        TruncationStrategy::Head => "head",
        TruncationStrategy::Tail => "tail",
    };
    let mut marker = text::joined(
        "[tool output truncated; strategy=",
        name,
        "; continuation=",
        CONTINUATION_HINT,
    );
    marker.append("]");
    marker
}

/// What becomes of a result that is bounded.
pub struct Bounded {
    pub content: Seq<char>,
    /// Whether something was left out.
    pub cut: bool,
    /// The bytes before anything was left out.
    pub original_bytes: nat,
    pub strategy: TruncationStrategy,
    /// Whether nothing that says anything is left: structure that did not fit, and no text.
    pub emptied: bool,
}

/// What becomes of these parts of a result.
pub open spec fn bounded<C: TokenCounter>(
    text: Seq<char>,
    structured: Option<Seq<char>>,
    execution: Option<Seq<char>>,
    counter: C,
    limit: FeedbackLimit,
) -> Bounded {
    let original = feedback(text, structured, execution);
    let strategy = if execution is Some {
        TruncationStrategy::Tail
    } else {
        TruncationStrategy::Head
    };
    if fits(original, counter, limit) {
        Bounded {
            content: original,
            cut: false,
            original_bytes: text::byte_len(original),
            strategy,
            emptied: false,
        }
    } else {
        let marker = cut_marker(strategy);
        let too_large = structured is Some && !fits(
            feedback(seq![], structured, execution),
            counter,
            limit,
        );
        let whole = if too_large {
            None
        } else {
            structured
        };
        let first = cut_feedback(text, whole, execution, marker, strategy, counter, limit);
        let rendered = if whole is Some && !fits(first, counter, limit) {
            cut_feedback(text, None, execution, marker, strategy, counter, limit)
        } else {
            first
        };
        Bounded {
            content: if fits(rendered, counter, limit) {
                rendered
            } else if execution is Some {
                execution->0
            } else {
                cut_plain(rendered, strategy, counter, limit)
            },
            cut: true,
            original_bytes: text::byte_len(original),
            strategy,
            emptied: too_large && text::blank(text),
        }
    }
}

impl ModelToolResult {
    /// What bounding makes of this result.
    pub open spec fn bounding<C: TokenCounter>(
        self,
        counter: C,
        token_limit: usize,
        byte_limit: usize,
    ) -> Bounded {
        let limit = effective_limit(self.execution is Some, token_limit, byte_limit);
        bounded(
            self.content@,
            match self.structured_content {
                Some(document) => Some(json::rendered(document@)),
                None => None,
            },
            match self.execution {
                Some(execution) => Some(
                    execution_text(execution, self.duration_ms, counter, limit),
                ),
                None => None,
            },
            counter,
            limit,
        )
    }

    /// Whether a result is this one, bounded.
    pub open spec fn bounded_as<C: TokenCounter>(
        self,
        result: ModelToolResult,
        counter: C,
        token_limit: usize,
        byte_limit: usize,
    ) -> bool {
        let after = self.bounding(counter, token_limit, byte_limit);
        &&& result.content@ == after.content
        &&& result.same_apart_from_content(self)
        &&& result.status == if after.emptied {
            ToolResultStatus::Error
        } else {
            self.status
        }
        &&& result.is_error == (after.emptied || self.is_error)
        &&& result.error_kind == if after.emptied {
            Some(ToolErrorKind::Semantic)
        } else {
            self.error_kind
        }
        &&& if after.cut {
            result.truncation matches Some(cut) && cut.original_bytes == after.original_bytes
                && cut.kept_bytes == text::byte_len(after.content) && cut.strategy
                == after.strategy && cut.continuation_hint@ == CONTINUATION_HINT@
        } else {
            result.truncation == self.truncation
        }
    }

    /// Makes the one bounded text that the model reads; the typed fields stay. Structure is taken
    /// whole or left out whole. Terminal facts survive any limit.
    pub fn bound_feedback<C: TokenCounter>(
        self,
        counter: &C,
        token_limit: usize,
        byte_limit: usize,
    ) -> (result: ModelToolResult)
        ensures
            self.bounded_as(result, *counter, token_limit, byte_limit),
    {
        let mut result = self;
        let limit = limit_for(result.execution.is_some(), token_limit, byte_limit);
        let content = result.content.clone();
        let mut structured: Option<String> = match &result.structured_content {
            Some(document) => Some(document.render()),
            None => None,
        };
        let execution: Option<String> = match &result.execution {
            Some(facts) => Some(render_execution(facts, result.duration_ms, counter, limit)),
            None => None,
        };
        let original = render_feedback(content.as_str(), &structured, &execution);
        if feedback_fits(original.as_str(), counter, limit) {
            result.content = original;
            return result;
        }
        let original_bytes: usize = text::byte_len_of(original.as_str());
        let strategy = if execution.is_some() {
            TruncationStrategy::Tail
        } else {
            TruncationStrategy::Head
        };
        let marker = marker_of(strategy);
        if structured.is_some() {
            let alone = render_feedback("", &structured, &execution);
            proof {
                reveal_strlit("");
                assert(""@ =~= seq![]);
            }
            if !feedback_fits(alone.as_str(), counter, limit) {
                structured = None;
                if text::is_blank(content.as_str()) {
                    result.status = ToolResultStatus::Error;
                    result.is_error = true;
                    result.error_kind = Some(ToolErrorKind::Semantic);
                }
            }
        }
        let mut rendered = render_cut(
            content.as_str(),
            &structured,
            &execution,
            marker.as_str(),
            strategy,
            counter,
            limit,
        );
        if structured.is_some() && !feedback_fits(rendered.as_str(), counter, limit) {
            rendered = render_cut(
                content.as_str(),
                &None,
                &execution,
                marker.as_str(),
                strategy,
                counter,
                limit,
            );
        }
        let bounded_text: String = if feedback_fits(rendered.as_str(), counter, limit) {
            rendered
        } else {
            match execution {
                Some(terminal) => terminal,
                None => truncate_plain(rendered.as_str(), strategy, counter, limit),
            }
        };
        let kept_bytes: usize = text::byte_len_of(bounded_text.as_str());
        result.content = bounded_text;
        result.truncation = Some(
            ToolResultTruncation {
                original_bytes,
                kept_bytes,
                strategy,
                continuation_hint: CONTINUATION_HINT.to_owned(),
            },
        );
        result
    }
}

// ---------------------------------------------------------------- laws

/// The bytes of the parts, with one more for each.
spec fn weight(parts: Seq<Seq<char>>) -> nat
    decreases parts.len(),
{
    if parts.len() == 0 {
        0
    } else {
        weight(parts.drop_last()) + text::byte_len(parts.last()) + 1
    }
}

proof fn lemma_weight_add(a: Seq<Seq<char>>, b: Seq<Seq<char>>)
    ensures
        weight(a + b) == weight(a) + weight(b),
    decreases b.len(),
{
    if b.len() == 0 {
        assert(a + b =~= a);
    } else {
        lemma_weight_add(a, b.drop_last());
        assert((a + b).drop_last() =~= a + b.drop_last());
    }
}

proof fn lemma_weight_single(part: Seq<char>)
    ensures
        weight(seq![part]) == text::byte_len(part) + 1,
        weight(seq![]) == 0,
{
    assert(seq![part].drop_last() =~= seq![]);
    assert(weight(seq![part].drop_last()) == 0);
}

proof fn lemma_join_bytes(parts: Seq<Seq<char>>, separator: Seq<char>)
    requires
        text::byte_len(separator) == 1,
    ensures
        text::byte_len(text::join(parts, separator)) <= weight(parts),
    decreases parts.len(),
{
    if parts.len() == 0 {
        text::lemma_byte_len_bounds(text::join(parts, separator));
    } else if parts.len() == 1 {
        assert(parts.drop_last() =~= seq![]);
    } else {
        let before = text::join(parts.drop_last(), separator);
        lemma_join_bytes(parts.drop_last(), separator);
        text::lemma_byte_len_add(before, separator);
        text::lemma_byte_len_add(before + separator, parts.last());
    }
}

proof fn lemma_number_weight(name: Seq<char>, number: Option<i32>)
    ensures
        weight(number_field(name, number)) <= text::byte_len(name) + 12,
{
    match number {
        Some(n) => {
            let digits = if n < 0 {
                (-n) as nat
            } else {
                n as nat
            };
            vstd::arithmetic::power::lemma_pow_positive(10, 10);
            assert(vstd::arithmetic::power::pow(10, 10) == 10000000000) by {
                lemma_ten_powers();
            }
            text::lemma_decimal_bytes(digits, 10);
            let shown = text::decimal_int(n as int);
            if n < 0 {
                text::lemma_byte_len_add(seq!['-'], text::decimal(digits));
                text::lemma_byte_len_single('-');
            }
            text::lemma_byte_len_add(name, shown);
            lemma_weight_single(name + shown);
        },
        None => {},
    }
}

proof fn lemma_ten_powers()
    ensures
        vstd::arithmetic::power::pow(10, 10) == 10000000000,
        vstd::arithmetic::power::pow(10, 20) == 100000000000000000000,
{
    reveal(vstd::arithmetic::power::pow);
    reveal_with_fuel(vstd::arithmetic::power::pow, 11);
    assert(vstd::arithmetic::power::pow(10, 10) == 10000000000);
    vstd::arithmetic::power::lemma_pow_adds(10, 10, 10);
}

proof fn lemma_literal_bytes()
    ensures
        text::byte_len("exit_code="@) == 10,
        text::byte_len("signal="@) == 7,
        text::byte_len("timed_out=true"@) == 14,
        text::byte_len("cancelled=true"@) == 14,
        text::byte_len("session_closed=true"@) == 19,
        text::byte_len("duration_ms="@) == 12,
        text::byte_len("[execution "@) == 11,
        text::byte_len("]"@) == 1,
        text::byte_len(" "@) == 1,
{
    reveal_strlit("exit_code=");
    reveal_strlit("signal=");
    reveal_strlit("timed_out=true");
    reveal_strlit("cancelled=true");
    reveal_strlit("session_closed=true");
    reveal_strlit("duration_ms=");
    reveal_strlit("[execution ");
    reveal_strlit("]");
    reveal_strlit(" ");
    text::lemma_ascii_bytes("exit_code="@);
    text::lemma_ascii_bytes("signal="@);
    text::lemma_ascii_bytes("timed_out=true"@);
    text::lemma_ascii_bytes("cancelled=true"@);
    text::lemma_ascii_bytes("session_closed=true"@);
    text::lemma_ascii_bytes("duration_ms="@);
    text::lemma_ascii_bytes("[execution "@);
    text::lemma_ascii_bytes("]"@);
    text::lemma_ascii_bytes(" "@);
}

/// The terminal facts alone fit the smallest limit of bytes.
pub proof fn law_terminal_facts_fit(execution: ToolExecution, duration_ms: Option<u64>)
    ensures
        text::byte_len(fact_line(facts(execution, duration_ms)))
            <= tools::MIN_MODEL_TOOL_RESULT_BYTES,
{
    lemma_literal_bytes();
    let a = number_field("exit_code="@, execution.exit_code);
    let b = number_field("signal="@, execution.signal);
    let c = maybe("timed_out=true"@, execution.timed_out);
    let d = maybe("cancelled=true"@, execution.cancelled);
    let e = maybe("session_closed=true"@, execution.session_closed);
    let f: Seq<Seq<char>> = match duration_ms {
        Some(n) => seq!["duration_ms="@ + text::decimal(n as nat)],
        None => seq![],
    };
    lemma_number_weight("exit_code="@, execution.exit_code);
    lemma_number_weight("signal="@, execution.signal);
    lemma_weight_single("timed_out=true"@);
    lemma_weight_single("cancelled=true"@);
    lemma_weight_single("session_closed=true"@);
    if duration_ms is Some {
        let n = duration_ms->0 as nat;
        lemma_ten_powers();
        text::lemma_decimal_bytes(n, 20);
        text::lemma_byte_len_add("duration_ms="@, text::decimal(n));
        lemma_weight_single("duration_ms="@ + text::decimal(n));
    }
    lemma_weight_add(a, b);
    lemma_weight_add(a + b, c);
    lemma_weight_add(a + b + c, d);
    lemma_weight_add(a + b + c + d, e);
    lemma_weight_add(a + b + c + d + e, f);
    let fields = facts(execution, duration_ms);
    assert(fields == a + b + c + d + e + f);
    lemma_join_bytes(fields, " "@);
    let inner = text::join(fields, " "@);
    text::lemma_byte_len_add("[execution "@, inner);
    text::lemma_byte_len_add("[execution "@ + inner, "]"@);
}

proof fn lemma_execution_bytes<C: TokenCounter>(
    execution: ToolExecution,
    duration_ms: Option<u64>,
    counter: C,
    limit: FeedbackLimit,
)
    requires
        limit.bytes >= tools::MIN_MODEL_TOOL_RESULT_BYTES,
    ensures
        text::byte_len(execution_text(execution, duration_ms, counter, limit)) <= limit.bytes,
{
    law_terminal_facts_fit(execution, duration_ms);
}

/// A bounded result takes no more bytes than its limit, which is at most the ceiling; only
/// terminal facts raise a smaller limit to their own size. Without terminal facts, which survive
/// any limit of tokens, it takes no more tokens than its limit either; the empty text, the least
/// there is to give, is the one that may cost more.
pub proof fn law_bounded_feedback_fits<C: TokenCounter>(
    result: ModelToolResult,
    counter: C,
    token_limit: usize,
    byte_limit: usize,
)
    ensures
        text::byte_len(result.bounding(counter, token_limit, byte_limit).content)
            <= effective_limit(result.execution is Some, token_limit, byte_limit).bytes,
        effective_limit(result.execution is Some, token_limit, byte_limit).bytes
            <= tools::MAX_MODEL_TOOL_RESULT_BYTES,
        result.execution is None && fits(
            seq![],
            counter,
            effective_limit(false, token_limit, byte_limit),
        ) ==> fits(
            result.bounding(counter, token_limit, byte_limit).content,
            counter,
            effective_limit(false, token_limit, byte_limit),
        ),
{
    let limit = effective_limit(result.execution is Some, token_limit, byte_limit);
    let after = result.bounding(counter, token_limit, byte_limit);
    if result.execution is Some {
        lemma_execution_bytes(result.execution->0, result.duration_ms, counter, limit);
    }
    if after.cut && result.execution is None {
        assert forall|s: Seq<char>|
            {
                let cut = #[trigger] cut_plain(s, after.strategy, counter, limit);
                &&& text::byte_len(cut) <= limit.bytes
                &&& fits(seq![], counter, limit) ==> fits(cut, counter, limit)
            } by {
            lemma_cut_plain_fits(s, after.strategy, counter, limit);
        }
    }
}

proof fn lemma_cut_plain_fits<C: TokenCounter>(
    s: Seq<char>,
    strategy: TruncationStrategy,
    counter: C,
    limit: FeedbackLimit,
)
    ensures
        text::byte_len(cut_plain(s, strategy, counter, limit)) <= limit.bytes,
        fits(seq![], counter, limit) ==> fits(
            cut_plain(s, strategy, counter, limit),
            counter,
            limit,
        ),
{
    let good = plain_fits(s, strategy, counter, limit);
    let n = bisect(0, s.len() as int, good);
    lemma_bisect(0, s.len() as int, good);
    if n == 0 {
        assert(kept(s, 0, strategy) =~= seq![]);
        text::lemma_byte_len_bounds(kept(s, 0, strategy));
    } else {
        assert(good(n));
    }
}

/// Structure is in a bounded result whole or not at all: the content is some text beside the
/// whole document, or it is made without the document.
pub proof fn law_structure_is_whole_or_absent<C: TokenCounter>(
    text: Seq<char>,
    document: Seq<char>,
    execution: Option<Seq<char>>,
    counter: C,
    limit: FeedbackLimit,
)
    ensures
        ({
            let after = bounded(text, Some(document), execution, counter, limit);
            ||| exists|part: Seq<char>|
                after.content == #[trigger] feedback(part, Some(document), execution)
            ||| exists|part: Seq<char>| after.content == #[trigger] feedback(part, None, execution)
            ||| execution is Some && after.content == execution->0
            ||| execution is None && exists|part: Seq<char>|
                after.content == cut_plain(
                    #[trigger] feedback(part, None, None),
                    after.strategy,
                    counter,
                    limit,
                )
        }),
{
    let after = bounded(text, Some(document), execution, counter, limit);
    if after.cut {
        let marker = cut_marker(after.strategy);
        let with_document = bisect(
            0,
            text.len() as int,
            cut_fits(text, Some(document), execution, marker, after.strategy, counter, limit),
        );
        let without = bisect(
            0,
            text.len() as int,
            cut_fits(text, None, execution, marker, after.strategy, counter, limit),
        );
        let a = marked(kept(text, with_document, after.strategy), marker);
        let b = marked(kept(text, without, after.strategy), marker);
        assert(cut_feedback(
            text,
            Some(document),
            execution,
            marker,
            after.strategy,
            counter,
            limit,
        ) == feedback(a, Some(document), execution));
        assert(cut_feedback(text, None, execution, marker, after.strategy, counter, limit)
            == feedback(b, None, execution));
    }
}

/// What fits is not cut, and stays as it is.
pub proof fn law_small_results_are_kept<C: TokenCounter>(
    result: ModelToolResult,
    counter: C,
    token_limit: usize,
    byte_limit: usize,
)
    requires
        result.structured_content is None,
        result.execution is None,
        fits(result.content@, counter, effective_limit(false, token_limit, byte_limit)),
    ensures
        ({
            let after = result.bounding(counter, token_limit, byte_limit);
            after.content == result.content@ && !after.cut && !after.emptied
        }),
{
    let parts = feedback_parts(result.content@, None, None);
    if result.content@.len() > 0 {
        assert(parts =~= seq![result.content@]);
    } else {
        assert(parts =~= seq![]);
        assert(result.content@ =~= seq![]);
    }
}

proof fn lemma_join_pair(a: Seq<char>, b: Seq<char>, separator: Seq<char>)
    ensures
        text::join(seq![a, b], separator) == a + separator + b,
        text::join(seq![a], separator) == a,
{
    assert(seq![a, b].drop_last() =~= seq![a]);
    assert(text::join(seq![a], separator) == a);
}

/// What the model reads, in order: the structure behind its heading, the text, the terminal facts,
/// each on lines of its own.
pub proof fn law_feedback_reads_in_order(
    text: Seq<char>,
    structured: Option<Seq<char>>,
    execution: Option<Seq<char>>,
)
    requires
        text.len() > 0,
    ensures
        feedback(text, structured, execution) == (match structured {
            Some(document) => "[structured_content]\n"@ + document + "\n"@,
            None => seq![],
        }) + text + (match execution {
            Some(line) => "\n"@ + line,
            None => seq![],
        }),
{
    let parts = feedback_parts(text, structured, execution);
    let lines = "\n"@;
    match (structured, execution) {
        (Some(document), Some(line)) => {
            let head = "[structured_content]\n"@ + document;
            assert(parts =~= seq![head, text, line]);
            assert(parts.drop_last() =~= seq![head, text]);
            lemma_join_pair(head, text, lines);
            assert(feedback(text, structured, execution) =~= head + lines + text + (lines + line));
        },
        (Some(document), None) => {
            let head = "[structured_content]\n"@ + document;
            assert(parts =~= seq![head, text]);
            lemma_join_pair(head, text, lines);
            assert(feedback(text, structured, execution) =~= head + lines + text + seq![]);
        },
        (None, Some(line)) => {
            assert(parts =~= seq![text, line]);
            lemma_join_pair(text, line, lines);
            assert(feedback(text, structured, execution) =~= seq![] + text + (lines + line));
        },
        (None, None) => {
            assert(parts =~= seq![text]);
            assert(feedback(text, structured, execution) =~= seq![] + text + seq![]);
        },
    }
}

/// A search that ends short of its bound ends where one more does not do.
proof fn lemma_bisect_stops(low: int, high: int, good: spec_fn(int) -> bool)
    requires
        low <= high,
    ensures
        bisect(low, high, good) == high || !good(bisect(low, high, good) + 1),
    decreases high - low,
{
    if low < high {
        let mid = (low + high + 1) / 2;
        if good(mid) {
            lemma_bisect_stops(mid, high, good);
        } else {
            lemma_bisect_stops(low, mid - 1, good);
        }
    }
}

/// Of a result without terminal facts, what is cut keeps its start: where the mark fits at all, the
/// model reads a start of the text, as long as one more character would not fit, and the mark on a
/// line of its own. Where it does not, it reads a start of that.
pub proof fn law_results_keep_their_start<C: TokenCounter>(
    text: Seq<char>,
    counter: C,
    limit: FeedbackLimit,
)
    requires
        text.len() > 0,
        !fits(text, counter, limit),
    ensures
        ({
            let after = bounded(text, None, None, counter, limit);
            let mark = "\n"@ + ("[tool output truncated; strategy="@ + "head"@
                + "; continuation="@ + CONTINUATION_HINT@ + "]"@);
            &&& after.cut && !after.emptied
            &&& after.strategy == TruncationStrategy::Head
            &&& after.original_bytes == text::byte_len(text)
            &&& fits(mark, counter, limit) ==> exists|n: int|
                0 <= n <= text.len() && after.content == #[trigger] text.take(n) + mark && fits(
                    after.content,
                    counter,
                    limit,
                ) && (n == text.len() || !fits(text.take(n + 1) + mark, counter, limit))
            &&& exists|n: int|
                0 <= n <= text.len() && after.content.is_prefix_of(#[trigger] text.take(n) + mark)
        }),
{
    let after = bounded(text, None, None, counter, limit);
    let strategy = TruncationStrategy::Head;
    let marker = cut_marker(strategy);
    let mark = "\n"@ + ("[tool output truncated; strategy="@ + "head"@ + "; continuation="@
        + CONTINUATION_HINT@ + "]"@);
    assert(mark == "\n"@ + marker);
    law_feedback_reads_in_order(text, None, None);
    assert(feedback(text, None, None) =~= text);
    let good = cut_fits(text, None, None, marker, strategy, counter, limit);
    assert forall|n: int| 0 <= n <= text.len() implies #[trigger] feedback(
        marked(kept(text, n, strategy), marker),
        None,
        None,
    ) == text.take(n) + mark by {
        lemma_newline();
        law_feedback_reads_in_order(marked(kept(text, n, strategy), marker), None, None);
        assert(feedback(marked(kept(text, n, strategy), marker), None, None) =~= text.take(n)
            + mark);
    }
    let n = bisect(0, text.len() as int, good);
    lemma_bisect(0, text.len() as int, good);
    lemma_bisect_stops(0, text.len() as int, good);
    let rendered = feedback(marked(kept(text, n, strategy), marker), None, None);
    assert(rendered == text.take(n) + mark);
    assert(text.take(0) + mark =~= mark);
    assert(feedback(marked(kept(text, 0, strategy), marker), None, None) == mark);
    if n < text.len() {
        assert(feedback(marked(kept(text, n + 1, strategy), marker), None, None) == text.take(
            n + 1,
        ) + mark);
    }
    if fits(mark, counter, limit) {
        assert(good(0));
        assert(good(n));
    }
    if !fits(rendered, counter, limit) {
        let k = bisect(0, rendered.len() as int, plain_fits(rendered, strategy, counter, limit));
        lemma_bisect(0, rendered.len() as int, plain_fits(rendered, strategy, counter, limit));
        assert(after.content =~= rendered.take(k));
    }
    assert(after.content.is_prefix_of(text.take(n) + mark));
}

proof fn lemma_newline()
    ensures
        "\n"@.len() == 1,
{
    reveal_strlit("\n");
}

/// Of a result with terminal facts, what is cut keeps its end, and the facts always stay: where the
/// mark fits beside them, the model reads an end of the text, as long as one more character would
/// not fit, the mark and the facts. Where it does not, it reads the facts, or such a text with them.
pub proof fn law_terminal_results_keep_their_end<C: TokenCounter>(
    text: Seq<char>,
    line: Seq<char>,
    counter: C,
    limit: FeedbackLimit,
)
    requires
        text.len() > 0,
        !fits(text + "\n"@ + line, counter, limit),
    ensures
        ({
            let after = bounded(text, None, Some(line), counter, limit);
            let rest = "\n"@ + ("[tool output truncated; strategy="@ + "tail"@
                + "; continuation="@ + CONTINUATION_HINT@ + "]"@) + ("\n"@ + line);
            &&& after.cut && !after.emptied
            &&& after.strategy == TruncationStrategy::Tail
            &&& after.original_bytes == text::byte_len(text + "\n"@ + line)
            &&& fits(rest, counter, limit) ==> exists|n: int|
                0 <= n <= text.len() && after.content == #[trigger] text.skip(n) + rest && fits(
                    after.content,
                    counter,
                    limit,
                ) && (n == 0 || !fits(text.skip(n - 1) + rest, counter, limit))
            &&& after.content == line || exists|n: int|
                0 <= n <= text.len() && after.content == #[trigger] text.skip(n) + rest
        }),
{
    let execution = Some(line);
    let after = bounded(text, None, execution, counter, limit);
    let strategy = TruncationStrategy::Tail;
    let marker = cut_marker(strategy);
    let rest = "\n"@ + marker + ("\n"@ + line);
    law_feedback_reads_in_order(text, None, execution);
    assert(feedback(text, None, execution) =~= text + "\n"@ + line);
    let good = cut_fits(text, None, execution, marker, strategy, counter, limit);
    assert forall|n: int| 0 <= n <= text.len() implies #[trigger] feedback(
        marked(kept(text, n, strategy), marker),
        None,
        execution,
    ) == text.skip(text.len() - n) + rest by {
        lemma_newline();
        law_feedback_reads_in_order(marked(kept(text, n, strategy), marker), None, execution);
        assert(feedback(marked(kept(text, n, strategy), marker), None, execution) =~= text.skip(
            text.len() - n,
        ) + rest);
    }
    let n = bisect(0, text.len() as int, good);
    lemma_bisect(0, text.len() as int, good);
    lemma_bisect_stops(0, text.len() as int, good);
    let rendered = feedback(marked(kept(text, n, strategy), marker), None, execution);
    assert(rendered == text.skip(text.len() - n) + rest);
    assert(text.skip(text.len() as int) + rest =~= rest);
    assert(feedback(marked(kept(text, 0, strategy), marker), None, execution) == text.skip(
        text.len() - 0,
    ) + rest);
    if n < text.len() {
        assert(feedback(marked(kept(text, n + 1, strategy), marker), None, execution) == text.skip(
            text.len() - (n + 1),
        ) + rest);
        assert(text.len() - (n + 1) == (text.len() - n) - 1);
    }
    if fits(rest, counter, limit) {
        assert(good(0));
        assert(good(n));
    }
}

/// Structure that fits is kept whole in front of a text that is cut, where the mark still fits.
pub proof fn law_structure_that_fits_is_kept<C: TokenCounter>(
    text: Seq<char>,
    document: Seq<char>,
    counter: C,
    limit: FeedbackLimit,
)
    requires
        text.len() > 0,
        !fits("[structured_content]\n"@ + document + "\n"@ + text, counter, limit),
        fits("[structured_content]\n"@ + document, counter, limit),
        fits(
            "[structured_content]\n"@ + document + "\n"@ + ("\n"@ + cut_marker(
                TruncationStrategy::Head,
            )),
            counter,
            limit,
        ),
    ensures
        ({
            let after = bounded(text, Some(document), None, counter, limit);
            &&& after.cut && !after.emptied
            &&& exists|n: int|
                0 <= n <= text.len() && after.content == "[structured_content]\n"@ + document
                    + "\n"@ + (#[trigger] text.take(n) + "\n"@ + cut_marker(
                    TruncationStrategy::Head,
                ))
        }),
{
    let structured = Some(document);
    let strategy = TruncationStrategy::Head;
    let marker = cut_marker(strategy);
    let head = "[structured_content]\n"@ + document;
    let after = bounded(text, structured, None, counter, limit);
    law_feedback_reads_in_order(text, structured, None);
    assert(feedback(text, structured, None) =~= head + "\n"@ + text);
    let alone = feedback_parts(seq![], structured, None);
    assert(alone =~= seq![head]);
    assert(feedback(seq![], structured, None) == head);
    let good = cut_fits(text, structured, None, marker, strategy, counter, limit);
    assert forall|n: int| 0 <= n <= text.len() implies #[trigger] feedback(
        marked(kept(text, n, strategy), marker),
        structured,
        None,
    ) == head + "\n"@ + (text.take(n) + "\n"@ + marker) by {
        lemma_newline();
        law_feedback_reads_in_order(marked(kept(text, n, strategy), marker), structured, None);
        assert(feedback(marked(kept(text, n, strategy), marker), structured, None) =~= head
            + "\n"@ + (text.take(n) + "\n"@ + marker));
    }
    let n = bisect(0, text.len() as int, good);
    lemma_bisect(0, text.len() as int, good);
    assert(feedback(marked(kept(text, 0, strategy), marker), structured, None) =~= head + "\n"@
        + ("\n"@ + marker));
    assert(good(0));
    assert(good(n));
    assert(feedback(marked(kept(text, n, strategy), marker), structured, None) == head + "\n"@ + (
    text.take(n) + "\n"@ + marker));
}

/// Structure that does not fit leaves an error where there is no text to read in its place, and
/// only there does bounding turn a result into an error.
pub proof fn law_lost_structure_is_an_error<C: TokenCounter>(
    text: Seq<char>,
    structured: Option<Seq<char>>,
    execution: Option<Seq<char>>,
    counter: C,
    limit: FeedbackLimit,
)
    ensures
        ({
            let after = bounded(text, structured, execution, counter, limit);
            let alone = feedback(seq![], structured, execution);
            after.emptied <==> !fits(feedback(text, structured, execution), counter, limit)
                && structured is Some && !fits(alone, counter, limit) && forall|i: int|
                0 <= i < text.len() ==> text::is_space(#[trigger] text[i])
        }),
{
}

/// Each terminal fact is told if and only if it is one: the codes where there are any, the flags
/// that are set, the duration where it is known.
pub proof fn law_facts_are_told(execution: ToolExecution, duration_ms: Option<u64>)
    ensures
        ({
            let told = facts(execution, duration_ms);
            &&& execution.exit_code matches Some(code) ==> told.contains(
                "exit_code="@ + text::decimal_int(code as int),
            )
            &&& execution.signal matches Some(code) ==> told.contains(
                "signal="@ + text::decimal_int(code as int),
            )
            &&& execution.timed_out ==> told.contains("timed_out=true"@)
            &&& execution.cancelled ==> told.contains("cancelled=true"@)
            &&& execution.session_closed ==> told.contains("session_closed=true"@)
            &&& duration_ms matches Some(n) ==> told.contains(
                "duration_ms="@ + text::decimal(n as nat),
            )
            &&& told.len() == (if execution.exit_code is Some {
                1int
            } else {
                0
            }) + (if execution.signal is Some {
                1int
            } else {
                0
            }) + (if execution.timed_out {
                1int
            } else {
                0
            }) + (if execution.cancelled {
                1int
            } else {
                0
            }) + (if execution.session_closed {
                1int
            } else {
                0
            }) + (if duration_ms is Some {
                1int
            } else {
                0
            })
        }),
{
    let a = number_field("exit_code="@, execution.exit_code);
    let b = number_field("signal="@, execution.signal);
    let c = maybe("timed_out=true"@, execution.timed_out);
    let d = maybe("cancelled=true"@, execution.cancelled);
    let e = maybe("session_closed=true"@, execution.session_closed);
    let f: Seq<Seq<char>> = match duration_ms {
        Some(n) => seq!["duration_ms="@ + text::decimal(n as nat)],
        None => seq![],
    };
    let told = facts(execution, duration_ms);
    assert(told == a + b + c + d + e + f);
    let ab = a.len() + b.len();
    if a.len() > 0 {
        assert(told[0] == a[0]);
    }
    if b.len() > 0 {
        assert(told[a.len() as int] == b[0]);
    }
    if c.len() > 0 {
        assert(told[ab as int] == c[0]);
    }
    if d.len() > 0 {
        assert(told[(ab + c.len()) as int] == d[0]);
    }
    if e.len() > 0 {
        assert(told[(ab + c.len() + d.len()) as int] == e[0]);
    }
    if f.len() > 0 {
        assert(told[(ab + c.len() + d.len() + e.len()) as int] == f[0]);
    }
}

/// Terminal facts are a line that no limit shortens: with the end of the error output where some of
/// it fits, and all of it where that fits, else alone.
pub proof fn law_facts_come_first<C: TokenCounter>(
    execution: ToolExecution,
    duration_ms: Option<u64>,
    counter: C,
    limit: FeedbackLimit,
)
    ensures
        ({
            let line = execution_text(execution, duration_ms, counter, limit);
            let fields = facts(execution, duration_ms);
            let alone = "[execution "@ + text::join(fields, " "@) + "]"@;
            let beside = |tail: Seq<char>|
                "[execution "@ + text::join(
                    fields.push("stderr_tail="@ + json::rendered(JsonView::Text(tail))),
                    " "@,
                ) + "]"@;
            match execution.stderr_tail {
                None => line == alone,
                Some(tail) => {
                    &&& tail@.len() == 0 ==> line == alone
                    &&& tail@.len() > 0 && fits(beside(tail@), counter, limit) ==> line == beside(
                        tail@,
                    )
                    &&& line == alone || exists|n: int|
                        0 <= n <= tail@.len() && line == beside(#[trigger] tail@.skip(n)) && fits(
                            line,
                            counter,
                            limit,
                        )
                },
            }
        }),
{
    let fields = facts(execution, duration_ms);
    if execution.stderr_tail is Some {
        let tail = execution.stderr_tail->0@;
        let good = stderr_fits(fields, tail, counter, limit);
        let n = bisect(0, tail.len() as int, good);
        lemma_bisect(0, tail.len() as int, good);
        assert(tail.skip(0) =~= tail);
        assert(kept(tail, n, TruncationStrategy::Tail) == tail.skip(tail.len() - n));
    }
}

/// The limit is what was asked for, within the ceiling of the library; there is always room for one
/// byte and one token, and beside terminal facts for the least they need.
pub proof fn law_limits_are_honoured(terminal: bool, tokens: usize, bytes: usize)
    ensures
        ({
            let limit = effective_limit(terminal, tokens, bytes);
            &&& limit.bytes >= 1 && limit.tokens >= 1
            &&& terminal ==> limit.bytes >= tools::MIN_MODEL_TOOL_RESULT_BYTES && limit.tokens
                >= tools::MIN_MODEL_TOOL_RESULT_TOKENS
            &&& limit.tokens >= tokens
            &&& tokens >= tools::MIN_MODEL_TOOL_RESULT_TOKENS ==> limit.tokens == tokens
            &&& tools::MIN_MODEL_TOOL_RESULT_BYTES <= bytes <= tools::MAX_MODEL_TOOL_RESULT_BYTES
                ==> limit.bytes == bytes
            &&& !terminal && 1 <= bytes <= tools::MAX_MODEL_TOOL_RESULT_BYTES ==> limit.bytes
                == bytes
            &&& !terminal && tokens >= 1 ==> limit.tokens == tokens
            &&& bytes >= tools::MAX_MODEL_TOOL_RESULT_BYTES ==> limit.bytes
                == tools::MAX_MODEL_TOOL_RESULT_BYTES
        }),
{
}

/// A bounded result is the same result but for what the model reads of it: it keeps its identifier
/// and its facts, says how much was cut and how much is left, and is an error only where it was one
/// or where nothing of it is left to read.
pub proof fn law_bounded_results_tell_the_cut<C: TokenCounter>(
    given: ModelToolResult,
    result: ModelToolResult,
    counter: C,
    token_limit: usize,
    byte_limit: usize,
)
    requires
        given.bounded_as(result, counter, token_limit, byte_limit),
    ensures
        ({
            let after = given.bounding(counter, token_limit, byte_limit);
            &&& result.content@ == after.content
            &&& result.id@ == given.id@ && result.untrusted == given.untrusted
                && result.duration_ms == given.duration_ms && result.execution == given.execution
                && result.images@ == given.images@ && result.aborts_turn == given.aborts_turn
                && result.requests_compaction == given.requests_compaction
            &&& tools::opt_json(result.structured_content) == tools::opt_json(
                given.structured_content,
            )
            &&& !after.cut ==> result.truncation == given.truncation
            &&& after.cut ==> result.truncation is Some && result.truncation->0.kept_bytes
                == text::byte_len(result.content@) && result.truncation->0.original_bytes
                == after.original_bytes && result.truncation->0.strategy == (if given.execution
                is Some {
                TruncationStrategy::Tail
            } else {
                TruncationStrategy::Head
            })
            &&& given.is_error ==> result.is_error
            &&& !after.emptied ==> result.is_error == given.is_error && result.status
                == given.status && result.error_kind == given.error_kind
            &&& after.emptied ==> result.is_error && result.status == ToolResultStatus::Error
        }),
{
}

/// Where structure must go, the rest is bounded as if it had never been there: the model reads what
/// it would of a result without it.
pub proof fn law_lost_structure_leaves_the_text<C: TokenCounter>(
    text: Seq<char>,
    document: Seq<char>,
    execution: Option<Seq<char>>,
    counter: C,
    limit: FeedbackLimit,
)
    requires
        !fits(feedback(text, Some(document), execution), counter, limit),
        !fits(feedback(text, None, execution), counter, limit),
        !fits(feedback(seq![], Some(document), execution), counter, limit),
    ensures
        bounded(text, Some(document), execution, counter, limit).content == bounded(
            text,
            None,
            execution,
            counter,
            limit,
        ).content,
{
}

/// Structure that fits alone but not beside the mark goes too.
pub proof fn law_structure_gives_way_to_the_text<C: TokenCounter>(
    text: Seq<char>,
    document: Seq<char>,
    execution: Option<Seq<char>>,
    counter: C,
    limit: FeedbackLimit,
)
    requires
        !fits(feedback(text, Some(document), execution), counter, limit),
        !fits(feedback(text, None, execution), counter, limit),
        forall|part: Seq<char>|
            part.len() > 0 ==> !fits(
                #[trigger] feedback(part, Some(document), execution),
                counter,
                limit,
            ),
    ensures
        bounded(text, Some(document), execution, counter, limit).content == bounded(
            text,
            None,
            execution,
            counter,
            limit,
        ).content,
{
    let strategy = if execution is Some {
        TruncationStrategy::Tail
    } else {
        TruncationStrategy::Head
    };
    let marker = cut_marker(strategy);
    let n = bisect(
        0,
        text.len() as int,
        cut_fits(text, Some(document), execution, marker, strategy, counter, limit),
    );
    lemma_newline();
    assert(marked(kept(text, n, strategy), marker).len() > 0);
}

} // verus!
