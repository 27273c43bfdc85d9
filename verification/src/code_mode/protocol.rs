//! The vocabulary of a code mode session: identifiers, requests, states of a cell, its output and
//! its failures. Times are in milliseconds.
use crate::json::{Json, JsonView};
use crate::message;
use crate::text;
use crate::tool_spec;
use crate::tool_spec::{KindView, SpecView, ToolSpec};
use crate::tools;
use vstd::prelude::*;
use vstd::string::*;

verus! {

/// How long a call waits for a cell to finish before it hands back what there is.
pub const DEFAULT_YIELD_TIME: u64 = 10_000;

/// How long a cell that is asked to stop has before its end is forced.
pub const DEFAULT_TERMINATE_GRACE: u64 = 2_000;

/// How many bytes of output one result of a cell may carry.
pub const MAX_CELL_OUTPUT_BYTES: usize = 10_485_760;

/// How many cells a session keeps open at once.
pub const MAX_ACTIVE_CELLS: usize = 8;

/// The identifier of a session.
#[derive(Debug, PartialEq, Eq, Hash)]
pub struct SessionId {
    value: String,
}

impl View for SessionId {
    type V = Seq<char>;

    closed spec fn view(&self) -> Seq<char> {
        self.value@
    }
}

impl SessionId {
    pub fn new(value: &str) -> (id: SessionId)
        ensures
            id@ == value@,
    {
        SessionId { value: value.to_owned() }
    }

    pub fn as_str(&self) -> (value: &str)
        ensures
            value@ == self@,
    {
        self.value.as_str()
    }
}

impl Clone for SessionId {
    fn clone(&self) -> (copy: Self)
        ensures
            copy@ == self@,
    {
        SessionId { value: self.value.clone() }
    }
}

/// The identifier of a cell. It names the session that the cell belongs to.
#[derive(Debug, PartialEq, Eq, Hash)]
pub struct CellId {
    value: String,
}

impl View for CellId {
    type V = Seq<char>;

    closed spec fn view(&self) -> Seq<char> {
        self.value@
    }
}

/// The identifier of the cell of a session with this number.
pub open spec fn cell_name(session: Seq<char>, ordinal: nat) -> Seq<char> {
    session + seq!['#'] + text::decimal(ordinal)
}

/// What stands before the last separator of an identifier.
pub open spec fn session_part(cell: Seq<char>) -> Option<Seq<char>>
    decreases cell.len(),
{
    if cell.len() == 0 {
        None
    } else if cell.last() == '#' {
        Some(cell.drop_last())
    } else {
        session_part(cell.drop_last())
    }
}

impl CellId {
    /// The identifier of the cell of `session` with this number.
    pub fn new(session: &SessionId, ordinal: u64) -> (id: CellId)
        ensures
            id@ == cell_name(session@, ordinal as nat),
    {
        let mut value = session.as_str().to_owned();
        value.push('#');
        value.append(text::decimal_of(ordinal as u128).as_str());
        assert(value@ =~= cell_name(session@, ordinal as nat));
        CellId { value }
    }

    /// An identifier that came from outside; a blank text is none. Whether it names a cell is for
    /// the session to judge.
    pub fn parse(value: &str) -> (id: Option<CellId>)
        ensures
            match id {
                Some(cell) => !text::blank(value@) && cell@ == value@,
                None => text::blank(value@),
            },
    {
        if text::is_blank(value) {
            None
        } else {
            Some(CellId { value: value.to_owned() })
        }
    }

    /// The identifier with this text.
    pub(crate) fn from_name(name: &str) -> (id: CellId)
        ensures
            id@ == name@,
    {
        CellId { value: name.to_owned() }
    }

    pub fn as_str(&self) -> (value: &str)
        ensures
            value@ == self@,
    {
        self.value.as_str()
    }

    /// The session that the identifier names, if it names one.
    pub fn session(&self) -> (session: Option<String>)
        ensures
            text::opt_text(session) == session_part(self@),
    {
        let chars = text::to_chars(self.value.as_str());
        let mut end: usize = chars.len();
        assert(chars@.take(end as int) =~= self@);
        while end > 0
            invariant
                end <= chars.len(),
                session_part(self@) == session_part(chars@.take(end as int)),
            decreases end,
        {
            let ghost before = chars@.take(end as int);
            assert(before.drop_last() =~= chars@.take(end - 1));
            end -= 1;
            if chars[end] == '#' {
                let session = text::from_chars(&chars, 0, end);
                assert(session@ =~= before.drop_last());
                return Some(session);
            }
        }
        None
    }

    /// Whether this is a cell of `session`.
    pub fn belongs_to(&self, session: &SessionId) -> (own: bool)
        ensures
            own == (session_part(self@) == Some(session@)),
    {
        match self.session() {
            Some(named) => text::same_text(named.as_str(), session.as_str()),
            None => false,
        }
    }
}

impl Clone for CellId {
    fn clone(&self) -> (copy: Self)
        ensures
            copy@ == self@,
    {
        CellId { value: self.value.clone() }
    }
}

proof fn lemma_decimal_has_no_separator(front: Seq<char>, n: nat)
    ensures
        session_part(front + seq!['#'] + text::decimal(n)) == Some(front),
    decreases n,
{
    let whole = front + seq!['#'] + text::decimal(n);
    let digits = text::decimal(n);
    assert(whole.last() == digits.last());
    if n < 10 {
        assert(digits.last() == text::digit_char(n));
        assert(digits.last() != '#');
        assert(whole.drop_last() =~= front + seq!['#']);
        assert((front + seq!['#']).last() == '#');
        assert((front + seq!['#']).drop_last() =~= front);
        assert(session_part(front + seq!['#']) == Some(front));
    } else {
        assert(digits.last() == text::digit_char(n % 10));
        assert(digits.last() != '#');
        assert(whole.drop_last() =~= front + seq!['#'] + text::decimal(n / 10));
        lemma_decimal_has_no_separator(front, n / 10);
    }
}

/// An identifier belongs to the session that made it, and to no other.
pub proof fn law_cells_name_their_session(session: Seq<char>, other: Seq<char>, ordinal: nat)
    ensures
        session_part(cell_name(session, ordinal)) == Some(session),
        session_part(cell_name(session, ordinal)) == Some(other) ==> other == session,
{
    lemma_decimal_has_no_separator(session, ordinal);
}

/// Two numbers with one decimal form are one number.
pub proof fn lemma_decimal_injective(a: nat, b: nat)
    requires
        text::decimal(a) == text::decimal(b),
    ensures
        a == b,
    decreases a,
{
    let left = text::decimal(a);
    let right = text::decimal(b);
    lemma_decimal_nonempty(a / 10);
    lemma_decimal_nonempty(b / 10);
    assert(left.last() == text::digit_char(a % 10));
    assert(right.last() == text::digit_char(b % 10));
    assert(a % 10 == b % 10);
    if a < 10 {
        assert(left.len() == 1);
        if b >= 10 {
            assert(right.len() == text::decimal(b / 10).len() + 1);
        }
    } else {
        assert(left.drop_last() =~= text::decimal(a / 10));
        if b < 10 {
            assert(left.len() == text::decimal(a / 10).len() + 1);
        } else {
            assert(right.drop_last() =~= text::decimal(b / 10));
            lemma_decimal_injective(a / 10, b / 10);
        }
    }
}

proof fn lemma_decimal_nonempty(n: nat)
    ensures
        text::decimal(n).len() > 0,
{
}

/// Cells of one session with different numbers have different identifiers.
pub proof fn law_cell_names_are_distinct(session: Seq<char>, a: nat, b: nat)
    requires
        cell_name(session, a) == cell_name(session, b),
    ensures
        a == b,
{
    let from = session.len() as int + 1;
    assert(cell_name(session, a).skip(from) =~= text::decimal(a));
    assert(cell_name(session, b).skip(from) =~= text::decimal(b));
    lemma_decimal_injective(a, b);
}

/// Where a cell is in its life.
#[derive(Debug, Clone, Copy, PartialEq, Eq, Structural)]
pub enum CellState {
    Running,
    Yielded,
    Completed,
    Failed,
}

impl CellState {
    pub open spec fn terminal(self) -> bool {
        self == CellState::Completed || self == CellState::Failed
    }

    pub fn is_terminal(self) -> (yes: bool)
        ensures
            yes == self.terminal(),
    {
        self == CellState::Completed || self == CellState::Failed
    }

    pub open spec fn word(self) -> &'static str {
        match self {
            CellState::Running => "running",
            CellState::Yielded => "yielded",
            CellState::Completed => "completed",
            CellState::Failed => "failed",
        }
    }

    /// The state as a plain word.
    pub fn label(self) -> (label: &'static str)
        ensures
            label == self.word(),
    {
        match self {
            CellState::Running => "running",
            CellState::Yielded => "yielded",
            CellState::Completed => "completed",
            CellState::Failed => "failed",
        }
    }
}

/// Why a cell failed.
#[derive(Debug, Clone, Copy, PartialEq, Eq, Structural)]
pub enum CellFailureKind {
    /// The script threw or did not compile.
    Script,
    /// The time of the processor was used up.
    CpuBudget,
    /// The heap reached its ceiling.
    HeapLimit,
    /// An allocation outside the heap was refused.
    NativeMemory,
    /// The cell was stopped from outside.
    Interrupted,
    /// The engine never told how the cell ended.
    EngineLost,
}

impl CellFailureKind {
    pub open spec fn word(self) -> &'static str {
        match self {
            CellFailureKind::Script => "script_error",
            CellFailureKind::CpuBudget => "cpu_budget",
            CellFailureKind::HeapLimit => "heap_limit",
            CellFailureKind::NativeMemory => "native_memory",
            CellFailureKind::Interrupted => "interrupted",
            CellFailureKind::EngineLost => "engine_lost",
        }
    }

    /// The category as a plain word.
    pub fn label(self) -> (label: &'static str)
        ensures
            label == self.word(),
    {
        match self {
            CellFailureKind::Script => "script_error",
            CellFailureKind::CpuBudget => "cpu_budget",
            CellFailureKind::HeapLimit => "heap_limit",
            CellFailureKind::NativeMemory => "native_memory",
            CellFailureKind::Interrupted => "interrupted",
            CellFailureKind::EngineLost => "engine_lost",
        }
    }
}

/// How a cell failed.
#[derive(Debug, PartialEq, Eq)]
pub struct CellFailure {
    pub kind: CellFailureKind,
    pub message: String,
}

/// What a failure is.
pub struct CellFailureView {
    pub kind: CellFailureKind,
    pub message: Seq<char>,
}

impl View for CellFailure {
    type V = CellFailureView;

    open spec fn view(&self) -> CellFailureView {
        CellFailureView { kind: self.kind, message: self.message@ }
    }
}

pub open spec fn opt_failure(failure: Option<CellFailure>) -> Option<CellFailureView> {
    match failure {
        Some(value) => Some(value@),
        None => None,
    }
}

impl CellFailure {
    pub fn new(kind: CellFailureKind, message: &str) -> (failure: CellFailure)
        ensures
            failure@ == (CellFailureView { kind, message: message@ }),
    {
        CellFailure { kind, message: message.to_owned() }
    }

    /// The failure of a cell that was stopped.
    pub fn interrupted(message: &str) -> (failure: CellFailure)
        ensures
            failure@ == (CellFailureView { kind: CellFailureKind::Interrupted, message: message@ }),
    {
        CellFailure::new(CellFailureKind::Interrupted, message)
    }

    /// The failure in words.
    pub fn describe(&self) -> (words: String)
        ensures
            words@ == self.kind.word()@ + ": "@ + self.message@,
    {
        text::joined(self.kind.label(), ": ", self.message.as_str(), "")
    }
}

impl Clone for CellFailure {
    fn clone(&self) -> (copy: Self)
        ensures
            copy@ == self@,
    {
        CellFailure { kind: self.kind, message: self.message.clone() }
    }
}

/// How closely an image is to be looked at.
#[derive(Debug, Clone, Copy, PartialEq, Eq, Structural)]
pub enum ImageDetail {
    Auto,
    Low,
    High,
    Original,
}

/// One piece of output of a cell.
#[derive(Debug, Clone, PartialEq, Eq)]
pub enum OutputItem {
    Text { text: String },
    Image { image_url: String, detail: Option<ImageDetail> },
    Audio { audio_url: String },
}

/// What a piece of output is.
pub enum ItemView {
    Text { text: Seq<char> },
    Image { image_url: Seq<char>, detail: Option<ImageDetail> },
    Audio { audio_url: Seq<char> },
}

impl View for OutputItem {
    type V = ItemView;

    open spec fn view(&self) -> ItemView {
        match self {
            OutputItem::Text { text } => ItemView::Text { text: text@ },
            OutputItem::Image { image_url, detail } => ItemView::Image {
                image_url: image_url@,
                detail: *detail,
            },
            OutputItem::Audio { audio_url } => ItemView::Audio { audio_url: audio_url@ },
        }
    }
}

pub open spec fn item_views(items: Seq<OutputItem>) -> Seq<ItemView> {
    items.map_values(|item: OutputItem| item@)
}

impl ItemView {
    /// How many bytes the item takes of a result.
    pub open spec fn weight(self) -> nat {
        match self {
            ItemView::Text { text } => text::byte_len(text),
            ItemView::Image { image_url, .. } => text::byte_len(image_url),
            ItemView::Audio { audio_url } => text::byte_len(audio_url),
        }
    }
}

impl OutputItem {
    pub fn text(text: &str) -> (item: OutputItem)
        ensures
            item@ == (ItemView::Text { text: text@ }),
    {
        OutputItem::Text { text: text.to_owned() }
    }

    /// How many bytes the item takes of a result.
    pub fn weight(&self) -> (bytes: usize)
        ensures
            bytes == self@.weight(),
    {
        match self {
            OutputItem::Text { text } => text::byte_len_of(text.as_str()),
            OutputItem::Image { image_url, .. } => text::byte_len_of(image_url.as_str()),
            OutputItem::Audio { audio_url } => text::byte_len_of(audio_url.as_str()),
        }
    }
}

// ---------------------------------------------------------------- nested tools

/// A tool as a cell sees it.
#[derive(Debug, Clone, PartialEq, Eq)]
pub struct NestedTool {
    pub name: String,
    /// The name by which JavaScript reaches the tool.
    pub binding: String,
    pub description: String,
    pub freeform: bool,
    pub input_schema: Option<Json>,
    pub output_schema: Option<Json>,
}

/// What a nested tool is.
pub struct NestedView {
    pub name: Seq<char>,
    pub binding: Seq<char>,
    pub description: Seq<char>,
    pub freeform: bool,
    pub input_schema: Option<JsonView>,
    pub output_schema: Option<JsonView>,
}

impl View for NestedTool {
    type V = NestedView;

    open spec fn view(&self) -> NestedView {
        NestedView {
            name: self.name@,
            binding: self.binding@,
            description: self.description@,
            freeform: self.freeform,
            input_schema: tools::opt_json(self.input_schema),
            output_schema: tools::opt_json(self.output_schema),
        }
    }
}

pub open spec fn nested_views(tools: Seq<NestedTool>) -> Seq<NestedView> {
    tools.map_values(|tool: NestedTool| tool@)
}

/// What a JavaScript identifier may hold.
pub open spec fn binding_char(c: char) -> bool {
    text::is_alnum(c) || c == '_'
}

/// The JavaScript identifier for a name: what an identifier cannot hold becomes an underscore, and
/// one stands before a leading digit.
pub open spec fn binding_of(name: Seq<char>) -> Seq<char> {
    let body = name.map_values(
        |c: char|
            if binding_char(c) {
                c
            } else {
                '_'
            },
    );
    if name.len() == 0 {
        seq!['_']
    } else if text::is_digit(name[0]) {
        seq!['_'] + body
    } else {
        body
    }
}

/// Whether a text is a JavaScript identifier of plain characters.
pub open spec fn identifier(binding: Seq<char>) -> bool {
    &&& binding.len() > 0
    &&& !text::is_digit(binding[0])
    &&& forall|i: int| 0 <= i < binding.len() ==> binding_char(#[trigger] binding[i])
}

/// The JavaScript identifier for the name of a tool.
pub fn normalize_binding(name: &str) -> (binding: String)
    ensures
        binding@ == binding_of(name@),
{
    let chars = text::to_chars(name);
    let ghost body = name@.map_values(
        |c: char|
            if binding_char(c) {
                c
            } else {
                '_'
            },
    );
    let mut binding = String::new();
    let mut index: usize = 0;
    let ghost mut front = Seq::<char>::empty();
    if chars.len() > 0 && chars[0] >= '0' && chars[0] <= '9' {
        binding.push('_');
        proof {
            front = seq!['_'];
        }
    }
    assert(binding@ =~= front + body.take(0));
    while index < chars.len()
        invariant
            index <= chars.len(),
            chars@ == name@,
            body == name@.map_values(
                |c: char|
                    if binding_char(c) {
                        c
                    } else {
                        '_'
                    },
            ),
            binding@ == front + body.take(index as int),
        decreases chars.len() - index,
    {
        let character = chars[index];
        if text::is_alnum_char(character) || character == '_' {
            binding.push(character);
        } else {
            binding.push('_');
        }
        assert(binding@ =~= front + body.take(index + 1));
        index += 1;
    }
    assert(body.take(index as int) =~= body);
    if chars.len() == 0 {
        binding.push('_');
        assert(binding@ =~= seq!['_']);
    } else {
        assert(binding@ =~= binding_of(name@));
    }
    binding
}

/// Every name has an identifier, and an identifier is its own.
pub proof fn law_bindings_are_identifiers(name: Seq<char>)
    ensures
        identifier(binding_of(name)),
        identifier(name) ==> binding_of(name) == name,
{
    let binding = binding_of(name);
    let body = name.map_values(
        |c: char|
            if binding_char(c) {
                c
            } else {
                '_'
            },
    );
    assert forall|i: int| 0 <= i < binding.len() implies binding_char(#[trigger] binding[i]) by {
        if name.len() > 0 && text::is_digit(name[0]) && i > 0 {
            assert(binding[i] == body[i - 1]);
        }
    }
    if identifier(name) {
        assert(body =~= name);
    }
}

/// The names that are tried for a tool, in turn.
pub open spec fn candidate(base: Seq<char>, attempt: nat) -> Seq<char> {
    if attempt == 0 {
        base
    } else {
        base + "_"@ + text::decimal(attempt)
    }
}

/// Whether this is the first try that is free.
pub open spec fn first_free(base: Seq<char>, taken: Seq<Seq<char>>, attempt: nat) -> bool {
    &&& !taken.contains(candidate(base, attempt))
    &&& forall|k: nat| k < attempt ==> taken.contains(#[trigger] candidate(base, k))
}

/// The first name that is free.
pub open spec fn free_name(base: Seq<char>, taken: Seq<Seq<char>>) -> Seq<char> {
    candidate(base, choose|attempt: nat| first_free(base, taken, attempt))
}

/// The identifiers of the tools with these names: each takes the first one that is free.
pub open spec fn bindings(names: Seq<Seq<char>>) -> Seq<Seq<char>>
    decreases names.len(),
{
    if names.len() == 0 {
        seq![]
    } else {
        let before = bindings(names.drop_last());
        before.push(free_name(binding_of(names.last()), before))
    }
}

proof fn lemma_candidates_distinct(base: Seq<char>, a: nat, b: nat)
    requires
        candidate(base, a) == candidate(base, b),
    ensures
        a == b,
{
    reveal_strlit("_");
    lemma_decimal_nonempty(a);
    lemma_decimal_nonempty(b);
    let from = base.len() as int + 1;
    if a == 0 && b > 0 {
        assert(candidate(base, b).len() > base.len());
    } else if b == 0 && a > 0 {
        assert(candidate(base, a).len() > base.len());
    } else if a > 0 {
        assert(candidate(base, a).skip(from) =~= text::decimal(a));
        assert(candidate(base, b).skip(from) =~= text::decimal(b));
        lemma_decimal_injective(a, b);
    }
}

/// As many tries as are taken fit in what is taken.
proof fn lemma_tries_are_bounded(base: Seq<char>, taken: Seq<Seq<char>>, attempt: nat)
    requires
        forall|k: nat| k < attempt ==> taken.contains(#[trigger] candidate(base, k)),
    ensures
        attempt <= taken.len(),
{
    let tries = Seq::new(attempt, |i: int| candidate(base, i as nat));
    assert forall|i: int, j: int| 0 <= i < tries.len() && 0 <= j < tries.len() && i != j implies
        tries[i] != tries[j] by {
        if tries[i] == tries[j] {
            lemma_candidates_distinct(base, i as nat, j as nat);
        }
    }
    tries.unique_seq_to_set();
    vstd::seq_lib::seq_to_set_is_finite(taken);
    assert(tries.to_set().subset_of(taken.to_set())) by {
        assert forall|x: Seq<char>| tries.to_set().contains(x) implies taken.to_set().contains(
            x,
        ) by {
            let i = choose|i: int| 0 <= i < tries.len() && tries[i] == x;
            assert(taken.contains(candidate(base, i as nat)));
        }
    }
    vstd::set_lib::lemma_len_subset(tries.to_set(), taken.to_set());
    taken.lemma_cardinality_of_set();
}

/// A first free try is the only one.
proof fn lemma_first_free_unique(base: Seq<char>, taken: Seq<Seq<char>>, attempt: nat)
    requires
        first_free(base, taken, attempt),
    ensures
        free_name(base, taken) == candidate(base, attempt),
{
    let chosen = choose|k: nat| first_free(base, taken, k);
    assert(first_free(base, taken, chosen));
    if chosen < attempt {
        assert(taken.contains(candidate(base, chosen)));
    }
    if attempt < chosen {
        assert(taken.contains(candidate(base, attempt)));
    }
}

/// There is a free name, whatever is taken.
proof fn lemma_some_name_is_free(base: Seq<char>, taken: Seq<Seq<char>>, attempt: nat)
    requires
        forall|k: nat| k < attempt ==> taken.contains(#[trigger] candidate(base, k)),
    ensures
        !taken.contains(free_name(base, taken)),
        exists|k: nat| #[trigger] first_free(base, taken, k),
    decreases taken.len() + 1 - attempt,
{
    lemma_tries_are_bounded(base, taken, attempt);
    if taken.contains(candidate(base, attempt)) {
        assert forall|k: nat| k < attempt + 1 implies taken.contains(
            #[trigger] candidate(base, k),
        ) by {
            if k == attempt {
            }
        }
        lemma_tries_are_bounded(base, taken, attempt + 1);
        lemma_some_name_is_free(base, taken, attempt + 1);
    } else {
        assert(first_free(base, taken, attempt));
        lemma_first_free_unique(base, taken, attempt);
    }
}

fn free_binding(base: &str, taken: &Vec<String>) -> (binding: String)
    ensures
        binding@ == free_name(base@, text::texts(taken@)),
{
    let ghost held = text::texts(taken@);
    let count: usize = taken.len();
    let mut attempt: usize = 0;
    let mut name = base.to_owned();
    while message::holds_text(taken, name.as_str())
        invariant
            held == text::texts(taken@),
            name@ == candidate(base@, attempt as nat),
            attempt <= count,
            count == taken@.len(),
            forall|k: nat| k < attempt ==> held.contains(#[trigger] candidate(base@, k)),
        decreases count - attempt,
    {
        proof {
            assert forall|k: nat| k < attempt + 1 implies held.contains(
                #[trigger] candidate(base@, k),
            ) by {
                if k == attempt as nat {
                }
            }
            lemma_tries_are_bounded(base@, held, (attempt + 1) as nat);
        }
        attempt += 1;
        let number = text::decimal_of(attempt as u128);
        name = text::joined(base, "_", number.as_str(), "");
    }
    proof {
        assert(first_free(base@, held, attempt as nat));
        lemma_first_free_unique(base@, held, attempt as nat);
    }
    name
}

/// No two tools of a catalog share an identifier, whatever their names.
pub proof fn law_catalog_bindings_are_unique(names: Seq<Seq<char>>)
    ensures
        bindings(names).len() == names.len(),
        bindings(names).no_duplicates(),
    decreases names.len(),
{
    if names.len() > 0 {
        let before = bindings(names.drop_last());
        let base = binding_of(names.last());
        law_catalog_bindings_are_unique(names.drop_last());
        lemma_some_name_is_free(base, before, 0);
        let all = bindings(names);
        assert forall|i: int, j: int| 0 <= i < all.len() && 0 <= j < all.len() && i != j implies
            all[i] != all[j] by {
            if i == before.len() {
                assert(before.contains(before[j]));
            } else if j == before.len() {
                assert(before.contains(before[i]));
            }
        }
    }
}

proof fn lemma_decimal_is_plain(n: nat)
    ensures
        forall|i: int|
            0 <= i < text::decimal(n).len() ==> binding_char(#[trigger] text::decimal(n)[i]),
    decreases n,
{
    let digits = text::decimal(n);
    if n >= 10 {
        lemma_decimal_is_plain(n / 10);
    }
    assert forall|i: int| 0 <= i < digits.len() implies binding_char(#[trigger] digits[i]) by {
        if i == digits.len() - 1 {
            assert(digits[i] == text::digit_char(n % 10));
        } else {
            assert(digits[i] == text::decimal(n / 10)[i]);
        }
    }
}

/// Every name of a catalog is a JavaScript identifier.
pub proof fn law_catalog_bindings_are_identifiers(names: Seq<Seq<char>>, at: int)
    requires
        0 <= at < names.len(),
    ensures
        bindings(names).len() == names.len(),
        identifier(bindings(names)[at]),
    decreases names.len(),
{
    let before = bindings(names.drop_last());
    law_catalog_bindings_are_unique(names);
    law_catalog_bindings_are_unique(names.drop_last());
    if at == names.len() - 1 {
        let base = binding_of(names.last());
        law_bindings_are_identifiers(names.last());
        lemma_some_name_is_free(base, before, 0);
        let attempt = choose|k: nat| first_free(base, before, k);
        let name = candidate(base, attempt);
        reveal_strlit("_");
        lemma_decimal_is_plain(attempt);
        assert(bindings(names)[at] == name);
        assert forall|i: int| 0 <= i < name.len() implies binding_char(#[trigger] name[i]) by {
            if i < base.len() {
                assert(name[i] == base[i]);
            } else if i > base.len() {
                assert(name[i] == text::decimal(attempt)[i - base.len() - 1]);
            }
        }
        assert(name[0] == base[0]);
    } else {
        law_catalog_bindings_are_identifiers(names.drop_last(), at);
        assert(bindings(names)[at] == before[at]);
    }
}

/// A tool as a cell sees it, under this identifier.
pub open spec fn nested_of(spec: SpecView, binding: Seq<char>) -> NestedView {
    NestedView {
        name: spec.name,
        binding,
        description: spec.description,
        freeform: spec.kind is Freeform,
        input_schema: match spec.kind {
            KindView::Function { input_schema, .. } => Some(input_schema),
            _ => None,
        },
        output_schema: match spec.kind {
            KindView::Function { output_schema, .. } => output_schema,
            _ => None,
        },
    }
}

pub open spec fn spec_names(specs: Seq<SpecView>) -> Seq<Seq<char>> {
    specs.map_values(|spec: SpecView| spec.name)
}

impl NestedTool {
    /// The tools as a cell sees them, each under an identifier of its own.
    pub fn catalog(specs: &[ToolSpec]) -> (tools: Vec<NestedTool>)
        ensures
            tools@.len() == specs@.len(),
            bindings(spec_names(tool_spec::spec_views(specs@))).len() == specs@.len(),
            forall|i: int|
                0 <= i < specs@.len() ==> (#[trigger] tools@[i])@ == nested_of(
                    specs@[i]@,
                    bindings(spec_names(tool_spec::spec_views(specs@)))[i],
                ),
    {
        let ghost names = spec_names(tool_spec::spec_views(specs@));
        let ghost wanted = bindings(names);
        let mut taken: Vec<String> = Vec::new();
        let mut tools: Vec<NestedTool> = Vec::new();
        let mut i: usize = 0;
        assert(text::texts(taken@) =~= bindings(names.take(0)));
        while i < specs.len()
            invariant
                i <= specs.len(),
                names == spec_names(tool_spec::spec_views(specs@)),
                text::texts(taken@) == bindings(names.take(i as int)),
                tools@.len() == i,
                taken@.len() == i,
                forall|k: int|
                    0 <= k < i ==> (#[trigger] tools@[k])@ == nested_of(
                        specs@[k]@,
                        text::texts(taken@)[k],
                    ),
            decreases specs.len() - i,
        {
            let ghost held = text::texts(taken@);
            let spec = &specs[i];
            let base = normalize_binding(spec.name.as_str());
            let binding = free_binding(base.as_str(), &taken);
            let ghost chosen = binding@;
            taken.push(binding.clone());
            let tool = NestedTool::from_spec(spec, binding);
            proof {
                assert(names[i as int] == spec@.name);
                assert(names.take(i + 1).drop_last() =~= names.take(i as int));
                assert(names.take(i + 1).last() == names[i as int]);
                assert(text::texts(taken@) =~= held.push(chosen));
                assert forall|k: int| 0 <= k < i implies text::texts(taken@)[k] == held[k] by {}
            }
            tools.push(tool);
            i += 1;
        }
        assert(names.take(i as int) =~= names);
        tools
    }

    /// One tool, under an identifier that was chosen for it.
    fn from_spec(spec: &ToolSpec, binding: String) -> (tool: NestedTool)
        ensures
            tool@ == nested_of(spec@, binding@),
    {
        NestedTool {
            name: spec.name.clone(),
            binding,
            description: spec.description.clone(),
            freeform: spec.is_freeform(),
            input_schema: clone_schema(spec.input_schema()),
            output_schema: clone_schema(spec.output_schema()),
        }
    }
}

fn clone_schema(schema: Option<&Json>) -> (copy: Option<Json>)
    ensures
        match (schema, copy) {
            (Some(a), Some(b)) => a@ == b@,
            (None, None) => true,
            _ => false,
        },
{
    match schema {
        Some(document) => Some(document.clone()),
        None => None,
    }
}

// ---------------------------------------------------------------- requests

/// What a session is asked to run.
#[derive(Debug, Clone, PartialEq, Eq)]
pub struct ExecuteRequest {
    /// The call of the model that the cell answers.
    pub call_id: String,
    pub source: String,
    pub tools: Vec<NestedTool>,
    pub yield_time: u64,
    pub max_output_bytes: usize,
}

impl ExecuteRequest {
    pub fn new(call_id: &str, source: &str) -> (request: ExecuteRequest)
        ensures
            request.call_id@ == call_id@,
            request.source@ == source@,
            request.tools@.len() == 0,
            request.yield_time == DEFAULT_YIELD_TIME,
            request.max_output_bytes == MAX_CELL_OUTPUT_BYTES,
    {
        ExecuteRequest {
            call_id: call_id.to_owned(),
            source: source.to_owned(),
            tools: Vec::new(),
            yield_time: DEFAULT_YIELD_TIME,
            max_output_bytes: MAX_CELL_OUTPUT_BYTES,
        }
    }

    pub fn with_tools(self, tools: Vec<NestedTool>) -> (request: ExecuteRequest)
        ensures
            request == (ExecuteRequest { tools, ..self }),
    {
        ExecuteRequest {
            call_id: self.call_id,
            source: self.source,
            tools,
            yield_time: self.yield_time,
            max_output_bytes: self.max_output_bytes,
        }
    }

    pub fn with_yield_time(self, yield_time: u64) -> (request: ExecuteRequest)
        ensures
            request == (ExecuteRequest { yield_time, ..self }),
    {
        ExecuteRequest {
            call_id: self.call_id,
            source: self.source,
            tools: self.tools,
            yield_time,
            max_output_bytes: self.max_output_bytes,
        }
    }

    pub fn with_max_output_bytes(self, max_output_bytes: usize) -> (request: ExecuteRequest)
        ensures
            request == (ExecuteRequest { max_output_bytes, ..self }),
    {
        ExecuteRequest {
            call_id: self.call_id,
            source: self.source,
            tools: self.tools,
            yield_time: self.yield_time,
            max_output_bytes,
        }
    }
}

/// What a session is asked to do with an open cell.
#[derive(Debug, Clone, PartialEq, Eq)]
pub struct WaitRequest {
    pub cell_id: CellId,
    pub yield_time: u64,
    /// Stop the cell instead of waiting for more output.
    pub terminate: bool,
}

impl WaitRequest {
    pub fn new(cell_id: CellId) -> (request: WaitRequest)
        ensures
            request == (WaitRequest { cell_id, yield_time: DEFAULT_YIELD_TIME, terminate: false }),
    {
        WaitRequest { cell_id, yield_time: DEFAULT_YIELD_TIME, terminate: false }
    }

    pub fn terminating(cell_id: CellId) -> (request: WaitRequest)
        ensures
            request == (WaitRequest { cell_id, yield_time: DEFAULT_YIELD_TIME, terminate: true }),
    {
        WaitRequest { cell_id, yield_time: DEFAULT_YIELD_TIME, terminate: true }
    }

    pub fn with_yield_time(self, yield_time: u64) -> (request: WaitRequest)
        ensures
            request == (WaitRequest { yield_time, ..self }),
    {
        WaitRequest { cell_id: self.cell_id, yield_time, terminate: self.terminate }
    }
}

// ---------------------------------------------------------------- answers

/// The answer to a call. It carries the output since the last answer about the cell, and no more.
#[allow(inconsistent_fields)]
#[derive(Debug, Clone, PartialEq, Eq)]
pub enum RuntimeResponse {
    /// The cell is still open.
    Yielded { cell_id: CellId, items: Vec<OutputItem>, omitted_bytes: usize },
    /// The cell was stopped from outside.
    Terminated {
        cell_id: CellId,
        items: Vec<OutputItem>,
        failure: CellFailure,
        omitted_bytes: usize,
    },
    /// The cell reached its own end.
    Finished {
        cell_id: CellId,
        items: Vec<OutputItem>,
        failure: Option<CellFailure>,
        omitted_bytes: usize,
    },
}

/// What an answer is.
#[allow(inconsistent_fields)]
pub enum ResponseView {
    Yielded { cell_id: Seq<char>, items: Seq<ItemView>, omitted_bytes: usize },
    Terminated {
        cell_id: Seq<char>,
        items: Seq<ItemView>,
        failure: CellFailureView,
        omitted_bytes: usize,
    },
    Finished {
        cell_id: Seq<char>,
        items: Seq<ItemView>,
        failure: Option<CellFailureView>,
        omitted_bytes: usize,
    },
}

impl View for RuntimeResponse {
    type V = ResponseView;

    open spec fn view(&self) -> ResponseView {
        match self {
            RuntimeResponse::Yielded { cell_id, items, omitted_bytes } => ResponseView::Yielded {
                cell_id: cell_id@,
                items: item_views(items@),
                omitted_bytes: *omitted_bytes,
            },
            RuntimeResponse::Terminated { cell_id, items, failure, omitted_bytes } => {
                ResponseView::Terminated {
                    cell_id: cell_id@,
                    items: item_views(items@),
                    failure: failure@,
                    omitted_bytes: *omitted_bytes,
                }
            },
            RuntimeResponse::Finished { cell_id, items, failure, omitted_bytes } => {
                ResponseView::Finished {
                    cell_id: cell_id@,
                    items: item_views(items@),
                    failure: opt_failure(*failure),
                    omitted_bytes: *omitted_bytes,
                }
            },
        }
    }
}

impl ResponseView {
    pub open spec fn cell(self) -> Seq<char> {
        match self {
            ResponseView::Yielded { cell_id, .. } => cell_id,
            ResponseView::Terminated { cell_id, .. } => cell_id,
            ResponseView::Finished { cell_id, .. } => cell_id,
        }
    }

    pub open spec fn output(self) -> Seq<ItemView> {
        match self {
            ResponseView::Yielded { items, .. } => items,
            ResponseView::Terminated { items, .. } => items,
            ResponseView::Finished { items, .. } => items,
        }
    }

    pub open spec fn omitted(self) -> usize {
        match self {
            ResponseView::Yielded { omitted_bytes, .. } => omitted_bytes,
            ResponseView::Terminated { omitted_bytes, .. } => omitted_bytes,
            ResponseView::Finished { omitted_bytes, .. } => omitted_bytes,
        }
    }

    pub open spec fn state(self) -> CellState {
        match self {
            ResponseView::Yielded { .. } => CellState::Yielded,
            ResponseView::Terminated { .. } => CellState::Failed,
            ResponseView::Finished { failure: Some(_), .. } => CellState::Failed,
            ResponseView::Finished { failure: None, .. } => CellState::Completed,
        }
    }
}

impl RuntimeResponse {
    pub fn cell_id(&self) -> (cell: &CellId)
        ensures
            cell@ == self@.cell(),
    {
        match self {
            RuntimeResponse::Yielded { cell_id, .. } => cell_id,
            RuntimeResponse::Terminated { cell_id, .. } => cell_id,
            RuntimeResponse::Finished { cell_id, .. } => cell_id,
        }
    }

    pub fn items(&self) -> (items: &[OutputItem])
        ensures
            item_views(items@) == self@.output(),
    {
        match self {
            RuntimeResponse::Yielded { items, .. } => items.as_slice(),
            RuntimeResponse::Terminated { items, .. } => items.as_slice(),
            RuntimeResponse::Finished { items, .. } => items.as_slice(),
        }
    }

    /// The state that the answer leaves its cell in.
    pub fn state(&self) -> (state: CellState)
        ensures
            state == self@.state(),
    {
        match self {
            RuntimeResponse::Yielded { .. } => CellState::Yielded,
            RuntimeResponse::Terminated { .. } => CellState::Failed,
            RuntimeResponse::Finished { failure, .. } => match failure {
                Some(_) => CellState::Failed,
                None => CellState::Completed,
            },
        }
    }

    pub fn failure(&self) -> (failure: Option<&CellFailure>)
        ensures
            match (failure, self@) {
                (Some(f), ResponseView::Terminated { failure: told, .. }) => f@ == told,
                (Some(f), ResponseView::Finished { failure: told, .. }) => told == Some(f@),
                (None, ResponseView::Finished { failure: told, .. }) => told is None,
                (None, ResponseView::Yielded { .. }) => true,
                _ => false,
            },
    {
        match self {
            RuntimeResponse::Yielded { .. } => None,
            RuntimeResponse::Terminated { failure, .. } => Some(failure),
            RuntimeResponse::Finished { failure, .. } => match failure {
                Some(told) => Some(told),
                None => None,
            },
        }
    }
}

// ---------------------------------------------------------------- refusals

/// Every way in which a command can be refused. A refusal reads no output.
#[derive(Debug, Clone, PartialEq, Eq)]
pub enum CodeModeError {
    UnknownCell { cell_id: CellId },
    ForeignCell { cell_id: CellId, session: SessionId },
    DuplicateCell { cell_id: CellId, session: SessionId },
    SessionClosed { session: SessionId },
    TooManyCells { session: SessionId, active: usize, limit: usize },
    EngineUnavailable { detail: String },
}

/// What a refusal is.
pub enum CodeModeFault {
    UnknownCell { cell_id: Seq<char> },
    ForeignCell { cell_id: Seq<char>, session: Seq<char> },
    DuplicateCell { cell_id: Seq<char>, session: Seq<char> },
    SessionClosed { session: Seq<char> },
    TooManyCells { session: Seq<char>, active: usize, limit: usize },
    EngineUnavailable { detail: Seq<char> },
}

impl View for CodeModeError {
    type V = CodeModeFault;

    open spec fn view(&self) -> CodeModeFault {
        match self {
            CodeModeError::UnknownCell { cell_id } => CodeModeFault::UnknownCell {
                cell_id: cell_id@,
            },
            CodeModeError::ForeignCell { cell_id, session } => CodeModeFault::ForeignCell {
                cell_id: cell_id@,
                session: session@,
            },
            CodeModeError::DuplicateCell { cell_id, session } => CodeModeFault::DuplicateCell {
                cell_id: cell_id@,
                session: session@,
            },
            CodeModeError::SessionClosed { session } => CodeModeFault::SessionClosed {
                session: session@,
            },
            CodeModeError::TooManyCells { session, active, limit } => CodeModeFault::TooManyCells {
                session: session@,
                active: *active,
                limit: *limit,
            },
            CodeModeError::EngineUnavailable { detail } => CodeModeFault::EngineUnavailable {
                detail: detail@,
            },
        }
    }
}

impl CodeModeFault {
    pub open spec fn text(self) -> Seq<char> {
        match self {
            CodeModeFault::UnknownCell { cell_id } => "unknown cell "@ + cell_id,
            CodeModeFault::ForeignCell { cell_id, session } => "cell "@ + cell_id
                + " does not belong to session "@ + session,
            CodeModeFault::DuplicateCell { cell_id, session } => "cell "@ + cell_id
                + " is already open in session "@ + session,
            CodeModeFault::SessionClosed { session } => "code mode session "@ + session
                + " is shut down"@,
            CodeModeFault::TooManyCells { session, active, limit } => "session "@ + session
                + " already runs "@ + text::decimal(active as nat) + " cells (limit "@
                + text::decimal(limit as nat) + ")"@,
            CodeModeFault::EngineUnavailable { detail } => "code mode engine unavailable: "@
                + detail,
        }
    }
}

impl CodeModeError {
    /// The refusal in words.
    pub fn message(&self) -> (message: String)
        ensures
            message@ == self@.text(),
    {
        match self {
            CodeModeError::UnknownCell { cell_id } => text::joined(
                "unknown cell ",
                cell_id.as_str(),
                "",
                "",
            ),
            CodeModeError::ForeignCell { cell_id, session } => text::joined(
                "cell ",
                cell_id.as_str(),
                " does not belong to session ",
                session.as_str(),
            ),
            CodeModeError::DuplicateCell { cell_id, session } => text::joined(
                "cell ",
                cell_id.as_str(),
                " is already open in session ",
                session.as_str(),
            ),
            CodeModeError::SessionClosed { session } => text::joined(
                "code mode session ",
                session.as_str(),
                " is shut down",
                "",
            ),
            CodeModeError::TooManyCells { session, active, limit } => {
                let running = text::decimal_of(*active as u128);
                let most = text::decimal_of(*limit as u128);
                let mut message = text::joined(
                    "session ",
                    session.as_str(),
                    " already runs ",
                    running.as_str(),
                );
                message.append(" cells (limit ");
                message.append(most.as_str());
                message.append(")");
                message
            },
            CodeModeError::EngineUnavailable { detail } => text::joined(
                "code mode engine unavailable: ",
                detail.as_str(),
                "",
                "",
            ),
        }
    }
}

/// How a session was shut down.
#[derive(Debug, Clone, PartialEq, Eq)]
pub struct ShutdownReport {
    /// Whether the worker of the engine has ended.
    pub joined: bool,
    /// The cells whose end had to be forced.
    pub forced_cells: Vec<CellId>,
    pub detail: Option<String>,
}

impl ShutdownReport {
    pub fn joined() -> (report: ShutdownReport)
        ensures
            report.joined,
            report.forced_cells@.len() == 0,
            report.detail is None,
    {
        ShutdownReport { joined: true, forced_cells: Vec::new(), detail: None }
    }

    pub fn unjoined(detail: &str) -> (report: ShutdownReport)
        ensures
            !report.joined,
            report.forced_cells@.len() == 0,
            text::opt_text(report.detail) == Some(detail@),
    {
        ShutdownReport { joined: false, forced_cells: Vec::new(), detail: Some(detail.to_owned()) }
    }
}

/// The identifier for a name keeps every letter, digit and underscore in its place, and puts an
/// underscore for anything else; one more stands in front of a leading digit alone.
pub proof fn law_bindings_keep_plain_characters(name: Seq<char>, i: int)
    requires
        0 <= i < name.len(),
    ensures
        ({
            let shift: int = if '0' <= name[0] <= '9' {
                1
            } else {
                0
            };
            let c = name[i];
            let plain = '0' <= c <= '9' || 'a' <= c <= 'z' || 'A' <= c <= 'Z' || c == '_';
            &&& binding_of(name).len() == name.len() + shift
            &&& shift == 1 ==> binding_of(name)[0] == '_'
            &&& binding_of(name)[i + shift] == if plain {
                c
            } else {
                '_'
            }
        }),
{
}

/// A tool is called by the identifier for its name where no tool before it is; else by that with
/// the first number behind it that makes it free.
pub proof fn law_tools_keep_their_names(names: Seq<Seq<char>>, name: Seq<char>) -> (attempt: nat)
    ensures
        ({
            let before = bindings(names);
            let after = bindings(names.push(name));
            let base = binding_of(name);
            &&& after.len() == before.len() + 1
            &&& after.drop_last() == before
            &&& !before.contains(base) ==> after.last() == base
            &&& before.contains(base) ==> attempt > 0 && after.last() == base + "_"@
                + text::decimal(attempt) && forall|k: nat|
                0 < k < attempt ==> before.contains(base + "_"@ + #[trigger] text::decimal(k))
        }),
{
    let before = bindings(names);
    let base = binding_of(name);
    assert(names.push(name).drop_last() =~= names);
    lemma_some_name_is_free(base, before, 0);
    let attempt = choose|attempt: nat| first_free(base, before, attempt);
    assert(first_free(base, before, attempt));
    assert(bindings(names.push(name)).drop_last() =~= before);
    if !before.contains(base) {
        if attempt > 0 {
            assert(before.contains(candidate(base, 0)));
        }
    } else {
        assert forall|k: nat| 0 < k < attempt implies before.contains(
            base + "_"@ + #[trigger] text::decimal(k),
        ) by {
            assert(before.contains(candidate(base, k)));
        }
    }
    attempt
}

/// A cell sees of a tool its name, its description and its schemas; a freeform tool has none.
pub proof fn law_cells_see_tools_as_they_are(spec: SpecView, binding: Seq<char>)
    ensures
        ({
            let tool = nested_of(spec, binding);
            &&& tool.name == spec.name && tool.binding == binding && tool.description
                == spec.description
            &&& tool.freeform <==> spec.kind is Freeform
            &&& spec.kind is Function ==> tool.input_schema == Some(spec.kind->input_schema)
                && tool.output_schema == spec.kind->output_schema
            &&& !(spec.kind is Function) ==> tool.input_schema is None && tool.output_schema is None
        }),
{
}

/// A cell has ended once it is complete or has failed, and not before.
pub proof fn law_ended_cells(state: CellState)
    ensures
        state.terminal() <==> state != CellState::Running && state != CellState::Yielded,
{
}

} // verus!
