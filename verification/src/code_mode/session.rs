//! The state of a code mode session: one per thread, the owner of its cells. An answer carries
//! only what a cell brought since the last one, and a command that names a cell of another session
//! is refused before any output is read.
use crate::code_mode::protocol;
use crate::code_mode::protocol::{
    CellFailure, CellFailureKind, CellFailureView, CellId, CellState, CodeModeError, CodeModeFault,
    ExecuteRequest, ItemView, OutputItem, ResponseView, RuntimeResponse, SessionId, WaitRequest,
    DEFAULT_TERMINATE_GRACE, MAX_ACTIVE_CELLS, MAX_CELL_OUTPUT_BYTES,
};
use crate::text;
use vstd::prelude::*;
use vstd::string::*;

verus! {

/// What a session allows, whatever a request asks for. The grace is in milliseconds.
#[derive(Debug, Clone, Copy, PartialEq, Eq, Structural)]
pub struct SessionLimits {
    pub terminate_grace: u64,
    pub max_active_cells: usize,
    pub max_output_bytes: usize,
}

impl Default for SessionLimits {
    fn default() -> (limits: Self)
        ensures
            limits == (SessionLimits {
                terminate_grace: DEFAULT_TERMINATE_GRACE,
                max_active_cells: MAX_ACTIVE_CELLS,
                max_output_bytes: MAX_CELL_OUTPUT_BYTES,
            }),
    {
        SessionLimits {
            terminate_grace: DEFAULT_TERMINATE_GRACE,
            max_active_cells: MAX_ACTIVE_CELLS,
            max_output_bytes: MAX_CELL_OUTPUT_BYTES,
        }
    }
}

// ---------------------------------------------------------------- one cell

/// What a session holds of an open cell.
#[derive(Debug, PartialEq, Eq)]
pub struct CellSlot {
    pub state: CellState,
    /// The output since the last answer.
    pub pending: Vec<OutputItem>,
    pub pending_bytes: usize,
    /// How many bytes were dropped since the last answer.
    pub omitted_bytes: usize,
    pub max_output_bytes: usize,
    pub failure: Option<CellFailure>,
    /// The cell was stopped from outside.
    pub stopped: bool,
    pub yield_requested: bool,
}

/// What an open cell is.
#[verifier::ext_equal]
pub struct SlotView {
    pub state: CellState,
    pub pending: Seq<ItemView>,
    pub pending_bytes: nat,
    pub omitted_bytes: usize,
    pub max_output_bytes: usize,
    pub failure: Option<CellFailureView>,
    pub stopped: bool,
    pub yield_requested: bool,
}

impl View for CellSlot {
    type V = SlotView;

    open spec fn view(&self) -> SlotView {
        SlotView {
            state: self.state,
            pending: protocol::item_views(self.pending@),
            pending_bytes: self.pending_bytes as nat,
            omitted_bytes: self.omitted_bytes,
            max_output_bytes: self.max_output_bytes,
            failure: protocol::opt_failure(self.failure),
            stopped: self.stopped,
            yield_requested: self.yield_requested,
        }
    }
}

/// The bytes of a run of output.
pub open spec fn weight_of(items: Seq<ItemView>) -> nat
    decreases items.len(),
{
    if items.len() == 0 {
        0
    } else {
        weight_of(items.drop_last()) + items.last().weight()
    }
}

/// A number of bytes as it is counted: no further than a machine word goes.
pub open spec fn counted_bytes(bytes: nat) -> usize {
    if bytes <= usize::MAX {
        bytes as usize
    } else {
        usize::MAX
    }
}

impl SlotView {
    /// A cell that was just opened.
    pub open spec fn fresh(max_output_bytes: usize) -> SlotView {
        SlotView {
            state: CellState::Running,
            pending: seq![],
            pending_bytes: 0,
            omitted_bytes: 0,
            max_output_bytes,
            failure: None,
            stopped: false,
            yield_requested: false,
        }
    }

    /// What is pending is counted, and stays below the ceiling.
    pub open spec fn wf(self) -> bool {
        &&& self.pending_bytes == weight_of(self.pending)
        &&& self.pending_bytes <= self.max_output_bytes
    }

    /// The cell after one more piece of output. From the first piece that goes beyond the ceiling
    /// on everything is dropped and counted, until the next answer.
    pub open spec fn pushed(self, item: ItemView) -> SlotView {
        let state = if self.state == CellState::Yielded {
            CellState::Running
        } else {
            self.state
        };
        if self.omitted_bytes > 0 || self.pending_bytes + item.weight() > self.max_output_bytes {
            SlotView {
                state,
                omitted_bytes: counted_bytes(self.omitted_bytes as nat + item.weight()),
                ..self
            }
        } else {
            SlotView {
                state,
                pending: self.pending.push(item),
                pending_bytes: self.pending_bytes + item.weight(),
                ..self
            }
        }
    }

    /// The cell after a run of output.
    pub open spec fn pushed_all(self, items: Seq<ItemView>) -> SlotView
        decreases items.len(),
    {
        if items.len() == 0 {
            self
        } else {
            self.pushed_all(items.drop_last()).pushed(items.last())
        }
    }

    /// The cell after it ended. Only the first end counts.
    pub open spec fn finished(self, failure: Option<CellFailureView>) -> SlotView {
        if self.state.terminal() {
            self
        } else {
            SlotView {
                state: if failure is Some {
                    CellState::Failed
                } else {
                    CellState::Completed
                },
                failure,
                ..self
            }
        }
    }

    /// The cell after its output was handed out.
    pub open spec fn drained(self) -> SlotView {
        SlotView { pending: seq![], pending_bytes: 0, omitted_bytes: 0, ..self }
    }

    /// The cell after an answer that leaves it open.
    pub open spec fn yielded(self) -> SlotView {
        SlotView { yield_requested: false, state: CellState::Yielded, ..self.drained() }
    }

    /// The cell after its session was shut down.
    pub open spec fn forced(self) -> SlotView {
        if self.state.terminal() {
            self
        } else {
            SlotView { state: CellState::Failed, failure: Some(shutdown_failure()), ..self }
        }
    }
}

/// The failure of a cell that was stopped and told no cause.
pub open spec fn requested_failure() -> CellFailureView {
    CellFailureView {
        kind: CellFailureKind::Interrupted,
        message: "cell terminated on request"@,
    }
}

/// The failure of a cell that a shutdown overtook.
pub open spec fn shutdown_failure() -> CellFailureView {
    CellFailureView {
        kind: CellFailureKind::Interrupted,
        message: "session shut down before the cell finished"@,
    }
}

/// The failure of a cell that did not stop in time.
pub open spec fn forced_failure(grace: u64) -> CellFailureView {
    CellFailureView {
        kind: CellFailureKind::Interrupted,
        message: "engine did not confirm termination within "@ + text::decimal(grace as nat)
            + " ms"@,
    }
}

impl CellSlot {
    pub fn new(max_output_bytes: usize) -> (slot: CellSlot)
        ensures
            slot@ == SlotView::fresh(max_output_bytes),
    {
        let slot = CellSlot {
            state: CellState::Running,
            pending: Vec::new(),
            pending_bytes: 0,
            omitted_bytes: 0,
            max_output_bytes,
            failure: None,
            stopped: false,
            yield_requested: false,
        };
        assert(slot@ =~= SlotView::fresh(max_output_bytes));
        slot
    }

    /// Appends a piece of output, or drops and counts it.
    pub fn push(&mut self, item: OutputItem)
        ensures
            final(self)@ == old(self)@.pushed(item@),
    {
        let weight: usize = item.weight();
        let ghost before = self@;
        let ghost view = item@;
        let overflows = self.pending_bytes > self.max_output_bytes || weight
            > self.max_output_bytes - self.pending_bytes;
        if self.omitted_bytes > 0 || overflows {
            self.omitted_bytes = self.omitted_bytes.saturating_add(weight);
        } else {
            self.pending_bytes = self.pending_bytes + weight;
            self.pending.push(item);
            assert(protocol::item_views(self.pending@) =~= before.pending.push(view));
        }
        if self.state == CellState::Yielded {
            self.state = CellState::Running;
        }
        assert(self@ =~= before.pushed(view));
    }

    /// Asks for an answer now, without an end of the cell.
    pub fn request_yield(&mut self)
        ensures
            final(self)@ == (SlotView { yield_requested: true, ..old(self)@ }),
    {
        self.yield_requested = true;
    }

    /// Ends the cell, unless it has ended.
    pub fn finish(&mut self, failure: Option<CellFailure>)
        ensures
            final(self)@ == old(self)@.finished(protocol::opt_failure(failure)),
    {
        if self.state.is_terminal() {
            return;
        }
        self.state = match &failure {
            Some(_) => CellState::Failed,
            None => CellState::Completed,
        };
        self.failure = failure;
    }

    fn take_items(&mut self) -> (taken: (Vec<OutputItem>, usize))
        ensures
            protocol::item_views(taken.0@) == old(self)@.pending,
            taken.1 == old(self)@.omitted_bytes,
            final(self)@ == old(self)@.drained(),
    {
        let ghost before = self@;
        let mut items: Vec<OutputItem> = Vec::new();
        items.append(&mut self.pending);
        let omitted: usize = self.omitted_bytes;
        self.pending_bytes = 0;
        self.omitted_bytes = 0;
        assert(protocol::item_views(items@) =~= before.pending);
        assert(self@ =~= before.drained());
        (items, omitted)
    }
}

/// What was pushed since the last answer comes out in order and without a hole: the first pieces,
/// and the bytes of all the rest. All of it comes out where it fits.
pub proof fn law_output_has_no_holes(slot: SlotView, items: Seq<ItemView>)
    requires
        slot.wf(),
        slot.pending.len() == 0,
        slot.omitted_bytes == 0,
    ensures
        ({
            let after = slot.pushed_all(items);
            let kept = after.pending.len() as int;
            &&& after.wf()
            &&& after.max_output_bytes == slot.max_output_bytes
            &&& kept <= items.len()
            &&& after.pending == items.take(kept)
            &&& after.omitted_bytes == counted_bytes(weight_of(items.skip(kept)))
            &&& (after.omitted_bytes == 0) == (kept == items.len())
            &&& weight_of(items) <= slot.max_output_bytes ==> kept == items.len()
        }),
    decreases items.len(),
{
    if items.len() == 0 {
        assert(items.take(0) =~= slot.pending);
        assert(items.skip(0).len() == 0);
    } else {
        let front = items.drop_last();
        let last = items.last();
        law_output_has_no_holes(slot, front);
        let before = slot.pushed_all(front);
        let after = slot.pushed_all(items);
        let kept = before.pending.len() as int;
        assert(after == before.pushed(last));
        if before.omitted_bytes > 0 || before.pending_bytes + last.weight()
            > before.max_output_bytes {
            assert(after.pending == before.pending);
            assert(items.take(kept) =~= front.take(kept));
            assert(items.skip(kept).drop_last() =~= front.skip(kept));
            assert(items.skip(kept).last() == last);
            if kept == front.len() {
                assert(front.take(kept) =~= front);
                assert(weight_of(front.skip(kept)) == 0);
            }
        } else {
            assert(front.take(kept) =~= front);
            assert(after.pending =~= items);
            assert(items.take(kept + 1) =~= items);
            assert(items.drop_last() =~= front);
            assert(items.skip(kept + 1).len() == 0);
        }
    }
}

/// An answer hands out what is pending once: after it the cell starts from nothing, so the next
/// answer holds only what is pushed later.
pub proof fn law_nothing_is_delivered_twice(slot: SlotView, later: Seq<ItemView>)
    requires
        slot.wf(),
    ensures
        slot.yielded().wf(),
        slot.yielded().pending.len() == 0,
        slot.yielded().pushed_all(later).pending.is_prefix_of(later),
        weight_of(later) <= slot.max_output_bytes ==> slot.yielded().pushed_all(later).pending
            == later,
{
    let start = slot.yielded();
    assert(weight_of(start.pending) == 0);
    law_output_has_no_holes(start, later);
    let after = start.pushed_all(later);
    assert(later.take(later.len() as int) =~= later);
}

/// The first end of a cell stands: a later one changes nothing.
pub proof fn law_first_end_wins(
    slot: SlotView,
    first: Option<CellFailureView>,
    second: Option<CellFailureView>,
)
    ensures
        slot.finished(first).state.terminal(),
        slot.finished(first).finished(second) == slot.finished(first),
        slot.finished(first).forced() == slot.finished(first),
{
}

// ---------------------------------------------------------------- a session

/// An open cell.
#[derive(Debug, PartialEq, Eq)]
pub struct OpenCell {
    pub id: CellId,
    pub slot: CellSlot,
}

/// A session and its open cells.
#[derive(Debug, PartialEq, Eq)]
pub struct CodeModeSession {
    pub id: SessionId,
    pub limits: SessionLimits,
    pub cells: Vec<OpenCell>,
    /// The number of the next cell.
    pub ordinal: u64,
    pub closed: bool,
}

/// What a session is.
#[verifier::ext_equal]
pub struct SessionView {
    pub id: Seq<char>,
    pub limits: SessionLimits,
    pub names: Seq<Seq<char>>,
    pub slots: Seq<SlotView>,
    pub ordinal: u64,
    pub closed: bool,
}

pub open spec fn cell_names(cells: Seq<OpenCell>) -> Seq<Seq<char>> {
    cells.map_values(|cell: OpenCell| cell.id@)
}

pub open spec fn cell_slots(cells: Seq<OpenCell>) -> Seq<SlotView> {
    cells.map_values(|cell: OpenCell| cell.slot@)
}

impl View for CodeModeSession {
    type V = SessionView;

    open spec fn view(&self) -> SessionView {
        SessionView {
            id: self.id@,
            limits: self.limits,
            names: cell_names(self.cells@),
            slots: cell_slots(self.cells@),
            ordinal: self.ordinal,
            closed: self.closed,
        }
    }
}

impl SessionView {
    /// Every identifier once, and no more cells than are allowed.
    pub open spec fn wf(self) -> bool {
        &&& self.names.len() == self.slots.len()
        &&& self.names.no_duplicates()
        &&& self.names.len() <= self.limits.max_active_cells
        &&& forall|i: int| 0 <= i < self.slots.len() ==> (#[trigger] self.slots[i]).wf()
    }

    /// The place of a cell among the open ones.
    pub open spec fn at(self, cell: Seq<char>) -> Option<int> {
        text::place(self.names, cell)
    }

    pub open spec fn slot(self, cell: Seq<char>) -> Option<SlotView> {
        match self.at(cell) {
            Some(i) => Some(self.slots[i]),
            None => None,
        }
    }

    /// The session with another state of one of its cells.
    pub open spec fn with_slot(self, cell: Seq<char>, slot: SlotView) -> SessionView {
        match self.at(cell) {
            Some(i) => SessionView { slots: self.slots.update(i, slot), ..self },
            None => self,
        }
    }

    /// The session without one of its cells.
    pub open spec fn without(self, cell: Seq<char>) -> SessionView {
        match self.at(cell) {
            Some(i) => SessionView {
                names: self.names.remove(i),
                slots: self.slots.remove(i),
                ..self
            },
            None => self,
        }
    }

    /// Why a cell that is not open cannot be asked.
    pub open spec fn absence(self, cell: Seq<char>) -> CodeModeFault {
        if self.closed {
            CodeModeFault::SessionClosed { session: self.id }
        } else {
            CodeModeFault::UnknownCell { cell_id: cell }
        }
    }

    /// Why a command on a cell is refused before anything is read.
    pub open spec fn foreign(self, cell: Seq<char>) -> Option<CodeModeFault> {
        if protocol::session_part(cell) == Some(self.id) {
            None
        } else {
            Some(CodeModeFault::ForeignCell { cell_id: cell, session: self.id })
        }
    }

    /// The identifier of the next cell.
    pub open spec fn next_name(self) -> Seq<char> {
        protocol::cell_name(self.id, self.ordinal as nat)
    }

    /// The number after the next.
    pub open spec fn next_ordinal(self) -> u64 {
        if self.ordinal == u64::MAX {
            0
        } else {
            (self.ordinal + 1) as u64
        }
    }

    /// Why no cell can be opened, before a number is spent.
    pub open spec fn refusal(self) -> Option<CodeModeFault> {
        if self.closed {
            Some(CodeModeFault::SessionClosed { session: self.id })
        } else if self.names.len() >= self.limits.max_active_cells {
            Some(
                CodeModeFault::TooManyCells {
                    session: self.id,
                    active: self.names.len() as usize,
                    limit: self.limits.max_active_cells,
                },
            )
        } else {
            None
        }
    }

    /// The session after it opened a cell.
    pub open spec fn opened(self, max_output_bytes: usize) -> SessionView {
        let ceiling = if max_output_bytes <= self.limits.max_output_bytes {
            max_output_bytes
        } else {
            self.limits.max_output_bytes
        };
        SessionView {
            names: self.names.push(self.next_name()),
            slots: self.slots.push(SlotView::fresh(ceiling)),
            ordinal: self.next_ordinal(),
            ..self
        }
    }

    /// The answer that a cell which has ended leads to.
    pub open spec fn final_answer(cell: Seq<char>, slot: SlotView) -> ResponseView {
        if slot.stopped {
            ResponseView::Terminated {
                cell_id: cell,
                items: slot.pending,
                failure: match slot.failure {
                    Some(failure) => failure,
                    None => requested_failure(),
                },
                omitted_bytes: slot.omitted_bytes,
            }
        } else {
            ResponseView::Finished {
                cell_id: cell,
                items: slot.pending,
                failure: slot.failure,
                omitted_bytes: slot.omitted_bytes,
            }
        }
    }

    /// The answer to a cell that was stopped, once its grace is over.
    pub open spec fn stop_answer(self, cell: Seq<char>, slot: SlotView) -> ResponseView {
        ResponseView::Terminated {
            cell_id: cell,
            items: slot.pending,
            failure: match slot.failure {
                Some(failure) => failure,
                None => if slot.state.terminal() {
                    requested_failure()
                } else {
                    forced_failure(self.limits.terminate_grace)
                },
            },
            omitted_bytes: slot.omitted_bytes,
        }
    }

    /// The session after it was told to shut down: no cell is opened any more, and every open one
    /// is stopped.
    pub open spec fn shut(self) -> SessionView {
        SessionView {
            closed: true,
            slots: self.slots.map_values(|slot: SlotView| SlotView { stopped: true, ..slot }),
            ..self
        }
    }

    /// The session after every cell was brought to an end.
    pub open spec fn all_forced(self) -> SessionView {
        SessionView {
            slots: self.slots.map_values(|slot: SlotView| slot.forced()),
            ..self
        }
    }

    /// The cells that are still going.
    pub open spec fn going(self) -> Seq<Seq<char>> {
        going_among(self.names, self.slots)
    }
}

/// The cells among these that are still going.
pub open spec fn going_among(names: Seq<Seq<char>>, slots: Seq<SlotView>) -> Seq<Seq<char>>
    decreases slots.len(),
{
    if slots.len() == 0 {
        seq![]
    } else {
        let before = going_among(names, slots.drop_last());
        if slots.last().state.terminal() {
            before
        } else {
            before.push(names[slots.len() - 1])
        }
    }
}

/// What a wait asks for.
#[derive(Debug, Clone, Copy, PartialEq, Eq, Structural)]
pub enum WaitStep {
    /// Stop the cell and close it.
    Terminate,
    /// Wait for output or the end.
    Collect,
}

impl CodeModeSession {
    pub fn new(id: SessionId) -> (session: CodeModeSession)
        ensures
            session.id == id,
            session.limits == (SessionLimits {
                terminate_grace: DEFAULT_TERMINATE_GRACE,
                max_active_cells: MAX_ACTIVE_CELLS,
                max_output_bytes: MAX_CELL_OUTPUT_BYTES,
            }),
            session.cells@.len() == 0,
            session.ordinal == 0,
            !session.closed,
            session@.wf(),
    {
        CodeModeSession::with_limits(id, SessionLimits::default())
    }

    pub fn with_limits(id: SessionId, limits: SessionLimits) -> (session: CodeModeSession)
        ensures
            session.id == id,
            session.limits == limits,
            session.cells@.len() == 0,
            session.ordinal == 0,
            !session.closed,
            session@.wf(),
    {
        CodeModeSession { id, limits, cells: Vec::new(), ordinal: 0, closed: false }
    }

    pub fn id(&self) -> (id: &SessionId)
        ensures
            *id == self.id,
    {
        &self.id
    }

    pub fn is_closed(&self) -> (closed: bool)
        ensures
            closed == self.closed,
    {
        self.closed
    }

    fn find(&self, cell: &CellId) -> (place: Option<usize>)
        ensures
            match place {
                Some(i) => self@.at(cell@) == Some(i as int) && i < self.cells@.len(),
                None => self@.at(cell@) is None,
            },
    {
        let ghost names = cell_names(self.cells@);
        let mut i: usize = 0;
        while i < self.cells.len()
            invariant
                i <= self.cells.len(),
                names == cell_names(self.cells@),
                forall|k: int| 0 <= k < i ==> #[trigger] names[k] != cell@,
            decreases self.cells.len() - i,
        {
            assert(names[i as int] == self.cells@[i as int].id@);
            if text::same_text(self.cells[i].id.as_str(), cell.as_str()) {
                proof {
                    text::lemma_place_at(names, cell@, i as int);
                }
                return Some(i);
            }
            i += 1;
        }
        proof {
            text::lemma_place(names, cell@);
        }
        None
    }

    /// The state of an open cell.
    pub fn cell_state(&self, cell: &CellId) -> (state: Option<CellState>)
        ensures
            match state {
                Some(s) => self@.slot(cell@) is Some && self@.slot(cell@)->0.state == s,
                None => self@.slot(cell@) is None,
            },
    {
        match self.find(cell) {
            Some(i) => {
                assert(self@.slots[i as int] == self.cells@[i as int].slot@);
                Some(self.cells[i].slot.state)
            },
            None => None,
        }
    }

    /// The open cells in the order of their identifiers, each with its state.
    pub fn cells(&self) -> (cells: Vec<(CellId, CellState)>)
        requires
            self@.wf(),
        ensures
            cells@.map_values(|cell: (CellId, CellState)| cell.0@) == text::sorted_texts(
                self@.names,
            ),
            forall|i: int|
                0 <= i < cells@.len() ==> self@.slot((#[trigger] cells@[i]).0@) is Some
                    && self@.slot(cells@[i].0@)->0.state == cells@[i].1,
    {
        let ghost names = self@.names;
        let mut raw: Vec<String> = Vec::new();
        let mut i: usize = 0;
        while i < self.cells.len()
            invariant
                i <= self.cells.len(),
                names == cell_names(self.cells@),
                text::texts(raw@) == names.take(i as int),
            decreases self.cells.len() - i,
        {
            let ghost before = text::texts(raw@);
            let name = self.cells[i].id.as_str().to_owned();
            let ghost view = name@;
            raw.push(name);
            assert(text::texts(raw@) =~= before.push(view));
            assert(names.take(i + 1) =~= names.take(i as int).push(names[i as int]));
            i += 1;
        }
        assert(names.take(i as int) =~= names);
        let sorted = text::sort_texts(&raw);
        let ghost order = text::sorted_texts(names);
        proof {
            text::lemma_at_most_total();
            names.lemma_sort_by_ensures(text::at_most());
        }
        let mut cells: Vec<(CellId, CellState)> = Vec::new();
        let mut k: usize = 0;
        while k < sorted.len()
            invariant
                k <= sorted.len(),
                names == self@.names,
                self@.wf(),
                order == text::texts(sorted@),
                order.to_multiset() == names.to_multiset(),
                cells@.len() == k,
                forall|i: int| 0 <= i < k ==> (#[trigger] cells@[i]).0@ == order[i],
                forall|i: int|
                    0 <= i < k ==> self@.slot((#[trigger] cells@[i]).0@) is Some && self@.slot(
                        cells@[i].0@,
                    )->0.state == cells@[i].1,
            decreases sorted.len() - k,
        {
            proof {
                assert(order[k as int] == sorted@[k as int]@);
                order.to_multiset_ensures();
                names.to_multiset_ensures();
                assert(order.contains(order[k as int]));
                assert(order.to_multiset().count(order[k as int]) > 0);
                assert(names.contains(order[k as int]));
                text::lemma_place(names, order[k as int]);
            }
            let cell = CellId::from_name(sorted[k].as_str());
            match self.find(&cell) {
                Some(at) => {
                    assert(self@.slots[at as int] == self.cells@[at as int].slot@);
                    cells.push((cell, self.cells[at].slot.state));
                },
                None => {
                    assert(false);
                },
            }
            k += 1;
        }
        assert(cells@.map_values(|cell: (CellId, CellState)| cell.0@) =~= order);
        cells
    }

    /// Opens a cell for a request and names it. The engine starts it next.
    pub fn execute(&mut self, request: &ExecuteRequest) -> (opened: Result<CellId, CodeModeError>)
        requires
            old(self)@.wf(),
        ensures
            final(self)@.wf(),
            final(self).limits == old(self).limits,
            match old(self)@.refusal() {
                Some(fault) => (opened matches Err(e) && e@ == fault) && final(self)@ == old(self)@,
                None => if old(self)@.names.contains(old(self)@.next_name()) {
                    &&& opened matches Err(e) && e@ == (CodeModeFault::DuplicateCell {
                        cell_id: old(self)@.next_name(),
                        session: old(self)@.id,
                    })
                    &&& final(self)@ == (SessionView {
                        ordinal: old(self)@.next_ordinal(),
                        ..old(self)@
                    })
                } else {
                    &&& opened matches Ok(cell) && cell@ == old(self)@.next_name()
                    &&& final(self)@ == old(self)@.opened(request.max_output_bytes)
                },
            },
    {
        let ghost before = self@;
        if self.closed {
            return Err(CodeModeError::SessionClosed { session: self.id.clone() });
        }
        if self.cells.len() >= self.limits.max_active_cells {
            return Err(
                CodeModeError::TooManyCells {
                    session: self.id.clone(),
                    active: self.cells.len(),
                    limit: self.limits.max_active_cells,
                },
            );
        }
        let cell = CellId::new(&self.id, self.ordinal);
        self.ordinal = self.ordinal.wrapping_add(1);
        proof {
            text::lemma_place(before.names, cell@);
        }
        if self.find(&cell).is_some() {
            return Err(CodeModeError::DuplicateCell { cell_id: cell, session: self.id.clone() });
        }
        let ceiling: usize = if request.max_output_bytes <= self.limits.max_output_bytes {
            request.max_output_bytes
        } else {
            self.limits.max_output_bytes
        };
        let slot = CellSlot::new(ceiling);
        let ghost fresh = slot@;
        self.cells.push(OpenCell { id: cell.clone(), slot });
        proof {
            assert(self@.names =~= before.names.push(cell@));
            assert(self@.slots =~= before.slots.push(fresh));
            assert(weight_of(fresh.pending) == 0);
            assert(self@ =~= before.opened(request.max_output_bytes));
        }
        Ok(cell)
    }

    /// Takes in that the engine did not start a cell: it leaves no trace.
    pub fn start_failed(&mut self, cell: &CellId, detail: String) -> (error: CodeModeError)
        requires
            old(self)@.wf(),
        ensures
            final(self)@.wf(),
            error@ == (CodeModeFault::EngineUnavailable { detail: detail@ }),
            final(self)@ == old(self)@.without(cell@),
    {
        let _removed = self.remove(cell);
        CodeModeError::EngineUnavailable { detail }
    }

    fn remove(&mut self, cell: &CellId) -> (removed: Option<CellSlot>)
        requires
            old(self)@.wf(),
        ensures
            final(self)@.wf(),
            final(self)@ == old(self)@.without(cell@),
            match removed {
                Some(slot) => old(self)@.slot(cell@) == Some(slot@),
                None => old(self)@.slot(cell@) is None,
            },
    {
        let ghost before = self@;
        match self.find(cell) {
            Some(i) => {
                let open = self.cells.remove(i);
                proof {
                    assert(self@.names =~= before.names.remove(i as int));
                    assert(self@.slots =~= before.slots.remove(i as int));
                    assert(self@ =~= before.without(cell@));
                    assert forall|k: int| 0 <= k < self@.slots.len() implies (
                    #[trigger] self@.slots[k]).wf() by {
                        if k < i {
                            assert(self@.slots[k] == before.slots[k]);
                        } else {
                            assert(self@.slots[k] == before.slots[k + 1]);
                        }
                    }
                }
                Some(open.slot)
            },
            None => None,
        }
    }

    /// Holds a cell against the session; what it has brought is not read.
    fn check_owned(&self, cell: &CellId) -> (checked: Result<(), CodeModeError>)
        ensures
            match self@.foreign(cell@) {
                Some(fault) => checked matches Err(e) && e@ == fault,
                None => checked is Ok,
            },
    {
        if cell.belongs_to(&self.id) {
            Ok(())
        } else {
            Err(CodeModeError::ForeignCell { cell_id: cell.clone(), session: self.id.clone() })
        }
    }

    fn absent(&self, cell: &CellId) -> (error: CodeModeError)
        ensures
            error@ == self@.absence(cell@),
    {
        if self.closed {
            CodeModeError::SessionClosed { session: self.id.clone() }
        } else {
            CodeModeError::UnknownCell { cell_id: cell.clone() }
        }
    }

    /// What a wait on a cell leads to.
    pub fn wait(&self, request: &WaitRequest) -> (step: Result<WaitStep, CodeModeError>)
        ensures
            match self@.foreign(request.cell_id@) {
                Some(fault) => step matches Err(e) && e@ == fault,
                None => step == Ok::<WaitStep, CodeModeError>(
                    if request.terminate {
                        WaitStep::Terminate
                    } else {
                        WaitStep::Collect
                    },
                ),
            },
    {
        match self.check_owned(&request.cell_id) {
            Ok(()) => {
                if request.terminate {
                    Ok(WaitStep::Terminate)
                } else {
                    Ok(WaitStep::Collect)
                }
            },
            Err(error) => Err(error),
        }
    }

    /// Marks a cell as stopped. The engine is told next, and has the grace of the session.
    pub fn terminate(&mut self, cell: &CellId) -> (marked: Result<(), CodeModeError>)
        requires
            old(self)@.wf(),
        ensures
            final(self)@.wf(),
            match old(self)@.foreign(cell@) {
                Some(fault) => (marked matches Err(e) && e@ == fault) && final(self)@ == old(self)@,
                None => match old(self)@.slot(cell@) {
                    None => (marked matches Err(e) && e@ == old(self)@.absence(cell@)) && final(self)@ == old(self)@,
                    Some(slot) => marked is Ok && final(self)@ == old(self)@.with_slot(
                        cell@,
                        SlotView { stopped: true, ..slot },
                    ),
                },
            },
    {
        let ghost before = self@;
        match self.check_owned(cell) {
            Ok(()) => {},
            Err(error) => {
                return Err(error);
            },
        }
        match self.find(cell) {
            Some(i) => {
                assert(before.slots[i as int] == self.cells@[i as int].slot@);
                self.cells[i].slot.stopped = true;
                proof {
                    assert(self@.names =~= before.names);
                    assert(self@.slots =~= before.slots.update(
                        i as int,
                        SlotView { stopped: true, ..before.slots[i as int] },
                    ));
                    assert(self@ =~= before.with_slot(
                        cell@,
                        SlotView { stopped: true, ..before.slots[i as int] },
                    ));
                    lemma_update_keeps_wf(before, i as int, self@.slots[i as int]);
                }
                Ok(())
            },
            None => Err(self.absent(cell)),
        }
    }

    /// Closes a cell that was stopped, whether it ended or its grace is over.
    pub fn close(&mut self, cell: &CellId) -> (answer: Result<RuntimeResponse, CodeModeError>)
        requires
            old(self)@.wf(),
        ensures
            final(self)@.wf(),
            final(self)@ == old(self)@.without(cell@),
            match old(self)@.slot(cell@) {
                Some(slot) => answer matches Ok(response) && response@ == old(self)@.stop_answer(
                    cell@,
                    slot,
                ),
                None => answer matches Err(e) && e@ == old(self)@.absence(cell@),
            },
    {
        let grace: u64 = self.limits.terminate_grace;
        match self.remove(cell) {
            Some(slot) => {
                let mut slot = slot;
                let forced = !slot.state.is_terminal();
                let (items, omitted_bytes) = slot.take_items();
                let failure = match slot.failure {
                    Some(failure) => failure,
                    None => {
                        if forced {
                            let number = text::decimal_of(grace as u128);
                            let message = text::joined(
                                "engine did not confirm termination within ",
                                number.as_str(),
                                " ms",
                                "",
                            );
                            CellFailure::interrupted(message.as_str())
                        } else {
                            CellFailure::interrupted("cell terminated on request")
                        }
                    },
                };
                Ok(
                    RuntimeResponse::Terminated {
                        cell_id: cell.clone(),
                        items,
                        failure,
                        omitted_bytes,
                    },
                )
            },
            None => Err(self.absent(cell)),
        }
    }

    /// Looks whether there is an answer about a cell: its end, a yield that it asked for, or what
    /// it has when the time is up. Without one, the caller waits for the cell to move.
    pub fn collect(&mut self, cell: &CellId, time_is_up: bool) -> (answer: Result<
        Option<RuntimeResponse>,
        CodeModeError,
    >)
        requires
            old(self)@.wf(),
        ensures
            final(self)@.wf(),
            match old(self)@.slot(cell@) {
                None => (answer matches Err(e) && e@ == old(self)@.absence(cell@)) && final(self)@
                    == old(self)@,
                Some(slot) => if slot.state.terminal() {
                    &&& answer matches Ok(Some(response)) && response@
                        == SessionView::final_answer(cell@, slot)
                    &&& final(self)@ == old(self)@.without(cell@)
                } else if slot.yield_requested || time_is_up {
                    &&& answer matches Ok(Some(response)) && response@ == (ResponseView::Yielded {
                        cell_id: cell@,
                        items: slot.pending,
                        omitted_bytes: slot.omitted_bytes,
                    })
                    &&& final(self)@ == old(self)@.with_slot(cell@, slot.yielded())
                } else {
                    &&& answer == Ok::<Option<RuntimeResponse>, CodeModeError>(None)
                    &&& final(self)@ == old(self)@.with_slot(
                        cell@,
                        SlotView { state: CellState::Running, ..slot },
                    )
                },
            },
    {
        let ghost before = self@;
        let at: usize = match self.find(cell) {
            Some(i) => i,
            None => {
                return Err(self.absent(cell));
            },
        };
        assert(before.slots[at as int] == self.cells@[at as int].slot@);
        if self.cells[at].slot.state.is_terminal() {
            match self.remove(cell) {
                Some(slot) => {
                    let mut slot = slot;
                    let (items, omitted_bytes) = slot.take_items();
                    let answer = if slot.stopped {
                        RuntimeResponse::Terminated {
                            cell_id: cell.clone(),
                            items,
                            failure: match slot.failure {
                                Some(failure) => failure,
                                None => CellFailure::interrupted("cell terminated on request"),
                            },
                            omitted_bytes,
                        }
                    } else {
                        RuntimeResponse::Finished {
                            cell_id: cell.clone(),
                            items,
                            failure: slot.failure,
                            omitted_bytes,
                        }
                    };
                    return Ok(Some(answer));
                },
                None => {
                    return Err(self.absent(cell));
                },
            }
        }
        if self.cells[at].slot.yield_requested || time_is_up {
            self.cells[at].slot.yield_requested = false;
            self.cells[at].slot.state = CellState::Yielded;
            let (items, omitted_bytes) = self.cells[at].slot.take_items();
            proof {
                let slot = before.slots[at as int];
                assert(self@.names =~= before.names);
                assert(self@.slots =~= before.slots.update(at as int, slot.yielded()));
                assert(self@ =~= before.with_slot(cell@, slot.yielded()));
                assert(weight_of(slot.yielded().pending) == 0);
                lemma_update_keeps_wf(before, at as int, slot.yielded());
            }
            return Ok(
                Some(RuntimeResponse::Yielded { cell_id: cell.clone(), items, omitted_bytes }),
            );
        }
        self.cells[at].slot.state = CellState::Running;
        proof {
            let slot = before.slots[at as int];
            let running = SlotView { state: CellState::Running, ..slot };
            assert(self@.names =~= before.names);
            assert(self@.slots =~= before.slots.update(at as int, running));
            assert(self@ =~= before.with_slot(cell@, running));
            lemma_update_keeps_wf(before, at as int, running);
        }
        Ok(None)
    }

    /// Whether a stop of a cell need not be waited for any longer.
    pub fn has_settled(&self, cell: &CellId, time_is_up: bool) -> (settled: bool)
        ensures
            settled == (match self@.slot(cell@) {
                Some(slot) => slot.state.terminal() || time_is_up,
                None => true,
            }),
    {
        match self.cell_state(cell) {
            Some(state) => state.is_terminal() || time_is_up,
            None => true,
        }
    }

    // ------------------------------------------------------------ what the engine tells

    /// Takes in a piece of output of a cell. A cell that is closed takes none.
    pub fn push(&mut self, cell: &CellId, item: OutputItem)
        requires
            old(self)@.wf(),
        ensures
            final(self)@.wf(),
            final(self)@ == (match old(self)@.slot(cell@) {
                Some(slot) => old(self)@.with_slot(cell@, slot.pushed(item@)),
                None => old(self)@,
            }),
    {
        let ghost before = self@;
        let ghost view = item@;
        match self.find(cell) {
            Some(i) => {
                assert(before.slots[i as int] == self.cells@[i as int].slot@);
                self.cells[i].slot.push(item);
                proof {
                    let slot = before.slots[i as int].pushed(view);
                    assert(self@.names =~= before.names);
                    assert(self@.slots =~= before.slots.update(i as int, slot));
                    assert(self@ =~= before.with_slot(cell@, slot));
                    lemma_pushed_keeps_wf(before.slots[i as int], view);
                    lemma_update_keeps_wf(before, i as int, slot);
                }
            },
            None => {},
        }
    }

    /// Takes in that a cell asks for an answer now.
    pub fn request_yield(&mut self, cell: &CellId)
        requires
            old(self)@.wf(),
        ensures
            final(self)@.wf(),
            final(self)@ == (match old(self)@.slot(cell@) {
                Some(slot) => old(self)@.with_slot(
                    cell@,
                    SlotView { yield_requested: true, ..slot },
                ),
                None => old(self)@,
            }),
    {
        let ghost before = self@;
        match self.find(cell) {
            Some(i) => {
                assert(before.slots[i as int] == self.cells@[i as int].slot@);
                self.cells[i].slot.request_yield();
                proof {
                    let slot = SlotView { yield_requested: true, ..before.slots[i as int] };
                    assert(self@.names =~= before.names);
                    assert(self@.slots =~= before.slots.update(i as int, slot));
                    assert(self@ =~= before.with_slot(cell@, slot));
                    lemma_update_keeps_wf(before, i as int, slot);
                }
            },
            None => {},
        }
    }

    /// Takes in the end of a cell. Only the first one counts.
    pub fn finish(&mut self, cell: &CellId, failure: Option<CellFailure>)
        requires
            old(self)@.wf(),
        ensures
            final(self)@.wf(),
            final(self)@ == (match old(self)@.slot(cell@) {
                Some(slot) => old(self)@.with_slot(
                    cell@,
                    slot.finished(protocol::opt_failure(failure)),
                ),
                None => old(self)@,
            }),
    {
        let ghost before = self@;
        let ghost view = protocol::opt_failure(failure);
        match self.find(cell) {
            Some(i) => {
                assert(before.slots[i as int] == self.cells@[i as int].slot@);
                self.cells[i].slot.finish(failure);
                proof {
                    let slot = before.slots[i as int].finished(view);
                    assert(self@.names =~= before.names);
                    assert(self@.slots =~= before.slots.update(i as int, slot));
                    assert(self@ =~= before.with_slot(cell@, slot));
                    lemma_update_keeps_wf(before, i as int, slot);
                }
            },
            None => {},
        }
    }

    // ------------------------------------------------------------ the end of a session

    fn names(&self) -> (names: Vec<CellId>)
        ensures
            names@.map_values(|cell: CellId| cell@) == self@.names,
    {
        let mut names: Vec<CellId> = Vec::new();
        let mut i: usize = 0;
        while i < self.cells.len()
            invariant
                i <= self.cells.len(),
                names@.len() == i,
                forall|k: int| 0 <= k < i ==> (#[trigger] names@[k])@ == self.cells@[k].id@,
            decreases self.cells.len() - i,
        {
            names.push(self.cells[i].id.clone());
            i += 1;
        }
        assert(names@.map_values(|cell: CellId| cell@) =~= self@.names);
        names
    }

    /// Closes the session to new cells and marks every open one as stopped; these are told to stop
    /// next.
    pub fn shutdown(&mut self) -> (open: Vec<CellId>)
        requires
            old(self)@.wf(),
        ensures
            final(self)@.wf(),
            final(self)@ == old(self)@.shut(),
            open@.map_values(|cell: CellId| cell@) == old(self)@.names,
    {
        let ghost before = self@;
        self.closed = true;
        let open = self.names();
        let mut i: usize = 0;
        while i < self.cells.len()
            invariant
                i <= self.cells.len(),
                before.slots.len() == self.cells@.len(),
                self@.names == before.names,
                self@.closed,
                self.id@ == before.id,
                self.limits == before.limits,
                self.ordinal == before.ordinal,
                forall|k: int|
                    0 <= k < i ==> self@.slots[k] == (SlotView {
                        stopped: true,
                        ..#[trigger] before.slots[k]
                    }),
                forall|k: int|
                    i <= k < before.slots.len() ==> self@.slots[k] == #[trigger] before.slots[k],
            decreases self.cells.len() - i,
        {
            let ghost earlier = self@;
            assert(earlier.slots[i as int] == before.slots[i as int]);
            self.cells[i].slot.stopped = true;
            proof {
                assert(self@.names =~= earlier.names);
                assert(self@.slots =~= earlier.slots.update(
                    i as int,
                    SlotView { stopped: true, ..earlier.slots[i as int] },
                ));
            }
            i += 1;
        }
        proof {
            assert(self@ =~= before.shut());
            assert forall|k: int| 0 <= k < self@.slots.len() implies (
            #[trigger] self@.slots[k]).wf() by {
                assert(before.slots[k].wf());
            }
        }
        open
    }

    /// Brings every cell that is still going to an end, and gives them in order.
    pub fn force_open_cells(&mut self) -> (forced: Vec<CellId>)
        requires
            old(self)@.wf(),
        ensures
            final(self)@.wf(),
            final(self)@ == old(self)@.all_forced(),
            forced@.map_values(|cell: CellId| cell@) == text::sorted_texts(old(self)@.going()),
    {
        let ghost before = self@;
        let mut going: Vec<String> = Vec::new();
        let mut i: usize = 0;
        assert(text::texts(going@) =~= going_among(before.names, before.slots.take(0)));
        while i < self.cells.len()
            invariant
                i <= self.cells.len(),
                before.slots.len() == self.cells@.len(),
                before.names.len() == self.cells@.len(),
                self@.names == before.names,
                self.closed == before.closed,
                self.id@ == before.id,
                self.limits == before.limits,
                self.ordinal == before.ordinal,
                text::texts(going@) == going_among(before.names, before.slots.take(i as int)),
                forall|k: int|
                    0 <= k < i ==> self@.slots[k] == (#[trigger] before.slots[k]).forced(),
                forall|k: int|
                    i <= k < before.slots.len() ==> self@.slots[k] == #[trigger] before.slots[k],
            decreases self.cells.len() - i,
        {
            let ghost earlier = self@;
            let ghost told = text::texts(going@);
            proof {
                let next = before.slots.take(i + 1);
                assert(next.drop_last() =~= before.slots.take(i as int));
                assert(next.last() == before.slots[i as int]);
                assert(earlier.slots[i as int] == before.slots[i as int]);
                assert(earlier.names[i as int] == self.cells@[i as int].id@);
                assert(earlier.slots[i as int] == self.cells@[i as int].slot@);
            }
            if !self.cells[i].slot.state.is_terminal() {
                let name = self.cells[i].id.as_str().to_owned();
                let ghost view = name@;
                going.push(name);
                assert(text::texts(going@) =~= told.push(view));
                self.cells[i].slot.state = CellState::Failed;
                self.cells[i].slot.failure = Some(
                    CellFailure::new(
                        CellFailureKind::Interrupted,
                        "session shut down before the cell finished",
                    ),
                );
                proof {
                    assert(self@.names =~= earlier.names);
                    assert(self@.slots =~= earlier.slots.update(
                        i as int,
                        earlier.slots[i as int].forced(),
                    ));
                }
            }
            i += 1;
        }
        assert(before.slots.take(i as int) =~= before.slots);
        let sorted = text::sort_texts(&going);
        let ghost order = text::texts(sorted@);
        let mut forced: Vec<CellId> = Vec::new();
        let mut k: usize = 0;
        while k < sorted.len()
            invariant
                k <= sorted.len(),
                order == text::texts(sorted@),
                forced@.len() == k,
                forall|i: int| 0 <= i < k ==> (#[trigger] forced@[i])@ == order[i],
            decreases sorted.len() - k,
        {
            assert(order[k as int] == sorted@[k as int]@);
            forced.push(CellId::from_name(sorted[k].as_str()));
            k += 1;
        }
        proof {
            assert(forced@.map_values(|cell: CellId| cell@) =~= order);
            assert(self@ =~= before.all_forced());
            assert forall|k: int| 0 <= k < self@.slots.len() implies (
            #[trigger] self@.slots[k]).wf() by {
                assert(before.slots[k].wf());
            }
        }
        forced
    }

    /// Closes a session that nobody holds any longer, and gives the cells to stop: none where it
    /// was closed before.
    pub fn abandon(&mut self) -> (open: Vec<CellId>)
        ensures
            open@.map_values(|cell: CellId| cell@) == (if old(self).closed {
                seq![]
            } else {
                old(self)@.names
            }),
            *final(self) == (CodeModeSession { closed: true, ..*old(self) }),
    {
        if self.closed {
            let open: Vec<CellId> = Vec::new();
            assert(open@.map_values(|cell: CellId| cell@) =~= seq![]);
            return open;
        }
        self.closed = true;
        self.names()
    }
}

proof fn lemma_pushed_keeps_wf(slot: SlotView, item: ItemView)
    requires
        slot.wf(),
    ensures
        slot.pushed(item).wf(),
{
    assert(slot.pending.push(item).drop_last() =~= slot.pending);
}

proof fn lemma_update_keeps_wf(session: SessionView, at: int, slot: SlotView)
    requires
        session.wf(),
        0 <= at < session.slots.len(),
        slot.wf(),
    ensures
        (SessionView { slots: session.slots.update(at, slot), ..session }).wf(),
{
    let after = session.slots.update(at, slot);
    assert forall|k: int| 0 <= k < after.len() implies (#[trigger] after[k]).wf() by {
        if k != at {
            assert(after[k] == session.slots[k]);
        }
    }
}

/// A cell that has had its last answer is closed: the session does not know it any more.
pub proof fn law_closed_cells_are_gone(session: SessionView, cell: Seq<char>)
    requires
        session.wf(),
    ensures
        session.without(cell).slot(cell) is None,
        session.without(cell).wf(),
{
    text::lemma_place(session.names, cell);
    match session.at(cell) {
        Some(at) => {
            let after = session.without(cell);
            assert forall|k: int| 0 <= k < after.names.len() implies #[trigger] after.names[k]
                != cell by {
                if k < at {
                    assert(after.names[k] == session.names[k]);
                } else {
                    assert(after.names[k] == session.names[k + 1]);
                }
            }
            text::lemma_place(after.names, cell);
            assert forall|k: int| 0 <= k < after.slots.len() implies (
            #[trigger] after.slots[k]).wf() by {
                if k < at {
                    assert(after.slots[k] == session.slots[k]);
                } else {
                    assert(after.slots[k] == session.slots[k + 1]);
                }
            }
        },
        None => {},
    }
}

/// A command on one cell leaves every other cell as it was.
pub proof fn law_cells_do_not_touch_each_other(
    session: SessionView,
    cell: Seq<char>,
    other: Seq<char>,
    slot: SlotView,
)
    requires
        session.wf(),
        cell != other,
    ensures
        session.with_slot(cell, slot).slot(other) == session.slot(other),
        session.without(cell).slot(other) == session.slot(other),
{
    text::lemma_place(session.names, cell);
    text::lemma_place(session.names, other);
    match session.at(cell) {
        Some(at) => {
            let after = session.without(cell);
            match session.at(other) {
                Some(k) => {
                    let moved = if k < at {
                        k
                    } else {
                        k - 1
                    };
                    assert(after.names[moved] == other);
                    assert forall|j: int| 0 <= j < moved implies #[trigger] after.names[j]
                        != other by {
                        if j < at {
                            assert(after.names[j] == session.names[j]);
                        } else {
                            assert(after.names[j] == session.names[j + 1]);
                        }
                    }
                    text::lemma_place_at(after.names, other, moved);
                },
                None => {
                    assert forall|j: int| 0 <= j < after.names.len() implies #[trigger] after.names[j]
                        != other by {
                        if j < at {
                            assert(after.names[j] == session.names[j]);
                        } else {
                            assert(after.names[j] == session.names[j + 1]);
                        }
                    }
                    text::lemma_place(after.names, other);
                },
            }
        },
        None => {},
    }
}

/// While every open cell has a number that was given out, the next identifier is new.
pub proof fn law_identifiers_are_not_reused(session: SessionView)
    requires
        session.wf(),
        forall|i: int|
            0 <= i < session.names.len() ==> exists|n: nat|
                n < session.ordinal && #[trigger] session.names[i] == #[trigger] protocol::cell_name(
                    session.id,
                    n,
                ),
    ensures
        !session.names.contains(session.next_name()),
{
    if session.names.contains(session.next_name()) {
        let i = choose|i: int|
            0 <= i < session.names.len() && session.names[i] == session.next_name();
        let n = choose|n: nat|
            n < session.ordinal && session.names[i] == #[trigger] protocol::cell_name(
                session.id,
                n,
            );
        protocol::law_cell_names_are_distinct(session.id, n, session.ordinal as nat);
    }
}

/// After a shutdown no cell is going, whatever the engine did, and no cell can be opened.
pub proof fn law_shut_sessions_are_at_rest(session: SessionView, cell: Seq<char>)
    requires
        session.wf(),
    ensures
        ({
            let rest = session.shut().all_forced();
            &&& rest.refusal() == Some(CodeModeFault::SessionClosed { session: session.id })
            &&& rest.slot(cell) is Some ==> rest.slot(cell)->0.state.terminal()
                && rest.slot(cell)->0.stopped
            &&& rest.slot(cell) is None ==> rest.absence(cell) == (CodeModeFault::SessionClosed {
                session: session.id,
            })
        }),
{
    text::lemma_place(session.names, cell);
}

/// How a cell ends: with a failure it failed, without one it is complete; the failure and what is
/// pending stay for the last answer.
pub proof fn law_ends_tell_success_from_failure(slot: SlotView, failure: Option<CellFailureView>)
    requires
        slot.state == CellState::Running || slot.state == CellState::Yielded,
    ensures
        failure is None ==> slot.finished(failure).state == CellState::Completed,
        failure is Some ==> slot.finished(failure).state == CellState::Failed,
        slot.finished(failure).failure == failure,
        slot.finished(failure).pending == slot.pending,
        slot.finished(failure).omitted_bytes == slot.omitted_bytes,
        slot.finished(failure).stopped == slot.stopped,
        slot.forced().state == CellState::Failed,
        slot.forced().failure is Some,
        slot.forced().pending == slot.pending,
{
}

/// Output makes a cell that had answered run again, and changes the state of no other one; an
/// answer that leaves a cell open marks it so and uses up its wish for one.
pub proof fn law_output_wakes_a_cell(slot: SlotView, item: ItemView)
    ensures
        slot.state == CellState::Yielded ==> slot.pushed(item).state == CellState::Running,
        slot.state != CellState::Yielded ==> slot.pushed(item).state == slot.state,
        slot.pushed(item).failure == slot.failure && slot.pushed(item).stopped == slot.stopped
            && slot.pushed(item).yield_requested == slot.yield_requested,
        slot.yielded().state == CellState::Yielded && !slot.yielded().yield_requested,
        slot.yielded().omitted_bytes == 0 && slot.yielded().max_output_bytes
            == slot.max_output_bytes,
        slot.yielded().failure == slot.failure && slot.yielded().stopped == slot.stopped,
{
}

/// A cell that is opened is the last one, runs, has no output yet and no more room than the session
/// allows; the others stay, and the next one has another number.
pub proof fn law_opened_cells_start_afresh(session: SessionView, max_output_bytes: usize)
    requires
        session.wf(),
        !session.names.contains(session.next_name()),
    ensures
        ({
            let after = session.opened(max_output_bytes);
            let name = session.next_name();
            &&& after.slot(name) is Some
            &&& after.slot(name)->0.state == CellState::Running
            &&& after.slot(name)->0.pending.len() == 0 && after.slot(name)->0.omitted_bytes == 0
            &&& after.slot(name)->0.failure is None && !after.slot(name)->0.stopped
            &&& after.slot(name)->0.max_output_bytes <= session.limits.max_output_bytes
            &&& after.slot(name)->0.max_output_bytes <= max_output_bytes
            &&& after.slot(name)->0.max_output_bytes == max_output_bytes || after.slot(
                name,
            )->0.max_output_bytes == session.limits.max_output_bytes
            &&& after.names.len() == session.names.len() + 1
            &&& after.names.drop_last() == session.names && after.slots.drop_last()
                == session.slots
            &&& session.ordinal < u64::MAX ==> after.ordinal == session.ordinal + 1
            &&& after.id == session.id && after.limits == session.limits && after.closed
                == session.closed
        }),
{
    let after = session.opened(max_output_bytes);
    let name = session.next_name();
    let last = session.names.len() as int;
    assert forall|k: int| 0 <= k < last implies #[trigger] after.names[k] != name by {
        assert(after.names[k] == session.names[k]);
        assert(session.names.contains(session.names[k]));
    }
    text::lemma_place_at(after.names, name, last);
    assert(after.names.drop_last() =~= session.names);
    assert(after.slots.drop_last() =~= session.slots);
}

/// A cell can be opened exactly while the session is open and has fewer than it may have.
pub proof fn law_open_sessions_open_cells(session: SessionView)
    ensures
        session.refusal() is None <==> !session.closed && session.names.len()
            < session.limits.max_active_cells,
        session.closed ==> session.refusal()->0 is SessionClosed,
{
}

/// A cell answers to its own session alone.
pub proof fn law_cells_belong_to_their_session(
    session: SessionView,
    other: SessionView,
    ordinal: nat,
    cell: Seq<char>,
)
    ensures
        session.foreign(protocol::cell_name(session.id, ordinal)) is None,
        other.id != session.id ==> other.foreign(protocol::cell_name(session.id, ordinal)) is Some,
        session.foreign(session.next_name()) is None,
        session.closed ==> session.absence(cell) is SessionClosed,
        !session.closed ==> session.absence(cell) is UnknownCell,
{
    protocol::law_cells_name_their_session(session.id, other.id, ordinal);
    protocol::law_cells_name_their_session(session.id, other.id, session.ordinal as nat);
}

/// The last answer of a cell holds all that is pending and tells what was left out; one that was
/// stopped is told as stopped, always with a cause, and one that ended by itself with the failure
/// that it ended with, if any.
pub proof fn law_last_answers_tell_the_end(session: SessionView, cell: Seq<char>, slot: SlotView)
    ensures
        ({
            let answer = SessionView::final_answer(cell, slot);
            let stop = session.stop_answer(cell, slot);
            &&& answer.cell() == cell && stop.cell() == cell
            &&& answer.output() == slot.pending && stop.output() == slot.pending
            &&& answer.omitted() == slot.omitted_bytes && stop.omitted() == slot.omitted_bytes
            &&& answer is Terminated <==> slot.stopped
            &&& !slot.stopped ==> answer is Finished && answer->Finished_failure == slot.failure
            &&& stop is Terminated
            &&& slot.failure matches Some(failure) ==> stop->Terminated_failure == failure && (
            slot.stopped ==> answer->Terminated_failure == failure)
            &&& slot.failure is None ==> stop->Terminated_failure.kind
                == CellFailureKind::Interrupted
        }),
{
}

/// A shutdown stops every cell and loses the output of none.
pub proof fn law_shutdown_stops_every_cell(session: SessionView, i: int)
    requires
        0 <= i < session.slots.len(),
    ensures
        session.shut().closed,
        session.shut().names == session.names,
        session.shut().slots.len() == session.slots.len(),
        session.shut().slots[i].stopped,
        session.shut().slots[i].pending == session.slots[i].pending,
        session.shut().slots[i].state == session.slots[i].state,
        session.all_forced().slots[i].state.terminal(),
        session.all_forced().slots[i].pending == session.slots[i].pending,
        session.all_forced().names == session.names,
        session.slots[i].state.terminal() ==> session.all_forced().slots[i] == session.slots[i],
{
}

/// The cells that are going are those that have not ended, in order.
pub proof fn law_going_cells_have_not_ended(
    names: Seq<Seq<char>>,
    slots: Seq<SlotView>,
    name: Seq<char>,
    slot: SlotView,
)
    requires
        names.len() == slots.len(),
    ensures
        slot.state == CellState::Running || slot.state == CellState::Yielded ==> going_among(
            names.push(name),
            slots.push(slot),
        ) == going_among(names, slots).push(name),
        slot.state != CellState::Running && slot.state != CellState::Yielded ==> going_among(
            names.push(name),
            slots.push(slot),
        ) == going_among(names, slots),
{
    assert(slots.push(slot).drop_last() =~= slots);
    assert(names.push(name).take(names.len() as int) =~= names);
    lemma_going_prefix(names.push(name), names, slots);
}

proof fn lemma_going_prefix(longer: Seq<Seq<char>>, names: Seq<Seq<char>>, slots: Seq<SlotView>)
    requires
        slots.len() <= names.len() <= longer.len(),
        longer.take(names.len() as int) == names,
    ensures
        going_among(longer, slots) == going_among(names, slots),
    decreases slots.len(),
{
    if slots.len() > 0 {
        lemma_going_prefix(longer, names, slots.drop_last());
        assert(longer.take(names.len() as int)[slots.len() - 1] == longer[slots.len() - 1]);
    }
}

/// Output weighs its text in bytes, an image or a sound that of its address.
pub proof fn law_output_is_weighed_in_bytes(items: Seq<ItemView>, item: ItemView)
    ensures
        weight_of(Seq::<ItemView>::empty()) == 0,
        weight_of(items.push(item)) == weight_of(items) + (match item {
            ItemView::Text { text } => text::byte_len(text),
            ItemView::Image { image_url, .. } => text::byte_len(image_url),
            ItemView::Audio { audio_url } => text::byte_len(audio_url),
        }),
{
    assert(items.push(item).drop_last() =~= items);
}

} // verus!
