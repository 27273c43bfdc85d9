use agent_core::code_mode::protocol::{
    CellFailure, CellFailureKind, CellId, CellState, CodeModeError, ExecuteRequest, OutputItem,
    RuntimeResponse, SessionId, ShutdownReport, WaitRequest,
};
use agent_core::code_mode::session::{CodeModeSession, SessionLimits, WaitStep};

/// An engine whose cells move only when the test says so.
struct Engine {
    obeys: bool,
    start_error: Option<String>,
    interrupted: Vec<CellId>,
    joined: bool,
}

impl Engine {
    fn deaf() -> Engine {
        Engine { obeys: false, start_error: None, interrupted: Vec::new(), joined: true }
    }

    fn obedient() -> Engine {
        Engine { obeys: true, ..Engine::deaf() }
    }

    fn interrupt(&mut self, session: &mut CodeModeSession, cell: &CellId) {
        self.interrupted.push(cell.clone());
        if self.obeys {
            session.finish(cell, Some(CellFailure::interrupted("engine stopped the cell")));
        }
    }

    fn shutdown(&self) -> ShutdownReport {
        if self.joined {
            ShutdownReport::joined()
        } else {
            ShutdownReport::unjoined("worker thread did not join")
        }
    }
}

fn session() -> CodeModeSession {
    CodeModeSession::with_limits(
        SessionId::new("thread-a"),
        SessionLimits { terminate_grace: 80, max_active_cells: 2, max_output_bytes: 64 },
    )
}

fn quick(source: &str) -> ExecuteRequest {
    ExecuteRequest::new("call-1", source).with_yield_time(40)
}

/// Waits until there is an answer: the time runs out where the cell does not move.
fn collect(
    session: &mut CodeModeSession,
    cell: &CellId,
) -> Result<RuntimeResponse, CodeModeError> {
    match session.collect(cell, false)? {
        Some(answer) => Ok(answer),
        None => Ok(session.collect(cell, true)?.expect("the time is up")),
    }
}

fn execute(
    session: &mut CodeModeSession,
    engine: &mut Engine,
    request: ExecuteRequest,
) -> Result<RuntimeResponse, CodeModeError> {
    let cell = session.execute(&request)?;
    if let Some(detail) = engine.start_error.take() {
        return Err(session.start_failed(&cell, detail));
    }
    collect(session, &cell)
}

fn terminate(
    session: &mut CodeModeSession,
    engine: &mut Engine,
    cell: &CellId,
) -> Result<RuntimeResponse, CodeModeError> {
    session.terminate(cell)?;
    engine.interrupt(session, cell);
    assert!(session.has_settled(cell, true));
    session.close(cell)
}

fn wait(
    session: &mut CodeModeSession,
    engine: &mut Engine,
    request: WaitRequest,
) -> Result<RuntimeResponse, CodeModeError> {
    match session.wait(&request)? {
        WaitStep::Terminate => terminate(session, engine, &request.cell_id),
        WaitStep::Collect => collect(session, &request.cell_id),
    }
}

fn shutdown(session: &mut CodeModeSession, engine: &mut Engine) -> ShutdownReport {
    for cell in session.shutdown() {
        engine.interrupt(session, &cell);
    }
    let forced = session.force_open_cells();
    let mut report = engine.shutdown();
    report.forced_cells = forced;
    report
}

fn texts(response: &RuntimeResponse) -> Vec<String> {
    response
        .items()
        .iter()
        .filter_map(|item| match item {
            OutputItem::Text { text } => Some(text.clone()),
            _ => None,
        })
        .collect()
}

fn open(session: &mut CodeModeSession, engine: &mut Engine) -> CellId {
    execute(session, engine, quick("noop")).unwrap().cell_id().clone()
}

fn push_text(session: &mut CodeModeSession, cell: &CellId, text: &str) {
    session.push(cell, OutputItem::text(text));
}

#[test]
fn a_first_cell_gets_a_stable_id_and_walks_its_states() {
    let mut engine = Engine::deaf();
    let mut session = session();

    let started = execute(&mut session, &mut engine, quick("noop")).unwrap();
    let cell = started.cell_id().clone();
    assert_eq!(started.state(), CellState::Yielded);
    assert!(cell.belongs_to(session.id()));
    assert_eq!(session.cell_state(&cell), Some(CellState::Yielded));

    push_text(&mut session, &cell, "hello");
    session.finish(&cell, None);

    let finished =
        wait(&mut session, &mut engine, WaitRequest::new(cell.clone()).with_yield_time(200))
            .unwrap();
    assert_eq!(finished.cell_id(), &cell);
    assert_eq!(finished.state(), CellState::Completed);
    assert_eq!(texts(&finished), vec!["hello".to_string()]);
    assert_eq!(session.cell_state(&cell), None);
}

#[test]
fn wait_returns_only_the_output_produced_since_the_last_yield() {
    let mut engine = Engine::deaf();
    let mut session = session();
    let started = execute(&mut session, &mut engine, quick("noop")).unwrap();
    let cell = started.cell_id().clone();
    assert!(texts(&started).is_empty());

    push_text(&mut session, &cell, "first");
    session.request_yield(&cell);
    let first = wait(&mut session, &mut engine, WaitRequest::new(cell.clone())).unwrap();
    assert_eq!(texts(&first), vec!["first".to_string()]);

    push_text(&mut session, &cell, "second");
    session.finish(&cell, None);
    let second = wait(&mut session, &mut engine, WaitRequest::new(cell.clone())).unwrap();
    assert_eq!(texts(&second), vec!["second".to_string()]);
}

#[test]
fn a_yielded_cell_reports_its_state_between_two_waits() {
    let mut engine = Engine::deaf();
    let mut session = session();
    let cell = open(&mut session, &mut engine);
    assert_eq!(session.cells(), vec![(cell.clone(), CellState::Yielded)]);
    push_text(&mut session, &cell, "progress");
    assert_eq!(session.cell_state(&cell), Some(CellState::Running));
}

#[test]
fn terminate_closes_a_cell_an_obedient_engine_stops() {
    let mut engine = Engine::obedient();
    let mut session = session();
    let cell = open(&mut session, &mut engine);

    let stopped =
        wait(&mut session, &mut engine, WaitRequest::terminating(cell.clone())).unwrap();
    assert!(matches!(stopped, RuntimeResponse::Terminated { .. }));
    assert_eq!(stopped.state(), CellState::Failed);
    assert_eq!(
        stopped.failure().map(|failure| failure.kind),
        Some(CellFailureKind::Interrupted)
    );
    assert_eq!(engine.interrupted, vec![cell.clone()]);
    assert_eq!(session.cell_state(&cell), None);
}

#[test]
fn terminate_forces_a_terminal_state_when_the_engine_stays_deaf() {
    let mut engine = Engine::deaf();
    let mut session = session();
    let cell = open(&mut session, &mut engine);

    let stopped = terminate(&mut session, &mut engine, &cell).unwrap();
    assert_eq!(stopped.state(), CellState::Failed);
    let failure = stopped.failure().expect("a forced stop carries its cause");
    assert_eq!(failure.kind, CellFailureKind::Interrupted);
    assert!(failure.message.contains("did not confirm"), "{}", failure.message);
    assert_eq!(
        failure.message,
        "engine did not confirm termination within 80 ms"
    );
    assert_eq!(session.cell_state(&cell), None);
}

#[test]
fn a_waiter_is_woken_by_the_terminal_state() {
    let mut engine = Engine::deaf();
    let mut session = session();
    let cell = open(&mut session, &mut engine);
    // The waiter finds nothing and parks.
    assert_eq!(session.collect(&cell, false), Ok(None));
    session.finish(&cell, Some(CellFailure::new(CellFailureKind::Script, "boom")));
    // Woken before its time is up.
    let response = session.collect(&cell, false).unwrap().expect("an answer");
    assert_eq!(response.state(), CellState::Failed);
    assert_eq!(
        response.failure().map(|failure| failure.kind),
        Some(CellFailureKind::Script)
    );
}

#[test]
fn shutdown_forces_every_open_cell_and_wakes_its_waiters() {
    let mut engine = Engine::deaf();
    let mut session = session();
    let first = open(&mut session, &mut engine);
    let second = open(&mut session, &mut engine);
    assert_eq!(session.collect(&first, false), Ok(None));

    let report = shutdown(&mut session, &mut engine);
    assert!(report.joined);
    assert_eq!(report.forced_cells, vec![first.clone(), second.clone()]);
    assert_eq!(engine.interrupted.len(), 2);

    let response = session.collect(&first, false).unwrap().expect("an answer");
    assert_eq!(response.state(), CellState::Failed);
    assert!(session.is_closed());
    assert!(matches!(
        execute(&mut session, &mut engine, quick("late")),
        Err(CodeModeError::SessionClosed { .. })
    ));
}

#[test]
fn an_unjoined_worker_is_reported_rather_than_hidden() {
    let mut engine = Engine { joined: false, ..Engine::deaf() };
    let mut session = session();
    let report = shutdown(&mut session, &mut engine);
    assert!(!report.joined);
    assert_eq!(report.detail.as_deref(), Some("worker thread did not join"));
}

#[test]
fn unknown_foreign_and_stale_identifiers_fail_in_a_typed_way() {
    let mut engine = Engine::deaf();
    let mut session = session();
    let cell = open(&mut session, &mut engine);

    let unknown = CellId::new(session.id(), 99);
    assert!(matches!(
        wait(&mut session, &mut engine, WaitRequest::new(unknown)),
        Err(CodeModeError::UnknownCell { .. })
    ));

    let foreign = CellId::new(&SessionId::new("thread-b"), 0);
    assert!(matches!(
        wait(&mut session, &mut engine, WaitRequest::new(foreign.clone())),
        Err(CodeModeError::ForeignCell { .. })
    ));
    assert!(matches!(
        terminate(&mut session, &mut engine, &foreign),
        Err(CodeModeError::ForeignCell { .. })
    ));

    let shapeless = CellId::parse("not-a-cell").unwrap();
    assert!(matches!(
        wait(&mut session, &mut engine, WaitRequest::new(shapeless)),
        Err(CodeModeError::ForeignCell { .. })
    ));

    push_text(&mut session, &cell, "still mine");
    let mine = wait(&mut session, &mut engine, WaitRequest::new(cell)).unwrap();
    assert_eq!(texts(&mine), vec!["still mine".to_string()]);
}

#[test]
fn a_foreign_identifier_never_reveals_another_sessions_output() {
    let mut engine = Engine::deaf();
    let mut other = CodeModeSession::new(SessionId::new("thread-b"));
    let secret = open(&mut other, &mut engine);
    push_text(&mut other, &secret, "secret");

    let mut session = session();
    let error =
        wait(&mut session, &mut engine, WaitRequest::new(secret.clone())).unwrap_err();
    assert!(matches!(error, CodeModeError::ForeignCell { .. }));
    let mine = wait(&mut other, &mut engine, WaitRequest::new(secret)).unwrap();
    assert_eq!(texts(&mine), vec!["secret".to_string()]);
}

#[test]
fn a_failing_engine_start_leaves_no_cell_behind() {
    let mut engine = Engine {
        start_error: Some("isolate unavailable".into()),
        ..Engine::deaf()
    };
    let mut session = session();
    let error = execute(&mut session, &mut engine, quick("noop")).unwrap_err();
    assert!(matches!(error, CodeModeError::EngineUnavailable { .. }));
    assert_eq!(error.message(), "code mode engine unavailable: isolate unavailable");
    assert!(session.cells().is_empty());
}

#[test]
fn the_active_cell_bound_is_refused_without_consuming_a_slot() {
    let mut engine = Engine::deaf();
    let mut session = session();
    execute(&mut session, &mut engine, quick("one")).unwrap();
    execute(&mut session, &mut engine, quick("two")).unwrap();
    let error = execute(&mut session, &mut engine, quick("three")).unwrap_err();
    assert!(matches!(error, CodeModeError::TooManyCells { limit: 2, .. }));
    assert_eq!(error.message(), "session thread-a already runs 2 cells (limit 2)");
    assert_eq!(session.cells().len(), 2);
}

#[test]
fn output_beyond_the_result_ceiling_is_counted_not_silently_dropped() {
    let mut engine = Engine::deaf();
    let mut session = session();
    let cell = open(&mut session, &mut engine);

    push_text(&mut session, &cell, &"x".repeat(60));
    push_text(&mut session, &cell, &"y".repeat(30));
    session.finish(&cell, None);

    let response = wait(&mut session, &mut engine, WaitRequest::new(cell)).unwrap();
    assert_eq!(texts(&response), vec!["x".repeat(60)]);
    let RuntimeResponse::Finished { omitted_bytes, .. } = response else {
        unreachable!("expected a finished cell");
    };
    assert_eq!(omitted_bytes, 30);
}

#[test]
fn a_late_terminal_cannot_reopen_a_cell_nor_rewrite_its_cause() {
    let mut engine = Engine::deaf();
    let mut session = session();
    let cell = open(&mut session, &mut engine);

    session.finish(&cell, Some(CellFailure::new(CellFailureKind::CpuBudget, "budget")));
    session.finish(&cell, None);
    push_text(&mut session, &cell, "after the end");

    let response = wait(&mut session, &mut engine, WaitRequest::new(cell)).unwrap();
    assert_eq!(
        response.failure().map(|failure| failure.kind),
        Some(CellFailureKind::CpuBudget)
    );
    assert_eq!(texts(&response), vec!["after the end".to_string()]);
}

#[test]
fn the_result_ceiling_drops_the_rest_of_the_yield_not_just_the_big_item() {
    let mut engine = Engine::deaf();
    let mut session = session();
    let cell = open(&mut session, &mut engine);

    push_text(&mut session, &cell, &"x".repeat(60));
    push_text(&mut session, &cell, &"y".repeat(30));
    push_text(&mut session, &cell, "z");
    session.request_yield(&cell);

    let response = wait(&mut session, &mut engine, WaitRequest::new(cell.clone())).unwrap();
    assert_eq!(texts(&response), vec!["x".repeat(60)]);
    let RuntimeResponse::Yielded { omitted_bytes, .. } = response else {
        unreachable!("expected a yielded cell");
    };
    assert_eq!(omitted_bytes, 31);

    push_text(&mut session, &cell, "fresh");
    session.finish(&cell, None);
    let next = wait(&mut session, &mut engine, WaitRequest::new(cell)).unwrap();
    assert_eq!(texts(&next), vec!["fresh".to_string()]);
}

#[test]
fn a_closed_session_names_its_closure_on_a_cell_it_no_longer_holds() {
    let mut engine = Engine::obedient();
    let mut session = session();
    let cell = open(&mut session, &mut engine);
    shutdown(&mut session, &mut engine);

    let drained = wait(&mut session, &mut engine, WaitRequest::new(cell.clone())).unwrap();
    assert_eq!(drained.state(), CellState::Failed);
    assert!(matches!(
        wait(&mut session, &mut engine, WaitRequest::new(cell)),
        Err(CodeModeError::SessionClosed { .. })
    ));
    let unknown = CellId::new(session.id(), 99);
    assert!(matches!(
        wait(&mut session, &mut engine, WaitRequest::new(unknown)),
        Err(CodeModeError::SessionClosed { .. })
    ));
}

#[test]
fn an_identifier_is_read_back_as_it_was_written() {
    let id = CellId::new(&SessionId::new("a#b"), 17);
    assert_eq!(id.as_str(), "a#b#17");
    assert_eq!(id.session().as_deref(), Some("a#b"));
    assert_eq!(CellId::parse("  "), None);
    assert_eq!(CellId::parse("x").unwrap().session(), None);
}

#[test]
fn the_ceiling_of_a_session_binds_a_request_that_asks_for_more() {
    let mut engine = Engine::deaf();
    let mut session = session();
    let request = quick("noop").with_max_output_bytes(1_000);
    let cell = execute(&mut session, &mut engine, request).unwrap().cell_id().clone();
    push_text(&mut session, &cell, &"x".repeat(65));
    session.request_yield(&cell);
    let response = wait(&mut session, &mut engine, WaitRequest::new(cell)).unwrap();
    assert!(texts(&response).is_empty());
}

#[test]
fn an_abandoned_session_stops_its_cells_once() {
    let mut engine = Engine::deaf();
    let mut session = session();
    let cell = open(&mut session, &mut engine);
    assert_eq!(session.abandon(), vec![cell]);
    assert!(session.is_closed());
    assert!(session.abandon().is_empty());
}

#[test]
fn a_failure_says_its_kind() {
    let failure = CellFailure::new(CellFailureKind::HeapLimit, "too big");
    assert_eq!(failure.describe(), "heap_limit: too big");
    assert_eq!(CellState::Yielded.label(), "yielded");
    assert!(CellState::Failed.is_terminal());
}

#[test]
fn every_refusal_is_said_in_words() {
    let session = SessionId::new("s");
    let cell = CellId::new(&session, 1);
    assert_eq!(
        CodeModeError::UnknownCell { cell_id: cell.clone() }.message(),
        "unknown cell s#1"
    );
    assert_eq!(
        CodeModeError::ForeignCell { cell_id: cell, session: session.clone() }.message(),
        "cell s#1 does not belong to session s"
    );
    assert_eq!(
        CodeModeError::SessionClosed { session }.message(),
        "code mode session s is shut down"
    );
}
