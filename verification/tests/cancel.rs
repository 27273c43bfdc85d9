use agent_core::cancel::Cancellable;

#[test]
fn guard_prefers_a_finished_future_over_a_pending_cancel() {
    assert_eq!(Cancellable::settle(Some(42), true), Some(Cancellable::Completed(42)));
}

#[test]
fn guard_cancels_a_future_that_never_completes() {
    let still_going: Option<Cancellable<()>> = Cancellable::settle(None, false);
    assert_eq!(still_going, None);
    assert_eq!(Cancellable::settle(None::<()>, true), Some(Cancellable::Cancelled));
}
