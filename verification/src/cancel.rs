//! How work under a stop signal ends.
use vstd::prelude::*;

verus! {

/// The outcome of work that a signal can stop.
#[derive(Debug, Clone, Copy, PartialEq, Eq)]
pub enum Cancellable<T> {
    Completed(T),
    Cancelled,
}

impl<T> Cancellable<T> {
    /// How work stands when it was looked at before the signal was: what has finished counts, also
    /// where the signal came at the same time. Without either it goes on.
    pub fn settle(finished: Option<T>, signalled: bool) -> (outcome: Option<Cancellable<T>>)
        ensures
            outcome == (match finished {
                Some(value) => Some(Cancellable::Completed(value)),
                None => if signalled {
                    Some(Cancellable::<T>::Cancelled)
                } else {
                    None
                },
            }),
    {
        match finished {
            Some(value) => Some(Cancellable::Completed(value)),
            None => {
                if signalled {
                    Some(Cancellable::Cancelled)
                } else {
                    None
                }
            },
        }
    }
}

} // verus!
