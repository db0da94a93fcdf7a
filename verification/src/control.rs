//! Cancellation of long-running work, kept apart from the work's own failures.
use vstd::prelude::*;

verus! {

/// Cancellation is control flow, separate from policy and plan validation failures.
#[derive(Debug, PartialEq, Eq)]
pub enum WorkError<E> {
    Cancelled,
    Failed(E),
}

/// A cancellation predicate that never asks to stop.
pub open spec fn never_cancels<F: Fn() -> bool>(cancelled: F) -> bool {
    forall|r: bool| #[trigger] call_ensures(cancelled, (), r) ==> !r
}

/// Every answer the predicate can give asks to stop.
pub open spec fn always_cancels<F: Fn() -> bool>(cancelled: F) -> bool {
    forall|r: bool| #[trigger] call_ensures(cancelled, (), r) ==> r
}

/// Ask the cancellation predicate whether to stop.
pub fn check_work<E, F: Fn() -> bool>(cancelled: &F) -> (res: Result<(), WorkError<E>>)
    requires
        call_requires(*cancelled, ()),
    ensures
        res is Ok || res == Err::<(), WorkError<E>>(WorkError::Cancelled),
        never_cancels(*cancelled) ==> res is Ok,
        exists|stop: bool| #[trigger] call_ensures(*cancelled, (), stop)
            && (stop ==> res == Err::<(), WorkError<E>>(WorkError::Cancelled)) && (!stop ==> res is Ok),
{
    if cancelled() {
        Err(WorkError::Cancelled)
    } else {
        Ok(())
    }
}

/// The result of work that could not have been cancelled.
pub fn uninterrupted<T, E>(result: Result<T, WorkError<E>>) -> (res: Result<T, E>)
    requires
        !(result matches Err(WorkError::Cancelled)),
    ensures
        match result {
            Ok(v) => res == Ok::<T, E>(v),
            Err(WorkError::Failed(e)) => res == Err::<T, E>(e),
            Err(WorkError::Cancelled) => false,
        },
{
    match result {
        Ok(value) => Ok(value),
        Err(WorkError::Failed(error)) => Err(error),
        Err(WorkError::Cancelled) => vstd::pervasive::unreached(),
    }
}

/// A cancellation predicate for work that runs to completion.
pub fn never_cancelled() -> (res: bool)
    ensures
        !res,
{
    false
}

} // verus!
