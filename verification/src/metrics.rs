//! How a completed reconciliation is counted by the controller's metrics.
use vstd::prelude::*;

use crate::controller::Action;

verus! {

/// The result label of a completed reconciliation.
#[derive(Debug, Clone, Copy, PartialEq, Eq, Structural)]
pub enum Outcome {
    /// Waits for the next change.
    Success,
    Error,
    /// Retries at once.
    Requeue,
    /// Retries after a delay.
    RequeueAfter,
}

/// The outcome of a reconciliation's result, before any error policy applies: an error
/// is an error even though it is retried later.
pub open spec fn outcome_of<E>(result: Result<Action, E>) -> Outcome {
    match result {
        Err(_) => Outcome::Error,
        Ok(Action::AwaitChange) => Outcome::Success,
        Ok(Action::Requeue { secs, nanos }) => if secs == 0 && nanos == 0 {
            Outcome::Requeue
        } else {
            Outcome::RequeueAfter
        },
    }
}

/// Classifies the result of a reconciliation.
pub fn outcome<E>(result: &Result<Action, E>) -> (r: Outcome)
    ensures
        r == outcome_of(*result),
{
    match result {
        Err(_) => Outcome::Error,
        Ok(Action::AwaitChange) => Outcome::Success,
        Ok(Action::Requeue { secs, nanos }) => if *secs == 0 && *nanos == 0 {
            Outcome::Requeue
        } else {
            Outcome::RequeueAfter
        },
    }
}

/// The label of each outcome in the exposed series.
pub open spec fn label_of(o: Outcome) -> Seq<char> {
    match o {
        Outcome::Success => "success"@,
        Outcome::Error => "error"@,
        Outcome::Requeue => "requeue"@,
        Outcome::RequeueAfter => "requeue_after"@,
    }
}

impl Outcome {
    /// The `result` label of the outcome.
    pub fn label(&self) -> (r: &'static str)
        ensures
            r@ == label_of(*self),
    {
        match self {
            Outcome::Success => "success",
            Outcome::Error => "error",
            Outcome::Requeue => "requeue",
            Outcome::RequeueAfter => "requeue_after",
        }
    }
}

/// Every outcome, in the order in which the series are created, so that each is exposed
/// at zero before the first reconciliation.
pub fn all_outcomes() -> (r: Vec<Outcome>)
    ensures
        r@ == seq![Outcome::Success, Outcome::Error, Outcome::Requeue, Outcome::RequeueAfter],
{
    let mut r: Vec<Outcome> = Vec::new();
    r.push(Outcome::Success);
    r.push(Outcome::Error);
    r.push(Outcome::Requeue);
    r.push(Outcome::RequeueAfter);
    r
}

} // verus!
