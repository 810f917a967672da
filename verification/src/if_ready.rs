//! An adaptor that resolves on its first drive, with `None` if the inner
//! computation was not ready at that moment.

use crate::computation::{Computation, Fate, Outcome};
use core::task::Context;
use vstd::prelude::*;

verus! {

/// Returns a computation that resolves on its first drive: with `Some` of the
/// inner value if `future` is ready when driven, with `None` otherwise.
pub fn if_ready<F>(future: F) -> (adaptor: IfReady<F>)
    ensures
        adaptor.inner() == Some(future),
{
    IfReady(Some(future))
}

/// A computation that is always ready, but may resolve to `None`.
///
/// It drives the inner computation exactly once and then drops it; after that
/// single drive the adaptor is spent.
#[derive(Debug, Clone, Copy, PartialEq, Eq, PartialOrd, Ord, Hash)]
pub struct IfReady<F>(Option<F>);

/// What the adaptor resolves to, given what the single drive of the inner
/// computation yields.
pub open spec fn first_try<V>(out: Outcome<V>) -> Option<V> {
    match out {
        Outcome::Pending => None,
        Outcome::Ready(v) => Some(v),
    }
}

/// The adaptor drops the inner computation before anything could move it, so
/// it is free to relocate whatever the inner computation asks for.
impl<F> Unpin for IfReady<F> {

}

impl<F> IfReady<F> {
    /// The inner computation, as long as it has not been driven.
    pub closed spec fn inner(&self) -> Option<F> {
        self.0
    }
}

impl<F: Computation> Computation for IfReady<F> {
    type Value = Option<F::Value>;

    open spec fn fate(&self) -> Fate<Option<F::Value>> {
        match self.inner() {
            Some(f) if f.fate().live() => Fate::After(0, first_try(f.fate().yields())),
            _ => Fate::Spent,
        }
    }

    fn advance(&mut self, cx: &mut Context<'_>) -> (out: Outcome<Option<F::Value>>) {
        // The inner computation is dropped right after its one drive: nothing
        // guarantees that it stays in place from here on.
        match self.0.take() {
            Some(mut inner) => match inner.advance(cx) {
                Outcome::Pending => Outcome::Ready(None),
                Outcome::Ready(value) => Outcome::Ready(Some(value)),
            },
            None => Outcome::Ready(None),
        }
    }
}

/// The adaptor never suspends: its first drive resolves, with the inner value
/// if the inner computation is ready at once and with `None` if it is not.
pub proof fn lemma_if_ready_resolves_at_once<F: Computation>(adaptor: IfReady<F>, future: F)
    requires
        adaptor.inner() == Some(future),
        future.fate().live(),
    ensures
        adaptor.fate().yields() == Outcome::Ready(first_try(future.fate().yields())),
        future.fate().yields() is Pending ==> adaptor.fate().yields() == Outcome::Ready(
            None::<F::Value>,
        ),
        adaptor.fate().step() is Spent,
{
}

} // verus!
