//! An adaptor that either resolves on its first drive or never resolves.

use crate::computation::{Computation, Fate, Outcome};
use core::task::Context;
use vstd::prelude::*;

verus! {

/// Returns a computation that resolves on its first drive if `future` is
/// ready when driven, and that otherwise never resolves at all.
pub fn ready_or_never<F>(future: F) -> (adaptor: ReadyOrNever<F>)
    ensures
        adaptor.inner() == Some(future),
        !adaptor.resolved(),
{
    ReadyOrNever(Some(future), Ghost(false))
}

/// A computation that gives its inner computation one chance.
///
/// It drives the inner computation exactly once and then drops it. If that
/// drive was not ready, every later drive yields `Pending`.
pub struct ReadyOrNever<F>(Option<F>, Ghost<bool>);

/// The adaptor drops the inner computation before anything could move it, so
/// it is free to relocate whatever the inner computation asks for.
impl<F> Unpin for ReadyOrNever<F> {

}

impl<F> ReadyOrNever<F> {
    /// The inner computation, as long as it has not been driven.
    pub closed spec fn inner(&self) -> Option<F> {
        self.0
    }

    /// Whether the adaptor has resolved.
    pub closed spec fn resolved(&self) -> bool {
        self.1@
    }
}

impl<F: Computation> Computation for ReadyOrNever<F> {
    type Value = F::Value;

    open spec fn fate(&self) -> Fate<F::Value> {
        if self.resolved() {
            Fate::Spent
        } else {
            match self.inner() {
                None => Fate::Never,
                Some(f) => match f.fate() {
                    Fate::Spent => Fate::Spent,
                    Fate::Never => Fate::Never,
                    Fate::After(k, v) => if k == 0 {
                        Fate::After(0, v)
                    } else {
                        Fate::Never
                    },
                },
            }
        }
    }

    fn advance(&mut self, cx: &mut Context<'_>) -> (out: Outcome<F::Value>) {
        // The inner computation is dropped right after its one drive: nothing
        // guarantees that it stays in place from here on.
        match self.0.take() {
            Some(mut inner) => {
                let out = inner.advance(cx);
                if let Outcome::Ready(_) = out {
                    self.1 = Ghost(true);
                }
                out
            },
            None => Outcome::Pending,
        }
    }
}

/// Once the one chance was missed, the adaptor stays pending however often it
/// is driven.
pub proof fn lemma_missed_chance_is_forever<F: Computation>(
    adaptor: ReadyOrNever<F>,
    future: F,
    n: nat,
)
    requires
        adaptor.inner() == Some(future),
        !adaptor.resolved(),
        future.fate().live(),
        future.fate().yields() is Pending,
    ensures
        adaptor.fate().step_n(n) == Fate::<F::Value>::Never,
        adaptor.fate().step_n(n).yields() is Pending,
        adaptor.fate().step_n(n).live(),
{
    crate::computation::lemma_never_stays(adaptor.fate(), n);
}

} // verus!
