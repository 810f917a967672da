//! The capability that every participant of a combinator offers, and the
//! mathematical model of what driving it will yield.

use core::task::Context;
use vstd::prelude::*;

verus! {

/// `core::task::Context` of std: the wake-notification context that a
/// scheduler hands to `advance`. The library never looks inside it: it only
/// passes it on to the participants.
#[verifier::external_type_specification]
#[verifier::external_body]
pub struct ExContext<'a>(Context<'a>);

/// What one drive of a suspending computation reports.
#[derive(Debug, Clone, Copy, PartialEq, Eq, Structural)]
pub enum Outcome<V> {
    /// Not yet: drive again later.
    Pending,
    /// Resolved with a value.
    Ready(V),
}

/// What the remaining drives of a computation will yield.
pub enum Fate<V> {
    /// Terminal: the computation has resolved (or was consumed) and must not
    /// be driven again.
    Spent,
    /// Every further drive yields `Pending`.
    Never,
    /// The given number of drives yield `Pending`, the one after them yields
    /// `Ready` with the given value.
    After(nat, V),
}

impl<V> Fate<V> {
    /// Whether the computation may still be driven.
    pub open spec fn live(self) -> bool {
        !(self is Spent)
    }

    /// What the next drive yields.
    pub open spec fn yields(self) -> Outcome<V> {
        match self {
            Fate::After(k, v) if k == 0 => Outcome::Ready(v),
            _ => Outcome::Pending,
        }
    }

    /// The fate that is left once the next drive has been made.
    pub open spec fn step(self) -> Fate<V> {
        match self {
            Fate::Spent => Fate::Spent,
            Fate::Never => Fate::Never,
            Fate::After(k, v) => if k == 0 {
                Fate::Spent
            } else {
                Fate::After((k - 1) as nat, v)
            },
        }
    }

    /// The fate that is left after `n` drives.
    pub open spec fn step_n(self, n: nat) -> Fate<V>
        decreases n,
    {
        if n == 0 {
            self
        } else {
            self.step().step_n((n - 1) as nat)
        }
    }

    /// The number of drives after which the computation has resolved, if it
    /// ever does.
    pub open spec fn steps(self) -> Option<nat> {
        match self {
            Fate::After(k, _) => Some(k + 1),
            _ => None,
        }
    }
}

/// A unit of work that, when driven, either resolves with a value or reports
/// "not yet" and must be driven again later.
///
/// Contracts speak of a computation through its [`Fate`]: what its remaining
/// drives will yield. Each drive takes one step off the fate.
pub trait Computation {
    /// The type of the value that the computation resolves to.
    type Value;

    /// What the remaining drives of this computation will yield.
    spec fn fate(&self) -> Fate<Self::Value>;

    /// Drives the computation once.
    ///
    /// Once `Ready` has come back the computation is spent, and the caller
    /// must not drive it again.
    fn advance(&mut self, cx: &mut Context<'_>) -> (out: Outcome<Self::Value>)
        requires
            old(self).fate().live(),
        ensures
            out == old(self).fate().yields(),
            final(self).fate() == old(self).fate().step(),
    ;
}

/// A computation that follows a fixed script: it is pending for a given number
/// of drives and resolves on the next one, or it never resolves.
#[derive(Debug)]
pub struct Scripted<V> {
    pending: Option<usize>,
    value: Option<V>,
}

impl<V> Scripted<V> {
    /// The number of pending drives that are left, or `None` if the script
    /// never resolves.
    pub closed spec fn pending(&self) -> Option<usize> {
        self.pending
    }

    /// The value to resolve with, until it has been handed out.
    pub closed spec fn value(&self) -> Option<V> {
        self.value
    }

    /// A computation that resolves to `value` on its first drive.
    pub fn ready(value: V) -> (script: Self)
        ensures
            script.fate() == Fate::After(0, value),
    {
        Scripted { pending: Some(0), value: Some(value) }
    }

    /// A computation that is pending for `drives` drives and resolves to
    /// `value` on the next one.
    pub fn after(drives: usize, value: V) -> (script: Self)
        ensures
            script.fate() == Fate::After(drives as nat, value),
    {
        Scripted { pending: Some(drives), value: Some(value) }
    }

    /// A computation that never resolves.
    pub fn never() -> (script: Self)
        ensures
            script.fate() == Fate::<V>::Never,
    {
        Scripted { pending: None, value: None }
    }
}

impl<V> Computation for Scripted<V> {
    type Value = V;

    open spec fn fate(&self) -> Fate<V> {
        match (self.pending(), self.value()) {
            (None, _) => Fate::Never,
            (Some(k), Some(v)) => Fate::After(k as nat, v),
            (Some(_), None) => Fate::Spent,
        }
    }

    fn advance(&mut self, cx: &mut Context<'_>) -> (out: Outcome<V>) {
        match self.pending {
            None => Outcome::Pending,
            Some(k) => if k == 0 {
                match self.value.take() {
                    Some(value) => Outcome::Ready(value),
                    None => Outcome::Pending,
                }
            } else {
                self.pending = Some(k - 1);
                Outcome::Pending
            },
        }
    }
}

/// A computation that resolves after `k` pending drives is, after `n <= k`
/// drives, one that resolves after `k - n` pending drives: it is pending on
/// each of the first `k` drives and ready on the one after them.
pub proof fn lemma_resolves_on_time<V>(fate: Fate<V>, n: nat)
    requires
        fate is After,
        n <= fate->After_0,
    ensures
        fate.step_n(n) == Fate::After((fate->After_0 - n) as nat, fate->After_1),
        n < fate->After_0 ==> fate.step_n(n).yields() is Pending,
        n == fate->After_0 ==> fate.step_n(n).yields() == Outcome::Ready(fate->After_1),
        fate.step_n(n + 1) == fate.step_n(n).step(),
    decreases n,
{
    if n > 0 {
        lemma_resolves_on_time(fate.step(), (n - 1) as nat);
        assert(fate.step_n(n + 1) == fate.step().step_n(n));
    } else {
        assert(fate.step_n(1) == fate.step().step_n(0));
    }
}

/// A computation that never resolves stays so, however often it is driven.
pub proof fn lemma_never_stays<V>(fate: Fate<V>, n: nat)
    requires
        fate is Never,
    ensures
        fate.step_n(n) == fate,
    decreases n,
{
    if n > 0 {
        lemma_never_stays(fate.step(), (n - 1) as nat);
    }
}

} // verus!
