//! A computation that interlaces several computations until one of them
//! resolves.

use crate::computation::{Computation, Fate, Outcome};
use crate::pinned_pin::PinnedPin;
use crate::pinned_pin_pins_items::slice_get_mut;
use core::convert::Infallible;
use core::task::Context;
use vstd::prelude::*;

verus! {

/// The fate of a race between two contenders, the first of which is driven
/// first: the one that resolves after fewer drives wins, and the first one
/// wins a tie. A race with a spent contender is spent.
pub open spec fn race_of_two<V>(first: Fate<V>, second: Fate<V>) -> Fate<V> {
    match (first, second) {
        (Fate::Spent, _) => Fate::Spent,
        (_, Fate::Spent) => Fate::Spent,
        (Fate::Never, _) => second,
        (_, Fate::Never) => first,
        (Fate::After(k, _), Fate::After(j, _)) => if j < k {
            second
        } else {
            first
        },
    }
}

/// The fate of a race between the given participants, which are driven in
/// ascending order. A race without participants never resolves.
pub open spec fn race_fate<V>(fates: Seq<Fate<V>>) -> Fate<V>
    decreases fates.len(),
{
    if fates.len() == 0 {
        Fate::Never
    } else {
        race_of_two(race_fate(fates.drop_last()), fates.last())
    }
}

/// Whether every participant before index `i` is pending on its next drive.
pub open spec fn pending_before<V>(fates: Seq<Fate<V>>, i: int) -> bool {
    forall|j: int| 0 <= j < i && j < fates.len() ==> (#[trigger] fates[j]).yields() is Pending
}

/// The fates of the participants after one pass of the race: a participant is
/// driven once if every participant before it was pending, and is left alone
/// if one before it resolved.
pub open spec fn after_pass<V>(fates: Seq<Fate<V>>) -> Seq<Fate<V>> {
    Seq::new(
        fates.len(),
        |i: int|
            if pending_before(fates, i) {
                fates[i].step()
            } else {
                fates[i]
            },
    )
}

/// The fates of the given computations, by index.
pub open spec fn fates_of<F: Computation>(items: Seq<F>) -> Seq<Fate<F::Value>> {
    Seq::new(items.len(), |i: int| items[i].fate())
}

/// Whether each of the given participants may be driven.
pub open spec fn all_live<V>(fates: Seq<Fate<V>>) -> bool {
    forall|i: int| 0 <= i < fates.len() ==> (#[trigger] fates[i]).live()
}

/// What holds of a sequence of fates holds of it without its last entry.
proof fn lemma_front<V>(fates: Seq<Fate<V>>, i: int)
    requires
        fates.len() > 0,
        0 <= i <= fates.len(),
    ensures
        all_live(fates) ==> all_live(fates.drop_last()),
        pending_before(fates, i) ==> pending_before(fates.drop_last(), i),
        i < fates.len() && pending_before(fates.drop_last(), i) ==> pending_before(fates, i),
{
    let front = fates.drop_last();
    if all_live(fates) {
        assert forall|j: int| 0 <= j < front.len() implies (#[trigger] front[j]).live() by {
            assert(front[j] == fates[j]);
        }
    }
    if pending_before(fates, i) {
        assert forall|j: int| 0 <= j < i && j < front.len() implies (#[trigger] front[j]).yields()
            is Pending by {
            assert(front[j] == fates[j]);
        }
    }
    if i < fates.len() && pending_before(front, i) {
        assert forall|j: int| 0 <= j < i && j < fates.len() implies (#[trigger] fates[j]).yields()
            is Pending by {
            assert(front[j] == fates[j]);
        }
    }
}

/// A race may be driven exactly as long as each participant may be.
pub proof fn lemma_race_live<V>(fates: Seq<Fate<V>>)
    ensures
        race_fate(fates).live() <==> all_live(fates),
    decreases fates.len(),
{
    if fates.len() > 0 {
        let front = fates.drop_last();
        lemma_race_live(front);
        lemma_front(fates, 0);
        if all_live(fates) {
            assert(fates[fates.len() - 1].live());
        } else if race_fate(fates).live() {
            assert forall|i: int| 0 <= i < fates.len() implies (#[trigger] fates[i]).live() by {
                if i < front.len() {
                    assert(front[i].live());
                }
            }
        }
    }
}

/// Where no participant is ready on its next drive, the next pass of the race
/// is pending.
pub proof fn lemma_race_pending<V>(fates: Seq<Fate<V>>)
    requires
        all_live(fates),
        pending_before(fates, fates.len() as int),
    ensures
        race_fate(fates).yields() is Pending,
        race_fate(fates).live(),
    decreases fates.len(),
{
    if fates.len() > 0 {
        let last = fates.len() - 1;
        lemma_front(fates, last);
        lemma_race_pending(fates.drop_last());
        assert(fates[last].live());
        assert(fates[last].yields() is Pending);
    }
}

/// The first participant that is ready on its next drive decides the next
/// pass of the race.
pub proof fn lemma_race_winner<V>(fates: Seq<Fate<V>>, i: int)
    requires
        all_live(fates),
        0 <= i < fates.len(),
        pending_before(fates, i),
        fates[i].yields() is Ready,
    ensures
        race_fate(fates).yields() == fates[i].yields(),
    decreases fates.len(),
{
    let front = fates.drop_last();
    let last = fates.len() - 1;
    lemma_front(fates, i);
    assert(fates[last].live());
    if i < last {
        assert(front[i] == fates[i]);
        lemma_race_winner(front, i);
    } else {
        lemma_race_pending(front);
    }
}

/// Where some participant is ready on its next drive, so is the race.
pub proof fn lemma_race_ready<V>(fates: Seq<Fate<V>>, i: int)
    requires
        all_live(fates),
        0 <= i < fates.len(),
        fates[i].yields() is Ready,
    ensures
        race_fate(fates).yields() is Ready,
    decreases fates.len(),
{
    let front = fates.drop_last();
    lemma_front(fates, 0);
    lemma_race_live(front);
    assert(fates[fates.len() - 1].live());
    if i < front.len() {
        assert(front[i] == fates[i]);
        lemma_race_ready(front, i);
    }
}

/// One pass of a race takes one drive off its fate.
pub proof fn lemma_race_step<V>(fates: Seq<Fate<V>>)
    requires
        all_live(fates),
    ensures
        race_fate(after_pass(fates)) == race_fate(fates).step(),
    decreases fates.len(),
{
    if fates.len() > 0 {
        let front = fates.drop_last();
        let last = fates.len() - 1;
        lemma_front(fates, last);
        assert(fates[last].live());
        lemma_race_step(front);
        lemma_race_live(front);
        assert(after_pass(fates).drop_last() =~= after_pass(front)) by {
            assert forall|i: int| 0 <= i < front.len() implies after_pass(fates)[i] == after_pass(
                front,
            )[i] by {
                lemma_front(fates, i);
                assert(front[i] == fates[i]);
            }
        }
        assert(after_pass(fates).last() == after_pass(fates)[last]);
        if pending_before(fates, last) {
            lemma_race_pending(front);
        } else {
            let j = choose|j: int|
                0 <= j < last && j < fates.len() && !((#[trigger] fates[j]).yields() is Pending);
            assert(front[j] == fates[j]);
            lemma_race_ready(front, j);
        }
    }
}

/// A fixed collection of computations that an [`AnyFuture`] can drive.
pub trait Futures: Sized {
    /// The output of the race, which is that of each participant.
    type Output;

    /// The fates of the participants, in the order in which they are driven.
    spec fn fates(&self) -> Seq<Fate<Self::Output>>;

    /// Makes one pass over the participants in ascending order. Each is
    /// driven once until one resolves; the pass ends there, with that
    /// participant's value, and the participants after it are not driven.
    /// Where none resolves, the pass yields `Pending`.
    fn poll(futures: &mut PinnedPin<Self>, cx: &mut Context<'_>) -> (out: Outcome<Self::Output>)
        requires
            all_live(old(futures).0.fates()),
        ensures
            out == race_fate(old(futures).0.fates()).yields(),
            final(futures).0.fates() == after_pass(old(futures).0.fates()),
    ;
}

/// Creates a computation that resolves when any computation in `futures`
/// does, with the output of that computation.
pub fn any<Fs: Futures>(futures: Fs) -> (race: AnyFuture<Fs>)
    ensures
        race.futures() == futures,
{
    AnyFuture::new(futures)
}

/// A computation that resolves when the first of its participants does.
///
/// The participants live and die with the race: there is nothing to cancel
/// them but dropping the race itself.
#[derive(Debug)]
pub struct AnyFuture<Fs: Futures> {
    futures: PinnedPin<Fs>,
}

impl<Fs: Futures> AnyFuture<Fs> {
    /// The participants.
    pub closed spec fn futures(&self) -> Fs {
        self.futures.0
    }

    /// Creates a new race between the given `futures`.
    #[must_use]
    pub fn new(futures: Fs) -> (race: Self)
        ensures
            race.futures() == futures,
    {
        Self { futures: PinnedPin::wrap(futures) }
    }

    /// Creates a new boxed race between the given boxed `futures`.
    #[must_use]
    pub fn new_boxed(futures: Box<Fs>) -> (race: Box<Self>)
        ensures
            race.futures() == *futures,
    {
        Box::new(Self::new(*futures))
    }
}

impl<Fs: Futures> Computation for AnyFuture<Fs> {
    type Value = Fs::Output;

    open spec fn fate(&self) -> Fate<Fs::Output> {
        race_fate(self.futures().fates())
    }

    fn advance(&mut self, cx: &mut Context<'_>) -> (out: Outcome<Fs::Output>) {
        proof {
            lemma_race_live(self.futures.0.fates());
            lemma_race_step(self.futures.0.fates());
        }
        Fs::poll(&mut self.futures, cx)
    }
}

/// One pass of a race over the items of a slice.
fn poll_slice<F: Computation>(items: &mut [F], cx: &mut Context<'_>) -> (out: Outcome<F::Value>)
    requires
        all_live(fates_of(old(items)@)),
    ensures
        out == race_fate(fates_of(old(items)@)).yields(),
        fates_of(final(items)@) == after_pass(fates_of(old(items)@)),
{
    let ghost before = fates_of(items@);
    let n = items.len();
    let mut i: usize = 0;
    while i < n
        invariant
            i <= n,
            n == items@.len(),
            before == fates_of(old(items)@),
            before.len() == n,
            all_live(before),
            pending_before(before, i as int),
            forall|j: int|
                0 <= j < n ==> (#[trigger] items@[j]).fate() == (if j < i {
                    before[j].step()
                } else {
                    before[j]
                }),
        decreases n - i,
    {
        assert(before[i as int].live());
        let out = slice_get_mut(items, i).unwrap().advance(cx);
        if let Outcome::Ready(_) = out {
            proof {
                lemma_race_winner(before, i as int);
                assert(fates_of(items@) =~= after_pass(before)) by {
                    assert forall|j: int| 0 <= j < n implies fates_of(items@)[j] == after_pass(
                        before,
                    )[j] by {
                        if j > i {
                            assert(!(before[i as int].yields() is Pending));
                        }
                    }
                }
            }
            return out;
        }
        i += 1;
    }
    proof {
        lemma_race_pending(before);
        assert(fates_of(items@) =~= after_pass(before));
    }
    Outcome::Pending
}

impl<F: Computation, const N: usize> Futures for [F; N] {
    type Output = F::Value;

    open spec fn fates(&self) -> Seq<Fate<F::Value>> {
        fates_of(self@)
    }

    fn poll(futures: &mut PinnedPin<Self>, cx: &mut Context<'_>) -> (out: Outcome<F::Value>) {
        poll_slice(futures.as_pinned_mut_slice(), cx)
    }
}

/// The implementation for sequences of any length is that for arrays.
impl<F: Computation> Futures for Vec<F> {
    type Output = F::Value;

    open spec fn fates(&self) -> Seq<Fate<F::Value>> {
        fates_of(self@)
    }

    fn poll(futures: &mut PinnedPin<Self>, cx: &mut Context<'_>) -> (out: Outcome<F::Value>) {
        poll_slice(futures.as_pinned_mut_slice(), cx)
    }
}

impl Futures for () {
    type Output = Infallible;

    open spec fn fates(&self) -> Seq<Fate<Infallible>> {
        Seq::empty()
    }

    fn poll(futures: &mut PinnedPin<Self>, cx: &mut Context<'_>) -> (out: Outcome<Infallible>) {
        assert(after_pass(futures.0.fates()) =~= futures.0.fates());
        Outcome::Pending
    }
}

impl<F0: Computation> Futures for (F0,) {
    type Output = F0::Value;

    open spec fn fates(&self) -> Seq<Fate<F0::Value>> {
        seq![self.0.fate()]
    }

    fn poll(futures: &mut PinnedPin<Self>, cx: &mut Context<'_>) -> (out: Outcome<F0::Value>) {
        let ghost before = futures.0.fates();
        assert(before[0].live());
        let out = futures.as_mut_pinned().0.advance(cx);
        proof {
            if out is Ready {
                lemma_race_winner(before, 0);
            } else {
                lemma_race_pending(before);
            }
            assert(futures.0.fates() =~= after_pass(before));
        }
        out
    }
}

impl<F0, F1> Futures for (F0, F1) where F0: Computation, F1: Computation<Value = F0::Value> {
    type Output = F0::Value;

    open spec fn fates(&self) -> Seq<Fate<F0::Value>> {
        seq![self.0.fate(), self.1.fate()]
    }

    fn poll(futures: &mut PinnedPin<Self>, cx: &mut Context<'_>) -> (out: Outcome<F0::Value>) {
        let ghost before = futures.0.fates();
        assert(before[0].live());
        assert(before[1].live());
        let first = futures.as_mut_pinned().0.advance(cx);
        if let Outcome::Ready(_) = first {
            proof {
                lemma_race_winner(before, 0);
                assert(!(before[0].yields() is Pending));
                assert(futures.0.fates() =~= after_pass(before));
            }
            return first;
        }
        let second = futures.as_mut_pinned().1.advance(cx);
        proof {
            if second is Ready {
                lemma_race_winner(before, 1);
            } else {
                lemma_race_pending(before);
            }
            assert(futures.0.fates() =~= after_pass(before));
        }
        second
    }
}

/// A race without participants never resolves: it stays pending however
/// often it is driven.
pub proof fn lemma_empty_race_never_resolves<Fs: Futures>(race: AnyFuture<Fs>, n: nat)
    requires
        race.futures().fates().len() == 0,
    ensures
        race.fate().step_n(n) == Fate::<Fs::Output>::Never,
        race.fate().step_n(n).yields() is Pending,
        race.fate().step_n(n).live(),
{
    crate::computation::lemma_never_stays(race.fate(), n);
}

} // verus!
