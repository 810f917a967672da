//! A computation that interlaces several computations and resolves, once,
//! with the outputs of all of them.

use crate::completion::CompletionSet;
use crate::computation::{lemma_resolves_on_time, Computation, Fate, Outcome};
use core::task::Context;
use vstd::prelude::*;

verus! {

/// A fate with its value forgotten: when a computation resolves, not to what.
pub open spec fn pace_of<V>(fate: Fate<V>) -> Fate<()> {
    match fate {
        Fate::Spent => Fate::Spent,
        Fate::Never => Fate::Never,
        Fate::After(k, _) => Fate::After(k, ()),
    }
}

/// The value of one slot of the aggregate: what was written to the slot, or,
/// while nothing is written, what the participant will resolve to.
pub open spec fn slot_value<V>(written: Option<V>, fate: Fate<V>) -> V {
    match written {
        Some(v) => v,
        None => match fate {
            Fate::After(_, v) => v,
            _ => arbitrary(),
        },
    }
}

/// The pace of a slot as the join sees it: a slot whose output is written has
/// nothing left to wait for, another one goes at its participant's pace.
pub open spec fn slot_pace(done: bool, pace: Fate<()>) -> Fate<()> {
    if done {
        Fate::After(0, ())
    } else {
        pace
    }
}

/// The pace of a participant after one pass of the join: a participant whose
/// output is written is left alone, another one is driven once.
pub open spec fn slot_step(done: bool, pace: Fate<()>) -> Fate<()> {
    if done {
        pace
    } else {
        pace.step()
    }
}

/// The largest number of pending drives among the given slots, all of which
/// resolve; 0 where there is no slot.
pub open spec fn longest_wait(slots: Seq<Fate<()>>) -> nat
    decreases slots.len(),
{
    if slots.len() == 0 {
        0
    } else {
        let rest = longest_wait(slots.drop_last());
        match slots.last() {
            Fate::After(k, _) if k > rest => k,
            _ => rest,
        }
    }
}

/// The pace of a join over the given slots: it is spent if one of them is, it
/// never resolves if one of them never does, and otherwise it resolves with
/// the slowest of them.
pub open spec fn join_pace(slots: Seq<Fate<()>>) -> Fate<()> {
    if exists|i: int| 0 <= i < slots.len() && slots[i] is Spent {
        Fate::Spent
    } else if exists|i: int| 0 <= i < slots.len() && slots[i] is Never {
        Fate::Never
    } else {
        Fate::After(longest_wait(slots), ())
    }
}

/// A fixed collection of computations that a [`JoinFuture`] can drive.
pub trait Futures: Sized {
    /// The combined output.
    type Outputs;

    /// The storage that collects the outputs, one slot per participant, each
    /// of them empty until its participant resolves.
    type Buffer;

    /// The number of participants.
    spec fn arity() -> nat;

    /// The pace of participant `i`.
    spec fn pace(&self, i: int) -> Fate<()>;

    /// Whether slot `i` of the buffer has been written.
    spec fn written(buffer: &Self::Buffer, i: int) -> bool;

    /// The aggregate that the join resolves to: for each slot what was written
    /// there or, failing that, what its participant will resolve to.
    spec fn aggregate(&self, buffer: &Self::Buffer) -> Self::Outputs;

    /// A completion set with a bit for each participant, in which no bit at
    /// all is set.
    fn initial_completion() -> (completion: CompletionSet)
        ensures
            Self::arity() <= completion@.len(),
            completion.blank(completion@.len()),
    ;

    /// A buffer in which no slot is written.
    fn empty_outputs() -> (outputs: Self::Buffer)
        ensures
            forall|i: int| 0 <= i < Self::arity() ==> !#[trigger] Self::written(&outputs, i),
    ;

    /// Makes one pass over the slots in ascending order. A slot whose bit is
    /// set is skipped; every other participant is driven once, and where it
    /// resolves its output is written to its slot and its bit is set.
    ///
    /// Yields `Ready` exactly when every bit is set after the pass.
    fn poll(
        completion: &mut CompletionSet,
        futures: &mut Self,
        outputs: &mut Self::Buffer,
        cx: &mut Context<'_>,
    ) -> (out: Outcome<()>)
        requires
            Self::arity() <= old(completion)@.len(),
            forall|i: int|
                0 <= i < Self::arity() ==> #[trigger] old(completion)@[i] == Self::written(
                    old(outputs),
                    i,
                ),
            forall|i: int|
                0 <= i < Self::arity() ==> old(completion)@[i] || (#[trigger] old(futures).pace(
                    i,
                )).live(),
            Self::arity() == 0 || !old(completion).full(Self::arity()),
        ensures
            final(completion)@.len() == old(completion)@.len(),
            forall|i: int|
                0 <= i < Self::arity() ==> #[trigger] final(completion)@[i] == (old(completion)@[i]
                    || old(futures).pace(i).yields() is Ready),
            forall|i: int|
                0 <= i < Self::arity() ==> #[trigger] final(futures).pace(i) == slot_step(
                    old(completion)@[i],
                    old(futures).pace(i),
                ),
            forall|i: int|
                0 <= i < Self::arity() ==> final(completion)@[i] == #[trigger] Self::written(
                    final(outputs),
                    i,
                ),
            final(futures).aggregate(final(outputs)) == old(futures).aggregate(old(outputs)),
            out is Ready <==> final(completion).full(Self::arity()),
    ;

    /// Reads the buffer, every slot of which is written, as the aggregate.
    /// The outputs move out of the buffer: no slot is written afterwards.
    fn assemble(futures: &Self, outputs: &mut Self::Buffer) -> (aggregate: Self::Outputs)
        requires
            forall|i: int| 0 <= i < Self::arity() ==> #[trigger] Self::written(old(outputs), i),
        ensures
            aggregate == futures.aggregate(old(outputs)),
            forall|i: int| 0 <= i < Self::arity() ==> !#[trigger] Self::written(final(outputs), i),
    ;
}

/// The state of a join that may be driven: the completion set has a bit for
/// each slot, a bit is set exactly where the slot is written, each participant
/// whose bit is clear may be driven, and, unless there is no participant at
/// all, some bit is still clear.
pub open spec fn coherent<Fs: Futures>(
    completion: CompletionSet,
    futures: Fs,
    outputs: Fs::Buffer,
) -> bool {
    &&& Fs::arity() <= completion@.len()
    &&& forall|i: int|
        0 <= i < Fs::arity() ==> #[trigger] completion@[i] == Fs::written(&outputs, i)
    &&& forall|i: int|
        0 <= i < Fs::arity() ==> completion@[i] || (#[trigger] futures.pace(i)).live()
    &&& (Fs::arity() == 0 || !completion.full(Fs::arity()))
}

/// The paces of the slots of a join, as the join sees them.
pub open spec fn slot_paces<Fs: Futures>(completion: CompletionSet, futures: Fs) -> Seq<Fate<()>> {
    Seq::new(Fs::arity(), |i: int| slot_pace(completion@[i], futures.pace(i)))
}

/// Creates a computation that resolves when every computation in `futures`
/// has resolved, with the outputs of all of them.
pub fn join<Fs: Futures>(futures: Fs) -> (joined: JoinFuture<Fs>)
    ensures
        joined.futures() == futures,
        joined.completion().blank(Fs::arity()),
        Fs::arity() <= joined.completion()@.len(),
        forall|i: int| 0 <= i < Fs::arity() ==> !#[trigger] Fs::written(&joined.outputs(), i),
        !joined.consumed(),
{
    JoinFuture::new(futures)
}

/// A computation that resolves when every one of its participants has
/// resolved.
///
/// Each participant is driven until it resolves and never again after that;
/// its output is written once. The aggregate is read once, on the drive that
/// set the last bit, and the join is consumed from then on.
pub struct JoinFuture<Fs: Futures> {
    completion: CompletionSet,
    futures: Fs,
    outputs: Fs::Buffer,
    consumed: Ghost<bool>,
}

impl<Fs: Futures> JoinFuture<Fs> {
    /// The completion set.
    pub closed spec fn completion(&self) -> CompletionSet {
        self.completion
    }

    /// The participants.
    pub closed spec fn futures(&self) -> Fs {
        self.futures
    }

    /// The output buffer.
    pub closed spec fn outputs(&self) -> Fs::Buffer {
        self.outputs
    }

    /// Whether the aggregate has been handed out.
    pub closed spec fn consumed(&self) -> bool {
        self.consumed@
    }

    /// Creates a new join of the given `futures`.
    pub fn new(futures: Fs) -> (joined: Self)
        ensures
            joined.futures() == futures,
            joined.completion().blank(Fs::arity()),
            Fs::arity() <= joined.completion()@.len(),
            forall|i: int| 0 <= i < Fs::arity() ==> !#[trigger] Fs::written(&joined.outputs(), i),
            !joined.consumed(),
    {
        Self {
            completion: Fs::initial_completion(),
            futures,
            outputs: Fs::empty_outputs(),
            consumed: Ghost(false),
        }
    }
}

/// The fate of a join in the given state.
pub open spec fn join_fate<Fs: Futures>(
    consumed: bool,
    completion: CompletionSet,
    futures: Fs,
    outputs: Fs::Buffer,
) -> Fate<Fs::Outputs> {
    if consumed || !coherent::<Fs>(completion, futures, outputs) {
        Fate::Spent
    } else {
        match join_pace(slot_paces::<Fs>(completion, futures)) {
            Fate::Spent => Fate::Spent,
            Fate::Never => Fate::Never,
            Fate::After(k, _) => Fate::After(k, futures.aggregate(&outputs)),
        }
    }
}

/// The longest wait is 0 exactly where no slot has a pending drive left.
pub proof fn lemma_longest_wait_zero(slots: Seq<Fate<()>>)
    requires
        forall|i: int| 0 <= i < slots.len() ==> slots[i] is After,
    ensures
        longest_wait(slots) == 0 <==> forall|i: int|
            0 <= i < slots.len() ==> (#[trigger] slots[i]).yields() is Ready,
    decreases slots.len(),
{
    if slots.len() > 0 {
        let front = slots.drop_last();
        lemma_longest_wait_zero(front);
        if longest_wait(slots) == 0 {
            assert(slots.last() == slots[slots.len() - 1]);
            assert(longest_wait(front) == 0);
            assert forall|i: int| 0 <= i < slots.len() implies (#[trigger] slots[i]).yields()
                is Ready by {
                if i < front.len() {
                    assert(front[i] == slots[i]);
                }
            }
        } else {
            if forall|i: int| 0 <= i < slots.len() ==> (#[trigger] slots[i]).yields() is Ready {
                assert forall|i: int| 0 <= i < front.len() implies (#[trigger] front[i]).yields()
                    is Ready by {
                    assert(front[i] == slots[i]);
                }
                assert(slots.last() == slots[slots.len() - 1]);
            }
        }
    }
}

/// The longest wait bounds the wait of every slot, and some slot attains it.
pub proof fn lemma_longest_wait_is_max(slots: Seq<Fate<()>>)
    requires
        forall|i: int| 0 <= i < slots.len() ==> slots[i] is After,
    ensures
        forall|i: int|
            0 <= i < slots.len() ==> (#[trigger] slots[i])->After_0 <= longest_wait(slots),
        slots.len() > 0 ==> exists|i: int|
            0 <= i < slots.len() && (#[trigger] slots[i])->After_0 == longest_wait(slots),
    decreases slots.len(),
{
    if slots.len() > 0 {
        let front = slots.drop_last();
        lemma_longest_wait_is_max(front);
        assert forall|i: int| 0 <= i < slots.len() implies (#[trigger] slots[i])->After_0
            <= longest_wait(slots) by {
            if i < front.len() {
                assert(front[i] == slots[i]);
            }
        }
        let last = slots.len() - 1;
        if slots[last]->After_0 > longest_wait(front) || front.len() == 0 {
            assert(slots[last]->After_0 == longest_wait(slots));
        } else {
            let i = choose|i: int|
                0 <= i < front.len() && (#[trigger] front[i])->After_0 == longest_wait(front);
            assert(front[i] == slots[i]);
            assert(slots[i]->After_0 == longest_wait(slots));
        }
    }
}

/// One pass takes one pending drive off every slot that has one left, and so
/// one off the longest wait.
pub proof fn lemma_longest_wait_step(before: Seq<Fate<()>>, after: Seq<Fate<()>>)
    requires
        before.len() == after.len(),
        forall|i: int| 0 <= i < before.len() ==> before[i] is After,
        forall|i: int|
            0 <= i < before.len() ==> #[trigger] after[i] == (if before[i]->After_0 == 0 {
                before[i]
            } else {
                before[i].step()
            }),
    ensures
        longest_wait(before) > 0 ==> longest_wait(after) == longest_wait(before) - 1,
        longest_wait(before) == 0 ==> longest_wait(after) == 0,
    decreases before.len(),
{
    if before.len() > 0 {
        let b = before.drop_last();
        let a = after.drop_last();
        assert forall|i: int| 0 <= i < b.len() implies #[trigger] a[i] == (if b[i]->After_0 == 0 {
            b[i]
        } else {
            b[i].step()
        }) by {
            assert(a[i] == after[i]);
            assert(b[i] == before[i]);
        }
        assert forall|i: int| 0 <= i < b.len() implies b[i] is After by {
            assert(b[i] == before[i]);
        }
        lemma_longest_wait_step(b, a);
        let last = before.len() - 1;
        assert(after.last() == after[last]);
        assert(before.last() == before[last]);
    }
}

impl<Fs: Futures> Computation for JoinFuture<Fs> {
    type Value = Fs::Outputs;

    open spec fn fate(&self) -> Fate<Fs::Outputs> {
        join_fate::<Fs>(self.consumed(), self.completion(), self.futures(), self.outputs())
    }

    fn advance(&mut self, cx: &mut Context<'_>) -> (out: Outcome<Fs::Outputs>) {
        let ghost before = slot_paces::<Fs>(self.completion, self.futures);
        match Fs::poll(&mut self.completion, &mut self.futures, &mut self.outputs, cx) {
            Outcome::Pending => {
                proof {
                    let after = slot_paces::<Fs>(self.completion, self.futures);
                    let i = choose|i: int| 0 <= i < Fs::arity() && !self.completion@[i];
                    assert(!self.completion@[i]);
                    assert(!(before[i].yields() is Ready));
                    if join_pace(before) is Never {
                        let n = choose|n: int| 0 <= n < before.len() && before[n] is Never;
                        assert(after[n] is Never);
                        assert forall|j: int| 0 <= j < after.len() implies !(after[j] is Spent) by {
                            assert(!(before[j] is Spent));
                        }
                    } else {
                        assert forall|j: int| 0 <= j < before.len() implies before[j] is After by {
                            assert(!(before[j] is Spent));
                            assert(!(before[j] is Never));
                        }
                        lemma_longest_wait_zero(before);
                        lemma_longest_wait_step(before, after);
                        assert forall|j: int| 0 <= j < after.len() implies after[j] is After by {
                            assert(before[j] is After);
                        }
                    }
                }
                Outcome::Pending
            },
            Outcome::Ready(()) => {
                proof {
                    assert forall|j: int| 0 <= j < before.len() implies (
                        #[trigger] before[j]
                    ).yields() is Ready by {
                        assert(self.completion@[j]);
                        assert(!(before[j] is Spent));
                    }
                    lemma_longest_wait_zero(before);
                    self.consumed = Ghost(true);
                }
                Outcome::Ready(Fs::assemble(&self.futures, &mut self.outputs))
            },
        }
    }
}

impl Futures for () {
    type Outputs = ();

    type Buffer = ();

    open spec fn arity() -> nat {
        0
    }

    open spec fn pace(&self, i: int) -> Fate<()> {
        Fate::Spent
    }

    open spec fn written(buffer: &(), i: int) -> bool {
        false
    }

    open spec fn aggregate(&self, buffer: &()) -> () {
        ()
    }

    fn initial_completion() -> (completion: CompletionSet) {
        CompletionSet::new()
    }

    fn empty_outputs() -> (outputs: ()) {
        ()
    }

    fn poll(
        completion: &mut CompletionSet,
        futures: &mut Self,
        outputs: &mut (),
        cx: &mut Context<'_>,
    ) -> (out: Outcome<()>) {
        Outcome::Ready(())
    }

    fn assemble(futures: &Self, outputs: &mut ()) -> (aggregate: ()) {
        ()
    }
}

impl<F1: Computation> Futures for (F1,) {
    type Outputs = (F1::Value,);

    type Buffer = (Option<F1::Value>,);

    open spec fn arity() -> nat {
        1
    }

    open spec fn pace(&self, i: int) -> Fate<()> {
        pace_of(self.0.fate())
    }

    open spec fn written(buffer: &(Option<F1::Value>,), i: int) -> bool {
        buffer.0 is Some
    }

    open spec fn aggregate(&self, buffer: &(Option<F1::Value>,)) -> (F1::Value,) {
        (slot_value(buffer.0, self.0.fate()),)
    }

    fn initial_completion() -> (completion: CompletionSet) {
        CompletionSet::new()
    }

    fn empty_outputs() -> (outputs: (Option<F1::Value>,)) {
        (None,)
    }

    fn poll(
        completion: &mut CompletionSet,
        futures: &mut Self,
        outputs: &mut (Option<F1::Value>,),
        cx: &mut Context<'_>,
    ) -> (out: Outcome<()>) {
        let mut incomplete = false;
        assert(completion@[0] || futures.pace(0).live());
        if !completion.contains(0) {
            match futures.0.advance(cx) {
                Outcome::Pending => incomplete = true,
                Outcome::Ready(output) => {
                    outputs.0 = Some(output);
                    completion.insert(0);
                },
            }
        }
        if incomplete {
            Outcome::Pending
        } else {
            Outcome::Ready(())
        }
    }

    fn assemble(futures: &Self, outputs: &mut (Option<F1::Value>,)) -> (aggregate: (F1::Value,)) {
        assert(Self::written(outputs, 0));
        (outputs.0.take().unwrap(),)
    }
}

impl<F1: Computation, F2: Computation> Futures for (F1, F2) {
    type Outputs = (F1::Value, F2::Value);

    type Buffer = (Option<F1::Value>, Option<F2::Value>);

    open spec fn arity() -> nat {
        2
    }

    open spec fn pace(&self, i: int) -> Fate<()> {
        if i == 0 {
            pace_of(self.0.fate())
        } else {
            pace_of(self.1.fate())
        }
    }

    open spec fn written(buffer: &(Option<F1::Value>, Option<F2::Value>), i: int) -> bool {
        if i == 0 {
            buffer.0 is Some
        } else {
            buffer.1 is Some
        }
    }

    open spec fn aggregate(&self, buffer: &(Option<F1::Value>, Option<F2::Value>)) -> (
        F1::Value,
        F2::Value,
    ) {
        (slot_value(buffer.0, self.0.fate()), slot_value(buffer.1, self.1.fate()))
    }

    fn initial_completion() -> (completion: CompletionSet) {
        CompletionSet::new()
    }

    fn empty_outputs() -> (outputs: (Option<F1::Value>, Option<F2::Value>)) {
        (None, None)
    }

    fn poll(
        completion: &mut CompletionSet,
        futures: &mut Self,
        outputs: &mut (Option<F1::Value>, Option<F2::Value>),
        cx: &mut Context<'_>,
    ) -> (out: Outcome<()>) {
        let mut incomplete = false;
        assert(completion@[0] == Self::written(outputs, 0));
        assert(completion@[1] == Self::written(outputs, 1));
        assert(completion@[0] || futures.pace(0).live());
        assert(completion@[1] || futures.pace(1).live());
        if !completion.contains(0) {
            match futures.0.advance(cx) {
                Outcome::Pending => incomplete = true,
                Outcome::Ready(output) => {
                    outputs.0 = Some(output);
                    completion.insert(0);
                },
            }
        }
        if !completion.contains(1) {
            match futures.1.advance(cx) {
                Outcome::Pending => incomplete = true,
                Outcome::Ready(output) => {
                    outputs.1 = Some(output);
                    completion.insert(1);
                },
            }
        }
        assert(incomplete <==> !completion@[0] || !completion@[1]);
        if incomplete {
            Outcome::Pending
        } else {
            Outcome::Ready(())
        }
    }

    fn assemble(futures: &Self, outputs: &mut (Option<F1::Value>, Option<F2::Value>)) -> (aggregate:
        (F1::Value, F2::Value)) {
        assert(Self::written(outputs, 0));
        assert(Self::written(outputs, 1));
        (outputs.0.take().unwrap(), outputs.1.take().unwrap())
    }
}

/// A fresh join of participants that all resolve, resolves too, with the
/// aggregate of their values and on the drive on which the slowest of them
/// resolves: no participant needs more drives than the join, and, unless
/// there is no participant, one needs as many. A join without participants
/// needs one drive. Every drive before that one is pending.
pub proof fn lemma_join_resolves_with_slowest<Fs: Futures>(joined: JoinFuture<Fs>)
    requires
        !joined.consumed(),
        Fs::arity() <= joined.completion()@.len(),
        joined.completion().blank(Fs::arity()),
        forall|i: int| 0 <= i < Fs::arity() ==> !#[trigger] Fs::written(&joined.outputs(), i),
        forall|i: int| 0 <= i < Fs::arity() ==> (#[trigger] joined.futures().pace(i)) is After,
    ensures
        joined.fate() is After,
        joined.fate()->After_1 == joined.futures().aggregate(&joined.outputs()),
        forall|i: int|
            0 <= i < Fs::arity() ==> (#[trigger] joined.futures().pace(i)).steps()->Some_0
                <= joined.fate().steps()->Some_0,
        Fs::arity() > 0 ==> exists|i: int|
            0 <= i < Fs::arity() && (#[trigger] joined.futures().pace(i)).steps()
                == joined.fate().steps(),
        Fs::arity() == 0 ==> joined.fate().steps() == Some(1nat),
        forall|n: nat|
            n + 1 < joined.fate().steps()->Some_0 ==> (#[trigger] joined.fate().step_n(
                n,
            )).yields() is Pending,
        joined.fate().step_n((joined.fate().steps()->Some_0 - 1) as nat).yields()
            == Outcome::Ready(joined.futures().aggregate(&joined.outputs())),
{
    let slots = slot_paces::<Fs>(joined.completion(), joined.futures());
    assert forall|i: int| 0 <= i < slots.len() implies slots[i] == joined.futures().pace(i) by {
        assert(!joined.completion()@[i]);
    }
    assert forall|i: int| 0 <= i < slots.len() implies slots[i] is After by {
        assert(joined.futures().pace(i) is After);
    }
    if Fs::arity() > 0 {
        assert(!joined.completion()@[0]);
    }
    assert forall|i: int| 0 <= i < Fs::arity() implies joined.completion()@[i] == Fs::written(
        &joined.outputs(),
        i,
    ) by {
        assert(!joined.completion()@[i]);
    }
    assert forall|i: int| 0 <= i < Fs::arity() implies joined.completion()@[i]
        || (#[trigger] joined.futures().pace(i)).live() by {
        assert(joined.futures().pace(i) is After);
    }
    assert(coherent::<Fs>(joined.completion(), joined.futures(), joined.outputs()));
    lemma_longest_wait_is_max(slots);
    assert forall|i: int| 0 <= i < Fs::arity() implies (#[trigger] joined.futures().pace(
        i,
    )).steps()->Some_0 <= joined.fate().steps()->Some_0 by {
        assert(slots[i] == joined.futures().pace(i));
    }
    if Fs::arity() > 0 {
        let i = choose|i: int|
            0 <= i < slots.len() && (#[trigger] slots[i])->After_0 == longest_wait(slots);
        assert(slots[i] == joined.futures().pace(i));
        assert(joined.futures().pace(i).steps() == joined.fate().steps());
    }
    let fate = joined.fate();
    assert forall|n: nat| n + 1 < fate.steps()->Some_0 implies (#[trigger] fate.step_n(
        n,
    )).yields() is Pending by {
        lemma_resolves_on_time(fate, n);
    }
    lemma_resolves_on_time(fate, fate->After_0);
}

/// A join without participants resolves to the empty aggregate on its very
/// first drive.
pub proof fn lemma_empty_join_resolves_at_once(joined: JoinFuture<()>)
    requires
        !joined.consumed(),
    ensures
        joined.fate().yields() == Outcome::Ready(()),
        joined.fate().step() is Spent,
{
    let slots = slot_paces::<()>(joined.completion(), joined.futures());
    assert(slots.len() == 0);
    assert(coherent::<()>(joined.completion(), joined.futures(), joined.outputs()));
}

} // verus!
