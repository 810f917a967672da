use std::task::{Context, Waker};

use unpin_choices::any_future::{any, AnyFuture};
use unpin_choices::computation::{Computation, Outcome, Scripted};
use unpin_choices::if_ready::if_ready;
use unpin_choices::join_future::{join, JoinFuture};
use unpin_choices::ready_or_never::ready_or_never;

#[test]
fn scripted_follows_its_script() {
    let mut cx = Context::from_waker(Waker::noop());
    let mut script = Scripted::after(2, 5u32);
    assert_eq!(script.advance(&mut cx), Outcome::Pending);
    assert_eq!(script.advance(&mut cx), Outcome::Pending);
    assert_eq!(script.advance(&mut cx), Outcome::Ready(5));
    let mut never = Scripted::<u32>::never();
    for _ in 0..100 {
        assert_eq!(never.advance(&mut cx), Outcome::Pending);
    }
    let mut ready = Scripted::ready(9u8);
    assert_eq!(ready.advance(&mut cx), Outcome::Ready(9));
}

#[test]
fn join_completes_with_the_slowest_participant() {
    let mut cx = Context::from_waker(Waker::noop());
    // Participants need 3 and 1 drives: the join needs max(3, 1) = 3.
    let mut joined = join((Scripted::after(2, 10u32), Scripted::ready("b")));
    assert_eq!(joined.advance(&mut cx), Outcome::Pending);
    assert_eq!(joined.advance(&mut cx), Outcome::Pending);
    assert_eq!(joined.advance(&mut cx), Outcome::Ready((10, "b")));
}

#[test]
fn join_keeps_slot_order() {
    let mut cx = Context::from_waker(Waker::noop());
    // The second slot resolves first; the aggregate keeps construction order.
    let mut joined = join((Scripted::after(1, 1u8), Scripted::after(0, 2u64)));
    assert_eq!(joined.advance(&mut cx), Outcome::Pending);
    assert_eq!(joined.advance(&mut cx), Outcome::Ready((1, 2)));
}

#[test]
fn join_of_both_ready_resolves_on_first_advance() {
    let mut cx = Context::from_waker(Waker::noop());
    let mut joined = JoinFuture::new((Scripted::ready(1i32), Scripted::ready(2i32)));
    assert_eq!(joined.advance(&mut cx), Outcome::Ready((1, 2)));
}

#[test]
fn join_of_one() {
    let mut cx = Context::from_waker(Waker::noop());
    let mut joined = join((Scripted::after(1, 'x'),));
    assert_eq!(joined.advance(&mut cx), Outcome::Pending);
    assert_eq!(joined.advance(&mut cx), Outcome::Ready(('x',)));
}

#[test]
fn join_of_none_resolves_on_first_advance() {
    let mut cx = Context::from_waker(Waker::noop());
    let mut joined = join(());
    assert_eq!(joined.advance(&mut cx), Outcome::Ready(()));
}

#[test]
fn join_with_a_participant_that_never_resolves_stays_pending() {
    let mut cx = Context::from_waker(Waker::noop());
    let mut joined = join((Scripted::ready(1u32), Scripted::<u32>::never()));
    for _ in 0..50 {
        assert_eq!(joined.advance(&mut cx), Outcome::Pending);
    }
}

#[test]
fn race_of_none_never_resolves() {
    let mut cx = Context::from_waker(Waker::noop());
    let mut race = any(());
    for _ in 0..1000 {
        assert!(matches!(race.advance(&mut cx), Outcome::Pending));
    }
    let mut race = any(Vec::<Scripted<u32>>::new());
    for _ in 0..1000 {
        assert_eq!(race.advance(&mut cx), Outcome::Pending);
    }
    let empty: [Scripted<u32>; 0] = [];
    let mut race = any(empty);
    for _ in 0..1000 {
        assert_eq!(race.advance(&mut cx), Outcome::Pending);
    }
}

#[test]
fn race_yields_the_first_ready_participant() {
    let mut cx = Context::from_waker(Waker::noop());
    let mut race = any([Scripted::after(2, 10u32), Scripted::ready(20)]);
    assert_eq!(race.advance(&mut cx), Outcome::Ready(20));
}

#[test]
fn race_over_a_vec_yields_the_first_ready_participant() {
    let mut cx = Context::from_waker(Waker::noop());
    let mut race = any(vec![Scripted::after(2, 10u32), Scripted::ready(20)]);
    assert_eq!(race.advance(&mut cx), Outcome::Ready(20));
}

#[test]
fn race_over_a_pair_yields_the_first_ready_participant() {
    let mut cx = Context::from_waker(Waker::noop());
    let mut race = any((Scripted::after(2, 10u32), Scripted::ready(20u32)));
    assert_eq!(race.advance(&mut cx), Outcome::Ready(20));
    let mut race = any((Scripted::ready(1u32), Scripted::ready(2u32)));
    assert_eq!(race.advance(&mut cx), Outcome::Ready(1));
    let mut race = any((Scripted::after(1, 3u32),));
    assert_eq!(race.advance(&mut cx), Outcome::Pending);
    assert_eq!(race.advance(&mut cx), Outcome::Ready(3));
}

#[test]
fn race_prefers_the_lowest_index_among_the_ready() {
    let mut cx = Context::from_waker(Waker::noop());
    let mut race = any([Scripted::after(1, 1u32), Scripted::after(1, 2), Scripted::after(1, 3)]);
    assert_eq!(race.advance(&mut cx), Outcome::Pending);
    assert_eq!(race.advance(&mut cx), Outcome::Ready(1));
}

#[test]
fn race_resolves_in_the_round_of_the_fastest() {
    let mut cx = Context::from_waker(Waker::noop());
    let mut race =
        AnyFuture::new(vec![Scripted::never(), Scripted::after(3, 30u8), Scripted::after(2, 20)]);
    assert_eq!(race.advance(&mut cx), Outcome::Pending);
    assert_eq!(race.advance(&mut cx), Outcome::Pending);
    assert_eq!(race.advance(&mut cx), Outcome::Ready(20));
}

#[test]
fn boxed_race() {
    let mut cx = Context::from_waker(Waker::noop());
    let mut race = AnyFuture::new_boxed(Box::new([Scripted::after(1, 4u32), Scripted::never()]));
    assert_eq!(race.advance(&mut cx), Outcome::Pending);
    assert_eq!(race.advance(&mut cx), Outcome::Ready(4));
}

#[test]
fn poll_once_on_ready_yields_some() {
    let mut cx = Context::from_waker(Waker::noop());
    let mut once = if_ready(Scripted::ready(7u32));
    assert_eq!(once.advance(&mut cx), Outcome::Ready(Some(7)));
}

#[test]
fn poll_once_on_pending_yields_none() {
    let mut cx = Context::from_waker(Waker::noop());
    let mut once = if_ready(Scripted::after(1, 7u32));
    assert_eq!(once.advance(&mut cx), Outcome::Ready(None));
    let mut once = if_ready(Scripted::<u32>::never());
    assert_eq!(once.advance(&mut cx), Outcome::Ready(None));
}

#[test]
fn ready_or_never_on_ready_yields_the_value() {
    let mut cx = Context::from_waker(Waker::noop());
    let mut adaptor = ready_or_never(Scripted::ready(7u32));
    assert_eq!(adaptor.advance(&mut cx), Outcome::Ready(7));
}

#[test]
fn ready_or_never_on_pending_stays_pending() {
    let mut cx = Context::from_waker(Waker::noop());
    // The inner computation would be ready on its second drive; it never
    // gets one.
    let mut adaptor = ready_or_never(Scripted::after(1, 7u32));
    for _ in 0..1000 {
        assert_eq!(adaptor.advance(&mut cx), Outcome::Pending);
    }
}

#[test]
fn combinators_compose() {
    let mut cx = Context::from_waker(Waker::noop());
    let mut joined = join((
        any([Scripted::after(3, 1u32), Scripted::after(1, 2)]),
        if_ready(Scripted::after(5, 9u8)),
    ));
    assert_eq!(joined.advance(&mut cx), Outcome::Pending);
    assert_eq!(joined.advance(&mut cx), Outcome::Ready((2, None)));
}
