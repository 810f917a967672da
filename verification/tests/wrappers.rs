use unpin_choices::anti_pinned::AntiPinned;
use unpin_choices::completion::CompletionSet;
use unpin_choices::pinned_pin::PinnedPin;

#[test]
fn wrap_unwrap_wrap_reproduces_the_wrapper() {
    let first = AntiPinned::wrap(vec![1u8, 2, 3]);
    let copy = first.clone();
    let again = AntiPinned::wrap(first.unwrap());
    assert_eq!(again, copy);
    assert_eq!(again.0, vec![1, 2, 3]);
    let pinned = PinnedPin::wrap("content");
    assert_eq!(PinnedPin::wrap(pinned.unwrap()), pinned);
}

#[test]
fn boxed_conversions_keep_the_content() {
    let boxed = AntiPinned::wrap_boxed(Box::new(5u32));
    assert_eq!(*boxed, AntiPinned(5));
    assert_eq!(*AntiPinned::unwrap_boxed(boxed), 5);
    assert_eq!(*AntiPinned::unwrap_pinned_boxed(Box::new(AntiPinned(6u8))), 6);
    let boxed = PinnedPin::wrap_boxed(Box::new(7u32));
    assert_eq!(*boxed, PinnedPin(7));
    assert_eq!(*PinnedPin::unwrap_boxed(boxed), 7);
}

#[test]
fn accessors_reach_the_content() {
    let mut relocatable = AntiPinned(1u32);
    *relocatable.as_unpinned() = 2;
    assert_eq!(relocatable.0, 2);
    let mut fixed = PinnedPin(3u32);
    assert_eq!(*fixed.as_pinned(), 3);
    *fixed.as_mut_pinned() = 4;
    assert_eq!(fixed.0, 4);
}

#[test]
fn array_items_by_index() {
    let mut items = PinnedPin([10u32, 20, 30]);
    assert_eq!(items.get(0), Some(&10));
    assert_eq!(items.get(2), Some(&30));
    assert_eq!(items.get(3), None);
    assert_eq!(*items.get_unchecked(1), 20);
    assert!(items.get_mut(3).is_none());
    *items.get_mut(1).unwrap() = 21;
    *items.get_unchecked_mut(2) = 31;
    assert_eq!(items.0, [10, 21, 31]);
    assert_eq!(items.as_pinned_slice(), &[10, 21, 31][..]);
    items.as_pinned_mut_slice()[0] = 11;
    assert_eq!(items.0, [11, 21, 31]);
}

#[test]
fn vec_items_by_index() {
    let mut items = PinnedPin(vec![10u32, 20, 30]);
    assert_eq!(items.get(0), Some(&10));
    assert_eq!(items.get(3), None);
    assert_eq!(*items.get_unchecked(1), 20);
    assert!(items.get_mut(3).is_none());
    *items.get_mut(1).unwrap() = 21;
    *items.get_unchecked_mut(2) = 31;
    assert_eq!(items.0, vec![10, 21, 31]);
    assert_eq!(items.as_pinned_slice(), &[10, 21, 31][..]);
    items.as_pinned_mut_slice()[0] = 11;
    assert_eq!(items.0, vec![11, 21, 31]);
    let empty = PinnedPin(Vec::<u8>::new());
    assert_eq!(empty.get(0), None);
}

#[test]
fn iterator_walks_from_both_ends() {
    let items = PinnedPin([1u8, 2, 3, 4]);
    let mut iter = items.iter();
    assert_eq!(iter.size_hint(), (4, Some(4)));
    assert_eq!(iter.next(), Some(&1));
    assert_eq!(iter.next_back(), Some(&4));
    assert_eq!(iter.size_hint(), (2, Some(2)));
    assert_eq!(iter.next_back(), Some(&3));
    assert_eq!(iter.next(), Some(&2));
    assert_eq!(iter.size_hint(), (0, Some(0)));
    assert_eq!(iter.next(), None);
    assert_eq!(iter.next_back(), None);
    let items = PinnedPin(vec!['a', 'b']);
    let mut iter = items.iter();
    assert_eq!(iter.next(), Some(&'a'));
    assert_eq!(iter.next(), Some(&'b'));
    assert_eq!(iter.next(), None);
}

#[test]
fn completion_set_starts_empty_and_records_each_slot() {
    let mut set = CompletionSet::new();
    for i in 0..32 {
        assert!(!set.contains(i));
    }
    set.insert(0);
    set.insert(5);
    set.insert(31);
    for i in 0..32 {
        assert_eq!(set.contains(i), i == 0 || i == 5 || i == 31);
    }
}

#[test]
fn exclusive_iterator_hands_out_each_item_once() {
    let mut items = PinnedPin([1u8, 2, 3, 4]);
    let mut iter = items.iter_mut();
    assert_eq!(iter.size_hint(), (4, Some(4)));
    let first = iter.next().unwrap();
    let last = iter.next_back().unwrap();
    assert_eq!((*first, *last), (1, 4));
    *first = 10;
    *last = 40;
    assert_eq!(iter.size_hint(), (2, Some(2)));
    *iter.next().unwrap() += 20;
    *iter.next_back().unwrap() += 30;
    assert!(iter.next().is_none());
    assert!(iter.next_back().is_none());
    assert_eq!(iter.size_hint(), (0, Some(0)));
    assert_eq!(items.0, [10, 22, 33, 40]);
    let mut items = PinnedPin(vec![1u8, 2]);
    let mut iter = items.iter_mut();
    *iter.next().unwrap() = 5;
    assert_eq!(items.0, vec![5, 2]);
}

#[test]
fn from_wraps() {
    assert_eq!(AntiPinned::from(3u8), AntiPinned(3));
    assert_eq!(PinnedPin::from("x"), PinnedPin("x"));
    let wrapped: AntiPinned<u32> = 9.into();
    assert_eq!(wrapped.unwrap(), 9);
}
