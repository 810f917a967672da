//! A minimal wrapper that marks its content as address-fixed.

use vstd::prelude::*;

verus! {

/// A minimal wrapper that can pin its content.
///
/// Wrapper and content are interchangeable: wrapping and unwrapping relabel
/// the same value and change nothing else.
#[derive(Debug, Clone, Copy, PartialEq, Eq, PartialOrd, Ord, Hash)]
pub struct PinnedPin<T>(pub T);

impl<T> PinnedPin<T> {
    /// Gives shared access to the address-fixed content.
    #[must_use]
    pub fn as_pinned(&self) -> (content: &T)
        ensures
            *content == self.0,
    {
        &self.0
    }

    /// Gives exclusive access to the address-fixed content.
    #[must_use]
    pub fn as_mut_pinned(&mut self) -> (content: &mut T)
        ensures
            *content == old(self).0,
            final(self).0 == *final(content),
    {
        &mut self.0
    }
}

impl<T> From<T> for PinnedPin<T> {
    fn from(value: T) -> (wrapper: Self) {
        PinnedPin(value)
    }
}

impl<T> vstd::std_specs::convert::FromSpecImpl<T> for PinnedPin<T> {
    open spec fn obeys_from_spec() -> bool {
        true
    }

    open spec fn from_spec(value: T) -> Self {
        PinnedPin(value)
    }
}

impl<T> PinnedPin<T> {
    /// The wrapper around `value`.
    pub open spec fn wrapped(value: T) -> Self {
        PinnedPin(value)
    }

    /// Wraps `value`.
    #[must_use]
    pub fn wrap(value: T) -> (wrapper: Self)
        ensures
            wrapper == Self::wrapped(value),
    {
        PinnedPin(value)
    }

    /// Takes the content out of the wrapper. This is for a wrapper that no
    /// one has pinned yet, or for content that does not care where it lives.
    #[must_use]
    pub fn unwrap(self) -> (value: T)
        ensures
            value == self.0,
    {
        self.0
    }

    /// Wraps a boxed value.
    #[must_use]
    pub fn wrap_boxed(boxed: Box<T>) -> (wrapper: Box<Self>)
        ensures
            *wrapper == Self::wrapped(*boxed),
    {
        Box::new(PinnedPin(*boxed))
    }

    /// Unwraps a boxed wrapper.
    #[must_use]
    pub fn unwrap_boxed(boxed: Box<Self>) -> (value: Box<T>)
        ensures
            *value == boxed.0,
    {
        Box::new((*boxed).0)
    }
}

} // verus!
