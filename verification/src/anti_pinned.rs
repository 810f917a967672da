//! A minimal wrapper that marks its content as free to relocate.

use vstd::prelude::*;

verus! {

/// A minimal wrapper that presents its content as free to relocate, whatever
/// the content itself asks for.
///
/// Wrapper and content are interchangeable unless pinned: wrapping and
/// unwrapping relabel the same value and change nothing else.
#[derive(Debug, Clone, Copy, PartialEq, Eq, PartialOrd, Ord, Hash)]
pub struct AntiPinned<T>(pub T);

/// The wrapper is free to relocate whether or not its content is: nothing
/// but the wrapper itself ever hands the content out as address-fixed.
impl<T> Unpin for AntiPinned<T> {

}

impl<T> AntiPinned<T> {
    /// Gives plain exclusive access to the content of this wrapper, pinned or
    /// not.
    #[must_use]
    pub fn as_unpinned(&mut self) -> (content: &mut T)
        ensures
            *content == old(self).0,
            final(self).0 == *final(content),
    {
        &mut self.0
    }
}

impl<T> From<T> for AntiPinned<T> {
    fn from(value: T) -> (wrapper: Self) {
        AntiPinned(value)
    }
}

impl<T> vstd::std_specs::convert::FromSpecImpl<T> for AntiPinned<T> {
    open spec fn obeys_from_spec() -> bool {
        true
    }

    open spec fn from_spec(value: T) -> Self {
        AntiPinned(value)
    }
}

impl<T> AntiPinned<T> {
    /// The wrapper around `value`.
    pub open spec fn wrapped(value: T) -> Self {
        AntiPinned(value)
    }

    /// Wraps `value`.
    #[must_use]
    pub fn wrap(value: T) -> (wrapper: Self)
        ensures
            wrapper == Self::wrapped(value),
    {
        AntiPinned(value)
    }

    /// Takes the content out of the wrapper. This is for a wrapper that no
    /// one has pinned yet, or for content that does not care where it lives.
    #[must_use]
    pub fn unwrap(self) -> (value: T)
        ensures
            value == self.0,
    {
        self.0
    }

    /// Wraps a boxed value.
    #[must_use]
    pub fn wrap_boxed(boxed: Box<T>) -> (wrapper: Box<Self>)
        ensures
            *wrapper == Self::wrapped(*boxed),
    {
        Box::new(AntiPinned(*boxed))
    }

    /// Unwraps a boxed wrapper.
    #[must_use]
    pub fn unwrap_boxed(boxed: Box<Self>) -> (value: Box<T>)
        ensures
            *value == boxed.0,
    {
        Box::new((*boxed).0)
    }
}

impl<T> AntiPinned<T> {
    /// Unwraps a boxed wrapper that has been pinned.
    ///
    /// This is a sharp edge: from here on the content can never be relocated
    /// again, although its type no longer says so.
    #[must_use]
    pub fn unwrap_pinned_boxed(boxed: Box<Self>) -> (value: Box<T>)
        ensures
            *value == boxed.0,
    {
        Box::new((*boxed).0)
    }
}

/// Wrapping a value, unwrapping it and wrapping it again gives the wrapper
/// that the first wrapping gave, and the value comes back unchanged.
pub proof fn lemma_wrap_unwrap_wrap<T>(value: T)
    ensures
        AntiPinned::wrapped(AntiPinned::wrapped(value).0) == AntiPinned::wrapped(value),
        AntiPinned::wrapped(value).0 == value,
{
}

} // verus!
