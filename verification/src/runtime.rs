//! Runtime helpers that code generated for a coroutine calls into.
//!
//! Locals that must not be serialized are wrapped in [`SkipSerde`]; after a
//! deserialize such a field is empty until it is [`SkipSerde::set`] again.
use vstd::prelude::*;

verus! {

/// Result of one `step` of a coroutine.
///
/// - `Ready`: the coroutine finished with this value
/// - `Pending`: suspended on a typed settle await
/// - `Effect`: suspended on an external call that the host performs
pub enum Step<T, E = core::convert::Infallible> {
    Ready(T),
    Pending,
    Effect(E),
}

/// Type ascription helper for `for` loops over arbitrary iterables: the identity.
pub fn iter<I: IntoIterator>(iterable: I) -> (r: I)
    ensures
        r == iterable,
{
    iterable
}

/// Type ascription helper for `if let` / `let … else` scrutinees: the identity.
pub fn val<T>(value: T) -> (r: T)
    ensures
        r == value,
{
    value
}

/// Like [`val`], plus a tuple of pattern-bound field types: the identity.
pub fn val_fields<T, Fields>(value: T) -> (r: T)
    ensures
        r == value,
{
    let _ = core::marker::PhantomData::<Fields>;
    value
}

/// Like [`iter`], plus field types for struct patterns in `for`: the identity.
pub fn iter_fields<I: IntoIterator, Fields>(iterable: I) -> (r: I)
    ensures
        r == iterable,
{
    let _ = core::marker::PhantomData::<Fields>;
    iterable
}

/// Type ascription helper for awaiting another coroutine: the identity.
pub fn call<C>(child: C) -> (r: C)
    ensures
        r == child,
{
    child
}

/// A value captured across an await that is left out of serialization.
///
/// Its view is the value it holds, or `None` while it needs rehydration.
pub struct SkipSerde<T> {
    value: Option<T>,
}

impl<T> View for SkipSerde<T> {
    type V = Option<T>;

    closed spec fn view(&self) -> Option<T> {
        self.value
    }
}

impl<T> SkipSerde<T> {
    /// A hydrated wrapper around `value`.
    pub fn new(value: T) -> (r: Self)
        ensures
            r@ == Some(value),
    {
        SkipSerde { value: Some(value) }
    }

    /// The held value, if any.
    pub fn get(&self) -> (r: Option<&T>)
        ensures
            match r {
                Some(v) => self@ == Some(*v),
                None => self@ is None,
            },
    {
        self.value.as_ref()
    }

    /// A mutable borrow of the held value, if any; writes through it land in `self`.
    pub fn get_mut(&mut self) -> (r: Option<&mut T>)
        ensures
            match r {
                Some(v) => old(self)@ == Some(*v) && final(self)@ == Some(*final(v)),
                None => old(self)@ is None && final(self)@ is None,
            },
    {
        self.value.as_mut()
    }

    /// True exactly when no value is held.
    pub fn needs_rehydration(&self) -> (r: bool)
        ensures
            r == (self@ is None),
    {
        self.value.is_none()
    }

    /// Hydrates the wrapper with `value`, replacing what it held.
    pub fn set(&mut self, value: T)
        ensures
            final(self)@ == Some(value),
    {
        self.value = Some(value);
    }

    /// The held value; the wrapper must be hydrated.
    pub fn deref(&self) -> (r: &T)
        requires
            self@ is Some,
        ensures
            self@ == Some(*r),
    {
        self.value.as_ref().unwrap()
    }

    /// A mutable borrow of the held value; the wrapper must be hydrated, and
    /// writes through the borrow land in `self`.
    pub fn deref_mut(&mut self) -> (r: &mut T)
        requires
            old(self)@ is Some,
        ensures
            old(self)@ == Some(*r),
            final(self)@ == Some(*final(r)),
    {
        self.value.as_mut().unwrap()
    }

    /// The held value, if any.
    pub fn into_inner(self) -> (r: Option<T>)
        ensures
            r == self@,
    {
        self.value
    }
}

impl<T> Default for SkipSerde<T> {
    /// The empty wrapper, as a skipped field is after a deserialize.
    fn default() -> (r: Self)
        ensures
            r@ is None,
    {
        SkipSerde { value: None }
    }
}

} // verus!
