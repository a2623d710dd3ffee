use vstd::prelude::*;
use vstd::std_specs::cmp::PartialEqSpec;

verus! {

/// A subscription filter for one dimension (origin or kind) of an `Event`.
///
/// `Bus::subscribe` takes two filters, one for the origin of an event and one
/// for its kind.
#[derive(Debug, PartialEq, Eq, Hash)]
pub enum Filter<T> {
    /// Matches any value; events pass this filter regardless of their value.
    Any,
    /// Matches only events whose origin or kind equals the wrapped value.
    Is(T),
}

impl<T> Filter<T> {
    /// Whether `value` passes this filter: always for `Any`, and for `Is(x)`
    /// exactly when `x == value` in the sense of `T`'s `PartialEq`.
    pub open spec fn admits(self, value: T) -> bool
        where T: PartialEq
    {
        match self {
            Filter::Any => true,
            Filter::Is(x) => x.eq_spec(&value),
        }
    }

    /// `self` is what cloning `src` gives: the same variant, with the wrapped
    /// value cloned.
    pub open spec fn is_clone_of(self, src: Filter<T>) -> bool
        where T: Clone
    {
        match (src, self) {
            (Filter::Any, Filter::Any) => true,
            (Filter::Is(a), Filter::Is(b)) => cloned::<T>(a, b),
            _ => false,
        }
    }

    /// Tests whether `value` passes this filter.
    pub fn matches(&self, value: &T) -> (r: bool)
        where T: PartialEq
        ensures
            self is Any ==> r,
            T::obeys_eq_spec() ==> r == self.admits(*value),
    {
        match self {
            Filter::Any => true,
            Filter::Is(x) => x.eq(value),
        }
    }
}

impl<T: Clone> Clone for Filter<T> {
    fn clone(&self) -> (r: Self)
        ensures
            r.is_clone_of(*self),
    {
        match self {
            Filter::Any => Filter::Any,
            Filter::Is(x) => Filter::Is(x.clone()),
        }
    }
}

impl<T> Default for Filter<T> {
    /// The default filter is `Any`.
    fn default() -> (r: Self)
        ensures
            r == Filter::<T>::Any,
    {
        Filter::Any
    }
}

} // verus!
