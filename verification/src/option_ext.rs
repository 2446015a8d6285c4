//! Two small additions to `Option`.

use vstd::prelude::*;

verus! {

/// Keeps the value of an option only where a predicate accepts it.
pub trait FilterOption<T>: Sized {
    /// The option that `self` is.
    spec fn option(self) -> Option<T>;

    fn filter_opt<F: FnOnce(&T) -> bool>(self, f: F) -> (kept: Option<T>)
        requires
            self.option() matches Some(v) ==> call_requires(f, (&v,)),
        ensures
            match self.option() {
                Some(v) => call_ensures(f, (&v,), kept is Some) && (kept is Some ==> kept == Some(v)),
                None => kept is None,
            },
    ;
}

impl<T> FilterOption<T> for Option<T> {
    open spec fn option(self) -> Option<T> {
        self
    }

    #[inline(always)]
    fn filter_opt<F: FnOnce(&T) -> bool>(self, f: F) -> (kept: Option<T>) {
        match self {
            Some(v) => if f(&v) {
                Some(v)
            } else {
                None
            },
            None => None,
        }
    }
}

/// Replaces a missing value by the default of its type.
pub trait OrDefault<T: Default>: Sized {
    /// The option that `self` is.
    spec fn option(self) -> Option<T>;

    fn or_default(self) -> (value: T)
        ensures
            match self.option() {
                Some(v) => value == v,
                None => call_ensures(T::default, (), value),
            },
    ;
}

impl<T: Default> OrDefault<T> for Option<T> {
    open spec fn option(self) -> Option<T> {
        self
    }

    fn or_default(self) -> (value: T) {
        match self {
            Some(v) => v,
            None => T::default(),
        }
    }
}

} // verus!
