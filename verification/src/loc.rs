//! A value together with the place in the source that it was read from.

use std::ops::Deref;
use vstd::prelude::*;
use vstd::std_specs::cmp::{PartialEqSpec, PartialEqSpecImpl};

verus! {

/// `item`, read from the characters `[start, end)` of the source. Two such
/// values are equal when their items are: where a value was read from is no
/// part of what it is.
#[derive(Debug, Eq, Clone)]
pub struct Loc<T> {
    pub start: usize,
    pub end: usize,
    pub item: T,
}

impl<T: Copy> Copy for Loc<T> {

}

impl<T> Deref for Loc<T> {
    type Target = T;

    fn deref(&self) -> (r: &T)
        ensures
            *r == self.item,
    {
        &self.item
    }
}

impl<T> Loc<T> {
    /// `item`, read from `[start, end)`.
    pub fn new(start: usize, end: usize, item: T) -> (loc: Self)
        ensures
            loc == (Loc { start, end, item }),
    {
        Loc { start, end, item }
    }

    /// The range lies within a source of `len` characters.
    pub open spec fn within(&self, len: nat) -> bool {
        self.start <= self.end <= len
    }
}

impl<T: PartialEq> PartialEq for Loc<T> {
    fn eq(&self, other: &Self) -> (r: bool) {
        self.item.eq(&other.item)
    }
}

impl<T: PartialEq> PartialEqSpecImpl for Loc<T> {
    open spec fn obeys_eq_spec() -> bool {
        T::obeys_eq_spec()
    }

    open spec fn eq_spec(&self, other: &Loc<T>) -> bool {
        self.item.eq_spec(&other.item)
    }
}

} // verus!
