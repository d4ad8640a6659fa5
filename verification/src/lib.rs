//! Tell, while walking a peekable iterator, whether the element just produced
//! was the final one.
//!
//! [`IterPeekEnd`] adds `is_last()` and `is_not_last()` to an iterator that
//! can look one element ahead, such as `std::iter::Peekable`. Both answer
//! from the elements still to come and leave the position where it is, which
//! makes them handy for work done between the elements of a walk: a
//! separator after every element but the final one.
//!
//! The laws that follow from the two contracts, over whole walks, are in
//! [`traversal`]; what is taken on trust of `Peekable` is in [`peekable`].

use std::iter::Peekable;
use vstd::prelude::*;
use vstd::std_specs::iter::IteratorSpec;

pub mod peekable;
pub mod traversal;

use crate::traversal::at_end;

verus! {

/// `is_last()` and `is_not_last()` on an iterator with one element of
/// look-ahead.
///
/// The contracts speak of an iterator that keeps to the iteration laws
/// (`obeys_prophetic_iter_laws`), by the elements it has yet to produce
/// (`remaining`): neither call changes them, and the answer goes by whether
/// there are any. Of an iterator that does not keep to the laws, the
/// contracts say only that a call leaves it so.
pub trait IterPeekEnd: Iterator {
    /// True if the element produced most recently was the final one, which
    /// is to say that nothing is left to produce. Before the first element
    /// this is true only of an empty iterator.
    fn is_last(&mut self) -> (last: bool)
        ensures
            (*final(self)).obeys_prophetic_iter_laws() == (*old(self)).obeys_prophetic_iter_laws(),
            (*old(self)).obeys_prophetic_iter_laws() ==> {
                &&& (*final(self)).remaining() == (*old(self)).remaining()
                &&& last == at_end((*old(self)).remaining())
            },
    ;

    /// True if an element is left to produce: always the opposite of
    /// `is_last()` at the same position.
    fn is_not_last(&mut self) -> (more: bool)
        ensures
            (*final(self)).obeys_prophetic_iter_laws() == (*old(self)).obeys_prophetic_iter_laws(),
            (*old(self)).obeys_prophetic_iter_laws() ==> {
                &&& (*final(self)).remaining() == (*old(self)).remaining()
                &&& more == !at_end((*old(self)).remaining())
            },
    {
        !self.is_last()
    }
}

impl<I: Iterator> IterPeekEnd for Peekable<I> {
    /// Nothing is left exactly when a look ahead finds nothing.
    fn is_last(&mut self) -> (last: bool) {
        self.peek().is_none()
    }
}

} // verus!
