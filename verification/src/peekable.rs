//! What is taken on trust of `std::iter::Peekable`.

use std::iter::Peekable;
use vstd::prelude::*;
use vstd::std_specs::iter::IteratorSpec;

verus! {

/// `std::iter::Peekable`, carried through as an opaque value.
#[verifier::external_type_specification]
#[verifier::external_body]
#[verifier::reject_recursive_types(I)]
pub struct ExPeekable<I: Iterator>(Peekable<I>);

/// `Peekable::peek` returns a reference to the value that `next` would
/// return, without advancing the iterator. Stated of an iterator that keeps
/// to the iteration laws: the elements still to come are the same after the
/// call as before it, and the result is the first of them, or `None` where
/// there is none. Whether the iterator keeps to the laws is not changed by
/// the call. Nothing is claimed of the result on an iterator that does not.
pub assume_specification<I: Iterator>[ Peekable::<I>::peek ](it: &mut Peekable<I>) -> (head:
    Option<&I::Item>)
    ensures
        (*final(it)).obeys_prophetic_iter_laws() == (*old(it)).obeys_prophetic_iter_laws(),
        (*old(it)).obeys_prophetic_iter_laws() ==> {
            &&& (*final(it)).remaining() == (*old(it)).remaining()
            &&& match head {
                Some(item) => {
                    &&& (*old(it)).remaining().len() > 0
                    &&& *item == (*old(it)).remaining()[0]
                },
                None => (*old(it)).remaining().len() == 0,
            }
        },
;

} // verus!
