//! Walks over a cursor: the calls made on it, one after the other, and what
//! each of them returns.
//!
//! A cursor that keeps to the iteration laws stands, at any moment, at a
//! position: so many of its elements have been asked for, and the rest are
//! still to come. The laws below hold of every type that has
//! [`IterPeekEnd`]. They are stated over the contracts of `next`, `is_last`
//! and `is_not_last`: `call_ensures(T::is_last, (cursor,), last)` says that a
//! call of `is_last` which takes the cursor as `*cursor` and leaves it as
//! `*final(cursor)` may return `last`.

use crate::IterPeekEnd;
use vstd::prelude::*;
use vstd::std_specs::iter::IteratorSpec;

verus! {

/// Nothing is pending: the element produced most recently was the final one,
/// or there never was an element.
pub open spec fn at_end<T>(pending: Seq<T>) -> bool {
    pending.len() == 0
}

/// What is pending of `elements` once `asked` elements have been asked for:
/// that many are gone from the front, and all of them once `asked` reaches
/// the length.
pub open spec fn pending_after<T>(elements: Seq<T>, asked: nat) -> Seq<T> {
    if asked <= elements.len() {
        elements.skip(asked as int)
    } else {
        Seq::empty()
    }
}

/// One call made on a cursor, with what it returned.
pub enum Call<T> {
    Next(Option<T>),
    IsLast(bool),
    IsNotLast(bool),
}

/// What `call` has to return on a cursor over `elements` of which `asked`
/// have been asked for already.
pub open spec fn answers<T>(call: Call<T>, elements: Seq<T>, asked: nat) -> bool {
    match call {
        Call::Next(item) => item == if asked < elements.len() {
            Some(elements[asked as int])
        } else {
            None
        },
        Call::IsLast(last) => last == (asked >= elements.len()),
        Call::IsNotLast(more) => more == (asked < elements.len()),
    }
}

/// How many of the calls before the one at `index` asked for an element.
pub open spec fn asked_before<T>(calls: Seq<Call<T>>, index: int) -> nat
    decreases index,
{
    if index <= 0 {
        0
    } else {
        asked_before(calls, index - 1) + if calls[index - 1] is Next {
            1nat
        } else {
            0nat
        }
    }
}

/// The call at `index` of a walk: where it starts, what it returns and where
/// it ends.
proof fn lemma_walk_at<T: IterPeekEnd>(
    cursors: Seq<&mut T>,
    calls: Seq<Call<T::Item>>,
    elements: Seq<T::Item>,
    index: int,
)
    requires
        cursors.len() == calls.len(),
        0 <= index < calls.len(),
        (*cursors[0]).obeys_prophetic_iter_laws(),
        (*cursors[0]).remaining() == elements,
        forall|i: int| 0 < i < cursors.len() ==> *(#[trigger] cursors[i]) == *final(cursors[i - 1]),
        forall|i: int|
            0 <= i < calls.len() ==> match #[trigger] calls[i] {
                Call::Next(item) => call_ensures(T::next, (cursors[i],), item),
                Call::IsLast(last) => call_ensures(T::is_last, (cursors[i],), last),
                Call::IsNotLast(more) => call_ensures(T::is_not_last, (cursors[i],), more),
            },
    ensures
        (*cursors[index]).obeys_prophetic_iter_laws(),
        (*cursors[index]).remaining() == pending_after(elements, asked_before(calls, index)),
        answers(calls[index], elements, asked_before(calls, index)),
        (*final(cursors[index])).obeys_prophetic_iter_laws(),
        (*final(cursors[index])).remaining() == pending_after(
            elements,
            asked_before(calls, index + 1),
        ),
    decreases index,
{
    let asked = asked_before(calls, index);
    if index == 0 {
        assert(elements.skip(0) =~= elements);
    } else {
        lemma_walk_at(cursors, calls, elements, index - 1);
        assert(*cursors[index] == *final(cursors[index - 1]));
    }
    let pending = pending_after(elements, asked);
    assert(asked_before(calls, index + 1) == asked + if calls[index] is Next {
        1nat
    } else {
        0nat
    });
    if calls[index] is Next && pending.len() > 0 {
        assert(pending.drop_first() =~= pending_after(elements, asked + 1));
    }
}

/// Every call of a walk returns what its position says, where the position
/// is the number of elements asked for so far: `next` hands out the elements
/// in order and then `None`; `is_last` is false while fewer elements have
/// been asked for than there were, and true from the moment the final one
/// has been produced, however many more are asked for; `is_not_last` is its
/// opposite throughout. Only `next` moves the position.
///
/// `cursors[i]` is the cursor as the call `calls[i]` takes and leaves it.
/// Each call starts where the one before it ended, and the walk starts on a
/// cursor that keeps to the iteration laws with `elements` still to come.
pub proof fn lemma_walk_answers<T: IterPeekEnd>(
    cursors: Seq<&mut T>,
    calls: Seq<Call<T::Item>>,
    elements: Seq<T::Item>,
)
    requires
        cursors.len() == calls.len(),
        calls.len() > 0 ==> (*cursors[0]).obeys_prophetic_iter_laws() && (*cursors[0]).remaining()
            == elements,
        forall|i: int| 0 < i < cursors.len() ==> *(#[trigger] cursors[i]) == *final(cursors[i - 1]),
        forall|i: int|
            0 <= i < calls.len() ==> match #[trigger] calls[i] {
                Call::Next(item) => call_ensures(T::next, (cursors[i],), item),
                Call::IsLast(last) => call_ensures(T::is_last, (cursors[i],), last),
                Call::IsNotLast(more) => call_ensures(T::is_not_last, (cursors[i],), more),
            },
    ensures
        forall|i: int|
            0 <= i < calls.len() ==> answers(#[trigger] calls[i], elements, asked_before(calls, i)),
        forall|i: int|
            0 <= i < calls.len() ==> (*final(#[trigger] cursors[i])).remaining() == pending_after(
                elements,
                asked_before(calls, i + 1),
            ),
{
    assert forall|i: int| 0 <= i < calls.len() implies answers(
        #[trigger] calls[i],
        elements,
        asked_before(calls, i),
    ) by {
        lemma_walk_at(cursors, calls, elements, i);
    }
    assert forall|i: int| 0 <= i < calls.len() implies (*final(#[trigger] cursors[i])).remaining()
        == pending_after(elements, asked_before(calls, i + 1)) by {
        lemma_walk_at(cursors, calls, elements, i);
    }
}

/// On a cursor with nothing to produce, `is_last` is true from the start and
/// stays true, `is_not_last` false, whatever calls are made; `next` only
/// ever returns `None`.
pub proof fn lemma_empty_walk_is_always_last<T: IterPeekEnd>(
    cursors: Seq<&mut T>,
    calls: Seq<Call<T::Item>>,
)
    requires
        cursors.len() == calls.len(),
        calls.len() > 0 ==> (*cursors[0]).obeys_prophetic_iter_laws() && (*cursors[0]).remaining().len()
            == 0,
        forall|i: int| 0 < i < cursors.len() ==> *(#[trigger] cursors[i]) == *final(cursors[i - 1]),
        forall|i: int|
            0 <= i < calls.len() ==> match #[trigger] calls[i] {
                Call::Next(item) => call_ensures(T::next, (cursors[i],), item),
                Call::IsLast(last) => call_ensures(T::is_last, (cursors[i],), last),
                Call::IsNotLast(more) => call_ensures(T::is_not_last, (cursors[i],), more),
            },
    ensures
        forall|i: int|
            0 <= i < calls.len() ==> match #[trigger] calls[i] {
                Call::Next(item) => item is None,
                Call::IsLast(last) => last,
                Call::IsNotLast(more) => !more,
            },
{
    if calls.len() > 0 {
        let elements = (*cursors[0]).remaining();
        lemma_walk_answers(cursors, calls, elements);
        assert forall|i: int| 0 <= i < calls.len() implies match #[trigger] calls[i] {
            Call::Next(item) => item is None,
            Call::IsLast(last) => last,
            Call::IsNotLast(more) => !more,
        } by {
            assert(answers(calls[i], elements, asked_before(calls, i)));
        }
    }
}

/// On a cursor with one element to produce, `is_last` is false before that
/// element is asked for and true after.
pub proof fn lemma_single_element_is_last_once_produced<T: IterPeekEnd>(
    before: &mut T,
    step: &mut T,
    after: &mut T,
    last_before: bool,
    item: Option<T::Item>,
    last_after: bool,
)
    requires
        (*old(before)).obeys_prophetic_iter_laws(),
        (*old(before)).remaining().len() == 1,
        call_ensures(T::is_last, (before,), last_before),
        *old(step) == *final(before),
        call_ensures(T::next, (step,), item),
        *old(after) == *final(step),
        call_ensures(T::is_last, (after,), last_after),
    ensures
        !last_before,
        item == Some((*old(before)).remaining()[0]),
        last_after,
{
}

/// Two calls of `is_last` in a row, with no element asked for in between,
/// return the same, and the position after them is the one before them.
pub proof fn lemma_is_last_repeats<T: IterPeekEnd>(
    first_call: &mut T,
    second_call: &mut T,
    first: bool,
    second: bool,
)
    requires
        (*old(first_call)).obeys_prophetic_iter_laws(),
        call_ensures(T::is_last, (first_call,), first),
        *old(second_call) == *final(first_call),
        call_ensures(T::is_last, (second_call,), second),
    ensures
        first == second,
        (*final(second_call)).remaining() == (*old(first_call)).remaining(),
{
}

/// At one position `is_not_last` returns the opposite of `is_last`,
/// whichever of the two is called first.
pub proof fn lemma_not_last_negates_last<T: IterPeekEnd>(
    first_call: &mut T,
    second_call: &mut T,
    last: bool,
    more: bool,
)
    requires
        (*old(first_call)).obeys_prophetic_iter_laws(),
        *old(second_call) == *final(first_call),
        ({
            &&& call_ensures(T::is_last, (first_call,), last)
            &&& call_ensures(T::is_not_last, (second_call,), more)
        }) || ({
            &&& call_ensures(T::is_not_last, (first_call,), more)
            &&& call_ensures(T::is_last, (second_call,), last)
        }),
    ensures
        more == !last,
{
}

} // verus!
