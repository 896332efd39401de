//! Small operations on vectors that move their elements.

use vstd::prelude::*;

verus! {

/// The elements in reverse order.
pub(crate) fn reversed<T>(items: Vec<T>) -> (turned: Vec<T>)
    ensures
        turned@ == items@.reverse(),
{
    let ghost given = items@;
    let mut items = items;
    let mut turned: Vec<T> = Vec::new();
    while items.len() > 0
        invariant
            items@ == given.take(items@.len() as int),
            items@.len() <= given.len(),
            turned@.len() == given.len() - items@.len(),
            forall|i: int| 0 <= i < turned@.len() ==> turned@[i] == given[given.len() - 1 - i],
        decreases items@.len(),
    {
        let ghost from = items@.len() - 1;
        let item = items.pop().unwrap();
        assert(items@ =~= given.take(from));
        turned.push(item);
    }
    assert(turned@ =~= given.reverse());
    turned
}

/// The pairs of the elements of two vectors of the same length, place by
/// place.
pub(crate) fn zip<A, B>(first: Vec<A>, second: Vec<B>) -> (pairs: Vec<(A, B)>)
    requires
        first@.len() == second@.len(),
    ensures
        pairs@.len() == first@.len(),
        forall|i: int| 0 <= i < pairs@.len() ==> #[trigger] pairs@[i] == (first@[i], second@[i]),
{
    let ghost total = first@.len();
    let ghost firsts = first@;
    let ghost seconds = second@;
    let mut first = first;
    let mut second = second;
    let mut turned: Vec<(A, B)> = Vec::new();
    while first.len() > 0
        invariant
            first@.len() == second@.len(),
            first@ == firsts.take(first@.len() as int),
            second@ == seconds.take(second@.len() as int),
            first@.len() <= total,
            firsts.len() == total,
            seconds.len() == total,
            turned@.len() == total - first@.len(),
            forall|i: int|
                0 <= i < turned@.len() ==> #[trigger] turned@[i] == (
                    firsts[total - 1 - i],
                    seconds[total - 1 - i],
                ),
        decreases first@.len(),
    {
        let ghost from = first@.len() - 1;
        let a = first.pop().unwrap();
        let b = second.pop().unwrap();
        assert(first@ =~= firsts.take(from));
        assert(second@ =~= seconds.take(from));
        turned.push((a, b));
    }
    let pairs = reversed(turned);
    pairs
}

} // verus!
