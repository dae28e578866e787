//! Reaching two elements of one collection at once.

use vstd::prelude::*;

verus! {

/// Two different elements of `items`, both to be changed.
pub fn mut_two<T>(first: usize, second: usize, items: &mut Vec<T>) -> (pair: (&mut T, &mut T))
    requires
        first != second,
        first < old(items).len(),
        second < old(items).len(),
    ensures
        *pair.0 == old(items)[first as int],
        *pair.1 == old(items)[second as int],
        final(items)@ == old(items)@.update(first as int, *final(pair.0)).update(
            second as int,
            *final(pair.1),
        ),
{
    if first < second {
        let (head, tail) = items.as_mut_slice().split_at_mut(second);
        (&mut head[first], &mut tail[0])
    } else {
        let (head, tail) = items.as_mut_slice().split_at_mut(first);
        (&mut tail[0], &mut head[second])
    }
}

} // verus!
