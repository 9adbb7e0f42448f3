//! Small operations on vectors.

use vstd::prelude::*;

verus! {

/// A new vector with the items of `items`.
pub fn copy_of<T: Copy>(items: &Vec<T>) -> (copy: Vec<T>)
    ensures
        copy@ == items@,
{
    let mut copy: Vec<T> = Vec::new();
    let mut i: usize = 0;
    while i < items.len()
        invariant
            i <= items@.len(),
            copy@ == items@.take(i as int),
        decreases items@.len() - i,
    {
        copy.push(items[i]);
        assert(copy@ =~= items@.take(i as int + 1));
        i += 1;
    }
    assert(items@.take(i as int) =~= items@);
    copy
}

} // verus!
