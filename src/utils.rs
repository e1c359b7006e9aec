//! Small helpers: an id source and list concatenation.
#![allow(non_snake_case)]

use vstd::prelude::*;

verus! {

/// Hands out the counter's value and advances it (wrapping past the largest value).
pub fn uniqId(counter: &mut usize) -> (r: usize)
    ensures
        r == *old(counter),
        *final(counter) == if *old(counter) == usize::MAX {
            0
        } else {
            (*old(counter) + 1) as usize
        },
{
    let r = *counter;
    if *counter == usize::MAX {
        *counter = 0;
    } else {
        *counter = *counter + 1;
    }
    r
}

/// `left` followed by `right`.
pub fn concat<T>(left: Vec<T>, right: Vec<T>) -> (r: Vec<T>)
    ensures
        r@ == left@ + right@,
{
    let mut l = left;
    let mut rr = right;
    l.append(&mut rr);
    l
}

} // verus!
