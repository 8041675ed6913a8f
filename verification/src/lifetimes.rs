//! Functions and a pair type whose results borrow from their arguments.

use vstd::prelude::*;

verus! {

/// The item at position `n` of `data`, borrowed for as long as `data` is.
pub fn nth_item<'a>(data: &'a [usize], n: &usize) -> (item: &'a usize)
    requires
        *n < data@.len(),
    ensures
        *item == data@[*n as int],
{
    &data[*n]
}

/// Adds the first item of `data` to `n` in place and hands the reference
/// back.
pub fn increased_by_first_item<'b>(data: &[usize], n: &'b mut usize) -> (increased: &'b mut usize)
    requires
        data@.len() > 0,
        *old(n) + data@[0] <= usize::MAX,
    ensures
        *increased == *old(n) + data@[0],
        *final(n) == *final(increased),
{
    *n += data[0];
    n
}

/// Two borrowed values, each with a lifetime of its own.
pub struct TwoValues<'a, 'b> {
    first: &'a usize,
    second: &'b usize,
}

impl<'a, 'b> View for TwoValues<'a, 'b> {
    type V = (usize, usize);

    /// The two values, first and second.
    closed spec fn view(&self) -> (usize, usize) {
        (*self.first, *self.second)
    }
}

impl<'a, 'b> TwoValues<'a, 'b> {
    /// A pair of the two values given.
    pub fn new(first: &'a usize, second: &'b usize) -> (pair: Self)
        ensures
            pair@ == (*first, *second),
    {
        Self { first, second }
    }

    /// The first value, borrowed for as long as it was when the pair was made.
    pub fn get_first(&self) -> (first: &'a usize)
        ensures
            *first == self@.0,
    {
        self.first
    }

    /// The second value, borrowed for as long as it was when the pair was made.
    pub fn get_second(&self) -> (second: &'b usize)
        ensures
            *second == self@.1,
    {
        self.second
    }
}

} // verus!
