//! Picking one element, or four parts, out of borrowed data.

use vstd::prelude::*;

verus! {

/// A mutable reference to one field of a pair: the first field when `b` is
/// false, the second when it is true.
pub fn f1(a: &mut (u32, u32), b: bool) -> (field: &mut u32)
    ensures
        *field == (if b {
            old(a).1
        } else {
            old(a).0
        }),
        *final(a) == (if b {
            (old(a).0, *final(field))
        } else {
            (*final(field), old(a).1)
        }),
{
    if !b {
        &mut a.0
    } else {
        &mut a.1
    }
}

/// A mutable reference to element `n` of a slice, counted from the front.
pub fn f2(a: &mut [u32], n: usize) -> (element: &mut u32)
    requires
        n < old(a)@.len(),
    ensures
        *element == old(a)@[n as int],
        final(a)@ == old(a)@.update(n as int, *final(element)),
{
    &mut a[n]
}

/// A mutable reference to element `n` of a slice, counted from the back.
pub fn f3(a: &mut [u32], n: usize) -> (element: &mut u32)
    requires
        n < old(a)@.len(),
    ensures
        *element == old(a)@[old(a)@.len() - 1 - n],
        final(a)@ == old(a)@.update(old(a)@.len() - 1 - n, *final(element)),
{
    &mut a[a.len() - 1 - n]
}

/// The length of part `k` (0 to 3) when `len` elements are split four ways.
///
/// Every part gets a quarter, rounded down. Of a remainder of one, part 0
/// gets it; of two, parts 0 and 2 get one each; of three, parts 0, 2 and 3.
pub open spec fn part_len(len: nat, k: nat) -> nat {
    let rest = len % 4;
    let extra: nat = if k == 0 {
        if rest >= 1 { 1 } else { 0 }
    } else if k == 2 {
        if rest >= 2 { 1 } else { 0 }
    } else if k == 3 {
        if rest >= 3 { 1 } else { 0 }
    } else {
        0
    };
    len / 4 + extra
}

/// Where part `k` starts: the lengths of the parts before it, added up.
pub open spec fn part_start(len: nat, k: nat) -> nat
    decreases k,
{
    if k == 0 {
        0
    } else {
        part_start(len, (k - 1) as nat) + part_len(len, (k - 1) as nat)
    }
}

/// The four parts cover the slice: the last one ends where the slice does.
pub proof fn lemma_parts_cover(len: nat)
    ensures
        part_start(len, 4) == len,
{
    reveal_with_fuel(part_start, 5);
}

/// Splits a slice into four consecutive parts of nearly equal length, as
/// `part_len` gives them.
pub fn f4(a: &[u32]) -> (parts: (&[u32], &[u32], &[u32], &[u32]))
    ensures
        parts.0@ == a@.subrange(0, part_start(a@.len(), 1) as int),
        parts.1@ == a@.subrange(part_start(a@.len(), 1) as int, part_start(a@.len(), 2) as int),
        parts.2@ == a@.subrange(part_start(a@.len(), 2) as int, part_start(a@.len(), 3) as int),
        parts.3@ == a@.subrange(part_start(a@.len(), 3) as int, a@.len() as int),
        parts.0@ + parts.1@ + parts.2@ + parts.3@ == a@,
{
    let rest = a.len() % 4;
    let quarter = a.len() / 4;
    let mut increments: [usize; 4] = [0, 0, 0, 0];
    if rest >= 1 {
        increments[0] = 1;
    }
    if rest >= 2 {
        increments[2] = 1;
    }
    if rest >= 3 {
        increments[3] = 1;
    }
    let end0 = quarter + increments[0];
    let end1 = end0 + quarter + increments[1];
    let end2 = end1 + quarter + increments[2];
    let end3 = end2 + quarter + increments[3];
    proof {
        reveal_with_fuel(part_start, 5);
        assert(end3 == a@.len());
    }
    let parts = (&a[0..end0], &a[end0..end1], &a[end1..end2], &a[end2..end3]);
    proof {
        assert(parts.0@ + parts.1@ + parts.2@ + parts.3@ =~= a@);
    }
    parts
}

} // verus!
