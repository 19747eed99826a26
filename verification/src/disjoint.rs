//! Simultaneous mutable borrows of distinct positions of one slice.
//!
//! The manager keeps every component store in one owned sequence, so two
//! distinct positions are structurally non-overlapping memory; these helpers
//! split the slice so the borrow checker can see that, which is what lets
//! the multi-type mutable accessors hand out several live views at once.

use vstd::prelude::*;

verus! {

fn slice_first_mut<S>(s: &mut [S]) -> (r: &mut S)
    requires
        old(s).len() > 0,
    ensures
        *r == old(s)[0],
        final(s)@ == old(s)@.update(0, *final(r)),
{
    match s.first_mut() {
        Some(x) => x,
        None => vstd::pervasive::unreached(),
    }
}

fn two_slice_muts_ordered<S>(s: &mut [S], i: usize, j: usize) -> (r: (&mut S, &mut S))
    requires
        i < j < old(s).len(),
    ensures
        *r.0 == old(s)[i as int],
        *r.1 == old(s)[j as int],
        final(s)@.len() == old(s)@.len(),
        final(s)@[i as int] == *final(r.0),
        final(s)@[j as int] == *final(r.1),
        forall|k: int|
            0 <= k < old(s)@.len() && k != i && k != j ==> final(s)@[k] == old(s)@[k],
{
    let (a, b) = s.split_at_mut(j);
    let rj = slice_first_mut(b);
    let (a1, a2) = a.split_at_mut(i);
    let ri = slice_first_mut(a2);
    (ri, rj)
}

/// Two simultaneous mutable borrows of distinct positions of a slice.
pub fn two_slice_muts<S>(s: &mut [S], i: usize, j: usize) -> (r: (&mut S, &mut S))
    requires
        i < old(s).len(),
        j < old(s).len(),
        i != j,
    ensures
        *r.0 == old(s)[i as int],
        *r.1 == old(s)[j as int],
        final(s)@.len() == old(s)@.len(),
        final(s)@[i as int] == *final(r.0),
        final(s)@[j as int] == *final(r.1),
        forall|k: int|
            0 <= k < old(s)@.len() && k != i && k != j ==> final(s)@[k] == old(s)@[k],
{
    if i < j {
        two_slice_muts_ordered(s, i, j)
    } else {
        let (rj, ri) = two_slice_muts_ordered(s, j, i);
        (ri, rj)
    }
}

/// Three simultaneous mutable borrows of pairwise-distinct positions.
pub fn three_slice_muts<S>(s: &mut [S], i: usize, j: usize, k: usize) -> (r: (
    &mut S,
    &mut S,
    &mut S,
))
    requires
        i < old(s).len(),
        j < old(s).len(),
        k < old(s).len(),
        i != j,
        i != k,
        j != k,
    ensures
        *r.0 == old(s)[i as int],
        *r.1 == old(s)[j as int],
        *r.2 == old(s)[k as int],
        final(s)@.len() == old(s)@.len(),
        final(s)@[i as int] == *final(r.0),
        final(s)@[j as int] == *final(r.1),
        final(s)@[k as int] == *final(r.2),
        forall|m: int|
            0 <= m < old(s)@.len() && m != i && m != j && m != k ==> final(s)@[m] == old(s)@[m],
{
    if i > j && i > k {
        let (a, b) = s.split_at_mut(i);
        let ri = slice_first_mut(b);
        let (rj, rk) = two_slice_muts(a, j, k);
        (ri, rj, rk)
    } else if j > i && j > k {
        let (a, b) = s.split_at_mut(j);
        let rj = slice_first_mut(b);
        let (ri, rk) = two_slice_muts(a, i, k);
        (ri, rj, rk)
    } else {
        let (a, b) = s.split_at_mut(k);
        let rk = slice_first_mut(b);
        let (ri, rj) = two_slice_muts(a, i, j);
        (ri, rj, rk)
    }
}

/// Four simultaneous mutable borrows of pairwise-distinct positions.
pub fn four_slice_muts<S>(s: &mut [S], i: usize, j: usize, k: usize, l: usize) -> (r: (
    &mut S,
    &mut S,
    &mut S,
    &mut S,
))
    requires
        i < old(s).len(),
        j < old(s).len(),
        k < old(s).len(),
        l < old(s).len(),
        i != j,
        i != k,
        i != l,
        j != k,
        j != l,
        k != l,
    ensures
        *r.0 == old(s)[i as int],
        *r.1 == old(s)[j as int],
        *r.2 == old(s)[k as int],
        *r.3 == old(s)[l as int],
        final(s)@.len() == old(s)@.len(),
        final(s)@[i as int] == *final(r.0),
        final(s)@[j as int] == *final(r.1),
        final(s)@[k as int] == *final(r.2),
        final(s)@[l as int] == *final(r.3),
        forall|m: int|
            0 <= m < old(s)@.len() && m != i && m != j && m != k && m != l ==> final(s)@[m] == old(
                s,
            )@[m],
{
    if i > j && i > k && i > l {
        let (a, b) = s.split_at_mut(i);
        let ri = slice_first_mut(b);
        let (rj, rk, rl) = three_slice_muts(a, j, k, l);
        (ri, rj, rk, rl)
    } else if j > i && j > k && j > l {
        let (a, b) = s.split_at_mut(j);
        let rj = slice_first_mut(b);
        let (ri, rk, rl) = three_slice_muts(a, i, k, l);
        (ri, rj, rk, rl)
    } else if k > i && k > j && k > l {
        let (a, b) = s.split_at_mut(k);
        let rk = slice_first_mut(b);
        let (ri, rj, rl) = three_slice_muts(a, i, j, l);
        (ri, rj, rk, rl)
    } else {
        let (a, b) = s.split_at_mut(l);
        let rl = slice_first_mut(b);
        let (ri, rj, rk) = three_slice_muts(a, i, j, k);
        (ri, rj, rk, rl)
    }
}

} // verus!
