//! Position and distinctness helpers for sequences, shared by the
//! manager's key lookup and the query cache's entry lookup.

use vstd::prelude::*;

verus! {

/// No element occurs twice.
pub open spec fn seq_distinct<A>(s: Seq<A>) -> bool {
    forall|i: int, j: int| 0 <= i < j < s.len() ==> s[i] != s[j]
}

/// Position of the first occurrence of `x`, or `s.len()` if absent.
pub closed spec fn seq_first_pos<A>(s: Seq<A>, x: A) -> int
    decreases s.len(),
{
    if s.len() == 0 {
        0
    } else if s[0] == x {
        0
    } else {
        1 + seq_first_pos(s.drop_first(), x)
    }
}

pub proof fn lemma_seq_first_pos<A>(s: Seq<A>, x: A)
    requires
        s.contains(x),
    ensures
        0 <= seq_first_pos(s, x) < s.len(),
        s[seq_first_pos(s, x)] == x,
    decreases s.len(),
{
    if s.len() > 0 && s[0] != x {
        let rest = s.drop_first();
        let w = choose|w: int| 0 <= w < s.len() && s[w] == x;
        assert(rest[w - 1] == x);
        assert(rest.contains(x));
        lemma_seq_first_pos(rest, x);
    }
}

pub proof fn lemma_seq_first_pos_unique<A>(s: Seq<A>, x: A, p: int)
    requires
        0 <= p < s.len(),
        s[p] == x,
        seq_distinct(s),
    ensures
        seq_first_pos(s, x) == p,
{
    assert(s.contains(x));
    lemma_seq_first_pos(s, x);
    let q = seq_first_pos(s, x);
    if q < p {
        assert(s[q] != s[p]);
    } else if p < q {
        assert(s[p] != s[q]);
    }
}

} // verus!
