//! The order of the middleware chain: higher priority runs first, and among
//! equal priorities the one added first runs first.

use vstd::prelude::*;

verus! {

/// Where a middleware of priority `p` goes in a chain whose priorities are
/// `ps` (kept highest first): after every one of priority `p` or more.
pub open spec fn insert_position(ps: Seq<i32>, p: i32) -> int
    decreases ps.len(),
{
    if ps.len() == 0 {
        0
    } else if ps.last() >= p {
        ps.len() as int
    } else {
        insert_position(ps.drop_last(), p)
    }
}

/// Whether `ps` runs highest first.
pub open spec fn highest_first(ps: Seq<i32>) -> bool {
    forall|i: int, j: int| 0 <= i < j < ps.len() ==> ps[i] >= ps[j]
}

proof fn lemma_insert_position(ps: Seq<i32>, p: i32)
    requires
        highest_first(ps),
    ensures
        0 <= insert_position(ps, p) <= ps.len(),
        forall|i: int| 0 <= i < insert_position(ps, p) ==> ps[i] >= p,
        forall|i: int| insert_position(ps, p) <= i < ps.len() ==> ps[i] < p,
    decreases ps.len(),
{
    if ps.len() > 0 {
        if ps.last() < p {
            let q = ps.drop_last();
            assert forall|i: int, j: int| 0 <= i < j < q.len() implies q[i] >= q[j] by {
                assert(ps[i] >= ps[j]);
            }
            lemma_insert_position(q, p);
            assert forall|i: int| 0 <= i < insert_position(ps, p) implies ps[i] >= p by {
                assert(ps[i] == q[i]);
            }
            assert forall|i: int| insert_position(ps, p) <= i < ps.len() implies ps[i] < p by {
                if i < q.len() {
                    assert(ps[i] == q[i]);
                }
            }
        } else {
            assert forall|i: int| 0 <= i < insert_position(ps, p) implies ps[i] >= p by {
                assert(ps[i] >= ps[ps.len() - 1]);
            }
        }
    }
}

/// The position for a middleware of priority `p` in a chain whose
/// priorities are `ps` (highest first), as `insert_position` says; the chain
/// stays highest first with it there, and the order of equal priorities is
/// the order they were added in (a stable sort by descending priority).
pub fn chain_position(ps: &Vec<i32>, p: i32) -> (k: usize)
    requires
        highest_first(ps@),
    ensures
        k == insert_position(ps@, p),
        highest_first(ps@.insert(k as int, p)),
{
    proof {
        lemma_insert_position(ps@, p);
        assert(ps@.take(ps@.len() as int) =~= ps@);
    }
    let mut k: usize = ps.len();
    while k > 0 && ps[k - 1] < p
        invariant
            k <= ps@.len(),
            highest_first(ps@),
            insert_position(ps@, p) == insert_position(ps@.take(k as int), p),
            forall|i: int| k <= i < ps@.len() ==> ps@[i] < p,
        decreases k,
    {
        proof {
            assert(ps@.take(k as int).drop_last() =~= ps@.take(k - 1));
        }
        k = k - 1;
    }
    proof {
        if k > 0 {
            assert(ps@.take(k as int).last() == ps@[k - 1]);
        } else {
            assert(ps@.take(0) =~= Seq::<i32>::empty());
        }
        assert(ps@.take(ps@.len() as int) =~= ps@);
        let q = ps@.insert(k as int, p);
        assert forall|i: int, j: int| 0 <= i < j < q.len() implies q[i] >= q[j] by {
            if k > 0 {
                assert(ps@[k - 1] >= p);
            }
        }
    }
    k
}

} // verus!
