//! Strictly ascending vectors of logical CPU ids, used as duplicate-free sets
//! with a canonical order.

use vstd::prelude::*;

verus! {

/// `s` grows strictly from left to right; in particular it holds no value twice.
pub open spec fn strictly_ascending(s: Seq<usize>) -> bool {
    forall|i: int, j: int| 0 <= i < j < s.len() ==> s[i] < s[j]
}

/// Number of entries of `s` that are smaller than `x`.
pub open spec fn rank_of(s: Seq<usize>, x: usize) -> nat
    decreases s.len(),
{
    if s.len() == 0 {
        0
    } else {
        rank_of(s.drop_last(), x) + if s.last() < x {
            1nat
        } else {
            0nat
        }
    }
}

/// In a strictly ascending sequence the entries smaller than `x` are exactly
/// the first `rank_of(s, x)` ones.
pub proof fn lemma_rank_splits(s: Seq<usize>, x: usize)
    requires
        strictly_ascending(s),
    ensures
        rank_of(s, x) <= s.len(),
        forall|i: int| 0 <= i < rank_of(s, x) ==> s[i] < x,
        forall|i: int| rank_of(s, x) <= i < s.len() ==> s[i] >= x,
    decreases s.len(),
{
    if s.len() > 0 {
        let head = s.drop_last();
        lemma_rank_splits(head, x);
        if s.last() < x {
            assert forall|i: int| 0 <= i < head.len() implies head[i] < x by {
                assert(s[i] < s[s.len() - 1]);
            }
            assert(rank_of(head, x) == head.len()) by {
                if rank_of(head, x) < head.len() {
                    assert(head[rank_of(head, x) as int] >= x);
                }
            }
        }
        assert forall|i: int| 0 <= i < rank_of(s, x) implies s[i] < x by {
            if i < head.len() {
                assert(s[i] == head[i]);
            }
        }
        assert forall|i: int| rank_of(s, x) <= i < s.len() implies s[i] >= x by {
            if i < head.len() {
                assert(s[i] == head[i]);
            }
        }
    }
}

/// Two strictly ascending sequences with the same elements are the same sequence.
pub proof fn lemma_ascending_unique(a: Seq<usize>, b: Seq<usize>)
    requires
        strictly_ascending(a),
        strictly_ascending(b),
        forall|x: usize| a.contains(x) <==> b.contains(x),
    ensures
        a == b,
    decreases a.len(),
{
    if a.len() == 0 {
        if b.len() > 0 {
            assert(b.contains(b[0]));
        }
        assert(a =~= b);
    } else {
        let top = a.last();
        assert(a.contains(top));
        assert(b.contains(top));
        assert(b.len() > 0);
        let j = choose|j: int| 0 <= j < b.len() && b[j] == top;
        assert(b.last() == top) by {
            assert(b.contains(b.last()));
            assert(a.contains(b.last()));
            let i = choose|i: int| 0 <= i < a.len() && a[i] == b.last();
            if i < a.len() - 1 {
                assert(a[i] < a[a.len() - 1]);
            }
            if j < b.len() - 1 {
                assert(b[j] < b[b.len() - 1]);
            }
        }
        let a0 = a.drop_last();
        let b0 = b.drop_last();
        assert forall|x: usize| a0.contains(x) <==> b0.contains(x) by {
            if a0.contains(x) {
                let i = choose|i: int| 0 <= i < a0.len() && a0[i] == x;
                assert(a[i] == x);
                assert(a[i] < a[a.len() - 1]);
                assert(a.contains(x));
                assert(b.contains(x));
                let k = choose|k: int| 0 <= k < b.len() && b[k] == x;
                assert(k < b.len() - 1);
                assert(b0[k] == x);
            }
            if b0.contains(x) {
                let i = choose|i: int| 0 <= i < b0.len() && b0[i] == x;
                assert(b[i] == x);
                assert(b[i] < b[b.len() - 1]);
                assert(b.contains(x));
                assert(a.contains(x));
                let k = choose|k: int| 0 <= k < a.len() && a[k] == x;
                assert(k < a.len() - 1);
                assert(a0[k] == x);
            }
        }
        lemma_ascending_unique(a0, b0);
        assert(a =~= a0.push(top));
        assert(b =~= b0.push(top));
    }
}

/// Whether `x` occurs in the strictly ascending vector `v`.
pub(crate) fn ascending_contains(v: &Vec<usize>, x: usize) -> (found: bool)
    requires
        strictly_ascending(v@),
    ensures
        found == v@.contains(x),
{
    let mut i: usize = 0;
    while i < v.len()
        invariant
            i <= v.len(),
            forall|k: int| 0 <= k < i ==> v@[k] != x,
        decreases v.len() - i,
    {
        if v[i] == x {
            return true;
        }
        i += 1;
    }
    false
}

/// Puts `x` into the strictly ascending vector `v` at the place that keeps it
/// ascending.
pub(crate) fn ascending_insert(v: &mut Vec<usize>, x: usize)
    requires
        strictly_ascending(old(v)@),
        !old(v)@.contains(x),
    ensures
        strictly_ascending(final(v)@),
        final(v)@ == old(v)@.insert(rank_of(old(v)@, x) as int, x),
        final(v)@.len() == old(v)@.len() + 1,
        forall|y: usize| final(v)@.contains(y) <==> (old(v)@.contains(y) || y == x),
{
    let ghost before = v@;
    let mut pos: usize = 0;
    proof {
        lemma_rank_splits(before, x);
    }
    while pos < v.len() && v[pos] < x
        invariant
            v@ == before,
            strictly_ascending(before),
            pos <= v.len(),
            pos <= rank_of(before, x) <= before.len(),
            forall|i: int| 0 <= i < rank_of(before, x) ==> before[i] < x,
            forall|i: int| rank_of(before, x) <= i < before.len() ==> before[i] >= x,
        decreases v.len() - pos,
    {
        proof {
            if pos as int >= rank_of(before, x) {
                assert(before[pos as int] >= x);
            }
        }
        pos += 1;
    }
    proof {
        if (pos as int) < rank_of(before, x) {
            assert(before[pos as int] < x);
        }
        assert(pos == rank_of(before, x));
    }
    v.insert(pos, x);
    proof {
        let after = v@;
        assert forall|i: int, j: int| 0 <= i < j < after.len() implies after[i] < after[j] by {
            if j < pos {
                assert(after[i] == before[i] && after[j] == before[j]);
            } else if j == pos {
                assert(after[i] == before[i]);
            } else if i < pos {
                assert(after[i] == before[i] && after[j] == before[j - 1]);
                if before[j - 1] == x {
                    assert(before.contains(x));
                }
            } else if i == pos {
                assert(after[j] == before[j - 1]);
                if before[j - 1] == x {
                    assert(before.contains(x));
                }
            } else {
                assert(after[i] == before[i - 1] && after[j] == before[j - 1]);
            }
        }
        assert forall|y: usize| after.contains(y) <==> (before.contains(y) || y == x) by {
            if after.contains(y) {
                let k = choose|k: int| 0 <= k < after.len() && after[k] == y;
                if k < pos {
                    assert(before[k] == y);
                } else if k > pos {
                    assert(before[k - 1] == y);
                }
            }
            if before.contains(y) {
                let k = choose|k: int| 0 <= k < before.len() && before[k] == y;
                if k < pos {
                    assert(after[k] == y);
                } else {
                    assert(after[k + 1] == y);
                }
            }
            if y == x {
                assert(after[pos as int] == x);
            }
        }
    }
}

} // verus!
