//! Small sequence helpers shared by the change-log proofs: the minimum of a
//! non-empty id sequence and occurrence counting.

use vstd::prelude::*;

verus! {

/// The smallest element of a non-empty sequence.
pub open spec fn seq_min(s: Seq<u64>) -> u64
    recommends
        s.len() > 0,
    decreases s.len(),
{
    if s.len() <= 1 {
        s[0]
    } else {
        let m = seq_min(s.drop_last());
        if s.last() < m {
            s.last()
        } else {
            m
        }
    }
}

pub proof fn lemma_seq_min(s: Seq<u64>)
    requires
        s.len() > 0,
    ensures
        s.contains(seq_min(s)),
        forall|i: int| 0 <= i < s.len() ==> seq_min(s) <= #[trigger] s[i],
    decreases s.len(),
{
    if s.len() == 1 {
        assert(s[0] == seq_min(s));
    } else {
        lemma_seq_min(s.drop_last());
        let m = seq_min(s.drop_last());
        assert(s.drop_last().contains(m));
        let w = choose|i: int| 0 <= i < s.drop_last().len() && s.drop_last()[i] == m;
        assert(s[w] == m);
        assert forall|i: int| 0 <= i < s.len() implies seq_min(s) <= #[trigger] s[i] by {
            if i < s.len() - 1 {
                assert(s.drop_last()[i] == s[i]);
            }
        }
    }
}

/// How many times `v` occurs in `s`.
pub open spec fn count_of(s: Seq<u64>, v: u64) -> nat
    decreases s.len(),
{
    if s.len() == 0 {
        0
    } else {
        count_of(s.drop_last(), v) + if s.last() == v {
            1nat
        } else {
            0nat
        }
    }
}

pub proof fn lemma_count_zero_iff_absent(s: Seq<u64>, v: u64)
    ensures
        count_of(s, v) == 0 <==> !s.contains(v),
    decreases s.len(),
{
    if s.len() == 0 {
    } else {
        lemma_count_zero_iff_absent(s.drop_last(), v);
        if s.contains(v) {
            let w = choose|i: int| 0 <= i < s.len() && s[i] == v;
            if w < s.len() - 1 {
                assert(s.drop_last()[w] == v);
            }
        } else {
            assert(!s.drop_last().contains(v)) by {
                if s.drop_last().contains(v) {
                    let w = choose|i: int|
                        0 <= i < s.drop_last().len() && s.drop_last()[i] == v;
                    assert(s[w] == v);
                }
            }
        }
    }
}

pub proof fn lemma_count_remove(s: Seq<u64>, k: int, v: u64)
    requires
        0 <= k < s.len(),
        s[k] == v,
    ensures
        count_of(s.remove(k), v) + 1 == count_of(s, v),
    decreases s.len(),
{
    if k == s.len() - 1 {
        assert(s.remove(k) =~= s.drop_last());
    } else {
        assert(s.remove(k).drop_last() =~= s.drop_last().remove(k));
        assert(s.remove(k).last() == s.last());
        lemma_count_remove(s.drop_last(), k, v);
    }
}

} // verus!
