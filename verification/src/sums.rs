use std::collections::HashMap;
use vstd::prelude::*;

verus! {

broadcast use vstd::std_specs::hash::group_hash_axioms;

/// The sum of the scores that `m` records for the peers in `keys`.
pub open spec fn sum_over(m: Map<u64, u64>, keys: Set<u64>) -> nat {
    keys.fold(0nat, |acc: nat, k: u64| (acc + m[k]) as nat)
}

/// The sum of all the scores that `m` records.
pub open spec fn total(m: Map<u64, u64>) -> nat {
    sum_over(m, m.dom())
}

/// Adding one more peer to the summed set adds its score.
pub proof fn lemma_sum_over_insert(m: Map<u64, u64>, keys: Set<u64>, k: u64)
    requires
        keys.finite(),
        !keys.contains(k),
    ensures
        sum_over(m, keys.insert(k)) == sum_over(m, keys) + m[k],
{
    let f = |acc: nat, k: u64| (acc + m[k]) as nat;
    assert(vstd::set::fold::is_fun_commutative(f));
    vstd::set::fold::lemma_fold_insert(keys, 0nat, f, k);
}

/// Summing over no peer gives zero.
pub proof fn lemma_sum_over_empty(m: Map<u64, u64>)
    ensures
        sum_over(m, Set::empty()) == 0,
{
    let f = |acc: nat, k: u64| (acc + m[k]) as nat;
    vstd::set::fold::lemma_fold_empty(0nat, f);
}

/// A single score never exceeds the sum of all the scores.
pub proof fn lemma_score_at_most_total(m: Map<u64, u64>, k: u64)
    requires
        m.dom().finite(),
        m.contains_key(k),
    ensures
        m[k] <= total(m),
{
    assert(m.dom().remove(k).insert(k) =~= m.dom());
    lemma_sum_over_insert(m, m.dom().remove(k), k);
}

/// Computes the sum of all the scores in `m`.
pub fn sum_scores(m: &HashMap<u64, u64>) -> (t: u64)
    requires
        total(m@) <= u64::MAX,
    ensures
        t == total(m@),
{
    let mut acc: u64 = 0;
    let ghost mut rest: Set<u64> = m@.dom();
    for k in it: m.keys()
        invariant
            acc + sum_over(m@, rest) == total(m@),
            rest.finite(),
            rest.subset_of(m@.dom()),
            rest.len() == it.seq().len() - it.index(),
            total(m@) <= u64::MAX,
            it.seq().no_duplicates(),
            it.seq().unref().to_set() == m@.dom(),
            forall|j: int| 0 <= j < it.index() ==> !rest.contains(#[trigger] it.seq().unref()[j]),
            forall|j: int|
                it.index() <= j < it.seq().len() ==> rest.contains(#[trigger] it.seq().unref()[j]),
    {
        let ghost x: u64 = *k;
        let v: u64 = match m.get(k) {
            Some(v) => *v,
            None => 0,
        };
        proof {
            assert(it.seq().unref()[it.index()] == x);
            assert(rest.contains(x));
            assert(rest.remove(x).insert(x) =~= rest);
            lemma_sum_over_insert(m@, rest.remove(x), x);
            rest = rest.remove(x);
        }
        acc = acc + v;
    }
    proof {
        assert(rest.len() == 0);
        assert(rest =~= Set::empty());
        lemma_sum_over_empty(m@);
    }
    acc
}

} // verus!
