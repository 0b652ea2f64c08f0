use vstd::prelude::*;

use crate::model::{
    after_global_update, after_local_update, decremented, normalized, summable, weighted,
};
use crate::sums::{lemma_score_at_most_total, lemma_sum_over_insert, sum_over, total};
use crate::update::Update;

verus! {

/// A decrement of a peer's local score by the amount of an increment
/// just made to it gives the peer back its score.
pub proof fn law_local_decrement_undoes_increment(m: Map<u64, u64>, key: u64, delta: u64)
    requires
        m.contains_key(key),
        m[key] + delta <= u64::MAX,
    ensures
        after_local_update(
            after_local_update(m, key, delta, Update::Increment),
            key,
            delta,
            Update::Decrement,
        ) == m,
{
    let up = after_local_update(m, key, delta, Update::Increment);
    assert(after_local_update(up, key, delta, Update::Decrement) =~= m);
}

/// A decrement of a peer's global score by the (weighted) amount of an
/// increment just made to it gives the peer back its score.
pub proof fn law_global_decrement_undoes_increment(m: Map<u64, u64>, key: u64, delta: u64)
    requires
        m.contains_key(key),
        m[key] + delta <= u64::MAX,
    ensures
        after_global_update(
            after_global_update(m, key, delta, Update::Increment),
            key,
            delta,
            Update::Decrement,
        ) == m,
{
    let up = after_global_update(m, key, delta, Update::Increment);
    assert(after_global_update(up, key, delta, Update::Decrement) =~= m);
}

/// A recorded score reads back as recorded; a peer new to the local map
/// enters it with the update's delta, whichever the direction, and a
/// peer new to the global map enters it only by an increment.
pub proof fn law_read_back_what_was_written(m: Map<u64, u64>, key: u64, value: u64, update: Update)
    ensures
        m.insert(key, value).contains_key(key),
        m.insert(key, value)[key] == value,
        !m.contains_key(key) ==> after_local_update(m, key, value, update) == m.insert(key, value),
        !m.contains_key(key) ==> after_global_update(m, key, value, Update::Increment) == m.insert(
            key,
            value,
        ),
        !m.contains_key(key) ==> after_global_update(m, key, value, Update::Decrement) == m,
{
}

/// An update touches the updated peer only: every other peer keeps its
/// score, in the local and in the global map.
pub proof fn law_update_touches_only_its_peer(
    m: Map<u64, u64>,
    key: u64,
    other: u64,
    delta: u64,
    update: Update,
)
    requires
        other != key,
    ensures
        after_local_update(m, key, delta, update).contains_key(other) == m.contains_key(other),
        after_global_update(m, key, delta, update).contains_key(other) == m.contains_key(other),
        m.contains_key(other) ==> after_local_update(m, key, delta, update)[other] == m[other],
        m.contains_key(other) ==> after_global_update(m, key, delta, update)[other] == m[other],
{
}

/// An increment never lowers a peer's score and a decrement never raises
/// it; a decrement never takes a score below zero but stops there.
pub proof fn law_update_direction(m: Map<u64, u64>, key: u64, delta: u64)
    requires
        m.contains_key(key),
        m[key] + delta <= u64::MAX,
    ensures
        after_local_update(m, key, delta, Update::Increment)[key] >= m[key],
        after_local_update(m, key, delta, Update::Decrement)[key] <= m[key],
        after_global_update(m, key, delta, Update::Increment)[key] >= m[key],
        after_global_update(m, key, delta, Update::Decrement)[key] <= m[key],
        delta >= m[key] ==> after_local_update(m, key, delta, Update::Decrement)[key] == 0,
        delta >= m[key] ==> after_global_update(m, key, delta, Update::Decrement)[key] == 0,
        decremented(m[key], delta) + delta >= m[key],
{
}

/// Normalization keeps exactly the peers of the raw map, so the raw and
/// the normalized maps always have the same length.
pub proof fn law_normalized_same_peers(m: Map<u64, u64>)
    ensures
        normalized(m).dom() == m.dom(),
        normalized(m).len() == m.len(),
{
    assert(normalized(m).dom() =~= m.dom());
}

/// No normalized score exceeds one whole.
pub proof fn law_normalized_at_most_one(m: Map<u64, u64>, k: u64)
    requires
        m.dom().finite(),
        summable(m),
        m.contains_key(k),
    ensures
        normalized(m)[k] <= 1,
{
    lemma_score_at_most_total(m, k);
    let t = total(m) as int;
    let v = m[k] as int;
    assert(t > 0);
    assert(v / t <= 1) by (nonlinear_arith)
        requires
            0 <= v <= t,
            t > 0,
    ;
}

/// A peer that is alone in a map with a positive score holds the whole
/// normalized weight.
pub proof fn law_single_peer_holds_all_weight(m: Map<u64, u64>, k: u64)
    requires
        m.dom() == set![k],
        m[k] > 0,
    ensures
        normalized(m)[k] == 1,
{
    crate::sums::lemma_sum_over_empty(m);
    assert(Set::<u64>::empty().insert(k) =~= m.dom());
    lemma_sum_over_insert(m, Set::empty(), k);
    assert(total(m) == m[k]);
}

/// Together the normalized scores never exceed one whole: the sum of the
/// normalized scores, times the sum of the raw scores, is at most the sum
/// of the raw scores.
pub proof fn law_normalized_sum_at_most_one(m: Map<u64, u64>)
    requires
        m.dom().finite(),
        summable(m),
    ensures
        total(normalized(m)) <= 1,
{
    law_normalized_same_peers(m);
    if m.dom().len() == 0 {
        assert(m.dom() =~= Set::empty());
        crate::sums::lemma_sum_over_empty(normalized(m));
    } else {
        lemma_scaled_sum(m, m.dom());
        let t = total(m) as int;
        let s = total(normalized(m)) as int;
        assert(s <= 1) by (nonlinear_arith)
            requires
                t * s <= t,
                t > 0,
        ;
    }
}

proof fn lemma_scaled_sum(m: Map<u64, u64>, keys: Set<u64>)
    requires
        keys.finite(),
        keys.subset_of(m.dom()),
        summable(m),
        m.dom().finite(),
    ensures
        total(m) * sum_over(normalized(m), keys) <= sum_over(m, keys),
    decreases keys.len(),
{
    if keys.len() == 0 {
        assert(keys =~= Set::empty());
        crate::sums::lemma_sum_over_empty(m);
        crate::sums::lemma_sum_over_empty(normalized(m));
    } else {
        let x = keys.choose();
        let rest = keys.remove(x);
        assert(rest.insert(x) =~= keys);
        lemma_scaled_sum(m, rest);
        lemma_sum_over_insert(m, rest, x);
        lemma_sum_over_insert(normalized(m), rest, x);
        lemma_score_at_most_total(m, x);
        let t = total(m) as int;
        let v = m[x] as int;
        let q = normalized(m)[x] as int;
        let a = sum_over(normalized(m), rest) as int;
        let b = sum_over(m, rest) as int;
        assert(q == v / t);
        assert(t * (a + q) <= b + v) by (nonlinear_arith)
            requires
                t * a <= b,
                q == v / t,
                t > 0,
                v >= 0,
        ;
    }
}

/// An increment of a peer already in the local map adds the delta to its
/// score, whatever the score was (zero included), and keeps the peer.
pub proof fn law_local_increment_adds_delta(m: Map<u64, u64>, key: u64, delta: u64)
    requires
        m.contains_key(key),
        m[key] + delta <= u64::MAX,
    ensures
        after_local_update(m, key, delta, Update::Increment).contains_key(key),
        after_local_update(m, key, delta, Update::Increment)[key] == m[key] + delta,
        after_local_update(m, key, delta, Update::Increment).dom() == m.dom(),
{
    assert(after_local_update(m, key, delta, Update::Increment).dom() =~= m.dom());
}

/// An increment of a peer already in the global map adds the weighted
/// delta to its score, whatever the score was (zero included).
pub proof fn law_global_increment_adds_delta(m: Map<u64, u64>, key: u64, delta: u64)
    requires
        m.contains_key(key),
        m[key] + delta <= u64::MAX,
    ensures
        after_global_update(m, key, delta, Update::Increment).contains_key(key),
        after_global_update(m, key, delta, Update::Increment)[key] == m[key] + delta,
        after_global_update(m, key, delta, Update::Increment).dom() == m.dom(),
{
    assert(after_global_update(m, key, delta, Update::Increment).dom() =~= m.dom());
}

/// A decrement of a peer already in a map subtracts the delta from its
/// score, or sets it to zero when the delta is larger than the score.
pub proof fn law_decrement_subtracts_or_floors(m: Map<u64, u64>, key: u64, delta: u64)
    requires
        m.contains_key(key),
    ensures
        delta <= m[key] ==> after_local_update(m, key, delta, Update::Decrement)[key] + delta
            == m[key],
        delta <= m[key] ==> after_global_update(m, key, delta, Update::Decrement)[key] + delta
            == m[key],
        delta > m[key] ==> after_local_update(m, key, delta, Update::Decrement)[key] == 0,
        delta > m[key] ==> after_global_update(m, key, delta, Update::Decrement)[key] == 0,
{
}

/// A normalized score is the integer share of the peer's raw score in
/// the sum of all the raw scores: the largest `q` with
/// `q * total <= score`.
pub proof fn law_normalized_is_integer_share(m: Map<u64, u64>, k: u64)
    requires
        m.dom().finite(),
        summable(m),
        m.contains_key(k),
    ensures
        normalized(m).contains_key(k),
        normalized(m)[k] == m[k] as int / total(m) as int,
        normalized(m)[k] <= 1,
        normalized(m)[k] * total(m) <= m[k],
        m[k] < (normalized(m)[k] + 1) * total(m),
        m[k] < total(m) ==> normalized(m)[k] == 0,
        m[k] == total(m) ==> normalized(m)[k] == 1,
{
    lemma_score_at_most_total(m, k);
    let t = total(m) as int;
    let v = m[k] as int;
    assert(t > 0);
    assert(0 <= v / t <= 1) by (nonlinear_arith)
        requires
            0 <= v <= t,
            t > 0,
    ;
    assert((v / t) * t <= v && v < (v / t + 1) * t) by (nonlinear_arith)
        requires
            0 <= v,
            t > 0,
    ;
    assert(v < t ==> v / t == 0) by (nonlinear_arith)
        requires
            0 <= v,
            t > 0,
    ;
    assert(v == t ==> v / t == 1) by (nonlinear_arith)
        requires
            t > 0,
    ;
}

/// A report by `sender` weighs the reported value times the sender's
/// integer share of the local trust: a sender holding less than all of
/// the local trust adds nothing, one holding all of it adds the full
/// value.
pub proof fn law_report_weight(local: Map<u64, u64>, sender: u64, value: u64)
    requires
        local.dom().finite(),
        summable(local),
        local.contains_key(sender),
    ensures
        weighted(local, sender, value) == value * (local[sender] as int / total(local) as int),
        local[sender] < total(local) ==> weighted(local, sender, value) == 0,
        local[sender] == total(local) ==> weighted(local, sender, value) == value,
        0 <= weighted(local, sender, value) <= value,
{
    law_normalized_is_integer_share(local, sender);
    let q = normalized(local)[sender] as int;
    assert(0 <= value * q <= value) by (nonlinear_arith)
        requires
            0 <= q <= 1,
            value >= 0,
    ;
    assert(q == 0 ==> value * q == 0) by (nonlinear_arith);
    assert(q == 1 ==> value * q == value) by (nonlinear_arith);
}

} // verus!
