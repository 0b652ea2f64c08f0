use std::collections::HashMap;
use vstd::prelude::*;
use vstd::std_specs::iter::IteratorSpec;

use crate::model::{
    after_global_update, after_local_update, increment_fits, normalized, summable, weighted,
};
use crate::laws::law_report_weight;
use crate::sums::{lemma_sum_over_empty, sum_scores, total};
use crate::update::Update;

verus! {

broadcast use vstd::std_specs::hash::group_hash_axioms;

/// Tracks the local and global trust of the peers of a peer-to-peer
/// data-sharing network, keyed by peer id. Scores go up when the node
/// holding this struct witnesses trustworthy behaviour of a peer and
/// down when it witnesses malicious behaviour; after every change the
/// scores are normalized by their sum.
pub struct PreciseHonestPeer {
    local_trust: HashMap<u64, u64>,
    global_trust: HashMap<u64, u64>,
    normalized_local_trust: HashMap<u64, u64>,
    normalized_global_trust: HashMap<u64, u64>,
}

/// Writes into `norm`, for every peer of `raw`, its score divided by the
/// sum of the scores of `raw`. Entries of `norm` for other peers stay.
fn fill_normalized(raw: &HashMap<u64, u64>, norm: &mut HashMap<u64, u64>)
    requires
        summable(raw@),
    ensures
        final(norm)@ == old(norm)@.union_prefer_right(normalized(raw@)),
{
    let t = sum_scores(raw);
    let ghost before = norm@;
    let ghost target = normalized(raw@);
    let ghost mut rest: Set<u64> = raw@.dom();
    for k in it: raw.keys()
        invariant
            t == total(raw@),
            summable(raw@),
            target == normalized(raw@),
            rest.finite(),
            rest.subset_of(raw@.dom()),
            rest.len() == it.seq().len() - it.index(),
            it.seq().no_duplicates(),
            it.seq().unref().to_set() == raw@.dom(),
            forall|j: int| 0 <= j < it.index() ==> !rest.contains(#[trigger] it.seq().unref()[j]),
            forall|j: int|
                it.index() <= j < it.seq().len() ==> rest.contains(#[trigger] it.seq().unref()[j]),
            norm@ == before.union_prefer_right(target.remove_keys(rest)),
    {
        let ghost x: u64 = *k;
        proof {
            assert(it.seq().unref()[it.index()] == x);
            assert(rest.contains(x));
        }
        let v: u64 = match raw.get(k) {
            Some(v) => *v,
            None => 0,
        };
        proof {
            assert(raw@.dom().len() > 0);
        }
        norm.insert(*k, v / t);
        proof {
            assert(norm@ =~= before.union_prefer_right(target.remove_keys(rest.remove(x))));
            rest = rest.remove(x);
        }
    }
    proof {
        assert(rest.len() == 0);
        assert(rest =~= Set::empty());
        assert(target.remove_keys(rest) =~= target);
    }
}

/// Pairs each peer of `m` with the bucket that `bucketizer` gives its
/// score, each peer once, in the map's iteration order.
fn bucketize_map<F: Fn(u64) -> usize>(m: &HashMap<u64, u64>, bucketizer: F) -> (r: Vec<
    (u64, usize),
>)
    requires
        forall|v: u64| call_requires(bucketizer, (v,)),
    ensures
        r@.len() == m@.dom().len(),
        forall|i: int|
            0 <= i < r@.len() ==> m@.contains_key(#[trigger] r@[i].0) && call_ensures(
                bucketizer,
                (m@[r@[i].0],),
                r@[i].1,
            ),
        forall|i: int, j: int| 0 <= i < j < r@.len() ==> r@[i].0 != r@[j].0,
        forall|k: u64| m@.contains_key(k) ==> exists|i: int| 0 <= i < r@.len() && r@[i].0 == k,
{
    let mut r: Vec<(u64, usize)> = Vec::new();
    let ghost ks = vstd::std_specs::hash::spec_keys_iter(m).remaining().unref();
    for k in it: m.keys()
        invariant
            forall|v: u64| call_requires(bucketizer, (v,)),
            it.seq().unref() == ks,
            ks.no_duplicates(),
            ks.to_set() == m@.dom(),
            ks.len() == m@.dom().len(),
            r@.len() == it.index(),
            forall|i: int| 0 <= i < r@.len() ==> #[trigger] r@[i].0 == ks[i],
            forall|i: int|
                0 <= i < r@.len() ==> m@.contains_key(#[trigger] r@[i].0) && call_ensures(
                    bucketizer,
                    (m@[r@[i].0],),
                    r@[i].1,
                ),
    {
        let v: u64 = match m.get(k) {
            Some(v) => *v,
            None => 0,
        };
        let b = bucketizer(v);
        r.push((*k, b));
    }
    proof {
        assert(r@.len() == ks.len());
        assert forall|k: u64| m@.contains_key(k) implies exists|i: int|
            0 <= i < r@.len() && r@[i].0 == k by {
            assert(ks.to_set().contains(k));
            let i = choose|i: int| 0 <= i < ks.len() && ks[i] == k;
            assert(r@[i].0 == k);
        }
    }
    r
}

impl PreciseHonestPeer {
    /// The raw local trust scores, by peer.
    pub closed spec fn local(&self) -> Map<u64, u64> {
        self.local_trust@
    }

    /// The raw global trust scores, by peer.
    pub closed spec fn global(&self) -> Map<u64, u64> {
        self.global_trust@
    }

    /// The normalized local trust scores, by peer.
    pub closed spec fn normalized_local(&self) -> Map<u64, u64> {
        self.normalized_local_trust@
    }

    /// The normalized global trust scores, by peer.
    pub closed spec fn normalized_global(&self) -> Map<u64, u64> {
        self.normalized_global_trust@
    }

    /// Every value reachable through the public methods satisfies this:
    /// both raw maps can be normalized, and each normalized map is the
    /// normalization of its raw map.
    pub open spec fn wf(&self) -> bool {
        &&& summable(self.local())
        &&& summable(self.global())
        &&& self.normalized_local() == normalized(self.local())
        &&& self.normalized_global() == normalized(self.global())
    }

    /// Creates a `PreciseHonestPeer` with no peers in it.
    pub fn new() -> (hp: Self)
        ensures
            hp.wf(),
            hp.local() == Map::<u64, u64>::empty(),
            hp.global() == Map::<u64, u64>::empty(),
    {
        let hp = PreciseHonestPeer {
            local_trust: HashMap::new(),
            global_trust: HashMap::new(),
            normalized_local_trust: HashMap::new(),
            normalized_global_trust: HashMap::new(),
        };
        proof {
            lemma_sum_over_empty(Map::<u64, u64>::empty());
            assert(Map::<u64, u64>::empty().dom() =~= Set::<u64>::empty());
            assert(normalized(Map::<u64, u64>::empty()) =~= Map::<u64, u64>::empty());
        }
        hp
    }

    /// Normalizes all the local trust scores and saves them in the
    /// normalized local map.
    pub fn normalize_local(&mut self)
        requires
            summable(old(self).local()),
        ensures
            final(self).normalized_local() == old(self).normalized_local().union_prefer_right(
                normalized(old(self).local()),
            ),
            old(self).wf() ==> final(self).normalized_local() == old(self).normalized_local(),
            final(self).local() == old(self).local(),
            final(self).global() == old(self).global(),
            final(self).normalized_global() == old(self).normalized_global(),
            old(self).wf() ==> final(self).wf(),
    {
        fill_normalized(&self.local_trust, &mut self.normalized_local_trust);
        proof {
            let n = normalized(self.local());
            assert(n.union_prefer_right(n) =~= n);
        }
    }

    /// Normalizes all the global trust scores and saves them in the
    /// normalized global map.
    pub fn normalize_global(&mut self)
        requires
            summable(old(self).global()),
        ensures
            final(self).normalized_global() == old(self).normalized_global().union_prefer_right(
                normalized(old(self).global()),
            ),
            old(self).wf() ==> final(self).normalized_global() == old(self).normalized_global(),
            final(self).local() == old(self).local(),
            final(self).global() == old(self).global(),
            final(self).normalized_local() == old(self).normalized_local(),
            old(self).wf() ==> final(self).wf(),
    {
        fill_normalized(&self.global_trust, &mut self.normalized_global_trust);
        proof {
            let n = normalized(self.global());
            assert(n.union_prefer_right(n) =~= n);
        }
    }

    /// Records the local trust score of a newly discovered peer, and
    /// normalizes the local map.
    pub fn init_local(&mut self, key: &u64, init_value: u64)
        requires
            old(self).wf(),
            summable(old(self).local().insert(*key, init_value)),
        ensures
            final(self).wf(),
            final(self).local() == old(self).local().insert(*key, init_value),
            final(self).global() == old(self).global(),
    {
        self.local_trust.insert(*key, init_value);
        fill_normalized(&self.local_trust, &mut self.normalized_local_trust);
        proof {
            assert(self.normalized_local() =~= normalized(self.local()));
        }
    }

    /// Updates the local trust score of a peer, and normalizes the local
    /// map. An increment adds `trust_delta`; a decrement subtracts it but
    /// stops at zero; a peer not yet in the map gets `trust_delta`.
    pub fn update_local(&mut self, key: &u64, trust_delta: u64, update: Update)
        requires
            old(self).wf(),
            increment_fits(old(self).local(), *key, trust_delta, update),
            summable(after_local_update(old(self).local(), *key, trust_delta, update)),
        ensures
            final(self).wf(),
            final(self).local() == after_local_update(old(self).local(), *key, trust_delta, update),
            final(self).global() == old(self).global(),
            final(self).local().dom() == old(self).local().dom().insert(*key),
            old(self).local().contains_key(*key) && update == Update::Increment ==> final(self).local()[*key] == old(self).local()[*key] + trust_delta,
            old(self).local().contains_key(*key) && update == Update::Decrement && trust_delta
                <= old(self).local()[*key] ==> final(self).local()[*key] + trust_delta == old(self).local()[*key],
            old(self).local().contains_key(*key) && update == Update::Decrement && trust_delta > old(self).local()[*key] ==> final(self).local()[*key] == 0,
            !old(self).local().contains_key(*key) ==> final(self).local()[*key] == trust_delta,
            forall|p: u64|
                p != *key && #[trigger] old(self).local().contains_key(p) ==> final(self).local()[p]
                    == old(self).local()[p],
    {
        let current: Option<u64> = match self.local_trust.get(key) {
            Some(s) => Some(*s),
            None => None,
        };
        match current {
            Some(score) => {
                let new_score: u64 = match update {
                    Update::Increment => score + trust_delta,
                    Update::Decrement => if trust_delta > score {
                        0
                    } else {
                        score - trust_delta
                    },
                };
                self.local_trust.insert(*key, new_score);
            },
            None => {
                self.local_trust.insert(*key, trust_delta);
            },
        }
        fill_normalized(&self.local_trust, &mut self.normalized_local_trust);
        proof {
            assert(self.local() =~= after_local_update(old(self).local(), *key, trust_delta, update));
            assert(self.normalized_local() =~= normalized(self.local()));
        }
    }

    /// The raw local trust score of a peer, if it has one.
    pub fn get_raw_local(&self, key: &u64) -> (r: Option<u64>)
        ensures
            r == (if self.local().contains_key(*key) {
                Some(self.local()[*key])
            } else {
                None
            }),
    {
        match self.local_trust.get(key) {
            Some(val) => Some(*val),
            None => None,
        }
    }

    /// The normalized local trust score of a peer, if it has one.
    pub fn get_normalized_local(&self, key: &u64) -> (r: Option<u64>)
        requires
            self.wf(),
        ensures
            r == (if self.local().contains_key(*key) {
                Some(normalized(self.local())[*key])
            } else {
                None
            }),
    {
        match self.normalized_local_trust.get(key) {
            Some(val) => Some(*val),
            None => None,
        }
    }

    /// The raw global trust score of a peer, if it has one.
    pub fn get_raw_global(&self, key: &u64) -> (r: Option<u64>)
        ensures
            r == (if self.global().contains_key(*key) {
                Some(self.global()[*key])
            } else {
                None
            }),
    {
        match self.global_trust.get(key) {
            Some(val) => Some(*val),
            None => None,
        }
    }

    /// The normalized global trust score of a peer, if it has one.
    pub fn get_normalized_global(&self, key: &u64) -> (r: Option<u64>)
        requires
            self.wf(),
        ensures
            r == (if self.global().contains_key(*key) {
                Some(normalized(self.global())[*key])
            } else {
                None
            }),
    {
        match self.normalized_global_trust.get(key) {
            Some(val) => Some(*val),
            None => None,
        }
    }

    /// Records the global trust score of a newly discovered peer `key`,
    /// as reported by `sender`: the reported value is weighted by the
    /// sender's normalized local trust. Reports of senders without local
    /// trust are ignored.
    pub fn init_global(&mut self, sender: &u64, key: &u64, init_value: u64)
        requires
            old(self).wf(),
            old(self).local().contains_key(*sender) ==> {
                &&& weighted(old(self).local(), *sender, init_value) <= u64::MAX
                &&& summable(
                    old(self).global().insert(
                        *key,
                        weighted(old(self).local(), *sender, init_value) as u64,
                    ),
                )
            },
        ensures
            final(self).wf(),
            final(self).local() == old(self).local(),
            final(self).global() == (if old(self).local().contains_key(*sender) {
                old(self).global().insert(
                    *key,
                    weighted(old(self).local(), *sender, init_value) as u64,
                )
            } else {
                old(self).global()
            }),
            old(self).local().contains_key(*sender) ==> final(self).global().dom() == old(self).global().dom().insert(*key),
            old(self).local().contains_key(*sender) ==> final(self).global()[*key] == init_value * (
            old(self).local()[*sender] as int / total(old(self).local()) as int),
            forall|p: u64|
                p != *key && #[trigger] old(self).global().contains_key(p) ==> final(self).global()[p] == old(self).global()[p],
    {
        proof {
            if old(self).local().contains_key(*sender) {
                law_report_weight(old(self).local(), *sender, init_value);
            }
        }
        let sender_trust = self.get_normalized_local(sender);
        if let Some(sender_trust) = sender_trust {
            let weighted_init = init_value * sender_trust;
            self.global_trust.insert(*key, weighted_init);
            fill_normalized(&self.global_trust, &mut self.normalized_global_trust);
            proof {
                assert(self.normalized_global() =~= normalized(self.global()));
            }
        }
    }

    /// Updates the global trust score of peer `key` as reported by
    /// `sender`, weighting `trust_delta` by the sender's normalized local
    /// trust, then normalizes the global map. An increment adds the
    /// weighted delta (a peer not yet in the map gets it); a decrement
    /// subtracts it but stops at zero, and does nothing for a peer not yet
    /// in the map. Reports of senders without local trust change no score.
    pub fn update_global(&mut self, sender: &u64, key: &u64, trust_delta: u64, update: Update)
        requires
            old(self).wf(),
            old(self).local().contains_key(*sender) ==> {
                let w = weighted(old(self).local(), *sender, trust_delta);
                &&& w <= u64::MAX
                &&& increment_fits(old(self).global(), *key, w as u64, update)
                &&& summable(after_global_update(old(self).global(), *key, w as u64, update))
            },
        ensures
            final(self).wf(),
            final(self).local() == old(self).local(),
            final(self).global() == (if old(self).local().contains_key(*sender) {
                after_global_update(
                    old(self).global(),
                    *key,
                    weighted(old(self).local(), *sender, trust_delta) as u64,
                    update,
                )
            } else {
                old(self).global()
            }),
            old(self).local().contains_key(*sender) && old(self).global().contains_key(*key)
                && update == Update::Increment ==> final(self).global()[*key] == old(self).global()[*key] + trust_delta * (old(self).local()[*sender] as int / total(old(self).local()) as int),
            old(self).local().contains_key(*sender) && old(self).global().contains_key(*key)
                && update == Update::Decrement && trust_delta * (old(self).local()[*sender] as int / total(old(self).local()) as int) <= old(self).global()[*key] ==> final(self).global()[*key] + trust_delta * (old(self).local()[*sender] as int / total(old(self).local()) as int) == old(self).global()[*key],
            old(self).local().contains_key(*sender) && old(self).global().contains_key(*key)
                && update == Update::Decrement && trust_delta * (old(self).local()[*sender] as int / total(old(self).local()) as int) > old(self).global()[*key] ==> final(self).global()[*key] == 0,
            old(self).local().contains_key(*sender) && !old(self).global().contains_key(*key)
                && update == Update::Increment ==> final(self).global().contains_key(*key)
                && final(self).global()[*key] == trust_delta * (old(self).local()[*sender] as int / total(old(self).local()) as int),
            !old(self).global().contains_key(*key) && update == Update::Decrement ==> final(self).global() == old(self).global(),
            forall|p: u64|
                p != *key && #[trigger] old(self).global().contains_key(p) ==> final(self).global().contains_key(p) && final(self).global()[p] == old(self).global()[p],
    {
        proof {
            if old(self).local().contains_key(*sender) {
                law_report_weight(old(self).local(), *sender, trust_delta);
            }
        }
        let sender_trust = self.get_normalized_local(sender);
        if let Some(sender_trust) = sender_trust {
            let weighted_delta = trust_delta * sender_trust;
            let current: Option<u64> = match self.global_trust.get(key) {
                Some(s) => Some(*s),
                None => None,
            };
            match update {
                Update::Increment => match current {
                    Some(score) => {
                        self.global_trust.insert(*key, score + weighted_delta);
                    },
                    None => {
                        self.global_trust.insert(*key, weighted_delta);
                    },
                },
                Update::Decrement => match current {
                    Some(score) => {
                        let new_score: u64 = if weighted_delta > score {
                            0
                        } else {
                            score - weighted_delta
                        };
                        self.global_trust.insert(*key, new_score);
                    },
                    None => {},
                },
            }
            proof {
                assert(self.global() =~= after_global_update(
                    old(self).global(),
                    *key,
                    weighted_delta,
                    update,
                ));
            }
        }
        fill_normalized(&self.global_trust, &mut self.normalized_global_trust);
        proof {
            assert(self.normalized_global() =~= normalized(self.global()));
        }
    }

    /// The whole raw local trust map.
    pub fn get_raw_local_map(&self) -> (r: HashMap<u64, u64>)
        ensures
            r@ == self.local(),
    {
        self.local_trust.clone()
    }

    /// The whole normalized local trust map.
    pub fn get_normalized_local_map(&self) -> (r: HashMap<u64, u64>)
        requires
            self.wf(),
        ensures
            r@ == normalized(self.local()),
    {
        self.normalized_local_trust.clone()
    }

    /// The whole raw global trust map.
    pub fn get_raw_global_map(&self) -> (r: HashMap<u64, u64>)
        ensures
            r@ == self.global(),
    {
        self.global_trust.clone()
    }

    /// The whole normalized global trust map.
    pub fn get_normalized_global_map(&self) -> (r: HashMap<u64, u64>)
        requires
            self.wf(),
        ensures
            r@ == normalized(self.global()),
    {
        self.normalized_global_trust.clone()
    }

    /// The number of peers in the raw local trust map.
    pub fn local_raw_len(&self) -> (n: usize)
        ensures
            n == self.local().len(),
    {
        self.local_trust.len()
    }

    /// The number of peers in the normalized local trust map.
    pub fn local_normalized_len(&self) -> (n: usize)
        requires
            self.wf(),
        ensures
            n == self.local().len(),
    {
        proof {
            assert(normalized(self.local()).dom() =~= self.local().dom());
        }
        self.normalized_local_trust.len()
    }

    /// The number of peers in the raw global trust map.
    pub fn global_raw_len(&self) -> (n: usize)
        ensures
            n == self.global().len(),
    {
        self.global_trust.len()
    }

    /// The number of peers in the normalized global trust map.
    pub fn global_normalized_len(&self) -> (n: usize)
        requires
            self.wf(),
        ensures
            n == self.global().len(),
    {
        proof {
            assert(normalized(self.global()).dom() =~= self.global().dom());
        }
        self.normalized_global_trust.len()
    }

    /// Pairs every peer with the bucket that `bucketizer` assigns to its
    /// raw local trust score: each peer once, in the map's iteration order.
    pub fn bucketize_local<F: Fn(u64) -> usize>(&self, bucketizer: F) -> (r: Vec<(u64, usize)>)
        requires
            forall|v: u64| call_requires(bucketizer, (v,)),
        ensures
            r@.len() == self.local().dom().len(),
            forall|i: int|
                0 <= i < r@.len() ==> self.local().contains_key(#[trigger] r@[i].0) && call_ensures(
                    bucketizer,
                    (self.local()[r@[i].0],),
                    r@[i].1,
                ),
            forall|i: int, j: int| 0 <= i < j < r@.len() ==> r@[i].0 != r@[j].0,
            forall|k: u64|
                self.local().contains_key(k) ==> exists|i: int| 0 <= i < r@.len() && r@[i].0 == k,
    {
        bucketize_map(&self.local_trust, bucketizer)
    }

    /// Pairs every peer with the bucket that `bucketizer` assigns to its
    /// normalized local trust score: each peer once, in the map's iteration order.
    pub fn bucketize_normalized_local<F: Fn(u64) -> usize>(&self, bucketizer: F) -> (r: Vec<(u64, usize)>)
        requires
            self.wf(),
            forall|v: u64| call_requires(bucketizer, (v,)),
        ensures
            r@.len() == normalized(self.local()).dom().len(),
            forall|i: int|
                0 <= i < r@.len() ==> normalized(self.local()).contains_key(#[trigger] r@[i].0) && call_ensures(
                    bucketizer,
                    (normalized(self.local())[r@[i].0],),
                    r@[i].1,
                ),
            forall|i: int, j: int| 0 <= i < j < r@.len() ==> r@[i].0 != r@[j].0,
            forall|k: u64|
                normalized(self.local()).contains_key(k) ==> exists|i: int| 0 <= i < r@.len() && r@[i].0 == k,
    {
        bucketize_map(&self.normalized_local_trust, bucketizer)
    }

    /// Pairs every peer with the bucket that `bucketizer` assigns to its
    /// raw global trust score: each peer once, in the map's iteration order.
    pub fn bucketize_global<F: Fn(u64) -> usize>(&self, bucketizer: F) -> (r: Vec<(u64, usize)>)
        requires
            forall|v: u64| call_requires(bucketizer, (v,)),
        ensures
            r@.len() == self.global().dom().len(),
            forall|i: int|
                0 <= i < r@.len() ==> self.global().contains_key(#[trigger] r@[i].0) && call_ensures(
                    bucketizer,
                    (self.global()[r@[i].0],),
                    r@[i].1,
                ),
            forall|i: int, j: int| 0 <= i < j < r@.len() ==> r@[i].0 != r@[j].0,
            forall|k: u64|
                self.global().contains_key(k) ==> exists|i: int| 0 <= i < r@.len() && r@[i].0 == k,
    {
        bucketize_map(&self.global_trust, bucketizer)
    }

    /// Pairs every peer with the bucket that `bucketizer` assigns to its
    /// normalized global trust score: each peer once, in the map's iteration order.
    pub fn bucketize_normalized_global<F: Fn(u64) -> usize>(&self, bucketizer: F) -> (r: Vec<(u64, usize)>)
        requires
            self.wf(),
            forall|v: u64| call_requires(bucketizer, (v,)),
        ensures
            r@.len() == normalized(self.global()).dom().len(),
            forall|i: int|
                0 <= i < r@.len() ==> normalized(self.global()).contains_key(#[trigger] r@[i].0) && call_ensures(
                    bucketizer,
                    (normalized(self.global())[r@[i].0],),
                    r@[i].1,
                ),
            forall|i: int, j: int| 0 <= i < j < r@.len() ==> r@[i].0 != r@[j].0,
            forall|k: u64|
                normalized(self.global()).contains_key(k) ==> exists|i: int| 0 <= i < r@.len() && r@[i].0 == k,
    {
        bucketize_map(&self.normalized_global_trust, bucketizer)
    }
}

} // verus!
