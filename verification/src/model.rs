use vstd::prelude::*;

use crate::sums::total;
use crate::update::Update;

verus! {

/// A score map can be normalized without overflow or division by zero:
/// its scores sum to something a `u64` holds, and to more than zero
/// when there is any score at all.
pub open spec fn summable(m: Map<u64, u64>) -> bool {
    &&& total(m) <= u64::MAX
    &&& (m.dom().len() > 0 ==> total(m) > 0)
}

/// Each score divided by the sum of all the scores of the map
/// (integer division).
pub open spec fn normalized(m: Map<u64, u64>) -> Map<u64, u64> {
    Map::new(|k: u64| m.contains_key(k), |k: u64| (m[k] as int / total(m) as int) as u64)
}

/// The score `current` after a decrement by `delta`: it falls to zero
/// rather than below.
pub open spec fn decremented(current: u64, delta: u64) -> u64 {
    if delta > current {
        0
    } else {
        (current - delta) as u64
    }
}

/// The local map after an update of `key` by `delta`. A peer not yet
/// in the map enters it with score `delta`, whatever the direction.
pub open spec fn after_local_update(m: Map<u64, u64>, key: u64, delta: u64, update: Update) -> Map<
    u64,
    u64,
> {
    if !m.contains_key(key) {
        m.insert(key, delta)
    } else {
        match update {
            Update::Increment => m.insert(key, (m[key] + delta) as u64),
            Update::Decrement => m.insert(key, decremented(m[key], delta)),
        }
    }
}

/// The global map after an update of `key` by the already weighted
/// `delta`. A decrement of a peer not yet in the map leaves it as it is.
pub open spec fn after_global_update(
    m: Map<u64, u64>,
    key: u64,
    delta: u64,
    update: Update,
) -> Map<u64, u64> {
    match update {
        Update::Increment => if m.contains_key(key) {
            m.insert(key, (m[key] + delta) as u64)
        } else {
            m.insert(key, delta)
        },
        Update::Decrement => if m.contains_key(key) {
            m.insert(key, decremented(m[key], delta))
        } else {
            m
        },
    }
}

/// An increment of an existing score by `delta` does not overflow.
pub open spec fn increment_fits(m: Map<u64, u64>, key: u64, delta: u64, update: Update) -> bool {
    update == Update::Increment && m.contains_key(key) ==> m[key] + delta <= u64::MAX
}

/// A value given for a peer, weighted by the normalized local trust
/// of the peer `sender` that reported it.
pub open spec fn weighted(local: Map<u64, u64>, sender: u64, value: u64) -> int {
    value * normalized(local)[sender]
}

} // verus!
