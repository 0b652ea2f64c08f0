# decentrust

Trust bookkeeping for a peer-to-peer data-sharing network, verified with Verus.

A `PreciseHonestPeer` keeps, per peer id (`u64`), a raw local and a raw global
trust score (`u64`), and the normalized scores: each raw score divided by the
sum of its map (integer division). Local scores change by direct observation;
global scores are reports from other peers, weighted by the reporting peer's
normalized local trust.

- `src/update.rs`: the direction of an update.
- `src/sums.rs`: the sum of a score map, as a spec function and as verified code.
- `src/model.rs`: the mathematical model of normalization and updates.
- `src/precise.rs`: `PreciseHonestPeer` and its operations with their contracts.
- `src/laws.rs`: properties of the library stated and proved over the model.
- `tests/`: tests on concrete values.
