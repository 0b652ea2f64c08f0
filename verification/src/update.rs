use vstd::prelude::*;

verus! {

/// The direction of a trust update: a witnessed trustworthy behaviour
/// raises a peer's score, a malicious one lowers it.
#[derive(Clone, Copy, Debug, PartialEq, Eq, Structural)]
pub enum Update {
    Increment,
    Decrement,
}

} // verus!
