//! Local and global trust bookkeeping for peers of a peer-to-peer
//! data-sharing network, with every operation proved against a
//! mathematical model of the trust maps.

pub mod update;
pub mod sums;
pub mod model;
pub mod precise;
pub mod laws;
