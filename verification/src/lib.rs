//! Verified core of the Insight node: the peer bookkeeping, the ledger
//! containers, the hashing of serialized values, the mempool and the
//! decisions that the network loop takes while it catches up with its
//! friends' chain.

pub mod boot;
pub mod frame;
pub mod game;
pub mod hashing;
pub mod keys;
pub mod mempool;
pub mod peer;
pub mod struc;
pub mod util;
