//! A typed columnar codec for blockchain state snapshots.
//!
//! A batch of uniform records (coins, messages, contracts, contract storage
//! entries, contract balances) is mapped to a self-describing columnar binary
//! container — schema block, then row groups holding one column chunk per
//! schema entry — and back. Optional fields are stored as a presence vector
//! plus a dense value array, narrow integers are widened into their physical
//! column slot, and the row-group body can be compressed as a whole.

pub mod api;
pub mod column;
pub mod compress;
pub mod encoding;
pub mod errors;
pub mod measurements;
pub mod records;
pub mod schema;
pub mod util;
pub mod wire;
