//! A consistent in-memory view of liquidity-pool state, folded from an ordered
//! feed of snapshot and delta messages, with constant-product swap quotes
//! computed against it.

pub mod decode;
pub mod pool;
pub mod quote;
pub mod reconcile;
pub mod store;
pub mod table;
pub mod wide;
pub mod wire;
