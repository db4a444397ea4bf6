//! Chain-synchronisation reconciliation between an on-chain wallet backend and
//! the confirmation-tracking observers of a payment-channel node.
//!
//! The library holds the logic of a sync pass as functions on plain values:
//! which watched transactions left the chain, which entered it (grouped by
//! block, ordered by position), and in what order observers hear of it. The
//! backend queries and the observer calls themselves are made by the caller.
pub mod chain;
pub mod resolver;
pub mod grouper;
pub mod registry;
pub mod announce;
pub mod fee;
