//! A verified core for reputation-weighted governance.
//!
//! `reputation` keeps contribution claims, collects verifier verdicts and maintains a
//! bounded reputation score per account. `governance` runs proposals whose voting power
//! is the integer square root of reputation, scaled by topical expertise and increased by
//! delegation, with quorum, supermajority and a timelock before execution. `laws` states
//! properties that hold across operations. Every operation takes the current height and
//! the caller as plain values and returns the notifications it produced.

pub mod arith;
pub mod governance;
pub mod laws;
pub mod reputation;
pub mod types;
