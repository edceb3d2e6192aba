//! Verified core of a wallet balance snapshot service.
//!
//! Given an account address and an ordered registry of token contracts, the
//! library validates the address, decides which read-only queries a chain
//! client must run, filters zero balances, formats raw integer amounts as
//! fixed-point decimal strings without any floating-point rounding, and
//! assembles the final snapshot.  All network traffic is left to the caller:
//! the `Session` type hands out the queries one by one and consumes their
//! results, so the logic here is verified for every possible chain answer.

pub mod address;
pub mod amount;
pub mod digits;
pub mod format;
pub mod service;
pub mod session;
pub mod types;
