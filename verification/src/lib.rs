//! A fair-allocation engine for a fixed collection of token identities.
//!
//! The engine hands out the identities `0, 1, ..., N-1` one at a time, in a
//! uniformly random order, without ever materialising the full collection:
//! a slot whose value was never written is read as its own index.  Each
//! draw removes one identity by the classic swap-remove step, so the
//! remaining identities always sit at positions `0 .. len`.
//!
//! `Raffle` is the plain pool; `RaffleCollection` is the same pool with an
//! append-only log of past winners and an upper bound on how many draws may
//! ever succeed.

pub mod model;
pub mod payout;
pub mod price;
pub mod raffle;
pub mod raffle_collection;
pub mod slot_map;
pub mod types;
pub mod util;
