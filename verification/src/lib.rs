//! Accounting core of a binary-outcome prediction market.
//!
//! The ledger tracks user balances, market pools and individual bets, and
//! distributes proportional payouts when a market resolves.  Every mutating
//! operation is specified by a transition predicate over the ledger state,
//! and the global accounting laws (conservation of value, non-negativity,
//! bet exclusivity, resolution finality) are proved in `laws`.

pub mod api;
pub mod laws;
pub mod lemmas;
pub mod model;
pub mod ops;
pub mod preserve;
pub mod state;
