//! Data model of the ledger: users, markets, bets, and the error kinds.

use vstd::prelude::*;

verus! {

/// Marker type naming the ledger's external interface.
pub struct AetherwaveAbi;

/// One identifier per market, assigned monotonically and never reused.
pub type MarketId = u64;

/// An authenticated principal, as handed in by the hosting boundary.
pub type OwnerId = u64;

/// A fixed-point integer quantity of value.
pub type Amount = u64;

/// Every failure an operation can report.  All of them are precondition
/// violations, detected before any state is touched.
#[derive(Clone, Copy, Debug, PartialEq, Eq, Structural)]
pub enum AetherwaveError {
    UserNotFound,
    InsufficientBalance,
    MarketNotFound,
    MarketNotOpen,
    InvalidBetAmount,
}

/// The side of a binary-outcome market a bet is placed on.
#[derive(Clone, Copy, Debug, PartialEq, Eq, Hash, Structural)]
pub enum BetSide {
    Yes,
    No,
}

/// Lifecycle of a market.  `Closed` is reserved for future use: no operation
/// produces it, and well-formed ledgers never hold it.
#[derive(Clone, Copy, Debug, PartialEq, Eq, Structural)]
pub enum MarketStatus {
    Open,
    Closed,
    Resolved,
}

/// A single active bet.  It exists only while its market is open and is
/// consumed when the market resolves.
#[derive(Clone, Copy, Debug, PartialEq, Eq, Structural)]
pub struct Bet {
    pub user: OwnerId,
    pub market_id: MarketId,
    pub side: BetSide,
    pub amount: Amount,
    pub placed_at: u64,
}

/// A registered principal with a balance and at most one active bet per
/// market.
#[derive(Clone, Debug)]
pub struct User {
    pub owner: OwnerId,
    pub balance: Amount,
    pub active_bets: Vec<Bet>,
}

/// A binary-outcome market with one pool per side.
#[derive(Clone, Debug)]
pub struct Market {
    pub id: MarketId,
    pub description: String,
    pub creator: OwnerId,
    pub yes_pool: Amount,
    pub no_pool: Amount,
    pub status: MarketStatus,
    pub resolution: Option<bool>,
    pub created_at: u64,
}

/// The whole ledger: the unit of mutation and of persistence.
#[derive(Clone, Debug)]
pub struct Aetherwave {
    pub users: Vec<User>,
    pub markets: Vec<Market>,
    pub next_market_id: MarketId,
}

impl Default for Aetherwave {
    /// The empty ledger: no users, no markets, identifiers start at 1.  It
    /// is well-formed and holds no value.
    fn default() -> (s: Self)
        ensures
            s.users@.len() == 0,
            s.markets@.len() == 0,
            s.next_market_id == 1,
            crate::model::wf(s),
            crate::model::total_value(s) == 0,
    {
        Aetherwave { users: Vec::new(), markets: Vec::new(), next_market_id: 1 }
    }
}

} // verus!
