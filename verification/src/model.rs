//! The mathematical model of the ledger: lookup functions, stake and value
//! sums, the well-formedness invariant, and one transition predicate per
//! operation.  Every executable operation promises exactly its predicate.

use vstd::prelude::*;

use crate::state::{Aetherwave, AetherwaveError, Bet, BetSide, Market, MarketStatus, User};

verus! {

// ---------------------------------------------------------------------------
// Lookups
// ---------------------------------------------------------------------------

/// Index of the first user owned by `owner`, or -1 when there is none.
pub open spec fn user_index_of(users: Seq<User>, owner: u64) -> int
    decreases users.len(),
{
    if users.len() == 0 {
        -1
    } else if users[0].owner == owner {
        0
    } else {
        let r = user_index_of(users.drop_first(), owner);
        if r < 0 {
            -1
        } else {
            r + 1
        }
    }
}

pub open spec fn has_user(users: Seq<User>, owner: u64) -> bool {
    user_index_of(users, owner) >= 0
}

/// Index of the first market with identifier `id`, or -1 when there is none.
pub open spec fn market_index_of(markets: Seq<Market>, id: u64) -> int
    decreases markets.len(),
{
    if markets.len() == 0 {
        -1
    } else if markets[0].id == id {
        0
    } else {
        let r = market_index_of(markets.drop_first(), id);
        if r < 0 {
            -1
        } else {
            r + 1
        }
    }
}

pub open spec fn has_market(markets: Seq<Market>, id: u64) -> bool {
    market_index_of(markets, id) >= 0
}

/// Index of the first bet on market `market_id`, or -1 when there is none.
pub open spec fn bet_index_of(bets: Seq<Bet>, market_id: u64) -> int
    decreases bets.len(),
{
    if bets.len() == 0 {
        -1
    } else if bets[0].market_id == market_id {
        0
    } else {
        let r = bet_index_of(bets.drop_first(), market_id);
        if r < 0 {
            -1
        } else {
            r + 1
        }
    }
}

// ---------------------------------------------------------------------------
// Stakes and value sums
// ---------------------------------------------------------------------------

/// What one bet contributes to the pool of `market_id` on `side`.
pub open spec fn bet_contrib(b: Bet, market_id: u64, side: BetSide) -> int {
    if b.market_id == market_id && b.side == side {
        b.amount as int
    } else {
        0
    }
}

/// The stake a list of bets holds on one side of one market.
pub open spec fn stake_on(bets: Seq<Bet>, market_id: u64, side: BetSide) -> int
    decreases bets.len(),
{
    if bets.len() == 0 {
        0
    } else {
        stake_on(bets.drop_last(), market_id, side) + bet_contrib(bets.last(), market_id, side)
    }
}

/// The stake all users together hold on one side of one market.
pub open spec fn sum_stakes(users: Seq<User>, market_id: u64, side: BetSide) -> int
    decreases users.len(),
{
    if users.len() == 0 {
        0
    } else {
        sum_stakes(users.drop_last(), market_id, side) + stake_on(
            users.last().active_bets@,
            market_id,
            side,
        )
    }
}

/// Sum of all user balances.
pub open spec fn sum_balances(users: Seq<User>) -> int
    decreases users.len(),
{
    if users.len() == 0 {
        0
    } else {
        sum_balances(users.drop_last()) + users.last().balance
    }
}

pub open spec fn market_pool(m: Market) -> int {
    m.yes_pool + m.no_pool
}

/// Sum of the pools of all still-open markets.
pub open spec fn sum_open_pools(markets: Seq<Market>) -> int
    decreases markets.len(),
{
    if markets.len() == 0 {
        0
    } else {
        sum_open_pools(markets.drop_last()) + if markets.last().status is Open {
            market_pool(markets.last())
        } else {
            0
        }
    }
}

/// Total system value: every balance plus every open pool.
pub open spec fn total_value(l: Aetherwave) -> int {
    sum_balances(l.users@) + sum_open_pools(l.markets@)
}

// ---------------------------------------------------------------------------
// Well-formedness
// ---------------------------------------------------------------------------

pub open spec fn distinct_bet_markets(bets: Seq<Bet>) -> bool {
    forall|a: int, b: int|
        0 <= a < bets.len() && 0 <= b < bets.len() && a != b ==> (#[trigger] bets[a]).market_id
            != (#[trigger] bets[b]).market_id
}

/// The market a bet refers to exists and is still open.
pub open spec fn bet_market_open(markets: Seq<Market>, id: u64) -> bool {
    let k = market_index_of(markets, id);
    k >= 0 && markets[k].status is Open
}

pub open spec fn user_wf(u: User, markets: Seq<Market>) -> bool {
    &&& distinct_bet_markets(u.active_bets@)
    &&& forall|a: int|
        0 <= a < u.active_bets@.len() ==> (#[trigger] u.active_bets@[a]).user == u.owner
    &&& forall|a: int| 0 <= a < u.active_bets@.len() ==> (#[trigger] u.active_bets@[a]).amount > 0
    &&& forall|a: int|
        0 <= a < u.active_bets@.len() ==> bet_market_open(
            markets,
            (#[trigger] u.active_bets@[a]).market_id,
        )
}

pub open spec fn market_wf(m: Market, users: Seq<User>) -> bool {
    &&& m.status is Open || m.status is Resolved
    &&& (m.resolution is Some <==> m.status is Resolved)
    &&& m.status is Open ==> {
        &&& m.yes_pool == sum_stakes(users, m.id, BetSide::Yes)
        &&& m.no_pool == sum_stakes(users, m.id, BetSide::No)
    }
}

/// The ledger invariant.  Constructors establish it and every operation
/// preserves it: owners are unique, market identifiers are strictly
/// increasing and below the allocator, bets are positive, reference open
/// markets and are unique per (user, market), and each open pool equals the
/// total stake placed on it.
pub open spec fn wf(l: Aetherwave) -> bool {
    &&& forall|i: int, j: int|
        0 <= i < l.users@.len() && 0 <= j < l.users@.len() && i != j ==> (
        #[trigger] l.users@[i]).owner != (#[trigger] l.users@[j]).owner
    &&& forall|i: int| 0 <= i < l.users@.len() ==> user_wf(#[trigger] l.users@[i], l.markets@)
    &&& forall|i: int, j: int|
        0 <= i < j < l.markets@.len() ==> (#[trigger] l.markets@[i]).id < (
        #[trigger] l.markets@[j]).id
    &&& forall|k: int| 0 <= k < l.markets@.len() ==> (#[trigger] l.markets@[k]).id < l.next_market_id
    &&& forall|k: int| 0 <= k < l.markets@.len() ==> market_wf(#[trigger] l.markets@[k], l.users@)
}

// ---------------------------------------------------------------------------
// Transition predicates
// ---------------------------------------------------------------------------

/// The operation left the ledger as it found it.
pub open spec fn unchanged(pre: Aetherwave, post: Aetherwave) -> bool {
    &&& post.users@ == pre.users@
    &&& post.markets@ == pre.markets@
    &&& post.next_market_id == pre.next_market_id
}

/// The user list after registering `owner`: unchanged when the owner is
/// already present, else extended by one user with zero balance and no bets.
pub open spec fn users_after_register(pre: Seq<User>, post: Seq<User>, owner: u64) -> bool {
    if has_user(pre, owner) {
        post == pre
    } else {
        &&& post.len() == pre.len() + 1
        &&& forall|i: int| 0 <= i < pre.len() ==> #[trigger] post[i] == pre[i]
        &&& post.last().owner == owner
        &&& post.last().balance == 0
        &&& post.last().active_bets@.len() == 0
    }
}

pub open spec fn register_post(pre: Aetherwave, post: Aetherwave, owner: u64) -> bool {
    &&& users_after_register(pre.users@, post.users@, owner)
    &&& post.markets@ == pre.markets@
    &&& post.next_market_id == pre.next_market_id
}

pub open spec fn deposit_post(pre: Aetherwave, post: Aetherwave, owner: u64, amount: u64) -> bool {
    let i = user_index_of(pre.users@, owner);
    if i < 0 {
        unchanged(pre, post)
    } else {
        &&& post.users@.len() == pre.users@.len()
        &&& forall|j: int|
            0 <= j < pre.users@.len() && j != i ==> #[trigger] post.users@[j] == pre.users@[j]
        &&& post.users@[i].owner == pre.users@[i].owner
        &&& post.users@[i].balance == pre.users@[i].balance.saturating_add(amount)
        &&& post.users@[i].active_bets == pre.users@[i].active_bets
        &&& post.markets@ == pre.markets@
        &&& post.next_market_id == pre.next_market_id
    }
}

pub open spec fn create_market_post(
    pre: Aetherwave,
    post: Aetherwave,
    creator: u64,
    description: Seq<char>,
    now: u64,
) -> bool {
    &&& users_after_register(pre.users@, post.users@, creator)
    &&& post.markets@.len() == pre.markets@.len() + 1
    &&& forall|k: int| 0 <= k < pre.markets@.len() ==> #[trigger] post.markets@[k] == pre.markets@[k]
    &&& post.markets@.last().id == pre.next_market_id
    &&& post.markets@.last().description@ == description
    &&& post.markets@.last().creator == creator
    &&& post.markets@.last().yes_pool == 0
    &&& post.markets@.last().no_pool == 0
    &&& post.markets@.last().status is Open
    &&& post.markets@.last().resolution is None
    &&& post.markets@.last().created_at == now
    &&& post.next_market_id == pre.next_market_id + 1
}

/// The stake `u` already holds on `market_id`, whatever its side.
pub open spec fn prior_stake(u: User, market_id: u64) -> int {
    let j = bet_index_of(u.active_bets@, market_id);
    if j >= 0 {
        u.active_bets@[j].amount as int
    } else {
        0
    }
}

/// The stake `u` already holds on `market_id` on one particular side.
pub open spec fn prior_stake_on(u: User, market_id: u64, side: BetSide) -> int {
    let j = bet_index_of(u.active_bets@, market_id);
    if j >= 0 && u.active_bets@[j].side == side {
        u.active_bets@[j].amount as int
    } else {
        0
    }
}

/// Placing this bet would push a balance or a pool past the representable
/// maximum.  Such a bet is rejected outright so that the books stay exact.
pub open spec fn place_bet_overflows(
    pre: Aetherwave,
    user: u64,
    market_id: u64,
    side: BetSide,
    amount: u64,
) -> bool {
    let i = user_index_of(pre.users@, user);
    let k = market_index_of(pre.markets@, market_id);
    let u = pre.users@[i];
    let m = pre.markets@[k];
    let new_balance = u.balance - amount + prior_stake(u, market_id);
    let new_yes = m.yes_pool - prior_stake_on(u, market_id, BetSide::Yes) + if side is Yes {
        amount as int
    } else {
        0
    };
    let new_no = m.no_pool - prior_stake_on(u, market_id, BetSide::No) + if side is No {
        amount as int
    } else {
        0
    };
    new_balance > u64::MAX || new_yes > u64::MAX || new_no > u64::MAX
}

/// Which error `place_bet` reports, in the order the checks are made; `None`
/// means the bet is accepted.
pub open spec fn place_bet_err(
    pre: Aetherwave,
    user: u64,
    market_id: u64,
    side: BetSide,
    amount: u64,
) -> Option<AetherwaveError> {
    let i = user_index_of(pre.users@, user);
    let k = market_index_of(pre.markets@, market_id);
    if amount == 0 {
        Some(AetherwaveError::InvalidBetAmount)
    } else if i < 0 {
        Some(AetherwaveError::UserNotFound)
    } else if pre.users@[i].balance < amount {
        Some(AetherwaveError::InsufficientBalance)
    } else if k < 0 {
        Some(AetherwaveError::MarketNotFound)
    } else if !(pre.markets@[k].status is Open) {
        Some(AetherwaveError::MarketNotOpen)
    } else if place_bet_overflows(pre, user, market_id, side, amount) {
        Some(AetherwaveError::InvalidBetAmount)
    } else {
        None
    }
}

/// The accepted-bet transition: any prior bet on the same market is refunded
/// and replaced, the new stake moves from the balance into the matching pool,
/// and the bet is recorded.
pub open spec fn place_bet_ok_post(
    pre: Aetherwave,
    post: Aetherwave,
    user: u64,
    market_id: u64,
    side: BetSide,
    amount: u64,
    now: u64,
) -> bool {
    let i = user_index_of(pre.users@, user);
    let k = market_index_of(pre.markets@, market_id);
    let u = pre.users@[i];
    let m = pre.markets@[k];
    let j = bet_index_of(u.active_bets@, market_id);
    let kept = if j >= 0 {
        u.active_bets@.remove(j)
    } else {
        u.active_bets@
    };
    &&& post.users@.len() == pre.users@.len()
    &&& forall|x: int|
        0 <= x < pre.users@.len() && x != i ==> #[trigger] post.users@[x] == pre.users@[x]
    &&& post.users@[i].owner == u.owner
    &&& post.users@[i].balance == u.balance - amount + prior_stake(u, market_id)
    &&& post.users@[i].active_bets@ == kept.push(
        Bet { user, market_id, side, amount, placed_at: now },
    )
    &&& post.markets@.len() == pre.markets@.len()
    &&& forall|x: int|
        0 <= x < pre.markets@.len() && x != k ==> #[trigger] post.markets@[x] == pre.markets@[x]
    &&& post.markets@[k].id == m.id
    &&& post.markets@[k].description == m.description
    &&& post.markets@[k].creator == m.creator
    &&& post.markets@[k].status == m.status
    &&& post.markets@[k].resolution == m.resolution
    &&& post.markets@[k].created_at == m.created_at
    &&& post.markets@[k].yes_pool == m.yes_pool - prior_stake_on(u, market_id, BetSide::Yes)
        + if side is Yes {
        amount as int
    } else {
        0
    }
    &&& post.markets@[k].no_pool == m.no_pool - prior_stake_on(u, market_id, BetSide::No)
        + if side is No {
        amount as int
    } else {
        0
    }
    &&& post.next_market_id == pre.next_market_id
}

pub open spec fn place_bet_post(
    pre: Aetherwave,
    post: Aetherwave,
    user: u64,
    market_id: u64,
    side: BetSide,
    amount: u64,
    now: u64,
) -> bool {
    if place_bet_err(pre, user, market_id, side, amount) is Some {
        unchanged(pre, post)
    } else {
        place_bet_ok_post(pre, post, user, market_id, side, amount, now)
    }
}

// ---------------------------------------------------------------------------
// Resolution
// ---------------------------------------------------------------------------

pub open spec fn bet_wins(side: BetSide, outcome: bool) -> bool {
    (side is Yes && outcome) || (side is No && !outcome)
}

pub open spec fn winning_pool(m: Market, outcome: bool) -> u64 {
    if outcome {
        m.yes_pool
    } else {
        m.no_pool
    }
}

/// Saturating addition over the mathematical integers, clamped at `u64::MAX`.
pub open spec fn sat_add_int(a: int, b: int) -> int {
    if a + b > u64::MAX {
        u64::MAX as int
    } else {
        a + b
    }
}

/// What one user is paid when the market settles: winners receive
/// `floor(stake * total / winning)`, everybody else receives nothing.
pub open spec fn payout_of(u: User, market_id: u64, outcome: bool, total: u64, winning: u64) -> int {
    let j = bet_index_of(u.active_bets@, market_id);
    if j >= 0 && bet_wins(u.active_bets@[j].side, outcome) && winning > 0 {
        (u.active_bets@[j].amount * total) / (winning as int)
    } else {
        0
    }
}

/// How settlement rewrites one user: the payout (if any) is credited and the
/// bet on the resolved market is removed; winners and losers alike lose the
/// record.
pub open spec fn settled_user(
    u0: User,
    u1: User,
    market_id: u64,
    outcome: bool,
    total: u64,
    winning: u64,
) -> bool {
    let j = bet_index_of(u0.active_bets@, market_id);
    &&& u1.owner == u0.owner
    &&& u1.balance == sat_add_int(
        u0.balance as int,
        payout_of(u0, market_id, outcome, total, winning),
    )
    &&& u1.active_bets@ == if j >= 0 {
        u0.active_bets@.remove(j)
    } else {
        u0.active_bets@
    }
}

pub open spec fn resolve_post(
    pre: Aetherwave,
    post: Aetherwave,
    market_id: u64,
    outcome: bool,
) -> bool {
    let k = market_index_of(pre.markets@, market_id);
    if k < 0 {
        unchanged(pre, post)
    } else {
        let m = pre.markets@[k];
        let total = m.yes_pool.saturating_add(m.no_pool);
        let winning = winning_pool(m, outcome);
        &&& post.users@.len() == pre.users@.len()
        &&& forall|x: int|
            0 <= x < pre.users@.len() ==> settled_user(
                pre.users@[x],
                #[trigger] post.users@[x],
                market_id,
                outcome,
                total,
                winning,
            )
        &&& post.markets@.len() == pre.markets@.len()
        &&& forall|x: int|
            0 <= x < pre.markets@.len() && x != k ==> #[trigger] post.markets@[x] == pre.markets@[x]
        &&& post.markets@[k].id == m.id
        &&& post.markets@[k].description == m.description
        &&& post.markets@[k].creator == m.creator
        &&& post.markets@[k].yes_pool == m.yes_pool
        &&& post.markets@[k].no_pool == m.no_pool
        &&& post.markets@[k].status is Resolved
        &&& post.markets@[k].resolution == Some(outcome)
        &&& post.markets@[k].created_at == m.created_at
        &&& post.next_market_id == pre.next_market_id
    }
}

} // verus!
