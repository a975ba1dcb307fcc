//! The ledger's global laws, stated over the transition predicates and
//! proved for every well-formed state and every run: idempotent
//! registration, absence of negative value, exclusivity of bets, finality of
//! resolution, and conservation of value.

use vstd::prelude::*;

use crate::api::{step, trace_ok, Message};
use crate::lemmas::{
    lemma_bet_index_of, lemma_market_index_of, lemma_stake_on_nonneg, lemma_stake_on_unique,
    lemma_sum_balances_nonneg, lemma_sum_balances_push, lemma_sum_balances_update,
    lemma_sum_open_pools_push, lemma_sum_open_pools_update, lemma_user_index_of,
};
use crate::model::{
    bet_index_of, bet_wins, create_market_post, deposit_post, distinct_bet_markets, has_market,
    has_user, market_index_of,
    market_pool, market_wf, payout_of, place_bet_err, place_bet_post, prior_stake,
    prior_stake_on, register_post, resolve_post, settled_user, stake_on,
    sum_balances, sum_open_pools, sum_stakes, total_value, unchanged, user_index_of, user_wf, wf,
    winning_pool,
};
use crate::preserve::{
    lemma_create_preserves_wf, lemma_deposit_preserves_wf, lemma_place_bet_preserves_wf,
    lemma_register_preserves_wf, lemma_resolve_preserves_wf,
};
use crate::state::{Aetherwave, BetSide, User};
use vstd::arithmetic::div_mod::{
    lemma_div_basics, lemma_div_is_ordered, lemma_fundamental_div_mod, lemma_mod_bound,
};
use vstd::arithmetic::mul::{
    lemma_mul_inequality, lemma_mul_is_distributive_add_other_way, lemma_mul_nonnegative,
};

verus! {

// ---------------------------------------------------------------------------
// Idempotent registration
// ---------------------------------------------------------------------------

/// Registering the same identity a second time leaves the ledger exactly as
/// the first registration left it.
pub proof fn lemma_register_idempotent(l0: Aetherwave, l1: Aetherwave, l2: Aetherwave, owner: u64)
    requires
        register_post(l0, l1, owner),
        register_post(l1, l2, owner),
    ensures
        unchanged(l1, l2),
{
    if !has_user(l0.users@, owner) {
        lemma_user_index_of(l1.users@, owner);
        if user_index_of(l1.users@, owner) < 0 {
            assert(l1.users@[l1.users@.len() - 1].owner != owner);
        }
    }
}

// ---------------------------------------------------------------------------
// No negative state
// ---------------------------------------------------------------------------

/// No balance, pool or stake of a well-formed ledger is ever negative.
pub proof fn lemma_no_negative_state(l: Aetherwave)
    requires
        wf(l),
    ensures
        forall|i: int| 0 <= i < l.users@.len() ==> (#[trigger] l.users@[i]).balance >= 0,
        forall|k: int|
            0 <= k < l.markets@.len() ==> (#[trigger] l.markets@[k]).yes_pool >= 0 && l.markets@[
                k].no_pool >= 0,
        sum_balances(l.users@) >= 0,
        sum_open_pools(l.markets@) >= 0,
        total_value(l) >= 0,
{
    lemma_sum_balances_nonneg(l.users@);
    lemma_sum_open_pools_nonneg(l.markets@);
}

proof fn lemma_sum_open_pools_nonneg(markets: Seq<crate::state::Market>)
    ensures
        sum_open_pools(markets) >= 0,
    decreases markets.len(),
{
    if markets.len() > 0 {
        lemma_sum_open_pools_nonneg(markets.drop_last());
    }
}

// ---------------------------------------------------------------------------
// Bet exclusivity
// ---------------------------------------------------------------------------

/// In a well-formed ledger no user holds two bets on the same market.
pub proof fn lemma_bet_exclusivity(l: Aetherwave)
    requires
        wf(l),
    ensures
        forall|i: int, a: int, b: int|
            0 <= i < l.users@.len() && 0 <= a < l.users@[i].active_bets@.len() && 0 <= b
                < l.users@[i].active_bets@.len() && a != b ==> (
            #[trigger] l.users@[i].active_bets@[a]).market_id != (
            #[trigger] l.users@[i].active_bets@[b]).market_id,
{
    assert forall|i: int, a: int, b: int|
        0 <= i < l.users@.len() && 0 <= a < l.users@[i].active_bets@.len() && 0 <= b
            < l.users@[i].active_bets@.len() && a != b implies (
        #[trigger] l.users@[i].active_bets@[a]).market_id
        != (#[trigger] l.users@[i].active_bets@[b]).market_id by {
        assert(user_wf(l.users@[i], l.markets@));
    }
}

// ---------------------------------------------------------------------------
// Resolution finality
// ---------------------------------------------------------------------------

/// After a market resolves, no user retains an active bet on it.
pub proof fn lemma_resolution_finality(
    pre: Aetherwave,
    post: Aetherwave,
    market_id: u64,
    outcome: bool,
)
    requires
        wf(pre),
        resolve_post(pre, post, market_id, outcome),
        has_market(pre.markets@, market_id),
    ensures
        forall|x: int|
            0 <= x < post.users@.len() ==> bet_index_of(
                (#[trigger] post.users@[x]).active_bets@,
                market_id,
            ) == -1,
{
    let k = market_index_of(pre.markets@, market_id);
    let m = pre.markets@[k];
    let total = m.yes_pool.saturating_add(m.no_pool);
    let winning = winning_pool(m, outcome);
    assert forall|x: int| 0 <= x < post.users@.len() implies bet_index_of(
        (#[trigger] post.users@[x]).active_bets@,
        market_id,
    ) == -1 by {
        let u = pre.users@[x];
        let u1 = post.users@[x];
        assert(settled_user(u, u1, market_id, outcome, total, winning));
        assert(user_wf(u, pre.markets@));
        let j = bet_index_of(u.active_bets@, market_id);
        lemma_bet_index_of(u.active_bets@, market_id);
        assert forall|a: int| 0 <= a < u1.active_bets@.len() implies (
        #[trigger] u1.active_bets@[a]).market_id != market_id by {
            if j >= 0 {
                let a0: int = if a < j {
                    a
                } else {
                    a + 1
                };
                assert(u1.active_bets@[a] == u.active_bets@[a0]);
            }
        }
        lemma_bet_index_of(u1.active_bets@, market_id);
        if bet_index_of(u1.active_bets@, market_id) >= 0 {
            assert(u1.active_bets@[bet_index_of(u1.active_bets@, market_id)].market_id
                != market_id);
        }
    }
}

// ---------------------------------------------------------------------------
// Conservation of value, one step at a time
// ---------------------------------------------------------------------------

/// Registration neither creates nor destroys value.
pub proof fn lemma_register_value(pre: Aetherwave, post: Aetherwave, owner: u64)
    requires
        register_post(pre, post, owner),
    ensures
        total_value(post) == total_value(pre),
{
    if !has_user(pre.users@, owner) {
        let u0 = post.users@.last();
        assert(post.users@ =~= pre.users@.push(u0));
        lemma_sum_balances_push(pre.users@, u0);
    }
}

/// Opening a market neither creates nor destroys value: both pools start
/// empty.
pub proof fn lemma_create_value(
    pre: Aetherwave,
    post: Aetherwave,
    creator: u64,
    description: Seq<char>,
    now: u64,
)
    requires
        create_market_post(pre, post, creator, description, now),
    ensures
        total_value(post) == total_value(pre),
{
    if !has_user(pre.users@, creator) {
        let u0 = post.users@.last();
        assert(post.users@ =~= pre.users@.push(u0));
        lemma_sum_balances_push(pre.users@, u0);
    }
    let mnew = post.markets@.last();
    assert(post.markets@ =~= pre.markets@.push(mnew));
    lemma_sum_open_pools_push(pre.markets@, mnew);
}

/// A deposit raises the total by exactly what was credited: the full amount,
/// unless the balance clamps at the representable maximum.
pub proof fn lemma_deposit_value(pre: Aetherwave, post: Aetherwave, owner: u64, amount: u64)
    requires
        deposit_post(pre, post, owner, amount),
    ensures
        total_value(post) == total_value(pre) + deposit_gain(pre, owner, amount),
        0 <= deposit_gain(pre, owner, amount) <= amount,
        has_user(pre.users@, owner) && pre.users@[user_index_of(pre.users@, owner)].balance
            + amount <= u64::MAX ==> deposit_gain(pre, owner, amount) == amount,
{
    let i = user_index_of(pre.users@, owner);
    if i >= 0 {
        lemma_user_index_of(pre.users@, owner);
        let u1 = post.users@[i];
        assert(post.users@ =~= pre.users@.update(i, u1));
        lemma_sum_balances_update(pre.users@, i, u1);
    }
}

/// What a deposit actually credits: the amount, clamped by the headroom the
/// balance has left; zero when the owner is unknown.
pub open spec fn deposit_gain(pre: Aetherwave, owner: u64, amount: u64) -> int {
    let i = user_index_of(pre.users@, owner);
    if i >= 0 {
        pre.users@[i].balance.saturating_add(amount) - pre.users@[i].balance
    } else {
        0
    }
}

/// Placing a bet only moves value: out of the balance, into the pool, with
/// any refunded prior stake moving back.  The total is untouched.
pub proof fn lemma_place_bet_value(
    pre: Aetherwave,
    post: Aetherwave,
    user: u64,
    market_id: u64,
    side: BetSide,
    amount: u64,
    now: u64,
)
    requires
        wf(pre),
        place_bet_post(pre, post, user, market_id, side, amount, now),
    ensures
        total_value(post) == total_value(pre),
{
    if place_bet_err(pre, user, market_id, side, amount) is Some {
        return ;
    }
    let i = user_index_of(pre.users@, user);
    let k = market_index_of(pre.markets@, market_id);
    lemma_user_index_of(pre.users@, user);
    lemma_market_index_of(pre.markets@, market_id);
    let u = pre.users@[i];
    let m = pre.markets@[k];
    let j = bet_index_of(u.active_bets@, market_id);
    lemma_bet_index_of(u.active_bets@, market_id);
    assert(user_wf(u, pre.markets@));
    if j >= 0 {
        assert(prior_stake_on(u, market_id, BetSide::Yes) + prior_stake_on(
            u,
            market_id,
            BetSide::No,
        ) == prior_stake(u, market_id));
    }
    let u1 = post.users@[i];
    assert(post.users@ =~= pre.users@.update(i, u1));
    lemma_sum_balances_update(pre.users@, i, u1);
    let m1 = post.markets@[k];
    assert(post.markets@ =~= pre.markets@.update(k, m1));
    lemma_sum_open_pools_update(pre.markets@, k, m1);
}

// ---------------------------------------------------------------------------
// Conservation across resolution
// ---------------------------------------------------------------------------

/// What settlement pays out in total.
pub open spec fn paid(
    users: Seq<User>,
    market_id: u64,
    outcome: bool,
    total: u64,
    winning: u64,
) -> int
    decreases users.len(),
{
    if users.len() == 0 {
        0
    } else {
        paid(users.drop_last(), market_id, outcome, total, winning) + payout_of(
            users.last(),
            market_id,
            outcome,
            total,
            winning,
        )
    }
}

/// Each single payout is non-negative and, weighted by the winning pool,
/// bounded by the winner's stake share of the total.
proof fn lemma_payout_bound(u: User, market_id: u64, outcome: bool, total: u64, winning: u64)
    requires
        distinct_bet_markets(u.active_bets@),
    ensures
        payout_of(u, market_id, outcome, total, winning) >= 0,
        winning > 0 ==> payout_of(u, market_id, outcome, total, winning) * winning <= stake_on(
            u.active_bets@,
            market_id,
            if outcome {
                BetSide::Yes
            } else {
                BetSide::No
            },
        ) * total,
{
    let wside = if outcome {
        BetSide::Yes
    } else {
        BetSide::No
    };
    let j = bet_index_of(u.active_bets@, market_id);
    lemma_bet_index_of(u.active_bets@, market_id);
    lemma_stake_on_nonneg(u.active_bets@, market_id, wside);
    if j >= 0 && bet_wins(u.active_bets@[j].side, outcome) && winning > 0 {
        let a = u.active_bets@[j].amount as int;
        let t = total as int;
        let w = winning as int;
        lemma_mul_nonnegative(a, t);
        lemma_div_basics(w);
        lemma_div_is_ordered(0, a * t, w);
        lemma_fundamental_div_mod(a * t, w);
        lemma_mod_bound(a * t, w);
        assert(payout_of(u, market_id, outcome, total, winning) == (a * t) / w);
        assert(w * ((a * t) / w) <= a * t);
        lemma_stake_on_unique(u.active_bets@, j, market_id, wside);
        assert(stake_on(u.active_bets@, market_id, wside) == a);
        assert(((a * t) / w) * w <= a * t) by {
            assert(w * ((a * t) / w) == ((a * t) / w) * w) by (nonlinear_arith);
        }
    } else {
        if winning > 0 {
            lemma_mul_nonnegative(stake_on(u.active_bets@, market_id, wside), total as int);
        }
    }
}

/// Summed over every user, the payouts weighted by the winning pool never
/// exceed the total winning stake times the combined pool.
proof fn lemma_paid_bound(
    users: Seq<User>,
    market_id: u64,
    outcome: bool,
    total: u64,
    winning: u64,
)
    requires
        forall|x: int|
            0 <= x < users.len() ==> distinct_bet_markets((#[trigger] users[x]).active_bets@),
    ensures
        paid(users, market_id, outcome, total, winning) >= 0,
        winning > 0 ==> paid(users, market_id, outcome, total, winning) * winning <= sum_stakes(
            users,
            market_id,
            if outcome {
                BetSide::Yes
            } else {
                BetSide::No
            },
        ) * total,
    decreases users.len(),
{
    let wside = if outcome {
        BetSide::Yes
    } else {
        BetSide::No
    };
    if users.len() == 0 {
    } else {
        assert(users[users.len() - 1] == users.last());
        lemma_paid_bound(users.drop_last(), market_id, outcome, total, winning);
        lemma_payout_bound(users.last(), market_id, outcome, total, winning);
        if winning > 0 {
            let p1 = paid(users.drop_last(), market_id, outcome, total, winning);
            let p2 = payout_of(users.last(), market_id, outcome, total, winning);
            let s1 = sum_stakes(users.drop_last(), market_id, wside);
            let s2 = stake_on(users.last().active_bets@, market_id, wside);
            lemma_mul_is_distributive_add_other_way(winning as int, p1, p2);
            lemma_mul_is_distributive_add_other_way(total as int, s1, s2);
        }
    }
}

/// Settlement credits at most what `paid` says, and exactly that when no
/// balance clamps.
proof fn lemma_sum_balances_settled(
    u0: Seq<User>,
    u1: Seq<User>,
    market_id: u64,
    outcome: bool,
    total: u64,
    winning: u64,
)
    requires
        u0.len() == u1.len(),
        forall|x: int|
            0 <= x < u0.len() ==> settled_user(
                u0[x],
                #[trigger] u1[x],
                market_id,
                outcome,
                total,
                winning,
            ),
    ensures
        sum_balances(u1) <= sum_balances(u0) + paid(u0, market_id, outcome, total, winning),
        (forall|x: int|
            0 <= x < u0.len() ==> (#[trigger] u0[x]).balance + payout_of(
                u0[x],
                market_id,
                outcome,
                total,
                winning,
            ) <= u64::MAX) ==> sum_balances(u1) == sum_balances(u0) + paid(
            u0,
            market_id,
            outcome,
            total,
            winning,
        ),
    decreases u0.len(),
{
    if u0.len() > 0 {
        assert(u1[u0.len() - 1] == u1.last());
        assert(u0[u0.len() - 1] == u0.last());
        lemma_sum_balances_settled(
            u0.drop_last(),
            u1.drop_last(),
            market_id,
            outcome,
            total,
            winning,
        );
        assert(settled_user(u0.last(), u1.last(), market_id, outcome, total, winning));
        if forall|x: int|
            0 <= x < u0.len() ==> (#[trigger] u0[x]).balance + payout_of(
                u0[x],
                market_id,
                outcome,
                total,
                winning,
            ) <= u64::MAX {
            assert forall|x: int| 0 <= x < u0.drop_last().len() implies (
            #[trigger] u0.drop_last()[x]).balance + payout_of(
                u0.drop_last()[x],
                market_id,
                outcome,
                total,
                winning,
            ) <= u64::MAX by {
                assert(u0.drop_last()[x] == u0[x]);
            }
        }
    }
}

/// A resolution is exact when no winner's balance clamps and the payouts
/// add back up to exactly the pool that leaves the open ledger.
pub open spec fn resolve_exact(pre: Aetherwave, market_id: u64, outcome: bool) -> bool {
    let k = market_index_of(pre.markets@, market_id);
    k >= 0 ==> {
        let m = pre.markets@[k];
        let total = m.yes_pool.saturating_add(m.no_pool);
        let winning = winning_pool(m, outcome);
        &&& forall|x: int|
            0 <= x < pre.users@.len() ==> (#[trigger] pre.users@[x]).balance + payout_of(
                pre.users@[x],
                market_id,
                outcome,
                total,
                winning,
            ) <= u64::MAX
        &&& paid(pre.users@, market_id, outcome, total, winning) == if m.status is Open {
            market_pool(m)
        } else {
            0
        }
    }
}

/// Resolution never creates value: the pools leave the open ledger, the
/// payouts re-enter it, and the payouts never exceed the pools.
pub proof fn lemma_resolve_value(pre: Aetherwave, post: Aetherwave, market_id: u64, outcome: bool)
    requires
        wf(pre),
        resolve_post(pre, post, market_id, outcome),
    ensures
        total_value(post) <= total_value(pre),
        resolve_exact(pre, market_id, outcome) ==> total_value(post) == total_value(pre),
{
    let k = market_index_of(pre.markets@, market_id);
    if k < 0 {
        return ;
    }
    lemma_market_index_of(pre.markets@, market_id);
    let m = pre.markets@[k];
    let total = m.yes_pool.saturating_add(m.no_pool);
    let winning = winning_pool(m, outcome);
    let wside = if outcome {
        BetSide::Yes
    } else {
        BetSide::No
    };
    assert forall|x: int| 0 <= x < pre.users@.len() implies distinct_bet_markets(
        (#[trigger] pre.users@[x]).active_bets@,
    ) by {
        assert(user_wf(pre.users@[x], pre.markets@));
    }
    lemma_sum_balances_settled(pre.users@, post.users@, market_id, outcome, total, winning);
    lemma_paid_bound(pre.users@, market_id, outcome, total, winning);
    let p = paid(pre.users@, market_id, outcome, total, winning);
    let m1 = post.markets@[k];
    assert(post.markets@ =~= pre.markets@.update(k, m1));
    lemma_sum_open_pools_update(pre.markets@, k, m1);
    assert(market_wf(m, pre.users@));
    if m.status is Open {
        // the winning stakes are exactly the winning pool
        assert(sum_stakes(pre.users@, market_id, wside) == winning as int);
        if winning > 0 {
            assert(p * winning <= (winning as int) * (total as int));
            if p > total as int {
                lemma_mul_inequality(total as int + 1, p, winning as int);
                lemma_mul_is_distributive_add_other_way(winning as int, total as int, 1);
            }
            assert(p <= total as int);
        } else {
            // nobody bet on the winning side, so nothing is paid
            lemma_paid_wside_zero(pre.users@, market_id, outcome, total, winning);
        }
        assert(p <= market_pool(m));
    } else {
        // a market that was not open carries no bets and pays nothing
        assert forall|x: int| 0 <= x < pre.users@.len() implies payout_of(
            #[trigger] pre.users@[x],
            market_id,
            outcome,
            total,
            winning,
        ) == 0 by {
            let u = pre.users@[x];
            assert(user_wf(u, pre.markets@));
            let j = bet_index_of(u.active_bets@, market_id);
            lemma_bet_index_of(u.active_bets@, market_id);
            if j >= 0 {
                assert(crate::model::bet_market_open(pre.markets@, market_id));
                assert(false);
            }
        }
        lemma_paid_pointwise_zero(pre.users@, market_id, outcome, total, winning);
    }
}

/// With an empty winning pool there are no winners to pay.
proof fn lemma_paid_wside_zero(
    users: Seq<User>,
    market_id: u64,
    outcome: bool,
    total: u64,
    winning: u64,
)
    requires
        winning == 0,
    ensures
        paid(users, market_id, outcome, total, winning) == 0,
    decreases users.len(),
{
    if users.len() > 0 {
        lemma_paid_wside_zero(users.drop_last(), market_id, outcome, total, winning);
    }
}

/// When every single payout is zero, the sum is.
proof fn lemma_paid_pointwise_zero(
    users: Seq<User>,
    market_id: u64,
    outcome: bool,
    total: u64,
    winning: u64,
)
    requires
        forall|x: int|
            0 <= x < users.len() ==> payout_of(
                #[trigger] users[x],
                market_id,
                outcome,
                total,
                winning,
            ) == 0,
    ensures
        paid(users, market_id, outcome, total, winning) == 0,
    decreases users.len(),
{
    if users.len() > 0 {
        assert(users[users.len() - 1] == users.last());
        lemma_paid_pointwise_zero(users.drop_last(), market_id, outcome, total, winning);
    }
}

// ---------------------------------------------------------------------------
// Conservation along a whole run
// ---------------------------------------------------------------------------

/// What one step may add to the total: only a deposit adds anything.
pub open spec fn step_gain(pre: Aetherwave, msg: Message) -> int {
    match msg {
        Message::Deposit { owner, amount } => deposit_gain(pre, owner, amount),
        _ => 0,
    }
}

/// Every step preserves well-formedness.
pub proof fn lemma_step_preserves_wf(pre: Aetherwave, post: Aetherwave, msg: Message)
    requires
        wf(pre),
        step(pre, post, msg),
    ensures
        wf(post),
{
    match msg {
        Message::RegisterUser { owner } => lemma_register_preserves_wf(pre, post, owner),
        Message::Deposit { owner, amount } => lemma_deposit_preserves_wf(pre, post, owner, amount),
        Message::CreateMarket { creator, description } => {
            let now = choose|now: u64| create_market_post(pre, post, creator, description@, now);
            lemma_create_preserves_wf(pre, post, creator, description@, now);
        },
        Message::PlaceBet { user, market_id, side, amount } => {
            let now = choose|now: u64|
                place_bet_post(pre, post, user, market_id, side, amount, now);
            lemma_place_bet_preserves_wf(pre, post, user, market_id, side, amount, now);
        },
        Message::ResolveMarket { market_id, outcome } => lemma_resolve_preserves_wf(
            pre,
            post,
            market_id,
            outcome,
        ),
    }
}

/// Whether one step conserves value exactly.  Relative to what deposits
/// actually credit, only a resolution can lose value: by clamping a payout
/// or by leaving rounding dust behind.
pub open spec fn lossless_step(pre: Aetherwave, msg: Message) -> bool {
    match msg {
        Message::ResolveMarket { market_id, outcome } => resolve_exact(pre, market_id, outcome),
        _ => true,
    }
}

/// One step never creates value beyond its deposit; outside resolution, and
/// through an exact resolution, it conserves value exactly.
pub proof fn lemma_step_value(pre: Aetherwave, post: Aetherwave, msg: Message)
    requires
        wf(pre),
        step(pre, post, msg),
    ensures
        total_value(post) <= total_value(pre) + step_gain(pre, msg),
        step_gain(pre, msg) >= 0,
        !(msg is ResolveMarket) ==> total_value(post) == total_value(pre) + step_gain(pre, msg),
        lossless_step(pre, msg) ==> total_value(post) == total_value(pre) + step_gain(pre, msg),
{
    match msg {
        Message::RegisterUser { owner } => lemma_register_value(pre, post, owner),
        Message::Deposit { owner, amount } => lemma_deposit_value(pre, post, owner, amount),
        Message::CreateMarket { creator, description } => {
            let now = choose|now: u64| create_market_post(pre, post, creator, description@, now);
            lemma_create_value(pre, post, creator, description@, now);
        },
        Message::PlaceBet { user, market_id, side, amount } => {
            let now = choose|now: u64|
                place_bet_post(pre, post, user, market_id, side, amount, now);
            lemma_place_bet_value(pre, post, user, market_id, side, amount, now);
        },
        Message::ResolveMarket { market_id, outcome } => lemma_resolve_value(
            pre,
            post,
            market_id,
            outcome,
        ),
    }
}

/// Every state a run reaches is well-formed.  Absence of negative value and
/// bet exclusivity therefore hold in every reachable state.
pub proof fn lemma_trace_wf(states: Seq<Aetherwave>, msgs: Seq<Message>)
    requires
        trace_ok(states, msgs),
    ensures
        forall|i: int| 0 <= i < states.len() ==> wf(#[trigger] states[i]),
    decreases msgs.len(),
{
    if msgs.len() == 0 {
    } else {
        let n = msgs.len() as int;
        assert forall|i: int| 0 <= i < n - 1 implies #[trigger] step(
            states.drop_last()[i],
            states.drop_last()[i + 1],
            msgs.drop_last()[i],
        ) by {
            assert(step(states[i], states[i + 1], msgs[i]));
        }
        assert(states.drop_last()[0] == states[0]);
        lemma_trace_wf(states.drop_last(), msgs.drop_last());
        assert(states.drop_last()[n - 1] == states[n - 1]);
        assert(wf(states[n - 1]));
        assert(step(states[n - 1], states[n], msgs[n - 1]));
        lemma_step_preserves_wf(states[n - 1], states[n], msgs[n - 1]);
        assert forall|i: int| 0 <= i < states.len() implies wf(#[trigger] states[i]) by {
            if i < n {
                assert(states.drop_last()[i] == states[i]);
            }
        }
    }
}

/// In every state a run reaches, nothing is negative: not a balance, not a
/// pool, and not the total.
pub proof fn lemma_trace_no_negative(states: Seq<Aetherwave>, msgs: Seq<Message>)
    requires
        trace_ok(states, msgs),
    ensures
        forall|i: int| 0 <= i < states.len() ==> total_value(#[trigger] states[i]) >= 0,
        forall|i: int, x: int|
            0 <= i < states.len() && 0 <= x < states[i].users@.len() ==> (
            #[trigger] states[i].users@[x]).balance >= 0,
{
    lemma_trace_wf(states, msgs);
    assert forall|i: int| 0 <= i < states.len() implies total_value(#[trigger] states[i])
        >= 0 by {
        lemma_no_negative_state(states[i]);
    }
}

/// What a whole run credits through deposits.
pub open spec fn trace_gains(states: Seq<Aetherwave>, msgs: Seq<Message>) -> int
    decreases msgs.len(),
{
    if msgs.len() == 0 {
        0
    } else {
        trace_gains(states.drop_last(), msgs.drop_last()) + step_gain(
            states[msgs.len() - 1],
            msgs.last(),
        )
    }
}

/// Conservation: across any run, the total value — every balance plus every
/// open pool — never exceeds what the deposits of the run put in, and as
/// long as no market resolves it equals it exactly.  (Resolution may round
/// payouts down, leaving undistributed dust behind.)
pub proof fn lemma_conservation(states: Seq<Aetherwave>, msgs: Seq<Message>)
    requires
        trace_ok(states, msgs),
    ensures
        total_value(states.last()) <= total_value(states[0]) + trace_gains(states, msgs),
        trace_gains(states, msgs) >= 0,
        (forall|i: int| 0 <= i < msgs.len() ==> !((#[trigger] msgs[i]) is ResolveMarket))
            ==> total_value(states.last()) == total_value(states[0]) + trace_gains(states, msgs),
        (forall|i: int|
            0 <= i < msgs.len() ==> lossless_step(states[i], #[trigger] msgs[i])) ==> total_value(
            states.last(),
        ) == total_value(states[0]) + trace_gains(states, msgs),
    decreases msgs.len(),
{
    if msgs.len() == 0 {
    } else {
        let n = msgs.len() as int;
        assert forall|i: int| 0 <= i < n - 1 implies #[trigger] step(
            states.drop_last()[i],
            states.drop_last()[i + 1],
            msgs.drop_last()[i],
        ) by {
            assert(step(states[i], states[i + 1], msgs[i]));
        }
        assert(states.drop_last()[0] == states[0]);
        lemma_conservation(states.drop_last(), msgs.drop_last());
        lemma_trace_wf(states, msgs);
        assert(wf(states[n - 1]));
        assert(step(states[n - 1], states[n], msgs[n - 1]));
        lemma_step_value(states[n - 1], states[n], msgs[n - 1]);
        assert(states.drop_last().last() == states[n - 1]);
        assert forall|i: int|
            0 <= i < msgs.drop_last().len() && (forall|x: int|
                0 <= x < msgs.len() ==> !((#[trigger] msgs[x]) is ResolveMarket)) implies !((
        #[trigger] msgs.drop_last()[i]) is ResolveMarket) by {
            assert(msgs.drop_last()[i] == msgs[i]);
        }
        if forall|i: int| 0 <= i < msgs.len() ==> lossless_step(states[i], #[trigger] msgs[i]) {
            assert forall|i: int| 0 <= i < msgs.drop_last().len() implies lossless_step(
                states.drop_last()[i],
                #[trigger] msgs.drop_last()[i],
            ) by {
                assert(msgs.drop_last()[i] == msgs[i]);
                assert(states.drop_last()[i] == states[i]);
                assert(lossless_step(states[i], msgs[i]));
            }
            assert(lossless_step(states[n - 1], msgs[n - 1]));
        }
    }
}

} // verus!
