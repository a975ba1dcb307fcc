//! Inductive facts about the model's lookup and summation functions.  The
//! operation proofs and the global laws are assembled from these.

use vstd::prelude::*;

use crate::model::{
    bet_contrib, bet_index_of, distinct_bet_markets, market_index_of, market_pool, stake_on,
    sum_balances, sum_open_pools, sum_stakes, user_index_of,
};
use crate::state::{Bet, BetSide, Market, User};

verus! {

// ---------------------------------------------------------------------------
// Lookup characterizations
// ---------------------------------------------------------------------------

pub proof fn lemma_user_index_of(users: Seq<User>, owner: u64)
    ensures
        ({
            let r = user_index_of(users, owner);
            &&& r >= 0 ==> 0 <= r < users.len() && users[r].owner == owner
            &&& r < 0 ==> r == -1 && forall|i: int|
                0 <= i < users.len() ==> (#[trigger] users[i]).owner != owner
        }),
    decreases users.len(),
{
    if users.len() == 0 {
    } else if users[0].owner == owner {
    } else {
        lemma_user_index_of(users.drop_first(), owner);
        let r1 = user_index_of(users.drop_first(), owner);
        if r1 >= 0 {
            assert(users.drop_first()[r1] == users[r1 + 1]);
        } else {
            assert forall|i: int| 0 <= i < users.len() implies (#[trigger] users[i]).owner
                != owner by {
                if i > 0 {
                    assert(users.drop_first()[i - 1] == users[i]);
                }
            }
        }
    }
}

pub proof fn lemma_market_index_of(markets: Seq<Market>, id: u64)
    ensures
        ({
            let r = market_index_of(markets, id);
            &&& r >= 0 ==> 0 <= r < markets.len() && markets[r].id == id && forall|i: int|
                0 <= i < r ==> (#[trigger] markets[i]).id != id
            &&& r < 0 ==> r == -1 && forall|i: int|
                0 <= i < markets.len() ==> (#[trigger] markets[i]).id != id
        }),
    decreases markets.len(),
{
    if markets.len() == 0 {
    } else if markets[0].id == id {
    } else {
        lemma_market_index_of(markets.drop_first(), id);
        let r1 = market_index_of(markets.drop_first(), id);
        if r1 >= 0 {
            assert(markets.drop_first()[r1] == markets[r1 + 1]);
            assert forall|i: int| 0 <= i < r1 + 1 implies (#[trigger] markets[i]).id != id by {
                if i > 0 {
                    assert(markets.drop_first()[i - 1] == markets[i]);
                }
            }
        } else {
            assert forall|i: int| 0 <= i < markets.len() implies (#[trigger] markets[i]).id
                != id by {
                if i > 0 {
                    assert(markets.drop_first()[i - 1] == markets[i]);
                }
            }
        }
    }
}

pub proof fn lemma_bet_index_of(bets: Seq<Bet>, market_id: u64)
    ensures
        ({
            let r = bet_index_of(bets, market_id);
            &&& r >= 0 ==> 0 <= r < bets.len() && bets[r].market_id == market_id
            &&& r < 0 ==> r == -1 && forall|i: int|
                0 <= i < bets.len() ==> (#[trigger] bets[i]).market_id != market_id
        }),
    decreases bets.len(),
{
    if bets.len() == 0 {
    } else if bets[0].market_id == market_id {
    } else {
        lemma_bet_index_of(bets.drop_first(), market_id);
        let r1 = bet_index_of(bets.drop_first(), market_id);
        if r1 >= 0 {
            assert(bets.drop_first()[r1] == bets[r1 + 1]);
        } else {
            assert forall|i: int| 0 <= i < bets.len() implies (#[trigger] bets[i]).market_id
                != market_id by {
                if i > 0 {
                    assert(bets.drop_first()[i - 1] == bets[i]);
                }
            }
        }
    }
}

// ---------------------------------------------------------------------------
// Stakes of one user's bet list
// ---------------------------------------------------------------------------

pub proof fn lemma_stake_on_nonneg(bets: Seq<Bet>, market_id: u64, side: BetSide)
    ensures
        stake_on(bets, market_id, side) >= 0,
    decreases bets.len(),
{
    if bets.len() > 0 {
        lemma_stake_on_nonneg(bets.drop_last(), market_id, side);
    }
}

pub proof fn lemma_stake_on_push(bets: Seq<Bet>, b: Bet, market_id: u64, side: BetSide)
    ensures
        stake_on(bets.push(b), market_id, side) == stake_on(bets, market_id, side) + bet_contrib(
            b,
            market_id,
            side,
        ),
{
    assert(bets.push(b).drop_last() =~= bets);
}

pub proof fn lemma_stake_on_remove(bets: Seq<Bet>, j: int, market_id: u64, side: BetSide)
    requires
        0 <= j < bets.len(),
    ensures
        stake_on(bets.remove(j), market_id, side) == stake_on(bets, market_id, side) - bet_contrib(
            bets[j],
            market_id,
            side,
        ),
    decreases bets.len(),
{
    let s2 = bets.remove(j);
    if j == bets.len() - 1 {
        assert(s2 =~= bets.drop_last());
    } else {
        lemma_stake_on_remove(bets.drop_last(), j, market_id, side);
        assert(s2.drop_last() =~= bets.drop_last().remove(j));
        assert(s2.last() == bets.last());
    }
}

/// A list of bets with no bet on `market_id` stakes nothing on it.
pub proof fn lemma_stake_on_absent(bets: Seq<Bet>, market_id: u64, side: BetSide)
    requires
        forall|a: int| 0 <= a < bets.len() ==> (#[trigger] bets[a]).market_id != market_id,
    ensures
        stake_on(bets, market_id, side) == 0,
    decreases bets.len(),
{
    if bets.len() > 0 {
        lemma_stake_on_absent(bets.drop_last(), market_id, side);
    }
}

/// When bets carry distinct markets, the stake on a market is exactly what
/// its one bet contributes.
pub proof fn lemma_stake_on_unique(bets: Seq<Bet>, j: int, market_id: u64, side: BetSide)
    requires
        distinct_bet_markets(bets),
        0 <= j < bets.len(),
        bets[j].market_id == market_id,
    ensures
        stake_on(bets, market_id, side) == bet_contrib(bets[j], market_id, side),
{
    let s2 = bets.remove(j);
    lemma_stake_on_remove(bets, j, market_id, side);
    assert forall|a: int| 0 <= a < s2.len() implies (#[trigger] s2[a]).market_id != market_id by {
        if a < j {
            assert(s2[a] == bets[a]);
        } else {
            assert(s2[a] == bets[a + 1]);
        }
    }
    lemma_stake_on_absent(s2, market_id, side);
}

// ---------------------------------------------------------------------------
// Stakes summed over all users
// ---------------------------------------------------------------------------

pub proof fn lemma_sum_stakes_nonneg(users: Seq<User>, market_id: u64, side: BetSide)
    ensures
        sum_stakes(users, market_id, side) >= 0,
    decreases users.len(),
{
    if users.len() > 0 {
        lemma_sum_stakes_nonneg(users.drop_last(), market_id, side);
        lemma_stake_on_nonneg(users.last().active_bets@, market_id, side);
    }
}

pub proof fn lemma_sum_stakes_push(users: Seq<User>, u: User, market_id: u64, side: BetSide)
    ensures
        sum_stakes(users.push(u), market_id, side) == sum_stakes(users, market_id, side)
            + stake_on(u.active_bets@, market_id, side),
{
    assert(users.push(u).drop_last() =~= users);
}

pub proof fn lemma_sum_stakes_update(users: Seq<User>, i: int, u: User, market_id: u64, side: BetSide)
    requires
        0 <= i < users.len(),
    ensures
        sum_stakes(users.update(i, u), market_id, side) == sum_stakes(users, market_id, side)
            - stake_on(users[i].active_bets@, market_id, side) + stake_on(
            u.active_bets@,
            market_id,
            side,
        ),
    decreases users.len(),
{
    let s2 = users.update(i, u);
    if i == users.len() - 1 {
        assert(s2.drop_last() =~= users.drop_last());
        assert(s2.last() == u);
    } else {
        lemma_sum_stakes_update(users.drop_last(), i, u, market_id, side);
        assert(s2.drop_last() =~= users.drop_last().update(i, u));
        assert(s2.last() == users.last());
    }
}

/// One user's stake never exceeds the stake of everybody together.
pub proof fn lemma_sum_stakes_lower(users: Seq<User>, i: int, market_id: u64, side: BetSide)
    requires
        0 <= i < users.len(),
    ensures
        sum_stakes(users, market_id, side) >= stake_on(users[i].active_bets@, market_id, side),
    decreases users.len(),
{
    if i == users.len() - 1 {
        lemma_sum_stakes_nonneg(users.drop_last(), market_id, side);
    } else {
        lemma_sum_stakes_lower(users.drop_last(), i, market_id, side);
        lemma_stake_on_nonneg(users.last().active_bets@, market_id, side);
    }
}

/// Two user lists whose members stake the same amounts have equal sums.
pub proof fn lemma_sum_stakes_pointwise(u0: Seq<User>, u1: Seq<User>, market_id: u64, side: BetSide)
    requires
        u0.len() == u1.len(),
        forall|i: int|
            0 <= i < u0.len() ==> stake_on((#[trigger] u1[i]).active_bets@, market_id, side)
                == stake_on(u0[i].active_bets@, market_id, side),
    ensures
        sum_stakes(u1, market_id, side) == sum_stakes(u0, market_id, side),
    decreases u0.len(),
{
    if u0.len() > 0 {
        assert(u1[u0.len() - 1] == u1.last());
        lemma_sum_stakes_pointwise(u0.drop_last(), u1.drop_last(), market_id, side);
    }
}

/// A market nobody has bet on carries no stake at all.
pub proof fn lemma_sum_stakes_zero(users: Seq<User>, market_id: u64, side: BetSide)
    requires
        forall|i: int|
            0 <= i < users.len() ==> stake_on((#[trigger] users[i]).active_bets@, market_id, side)
                == 0,
    ensures
        sum_stakes(users, market_id, side) == 0,
    decreases users.len(),
{
    if users.len() > 0 {
        assert(users[users.len() - 1] == users.last());
        lemma_sum_stakes_zero(users.drop_last(), market_id, side);
    }
}

/// Appending a market does not move the index an existing identifier is
/// found at; a fresh identifier is found at the end.
pub proof fn lemma_market_index_of_extend(markets: Seq<Market>, m: Market, id: u64)
    ensures
        market_index_of(markets.push(m), id) == if market_index_of(markets, id) >= 0 {
            market_index_of(markets, id)
        } else if m.id == id {
            markets.len() as int
        } else {
            -1
        },
    decreases markets.len(),
{
    lemma_market_index_of(markets, id);
    let s2 = markets.push(m);
    assert(s2.len() == markets.len() + 1);
    if markets.len() == 0 {
        assert(s2[0] == m);
        if m.id == id {
            assert(market_index_of(s2, id) == 0);
        } else {
            assert(s2.drop_first() =~= Seq::<Market>::empty());
            assert(market_index_of(s2.drop_first(), id) == -1);
            assert(market_index_of(s2, id) == -1);
        }
    } else {
        assert(s2[0] == markets[0]);
        if markets[0].id != id {
            assert(s2.drop_first() =~= markets.drop_first().push(m));
            lemma_market_index_of_extend(markets.drop_first(), m, id);
            assert(market_index_of(s2.drop_first(), id) == market_index_of(
                markets.drop_first().push(m),
                id,
            ));
        }
    }
}

/// Market lookup sees only the identifiers: two lists that agree on them
/// agree on every lookup.
pub proof fn lemma_market_index_of_pointwise(m0: Seq<Market>, m1: Seq<Market>, id: u64)
    requires
        m0.len() == m1.len(),
        forall|k: int| 0 <= k < m0.len() ==> (#[trigger] m1[k]).id == m0[k].id,
    ensures
        market_index_of(m1, id) == market_index_of(m0, id),
    decreases m0.len(),
{
    if m0.len() > 0 {
        assert(m1[0].id == m0[0].id);
        if m0[0].id != id {
            assert forall|k: int| 0 <= k < m0.drop_first().len() implies (#[trigger] m1.drop_first()[k]).id
                == m0.drop_first()[k].id by {
                assert(m1.drop_first()[k] == m1[k + 1]);
                assert(m0.drop_first()[k] == m0[k + 1]);
            }
            lemma_market_index_of_pointwise(m0.drop_first(), m1.drop_first(), id);
        }
    }
}

// ---------------------------------------------------------------------------
// Balance and pool sums
// ---------------------------------------------------------------------------

pub proof fn lemma_sum_balances_nonneg(users: Seq<User>)
    ensures
        sum_balances(users) >= 0,
    decreases users.len(),
{
    if users.len() > 0 {
        lemma_sum_balances_nonneg(users.drop_last());
    }
}

pub proof fn lemma_sum_balances_push(users: Seq<User>, u: User)
    ensures
        sum_balances(users.push(u)) == sum_balances(users) + u.balance,
{
    assert(users.push(u).drop_last() =~= users);
}

pub proof fn lemma_sum_balances_update(users: Seq<User>, i: int, u: User)
    requires
        0 <= i < users.len(),
    ensures
        sum_balances(users.update(i, u)) == sum_balances(users) - users[i].balance + u.balance,
    decreases users.len(),
{
    let s2 = users.update(i, u);
    if i == users.len() - 1 {
        assert(s2.drop_last() =~= users.drop_last());
        assert(s2.last() == u);
    } else {
        lemma_sum_balances_update(users.drop_last(), i, u);
        assert(s2.drop_last() =~= users.drop_last().update(i, u));
        assert(s2.last() == users.last());
    }
}

pub proof fn lemma_sum_open_pools_push(markets: Seq<Market>, m: Market)
    ensures
        sum_open_pools(markets.push(m)) == sum_open_pools(markets) + if m.status is Open {
            market_pool(m)
        } else {
            0
        },
{
    assert(markets.push(m).drop_last() =~= markets);
}

pub proof fn lemma_sum_open_pools_update(markets: Seq<Market>, k: int, m: Market)
    requires
        0 <= k < markets.len(),
    ensures
        sum_open_pools(markets.update(k, m)) == sum_open_pools(markets) - (
        if markets[k].status is Open {
            market_pool(markets[k])
        } else {
            0
        }) + (
        if m.status is Open {
            market_pool(m)
        } else {
            0
        }),
    decreases markets.len(),
{
    let s2 = markets.update(k, m);
    if k == markets.len() - 1 {
        assert(s2.drop_last() =~= markets.drop_last());
        assert(s2.last() == m);
    } else {
        lemma_sum_open_pools_update(markets.drop_last(), k, m);
        assert(s2.drop_last() =~= markets.drop_last().update(k, m));
        assert(s2.last() == markets.last());
    }
}

} // verus!
