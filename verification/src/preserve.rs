//! The ledger invariant survives every transition: one lemma per operation,
//! stated purely over the transition predicates so that both the executable
//! operations and the trace-level laws can rely on them.

use vstd::prelude::*;

use crate::lemmas::{
    lemma_bet_index_of, lemma_market_index_of, lemma_market_index_of_extend,
    lemma_market_index_of_pointwise, lemma_stake_on_absent, lemma_stake_on_push,
    lemma_stake_on_remove, lemma_stake_on_unique, lemma_sum_stakes_push, lemma_sum_stakes_update,
    lemma_sum_stakes_pointwise, lemma_sum_stakes_zero, lemma_user_index_of,
};
use crate::model::{
    bet_contrib, bet_index_of, bet_market_open, create_market_post, deposit_post, has_user,
    market_index_of, market_wf, place_bet_err, place_bet_post, register_post,
    resolve_post, settled_user, stake_on, user_index_of, user_wf, wf, winning_pool,
};
use crate::state::{Aetherwave, Bet, BetSide};

verus! {

pub proof fn lemma_register_preserves_wf(pre: Aetherwave, post: Aetherwave, owner: u64)
    requires
        wf(pre),
        register_post(pre, post, owner),
    ensures
        wf(post),
{
    if has_user(pre.users@, owner) {
        assert(post.users@ == pre.users@);
    } else {
        let n = pre.users@.len() as int;
        let u0 = post.users@.last();
        assert(post.users@ =~= pre.users@.push(u0));
        lemma_user_index_of(pre.users@, owner);
        assert forall|i: int, j: int|
            0 <= i < post.users@.len() && 0 <= j < post.users@.len() && i != j implies (
        #[trigger] post.users@[i]).owner != (#[trigger] post.users@[j]).owner by {
            if i < n && j < n {
                assert(post.users@[i] == pre.users@[i]);
                assert(post.users@[j] == pre.users@[j]);
            } else if i == n {
                assert(post.users@[j] == pre.users@[j]);
            } else {
                assert(post.users@[i] == pre.users@[i]);
            }
        }
        assert forall|i: int| 0 <= i < post.users@.len() implies user_wf(
            #[trigger] post.users@[i],
            post.markets@,
        ) by {
            if i < n {
                assert(post.users@[i] == pre.users@[i]);
                assert(user_wf(pre.users@[i], pre.markets@));
            } else {
                assert(post.users@[i] == u0);
            }
        }
        assert forall|k: int| 0 <= k < post.markets@.len() implies market_wf(
            #[trigger] post.markets@[k],
            post.users@,
        ) by {
            assert(market_wf(pre.markets@[k], pre.users@));
            lemma_sum_stakes_push(pre.users@, u0, post.markets@[k].id, BetSide::Yes);
            lemma_sum_stakes_push(pre.users@, u0, post.markets@[k].id, BetSide::No);
        }
    }
}

pub proof fn lemma_deposit_preserves_wf(pre: Aetherwave, post: Aetherwave, owner: u64, amount: u64)
    requires
        wf(pre),
        deposit_post(pre, post, owner, amount),
    ensures
        wf(post),
{
    let i = user_index_of(pre.users@, owner);
    if i < 0 {
        assert(post.users@ == pre.users@);
    } else {
        lemma_user_index_of(pre.users@, owner);
        let u1 = post.users@[i];
        assert(post.users@ =~= pre.users@.update(i, u1));
        assert(u1.active_bets@ == pre.users@[i].active_bets@);
        assert forall|x: int, j: int|
            0 <= x < post.users@.len() && 0 <= j < post.users@.len() && x != j implies (
        #[trigger] post.users@[x]).owner != (#[trigger] post.users@[j]).owner by {
            assert(post.users@[x].owner == pre.users@[x].owner);
            assert(post.users@[j].owner == pre.users@[j].owner);
        }
        assert forall|x: int| 0 <= x < post.users@.len() implies user_wf(
            #[trigger] post.users@[x],
            post.markets@,
        ) by {
            assert(user_wf(pre.users@[x], pre.markets@));
            if x != i {
                assert(post.users@[x] == pre.users@[x]);
            }
        }
        assert forall|k: int| 0 <= k < post.markets@.len() implies market_wf(
            #[trigger] post.markets@[k],
            post.users@,
        ) by {
            assert(market_wf(pre.markets@[k], pre.users@));
            lemma_sum_stakes_update(pre.users@, i, u1, post.markets@[k].id, BetSide::Yes);
            lemma_sum_stakes_update(pre.users@, i, u1, post.markets@[k].id, BetSide::No);
        }
    }
}

pub proof fn lemma_create_preserves_wf(
    pre: Aetherwave,
    post: Aetherwave,
    creator: u64,
    description: Seq<char>,
    now: u64,
)
    requires
        wf(pre),
        pre.next_market_id < u64::MAX,
        create_market_post(pre, post, creator, description, now),
    ensures
        wf(post),
{
    let n = pre.users@.len() as int;
    let mnew = post.markets@.last();
    assert(post.markets@ =~= pre.markets@.push(mnew));
    let fresh = !has_user(pre.users@, creator);
    if fresh {
        lemma_user_index_of(pre.users@, creator);
        assert(post.users@ =~= pre.users@.push(post.users@.last()));
    } else {
        assert(post.users@ == pre.users@);
    }
    // owners stay distinct
    assert forall|i: int, j: int|
        0 <= i < post.users@.len() && 0 <= j < post.users@.len() && i != j implies (
    #[trigger] post.users@[i]).owner != (#[trigger] post.users@[j]).owner by {
        if i < n {
            assert(post.users@[i] == pre.users@[i]);
        }
        if j < n {
            assert(post.users@[j] == pre.users@[j]);
        }
    }
    // every bet still points at an open market, found at its old index
    assert forall|i: int| 0 <= i < post.users@.len() implies user_wf(
        #[trigger] post.users@[i],
        post.markets@,
    ) by {
        if i < n {
            assert(post.users@[i] == pre.users@[i]);
            let u = pre.users@[i];
            assert(user_wf(u, pre.markets@));
            assert forall|a: int| 0 <= a < u.active_bets@.len() implies bet_market_open(
                post.markets@,
                (#[trigger] u.active_bets@[a]).market_id,
            ) by {
                let id = u.active_bets@[a].market_id;
                assert(bet_market_open(pre.markets@, id));
                lemma_market_index_of(pre.markets@, id);
                lemma_market_index_of_extend(pre.markets@, mnew, id);
                assert(post.markets@[market_index_of(pre.markets@, id)]
                    == pre.markets@[market_index_of(pre.markets@, id)]);
            }
        }
    }
    // identifiers stay strictly increasing and below the allocator
    assert forall|i: int, j: int| 0 <= i < j < post.markets@.len() implies (
    #[trigger] post.markets@[i]).id < (#[trigger] post.markets@[j]).id by {
        assert(post.markets@[i] == pre.markets@[i]);
        if j < pre.markets@.len() {
            assert(post.markets@[j] == pre.markets@[j]);
        }
    }
    // pool accounting: old markets keep their stakes, the new one has none
    assert forall|k: int| 0 <= k < post.markets@.len() implies market_wf(
        #[trigger] post.markets@[k],
        post.users@,
    ) by {
        if k < pre.markets@.len() {
            assert(post.markets@[k] == pre.markets@[k]);
            assert(market_wf(pre.markets@[k], pre.users@));
            if fresh {
                lemma_sum_stakes_push(pre.users@, post.users@.last(), post.markets@[k].id, BetSide::Yes);
                lemma_sum_stakes_push(pre.users@, post.users@.last(), post.markets@[k].id, BetSide::No);
            }
        } else {
            let id = mnew.id;
            assert forall|x: int| 0 <= x < post.users@.len() implies stake_on(
                (#[trigger] post.users@[x]).active_bets@,
                id,
                BetSide::Yes,
            ) == 0 && stake_on(post.users@[x].active_bets@, id, BetSide::No) == 0 by {
                if x < n {
                    assert(post.users@[x] == pre.users@[x]);
                    let u = pre.users@[x];
                    assert(user_wf(u, pre.markets@));
                    assert forall|a: int| 0 <= a < u.active_bets@.len() implies (
                    #[trigger] u.active_bets@[a]).market_id != id by {
                        let bid = u.active_bets@[a].market_id;
                        assert(bet_market_open(pre.markets@, bid));
                        lemma_market_index_of(pre.markets@, bid);
                        assert(pre.markets@[market_index_of(pre.markets@, bid)].id == bid);
                    }
                    lemma_stake_on_absent(u.active_bets@, id, BetSide::Yes);
                    lemma_stake_on_absent(u.active_bets@, id, BetSide::No);
                }
            }
            lemma_sum_stakes_zero(post.users@, id, BetSide::Yes);
            lemma_sum_stakes_zero(post.users@, id, BetSide::No);
        }
    }
}

#[verifier::rlimit(50)]
pub proof fn lemma_place_bet_preserves_wf(
    pre: Aetherwave,
    post: Aetherwave,
    user: u64,
    market_id: u64,
    side: BetSide,
    amount: u64,
    now: u64,
)
    requires
        wf(pre),
        place_bet_post(pre, post, user, market_id, side, amount, now),
    ensures
        wf(post),
{
    if place_bet_err(pre, user, market_id, side, amount) is Some {
        assert(post.users@ == pre.users@);
        return ;
    }
    let i = user_index_of(pre.users@, user);
    let k = market_index_of(pre.markets@, market_id);
    lemma_user_index_of(pre.users@, user);
    lemma_market_index_of(pre.markets@, market_id);
    let u = pre.users@[i];
    let m = pre.markets@[k];
    let j = bet_index_of(u.active_bets@, market_id);
    lemma_bet_index_of(u.active_bets@, market_id);
    let kept = if j >= 0 {
        u.active_bets@.remove(j)
    } else {
        u.active_bets@
    };
    let newbet = Bet { user, market_id, side, amount, placed_at: now };
    let u1 = post.users@[i];
    let m1 = post.markets@[k];
    assert(post.users@ =~= pre.users@.update(i, u1));
    assert(user_wf(u, pre.markets@));

    // nothing in `kept` still references the bet's market
    assert forall|a: int| 0 <= a < kept.len() implies (#[trigger] kept[a]).market_id
        != market_id by {
        if j >= 0 {
            if a < j {
                assert(kept[a] == u.active_bets@[a]);
            } else {
                assert(kept[a] == u.active_bets@[a + 1]);
            }
        }
    }

    // market identifiers are untouched, so every lookup lands where it did
    assert forall|x: int| 0 <= x < post.markets@.len() implies (#[trigger] post.markets@[x]).id
        == pre.markets@[x].id by {
        if x != k {
            assert(post.markets@[x] == pre.markets@[x]);
        }
    }
    assert forall|id: u64| bet_market_open(pre.markets@, id) implies bet_market_open(
        post.markets@,
        id,
    ) by {
        lemma_market_index_of_pointwise(pre.markets@, post.markets@, id);
        lemma_market_index_of(pre.markets@, id);
        let x = market_index_of(pre.markets@, id);
        if x != k {
            assert(post.markets@[x] == pre.markets@[x]);
        }
    }

    // owners are untouched
    assert forall|x: int, y: int|
        0 <= x < post.users@.len() && 0 <= y < post.users@.len() && x != y implies (
    #[trigger] post.users@[x]).owner != (#[trigger] post.users@[y]).owner by {
        assert(post.users@[x].owner == pre.users@[x].owner);
        assert(post.users@[y].owner == pre.users@[y].owner);
    }

    // each user's bets stay well-formed
    assert forall|x: int| 0 <= x < post.users@.len() implies user_wf(
        #[trigger] post.users@[x],
        post.markets@,
    ) by {
        assert(user_wf(pre.users@[x], pre.markets@));
        if x != i {
            assert(post.users@[x] == pre.users@[x]);
        } else {
            assert(u1.active_bets@ == kept.push(newbet));
            assert forall|a: int, b: int|
                0 <= a < u1.active_bets@.len() && 0 <= b < u1.active_bets@.len() && a != b implies (
            #[trigger] u1.active_bets@[a]).market_id != (#[trigger] u1.active_bets@[b]).market_id by {
                if a < kept.len() && b < kept.len() {
                    if j >= 0 {
                        let a0: int = if a < j { a } else { a + 1 };
                        let b0: int = if b < j { b } else { b + 1 };
                        assert(u1.active_bets@[a] == u.active_bets@[a0]);
                        assert(u1.active_bets@[b] == u.active_bets@[b0]);
                    }
                } else if a < kept.len() {
                    assert(u1.active_bets@[b] == newbet);
                    assert(kept[a].market_id != market_id);
                } else {
                    assert(u1.active_bets@[a] == newbet);
                    assert(kept[b].market_id != market_id);
                }
            }
            assert(newbet.user == u.owner);
            assert forall|a: int| 0 <= a < u1.active_bets@.len() implies (
            #[trigger] u1.active_bets@[a]).user == u1.owner && u1.active_bets@[a].amount > 0
                && bet_market_open(post.markets@, u1.active_bets@[a].market_id) by {
                if a < kept.len() {
                    if j >= 0 {
                        let a0: int = if a < j { a } else { a + 1 };
                        assert(u1.active_bets@[a] == u.active_bets@[a0]);
                    }
                } else {
                    assert(u1.active_bets@[a] == newbet);
                    assert(bet_market_open(pre.markets@, market_id));
                }
            }
        }
    }

    // identifier ordering and bounds carry over pointwise
    assert forall|x: int, y: int| 0 <= x < y < post.markets@.len() implies (
    #[trigger] post.markets@[x]).id < (#[trigger] post.markets@[y]).id by {}

    // the stake moved out of the balance shows up in exactly one pool
    assert forall|x: int| 0 <= x < post.markets@.len() implies market_wf(
        #[trigger] post.markets@[x],
        post.users@,
    ) by {
        assert(market_wf(pre.markets@[x], pre.users@));
        let id = pre.markets@[x].id;
        lemma_sum_stakes_update(pre.users@, i, u1, id, BetSide::Yes);
        lemma_sum_stakes_update(pre.users@, i, u1, id, BetSide::No);
        lemma_stake_on_push(kept, newbet, id, BetSide::Yes);
        lemma_stake_on_push(kept, newbet, id, BetSide::No);
        lemma_stake_on_absent(kept, market_id, BetSide::Yes);
        lemma_stake_on_absent(kept, market_id, BetSide::No);
        if j >= 0 {
            lemma_stake_on_unique(u.active_bets@, j, market_id, BetSide::Yes);
            lemma_stake_on_unique(u.active_bets@, j, market_id, BetSide::No);
            lemma_stake_on_remove(u.active_bets@, j, id, BetSide::Yes);
            lemma_stake_on_remove(u.active_bets@, j, id, BetSide::No);
        } else {
            lemma_stake_on_absent(u.active_bets@, market_id, BetSide::Yes);
            lemma_stake_on_absent(u.active_bets@, market_id, BetSide::No);
        }
        if x != k {
            assert(post.markets@[x] == pre.markets@[x]);
            assert(id != market_id);
            assert(bet_contrib(newbet, id, BetSide::Yes) == 0);
            assert(bet_contrib(newbet, id, BetSide::No) == 0);
            if j >= 0 {
                assert(bet_contrib(u.active_bets@[j], id, BetSide::Yes) == 0);
                assert(bet_contrib(u.active_bets@[j], id, BetSide::No) == 0);
            }
        }
    }
}

#[verifier::rlimit(50)]
pub proof fn lemma_resolve_preserves_wf(
    pre: Aetherwave,
    post: Aetherwave,
    market_id: u64,
    outcome: bool,
)
    requires
        wf(pre),
        resolve_post(pre, post, market_id, outcome),
    ensures
        wf(post),
{
    let k = market_index_of(pre.markets@, market_id);
    if k < 0 {
        assert(post.users@ == pre.users@);
        return ;
    }
    lemma_market_index_of(pre.markets@, market_id);
    let m = pre.markets@[k];
    let total = m.yes_pool.saturating_add(m.no_pool);
    let winning = winning_pool(m, outcome);

    assert forall|x: int| 0 <= x < post.markets@.len() implies (#[trigger] post.markets@[x]).id
        == pre.markets@[x].id by {
        if x != k {
            assert(post.markets@[x] == pre.markets@[x]);
        }
    }

    assert forall|x: int, y: int|
        0 <= x < post.users@.len() && 0 <= y < post.users@.len() && x != y implies (
    #[trigger] post.users@[x]).owner != (#[trigger] post.users@[y]).owner by {
        assert(settled_user(pre.users@[x], post.users@[x], market_id, outcome, total, winning));
        assert(settled_user(pre.users@[y], post.users@[y], market_id, outcome, total, winning));
    }

    assert forall|x: int| 0 <= x < post.users@.len() implies user_wf(
        #[trigger] post.users@[x],
        post.markets@,
    ) by {
        let u = pre.users@[x];
        let u1 = post.users@[x];
        assert(settled_user(u, u1, market_id, outcome, total, winning));
        assert(user_wf(u, pre.markets@));
        let j = bet_index_of(u.active_bets@, market_id);
        lemma_bet_index_of(u.active_bets@, market_id);
        assert forall|a: int| 0 <= a < u1.active_bets@.len() implies {
            let b = #[trigger] u1.active_bets@[a];
            &&& b.user == u1.owner
            &&& b.amount > 0
            &&& b.market_id != market_id
            &&& bet_market_open(post.markets@, b.market_id)
        } by {
            let a0: int = if j >= 0 && a >= j {
                a + 1
            } else {
                a
            };
            assert(u1.active_bets@[a] == u.active_bets@[a0]);
            let id = u.active_bets@[a0].market_id;
            assert(bet_market_open(pre.markets@, id));
            lemma_market_index_of(pre.markets@, id);
            let x2 = market_index_of(pre.markets@, id);
            assert(x2 != k);
            lemma_market_index_of_pointwise(pre.markets@, post.markets@, id);
            assert(post.markets@[x2] == pre.markets@[x2]);
        }
        assert forall|a: int, b: int|
            0 <= a < u1.active_bets@.len() && 0 <= b < u1.active_bets@.len() && a != b implies (
        #[trigger] u1.active_bets@[a]).market_id != (#[trigger] u1.active_bets@[b]).market_id by {
            let a0: int = if j >= 0 && a >= j {
                a + 1
            } else {
                a
            };
            let b0: int = if j >= 0 && b >= j {
                b + 1
            } else {
                b
            };
            assert(u1.active_bets@[a] == u.active_bets@[a0]);
            assert(u1.active_bets@[b] == u.active_bets@[b0]);
        }
    }

    assert forall|x: int, y: int| 0 <= x < y < post.markets@.len() implies (
    #[trigger] post.markets@[x]).id < (#[trigger] post.markets@[y]).id by {}

    assert forall|x: int| 0 <= x < post.markets@.len() implies market_wf(
        #[trigger] post.markets@[x],
        post.users@,
    ) by {
        assert(market_wf(pre.markets@[x], pre.users@));
        if x != k {
            assert(post.markets@[x] == pre.markets@[x]);
            let id = pre.markets@[x].id;
            assert(id != market_id);
            assert forall|y: int| 0 <= y < post.users@.len() implies stake_on(
                (#[trigger] post.users@[y]).active_bets@,
                id,
                BetSide::Yes,
            ) == stake_on(pre.users@[y].active_bets@, id, BetSide::Yes) && stake_on(
                post.users@[y].active_bets@,
                id,
                BetSide::No,
            ) == stake_on(pre.users@[y].active_bets@, id, BetSide::No) by {
                let u = pre.users@[y];
                assert(settled_user(u, post.users@[y], market_id, outcome, total, winning));
                let j = bet_index_of(u.active_bets@, market_id);
                if j >= 0 {
                    lemma_bet_index_of(u.active_bets@, market_id);
                    lemma_stake_on_remove(u.active_bets@, j, id, BetSide::Yes);
                    lemma_stake_on_remove(u.active_bets@, j, id, BetSide::No);
                    assert(bet_contrib(u.active_bets@[j], id, BetSide::Yes) == 0);
                    assert(bet_contrib(u.active_bets@[j], id, BetSide::No) == 0);
                }
            }
            lemma_sum_stakes_pointwise(pre.users@, post.users@, id, BetSide::Yes);
            lemma_sum_stakes_pointwise(pre.users@, post.users@, id, BetSide::No);
        }
    }
}

} // verus!
