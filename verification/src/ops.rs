//! The mutating operations of the ledger.  Each one either applies fully or
//! rejects before touching any state, and each promises exactly its
//! transition predicate from `model`.

use vstd::prelude::*;

use crate::lemmas::{
    lemma_bet_index_of, lemma_market_index_of, lemma_market_index_of_pointwise,
    lemma_stake_on_absent, lemma_stake_on_unique, lemma_sum_stakes_lower, lemma_sum_stakes_zero,
    lemma_user_index_of,
};
use crate::model::{
    bet_index_of, bet_market_open, create_market_post, deposit_post, distinct_bet_markets,
    has_market, has_user, market_index_of, market_wf, place_bet_err, place_bet_post, prior_stake,
    prior_stake_on, register_post, resolve_post, settled_user, stake_on, sum_stakes,
    user_index_of, user_wf, wf, winning_pool,
};
use crate::preserve::{
    lemma_create_preserves_wf, lemma_deposit_preserves_wf, lemma_place_bet_preserves_wf,
    lemma_register_preserves_wf, lemma_resolve_preserves_wf,
};
use vstd::arithmetic::div_mod::{lemma_div_by_multiple, lemma_div_is_ordered};
use vstd::arithmetic::mul::{lemma_mul_inequality, lemma_mul_upper_bound};
use crate::state::{
    Aetherwave, AetherwaveError, Amount, Bet, BetSide, Market, MarketId, MarketStatus, OwnerId,
    User,
};

verus! {

/// Index of the bet on `market_id` in one user's bet list, when there is one.
fn find_bet(bets: &Vec<Bet>, market_id: MarketId) -> (r: Option<usize>)
    requires
        distinct_bet_markets(bets@),
    ensures
        match r {
            Some(j) => j < bets.len() && bets@[j as int].market_id == market_id && bet_index_of(
                bets@,
                market_id,
            ) == j as int,
            None => bet_index_of(bets@, market_id) == -1,
        },
{
    let n = bets.len();
    let mut i: usize = 0;
    while i < n
        invariant
            distinct_bet_markets(bets@),
            n == bets.len(),
            i <= n,
            forall|j: int| 0 <= j < i ==> (#[trigger] bets@[j]).market_id != market_id,
        decreases n - i,
    {
        if bets[i].market_id == market_id {
            proof {
                lemma_bet_index_of(bets@, market_id);
                let r = bet_index_of(bets@, market_id);
                if r != i as int {
                    assert(bets@[r].market_id != bets@[i as int].market_id);
                }
            }
            return Some(i);
        }
        i = i + 1;
    }
    proof {
        lemma_bet_index_of(bets@, market_id);
        let r = bet_index_of(bets@, market_id);
        if r >= 0 {
            assert(bets@[r].market_id != market_id);
        }
    }
    None
}

impl Aetherwave {
    /// Index of the market with identifier `id`, when there is one.
    fn find_market(&self, id: MarketId) -> (r: Option<usize>)
        requires
            wf(*self),
        ensures
            match r {
                Some(k) => k < self.markets.len() && self.markets@[k as int].id == id
                    && market_index_of(self.markets@, id) == k as int,
                None => market_index_of(self.markets@, id) == -1,
            },
    {
        let n = self.markets.len();
        let mut i: usize = 0;
        while i < n
            invariant
                wf(*self),
                n == self.markets.len(),
                i <= n,
                forall|j: int| 0 <= j < i ==> (#[trigger] self.markets@[j]).id != id,
            decreases n - i,
        {
            if self.markets[i].id == id {
                proof {
                    lemma_market_index_of(self.markets@, id);
                    let r = market_index_of(self.markets@, id);
                    if r < i as int {
                        assert(self.markets@[r].id < self.markets@[i as int].id);
                    } else if r > i as int {
                        assert(self.markets@[i as int].id < self.markets@[r].id);
                    }
                }
                return Some(i);
            }
            i = i + 1;
        }
        proof {
            lemma_market_index_of(self.markets@, id);
            let r = market_index_of(self.markets@, id);
            if r >= 0 {
                assert(self.markets@[r].id != id);
            }
        }
        None
    }

    /// Index of the user owned by `owner`, when there is one.
    fn find_user(&self, owner: OwnerId) -> (r: Option<usize>)
        requires
            wf(*self),
        ensures
            match r {
                Some(i) => i < self.users.len() && self.users@[i as int].owner == owner
                    && user_index_of(self.users@, owner) == i as int,
                None => user_index_of(self.users@, owner) == -1,
            },
    {
        let n = self.users.len();
        let mut i: usize = 0;
        while i < n
            invariant
                wf(*self),
                n == self.users.len(),
                i <= n,
                forall|j: int| 0 <= j < i ==> (#[trigger] self.users@[j]).owner != owner,
            decreases n - i,
        {
            if self.users[i].owner == owner {
                proof {
                    lemma_user_index_of(self.users@, owner);
                    let r = user_index_of(self.users@, owner);
                    if r != i as int {
                        assert(self.users@[r].owner != self.users@[i as int].owner);
                    }
                }
                return Some(i);
            }
            i = i + 1;
        }
        proof {
            lemma_user_index_of(self.users@, owner);
            let r = user_index_of(self.users@, owner);
            if r >= 0 {
                assert(self.users@[r].owner != owner);
            }
        }
        None
    }

    /// The user owned by `owner`, when one exists.
    pub fn get_user(&self, owner: OwnerId) -> (r: Option<&User>)
        requires
            wf(*self),
        ensures
            match r {
                Some(u) => has_user(self.users@, owner) && *u == self.users@[user_index_of(
                    self.users@,
                    owner,
                )],
                None => !has_user(self.users@, owner),
            },
    {
        match self.find_user(owner) {
            Some(i) => Some(&self.users[i]),
            None => None,
        }
    }

    /// The market with identifier `market_id`, when one exists.
    pub fn get_market(&self, market_id: MarketId) -> (r: Option<&Market>)
        requires
            wf(*self),
        ensures
            match r {
                Some(m) => has_market(self.markets@, market_id) && *m == self.markets@[
                    market_index_of(self.markets@, market_id)],
                None => !has_market(self.markets@, market_id),
            },
    {
        match self.find_market(market_id) {
            Some(k) => Some(&self.markets[k]),
            None => None,
        }
    }

    /// Every market, in ascending identifier order.
    pub fn list_markets(&self) -> (r: &Vec<Market>)
        ensures
            r@ == self.markets@,
    {
        &self.markets
    }

    /// Idempotent registration: a fresh owner gets a user record with zero
    /// balance and no bets; a known owner leaves the ledger untouched.
    pub fn register_user(&mut self, owner: OwnerId) -> (r: Result<(), AetherwaveError>)
        requires
            wf(*old(self)),
        ensures
            wf(*final(self)),
            register_post(*old(self), *final(self), owner),
            r is Ok,
    {
        match self.find_user(owner) {
            Some(_) => Ok(()),
            None => {
                let user = User { owner, balance: 0, active_bets: Vec::new() };
                self.users.push(user);
                proof {
                    lemma_register_preserves_wf(*old(self), *self, owner);
                }
                Ok(())
            },
        }
    }

    /// Credits `amount` to an existing user, clamping at the representable
    /// maximum; unknown owners are rejected.
    pub fn deposit(&mut self, owner: OwnerId, amount: Amount) -> (r: Result<(), AetherwaveError>)
        requires
            wf(*old(self)),
        ensures
            wf(*final(self)),
            deposit_post(*old(self), *final(self), owner, amount),
            r is Ok <==> has_user(old(self).users@, owner),
            r is Err ==> r == Err::<(), AetherwaveError>(AetherwaveError::UserNotFound),
    {
        match self.find_user(owner) {
            None => Err(AetherwaveError::UserNotFound),
            Some(i) => {
                let b = self.users[i].balance;
                self.users[i].balance = b.saturating_add(amount);
                proof {
                    lemma_deposit_preserves_wf(*old(self), *self, owner, amount);
                }
                Ok(())
            },
        }
    }
    /// Opens a new market under the next identifier, registering the creator
    /// first when needed.  `now` is the creation time handed in by the
    /// hosting boundary's clock.
    pub fn create_market(&mut self, creator: OwnerId, description: String, now: u64) -> (r: Result<
        MarketId,
        AetherwaveError,
    >)
        requires
            wf(*old(self)),
            old(self).next_market_id < u64::MAX,
        ensures
            wf(*final(self)),
            create_market_post(*old(self), *final(self), creator, description@, now),
            r == Ok::<MarketId, AetherwaveError>(old(self).next_market_id),
    {
        let ghost desc = description@;
        match self.register_user(creator) {
            Err(e) => Err(e),
            Ok(()) => {
                let market_id = self.next_market_id;
                let market = Market {
                    id: market_id,
                    description,
                    creator,
                    yes_pool: 0,
                    no_pool: 0,
                    status: MarketStatus::Open,
                    resolution: None,
                    created_at: now,
                };
                self.markets.push(market);
                self.next_market_id = market_id + 1;
                proof {
                    lemma_create_preserves_wf(*old(self), *self, creator, desc, now);
                }
                Ok(market_id)
            },
        }
    }

    /// Moves `amount` from the user's balance into the chosen pool of an
    /// open market and records the bet, after the full chain of checks.  A
    /// prior bet by the same user on the same market is refunded and
    /// replaced, so the books never double-count a stake; a bet whose
    /// bookkeeping would pass the representable maximum is rejected as
    /// invalid, so the books stay exact.
    #[verifier::rlimit(50)]
    pub fn place_bet(
        &mut self,
        user: OwnerId,
        market_id: MarketId,
        side: BetSide,
        amount: Amount,
        now: u64,
    ) -> (r: Result<(), AetherwaveError>)
        requires
            wf(*old(self)),
        ensures
            wf(*final(self)),
            place_bet_post(*old(self), *final(self), user, market_id, side, amount, now),
            r == (match place_bet_err(*old(self), user, market_id, side, amount) {
                Some(e) => Err::<(), AetherwaveError>(e),
                None => Ok::<(), AetherwaveError>(()),
            }),
    {
        if amount == 0 {
            return Err(AetherwaveError::InvalidBetAmount);
        }
        let ui = match self.find_user(user) {
            None => { return Err(AetherwaveError::UserNotFound) },
            Some(i) => i,
        };
        if self.users[ui].balance < amount {
            return Err(AetherwaveError::InsufficientBalance);
        }
        let mi = match self.find_market(market_id) {
            None => { return Err(AetherwaveError::MarketNotFound) },
            Some(k) => k,
        };
        if !(self.markets[mi].status == MarketStatus::Open) {
            return Err(AetherwaveError::MarketNotOpen);
        }
        proof {
            assert(user_wf(self.users@[ui as int], self.markets@));
        }
        let jb = find_bet(&self.users[ui].active_bets, market_id);
        let mut prior: u64 = 0;
        let mut prior_yes: u64 = 0;
        let mut prior_no: u64 = 0;
        if let Some(j) = jb {
            let pb = self.users[ui].active_bets[j];
            prior = pb.amount;
            match pb.side {
                BetSide::Yes => { prior_yes = pb.amount },
                BetSide::No => { prior_no = pb.amount },
            }
        }
        let ghost u0 = self.users@[ui as int];
        proof {
            assert(prior == prior_stake(u0, market_id));
            assert(prior_yes == prior_stake_on(u0, market_id, BetSide::Yes));
            assert(prior_no == prior_stake_on(u0, market_id, BetSide::No));
            // a recorded stake never exceeds the pool it sits in
            let j = bet_index_of(u0.active_bets@, market_id);
            if j >= 0 {
                lemma_bet_index_of(u0.active_bets@, market_id);
                lemma_stake_on_unique(u0.active_bets@, j, market_id, BetSide::Yes);
                lemma_stake_on_unique(u0.active_bets@, j, market_id, BetSide::No);
                lemma_sum_stakes_lower(self.users@, ui as int, market_id, BetSide::Yes);
                lemma_sum_stakes_lower(self.users@, ui as int, market_id, BetSide::No);
            }
        }
        let m_yes = self.markets[mi].yes_pool;
        let m_no = self.markets[mi].no_pool;
        let balance = self.users[ui].balance;
        let new_balance_w: u128 = (balance as u128) - (amount as u128) + (prior as u128);
        let new_yes_w: u128 = (m_yes as u128) - (prior_yes as u128) + (match side {
            BetSide::Yes => amount as u128,
            BetSide::No => 0,
        });
        let new_no_w: u128 = (m_no as u128) - (prior_no as u128) + (match side {
            BetSide::Yes => 0,
            BetSide::No => amount as u128,
        });
        let max_w: u128 = u64::MAX as u128;
        if new_balance_w > max_w || new_yes_w > max_w || new_no_w > max_w {
            return Err(AetherwaveError::InvalidBetAmount);
        }
        if let Some(j) = jb {
            let _ = self.users[ui].active_bets.remove(j);
        }
        self.users[ui].balance = new_balance_w as u64;
        self.markets[mi].yes_pool = new_yes_w as u64;
        self.markets[mi].no_pool = new_no_w as u64;
        let bet = Bet { user, market_id, side, amount, placed_at: now };
        self.users[ui].active_bets.push(bet);
        proof {
            lemma_place_bet_preserves_wf(*old(self), *self, user, market_id, side, amount, now);
        }
        Ok(())
    }

    /// Marks the market resolved with the given outcome and settles every
    /// bet on it: winners are credited their proportional share of the
    /// combined pool, and all bets on the market are consumed.
    pub fn resolve_market(&mut self, market_id: MarketId, outcome: bool) -> (r: Result<
        (),
        AetherwaveError,
    >)
        requires
            wf(*old(self)),
        ensures
            wf(*final(self)),
            resolve_post(*old(self), *final(self), market_id, outcome),
            r is Ok <==> has_market(old(self).markets@, market_id),
            r is Err ==> r == Err::<(), AetherwaveError>(AetherwaveError::MarketNotFound),
    {
        let mi = match self.find_market(market_id) {
            None => { return Err(AetherwaveError::MarketNotFound) },
            Some(k) => k,
        };
        let ghost pre = *old(self);
        self.markets[mi].status = MarketStatus::Resolved;
        self.markets[mi].resolution = Some(outcome);
        proof {
            let k = mi as int;
            assert forall|x: int| 0 <= x < self.markets@.len() implies (
            #[trigger] self.markets@[x]).id == pre.markets@[x].id by {
                if x != k {
                    assert(self.markets@[x] == pre.markets@[x]);
                }
            }
            lemma_market_index_of_pointwise(pre.markets@, self.markets@, market_id);
            assert forall|x: int| 0 <= x < self.users@.len() implies distinct_bet_markets(
                (#[trigger] self.users@[x]).active_bets@,
            ) && (forall|a: int|
                0 <= a < self.users@[x].active_bets@.len() ==> (
                #[trigger] self.users@[x].active_bets@[a]).amount > 0) by {
                assert(user_wf(pre.users@[x], pre.markets@));
            }
            assert(market_wf(pre.markets@[k], pre.users@));
            if pre.markets@[k].status is Resolved {
                // an already-settled market carries no bets at all
                assert forall|x: int| 0 <= x < pre.users@.len() implies stake_on(
                    (#[trigger] pre.users@[x]).active_bets@,
                    market_id,
                    BetSide::Yes,
                ) == 0 && stake_on(pre.users@[x].active_bets@, market_id, BetSide::No) == 0 by {
                    let u = pre.users@[x];
                    assert(user_wf(u, pre.markets@));
                    let j = bet_index_of(u.active_bets@, market_id);
                    lemma_bet_index_of(u.active_bets@, market_id);
                    if j >= 0 {
                        assert(bet_market_open(pre.markets@, market_id));
                        assert(false);
                    }
                    lemma_stake_on_absent(u.active_bets@, market_id, BetSide::Yes);
                    lemma_stake_on_absent(u.active_bets@, market_id, BetSide::No);
                }
                lemma_sum_stakes_zero(pre.users@, market_id, BetSide::Yes);
                lemma_sum_stakes_zero(pre.users@, market_id, BetSide::No);
            }
        }
        let res = self.distribute_winnings(market_id, outcome);
        proof {
            lemma_resolve_preserves_wf(pre, *self, market_id, outcome);
        }
        match res {
            Ok(()) => Ok(()),
            Err(e) => Err(e),
        }
    }

    /// Pays every winning bet `floor(stake * total / winning)` out of the
    /// combined pool and removes every bet on the market, winners and losers
    /// alike.  With an empty pool there is nothing to distribute and, since
    /// stakes are positive, nothing to remove.
    #[verifier::rlimit(50)]
    fn distribute_winnings(&mut self, market_id: MarketId, outcome: bool) -> (r: Result<
        (),
        AetherwaveError,
    >)
        requires
            market_index_of(old(self).markets@, market_id) >= 0,
            forall|x: int|
                0 <= x < old(self).users@.len() ==> distinct_bet_markets(
                    (#[trigger] old(self).users@[x]).active_bets@,
                ),
            forall|x: int, a: int|
                0 <= x < old(self).users@.len() && 0 <= a < old(
                    self,
                ).users@[x].active_bets@.len() ==> (
                #[trigger] old(self).users@[x].active_bets@[a]).amount > 0,
            sum_stakes(old(self).users@, market_id, BetSide::Yes) <= old(self).markets@[
                market_index_of(old(self).markets@, market_id)].yes_pool,
            sum_stakes(old(self).users@, market_id, BetSide::No) <= old(self).markets@[
                market_index_of(old(self).markets@, market_id)].no_pool,
        ensures
            r is Ok,
            final(self).markets == old(self).markets,
            final(self).next_market_id == old(self).next_market_id,
            final(self).users@.len() == old(self).users@.len(),
            ({
                let m = old(self).markets@[market_index_of(old(self).markets@, market_id)];
                forall|x: int|
                    0 <= x < old(self).users@.len() ==> settled_user(
                        old(self).users@[x],
                        #[trigger] final(self).users@[x],
                        market_id,
                        outcome,
                        m.yes_pool.saturating_add(m.no_pool),
                        winning_pool(m, outcome),
                    )
            }),
    {
        let ghost pre = *old(self);
        let ghost kk = market_index_of(pre.markets@, market_id);
        proof {
            lemma_market_index_of(pre.markets@, market_id);
        }
        // locate the market again; the first matching entry is the one the
        // lookup function denotes
        let n_markets = self.markets.len();
        let mut mi: usize = 0;
        while self.markets[mi].id != market_id
            invariant
                *self == pre,
                n_markets == self.markets.len(),
                0 <= kk < n_markets,
                0 <= kk < self.markets@.len(),
                self.markets@[kk].id == market_id,
                forall|j: int| 0 <= j < kk ==> (#[trigger] self.markets@[j]).id != market_id,
                mi as int <= kk,
            decreases kk - mi as int,
        {
            proof {
                assert(mi as int != kk);
            }
            mi = mi + 1;
        }
        proof {
            if (mi as int) < kk {
                assert(self.markets@[mi as int].id != market_id);
            }
            assert(mi as int == kk);
        }
        let m_yes = self.markets[mi].yes_pool;
        let m_no = self.markets[mi].no_pool;
        let total = m_yes.saturating_add(m_no);
        let winning = if outcome {
            m_yes
        } else {
            m_no
        };
        if total == 0 {
            proof {
                assert forall|x: int| 0 <= x < pre.users@.len() implies settled_user(
                    pre.users@[x],
                    #[trigger] self.users@[x],
                    market_id,
                    outcome,
                    total,
                    winning,
                ) by {
                    let u = pre.users@[x];
                    let j = bet_index_of(u.active_bets@, market_id);
                    lemma_bet_index_of(u.active_bets@, market_id);
                    if j >= 0 {
                        lemma_stake_on_unique(u.active_bets@, j, market_id, u.active_bets@[j].side);
                        lemma_sum_stakes_lower(pre.users@, x, market_id, u.active_bets@[j].side);
                    }
                }
            }
            return Ok(());
        }
        let n = self.users.len();
        let mut i: usize = 0;
        while i < n
            invariant
                i <= n,
                n == self.users.len(),
                pre.users@.len() == n,
                self.markets == pre.markets,
                self.next_market_id == pre.next_market_id,
                0 <= kk < pre.markets@.len(),
                total == pre.markets@[kk].yes_pool.saturating_add(pre.markets@[kk].no_pool),
                winning == winning_pool(pre.markets@[kk], outcome),
                market_index_of(pre.markets@, market_id) == kk,
                sum_stakes(pre.users@, market_id, BetSide::Yes) <= pre.markets@[kk].yes_pool,
                sum_stakes(pre.users@, market_id, BetSide::No) <= pre.markets@[kk].no_pool,
                forall|x: int|
                    0 <= x < n ==> distinct_bet_markets((#[trigger] pre.users@[x]).active_bets@),
                forall|x: int, a: int|
                    0 <= x < n && 0 <= a < pre.users@[x].active_bets@.len() ==> (
                    #[trigger] pre.users@[x].active_bets@[a]).amount > 0,
                forall|x: int| i <= x < n ==> #[trigger] self.users@[x] == pre.users@[x],
                forall|x: int|
                    0 <= x < i ==> settled_user(
                        pre.users@[x],
                        #[trigger] self.users@[x],
                        market_id,
                        outcome,
                        total,
                        winning,
                    ),
            decreases n - i,
        {
            let ghost u0 = pre.users@[i as int];
            let jb = find_bet(&self.users[i].active_bets, market_id);
            if let Some(j) = jb {
                let pb = self.users[i].active_bets[j];
                let wins = match pb.side {
                    BetSide::Yes => outcome,
                    BetSide::No => !outcome,
                };
                if wins && winning > 0 {
                    proof {
                        lemma_bet_index_of(u0.active_bets@, market_id);
                        lemma_stake_on_unique(u0.active_bets@, j as int, market_id, pb.side);
                        lemma_sum_stakes_lower(pre.users@, i as int, market_id, pb.side);
                        assert(pb.amount <= winning);
                        lemma_mul_upper_bound(
                            pb.amount as int,
                            u64::MAX as int,
                            total as int,
                            u64::MAX as int,
                        );
                        lemma_mul_inequality(pb.amount as int, winning as int, total as int);
                        lemma_div_is_ordered(
                            (pb.amount as int) * (total as int),
                            (winning as int) * (total as int),
                            winning as int,
                        );
                        lemma_div_by_multiple(total as int, winning as int);
                    }
                    let share_w: u128 = (pb.amount as u128) * (total as u128) / (winning as u128);
                    let share: u64 = share_w as u64;
                    let b = self.users[i].balance;
                    self.users[i].balance = b.saturating_add(share);
                }
                let _ = self.users[i].active_bets.remove(j);
            }
            proof {
                assert(settled_user(
                    u0,
                    self.users@[i as int],
                    market_id,
                    outcome,
                    total,
                    winning,
                ));
            }
            i = i + 1;
        }
        Ok(())
    }
}

} // verus!
