//! Behavioural tests of the ledger: registration, deposits, market
//! lifecycle, bet validation and proportional settlement.

use aetherwave::api::{Message, Operation};
use aetherwave::state::{Aetherwave, AetherwaveError, BetSide, MarketStatus};

const ALICE: u64 = 11;
const BOB: u64 = 22;
const CAROL: u64 = 33;

fn empty() -> Aetherwave {
    Aetherwave::default()
}

#[test]
fn register_is_idempotent() {
    let mut l = empty();
    assert!(l.register_user(ALICE).is_ok());
    assert!(l.deposit(ALICE, 75).is_ok());
    assert!(l.register_user(ALICE).is_ok());
    let u = l.get_user(ALICE).expect("registered");
    assert_eq!(u.balance, 75);
    assert_eq!(u.active_bets.len(), 0);
    assert_eq!(l.users.len(), 1);
}

#[test]
fn register_starts_at_zero() {
    let mut l = empty();
    l.register_user(BOB).unwrap();
    let u = l.get_user(BOB).expect("registered");
    assert_eq!(u.owner, BOB);
    assert_eq!(u.balance, 0);
}

#[test]
fn deposit_requires_registration() {
    let mut l = empty();
    assert_eq!(l.deposit(ALICE, 100), Err(AetherwaveError::UserNotFound));
    assert!(l.get_user(ALICE).is_none());
}

#[test]
fn deposit_accumulates() {
    let mut l = empty();
    l.register_user(ALICE).unwrap();
    l.deposit(ALICE, 100).unwrap();
    l.deposit(ALICE, 250).unwrap();
    assert_eq!(l.get_user(ALICE).unwrap().balance, 350);
}

#[test]
fn deposit_saturates_at_maximum() {
    let mut l = empty();
    l.register_user(ALICE).unwrap();
    l.deposit(ALICE, u64::MAX).unwrap();
    l.deposit(ALICE, 5).unwrap();
    assert_eq!(l.get_user(ALICE).unwrap().balance, u64::MAX);
}

#[test]
fn create_market_assigns_increasing_ids() {
    let mut l = empty();
    let m1 = l.create_market(ALICE, String::from("rain tomorrow"), 1000).unwrap();
    let m2 = l.create_market(ALICE, String::from("snow tomorrow"), 1001).unwrap();
    assert_eq!(m1, 1);
    assert_eq!(m2, 2);
    assert_eq!(l.next_market_id, 3);
    let m = l.get_market(m1).expect("created");
    assert_eq!(m.description, "rain tomorrow");
    assert_eq!(m.creator, ALICE);
    assert_eq!(m.yes_pool, 0);
    assert_eq!(m.no_pool, 0);
    assert_eq!(m.status, MarketStatus::Open);
    assert_eq!(m.resolution, None);
    assert_eq!(m.created_at, 1000);
}

#[test]
fn create_market_registers_creator() {
    let mut l = empty();
    l.create_market(CAROL, String::from("any"), 0).unwrap();
    assert_eq!(l.get_user(CAROL).unwrap().balance, 0);
}

#[test]
fn list_markets_in_creation_order() {
    let mut l = empty();
    l.create_market(ALICE, String::from("a"), 0).unwrap();
    l.create_market(BOB, String::from("b"), 0).unwrap();
    let ms = l.list_markets();
    assert_eq!(ms.len(), 2);
    assert_eq!(ms[0].id, 1);
    assert_eq!(ms[1].id, 2);
}

#[test]
fn place_bet_rejects_zero_amount() {
    let mut l = empty();
    l.register_user(ALICE).unwrap();
    let m = l.create_market(ALICE, String::from("m"), 0).unwrap();
    assert_eq!(
        l.place_bet(ALICE, m, BetSide::Yes, 0, 5),
        Err(AetherwaveError::InvalidBetAmount)
    );
}

#[test]
fn place_bet_rejects_unknown_user() {
    let mut l = empty();
    let m = l.create_market(ALICE, String::from("m"), 0).unwrap();
    assert_eq!(
        l.place_bet(BOB, m, BetSide::Yes, 10, 5),
        Err(AetherwaveError::UserNotFound)
    );
}

#[test]
fn insufficient_balance_changes_nothing() {
    let mut l = empty();
    l.register_user(ALICE).unwrap();
    l.deposit(ALICE, 10).unwrap();
    let m = l.create_market(ALICE, String::from("m"), 0).unwrap();
    assert_eq!(
        l.place_bet(ALICE, m, BetSide::Yes, 50, 5),
        Err(AetherwaveError::InsufficientBalance)
    );
    assert_eq!(l.get_user(ALICE).unwrap().balance, 10);
    assert_eq!(l.get_market(m).unwrap().yes_pool, 0);
    assert_eq!(l.get_market(m).unwrap().no_pool, 0);
}

#[test]
fn unknown_market_fails_regardless_of_balance() {
    let mut l = empty();
    l.register_user(ALICE).unwrap();
    l.deposit(ALICE, 1_000_000).unwrap();
    assert_eq!(
        l.place_bet(ALICE, 999, BetSide::Yes, 10, 5),
        Err(AetherwaveError::MarketNotFound)
    );
}

#[test]
fn resolved_market_rejects_bets() {
    let mut l = empty();
    l.register_user(ALICE).unwrap();
    l.deposit(ALICE, 100).unwrap();
    let m = l.create_market(ALICE, String::from("m"), 0).unwrap();
    l.resolve_market(m, true).unwrap();
    assert_eq!(
        l.place_bet(ALICE, m, BetSide::Yes, 10, 5),
        Err(AetherwaveError::MarketNotOpen)
    );
}

#[test]
fn place_bet_moves_stake_into_pool() {
    let mut l = empty();
    l.register_user(ALICE).unwrap();
    l.deposit(ALICE, 100).unwrap();
    let m = l.create_market(ALICE, String::from("m"), 0).unwrap();
    l.place_bet(ALICE, m, BetSide::Yes, 60, 77).unwrap();
    assert_eq!(l.get_user(ALICE).unwrap().balance, 40);
    assert_eq!(l.get_market(m).unwrap().yes_pool, 60);
    assert_eq!(l.get_market(m).unwrap().no_pool, 0);
    let bets = &l.get_user(ALICE).unwrap().active_bets;
    assert_eq!(bets.len(), 1);
    assert_eq!(bets[0].user, ALICE);
    assert_eq!(bets[0].market_id, m);
    assert_eq!(bets[0].side, BetSide::Yes);
    assert_eq!(bets[0].amount, 60);
    assert_eq!(bets[0].placed_at, 77);
}

#[test]
fn second_bet_refunds_the_first() {
    let mut l = empty();
    l.register_user(ALICE).unwrap();
    l.deposit(ALICE, 100).unwrap();
    let m = l.create_market(ALICE, String::from("m"), 0).unwrap();
    l.place_bet(ALICE, m, BetSide::Yes, 60, 1).unwrap();
    l.place_bet(ALICE, m, BetSide::No, 30, 2).unwrap();
    assert_eq!(l.get_user(ALICE).unwrap().balance, 70);
    assert_eq!(l.get_market(m).unwrap().yes_pool, 0);
    assert_eq!(l.get_market(m).unwrap().no_pool, 30);
    let bets = &l.get_user(ALICE).unwrap().active_bets;
    assert_eq!(bets.len(), 1);
    assert_eq!(bets[0].side, BetSide::No);
    assert_eq!(bets[0].amount, 30);
}

#[test]
fn simple_settlement_pays_winner_proportionally() {
    let mut l = empty();
    l.register_user(ALICE).unwrap();
    l.register_user(BOB).unwrap();
    l.deposit(ALICE, 100).unwrap();
    l.deposit(BOB, 100).unwrap();
    let m = l.create_market(ALICE, String::from("m"), 0).unwrap();
    l.place_bet(ALICE, m, BetSide::Yes, 60, 1).unwrap();
    l.place_bet(BOB, m, BetSide::No, 40, 2).unwrap();
    assert_eq!(l.get_market(m).unwrap().yes_pool, 60);
    assert_eq!(l.get_market(m).unwrap().no_pool, 40);
    l.resolve_market(m, true).unwrap();
    // Alice: 40 left after the bet, plus floor(60 * 100 / 60) = 100 paid out
    assert_eq!(l.get_user(ALICE).unwrap().balance, 140);
    // Bob keeps what the bet left him and receives nothing
    assert_eq!(l.get_user(BOB).unwrap().balance, 60);
    let mk = l.get_market(m).unwrap();
    assert_eq!(mk.status, MarketStatus::Resolved);
    assert_eq!(mk.resolution, Some(true));
    assert_eq!(l.get_user(ALICE).unwrap().active_bets.len(), 0);
    assert_eq!(l.get_user(BOB).unwrap().active_bets.len(), 0);
}

#[test]
fn zero_bet_market_resolves_as_noop() {
    let mut l = empty();
    l.register_user(ALICE).unwrap();
    l.deposit(ALICE, 100).unwrap();
    let m = l.create_market(ALICE, String::from("m"), 0).unwrap();
    assert!(l.resolve_market(m, false).is_ok());
    assert_eq!(l.get_user(ALICE).unwrap().balance, 100);
    let mk = l.get_market(m).unwrap();
    assert_eq!(mk.status, MarketStatus::Resolved);
    assert_eq!(mk.resolution, Some(false));
}

#[test]
fn resolve_unknown_market_fails() {
    let mut l = empty();
    assert_eq!(l.resolve_market(7, true), Err(AetherwaveError::MarketNotFound));
}

#[test]
fn rounding_dust_is_never_created() {
    let mut l = empty();
    for who in [ALICE, BOB, CAROL] {
        l.register_user(who).unwrap();
        l.deposit(who, 1).unwrap();
    }
    let m = l.create_market(ALICE, String::from("m"), 0).unwrap();
    l.place_bet(ALICE, m, BetSide::Yes, 1, 1).unwrap();
    l.place_bet(BOB, m, BetSide::Yes, 1, 2).unwrap();
    l.place_bet(CAROL, m, BetSide::No, 1, 3).unwrap();
    l.resolve_market(m, true).unwrap();
    // total pool 3, winning pool 2: each winner gets floor(1 * 3 / 2) = 1
    assert_eq!(l.get_user(ALICE).unwrap().balance, 1);
    assert_eq!(l.get_user(BOB).unwrap().balance, 1);
    assert_eq!(l.get_user(CAROL).unwrap().balance, 0);
}

fn total_value(l: &Aetherwave) -> u128 {
    let balances: u128 = l.users.iter().map(|u| u.balance as u128).sum();
    let pools: u128 = l
        .markets
        .iter()
        .filter(|m| m.status == MarketStatus::Open)
        .map(|m| m.yes_pool as u128 + m.no_pool as u128)
        .sum();
    balances + pools
}

#[test]
fn conservation_holds_across_a_run() {
    let mut l = empty();
    assert_eq!(total_value(&l), 0);
    l.register_user(ALICE).unwrap();
    l.register_user(BOB).unwrap();
    l.deposit(ALICE, 500).unwrap();
    l.deposit(BOB, 300).unwrap();
    assert_eq!(total_value(&l), 800);
    let m = l.create_market(ALICE, String::from("m"), 0).unwrap();
    assert_eq!(total_value(&l), 800);
    l.place_bet(ALICE, m, BetSide::Yes, 200, 1).unwrap();
    l.place_bet(BOB, m, BetSide::No, 100, 2).unwrap();
    assert_eq!(total_value(&l), 800);
    l.place_bet(ALICE, m, BetSide::Yes, 150, 3).unwrap();
    assert_eq!(total_value(&l), 800);
    // 150 on yes, 100 on no: resolving no pays floor(100 * 250 / 100) = 250
    l.resolve_market(m, false).unwrap();
    assert_eq!(total_value(&l), 800);
    assert_eq!(l.get_user(BOB).unwrap().balance, 200 + 250);
}

#[test]
fn operation_without_signer_is_rejected() {
    let mut l = empty();
    assert_eq!(
        l.execute_operation(None, Operation::RegisterUser, 0),
        Err(AetherwaveError::UserNotFound)
    );
    assert_eq!(
        l.execute_operation(None, Operation::Deposit { amount: 5 }, 0),
        Err(AetherwaveError::UserNotFound)
    );
    assert_eq!(l.users.len(), 0);
}

#[test]
fn operations_drive_the_ledger() {
    let mut l = empty();
    l.execute_operation(Some(ALICE), Operation::RegisterUser, 0).unwrap();
    l.execute_operation(Some(ALICE), Operation::Deposit { amount: 100 }, 0).unwrap();
    l.execute_operation(
        Some(ALICE),
        Operation::CreateMarket { description: String::from("m") },
        9,
    )
    .unwrap();
    l.execute_operation(
        Some(ALICE),
        Operation::PlaceBet { market_id: 1, side: BetSide::Yes, amount: 25 },
        10,
    )
    .unwrap();
    l.execute_operation(Some(BOB), Operation::ResolveMarket { market_id: 1, outcome: true }, 11)
        .unwrap();
    assert_eq!(l.get_user(ALICE).unwrap().balance, 100);
    assert_eq!(l.get_market(1).unwrap().status, MarketStatus::Resolved);
}

#[test]
fn failed_message_leaves_ledger_unchanged() {
    let mut l = empty();
    let r = l.execute_message(Message::Deposit { owner: ALICE, amount: 10 }, 0);
    assert_eq!(r, Err(AetherwaveError::UserNotFound));
    assert_eq!(l.users.len(), 0);
    assert_eq!(l.markets.len(), 0);
}

#[test]
fn messages_carry_their_own_identity() {
    let mut l = empty();
    l.execute_message(Message::RegisterUser { owner: BOB }, 0).unwrap();
    l.execute_message(Message::Deposit { owner: BOB, amount: 40 }, 0).unwrap();
    l.execute_message(
        Message::CreateMarket { creator: BOB, description: String::from("m") },
        3,
    )
    .unwrap();
    l.execute_message(
        Message::PlaceBet { user: BOB, market_id: 1, side: BetSide::No, amount: 40 },
        4,
    )
    .unwrap();
    l.execute_message(Message::ResolveMarket { market_id: 1, outcome: false }, 5).unwrap();
    assert_eq!(l.get_user(BOB).unwrap().balance, 40);
}

#[test]
fn bet_that_would_overflow_a_pool_is_invalid() {
    let mut l = empty();
    l.register_user(ALICE).unwrap();
    l.register_user(BOB).unwrap();
    l.deposit(ALICE, u64::MAX).unwrap();
    l.deposit(BOB, 10).unwrap();
    let m = l.create_market(ALICE, String::from("m"), 0).unwrap();
    l.place_bet(ALICE, m, BetSide::Yes, u64::MAX, 1).unwrap();
    assert_eq!(
        l.place_bet(BOB, m, BetSide::Yes, 1, 2),
        Err(AetherwaveError::InvalidBetAmount)
    );
    assert_eq!(l.get_user(BOB).unwrap().balance, 10);
    assert_eq!(l.get_market(m).unwrap().yes_pool, u64::MAX);
}
