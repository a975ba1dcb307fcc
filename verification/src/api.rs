//! The ledger's external entry points: caller-authenticated operations and
//! explicitly-addressed messages, each dispatched to one core operation, and
//! the step relation that a whole run of the ledger satisfies.

use vstd::prelude::*;

use crate::model::{
    create_market_post, deposit_post, has_market, has_user, place_bet_err, place_bet_post,
    register_post, resolve_post, unchanged, wf,
};
use crate::state::{
    Aetherwave, AetherwaveError, Amount, BetSide, MarketId, OwnerId,
};

verus! {

/// A caller-authenticated request: the hosting boundary authenticates the
/// caller and passes the identity alongside.
#[derive(Clone, Debug)]
pub enum Operation {
    RegisterUser,
    Deposit { amount: Amount },
    CreateMarket { description: String },
    PlaceBet { market_id: MarketId, side: BetSide, amount: Amount },
    ResolveMarket { market_id: MarketId, outcome: bool },
}

/// A request that arrived from another ledger instance and carries the
/// subject identity explicitly.
#[derive(Clone, Debug)]
pub enum Message {
    RegisterUser { owner: OwnerId },
    Deposit { owner: OwnerId, amount: Amount },
    CreateMarket { creator: OwnerId, description: String },
    PlaceBet { user: OwnerId, market_id: MarketId, side: BetSide, amount: Amount },
    ResolveMarket { market_id: MarketId, outcome: bool },
}

/// One step of the ledger: the transition some message induces, whatever
/// timestamp the hosting clock supplied.
pub open spec fn step(pre: Aetherwave, post: Aetherwave, msg: Message) -> bool {
    match msg {
        Message::RegisterUser { owner } => register_post(pre, post, owner),
        Message::Deposit { owner, amount } => deposit_post(pre, post, owner, amount),
        Message::CreateMarket { creator, description } => pre.next_market_id < u64::MAX
            && (exists|now: u64| create_market_post(pre, post, creator, description@, now)),
        Message::PlaceBet { user, market_id, side, amount } => exists|now: u64|
            place_bet_post(pre, post, user, market_id, side, amount, now),
        Message::ResolveMarket { market_id, outcome } => resolve_post(pre, post, market_id, outcome),
    }
}

/// A run of the ledger: `states` begins well-formed and each message links
/// two adjacent states.
pub open spec fn trace_ok(states: Seq<Aetherwave>, msgs: Seq<Message>) -> bool {
    &&& states.len() == msgs.len() + 1
    &&& wf(states[0])
    &&& forall|i: int| 0 <= i < msgs.len() ==> #[trigger] step(states[i], states[i + 1], msgs[i])
}

impl Aetherwave {
    /// Applies one caller-authenticated operation.  An operation that needs
    /// a signer fails with `UserNotFound` when none is present, as when the
    /// caller could not be authenticated.
    pub fn execute_operation(
        &mut self,
        signer: Option<OwnerId>,
        operation: Operation,
        now: u64,
    ) -> (r: Result<(), AetherwaveError>)
        requires
            wf(*old(self)),
            matches!(operation, Operation::CreateMarket { .. }) ==> old(self).next_market_id
                < u64::MAX,
        ensures
            wf(*final(self)),
            match operation {
                Operation::RegisterUser => match signer {
                    Some(o) => register_post(*old(self), *final(self), o) && r is Ok,
                    None => *final(self) == *old(self) && r == Err::<(), AetherwaveError>(
                        AetherwaveError::UserNotFound,
                    ),
                },
                Operation::Deposit { amount } => match signer {
                    Some(o) => deposit_post(*old(self), *final(self), o, amount) && (r is Ok
                        <==> has_user(old(self).users@, o)),
                    None => *final(self) == *old(self) && r == Err::<(), AetherwaveError>(
                        AetherwaveError::UserNotFound,
                    ),
                },
                Operation::CreateMarket { description } => match signer {
                    Some(o) => create_market_post(
                        *old(self),
                        *final(self),
                        o,
                        description@,
                        now,
                    ) && r is Ok,
                    None => *final(self) == *old(self) && r == Err::<(), AetherwaveError>(
                        AetherwaveError::UserNotFound,
                    ),
                },
                Operation::PlaceBet { market_id, side, amount } => match signer {
                    Some(o) => place_bet_post(
                        *old(self),
                        *final(self),
                        o,
                        market_id,
                        side,
                        amount,
                        now,
                    ) && r == (match place_bet_err(*old(self), o, market_id, side, amount) {
                        Some(e) => Err::<(), AetherwaveError>(e),
                        None => Ok::<(), AetherwaveError>(()),
                    }),
                    None => *final(self) == *old(self) && r == Err::<(), AetherwaveError>(
                        AetherwaveError::UserNotFound,
                    ),
                },
                Operation::ResolveMarket { market_id, outcome } => resolve_post(
                    *old(self),
                    *final(self),
                    market_id,
                    outcome,
                ) && (r is Ok <==> has_market(old(self).markets@, market_id)),
            },
    {
        match operation {
            Operation::RegisterUser => {
                let owner = match signer {
                    None => { return Err(AetherwaveError::UserNotFound) },
                    Some(o) => o,
                };
                self.register_user(owner)
            },
            Operation::Deposit { amount } => {
                let owner = match signer {
                    None => { return Err(AetherwaveError::UserNotFound) },
                    Some(o) => o,
                };
                self.deposit(owner, amount)
            },
            Operation::CreateMarket { description } => {
                let creator = match signer {
                    None => { return Err(AetherwaveError::UserNotFound) },
                    Some(o) => o,
                };
                match self.create_market(creator, description, now) {
                    Ok(_) => Ok(()),
                    Err(e) => Err(e),
                }
            },
            Operation::PlaceBet { market_id, side, amount } => {
                let user = match signer {
                    None => { return Err(AetherwaveError::UserNotFound) },
                    Some(o) => o,
                };
                self.place_bet(user, market_id, side, amount, now)
            },
            Operation::ResolveMarket { market_id, outcome } => {
                self.resolve_market(market_id, outcome)
            },
        }
    }

    /// Applies one message from another ledger instance.  The returned error
    /// is only diagnostic: a failed message leaves the ledger unchanged and
    /// no caller waits for the answer.
    pub fn execute_message(&mut self, message: Message, now: u64) -> (r: Result<
        (),
        AetherwaveError,
    >)
        requires
            wf(*old(self)),
            matches!(message, Message::CreateMarket { .. }) ==> old(self).next_market_id
                < u64::MAX,
        ensures
            wf(*final(self)),
            step(*old(self), *final(self), message),
            r is Err ==> unchanged(*old(self), *final(self)),
    {
        match message {
            Message::RegisterUser { owner } => self.register_user(owner),
            Message::Deposit { owner, amount } => {
                self.deposit(owner, amount)
            },
            Message::CreateMarket { creator, description } => {
                match self.create_market(creator, description, now) {
                    Ok(_) => Ok(()),
                    Err(e) => Err(e),
                }
            },
            Message::PlaceBet { user, market_id, side, amount } => {
                self.place_bet(user, market_id, side, amount, now)
            },
            Message::ResolveMarket { market_id, outcome } => {
                self.resolve_market(market_id, outcome)
            },
        }
    }
}

} // verus!
