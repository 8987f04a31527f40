//! The mathematical model of the bond protocol: its state as a map, and each
//! operation as a function from state and request to outcome and next state.

use vstd::prelude::*;
use super::fee::FeeRate;
use super::types::{AccountId, AssetId, Balance, Bond, BondId, Error, Moment};
use super::registry::all_funded;

verus! {

/// What is fixed when the protocol is set up.
#[derive(Clone, Copy, Debug)]
pub struct Settings {
    /// The minimum lock window: a maturity must lie more than this after the
    /// time of issue.
    pub min_maturity: Moment,
    /// The share of each redemption that the protocol keeps.
    pub protocol_fee: FeeRate,
}

/// The protocol's state: the bonds that exist and the next free identifier.
pub struct State {
    pub bonds: Map<BondId, Bond>,
    pub next_id: BondId,
}

impl State {
    /// The state before any bond was issued.
    pub open spec fn initial() -> State {
        State { bonds: Map::empty(), next_id: 0 }
    }

    /// Every bond holds principal, and every identifier in use was given out
    /// before `next_id`.
    pub open spec fn valid(self) -> bool {
        &&& all_funded(self.bonds)
        &&& forall|id: BondId| #[trigger] self.bonds.contains_key(id) ==> id < self.next_id
    }
}

/// A bond was created: `account` owes `amount` of `underlying_asset` to
/// escrow and holds the claim on it.
#[derive(Clone, Copy, Debug, PartialEq, Eq, Structural)]
pub struct Issued {
    pub bond_id: BondId,
    pub account: AccountId,
    pub underlying_asset: AssetId,
    pub amount: Balance,
    pub maturity: Moment,
}

/// Principal was redeemed: escrow owes `net_payout` of `underlying_asset` to
/// `account` and `fee` of it to the protocol.
#[derive(Clone, Copy, Debug, PartialEq, Eq, Structural)]
pub struct Redeemed {
    pub bond_id: BondId,
    pub account: AccountId,
    pub underlying_asset: AssetId,
    pub net_payout: Balance,
    pub fee: Balance,
}

/// A request to issue a bond, with the time and the caller's free balance of
/// the asset as they were read for it.
pub struct IssueRequest {
    pub now: Moment,
    pub caller: AccountId,
    pub caller_balance: Balance,
    pub underlying_asset: AssetId,
    pub amount: Balance,
    pub maturity: Moment,
}

/// A request to redeem principal of a bond, with the time as it was read for
/// it.
pub struct RedeemRequest {
    pub now: Moment,
    pub caller: AccountId,
    pub bond_id: BondId,
    pub amount: Balance,
}

/// A request to let a bond mature at once, with the time as it was read for
/// it and whether the caller holds the administrative capability.
pub struct UnlockRequest {
    pub now: Moment,
    pub privileged: bool,
    pub bond_id: BondId,
}

/// Why an issue is turned down, if it is. The lock window is looked at
/// first: a maturity that does not lie beyond it is refused as such,
/// whatever else is asked.
pub open spec fn issue_refusal(state: State, settings: Settings, request: IssueRequest) -> Option<Error> {
    if request.maturity <= request.now + settings.min_maturity {
        Some(Error::InvalidMaturity)
    } else if request.amount == 0 {
        Some(Error::InvalidAmount)
    } else if request.caller_balance < request.amount {
        Some(Error::InsufficientBalance)
    } else if state.next_id == BondId::MAX {
        Some(Error::IdentifiersExhausted)
    } else {
        None
    }
}

/// The bond that an accepted issue creates.
pub open spec fn bond_of(request: IssueRequest) -> Bond {
    Bond {
        underlying_asset: request.underlying_asset,
        amount: request.amount,
        maturity: request.maturity,
        holder: request.caller,
    }
}

/// What an issue returns.
pub open spec fn issue_outcome(state: State, settings: Settings, request: IssueRequest) -> Result<Issued, Error> {
    match issue_refusal(state, settings, request) {
        Some(error) => Err(error),
        None => Ok(
            Issued {
                bond_id: state.next_id,
                account: request.caller,
                underlying_asset: request.underlying_asset,
                amount: request.amount,
                maturity: request.maturity,
            },
        ),
    }
}

/// The state that an issue leaves.
pub open spec fn after_issue(state: State, settings: Settings, request: IssueRequest) -> State {
    if issue_refusal(state, settings, request).is_some() {
        state
    } else {
        State {
            bonds: state.bonds.insert(state.next_id, bond_of(request)),
            next_id: (state.next_id + 1) as BondId,
        }
    }
}

/// Why a redemption is turned down, if it is. An unknown bond comes first,
/// then the maturity gate, then the amount, then the claim.
pub open spec fn redeem_refusal(state: State, request: RedeemRequest) -> Option<Error> {
    if !state.bonds.contains_key(request.bond_id) {
        Some(Error::UnknownBond)
    } else if request.now < state.bonds[request.bond_id].maturity {
        Some(Error::NotMatured)
    } else if request.amount == 0 || request.amount > state.bonds[request.bond_id].amount {
        Some(Error::InsufficientBondBalance)
    } else if request.caller != state.bonds[request.bond_id].holder {
        Some(Error::Unauthorized)
    } else {
        None
    }
}

/// What a redemption returns: the fee is taken from the amount redeemed in
/// this call, rounded up, and the rest is paid out.
pub open spec fn redeem_outcome(state: State, settings: Settings, request: RedeemRequest) -> Result<Redeemed, Error> {
    match redeem_refusal(state, request) {
        Some(error) => Err(error),
        None => {
            let fee = settings.protocol_fee.fee(request.amount as nat);
            Ok(
                Redeemed {
                    bond_id: request.bond_id,
                    account: request.caller,
                    underlying_asset: state.bonds[request.bond_id].underlying_asset,
                    net_payout: (request.amount - fee) as Balance,
                    fee: fee as Balance,
                },
            )
        },
    }
}

/// The state that a redemption leaves: the bond shrinks by what was
/// redeemed, and goes when nothing is left of it.
pub open spec fn after_redeem(state: State, request: RedeemRequest) -> State {
    if redeem_refusal(state, request).is_some() {
        state
    } else {
        let bond = state.bonds[request.bond_id];
        if request.amount == bond.amount {
            State { bonds: state.bonds.remove(request.bond_id), ..state }
        } else {
            State {
                bonds: state.bonds.insert(
                    request.bond_id,
                    Bond { amount: (bond.amount - request.amount) as Balance, ..bond },
                ),
                ..state
            }
        }
    }
}

/// Why an unlock is turned down, if it is.
pub open spec fn unlock_refusal(state: State, request: UnlockRequest) -> Option<Error> {
    if !request.privileged {
        Some(Error::Unauthorized)
    } else if !state.bonds.contains_key(request.bond_id) {
        Some(Error::UnknownBond)
    } else {
        None
    }
}

/// The state that an unlock leaves: the bond matures at the time of the
/// call, and nothing else changes.
pub open spec fn after_unlock(state: State, request: UnlockRequest) -> State {
    if unlock_refusal(state, request).is_some() {
        state
    } else {
        State {
            bonds: state.bonds.insert(
                request.bond_id,
                Bond { maturity: request.now, ..state.bonds[request.bond_id] },
            ),
            ..state
        }
    }
}

} // verus!
