//! What holds of the protocol over whole histories of calls.

use vstd::prelude::*;
use super::fee::lemma_fee_at_most_amount;
use super::model::{
    IssueRequest, RedeemRequest, Redeemed, Settings, State, UnlockRequest, after_issue,
    after_redeem, after_unlock, issue_refusal, redeem_outcome, redeem_refusal,
};
use super::types::{AssetId, Bond, BondId, Error};

verus! {

/// One call of the protocol.
pub enum Call {
    Issue(IssueRequest),
    Redeem(RedeemRequest),
    Unlock(UnlockRequest),
}

/// The state that `call` leaves.
pub open spec fn step(state: State, settings: Settings, call: Call) -> State {
    match call {
        Call::Issue(request) => after_issue(state, settings, request),
        Call::Redeem(request) => after_redeem(state, request),
        Call::Unlock(request) => after_unlock(state, request),
    }
}

/// The state that `calls` leave, made one after the other.
pub open spec fn run(state: State, settings: Settings, calls: Seq<Call>) -> State
    decreases calls.len(),
{
    if calls.len() == 0 {
        state
    } else {
        step(run(state, settings, calls.drop_last()), settings, calls.last())
    }
}

/// What has moved of one asset: into escrow, to the protocol as fees, and
/// out to redeemers.
pub struct Tally {
    pub escrowed: nat,
    pub fees: nat,
    pub paid_out: nat,
}

/// What `call` moves of `asset` when it is made in `state`.
pub open spec fn moved_by(state: State, settings: Settings, call: Call, asset: AssetId) -> Tally {
    match call {
        Call::Issue(request) => {
            if issue_refusal(state, settings, request).is_none() && request.underlying_asset
                == asset {
                Tally { escrowed: request.amount as nat, fees: 0, paid_out: 0 }
            } else {
                Tally { escrowed: 0, fees: 0, paid_out: 0 }
            }
        },
        Call::Redeem(request) => {
            match redeem_outcome(state, settings, request) {
                Ok(redeemed) if redeemed.underlying_asset == asset => Tally {
                    escrowed: 0,
                    fees: redeemed.fee as nat,
                    paid_out: redeemed.net_payout as nat,
                },
                _ => Tally { escrowed: 0, fees: 0, paid_out: 0 },
            }
        },
        Call::Unlock(_) => Tally { escrowed: 0, fees: 0, paid_out: 0 },
    }
}

/// What `calls` move of `asset` when they are made one after the other from
/// `state` on.
pub open spec fn moved(state: State, settings: Settings, calls: Seq<Call>, asset: AssetId) -> Tally
    decreases calls.len(),
{
    if calls.len() == 0 {
        Tally { escrowed: 0, fees: 0, paid_out: 0 }
    } else {
        let before = moved(state, settings, calls.drop_last(), asset);
        let last = moved_by(run(state, settings, calls.drop_last()), settings, calls.last(), asset);
        Tally {
            escrowed: before.escrowed + last.escrowed,
            fees: before.fees + last.fees,
            paid_out: before.paid_out + last.paid_out,
        }
    }
}

/// The principal of `asset` that the bond under `id` holds, if there is one.
pub open spec fn principal_at(bonds: Map<BondId, Bond>, asset: AssetId, id: BondId) -> nat {
    if bonds.contains_key(id) && bonds[id].underlying_asset == asset {
        bonds[id].amount as nat
    } else {
        0
    }
}

/// The principal of `asset` held by the bonds whose identifiers lie below
/// `bound`.
pub open spec fn outstanding_below(bonds: Map<BondId, Bond>, asset: AssetId, bound: nat) -> nat
    decreases bound,
{
    if bound == 0 {
        0
    } else {
        outstanding_below(bonds, asset, (bound - 1) as nat) + principal_at(
            bonds,
            asset,
            (bound - 1) as BondId,
        )
    }
}

/// The principal of `asset` that all bonds together hold.
pub open spec fn outstanding(bonds: Map<BondId, Bond>, asset: AssetId) -> nat {
    outstanding_below(bonds, asset, 0x1_0000_0000_0000_0000)
}

/// Two maps that differ at most under `id` hold the same principal but for
/// what that bond holds.
proof fn lemma_outstanding_differs_at(
    before: Map<BondId, Bond>,
    after: Map<BondId, Bond>,
    asset: AssetId,
    id: BondId,
    bound: nat,
)
    requires
        bound <= 0x1_0000_0000_0000_0000,
        forall|other: BondId|
            other != id ==> principal_at(before, asset, other) == principal_at(after, asset, other),
    ensures
        id < bound ==> outstanding_below(after, asset, bound) - principal_at(after, asset, id)
            == outstanding_below(before, asset, bound) - principal_at(before, asset, id),
        id >= bound ==> outstanding_below(after, asset, bound) == outstanding_below(
            before,
            asset,
            bound,
        ),
    decreases bound,
{
    if bound > 0 {
        lemma_outstanding_differs_at(before, after, asset, id, (bound - 1) as nat);
    }
}

/// Every call keeps the state valid.
pub proof fn lemma_step_keeps_valid(state: State, settings: Settings, call: Call)
    requires
        state.valid(),
    ensures
        step(state, settings, call).valid(),
        step(state, settings, call).next_id >= state.next_id,
{
}

/// Every history of calls keeps the state valid, and the counter of
/// identifiers never goes back.
pub proof fn lemma_run_keeps_valid(state: State, settings: Settings, calls: Seq<Call>)
    requires
        state.valid(),
    ensures
        run(state, settings, calls).valid(),
        run(state, settings, calls).next_id >= state.next_id,
    decreases calls.len(),
{
    if calls.len() > 0 {
        lemma_run_keeps_valid(state, settings, calls.drop_last());
        lemma_step_keeps_valid(run(state, settings, calls.drop_last()), settings, calls.last());
    }
}

/// One call creates no value and loses none: what the bonds hold of an
/// asset afterwards, with the fee and the payout of the call, is what they
/// held before, with what the call put into escrow.
pub proof fn lemma_step_conserves(state: State, settings: Settings, call: Call, asset: AssetId)
    requires
        state.valid(),
        settings.protocol_fee.valid(),
    ensures
        outstanding(step(state, settings, call).bonds, asset) + moved_by(
            state,
            settings,
            call,
            asset,
        ).fees + moved_by(state, settings, call, asset).paid_out == outstanding(state.bonds, asset)
            + moved_by(state, settings, call, asset).escrowed,
{
    let next = step(state, settings, call);
    let bound: nat = 0x1_0000_0000_0000_0000;
    match call {
        Call::Issue(request) => {
            lemma_outstanding_differs_at(state.bonds, next.bonds, asset, state.next_id, bound);
        },
        Call::Redeem(request) => {
            lemma_fee_at_most_amount(
                request.amount as nat,
                settings.protocol_fee.num(),
                settings.protocol_fee.den(),
            );
            lemma_outstanding_differs_at(state.bonds, next.bonds, asset, request.bond_id, bound);
        },
        Call::Unlock(request) => {
            lemma_outstanding_differs_at(state.bonds, next.bonds, asset, request.bond_id, bound);
        },
    }
}

/// Conservation. Over every history of calls, and for every asset: the
/// principal still outstanding, the fees collected and the net payouts
/// together equal the principal outstanding at the start and the amounts
/// escrowed since. So what is outstanding and what was collected never
/// exceed what was escrowed: no value comes from nothing.
pub proof fn law_conservation(state: State, settings: Settings, calls: Seq<Call>, asset: AssetId)
    requires
        state.valid(),
        settings.protocol_fee.valid(),
    ensures
        outstanding(run(state, settings, calls).bonds, asset) + moved(
            state,
            settings,
            calls,
            asset,
        ).fees + moved(state, settings, calls, asset).paid_out == outstanding(state.bonds, asset)
            + moved(state, settings, calls, asset).escrowed,
        outstanding(run(state, settings, calls).bonds, asset) + moved(
            state,
            settings,
            calls,
            asset,
        ).fees <= outstanding(state.bonds, asset) + moved(state, settings, calls, asset).escrowed,
    decreases calls.len(),
{
    if calls.len() > 0 {
        law_conservation(state, settings, calls.drop_last(), asset);
        lemma_run_keeps_valid(state, settings, calls.drop_last());
        lemma_step_conserves(run(state, settings, calls.drop_last()), settings, calls.last(), asset);
    }
}

/// Nothing is outstanding before the first bond is issued.
pub proof fn lemma_nothing_outstanding_initially(asset: AssetId)
    ensures
        State::initial().valid(),
        outstanding(State::initial().bonds, asset) == 0,
{
    lemma_nothing_below(asset, 0x1_0000_0000_0000_0000);
}

proof fn lemma_nothing_below(asset: AssetId, bound: nat)
    ensures
        outstanding_below(Map::<BondId, Bond>::empty(), asset, bound) == 0,
    decreases bound,
{
    if bound > 0 {
        lemma_nothing_below(asset, (bound - 1) as nat);
    }
}

/// Escrow covers the bonds. Over every history of calls from the start, and
/// for every asset: what went into escrow, less what the protocol ordered
/// out of it as fees and payouts, is the principal that the bonds still
/// hold.
pub proof fn law_escrow_covers_outstanding(settings: Settings, calls: Seq<Call>, asset: AssetId)
    requires
        settings.protocol_fee.valid(),
    ensures
        moved(State::initial(), settings, calls, asset).escrowed - moved(
            State::initial(),
            settings,
            calls,
            asset,
        ).fees - moved(State::initial(), settings, calls, asset).paid_out == outstanding(
            run(State::initial(), settings, calls).bonds,
            asset,
        ),
{
    lemma_nothing_outstanding_initially(asset);
    law_conservation(State::initial(), settings, calls, asset);
}

/// An identifier that was given out and is free again stays free through
/// one call.
pub proof fn lemma_step_reuses_no_identifier(
    state: State,
    settings: Settings,
    call: Call,
    id: BondId,
)
    requires
        state.valid(),
        id < state.next_id,
        !state.bonds.contains_key(id),
    ensures
        !step(state, settings, call).bonds.contains_key(id),
{
}

/// Identifiers are never reused. Whatever calls follow, an identifier that
/// was given out and whose bond is gone names no bond again.
pub proof fn law_identifiers_never_reused(
    state: State,
    settings: Settings,
    calls: Seq<Call>,
    id: BondId,
)
    requires
        state.valid(),
        id < state.next_id,
        !state.bonds.contains_key(id),
    ensures
        !run(state, settings, calls).bonds.contains_key(id),
    decreases calls.len(),
{
    if calls.len() > 0 {
        law_identifiers_never_reused(state, settings, calls.drop_last(), id);
        lemma_run_keeps_valid(state, settings, calls.drop_last());
        lemma_step_reuses_no_identifier(
            run(state, settings, calls.drop_last()),
            settings,
            calls.last(),
            id,
        );
    }
}

/// Only an unlock moves a maturity. A bond that is there before and after
/// an issue or a redemption has kept its maturity, its asset and its
/// holder, and has not grown.
pub proof fn law_maturity_moves_by_unlock_only(
    state: State,
    settings: Settings,
    call: Call,
    id: BondId,
)
    requires
        state.valid(),
        !(call is Unlock),
        state.bonds.contains_key(id),
        step(state, settings, call).bonds.contains_key(id),
    ensures
        step(state, settings, call).bonds[id].maturity == state.bonds[id].maturity,
        step(state, settings, call).bonds[id].underlying_asset == state.bonds[id].underlying_asset,
        step(state, settings, call).bonds[id].holder == state.bonds[id].holder,
        step(state, settings, call).bonds[id].amount <= state.bonds[id].amount,
{
}

/// Unlocking is idempotent: the same unlock made twice leaves the state
/// that it leaves when made once.
pub proof fn law_unlock_idempotent(state: State, request: UnlockRequest)
    ensures
        after_unlock(after_unlock(state, request), request) == after_unlock(state, request),
{
    let once = after_unlock(state, request);
    let twice = after_unlock(once, request);
    assert(twice.bonds =~= once.bonds);
}

/// After an unlock, made once or twice, the holder can redeem at the time
/// of the unlock and at any time after it: any part of the principal, up to
/// all of it.
pub proof fn law_redeemable_after_unlock(
    state: State,
    unlock: UnlockRequest,
    redeem: RedeemRequest,
)
    requires
        unlock.privileged,
        state.bonds.contains_key(unlock.bond_id),
        redeem.bond_id == unlock.bond_id,
        redeem.now >= unlock.now,
        redeem.caller == state.bonds[unlock.bond_id].holder,
        0 < redeem.amount <= state.bonds[unlock.bond_id].amount,
    ensures
        redeem_refusal(after_unlock(state, unlock), redeem).is_none(),
        redeem_refusal(after_unlock(after_unlock(state, unlock), unlock), redeem).is_none(),
{
    law_unlock_idempotent(state, unlock);
}

/// No early redemption. While a bond has not matured, whoever asks and for
/// whatever amount is refused as too early, and the state stays as it was.
pub proof fn law_no_early_redemption(state: State, settings: Settings, request: RedeemRequest)
    requires
        state.bonds.contains_key(request.bond_id),
        request.now < state.bonds[request.bond_id].maturity,
    ensures
        redeem_outcome(state, settings, request) == Err::<Redeemed, Error>(Error::NotMatured),
        after_redeem(state, request) == state,
{
}

/// The minimum lock. An issue whose maturity does not lie more than the
/// minimum after the time of the call is refused as such, whatever else it
/// asks, and the state stays as it was.
pub proof fn law_minimum_lock(state: State, settings: Settings, request: IssueRequest)
    requires
        request.maturity <= request.now + settings.min_maturity,
    ensures
        issue_refusal(state, settings, request) == Some(Error::InvalidMaturity),
        after_issue(state, settings, request) == state,
{
}

} // verus!
