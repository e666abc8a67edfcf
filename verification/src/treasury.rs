//! Payouts from the treasury and the exchange rate of won points.

use vstd::prelude::*;
use crate::accounts::{EngineError, Payer, PowerUp, Rate, StakingTreasury, TotalWonPoints, Treasury};

verus! {

/// The native value that a treasury with `balance` pays to the winner of
/// the candidate `number_to_test`: all that lies above the reserve floor
/// where the candidate ends in 01, else the multiplier's share of it.
pub open spec fn payout(
    balance: u64,
    reserve_floor: u64,
    number_to_test: u64,
    power_up: PowerUp,
) -> int
    recommends
        balance >= reserve_floor,
{
    let available = balance - reserve_floor;
    if number_to_test % 100 == 1 {
        available
    } else {
        power_up.share_of(available)
    }
}

/// Why a payout is refused, if it is.
pub open spec fn payout_fault(
    balance: u64,
    winner_balance: u64,
    reserve_floor: u64,
    number_to_test: u64,
    power_up: PowerUp,
) -> Option<EngineError> {
    if balance < reserve_floor {
        Some(EngineError::InsufficientReserve)
    } else if winner_balance + payout(balance, reserve_floor, number_to_test, power_up)
        > u64::MAX {
        Some(EngineError::Overflow)
    } else {
        None
    }
}

/// A payout never takes more than what lies above the reserve floor.
pub proof fn lemma_payout_bounded(
    balance: u64,
    reserve_floor: u64,
    number_to_test: u64,
    power_up: PowerUp,
)
    requires
        balance >= reserve_floor,
    ensures
        0 <= payout(balance, reserve_floor, number_to_test, power_up) <= balance - reserve_floor,
{
}

/// Pays the winner of `number_to_test` from the treasury and returns the
/// amount moved. The treasury keeps its reserve floor, and what it loses the
/// winner gains; a refused payout changes neither account.
pub fn transfer_from_treasury(
    treasury: &mut Treasury,
    payer: &mut Payer,
    number_to_test: u64,
    power_up: PowerUp,
    reserve_floor: u64,
) -> (moved: Result<u64, EngineError>)
    ensures
        match moved {
            Ok(amount) => {
                &&& payout_fault(
                    old(treasury).lamports,
                    old(payer).lamports,
                    reserve_floor,
                    number_to_test,
                    power_up,
                ) is None
                &&& amount == payout(
                    old(treasury).lamports,
                    reserve_floor,
                    number_to_test,
                    power_up,
                )
                &&& final(treasury).lamports == old(treasury).lamports - amount
                &&& final(treasury).lamports >= reserve_floor
                &&& final(treasury).amount == old(treasury).amount
                &&& final(payer).lamports == old(payer).lamports + amount
                &&& final(payer).key == old(payer).key
            },
            Err(e) => {
                &&& payout_fault(
                    old(treasury).lamports,
                    old(payer).lamports,
                    reserve_floor,
                    number_to_test,
                    power_up,
                ) == Some(e)
                &&& *final(treasury) == *old(treasury)
                &&& *final(payer) == *old(payer)
            },
        },
{
    if treasury.lamports < reserve_floor {
        return Err(EngineError::InsufficientReserve);
    }
    let available: u64 = treasury.lamports - reserve_floor;
    let amount: u64 = if number_to_test % 100 == 1 {
        available
    } else {
        power_up.apply(available)
    };
    if amount > u64::MAX - payer.lamports {
        return Err(EngineError::Overflow);
    }
    treasury.lamports = treasury.lamports - amount;
    payer.lamports = payer.lamports + amount;
    Ok(amount)
}

/// The exchange rate of a staking pool with `balance` that backs `total`
/// won points: the rate zero where there are no won points.
pub open spec fn point_rate(balance: u64, total: u64) -> Rate {
    if total == 0 {
        Rate { lamports: 0, points: 1 }
    } else {
        Rate { lamports: balance, points: total }
    }
}

/// Sets the exchange rate to the balance of the staking pool per won
/// point, or to zero where no points are won: it never divides by zero.
pub fn calculate_point_rate_internal(
    staking_treasury: &StakingTreasury,
    total_won_points: &TotalWonPoints,
    rate: &mut Rate,
)
    ensures
        *final(rate) == point_rate(staking_treasury.lamports, total_won_points.points),
        final(rate).points > 0,
{
    if total_won_points.points == 0 {
        rate.lamports = 0;
        rate.points = 1;
    } else {
        rate.lamports = staking_treasury.lamports;
        rate.points = total_won_points.points;
    }
}

} // verus!
