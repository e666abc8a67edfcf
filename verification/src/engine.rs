//! The operations of the engine. Each takes the set of records it works on
//! as one value and either applies its whole effect to it or refuses and
//! leaves it as it was.

use vstd::prelude::*;
use crate::accounts::{
    DrawRecord, EngineError, Jackpot, Leaderboard, Payer, PlayerList, PowerUp, PrimeFound, Rate,
    StakingTreasury, TotalWonPoints, Treasury, User, UserEntry, ENTRY_COST, ENTRY_THRESHOLD,
    JACKPOT_INCREMENT, ORACLE_ROUNDS, PURCHASE_POINTS, PURCHASE_PRICE, PURCHASE_STAKE, TRADE_LOT,
};
use crate::accounts::{power_up_for, select_power_up};
use crate::composer::{candidate, number_to_test};
use crate::host::{read_clock, ClockReading};
use crate::identity::Identity;
use crate::math_utils::{is_prime, miller_rabin_verdict};
use crate::rankings::{history_after, leaderboard_after, update_leaderboard, update_player_list};
use crate::treasury::{
    calculate_point_rate_internal, payout, payout_fault, point_rate, transfer_from_treasury,
};

verus! {

/// The records of a draw.
#[derive(Clone, Debug, PartialEq, Eq)]
pub struct CheckSlot {
    pub user: User,
    pub jackpot: Jackpot,
    pub total_won_points: TotalWonPoints,
    pub treasury: Treasury,
    pub player_list: PlayerList,
    pub leaderboard: Leaderboard,
    pub staking_treasury: StakingTreasury,
    pub rate: Rate,
    pub payer: Payer,
}

/// What the records of a draw hold.
pub ghost struct CheckSlotView {
    pub user: User,
    pub jackpot: Jackpot,
    pub total_won_points: TotalWonPoints,
    pub treasury: Treasury,
    pub player_list: Seq<Identity>,
    pub leaderboard: Seq<UserEntry>,
    pub staking_treasury: StakingTreasury,
    pub rate: Rate,
    pub payer: Payer,
}

impl View for CheckSlot {
    type V = CheckSlotView;

    open spec fn view(&self) -> CheckSlotView {
        CheckSlotView {
            user: self.user,
            jackpot: self.jackpot,
            total_won_points: self.total_won_points,
            treasury: self.treasury,
            player_list: self.player_list@,
            leaderboard: self.leaderboard@,
            staking_treasury: self.staking_treasury,
            rate: self.rate,
            payer: self.payer,
        }
    }
}

/// The candidate that a draw on these records tests.
pub open spec fn draw_candidate(s: CheckSlotView, slot: u64, unix_time: i64) -> u64 {
    candidate(slot, s.payer.key, s.player_list, unix_time) as u64
}

/// Whether a draw on these records wins: the oracle calls its candidate
/// prime.
pub open spec fn draw_wins(s: CheckSlotView, slot: u64, unix_time: i64) -> bool {
    miller_rabin_verdict(draw_candidate(s, slot, unix_time), ORACLE_ROUNDS, unix_time)
}

/// The points that a win pays: the multiplier's share of the jackpot,
/// rounded down.
pub open spec fn reward_points(s: CheckSlotView, slot: u64) -> int {
    power_up_for(slot, s.user.last_won_slot).share_of(s.jackpot.amount as int)
}

/// The native value that a win pays from the treasury.
pub open spec fn draw_payout(
    s: CheckSlotView,
    slot: u64,
    unix_time: i64,
    reserve_floor: u64,
) -> int {
    payout(
        s.treasury.lamports,
        reserve_floor,
        draw_candidate(s, slot, unix_time),
        power_up_for(slot, s.user.last_won_slot),
    )
}

/// Why a winning draw is refused, if it is.
pub open spec fn win_fault(
    s: CheckSlotView,
    slot: u64,
    unix_time: i64,
    reserve_floor: u64,
) -> Option<EngineError> {
    let reward = reward_points(s, slot);
    if s.jackpot.amount < 0 {
        Some(EngineError::Underflow)
    } else if s.user.points - ENTRY_COST + reward > i64::MAX {
        Some(EngineError::Overflow)
    } else if s.user.won_points + reward > i64::MAX {
        Some(EngineError::Overflow)
    } else if s.total_won_points.points + reward > u64::MAX {
        Some(EngineError::Overflow)
    } else {
        payout_fault(
            s.treasury.lamports,
            s.payer.lamports,
            reserve_floor,
            draw_candidate(s, slot, unix_time),
            power_up_for(slot, s.user.last_won_slot),
        )
    }
}

/// Why a losing draw is refused, if it is.
pub open spec fn loss_fault(s: CheckSlotView) -> Option<EngineError> {
    if s.jackpot.amount + JACKPOT_INCREMENT > i64::MAX {
        Some(EngineError::Overflow)
    } else {
        None
    }
}

/// Why a draw by a user above the entry threshold is refused, if it is.
pub open spec fn draw_fault_past_entry(
    s: CheckSlotView,
    slot: u64,
    unix_time: i64,
    reserve_floor: u64,
) -> Option<EngineError> {
    if s.user.last_won_slot > slot {
        Some(EngineError::Underflow)
    } else if draw_wins(s, slot, unix_time) {
        win_fault(s, slot, unix_time, reserve_floor)
    } else {
        loss_fault(s)
    }
}

/// Why a draw is refused, if it is: first of all for want of points.
pub open spec fn draw_fault(
    s: CheckSlotView,
    slot: u64,
    unix_time: i64,
    reserve_floor: u64,
) -> Option<EngineError> {
    if s.user.points <= ENTRY_THRESHOLD {
        Some(EngineError::InsufficientFunds)
    } else {
        draw_fault_past_entry(s, slot, unix_time, reserve_floor)
    }
}

/// The jackpot less a reward, never below zero.
pub open spec fn jackpot_less(amount: i64, reward: int) -> int {
    if amount >= reward {
        amount - reward
    } else {
        0
    }
}

/// The records after an accepted winning draw.
pub open spec fn after_win(
    s: CheckSlotView,
    slot: u64,
    unix_time: i64,
    reserve_floor: u64,
) -> CheckSlotView {
    let reward = reward_points(s, slot);
    let paid = draw_payout(s, slot, unix_time, reserve_floor);
    let user = User {
        points: (s.user.points - ENTRY_COST + reward) as i64,
        won_points: (s.user.won_points + reward) as i64,
        last_won_slot: slot,
        ..s.user
    };
    let total_won_points = TotalWonPoints { points: (s.total_won_points.points + reward) as u64 };
    CheckSlotView {
        user,
        jackpot: Jackpot {
            amount: jackpot_less(s.jackpot.amount, reward) as i64,
            winner: s.payer.key,
        },
        total_won_points,
        treasury: Treasury { lamports: (s.treasury.lamports - paid) as u64, ..s.treasury },
        player_list: history_after(s.player_list, s.payer.key),
        leaderboard: leaderboard_after(s.leaderboard, s.payer.key, user.won_points),
        staking_treasury: s.staking_treasury,
        rate: point_rate(s.staking_treasury.lamports, total_won_points.points),
        payer: Payer { lamports: (s.payer.lamports + paid) as u64, ..s.payer },
    }
}

/// The records after an accepted losing draw.
pub open spec fn after_loss(s: CheckSlotView) -> CheckSlotView {
    CheckSlotView {
        user: User { points: (s.user.points - ENTRY_COST) as i64, ..s.user },
        jackpot: Jackpot { amount: (s.jackpot.amount + JACKPOT_INCREMENT) as i64, ..s.jackpot },
        player_list: history_after(s.player_list, s.payer.key),
        leaderboard: leaderboard_after(s.leaderboard, s.payer.key, s.user.won_points),
        ..s
    }
}

/// The records after an accepted draw.
pub open spec fn after_draw(
    s: CheckSlotView,
    slot: u64,
    unix_time: i64,
    reserve_floor: u64,
) -> CheckSlotView {
    if draw_wins(s, slot, unix_time) {
        after_win(s, slot, unix_time, reserve_floor)
    } else {
        after_loss(s)
    }
}

/// What an accepted draw reports.
pub open spec fn draw_report(s: CheckSlotView, slot: u64, unix_time: i64) -> DrawRecord {
    if draw_wins(s, slot, unix_time) {
        DrawRecord::Won(
            PrimeFound {
                slot,
                user_pubkey: s.payer.key,
                power_up: power_up_for(slot, s.user.last_won_slot),
                number_to_test: draw_candidate(s, slot, unix_time),
                reward_points: reward_points(s, slot) as i64,
            },
        )
    } else {
        DrawRecord::Lost {
            slot,
            user_pubkey: s.payer.key,
            number_to_test: draw_candidate(s, slot, unix_time),
            jackpot_increment: JACKPOT_INCREMENT,
        }
    }
}

/// One draw by the payer at `slot` and `unix_time`, against a treasury that
/// must keep `reserve_floor`.
///
/// A user with no more points than the entry threshold is refused. Else the
/// candidate is composed and tested. A prime candidate wins: the user pays
/// the entry cost and gains the multiplier's share of the jackpot, as points
/// and as won points, the jackpot shrinks by it, the treasury pays out and
/// the exchange rate is set anew. Any other candidate loses: the user pays
/// the entry cost and the jackpot grows. Either way the payer enters the
/// history and the leaderboard is refreshed. A refused draw changes nothing.
pub fn check_slot(ctx: &mut CheckSlot, slot: u64, unix_time: i64, reserve_floor: u64) -> (outcome:
    Result<DrawRecord, EngineError>)
    ensures
        match outcome {
            Ok(report) => {
                &&& draw_fault(old(ctx)@, slot, unix_time, reserve_floor) is None
                &&& final(ctx)@ == after_draw(old(ctx)@, slot, unix_time, reserve_floor)
                &&& report == draw_report(old(ctx)@, slot, unix_time)
            },
            Err(e) => {
                &&& draw_fault(old(ctx)@, slot, unix_time, reserve_floor) == Some(e)
                &&& *final(ctx) == *old(ctx)
            },
        },
        old(ctx).user.points <= ENTRY_THRESHOLD ==> outcome == Err::<DrawRecord, EngineError>(
            EngineError::InsufficientFunds,
        ),
        outcome matches Ok(DrawRecord::Won(_)) ==> final(ctx).jackpot.amount >= 0
            && final(ctx).treasury.lamports >= reserve_floor,
        outcome matches Ok(DrawRecord::Lost { .. }) ==> final(ctx).treasury == old(ctx).treasury,
        outcome is Ok ==> final(ctx).user.won_points - old(ctx).user.won_points
            == final(ctx).total_won_points.points - old(ctx).total_won_points.points,
{
    if ctx.user.points <= ENTRY_THRESHOLD {
        return Err(EngineError::InsufficientFunds);
    }
    let power_up: PowerUp = match select_power_up(slot, ctx.user.last_won_slot) {
        Ok(p) => p,
        Err(e) => {
            return Err(e);
        },
    };
    let tested: u64 = number_to_test(slot, &ctx.payer.key, &ctx.player_list, unix_time);
    let report: DrawRecord;
    if is_prime(tested, ORACLE_ROUNDS, unix_time) {
        if ctx.jackpot.amount < 0 {
            return Err(EngineError::Underflow);
        }
        let reward: i64 = power_up.apply(ctx.jackpot.amount as u64) as i64;
        let paid_up: i64 = ctx.user.points - ENTRY_COST;
        if reward > i64::MAX - paid_up {
            return Err(EngineError::Overflow);
        }
        if ctx.user.won_points > 0 && reward > i64::MAX - ctx.user.won_points {
            return Err(EngineError::Overflow);
        }
        if reward as u64 > u64::MAX - ctx.total_won_points.points {
            return Err(EngineError::Overflow);
        }
        let mut treasury: Treasury = ctx.treasury;
        let mut payer: Payer = ctx.payer;
        match transfer_from_treasury(&mut treasury, &mut payer, tested, power_up, reserve_floor) {
            Ok(_) => {},
            Err(e) => {
                return Err(e);
            },
        }
        ctx.user.points = paid_up + reward;
        ctx.user.won_points = ctx.user.won_points + reward;
        ctx.total_won_points.points = ctx.total_won_points.points + reward as u64;
        ctx.user.last_won_slot = slot;
        ctx.jackpot.winner = ctx.payer.key;
        ctx.treasury = treasury;
        ctx.payer = payer;
        calculate_point_rate_internal(&ctx.staking_treasury, &ctx.total_won_points, &mut ctx.rate);
        if ctx.jackpot.amount >= reward {
            ctx.jackpot.amount = ctx.jackpot.amount - reward;
        } else {
            ctx.jackpot.amount = 0;
        }
        report = DrawRecord::Won(
            PrimeFound {
                slot,
                user_pubkey: ctx.payer.key,
                power_up,
                number_to_test: tested,
                reward_points: reward,
            },
        );
    } else {
        if ctx.jackpot.amount > i64::MAX - JACKPOT_INCREMENT {
            return Err(EngineError::Overflow);
        }
        ctx.jackpot.amount = ctx.jackpot.amount + JACKPOT_INCREMENT;
        ctx.user.points = ctx.user.points - ENTRY_COST;
        report = DrawRecord::Lost {
            slot,
            user_pubkey: ctx.payer.key,
            number_to_test: tested,
            jackpot_increment: JACKPOT_INCREMENT,
        };
    }
    update_player_list(&mut ctx.player_list, ctx.payer.key);
    update_leaderboard(&mut ctx.leaderboard, ctx.payer.key, ctx.user.won_points);
    Ok(report)
}

/// `after` and `record` are what a draw at the time of `reading` makes of
/// `before`.
pub open spec fn is_draw_at(
    before: CheckSlotView,
    after: CheckSlotView,
    record: DrawRecord,
    reading: ClockReading,
    reserve_floor: u64,
) -> bool {
    &&& draw_fault(before, reading.slot, reading.unix_timestamp, reserve_floor) is None
    &&& after == after_draw(before, reading.slot, reading.unix_timestamp, reserve_floor)
    &&& record == draw_report(before, reading.slot, reading.unix_timestamp)
}

/// A draw at the time of `reading` is refused for `fault`.
pub open spec fn is_refused_at(
    before: CheckSlotView,
    fault: EngineError,
    reading: ClockReading,
    reserve_floor: u64,
) -> bool {
    draw_fault(before, reading.slot, reading.unix_timestamp, reserve_floor) == Some(fault)
}

/// One draw by the payer at the slot and the time that the host's clock
/// gives at this moment.
///
/// A user with no more points than the entry threshold is refused before the
/// clock is read. A host without a clock refuses every other draw. Else the
/// draw is that of `check_slot` at the reading, which is the host's to give:
/// the outcome is that of a draw at some slot and time.
pub fn check_slot_now(ctx: &mut CheckSlot, reserve_floor: u64) -> (outcome: Result<
    DrawRecord,
    EngineError,
>)
    ensures
        match outcome {
            Ok(record) => exists|reading: ClockReading| #[trigger]
                is_draw_at(old(ctx)@, final(ctx)@, record, reading, reserve_floor),
            Err(e) => {
                &&& *final(ctx) == *old(ctx)
                &&& e == EngineError::ClockUnavailable || exists|reading: ClockReading| #[trigger]
                    is_refused_at(old(ctx)@, e, reading, reserve_floor)
            },
        },
        old(ctx).user.points <= ENTRY_THRESHOLD ==> outcome == Err::<DrawRecord, EngineError>(
            EngineError::InsufficientFunds,
        ),
        outcome is Ok ==> final(ctx).user.won_points - old(ctx).user.won_points
            == final(ctx).total_won_points.points - old(ctx).total_won_points.points,
        outcome is Ok ==> final(ctx).treasury.lamports >= reserve_floor || final(ctx).treasury
            == old(ctx).treasury,
        outcome is Ok ==> final(ctx).jackpot.amount >= 0 || final(ctx).jackpot.amount
            == old(ctx).jackpot.amount + JACKPOT_INCREMENT,
{
    if ctx.user.points <= ENTRY_THRESHOLD {
        assert(is_refused_at(
            ctx@,
            EngineError::InsufficientFunds,
            ClockReading { slot: 0, unix_timestamp: 0 },
            reserve_floor,
        ));
        return Err(EngineError::InsufficientFunds);
    }
    match read_clock() {
        None => Err(EngineError::ClockUnavailable),
        Some(reading) => {
            let outcome = check_slot(ctx, reading.slot, reading.unix_timestamp, reserve_floor);
            proof {
                match outcome {
                    Ok(record) => {
                        assert(is_draw_at(old(ctx)@, ctx@, record, reading, reserve_floor));
                    },
                    Err(e) => {
                        assert(is_refused_at(old(ctx)@, e, reading, reserve_floor));
                    },
                }
            }
            outcome
        },
    }
}

/// The records of a trade of won points for native value.
#[derive(Clone, Copy, Debug, PartialEq, Eq)]
pub struct TradeWonPoints {
    pub user: User,
    pub rate: Rate,
    pub total_won_points: TotalWonPoints,
    pub staking_treasury: StakingTreasury,
    pub payer: Payer,
}

/// The native value that a trade pays at the rate of these records.
pub open spec fn trade_value(s: TradeWonPoints) -> nat {
    s.rate.lamports_for(TRADE_LOT as nat)
}

/// Why a trade is refused, if it is.
pub open spec fn trade_fault(s: TradeWonPoints) -> Option<EngineError> {
    if s.user.won_points < TRADE_LOT {
        Some(EngineError::InsufficientFunds)
    } else if s.staking_treasury.lamports < trade_value(s) {
        Some(EngineError::InsufficientFunds)
    } else if s.payer.lamports + trade_value(s) > u64::MAX {
        Some(EngineError::Overflow)
    } else if s.total_won_points.points < TRADE_LOT {
        Some(EngineError::Underflow)
    } else {
        None
    }
}

/// The records after an accepted trade.
pub open spec fn after_trade(s: TradeWonPoints) -> TradeWonPoints {
    TradeWonPoints {
        user: User { won_points: (s.user.won_points - TRADE_LOT) as i64, ..s.user },
        rate: s.rate,
        total_won_points: TotalWonPoints { points: (s.total_won_points.points - TRADE_LOT) as u64 },
        staking_treasury: StakingTreasury {
            lamports: (s.staking_treasury.lamports - trade_value(s)) as u64,
        },
        payer: Payer { lamports: (s.payer.lamports + trade_value(s)) as u64, ..s.payer },
    }
}

/// Trades one lot of the user's won points for native value from the
/// staking pool, at the current exchange rate, and returns the value paid.
/// The user's won points and the total fall by the lot together. A user with
/// less than a lot, or a pool with less than the value, is refused.
pub fn trade_won_points(ctx: &mut TradeWonPoints) -> (paid: Result<u64, EngineError>)
    ensures
        match paid {
            Ok(value) => {
                &&& trade_fault(*old(ctx)) is None
                &&& *final(ctx) == after_trade(*old(ctx))
                &&& value == trade_value(*old(ctx))
            },
            Err(e) => {
                &&& trade_fault(*old(ctx)) == Some(e)
                &&& *final(ctx) == *old(ctx)
            },
        },
{
    if ctx.user.won_points < TRADE_LOT as i64 {
        return Err(EngineError::InsufficientFunds);
    }
    let worth: u128 = ctx.rate.quote(TRADE_LOT);
    if (ctx.staking_treasury.lamports as u128) < worth {
        return Err(EngineError::InsufficientFunds);
    }
    let value: u64 = worth as u64;
    if value > u64::MAX - ctx.payer.lamports {
        return Err(EngineError::Overflow);
    }
    if ctx.total_won_points.points < TRADE_LOT {
        return Err(EngineError::Underflow);
    }
    ctx.staking_treasury.lamports = ctx.staking_treasury.lamports - value;
    ctx.payer.lamports = ctx.payer.lamports + value;
    ctx.user.won_points = ctx.user.won_points - TRADE_LOT as i64;
    ctx.total_won_points.points = ctx.total_won_points.points - TRADE_LOT;
    Ok(value)
}

/// The records of a purchase of points.
#[derive(Clone, Copy, Debug, PartialEq, Eq)]
pub struct PayForPoints {
    pub user: User,
    pub treasury: Treasury,
    pub staking_treasury: StakingTreasury,
    pub payer: Payer,
}

/// Why a purchase is refused, if it is.
pub open spec fn purchase_fault(s: PayForPoints) -> Option<EngineError> {
    if s.payer.lamports < PURCHASE_PRICE + PURCHASE_STAKE {
        Some(EngineError::InsufficientFunds)
    } else if s.treasury.lamports + PURCHASE_PRICE > u64::MAX {
        Some(EngineError::Overflow)
    } else if s.staking_treasury.lamports + PURCHASE_STAKE > u64::MAX {
        Some(EngineError::Overflow)
    } else if s.user.points + PURCHASE_POINTS > i64::MAX {
        Some(EngineError::Overflow)
    } else {
        None
    }
}

/// The records after an accepted purchase.
pub open spec fn after_purchase(s: PayForPoints) -> PayForPoints {
    PayForPoints {
        user: User { points: (s.user.points + PURCHASE_POINTS) as i64, ..s.user },
        treasury: Treasury { lamports: (s.treasury.lamports + PURCHASE_PRICE) as u64, ..s.treasury },
        staking_treasury: StakingTreasury {
            lamports: (s.staking_treasury.lamports + PURCHASE_STAKE) as u64,
        },
        payer: Payer {
            lamports: (s.payer.lamports - PURCHASE_PRICE - PURCHASE_STAKE) as u64,
            ..s.payer
        },
    }
}

/// Buys points: the payer pays the price into the treasury and a tenth of
/// it on top into the staking pool, and the user gains the points. A payer
/// who cannot pay both is refused.
pub fn pay_for_points(ctx: &mut PayForPoints) -> (done: Result<(), EngineError>)
    ensures
        match done {
            Ok(_) => purchase_fault(*old(ctx)) is None && *final(ctx) == after_purchase(*old(ctx)),
            Err(e) => purchase_fault(*old(ctx)) == Some(e) && *final(ctx) == *old(ctx),
        },
{
    if ctx.payer.lamports < PURCHASE_PRICE + PURCHASE_STAKE {
        return Err(EngineError::InsufficientFunds);
    }
    if ctx.treasury.lamports > u64::MAX - PURCHASE_PRICE {
        return Err(EngineError::Overflow);
    }
    if ctx.staking_treasury.lamports > u64::MAX - PURCHASE_STAKE {
        return Err(EngineError::Overflow);
    }
    if ctx.user.points > i64::MAX - PURCHASE_POINTS {
        return Err(EngineError::Overflow);
    }
    ctx.payer.lamports = ctx.payer.lamports - PURCHASE_PRICE - PURCHASE_STAKE;
    ctx.treasury.lamports = ctx.treasury.lamports + PURCHASE_PRICE;
    ctx.staking_treasury.lamports = ctx.staking_treasury.lamports + PURCHASE_STAKE;
    ctx.user.points = ctx.user.points + PURCHASE_POINTS;
    Ok(())
}

/// The records of a claim.
#[derive(Clone, Copy, Debug, PartialEq, Eq)]
pub struct ClaimLamports {
    pub user: User,
    pub total_won_points: TotalWonPoints,
    pub staking_treasury: StakingTreasury,
    pub payer: Payer,
}

/// Records a claim at `current_slot`. No value moves: only the slot of the
/// user's last claim changes.
pub fn claim_lamports(ctx: &mut ClaimLamports, current_slot: u64)
    ensures
        *final(ctx) == (ClaimLamports {
            user: User { last_claimed_slot: current_slot, ..old(ctx).user },
            ..*old(ctx)
        }),
{
    ctx.user.last_claimed_slot = current_slot;
}

/// Records a claim at the slot that the host's clock gives at this moment.
/// A host without a clock refuses, and nothing changes.
pub fn claim_lamports_now(ctx: &mut ClaimLamports) -> (done: Result<(), EngineError>)
    ensures
        match done {
            Ok(_) => {
                &&& final(ctx).user == (User {
                    last_claimed_slot: final(ctx).user.last_claimed_slot,
                    ..old(ctx).user
                })
                &&& final(ctx).total_won_points == old(ctx).total_won_points
                &&& final(ctx).staking_treasury == old(ctx).staking_treasury
                &&& final(ctx).payer == old(ctx).payer
            },
            Err(e) => e == EngineError::ClockUnavailable && *final(ctx) == *old(ctx),
        },
{
    match read_clock() {
        None => Err(EngineError::ClockUnavailable),
        Some(reading) => {
            claim_lamports(ctx, reading.slot);
            Ok(())
        },
    }
}

/// The record of a user and the participant it belongs to.
#[derive(Clone, Copy, Debug, PartialEq, Eq)]
pub struct InitializeUser {
    pub user: User,
    pub payer: Payer,
}

/// A user's record after initialization: one without points and without
/// won points starts from zero in every field, any other is kept.
pub open spec fn initialized_user(user: User) -> User {
    if user.points == 0 && user.won_points == 0 {
        User {
            points: 0,
            won_points: 0,
            last_won_slot: 0,
            last_claimed_slot: 0,
            last_claimed_lamports: 0,
        }
    } else {
        user
    }
}

/// Initializes the record of a user. A record that holds points or won
/// points is left as it is, so initializing again takes nothing away.
pub fn initialize_user(ctx: &mut InitializeUser)
    ensures
        final(ctx).user == initialized_user(old(ctx).user),
        final(ctx).payer == old(ctx).payer,
{
    if ctx.user.points == 0 && ctx.user.won_points == 0 {
        ctx.user.points = 0;
        ctx.user.won_points = 0;
        ctx.user.last_won_slot = 0;
        ctx.user.last_claimed_slot = 0;
        ctx.user.last_claimed_lamports = 0;
    } else if ctx.user.points == 0 {
        ctx.user.points = 0;
    }
}

/// The records that the engine shares among all users.
#[derive(Clone, Debug, PartialEq, Eq)]
pub struct Initialize {
    pub jackpot: Jackpot,
    pub treasury: Treasury,
    pub player_list: PlayerList,
    pub payer: Payer,
}

/// Initializes the shared records. Records that are in use are left as they
/// are: initializing again resets neither the jackpot nor the history, and
/// never touches the balance of the treasury.
pub fn initialize(ctx: &mut Initialize)
    ensures
        final(ctx).jackpot == old(ctx).jackpot,
        final(ctx).treasury == old(ctx).treasury,
        final(ctx).player_list@ == old(ctx).player_list@,
        final(ctx).payer == old(ctx).payer,
{
    let unset: Identity = Identity::default();
    if ctx.jackpot.amount == 0 && ctx.jackpot.winner == unset {
        ctx.jackpot.amount = 0;
        ctx.jackpot.winner = unset;
    }
    if ctx.player_list.players.len() == 0 {
        ctx.player_list.players = Vec::new();
    }
}

/// The leaderboard and the participant who initializes it.
#[derive(Clone, Debug, PartialEq, Eq)]
pub struct InitializeLeaderboard {
    pub leaderboard: Leaderboard,
    pub payer: Payer,
}

/// Initializes the leaderboard. A leaderboard with entries keeps them.
pub fn initialize_leaderboard(ctx: &mut InitializeLeaderboard)
    ensures
        final(ctx).leaderboard@ == old(ctx).leaderboard@,
        final(ctx).payer == old(ctx).payer,
{
    if ctx.leaderboard.users.len() == 0 {
        ctx.leaderboard.users = Vec::new();
    }
}

} // verus!
