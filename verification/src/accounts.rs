//! The ledger records of the engine, and the values its operations exchange.

use vstd::prelude::*;
use crate::identity::Identity;

verus! {

/// A draw is accepted only from a user with more points than this.
pub const ENTRY_THRESHOLD: i64 = 10;

/// The points that every accepted draw costs.
pub const ENTRY_COST: i64 = 10;

/// The points by which a losing draw grows the jackpot.
pub const JACKPOT_INCREMENT: i64 = 10;

/// The number of rounds that a draw asks of the primality oracle.
pub const ORACLE_ROUNDS: u32 = 5;

/// The number of recent participants that the history keeps.
pub const HISTORY_CAPACITY: usize = 10;

/// The number of entries that the leaderboard keeps.
pub const LEADERBOARD_CAPACITY: usize = 100;

/// The won points that one trade redeems.
pub const TRADE_LOT: u64 = 1000;

/// The points that one purchase buys.
pub const PURCHASE_POINTS: i64 = 1000;

/// The native value that one purchase pays into the treasury.
pub const PURCHASE_PRICE: u64 = 1_000_000_000;

/// The native value that one purchase pays into the staking treasury.
pub const PURCHASE_STAKE: u64 = 100_000_000;

/// Why an operation was refused. A refused operation changes nothing.
#[derive(Clone, Copy, Debug, PartialEq, Eq, Structural)]
pub enum EngineError {
    /// The participant lacks the points, the won points or the native value
    /// that the operation takes, or the staking pool cannot cover a trade.
    InsufficientFunds,
    /// The treasury holds less than its reserve floor.
    InsufficientReserve,
    /// A subtraction would leave a balance or a counter below zero.
    Underflow,
    /// An addition would leave a balance beyond what its record can hold.
    Overflow,
    /// The host offers no clock to read the slot and the time from.
    ClockUnavailable,
}

/// The multiplier applied to a win, chosen by the slots since the last win.
#[derive(Clone, Copy, Debug, PartialEq, Eq, Structural)]
pub enum PowerUp {
    /// 0.10
    Tenth,
    /// 0.25
    Quarter,
    /// 0.50
    Half,
    /// 0.75
    ThreeQuarters,
}

impl PowerUp {
    /// The multiplier in hundredths.
    pub open spec fn percent_spec(self) -> int {
        match self {
            PowerUp::Tenth => 10,
            PowerUp::Quarter => 25,
            PowerUp::Half => 50,
            PowerUp::ThreeQuarters => 75,
        }
    }

    /// The multiplier applied to `amount`, rounded down.
    pub open spec fn share_of(self, amount: int) -> int {
        (amount * self.percent_spec()) / 100
    }

    /// The multiplier in hundredths.
    pub fn percent(self) -> (p: u64)
        ensures
            p == self.percent_spec(),
    {
        match self {
            PowerUp::Tenth => 10,
            PowerUp::Quarter => 25,
            PowerUp::Half => 50,
            PowerUp::ThreeQuarters => 75,
        }
    }

    /// The multiplier applied to `amount`, rounded down. The result never
    /// exceeds `amount`.
    pub fn apply(self, amount: u64) -> (share: u64)
        ensures
            share == self.share_of(amount as int),
            share <= amount,
    {
        let wide: u128 = (amount as u128) * (self.percent() as u128);
        let share: u128 = wide / 100;
        share as u64
    }
}

/// The multiplier for a win at `slot` by a user who last won at
/// `last_won_slot`, where 0 stands for a user who never won.
pub open spec fn power_up_for(slot: u64, last_won_slot: u64) -> PowerUp {
    let gap = slot - last_won_slot;
    if last_won_slot == 0 {
        PowerUp::Tenth
    } else if gap >= 600 {
        PowerUp::ThreeQuarters
    } else if gap >= 300 {
        PowerUp::Half
    } else if gap >= 100 {
        PowerUp::Quarter
    } else {
        PowerUp::Tenth
    }
}

/// Chooses the multiplier for a win at `slot`. A last win that lies after
/// `slot` is refused: the slot counter never runs backwards.
pub fn select_power_up(slot: u64, last_won_slot: u64) -> (chosen: Result<PowerUp, EngineError>)
    ensures
        last_won_slot > slot ==> chosen == Err::<PowerUp, EngineError>(EngineError::Underflow),
        last_won_slot <= slot ==> chosen == Ok::<PowerUp, EngineError>(
            power_up_for(slot, last_won_slot),
        ),
{
    if last_won_slot > slot {
        return Err(EngineError::Underflow);
    }
    let gap: u64 = slot - last_won_slot;
    if last_won_slot == 0 {
        Ok(PowerUp::Tenth)
    } else if gap >= 600 {
        Ok(PowerUp::ThreeQuarters)
    } else if gap >= 300 {
        Ok(PowerUp::Half)
    } else if gap >= 100 {
        Ok(PowerUp::Quarter)
    } else {
        Ok(PowerUp::Tenth)
    }
}

/// A participant's balances.
#[derive(Clone, Copy, Debug, PartialEq, Eq, Structural)]
pub struct User {
    /// Playable credits.
    pub points: i64,
    /// Redeemable credits, earned by winning.
    pub won_points: i64,
    /// The slot of the last win, 0 before the first.
    pub last_won_slot: u64,
    pub last_claimed_slot: u64,
    pub last_claimed_lamports: u64,
}

/// The shared pool that losing draws fill and winning draws pay from.
#[derive(Clone, Copy, Debug, PartialEq, Eq)]
pub struct Jackpot {
    pub amount: i64,
    /// The last winner; the unset identity before the first win.
    pub winner: Identity,
}

/// The reserve that pays native value to winners.
#[derive(Clone, Copy, Debug, PartialEq, Eq, Structural)]
pub struct Treasury {
    /// An advisory figure that no operation reads.
    pub amount: i64,
    /// The native balance of the account.
    pub lamports: u64,
}

/// The reserve that backs the exchange of won points for native value.
#[derive(Clone, Copy, Debug, PartialEq, Eq, Structural)]
pub struct StakingTreasury {
    /// The native balance of the account.
    pub lamports: u64,
}

/// The won points held by all users together.
#[derive(Clone, Copy, Debug, PartialEq, Eq, Structural)]
pub struct TotalWonPoints {
    pub points: u64,
}

/// The exchange rate of won points: `lamports` units of native value for
/// every `points` won points. A rate over zero points is the rate zero.
#[derive(Clone, Copy, Debug, PartialEq, Eq, Structural)]
pub struct Rate {
    pub lamports: u64,
    pub points: u64,
}

impl Rate {
    /// The native value that `points` won points are worth, rounded down.
    pub open spec fn lamports_for(&self, points: nat) -> nat {
        if self.points == 0 {
            0
        } else {
            (points * self.lamports) as nat / (self.points as nat)
        }
    }

    /// The native value that `points` won points are worth, rounded down.
    pub fn quote(&self, points: u64) -> (worth: u128)
        ensures
            worth == self.lamports_for(points as nat),
    {
        if self.points == 0 {
            0
        } else {
            proof {
                vstd::arithmetic::mul::lemma_mul_upper_bound(
                    points as int,
                    u64::MAX as int,
                    self.lamports as int,
                    u64::MAX as int,
                );
            }
            (points as u128) * (self.lamports as u128) / (self.points as u128)
        }
    }
}

/// The most recent participants, oldest first.
#[derive(Clone, Debug, PartialEq, Eq)]
pub struct PlayerList {
    pub players: Vec<Identity>,
}

impl View for PlayerList {
    type V = Seq<Identity>;

    open spec fn view(&self) -> Seq<Identity> {
        self.players@
    }
}

/// One line of the leaderboard.
#[derive(Clone, Copy, Debug, PartialEq, Eq)]
pub struct UserEntry {
    pub user: Identity,
    pub points: i64,
}

/// The users with the most won points, best first.
#[derive(Clone, Debug, PartialEq, Eq)]
pub struct Leaderboard {
    pub users: Vec<UserEntry>,
}

impl View for Leaderboard {
    type V = Seq<UserEntry>;

    open spec fn view(&self) -> Seq<UserEntry> {
        self.users@
    }
}

/// The participant who signs an operation, with the native balance of the
/// participant's own account.
#[derive(Clone, Copy, Debug, PartialEq, Eq)]
pub struct Payer {
    pub key: Identity,
    pub lamports: u64,
}

/// The record of a winning draw.
#[derive(Clone, Copy, Debug, PartialEq, Eq)]
pub struct PrimeFound {
    pub slot: u64,
    pub user_pubkey: Identity,
    pub power_up: PowerUp,
    pub number_to_test: u64,
    pub reward_points: i64,
}

/// What an accepted draw reports.
#[derive(Clone, Copy, Debug, PartialEq, Eq)]
pub enum DrawRecord {
    /// The candidate was taken for a prime: the user won.
    Won(PrimeFound),
    /// The candidate was not: the jackpot grew by the increment.
    Lost { slot: u64, user_pubkey: Identity, number_to_test: u64, jackpot_increment: i64 },
}

} // verus!
