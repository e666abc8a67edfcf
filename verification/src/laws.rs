//! What holds of the engine as a whole: the total of won points follows the
//! users, payouts respect the reserve, and value is moved, never made.

use vstd::prelude::*;
use crate::accounts::{EngineError, TotalWonPoints, User, ENTRY_THRESHOLD};
use crate::engine::{
    after_draw, after_purchase, after_trade, draw_fault, draw_fault_past_entry, draw_wins,
    initialized_user, purchase_fault, trade_fault, CheckSlotView, PayForPoints, TradeWonPoints,
};

verus! {

/// The won points of a set of users, added up.
pub open spec fn won_points_sum(users: Seq<User>) -> int
    decreases users.len(),
{
    if users.len() == 0 {
        0
    } else {
        won_points_sum(users.drop_last()) + users.last().won_points
    }
}

/// The books of the engine: every user's record, and the total of won
/// points that is kept beside them.
pub ghost struct Books {
    pub users: Seq<User>,
    pub total_won_points: TotalWonPoints,
}

impl Books {
    /// The total equals the won points of all users together.
    pub open spec fn balanced(self) -> bool {
        self.total_won_points.points == won_points_sum(self.users)
    }

    /// The books in which the user at `index` and the total are replaced.
    pub open spec fn with(self, index: int, user: User, total_won_points: TotalWonPoints) -> Books {
        Books { users: self.users.update(index, user), total_won_points }
    }
}

/// Replacing one user's record changes the sum by the difference of that
/// user's won points.
pub proof fn lemma_won_points_sum_update(users: Seq<User>, index: int, user: User)
    requires
        0 <= index < users.len(),
    ensures
        won_points_sum(users.update(index, user)) == won_points_sum(users)
            - users[index].won_points + user.won_points,
    decreases users.len(),
{
    let updated = users.update(index, user);
    if index == users.len() - 1 {
        assert(updated.drop_last() == users.drop_last());
    } else {
        assert(updated.drop_last() == users.drop_last().update(index, user));
        lemma_won_points_sum_update(users.drop_last(), index, user);
    }
}

/// `after` are the books that an accepted draw by the user at `index` makes
/// of `before`.
pub open spec fn is_draw(
    before: Books,
    after: Books,
    index: int,
    records: CheckSlotView,
    slot: u64,
    unix_time: i64,
    reserve_floor: u64,
) -> bool {
    &&& 0 <= index < before.users.len()
    &&& records.user == before.users[index]
    &&& records.total_won_points == before.total_won_points
    &&& draw_fault(records, slot, unix_time, reserve_floor) is None
    &&& after == before.with(
        index,
        after_draw(records, slot, unix_time, reserve_floor).user,
        after_draw(records, slot, unix_time, reserve_floor).total_won_points,
    )
}

/// `after` are the books that an accepted trade by the user at `index`
/// makes of `before`.
pub open spec fn is_trade(before: Books, after: Books, index: int, records: TradeWonPoints) -> bool {
    &&& 0 <= index < before.users.len()
    &&& records.user == before.users[index]
    &&& records.total_won_points == before.total_won_points
    &&& trade_fault(records) is None
    &&& after == before.with(
        index,
        after_trade(records).user,
        after_trade(records).total_won_points,
    )
}

/// `after` are the books that an accepted purchase by the user at `index`
/// makes of `before`.
pub open spec fn is_purchase(before: Books, after: Books, index: int, records: PayForPoints) -> bool {
    &&& 0 <= index < before.users.len()
    &&& records.user == before.users[index]
    &&& purchase_fault(records) is None
    &&& after == before.with(index, after_purchase(records).user, before.total_won_points)
}

/// `after` are the books that initializing the user at `index` makes of
/// `before`.
pub open spec fn is_user_initialization(before: Books, after: Books, index: int) -> bool {
    &&& 0 <= index < before.users.len()
    &&& after == before.with(
        index,
        initialized_user(before.users[index]),
        before.total_won_points,
    )
}

/// `after` are the books in which a user has joined with a fresh record.
pub open spec fn is_arrival(before: Books, after: Books) -> bool {
    after == Books {
        users: before.users.push(
            User {
                points: 0,
                won_points: 0,
                last_won_slot: 0,
                last_claimed_slot: 0,
                last_claimed_lamports: 0,
            },
        ),
        total_won_points: before.total_won_points,
    }
}

/// One operation of the engine leads from `before` to `after`.
pub open spec fn is_step(before: Books, after: Books) -> bool {
    ||| exists|index: int, records: CheckSlotView, slot: u64, unix_time: i64, reserve_floor: u64|
        #[trigger] is_draw(before, after, index, records, slot, unix_time, reserve_floor)
    ||| exists|index: int, records: TradeWonPoints| #[trigger]
        is_trade(before, after, index, records)
    ||| exists|index: int, records: PayForPoints| #[trigger]
        is_purchase(before, after, index, records)
    ||| exists|index: int| #[trigger] is_user_initialization(before, after, index)
    ||| is_arrival(before, after)
}

/// Each entry of `history` follows from the one before it by one operation.
pub open spec fn is_history(history: Seq<Books>) -> bool {
    forall|k: int| 0 <= k < history.len() - 1 ==> #[trigger] is_step(history[k], history[k + 1])
}

/// An accepted draw keeps the books balanced: what the user gains in won
/// points, the total gains.
pub proof fn lemma_draw_keeps_balance(
    before: Books,
    after: Books,
    index: int,
    records: CheckSlotView,
    slot: u64,
    unix_time: i64,
    reserve_floor: u64,
)
    requires
        before.balanced(),
        is_draw(before, after, index, records, slot, unix_time, reserve_floor),
    ensures
        after.balanced(),
{
    lemma_won_points_sum_update(
        before.users,
        index,
        after_draw(records, slot, unix_time, reserve_floor).user,
    );
}

/// An accepted trade keeps the books balanced: the user's won points and the
/// total fall by the same lot.
pub proof fn lemma_trade_keeps_balance(
    before: Books,
    after: Books,
    index: int,
    records: TradeWonPoints,
)
    requires
        before.balanced(),
        is_trade(before, after, index, records),
    ensures
        after.balanced(),
{
    lemma_won_points_sum_update(before.users, index, after_trade(records).user);
}

/// Every operation keeps the books balanced.
pub proof fn lemma_step_keeps_balance(before: Books, after: Books)
    requires
        before.balanced(),
        is_step(before, after),
    ensures
        after.balanced(),
{
    if exists|index: int, records: CheckSlotView, slot: u64, unix_time: i64, reserve_floor: u64|
        #[trigger] is_draw(before, after, index, records, slot, unix_time, reserve_floor) {
        let (index, records, slot, unix_time, reserve_floor) = choose|
            index: int,
            records: CheckSlotView,
            slot: u64,
            unix_time: i64,
            reserve_floor: u64,
        | #[trigger] is_draw(before, after, index, records, slot, unix_time, reserve_floor);
        lemma_draw_keeps_balance(before, after, index, records, slot, unix_time, reserve_floor);
    } else if exists|index: int, records: TradeWonPoints| #[trigger]
        is_trade(before, after, index, records) {
        let (index, records) = choose|index: int, records: TradeWonPoints| #[trigger]
            is_trade(before, after, index, records);
        lemma_trade_keeps_balance(before, after, index, records);
    } else if exists|index: int, records: PayForPoints| #[trigger]
        is_purchase(before, after, index, records) {
        let (index, records) = choose|index: int, records: PayForPoints| #[trigger]
            is_purchase(before, after, index, records);
        lemma_won_points_sum_update(before.users, index, after_purchase(records).user);
    } else if exists|index: int| #[trigger] is_user_initialization(before, after, index) {
        let index = choose|index: int| #[trigger] is_user_initialization(before, after, index);
        lemma_won_points_sum_update(before.users, index, initialized_user(before.users[index]));
    } else {
        assert(after.users.drop_last() == before.users);
    }
}

/// After any sequence of operations that starts from balanced books, the
/// total of won points equals the won points of all users together.
pub proof fn lemma_history_stays_balanced(history: Seq<Books>, k: int)
    requires
        is_history(history),
        0 <= k < history.len(),
        history[0].balanced(),
    ensures
        history[k].balanced(),
    decreases k,
{
    if k > 0 {
        lemma_history_stays_balanced(history, k - 1);
        assert(is_step(history[k - 1], history[k - 1 + 1]));
        lemma_step_keeps_balance(history[k - 1], history[k]);
    }
}

/// The books before the first user: nothing won, nothing to add up.
pub proof fn lemma_empty_books_balanced()
    ensures
        (Books { users: Seq::empty(), total_won_points: TotalWonPoints { points: 0 } }).balanced(),
{
}

/// An accepted winning draw leaves the treasury at or above its reserve
/// floor and the jackpot at or above zero, and moves to the payer exactly
/// what the treasury loses.
pub proof fn lemma_win_respects_floors(
    records: CheckSlotView,
    slot: u64,
    unix_time: i64,
    reserve_floor: u64,
)
    requires
        draw_fault(records, slot, unix_time, reserve_floor) is None,
        draw_wins(records, slot, unix_time),
    ensures
        after_draw(records, slot, unix_time, reserve_floor).treasury.lamports >= reserve_floor,
        after_draw(records, slot, unix_time, reserve_floor).treasury.lamports
            <= records.treasury.lamports,
        after_draw(records, slot, unix_time, reserve_floor).jackpot.amount >= 0,
        after_draw(records, slot, unix_time, reserve_floor).jackpot.amount
            <= records.jackpot.amount,
        after_draw(records, slot, unix_time, reserve_floor).treasury.lamports + after_draw(
            records,
            slot,
            unix_time,
            reserve_floor,
        ).payer.lamports == records.treasury.lamports + records.payer.lamports,
{
}

/// An accepted draw never leaves a jackpot negative that was not negative
/// before, and never touches the balance of the treasury unless it wins.
pub proof fn lemma_draw_keeps_jackpot_up(
    records: CheckSlotView,
    slot: u64,
    unix_time: i64,
    reserve_floor: u64,
)
    requires
        draw_fault(records, slot, unix_time, reserve_floor) is None,
        records.jackpot.amount >= 0,
    ensures
        after_draw(records, slot, unix_time, reserve_floor).jackpot.amount >= 0,
        !draw_wins(records, slot, unix_time) ==> after_draw(
            records,
            slot,
            unix_time,
            reserve_floor,
        ).treasury == records.treasury,
{
}

/// The entry guard: a user with exactly the threshold is refused, whatever
/// else holds; a user with one point more is refused only for what would
/// refuse any user.
pub proof fn lemma_entry_boundary(
    records: CheckSlotView,
    slot: u64,
    unix_time: i64,
    reserve_floor: u64,
)
    ensures
        records.user.points == ENTRY_THRESHOLD ==> draw_fault(
            records,
            slot,
            unix_time,
            reserve_floor,
        ) == Some(EngineError::InsufficientFunds),
        records.user.points == ENTRY_THRESHOLD + 1 ==> draw_fault(
            records,
            slot,
            unix_time,
            reserve_floor,
        ) == draw_fault_past_entry(records, slot, unix_time, reserve_floor),
        records.user.points == ENTRY_THRESHOLD + 1 && draw_fault_past_entry(
            records,
            slot,
            unix_time,
            reserve_floor,
        ) is None ==> draw_fault(records, slot, unix_time, reserve_floor) is None,
{
}

/// A trade moves value from the staking pool to the payer and makes none.
pub proof fn lemma_trade_conserves_value(records: TradeWonPoints)
    requires
        trade_fault(records) is None,
    ensures
        after_trade(records).staking_treasury.lamports + after_trade(records).payer.lamports
            == records.staking_treasury.lamports + records.payer.lamports,
        after_trade(records).user.won_points >= 0,
{
}

/// A purchase moves value from the payer to the two reserves and makes
/// none.
pub proof fn lemma_purchase_conserves_value(records: PayForPoints)
    requires
        purchase_fault(records) is None,
    ensures
        after_purchase(records).treasury.lamports + after_purchase(
            records,
        ).staking_treasury.lamports + after_purchase(records).payer.lamports
            == records.treasury.lamports + records.staking_treasury.lamports
            + records.payer.lamports,
{
}

} // verus!
