use prime_slot_checker::accounts::{
    select_power_up, EngineError, Payer, PowerUp, Rate, StakingTreasury, TotalWonPoints, Treasury,
};
use prime_slot_checker::identity::Identity;
use prime_slot_checker::treasury::{calculate_point_rate_internal, transfer_from_treasury};

fn winner(lamports: u64) -> Payer {
    Payer { key: Identity::new([7u8; 32]), lamports }
}

#[test]
fn power_up_grows_with_the_slots_since_the_last_win() {
    assert_eq!(select_power_up(5000, 0), Ok(PowerUp::Tenth));
    assert_eq!(select_power_up(0, 0), Ok(PowerUp::Tenth));
    assert_eq!(select_power_up(1000, 1000), Ok(PowerUp::Tenth));
    assert_eq!(select_power_up(1099, 1000), Ok(PowerUp::Tenth));
    assert_eq!(select_power_up(1100, 1000), Ok(PowerUp::Quarter));
    assert_eq!(select_power_up(1299, 1000), Ok(PowerUp::Quarter));
    assert_eq!(select_power_up(1300, 1000), Ok(PowerUp::Half));
    assert_eq!(select_power_up(1599, 1000), Ok(PowerUp::Half));
    assert_eq!(select_power_up(1600, 1000), Ok(PowerUp::ThreeQuarters));
    assert_eq!(select_power_up(u64::MAX, 1), Ok(PowerUp::ThreeQuarters));
}

#[test]
fn power_up_refuses_a_last_win_in_the_future() {
    assert_eq!(select_power_up(999, 1000), Err(EngineError::Underflow));
    assert_eq!(select_power_up(0, 1), Err(EngineError::Underflow));
}

#[test]
fn power_up_share_rounds_down() {
    assert_eq!(PowerUp::Tenth.apply(100), 10);
    assert_eq!(PowerUp::Tenth.apply(99), 9);
    assert_eq!(PowerUp::Tenth.apply(9), 0);
    assert_eq!(PowerUp::Quarter.apply(101), 25);
    assert_eq!(PowerUp::Half.apply(7), 3);
    assert_eq!(PowerUp::ThreeQuarters.apply(7), 5);
    assert_eq!(PowerUp::ThreeQuarters.apply(u64::MAX), 13835058055282163711);
    assert_eq!(PowerUp::Tenth.percent(), 10);
    assert_eq!(PowerUp::Quarter.percent(), 25);
    assert_eq!(PowerUp::Half.percent(), 50);
    assert_eq!(PowerUp::ThreeQuarters.percent(), 75);
}

#[test]
fn transfer_pays_the_share_of_what_lies_above_the_floor() {
    let mut treasury = Treasury { amount: 3, lamports: 1_000_000 };
    let mut payer = winner(50);
    let moved = transfer_from_treasury(&mut treasury, &mut payer, 17, PowerUp::Tenth, 500_000);
    assert_eq!(moved, Ok(50_000));
    assert_eq!(treasury, Treasury { amount: 3, lamports: 950_000 });
    assert_eq!(payer, winner(50_050));
    let moved = transfer_from_treasury(&mut treasury, &mut payer, 102, PowerUp::ThreeQuarters, 500_000);
    assert_eq!(moved, Ok(337_500));
    assert_eq!(treasury.lamports, 612_500);
    assert_eq!(payer.lamports, 387_550);
}

#[test]
fn transfer_drains_the_treasury_for_a_candidate_ending_in_01() {
    for number in [1u64, 101, 4201, 18446744073709551601] {
        let mut treasury = Treasury { amount: 0, lamports: 1_000_000 };
        let mut payer = winner(0);
        let moved = transfer_from_treasury(&mut treasury, &mut payer, number, PowerUp::Tenth, 400_000);
        assert_eq!(moved, Ok(600_000));
        assert_eq!(treasury.lamports, 400_000);
        assert_eq!(payer.lamports, 600_000);
    }
}

#[test]
fn transfer_never_goes_below_the_floor() {
    for floor in [0u64, 1, 999, 1000] {
        for number in [0u64, 1, 50, 101] {
            for power_up in [PowerUp::Tenth, PowerUp::Quarter, PowerUp::Half, PowerUp::ThreeQuarters] {
                let mut treasury = Treasury { amount: 0, lamports: 1000 };
                let mut payer = winner(5);
                let moved = transfer_from_treasury(&mut treasury, &mut payer, number, power_up, floor);
                let amount = moved.unwrap();
                assert!(treasury.lamports >= floor);
                assert_eq!(treasury.lamports + amount, 1000);
                assert_eq!(payer.lamports, 5 + amount);
            }
        }
    }
}

#[test]
fn transfer_from_a_treasury_below_its_floor_is_refused() {
    let mut treasury = Treasury { amount: 0, lamports: 999 };
    let mut payer = winner(5);
    let moved = transfer_from_treasury(&mut treasury, &mut payer, 101, PowerUp::Half, 1000);
    assert_eq!(moved, Err(EngineError::InsufficientReserve));
    assert_eq!(treasury, Treasury { amount: 0, lamports: 999 });
    assert_eq!(payer, winner(5));
}

#[test]
fn transfer_at_the_floor_moves_nothing() {
    let mut treasury = Treasury { amount: 0, lamports: 1000 };
    let mut payer = winner(5);
    assert_eq!(transfer_from_treasury(&mut treasury, &mut payer, 101, PowerUp::Half, 1000), Ok(0));
    assert_eq!(treasury.lamports, 1000);
    assert_eq!(payer.lamports, 5);
}

#[test]
fn transfer_that_the_winner_cannot_hold_is_refused() {
    let mut treasury = Treasury { amount: 0, lamports: 1000 };
    let mut payer = winner(u64::MAX - 10);
    let moved = transfer_from_treasury(&mut treasury, &mut payer, 101, PowerUp::Half, 0);
    assert_eq!(moved, Err(EngineError::Overflow));
    assert_eq!(treasury.lamports, 1000);
    assert_eq!(payer.lamports, u64::MAX - 10);
    // ten still fit
    let moved = transfer_from_treasury(&mut treasury, &mut payer, 101, PowerUp::Half, 990);
    assert_eq!(moved, Ok(10));
    assert_eq!(payer.lamports, u64::MAX);
}

#[test]
fn rate_is_the_pool_per_won_point() {
    let mut rate = Rate { lamports: 9, points: 9 };
    calculate_point_rate_internal(
        &StakingTreasury { lamports: 2_000_000 },
        &TotalWonPoints { points: 1000 },
        &mut rate,
    );
    assert_eq!(rate, Rate { lamports: 2_000_000, points: 1000 });
    assert_eq!(rate.quote(1000), 2_000_000);
    assert_eq!(rate.quote(1), 2000);
    assert_eq!(rate.quote(0), 0);
}

#[test]
fn rate_is_zero_without_won_points() {
    let mut rate = Rate { lamports: 9, points: 9 };
    calculate_point_rate_internal(
        &StakingTreasury { lamports: 2_000_000 },
        &TotalWonPoints { points: 0 },
        &mut rate,
    );
    assert_eq!(rate, Rate { lamports: 0, points: 1 });
    assert_eq!(rate.quote(1000), 0);
}

#[test]
fn rate_quote_rounds_down_and_takes_zero_points_for_rate_zero() {
    assert_eq!(Rate { lamports: 2, points: 1000 }.quote(1000), 2);
    assert_eq!(Rate { lamports: 2, points: 1000 }.quote(999), 1);
    assert_eq!(Rate { lamports: 1, points: 3 }.quote(1000), 333);
    assert_eq!(Rate { lamports: 5, points: 0 }.quote(1000), 0);
    assert_eq!(Rate { lamports: u64::MAX, points: 1 }.quote(1000), 1000 * (u64::MAX as u128));
}
