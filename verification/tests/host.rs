use prime_slot_checker::accounts::{
    EngineError, Jackpot, Leaderboard, Payer, PlayerList, Rate, StakingTreasury, TotalWonPoints,
    Treasury, User,
};
use prime_slot_checker::engine::{check_slot_now, claim_lamports_now, CheckSlot, ClaimLamports};
use prime_slot_checker::identity::Identity;
use prime_slot_checker::math_utils::{is_prime_now, miller_rabin_test_now};

// Off the chain the host offers no clock.

fn user_with(points: i64) -> User {
    User { points, won_points: 0, last_won_slot: 0, last_claimed_slot: 3, last_claimed_lamports: 0 }
}

fn draw_with(points: i64) -> CheckSlot {
    CheckSlot {
        user: user_with(points),
        jackpot: Jackpot { amount: 100, winner: Identity::default() },
        total_won_points: TotalWonPoints { points: 0 },
        treasury: Treasury { amount: 0, lamports: 1_000_000 },
        player_list: PlayerList { players: Vec::new() },
        leaderboard: Leaderboard { users: Vec::new() },
        staking_treasury: StakingTreasury { lamports: 40_000 },
        rate: Rate { lamports: 0, points: 1 },
        payer: Payer { key: Identity::new([1u8; 32]), lamports: 7 },
    }
}

#[test]
fn is_prime_now_decides_by_the_sieve_without_a_clock() {
    assert_eq!(is_prime_now(0, 5), Some(false));
    assert_eq!(is_prime_now(1, 5), Some(false));
    assert_eq!(is_prime_now(2, 5), Some(true));
    assert_eq!(is_prime_now(3, 5), Some(true));
    assert_eq!(is_prime_now(4, 5), Some(false));
    assert_eq!(is_prime_now(561, 5), Some(false));
    assert_eq!(is_prime_now(u64::MAX, 5), Some(false));
    assert_eq!(is_prime_now(25, 0), Some(true));
}

#[test]
fn is_prime_now_needs_a_clock_for_a_round() {
    assert_eq!(is_prime_now(17, 5), None);
    assert_eq!(is_prime_now(25, 1), None);
    assert_eq!(miller_rabin_test_now(1, 17), None);
    assert_eq!(miller_rabin_test_now(35, 561), None);
}

#[test]
fn check_slot_now_refuses_without_a_clock() {
    let mut ctx = draw_with(1000);
    let before = ctx.clone();
    assert_eq!(check_slot_now(&mut ctx, 500_000), Err(EngineError::ClockUnavailable));
    assert_eq!(ctx, before);
}

#[test]
fn check_slot_now_guards_the_entry_before_it_reads_the_clock() {
    for points in [10i64, 0, -5] {
        let mut ctx = draw_with(points);
        let before = ctx.clone();
        assert_eq!(check_slot_now(&mut ctx, 500_000), Err(EngineError::InsufficientFunds));
        assert_eq!(ctx, before);
    }
    let mut ctx = draw_with(11);
    assert_eq!(check_slot_now(&mut ctx, 500_000), Err(EngineError::ClockUnavailable));
}

#[test]
fn claim_lamports_now_refuses_without_a_clock() {
    let mut ctx = ClaimLamports {
        user: user_with(50),
        total_won_points: TotalWonPoints { points: 60 },
        staking_treasury: StakingTreasury { lamports: 1000 },
        payer: Payer { key: Identity::new([1u8; 32]), lamports: 100 },
    };
    let before = ctx;
    assert_eq!(claim_lamports_now(&mut ctx), Err(EngineError::ClockUnavailable));
    assert_eq!(ctx, before);
}
