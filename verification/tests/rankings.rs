use prime_slot_checker::accounts::{Leaderboard, PlayerList, UserEntry};
use prime_slot_checker::identity::Identity;
use prime_slot_checker::rankings::{update_leaderboard, update_player_list};

fn player(first: u8) -> Identity {
    let mut bytes = [0u8; 32];
    bytes[0] = first;
    bytes[1] = 1;
    Identity::new(bytes)
}

fn entry(first: u8, points: i64) -> UserEntry {
    UserEntry { user: player(first), points }
}

#[test]
fn update_player_list_appends_to_a_short_history() {
    let mut history = PlayerList { players: Vec::new() };
    update_player_list(&mut history, player(1));
    assert_eq!(history.players, vec![player(1)]);
    update_player_list(&mut history, player(2));
    update_player_list(&mut history, player(1));
    assert_eq!(history.players, vec![player(1), player(2), player(1)]);
}

#[test]
fn update_player_list_evicts_the_oldest_at_capacity() {
    let mut history = PlayerList { players: Vec::new() };
    for first in 0..10u8 {
        update_player_list(&mut history, player(first));
    }
    assert_eq!(history.players.len(), 10);
    assert_eq!(history.players[0], player(0));
    update_player_list(&mut history, player(10));
    assert_eq!(history.players.len(), 10);
    assert_eq!(history.players[0], player(1));
    assert_eq!(history.players[9], player(10));
    for first in 11..40u8 {
        update_player_list(&mut history, player(first));
        assert_eq!(history.players.len(), 10);
        assert_eq!(history.players[9], player(first));
        assert_eq!(history.players[0], player(first - 9));
    }
}

#[test]
fn update_player_list_takes_one_out_of_an_overlong_history() {
    let mut history = PlayerList { players: (0..12u8).map(player).collect() };
    update_player_list(&mut history, player(50));
    assert_eq!(history.players.len(), 12);
    assert_eq!(history.players[0], player(1));
    assert_eq!(history.players[11], player(50));
}

#[test]
fn update_leaderboard_orders_by_points() {
    let mut board = Leaderboard { users: Vec::new() };
    update_leaderboard(&mut board, player(1), 10);
    update_leaderboard(&mut board, player(2), 30);
    update_leaderboard(&mut board, player(3), 20);
    assert_eq!(board.users, vec![entry(2, 30), entry(3, 20), entry(1, 10)]);
}

#[test]
fn update_leaderboard_replaces_the_entry_of_the_user() {
    let mut board = Leaderboard { users: vec![entry(2, 30), entry(3, 20), entry(1, 10)] };
    update_leaderboard(&mut board, player(1), 25);
    assert_eq!(board.users, vec![entry(2, 30), entry(1, 25), entry(3, 20)]);
    update_leaderboard(&mut board, player(2), 0);
    assert_eq!(board.users, vec![entry(1, 25), entry(3, 20), entry(2, 0)]);
    update_leaderboard(&mut board, player(3), 20);
    assert_eq!(board.users, vec![entry(1, 25), entry(3, 20), entry(2, 0)]);
}

#[test]
fn update_leaderboard_puts_a_newcomer_below_its_equals() {
    let mut board = Leaderboard { users: vec![entry(1, 20), entry(2, 20), entry(3, 10)] };
    update_leaderboard(&mut board, player(4), 20);
    assert_eq!(board.users, vec![entry(1, 20), entry(2, 20), entry(4, 20), entry(3, 10)]);
    update_leaderboard(&mut board, player(1), 20);
    assert_eq!(board.users, vec![entry(2, 20), entry(4, 20), entry(1, 20), entry(3, 10)]);
}

#[test]
fn update_leaderboard_orders_a_board_that_was_not() {
    let mut board = Leaderboard { users: vec![entry(1, 1), entry(2, 5), entry(3, 3), entry(5, 5)] };
    update_leaderboard(&mut board, player(4), 4);
    assert_eq!(
        board.users,
        vec![entry(2, 5), entry(5, 5), entry(4, 4), entry(3, 3), entry(1, 1)]
    );
}

#[test]
fn update_leaderboard_drops_every_old_entry_of_the_user() {
    let mut board = Leaderboard { users: vec![entry(1, 9), entry(2, 5), entry(1, 3)] };
    update_leaderboard(&mut board, player(1), 4);
    assert_eq!(board.users, vec![entry(2, 5), entry(1, 4)]);
}

#[test]
fn update_leaderboard_keeps_the_best_hundred() {
    let mut board = Leaderboard { users: Vec::new() };
    for first in 0..100u8 {
        update_leaderboard(&mut board, player(first), 1000 - first as i64);
    }
    assert_eq!(board.users.len(), 100);
    assert_eq!(board.users[0], entry(0, 1000));
    assert_eq!(board.users[99], entry(99, 901));
    // too few points to enter
    update_leaderboard(&mut board, player(200), 5);
    assert_eq!(board.users.len(), 100);
    assert_eq!(board.users[99], entry(99, 901));
    // as many as the last: still below it, and out
    update_leaderboard(&mut board, player(200), 901);
    assert_eq!(board.users.len(), 100);
    assert_eq!(board.users[99], entry(99, 901));
    // the best of all: the last one leaves
    update_leaderboard(&mut board, player(200), 2000);
    assert_eq!(board.users.len(), 100);
    assert_eq!(board.users[0], entry(200, 2000));
    assert_eq!(board.users[1], entry(0, 1000));
    assert_eq!(board.users[99], entry(98, 902));
}

#[test]
fn update_leaderboard_ranks_negative_points_last() {
    let mut board = Leaderboard { users: vec![entry(1, 0)] };
    update_leaderboard(&mut board, player(2), -5);
    update_leaderboard(&mut board, player(3), i64::MIN);
    update_leaderboard(&mut board, player(4), i64::MAX);
    assert_eq!(board.users, vec![entry(4, i64::MAX), entry(1, 0), entry(2, -5), entry(3, i64::MIN)]);
}
