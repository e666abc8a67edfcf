use prime_slot_checker::accounts::PlayerList;
use prime_slot_checker::composer::{number_to_test, pubkey_to_number, recent_players_sum};
use prime_slot_checker::identity::Identity;

fn identity_of(first: u8) -> Identity {
    let mut bytes = [0u8; 32];
    bytes[0] = first;
    Identity::new(bytes)
}

fn history_of(firsts: &[u8]) -> PlayerList {
    let mut players = Vec::new();
    for first in firsts {
        players.push(identity_of(*first));
    }
    PlayerList { players }
}

#[test]
fn pubkey_to_number_adds_the_bytes() {
    assert_eq!(pubkey_to_number(&Identity::new([0u8; 32])), 1);
    assert_eq!(pubkey_to_number(&Identity::new([255u8; 32])), 8161);
    assert_eq!(pubkey_to_number(&Identity::new([1u8; 32])), 33);
    assert_eq!(pubkey_to_number(&identity_of(7)), 8);
    let mut bytes = [0u8; 32];
    bytes[31] = 200;
    bytes[5] = 100;
    assert_eq!(pubkey_to_number(&Identity::new(bytes)), 301);
}

#[test]
fn default_identity_is_all_zero() {
    assert_eq!(Identity::default().to_bytes(), [0u8; 32]);
    assert_eq!(Identity::default(), Identity::new([0u8; 32]));
    assert_ne!(Identity::default(), identity_of(1));
}

#[test]
fn identities_compare_by_their_bytes() {
    let mut bytes = [9u8; 32];
    assert_eq!(Identity::new(bytes), Identity::new([9u8; 32]));
    bytes[31] = 8;
    assert_ne!(Identity::new(bytes), Identity::new([9u8; 32]));
}

#[test]
fn recent_players_sum_reads_the_last_ten() {
    assert_eq!(recent_players_sum(&history_of(&[])), 0);
    assert_eq!(recent_players_sum(&history_of(&[4])), 5);
    assert_eq!(recent_players_sum(&history_of(&[1, 2, 3])), 9);
    // twelve entries: the first two do not count
    let twelve = history_of(&[100, 100, 1, 2, 3, 4, 5, 6, 7, 8, 9, 10]);
    assert_eq!(recent_players_sum(&twelve), 65);
    let full = PlayerList { players: vec![Identity::new([255u8; 32]); 10] };
    assert_eq!(recent_players_sum(&full), 81610);
}

#[test]
fn number_to_test_adds_slot_identity_history_and_time() {
    let nobody = history_of(&[]);
    assert_eq!(number_to_test(15, &identity_of(1), &nobody, 0), 17);
    assert_eq!(number_to_test(0, &Identity::new([0u8; 32]), &nobody, 0), 1);
    assert_eq!(number_to_test(1000, &identity_of(1), &history_of(&[1, 2]), 1_700_012_345), 13352);
    assert_eq!(number_to_test(1000, &identity_of(1), &nobody, 99_999), 101_001);
    assert_eq!(number_to_test(1000, &identity_of(1), &nobody, 100_000), 1002);
}

#[test]
fn number_to_test_takes_a_negative_time_off() {
    let nobody = history_of(&[]);
    assert_eq!(number_to_test(100, &identity_of(1), &nobody, -5), 97);
    assert_eq!(number_to_test(100, &identity_of(1), &nobody, -100_005), 97);
    assert_eq!(number_to_test(100, &identity_of(1), &nobody, -100_000), 102);
    assert_eq!(number_to_test(0, &identity_of(1), &nobody, -5), u64::MAX - 2);
    assert_eq!(number_to_test(7, &identity_of(1), &nobody, i64::MIN), u64::MAX - 75798);
}

#[test]
fn number_to_test_wraps_at_the_end_of_the_range() {
    let nobody = history_of(&[]);
    assert_eq!(number_to_test(u64::MAX, &identity_of(1), &nobody, 0), 1);
    assert_eq!(number_to_test(u64::MAX - 1, &identity_of(1), &nobody, 0), 0);
    assert_eq!(number_to_test(u64::MAX, &identity_of(1), &nobody, -2), u64::MAX);
}

#[test]
fn number_to_test_gives_the_same_candidate_for_the_same_inputs() {
    let history = history_of(&[3, 1, 4, 1, 5, 9, 2, 6]);
    let copy = history_of(&[3, 1, 4, 1, 5, 9, 2, 6]);
    let first = number_to_test(123_456, &identity_of(42), &history, 1_700_000_000);
    let second = number_to_test(123_456, &identity_of(42), &history, 1_700_000_000);
    let third = number_to_test(123_456, &identity_of(42), &copy, 1_700_000_000);
    assert_eq!(first, second);
    assert_eq!(first, third);
    assert_eq!(history, copy);
    assert_eq!(first, 123_456 + 43 + 39);
}

#[test]
fn number_to_test_forgets_what_left_the_last_ten() {
    let long = history_of(&[77, 88, 1, 2, 3, 4, 5, 6, 7, 8, 9, 10]);
    let short = history_of(&[1, 2, 3, 4, 5, 6, 7, 8, 9, 10]);
    assert_eq!(
        number_to_test(5, &identity_of(1), &long, 9),
        number_to_test(5, &identity_of(1), &short, 9)
    );
}
