//! The candidate composer: mixes the slot counter, the participant's
//! identity, the recent participants and the wall-clock time into the number
//! that a draw tests for primality. The mix is a pure function of its
//! inputs and is not meant to be unpredictable.

use vstd::prelude::*;
use vstd::arithmetic::div_mod::lemma_mod_add_multiples_vanish;
use crate::accounts::PlayerList;
use crate::identity::Identity;

verus! {

/// The sum of the bytes of an address.
pub open spec fn byte_sum(bytes: Seq<u8>) -> nat
    decreases bytes.len(),
{
    if bytes.len() == 0 {
        0
    } else {
        byte_sum(bytes.drop_last()) + bytes.last() as nat
    }
}

/// The number that stands for an identity: the sum of its bytes, reduced
/// into `1..=100000`.
pub open spec fn identity_number(id: Identity) -> nat {
    byte_sum(id@) % 100_000 + 1
}

/// The sum of the numbers of a sequence of identities.
pub open spec fn identity_numbers_sum(ids: Seq<Identity>) -> nat
    decreases ids.len(),
{
    if ids.len() == 0 {
        0
    } else {
        identity_numbers_sum(ids.drop_last()) + identity_number(ids.last())
    }
}

/// The last ten entries of the history, or all of it where it is shorter.
pub open spec fn recent_players(players: Seq<Identity>) -> Seq<Identity> {
    if players.len() <= 10 {
        players
    } else {
        players.subrange(players.len() - 10, players.len() as int)
    }
}

/// The number that stands for the wall-clock time: its remainder by
/// 100000, with the sign of the time.
pub open spec fn time_number(unix_time: i64) -> int {
    if unix_time >= 0 {
        unix_time as int % 100_000
    } else {
        -((-unix_time) % 100_000)
    }
}

/// The candidate of a draw: slot, participant, recent participants and
/// time added up in unsigned 64-bit arithmetic.
pub open spec fn candidate(
    slot: u64,
    participant: Identity,
    players: Seq<Identity>,
    unix_time: i64,
) -> int {
    (slot + identity_number(participant) + identity_numbers_sum(recent_players(players))
        + time_number(unix_time)) % 0x1_0000_0000_0000_0000
}

/// A byte sum is at most 255 per byte.
pub proof fn lemma_byte_sum_bound(bytes: Seq<u8>)
    ensures
        byte_sum(bytes) <= 255 * bytes.len(),
    decreases bytes.len(),
{
    if bytes.len() > 0 {
        lemma_byte_sum_bound(bytes.drop_last());
    }
}

/// The number of an identity lies in `1..=8161`: 32 bytes never reach the
/// modulus.
pub proof fn lemma_identity_number_bound(id: Identity)
    ensures
        identity_number(id) == byte_sum(id@) + 1,
        1 <= identity_number(id) <= 8161,
{
    lemma_byte_sum_bound(id@);
    assert(id@.len() == 32);
}

/// The numbers of `k` identities add up to at most `8161 * k`.
pub proof fn lemma_identity_numbers_sum_bound(ids: Seq<Identity>)
    ensures
        identity_numbers_sum(ids) <= 8161 * ids.len(),
    decreases ids.len(),
{
    if ids.len() > 0 {
        lemma_identity_numbers_sum_bound(ids.drop_last());
        lemma_identity_number_bound(ids.last());
    }
}

/// The candidate depends on the history only through its last ten
/// entries: two histories that end alike give the same candidate.
pub proof fn lemma_candidate_reads_recent_players(
    slot: u64,
    participant: Identity,
    players: Seq<Identity>,
    other_players: Seq<Identity>,
    unix_time: i64,
)
    requires
        recent_players(players) == recent_players(other_players),
    ensures
        candidate(slot, participant, players, unix_time) == candidate(
            slot,
            participant,
            other_players,
            unix_time,
        ),
{
}

/// Equal inputs give equal candidates: the same slot, the same time, and
/// identities with the same bytes, as the participant and all through the
/// history.
pub proof fn lemma_candidate_repeats(
    slot: u64,
    participant: Identity,
    same_participant: Identity,
    players: Seq<Identity>,
    same_players: Seq<Identity>,
    unix_time: i64,
)
    requires
        participant@ == same_participant@,
        players.len() == same_players.len(),
        forall|i: int| 0 <= i < players.len() ==> players[i]@ == same_players[i]@,
    ensures
        candidate(slot, participant, players, unix_time) == candidate(
            slot,
            same_participant,
            same_players,
            unix_time,
        ),
{
    Identity::lemma_same_bytes(participant, same_participant);
    assert forall|i: int| 0 <= i < players.len() implies players[i] == same_players[i] by {
        Identity::lemma_same_bytes(players[i], same_players[i]);
    }
    assert(players =~= same_players);
}

/// Reduces an identity to a number in `1..=100000`: the sum of its bytes
/// modulo 100000, plus one.
pub fn pubkey_to_number(pubkey: &Identity) -> (number: u32)
    ensures
        number == identity_number(*pubkey),
        1 <= number <= 8161,
{
    let mut number: u32 = 0;
    let mut i: usize = 0;
    while i < 32
        invariant
            i <= 32,
            pubkey@.len() == 32,
            number == byte_sum(pubkey@.take(i as int)),
            number <= 255 * i,
        decreases 32 - i,
    {
        proof {
            assert(pubkey@.take(i + 1).drop_last() == pubkey@.take(i as int));
        }
        number = number + pubkey.bytes[i] as u32;
        i = i + 1;
    }
    proof {
        assert(pubkey@.take(32) == pubkey@);
    }
    (number % 100_000) + 1
}

/// Adds up the numbers of the last ten participants of the history.
pub fn recent_players_sum(player_list: &PlayerList) -> (sum: u64)
    ensures
        sum == identity_numbers_sum(recent_players(player_list@)),
        sum <= 81610,
{
    let len: usize = player_list.players.len();
    let start: usize = if len <= 10 {
        0
    } else {
        len - 10
    };
    let ghost recent = recent_players(player_list@);
    proof {
        assert(recent == player_list@.subrange(start as int, len as int));
    }
    let mut sum: u64 = 0;
    let mut i: usize = start;
    while i < len
        invariant
            start <= i <= len,
            len == player_list@.len(),
            len - start <= 10,
            recent == player_list@.subrange(start as int, len as int),
            sum == identity_numbers_sum(recent.take(i - start)),
            sum <= 8161 * (i - start),
        decreases len - i,
    {
        proof {
            assert(recent.take(i - start + 1).drop_last() == recent.take(i - start));
            assert(recent.take(i - start + 1).last() == player_list@[i as int]);
        }
        let number: u32 = pubkey_to_number(&player_list.players[i]);
        sum = sum + number as u64;
        i = i + 1;
    }
    proof {
        assert(recent.take(len - start) == recent);
    }
    sum
}

/// Composes the candidate of a draw from the slot counter, the
/// participant, the history of recent participants and the wall-clock
/// time. It reads its arguments and nothing else, so equal arguments give
/// equal candidates.
pub fn number_to_test(
    slot: u64,
    participant: &Identity,
    player_list: &PlayerList,
    unix_time: i64,
) -> (number: u64)
    ensures
        number == candidate(slot, *participant, player_list@, unix_time),
{
    let user_number: u32 = pubkey_to_number(participant);
    let recent_sum: u64 = recent_players_sum(player_list);
    let time_part: i64 = unix_time % 100_000;
    let base: u128 = slot as u128 + user_number as u128 + recent_sum as u128;
    let shifted: u128 = if time_part >= 0 {
        base + time_part as u128
    } else {
        base + 0x1_0000_0000_0000_0000u128 - ((-time_part) as u128)
    };
    proof {
        lemma_mod_add_multiples_vanish(
            base + time_number(unix_time),
            0x1_0000_0000_0000_0000,
        );
    }
    (shifted % 0x1_0000_0000_0000_0000u128) as u64
}

} // verus!
