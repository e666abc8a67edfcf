//! The history of recent participants and the leaderboard.

use vstd::prelude::*;
use crate::accounts::{Leaderboard, PlayerList, UserEntry};
use crate::identity::Identity;

verus! {

/// The history after `new_player` took part: the oldest entry leaves a
/// history that holds ten or more, and the newcomer goes to the end.
pub open spec fn history_after(players: Seq<Identity>, new_player: Identity) -> Seq<Identity> {
    if players.len() >= 10 {
        players.remove(0).push(new_player)
    } else {
        players.push(new_player)
    }
}

/// Records `new_player` as the most recent participant, evicting the
/// oldest one from a full history.
pub fn update_player_list(player_list: &mut PlayerList, new_player: Identity)
    ensures
        final(player_list)@ == history_after(old(player_list)@, new_player),
        final(player_list)@.last() == new_player,
        old(player_list)@.len() <= 10 ==> final(player_list)@.len() <= 10,
{
    if player_list.players.len() >= 10 {
        player_list.players.remove(0);
    }
    player_list.players.push(new_player);
}

/// The entries that do not belong to `user`, in their order.
pub open spec fn without_user(entries: Seq<UserEntry>, user: Identity) -> Seq<UserEntry> {
    entries.filter(|e: UserEntry| e.user != user)
}

/// `entry` put into `ranking` from the end: it moves up past every entry
/// with fewer points and stops below the first one with as many or more.
pub open spec fn insert_ranked(ranking: Seq<UserEntry>, entry: UserEntry) -> Seq<UserEntry>
    decreases ranking.len(),
{
    if ranking.len() == 0 || ranking.last().points >= entry.points {
        ranking.push(entry)
    } else {
        insert_ranked(ranking.drop_last(), entry).push(ranking.last())
    }
}

/// The entries ordered by points, most first; entries with equal points
/// keep the order they came in.
pub open spec fn ranked(entries: Seq<UserEntry>) -> Seq<UserEntry>
    decreases entries.len(),
{
    if entries.len() == 0 {
        entries
    } else {
        insert_ranked(ranked(entries.drop_last()), entries.last())
    }
}

/// No entry has more points than one before it.
pub open spec fn is_ranked(entries: Seq<UserEntry>) -> bool {
    forall|i: int, j: int| 0 <= i < j < entries.len() ==> entries[i].points >= entries[j].points
}

/// The first `limit` entries, or all of them where there are fewer.
pub open spec fn top(entries: Seq<UserEntry>, limit: nat) -> Seq<UserEntry> {
    if entries.len() <= limit {
        entries
    } else {
        entries.subrange(0, limit as int)
    }
}

/// The leaderboard after `user` reached `points`: the user's old entry
/// leaves, the new one enters, the entries are ordered by points and the
/// best hundred stay.
pub open spec fn leaderboard_after(entries: Seq<UserEntry>, user: Identity, points: i64) -> Seq<
    UserEntry,
> {
    top(ranked(without_user(entries, user).push(UserEntry { user, points })), 100)
}

/// Where `insert_ranked` puts an entry: at `pos`, if every entry from `pos`
/// on has fewer points and the entry before `pos` has as many or more.
pub proof fn lemma_insert_ranked_at(ranking: Seq<UserEntry>, entry: UserEntry, pos: int)
    requires
        0 <= pos <= ranking.len(),
        forall|i: int| pos <= i < ranking.len() ==> ranking[i].points < entry.points,
        pos > 0 ==> ranking[pos - 1].points >= entry.points,
    ensures
        insert_ranked(ranking, entry) == ranking.insert(pos, entry),
    decreases ranking.len(),
{
    if pos == ranking.len() {
        assert(ranking.insert(pos, entry) =~= ranking.push(entry));
    } else {
        lemma_insert_ranked_at(ranking.drop_last(), entry, pos);
        assert(ranking.drop_last().insert(pos, entry).push(ranking.last()) =~= ranking.insert(
            pos,
            entry,
        ));
    }
}

/// The place that `insert_ranked` gives an entry in a ranking.
pub open spec fn rank_of(ranking: Seq<UserEntry>, entry: UserEntry) -> int
    decreases ranking.len(),
{
    if ranking.len() == 0 || ranking.last().points >= entry.points {
        ranking.len() as int
    } else {
        rank_of(ranking.drop_last(), entry)
    }
}

/// `insert_ranked` inserts at `rank_of`, below an entry with as many points
/// or more and above entries with fewer.
pub proof fn lemma_rank_of(ranking: Seq<UserEntry>, entry: UserEntry)
    ensures
        0 <= rank_of(ranking, entry) <= ranking.len(),
        insert_ranked(ranking, entry) == ranking.insert(rank_of(ranking, entry), entry),
        forall|i: int|
            rank_of(ranking, entry) <= i < ranking.len() ==> ranking[i].points < entry.points,
        rank_of(ranking, entry) > 0 ==> ranking[rank_of(ranking, entry) - 1].points
            >= entry.points,
    decreases ranking.len(),
{
    if ranking.len() == 0 || ranking.last().points >= entry.points {
    } else {
        lemma_rank_of(ranking.drop_last(), entry);
    }
    let pos = rank_of(ranking, entry);
    assert forall|i: int| pos <= i < ranking.len() implies ranking[i].points < entry.points by {
        if i < ranking.len() - 1 {
            assert(ranking.drop_last()[i] == ranking[i]);
        }
    }
    if pos > 0 && pos < ranking.len() {
        assert(ranking.drop_last()[pos - 1] == ranking[pos - 1]);
    }
    lemma_insert_ranked_at(ranking, entry, pos);
}

/// Inserting into a ranking gives a ranking.
pub proof fn lemma_insert_ranked_keeps_order(ranking: Seq<UserEntry>, entry: UserEntry)
    requires
        is_ranked(ranking),
    ensures
        is_ranked(insert_ranked(ranking, entry)),
        insert_ranked(ranking, entry).len() == ranking.len() + 1,
        insert_ranked(ranking, entry).to_multiset() == ranking.to_multiset().insert(entry),
{
    lemma_rank_of(ranking, entry);
    let pos = rank_of(ranking, entry);
    let out = ranking.insert(pos, entry);
    assert forall|i: int, j: int| 0 <= i < j < out.len() implies out[i].points
        >= out[j].points by {
        if j < pos {
        } else if j == pos {
            if pos > 0 {
                assert(ranking[i].points >= ranking[pos - 1].points);
            }
        } else if i < pos {
            assert(out[j] == ranking[j - 1]);
        } else if i == pos {
            assert(out[j] == ranking[j - 1]);
        } else {
            assert(out[i] == ranking[i - 1]);
            assert(out[j] == ranking[j - 1]);
        }
    }
    vstd::seq_lib::to_multiset_insert(ranking, pos, entry);
}

/// Ranking orders the entries and keeps each of them, as often as it
/// occurs.
pub proof fn lemma_ranked_is_ranked(entries: Seq<UserEntry>)
    ensures
        is_ranked(ranked(entries)),
        ranked(entries).len() == entries.len(),
        ranked(entries).to_multiset() == entries.to_multiset(),
    decreases entries.len(),
{
    if entries.len() > 0 {
        lemma_ranked_is_ranked(entries.drop_last());
        lemma_insert_ranked_keeps_order(ranked(entries.drop_last()), entries.last());
        vstd::seq_lib::to_multiset_build(entries.drop_last(), entries.last());
        assert(entries.drop_last().push(entries.last()) =~= entries);
    } else {
        assert(ranked(entries) =~= entries);
    }
}

/// What holds of every refreshed leaderboard: it is ordered by points, it
/// holds at most a hundred entries, and the only entry that it can hold for
/// `user` is the new one.
pub proof fn lemma_leaderboard_after(entries: Seq<UserEntry>, user: Identity, points: i64)
    ensures
        is_ranked(leaderboard_after(entries, user, points)),
        leaderboard_after(entries, user, points).len() <= 100,
        leaderboard_after(entries, user, points).len() <= entries.len() + 1,
        forall|i: int|
            0 <= i < leaderboard_after(entries, user, points).len() && #[trigger] leaderboard_after(
                entries,
                user,
                points,
            )[i].user == user ==> leaderboard_after(entries, user, points)[i].points == points,
{
    let keep = |e: UserEntry| e.user != user;
    let kept = without_user(entries, user);
    let entry = UserEntry { user, points };
    let all = kept.push(entry);
    let after = leaderboard_after(entries, user, points);
    lemma_ranked_is_ranked(all);
    entries.lemma_filter_len(keep);
    assert forall|i: int| 0 <= i < after.len() && #[trigger] after[i].user == user implies after[i].points
        == points by {
        let found = after[i];
        assert(ranked(all)[i] == found);
        assert(ranked(all).contains(found));
        ranked(all).to_multiset_ensures();
        all.to_multiset_ensures();
        assert(ranked(all).to_multiset().count(found) > 0);
        assert(all.to_multiset().count(found) > 0);
        assert(all.contains(found));
        let j = choose|j: int| 0 <= j < all.len() && all[j] == found;
        if j < kept.len() {
            entries.lemma_filter_pred(keep, j);
            assert(keep(kept[j]));
        }
    }
}

/// No two entries belong to the same user.
pub open spec fn has_distinct_users(entries: Seq<UserEntry>) -> bool {
    forall|i: int, j: int| 0 <= i < j < entries.len() ==> entries[i].user != entries[j].user
}

/// Dropping entries from a board with distinct users leaves one.
proof fn lemma_filter_keeps_users_distinct(entries: Seq<UserEntry>, keep: spec_fn(UserEntry) -> bool)
    requires
        has_distinct_users(entries),
    ensures
        has_distinct_users(entries.filter(keep)),
    decreases entries.len(),
{
    reveal(Seq::filter);
    if entries.len() > 0 {
        let front = entries.drop_last();
        assert forall|i: int, j: int| 0 <= i < j < front.len() implies front[i].user
            != front[j].user by {
            assert(front[i] == entries[i] && front[j] == entries[j]);
        }
        lemma_filter_keeps_users_distinct(front, keep);
        let kept = front.filter(keep);
        if keep(entries.last()) {
            assert forall|i: int| 0 <= i < kept.len() implies kept[i].user
                != entries.last().user by {
                assert(kept.contains(kept[i]));
                front.lemma_filter_contains_rev(keep, kept[i]);
                let at = choose|at: int| 0 <= at < front.len() && front[at] == kept[i];
                assert(entries[at] == kept[i]);
            }
        }
    }
}

/// A refreshed leaderboard holds at most one entry for each user, provided
/// the board did before.
pub proof fn lemma_leaderboard_stays_distinct(entries: Seq<UserEntry>, user: Identity, points: i64)
    requires
        has_distinct_users(entries),
    ensures
        has_distinct_users(leaderboard_after(entries, user, points)),
{
    let keep = |e: UserEntry| e.user != user;
    let kept = without_user(entries, user);
    let all = kept.push(UserEntry { user, points });
    let sorted = ranked(all);
    lemma_filter_keeps_users_distinct(entries, keep);
    assert forall|i: int, j: int| 0 <= i < j < all.len() implies all[i].user != all[j].user by {
        if j == kept.len() {
            entries.lemma_filter_pred(keep, i);
            assert(keep(kept[i]));
        }
    }
    lemma_ranked_is_ranked(all);
    sorted.to_multiset_ensures();
    all.to_multiset_ensures();
    assert forall|i: int, j: int| 0 <= i < j < sorted.len() implies sorted[i].user
        != sorted[j].user by {
        assert(sorted.contains(sorted[i]) && sorted.contains(sorted[j]));
        assert(all.to_multiset().count(sorted[i]) > 0);
        assert(all.to_multiset().count(sorted[j]) > 0);
        let a = choose|a: int| 0 <= a < all.len() && all[a] == sorted[i];
        let b = choose|b: int| 0 <= b < all.len() && all[b] == sorted[j];
        if sorted[i].user == sorted[j].user {
            assert(a == b);
            assert(all.no_duplicates());
            all.lemma_multiset_has_no_duplicates();
            assert(sorted.to_multiset().count(sorted[i]) == 1);
            sorted.lemma_multiset_has_no_duplicates_conv();
        }
    }
}

/// Refreshes the leaderboard after `user` reached `points`: the user's old
/// entry is dropped, the new one is added, the entries are ordered by
/// points, most first, and only the best hundred are kept.
pub fn update_leaderboard(leaderboard: &mut Leaderboard, user: Identity, points: i64)
    ensures
        final(leaderboard)@ == leaderboard_after(old(leaderboard)@, user, points),
        is_ranked(final(leaderboard)@),
        final(leaderboard)@.len() <= 100,
        has_distinct_users(old(leaderboard)@) ==> has_distinct_users(final(leaderboard)@),
{
    let ghost before = leaderboard@;
    let ghost keep = |e: UserEntry| e.user != user;
    let mut kept: Vec<UserEntry> = Vec::new();
    let mut i: usize = 0;
    proof {
        reveal(Seq::filter);
        assert(before.take(0).filter(keep) =~= Seq::<UserEntry>::empty());
    }
    while i < leaderboard.users.len()
        invariant
            i <= before.len(),
            leaderboard@ == before,
            keep == (|e: UserEntry| e.user != user),
            kept@ == before.take(i as int).filter(keep),
        decreases before.len() - i,
    {
        let entry: UserEntry = leaderboard.users[i];
        proof {
            reveal(Seq::filter);
            assert(before.take(i + 1).drop_last() == before.take(i as int));
        }
        if !(entry.user == user) {
            kept.push(entry);
        }
        i = i + 1;
    }
    proof {
        assert(before.take(before.len() as int) == before);
    }
    kept.push(UserEntry { user, points });
    let mut sorted: Vec<UserEntry> = Vec::new();
    let mut k: usize = 0;
    proof {
        assert(kept@.take(0) =~= Seq::<UserEntry>::empty());
    }
    while k < kept.len()
        invariant
            k <= kept.len(),
            sorted@ == ranked(kept@.take(k as int)),
        decreases kept.len() - k,
    {
        let entry: UserEntry = kept[k];
        let mut pos: usize = sorted.len();
        while pos > 0 && sorted[pos - 1].points < entry.points
            invariant
                pos <= sorted.len(),
                forall|j: int| pos <= j < sorted.len() ==> sorted[j].points < entry.points,
            decreases pos,
        {
            pos = pos - 1;
        }
        proof {
            lemma_insert_ranked_at(sorted@, entry, pos as int);
            assert(kept@.take(k + 1).drop_last() == kept@.take(k as int));
        }
        sorted.insert(pos, entry);
        k = k + 1;
    }
    proof {
        assert(kept@.take(kept.len() as int) == kept@);
        lemma_leaderboard_after(before, user, points);
        if has_distinct_users(before) {
            lemma_leaderboard_stays_distinct(before, user, points);
        }
    }
    sorted.truncate(100);
    leaderboard.users = sorted;
}

} // verus!
