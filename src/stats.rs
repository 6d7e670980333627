use vstd::prelude::*;
use crate::session::PlayerId;

verus! {

/// The win, loss and tie counters of one player.
#[derive(Clone, Copy, Debug, PartialEq, Eq, Structural)]
pub struct Stats {
    pub wins: u64,
    pub losses: u64,
    pub ties: u64,
}

/// A counter after one more result: it stops at `u64::MAX`.
pub open spec fn bump(n: u64) -> u64 {
    if n == u64::MAX {
        n
    } else {
        (n + 1) as u64
    }
}

pub open spec fn zero_stats() -> Stats {
    Stats { wins: 0, losses: 0, ties: 0 }
}

pub open spec fn add_win(s: Stats) -> Stats {
    Stats { wins: bump(s.wins), losses: s.losses, ties: s.ties }
}

pub open spec fn add_loss(s: Stats) -> Stats {
    Stats { wins: s.wins, losses: bump(s.losses), ties: s.ties }
}

pub open spec fn add_tie(s: Stats) -> Stats {
    Stats { wins: s.wins, losses: s.losses, ties: bump(s.ties) }
}

pub fn increment(n: u64) -> (r: u64)
    ensures
        r == bump(n),
{
    if n == u64::MAX {
        n
    } else {
        n + 1
    }
}

impl Stats {
    pub fn zero() -> (s: Stats)
        ensures
            s == zero_stats(),
    {
        Stats { wins: 0, losses: 0, ties: 0 }
    }
}

/// No identity occurs twice in `users`.
pub open spec fn unique_ids(users: Seq<PlayerId>) -> bool {
    forall|i: int, j: int|
        0 <= i < users.len() && 0 <= j < users.len() && i != j ==> #[trigger] users[i]@
            != #[trigger] users[j]@
}

pub open spec fn listed(users: Seq<PlayerId>, k: Seq<char>) -> bool {
    exists|i: int| 0 <= i < users.len() && users[i]@ == k
}

/// The counters of each player, from parallel sequences of identities and
/// counters.
pub open spec fn stats_map(users: Seq<PlayerId>, values: Seq<Stats>) -> Map<Seq<char>, Stats> {
    Map::new(
        |k: Seq<char>| listed(users, k),
        |k: Seq<char>| values[choose|i: int| 0 <= i < users.len() && users[i]@ == k],
    )
}

pub proof fn lemma_stats_at(users: Seq<PlayerId>, values: Seq<Stats>, i: int)
    requires
        unique_ids(users),
        0 <= i < users.len(),
    ensures
        stats_map(users, values).contains_key(users[i]@),
        stats_map(users, values)[users[i]@] == values[i],
{
    let k = users[i]@;
    assert(listed(users, k));
    let j = choose|j: int| 0 <= j < users.len() && users[j]@ == k;
    assert(users[j]@ == users[i]@);
}

pub proof fn lemma_stats_update(users: Seq<PlayerId>, values: Seq<Stats>, i: int, s: Stats)
    requires
        unique_ids(users),
        users.len() == values.len(),
        0 <= i < users.len(),
    ensures
        stats_map(users, values.update(i, s)) == stats_map(users, values).insert(users[i]@, s),
{
    let m1 = stats_map(users, values.update(i, s));
    let m2 = stats_map(users, values).insert(users[i]@, s);
    assert forall|k: Seq<char>| #[trigger] m1.contains_key(k) implies m1[k] == m2[k] by {
        let j = choose|j: int| 0 <= j < users.len() && users[j]@ == k;
        lemma_stats_at(users, values, j);
        if j == i {
        } else {
            assert(users[j]@ != users[i]@);
        }
    }
    assert(m1 =~= m2);
}

pub proof fn lemma_stats_push(users: Seq<PlayerId>, values: Seq<Stats>, p: PlayerId, s: Stats)
    requires
        unique_ids(users),
        users.len() == values.len(),
        !listed(users, p@),
    ensures
        unique_ids(users.push(p)),
        stats_map(users.push(p), values.push(s)) == stats_map(users, values).insert(p@, s),
{
    let u2 = users.push(p);
    let v2 = values.push(s);
    assert forall|i: int, j: int|
        0 <= i < u2.len() && 0 <= j < u2.len() && i != j implies #[trigger] u2[i]@
        != #[trigger] u2[j]@ by {
        if i == users.len() {
            assert(users[j] == u2[j]);
        } else if j == users.len() {
            assert(users[i] == u2[i]);
        } else {
            assert(users[i] == u2[i] && users[j] == u2[j]);
        }
    }
    let m1 = stats_map(u2, v2);
    let m2 = stats_map(users, values).insert(p@, s);
    assert forall|k: Seq<char>| #[trigger] m1.contains_key(k) implies m2.contains_key(k) && m1[k]
        == m2[k] by {
        let j = choose|j: int| 0 <= j < u2.len() && u2[j]@ == k;
        lemma_stats_at(u2, v2, j);
        if j < users.len() {
            assert(u2[j] == users[j]);
            lemma_stats_at(users, values, j);
        }
    }
    assert forall|k: Seq<char>| #[trigger] m2.contains_key(k) implies m1.contains_key(k) by {
        if k != p@ {
            let j = choose|j: int| 0 <= j < users.len() && users[j]@ == k;
            assert(u2[j] == users[j]);
        } else {
            assert(u2[users.len() as int] == p);
        }
    }
    assert(m1 =~= m2);
}

} // verus!
