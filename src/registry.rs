use vstd::prelude::*;
use crate::board::{has_line, idx, wins_through, Board, Cell, Player};
use crate::session::{accepts, fresh, lemma_win_iff_line, move_result, Game, GameError, GameView, MoveOutcome, PlayerId};
use crate::stats::{
    add_loss, add_tie, add_win, increment, lemma_stats_at, lemma_stats_push, lemma_stats_update,
    listed, stats_map, unique_ids, zero_stats, Stats,
};

verus! {

/// The mathematical state of the registry: the matches under way, and the
/// counters of every player who ever entered a match.
pub struct ContractView {
    pub games: Seq<GameView>,
    pub stats: Map<Seq<char>, Stats>,
}

pub open spec fn has_game(games: Seq<GameView>, p: Seq<char>) -> bool {
    exists|i: int| 0 <= i < games.len() && #[trigger] games[i].involves(p)
}

/// Where the match of `p` stands among `games`.
pub open spec fn game_index(games: Seq<GameView>, p: Seq<char>) -> int {
    choose|i: int| 0 <= i < games.len() && #[trigger] games[i].involves(p)
}

/// The counters with a zero entry for `p` where it has none.
pub open spec fn with_zero(stats: Map<Seq<char>, Stats>, p: Seq<char>) -> Map<Seq<char>, Stats> {
    if stats.contains_key(p) {
        stats
    } else {
        stats.insert(p, zero_stats())
    }
}

/// Two distinct matches share no player.
pub open spec fn disjoint(a: GameView, b: GameView) -> bool {
    !a.involves(b.x) && !a.involves(b.o)
}

/// A match of a well-formed registry: well-formed, under way, and both of
/// its players have counters.
pub open spec fn game_ok(stats: Map<Seq<char>, Stats>, g: GameView) -> bool {
    &&& g.wf()
    &&& !g.complete
    &&& g.turns < 9
    &&& stats.contains_key(g.x)
    &&& stats.contains_key(g.o)
}

impl ContractView {
    /// Every match is well-formed and under way, no player is in two matches,
    /// and every player in a match has counters.
    pub open spec fn wf(self) -> bool {
        &&& forall|i: int| 0 <= i < self.games.len() ==> game_ok(self.stats, #[trigger] self.games[i])
        &&& forall|i: int, j: int|
            0 <= i < self.games.len() && 0 <= j < self.games.len() && i != j ==> disjoint(
                #[trigger] self.games[i],
                #[trigger] self.games[j],
            )
    }
}

/// Counters after `w` beat `l`.
pub open spec fn record_win(stats: Map<Seq<char>, Stats>, w: Seq<char>, l: Seq<char>) -> Map<
    Seq<char>,
    Stats,
> {
    stats.insert(w, add_win(stats[w])).insert(l, add_loss(stats[l]))
}

/// Counters after `a` and `b` tied.
pub open spec fn record_tie(stats: Map<Seq<char>, Stats>, a: Seq<char>, b: Seq<char>) -> Map<
    Seq<char>,
    Stats,
> {
    stats.insert(a, add_tie(stats[a])).insert(b, add_tie(stats[b]))
}

/// The answer to `caller` asking to mark the 1-based (row, col) in its
/// match, and the registry afterwards. A match that ends is removed at once,
/// for both players, and the counters of both are updated.
pub open spec fn play_result(v: ContractView, caller: Seq<char>, row: usize, col: usize) -> (
    Result<MoveOutcome, GameError>,
    ContractView,
) {
    if !has_game(v.games, caller) {
        (Err(GameError::NoActiveSession), v)
    } else {
        let i = game_index(v.games, caller);
        let g = v.games[i];
        let (res, g2) = move_result(g, caller, row, col);
        let rest = v.games.remove(i);
        match res {
            Err(_) => (res, v),
            Ok(MoveOutcome::Continued) => (
                res,
                ContractView { games: v.games.update(i, g2), stats: v.stats },
            ),
            Ok(MoveOutcome::Won(m)) => (
                res,
                ContractView {
                    games: rest,
                    stats: record_win(v.stats, g.id_of(m), g.id_of(m.opponent())),
                },
            ),
            Ok(MoveOutcome::Tied) => (
                res,
                ContractView { games: rest, stats: record_tie(v.stats, g.x, g.o) },
            ),
            Ok(MoveOutcome::AlreadyLost) => (
                res,
                ContractView { games: rest, stats: v.stats.insert(caller, add_loss(v.stats[caller])) },
            ),
            Ok(MoveOutcome::AlreadyTied) => (
                res,
                ContractView { games: rest, stats: v.stats.insert(caller, add_tie(v.stats[caller])) },
            ),
        }
    }
}

/// When a move wins or ties, neither player of that match has a match
/// afterwards, and each of the two gets exactly one more result: a win for
/// the mover and a loss for the opponent, or a tie for both. The counters of
/// everyone else stay as they were.
pub proof fn lemma_resolution_clears_both(v: ContractView, caller: Seq<char>, row: usize, col: usize)
    requires
        v.wf(),
        has_game(v.games, caller),
        play_result(v, caller, row, col).0 is Ok,
        play_result(v, caller, row, col).0->Ok_0 is Won || play_result(v, caller, row, col).0->Ok_0
            is Tied,
    ensures
        ({
            let g = v.games[game_index(v.games, caller)];
            let opp = g.opponent_of(caller);
            let after = play_result(v, caller, row, col).1;
            &&& !has_game(after.games, caller)
            &&& !has_game(after.games, opp)
            &&& after.stats.dom() == v.stats.dom()
            &&& v.stats.contains_key(caller) && v.stats.contains_key(opp)
            &&& play_result(v, caller, row, col).0->Ok_0 is Won ==> after.stats[caller] == add_win(
                v.stats[caller],
            ) && after.stats[opp] == add_loss(v.stats[opp])
            &&& play_result(v, caller, row, col).0->Ok_0 is Tied ==> after.stats[caller] == add_tie(
                v.stats[caller],
            ) && after.stats[opp] == add_tie(v.stats[opp])
            &&& forall|k: Seq<char>|
                k != caller && k != opp && #[trigger] v.stats.contains_key(k) ==> after.stats[k]
                    == v.stats[k]
            &&& play_result(v, caller, row, col).0->Ok_0 is Won && v.stats[caller].wins < u64::MAX
                && v.stats[opp].losses < u64::MAX ==> {
                &&& after.stats[caller].wins == v.stats[caller].wins + 1
                &&& after.stats[caller].losses == v.stats[caller].losses
                &&& after.stats[caller].ties == v.stats[caller].ties
                &&& after.stats[opp].losses == v.stats[opp].losses + 1
                &&& after.stats[opp].wins == v.stats[opp].wins
                &&& after.stats[opp].ties == v.stats[opp].ties
            }
            &&& play_result(v, caller, row, col).0->Ok_0 is Tied && v.stats[caller].ties < u64::MAX
                && v.stats[opp].ties < u64::MAX ==> {
                &&& after.stats[caller].ties == v.stats[caller].ties + 1
                &&& after.stats[caller].wins == v.stats[caller].wins
                &&& after.stats[caller].losses == v.stats[caller].losses
                &&& after.stats[opp].ties == v.stats[opp].ties + 1
                &&& after.stats[opp].wins == v.stats[opp].wins
                &&& after.stats[opp].losses == v.stats[opp].losses
            }
        }),
{
    let i = game_index(v.games, caller);
    let g = v.games[i];
    let opp = g.opponent_of(caller);
    let after = play_result(v, caller, row, col).1;
    assert(game_ok(v.stats, g));
    assert(g.turn == Player::X || g.turn == Player::O);
    assert(after.games == v.games.remove(i));
    assert forall|k: int| 0 <= k < after.games.len() implies !(#[trigger] after.games[k]).involves(
        caller,
    ) && !after.games[k].involves(opp) by {
        let k2 = if k < i { k } else { k + 1 };
        assert(disjoint(v.games[k2], g));
    }
    assert(after.stats.dom() =~= v.stats.dom());
}

/// In a well-formed registry, an accepted move that completes a line of the
/// mover's mark wins for the mover, also on the ninth move: the match is
/// gone for the mover and the mover gets one more win.
pub proof fn lemma_line_wins_match(v: ContractView, caller: Seq<char>, row: usize, col: usize)
    requires
        v.wf(),
        has_game(v.games, caller),
        accepts(v.games[game_index(v.games, caller)], caller, row, col),
        has_line(
            v.games[game_index(v.games, caller)].board.update(
                idx(row - 1, col - 1),
                Cell::Mark(v.games[game_index(v.games, caller)].turn),
            ),
            v.games[game_index(v.games, caller)].turn,
        ),
    ensures
        play_result(v, caller, row, col).0 == Ok::<MoveOutcome, GameError>(
            MoveOutcome::Won(v.games[game_index(v.games, caller)].turn),
        ),
        !has_game(play_result(v, caller, row, col).1.games, caller),
        play_result(v, caller, row, col).1.stats[caller] == add_win(v.stats[caller]),
        v.stats[caller].wins < u64::MAX ==> play_result(v, caller, row, col).1.stats[caller].wins
            == v.stats[caller].wins + 1,
{
    let g = v.games[game_index(v.games, caller)];
    assert(game_ok(v.stats, g));
    lemma_win_iff_line(g, caller, row, col);
    lemma_resolution_clears_both(v, caller, row, col);
}

/// Removing a match keeps a well-formed registry well-formed.
pub proof fn lemma_wf_remove(v: ContractView, i: int)
    requires
        v.wf(),
        0 <= i < v.games.len(),
    ensures
        (ContractView { games: v.games.remove(i), stats: v.stats }).wf(),
{
    let w = ContractView { games: v.games.remove(i), stats: v.stats };
    assert forall|k: int| 0 <= k < w.games.len() implies game_ok(w.stats, #[trigger] w.games[k]) by {
        if k < i {
            assert(game_ok(v.stats, v.games[k]));
        } else {
            assert(game_ok(v.stats, v.games[k + 1]));
        }
    }
    assert forall|a: int, b: int|
        0 <= a < w.games.len() && 0 <= b < w.games.len() && a != b implies disjoint(
        #[trigger] w.games[a],
        #[trigger] w.games[b],
    ) by {
        let a2 = if a < i { a } else { a + 1 };
        let b2 = if b < i { b } else { b + 1 };
        assert(disjoint(v.games[a2], v.games[b2]));
    }
}

/// The only match of a player in a well-formed registry is the one found.
pub proof fn lemma_game_index(v: ContractView, i: int, p: Seq<char>)
    requires
        v.wf(),
        0 <= i < v.games.len(),
        v.games[i].involves(p),
    ensures
        has_game(v.games, p),
        game_index(v.games, p) == i,
{
    let j = game_index(v.games, p);
    if j != i {
        assert(disjoint(v.games[i], v.games[j]));
    }
}

/// Adding counters keeps a well-formed registry well-formed.
pub proof fn lemma_wf_more_stats(v: ContractView, stats: Map<Seq<char>, Stats>)
    requires
        v.wf(),
        forall|k: Seq<char>| v.stats.contains_key(k) ==> #[trigger] stats.contains_key(k),
    ensures
        (ContractView { games: v.games, stats }).wf(),
{
    let w = ContractView { games: v.games, stats };
    assert forall|i: int| 0 <= i < w.games.len() implies game_ok(w.stats, #[trigger] w.games[i]) by {
        assert(game_ok(v.stats, v.games[i]));
    }
    assert forall|i: int, j: int|
        0 <= i < w.games.len() && 0 <= j < w.games.len() && i != j implies disjoint(
        #[trigger] w.games[i],
        #[trigger] w.games[j],
    ) by {
        assert(disjoint(v.games[i], v.games[j]));
    }
}

/// A stored match that a registry can hold: well-formed, under way, and
/// both of its players listed among the counters.
pub open spec fn stored_game_ok(users: Seq<PlayerId>, g: GameView) -> bool {
    &&& g.wf()
    &&& !g.complete
    &&& g.turns < 9
    &&& listed(users, g.x)
    &&& listed(users, g.o)
}

fn is_listed(users: &Vec<PlayerId>, p: &PlayerId) -> (r: bool)
    ensures
        r == listed(users@, p@),
{
    let mut i: usize = 0;
    while i < users.len()
        invariant
            i <= users@.len(),
            forall|j: int| 0 <= j < i ==> (#[trigger] users@[j])@ != p@,
        decreases users@.len() - i,
    {
        if users[i].same(p) {
            return true;
        }
        i = i + 1;
    }
    false
}

fn ids_unique(users: &Vec<PlayerId>) -> (r: bool)
    ensures
        r == unique_ids(users@),
{
    let n = users.len();
    let mut i: usize = 0;
    while i < n
        invariant
            n == users@.len(),
            i <= n,
            forall|a: int, b: int|
                0 <= a < i && 0 <= b < n && a != b ==> #[trigger] users@[a]@ != #[trigger] users@[b]@,
        decreases n - i,
    {
        let mut j: usize = 0;
        while j < n
            invariant
                n == users@.len(),
                i < n,
                j <= n,
                forall|a: int, b: int|
                    0 <= a < i && 0 <= b < n && a != b ==> #[trigger] users@[a]@
                        != #[trigger] users@[b]@,
                forall|b: int| 0 <= b < j && b != i ==> users@[i as int]@ != #[trigger] users@[b]@,
            decreases n - j,
        {
            if j != i && users[i].same(&users[j]) {
                assert(users@[i as int]@ == users@[j as int]@);
                return false;
            }
            j = j + 1;
        }
        i = i + 1;
    }
    true
}

fn games_stored_ok(games: &Vec<Game>, users: &Vec<PlayerId>) -> (r: bool)
    ensures
        r == forall|i: int| 0 <= i < games@.len() ==> stored_game_ok(users@, #[trigger] games@[i]@),
{
    let mut i: usize = 0;
    while i < games.len()
        invariant
            i <= games@.len(),
            forall|j: int| 0 <= j < i ==> stored_game_ok(users@, #[trigger] games@[j]@),
        decreases games@.len() - i,
    {
        let g = &games[i];
        if !(g.check() && !g.is_complete() && g.turns_played() < 9 && is_listed(users, g.x_player())
            && is_listed(users, g.o_player())) {
            return false;
        }
        i = i + 1;
    }
    true
}

fn shares_player(a: &Game, b: &Game) -> (r: bool)
    ensures
        r == !disjoint(a@, b@),
{
    a.x_player().same(b.x_player()) || a.x_player().same(b.o_player()) || a.o_player().same(
        b.x_player(),
    ) || a.o_player().same(b.o_player())
}

fn games_disjoint(games: &Vec<Game>) -> (r: bool)
    ensures
        r == forall|a: int, b: int|
            0 <= a < games@.len() && 0 <= b < games@.len() && a != b ==> disjoint(
                #[trigger] games@[a]@,
                #[trigger] games@[b]@,
            ),
{
    let n = games.len();
    let mut i: usize = 0;
    while i < n
        invariant
            n == games@.len(),
            i <= n,
            forall|a: int, b: int|
                0 <= a < i && 0 <= b < n && a != b ==> disjoint(
                    #[trigger] games@[a]@,
                    #[trigger] games@[b]@,
                ),
        decreases n - i,
    {
        let mut j: usize = 0;
        while j < n
            invariant
                n == games@.len(),
                i < n,
                j <= n,
                forall|a: int, b: int|
                    0 <= a < i && 0 <= b < n && a != b ==> disjoint(
                        #[trigger] games@[a]@,
                        #[trigger] games@[b]@,
                    ),
                forall|b: int| 0 <= b < j && b != i ==> disjoint(games@[i as int]@, #[trigger] games@[b]@),
            decreases n - j,
        {
            if j != i && shares_player(&games[i], &games[j]) {
                return false;
            }
            j = j + 1;
        }
        i = i + 1;
    }
    true
}

/// The registry of matches under way and the counters of all players.
pub struct Contract {
    games: Vec<Game>,
    stat_users: Vec<PlayerId>,
    stat_values: Vec<Stats>,
}

impl View for Contract {
    type V = ContractView;

    closed spec fn view(&self) -> ContractView {
        ContractView {
            games: self.games@.map_values(|g: Game| g@),
            stats: stats_map(self.stat_users@, self.stat_values@),
        }
    }
}

impl Contract {
    pub closed spec fn wf(&self) -> bool {
        &&& self@.wf()
        &&& unique_ids(self.stat_users@)
        &&& self.stat_users@.len() == self.stat_values@.len()
    }

    /// An empty registry.
    pub fn new() -> (c: Contract)
        ensures
            c.wf(),
            c@.games == Seq::<GameView>::empty(),
            c@.stats == Map::<Seq<char>, Stats>::empty(),
    {
        let c = Contract { games: Vec::new(), stat_users: Vec::new(), stat_values: Vec::new() };
        assert(c@.games =~= Seq::<GameView>::empty());
        assert(c@.stats =~= Map::<Seq<char>, Stats>::empty());
        c
    }

    fn find_game(&self, p: &PlayerId) -> (r: Option<usize>)
        requires
            self.wf(),
        ensures
            match r {
                Some(i) => i < self@.games.len() && self@.games[i as int].involves(p@)
                    && game_index(self@.games, p@) == i,
                None => !has_game(self@.games, p@),
            },
    {
        let mut i: usize = 0;
        while i < self.games.len()
            invariant
                self.wf(),
                i <= self.games@.len(),
                forall|j: int| 0 <= j < i ==> !(#[trigger] self@.games[j]).involves(p@),
            decreases self.games@.len() - i,
        {
            let g = &self.games[i];
            if g.x_player().same(p) || g.o_player().same(p) {
                proof {
                    lemma_game_index(self@, i as int, p@);
                }
                return Some(i);
            }
            i = i + 1;
        }
        None
    }

    fn find_stats(&self, p: &PlayerId) -> (r: Option<usize>)
        requires
            self.wf(),
        ensures
            match r {
                Some(i) => i < self.stat_users@.len() && self.stat_users@[i as int]@ == p@
                    && self@.stats.contains_key(p@) && self@.stats[p@]
                    == self.stat_values@[i as int],
                None => !self@.stats.contains_key(p@),
            },
    {
        let mut i: usize = 0;
        while i < self.stat_users.len()
            invariant
                self.wf(),
                i <= self.stat_users@.len(),
                forall|j: int| 0 <= j < i ==> (#[trigger] self.stat_users@[j])@ != p@,
            decreases self.stat_users@.len() - i,
        {
            if self.stat_users[i].same(p) {
                proof {
                    lemma_stats_at(self.stat_users@, self.stat_values@, i as int);
                }
                return Some(i);
            }
            i = i + 1;
        }
        None
    }

    /// Gives `p` zero counters unless it has some.
    fn ensure_stats(&mut self, p: &PlayerId)
        requires
            old(self).wf(),
        ensures
            final(self).wf(),
            final(self)@.games == old(self)@.games,
            final(self)@.stats == with_zero(old(self)@.stats, p@),
    {
        match self.find_stats(p) {
            Some(_) => {},
            None => {
                let d = p.duplicate();
                proof {
                    lemma_stats_push(self.stat_users@, self.stat_values@, d, zero_stats());
                }
                let ghost old_view = self@;
                self.stat_users.push(d);
                self.stat_values.push(Stats::zero());
                assert(self@.games =~= old_view.games);
                proof {
                    lemma_wf_more_stats(old_view, self@.stats);
                }
            },
        }
    }

    /// Replaces the counters at position `i`.
    fn set_stats(&mut self, i: usize, s: Stats)
        requires
            old(self).wf(),
            i < old(self).stat_users@.len(),
        ensures
            final(self).wf(),
            final(self)@.games == old(self)@.games,
            final(self)@.stats == old(self)@.stats.insert(old(self).stat_users@[i as int]@, s),
            final(self).stat_users@ == old(self).stat_users@,
    {
        proof {
            lemma_stats_update(self.stat_users@, self.stat_values@, i as int, s);
            lemma_stats_at(self.stat_users@, self.stat_values@, i as int);
        }
        let ghost old_view = self@;
        self.stat_values.set(i, s);
        assert(self@.games =~= old_view.games);
        proof {
            lemma_wf_more_stats(old_view, self@.stats);
        }
    }

    /// Adds one win to the counters of `user`.
    pub fn increment_wins(&mut self, user: &PlayerId)
        requires
            old(self).wf(),
            old(self)@.stats.contains_key(user@),
        ensures
            final(self).wf(),
            final(self)@.games == old(self)@.games,
            final(self)@.stats == old(self)@.stats.insert(user@, add_win(old(self)@.stats[user@])),
    {
        let i = match self.find_stats(user) {
            Some(i) => i,
            None => {
                return;
            },
        };
        let s = self.stat_values[i];
        self.set_stats(i, Stats { wins: increment(s.wins), losses: s.losses, ties: s.ties });
    }

    /// Adds one loss to the counters of `user`.
    pub fn increment_loses(&mut self, user: &PlayerId)
        requires
            old(self).wf(),
            old(self)@.stats.contains_key(user@),
        ensures
            final(self).wf(),
            final(self)@.games == old(self)@.games,
            final(self)@.stats == old(self)@.stats.insert(user@, add_loss(old(self)@.stats[user@])),
    {
        let i = match self.find_stats(user) {
            Some(i) => i,
            None => {
                return;
            },
        };
        let s = self.stat_values[i];
        self.set_stats(i, Stats { wins: s.wins, losses: increment(s.losses), ties: s.ties });
    }

    /// Adds one tie to the counters of `user`.
    pub fn increment_ties(&mut self, user: &PlayerId)
        requires
            old(self).wf(),
            old(self)@.stats.contains_key(user@),
        ensures
            final(self).wf(),
            final(self)@.games == old(self)@.games,
            final(self)@.stats == old(self)@.stats.insert(user@, add_tie(old(self)@.stats[user@])),
    {
        let i = match self.find_stats(user) {
            Some(i) => i,
            None => {
                return;
            },
        };
        let s = self.stat_values[i];
        self.set_stats(i, Stats { wins: s.wins, losses: s.losses, ties: increment(s.ties) });
    }

    /// Starts a match in which `caller` plays X and moves first against
    /// `challenger`, who plays O. Refused when either of them is in a match
    /// already, naming the caller when both are. Each of them gets zero counters unless it has some.
    pub fn new_game(&mut self, caller: &PlayerId, challenger: &PlayerId) -> (r: Result<
        (),
        GameError,
    >)
        requires
            old(self).wf(),
            caller@ != challenger@,
        ensures
            final(self).wf(),
            r is Err <==> (has_game(old(self)@.games, caller@) || has_game(
                old(self)@.games,
                challenger@,
            )),
            has_game(old(self)@.games, caller@) ==> r == Err::<(), GameError>(
                GameError::AlreadyInSession(Player::X),
            ),
            !has_game(old(self)@.games, caller@) && has_game(old(self)@.games, challenger@) ==> r
                == Err::<(), GameError>(GameError::AlreadyInSession(Player::O)),
            r is Err ==> final(self)@ == old(self)@,
            r is Ok ==> final(self)@.games == old(self)@.games.push(fresh(caller@, challenger@))
                && final(self)@.stats == with_zero(with_zero(old(self)@.stats, challenger@), caller@),
    {
        if self.find_game(caller).is_some() {
            return Err(GameError::AlreadyInSession(Player::X));
        }
        if self.find_game(challenger).is_some() {
            return Err(GameError::AlreadyInSession(Player::O));
        }
        self.ensure_stats(challenger);
        self.ensure_stats(caller);
        let ghost before = self@;
        let g = Game::new(caller.duplicate(), challenger.duplicate());
        self.games.push(g);
        assert(self@.games =~= before.games.push(fresh(caller@, challenger@)));
        proof {
            let v = self@;
            let n = before.games.len() as int;
            assert forall|k: int| 0 <= k < v.games.len() implies game_ok(
                v.stats,
                #[trigger] v.games[k],
            ) by {
                if k < n {
                    assert(game_ok(before.stats, before.games[k]));
                }
            }
            assert forall|a: int, b: int|
                0 <= a < v.games.len() && 0 <= b < v.games.len() && a != b implies disjoint(
                #[trigger] v.games[a],
                #[trigger] v.games[b],
            ) by {
                if a < n && b < n {
                    assert(disjoint(before.games[a], before.games[b]));
                } else if a < n {
                    assert(!before.games[a].involves(caller@));
                    assert(!before.games[a].involves(challenger@));
                } else {
                    assert(!before.games[b].involves(caller@));
                    assert(!before.games[b].involves(challenger@));
                }
            }
        }
        Ok(())
    }

    /// `caller` asks to mark the 1-based (row, col) in its match. A match
    /// that ends is removed for both players at once, and the counters of
    /// both are updated.
    pub fn play_turn(&mut self, caller: &PlayerId, row: usize, col: usize) -> (r: Result<
        MoveOutcome,
        GameError,
    >)
        requires
            old(self).wf(),
        ensures
            final(self).wf(),
            (r, final(self)@) == play_result(old(self)@, caller@, row, col),
    {
        let i = match self.find_game(caller) {
            None => {
                return Err(GameError::NoActiveSession);
            },
            Some(i) => i,
        };
        let ghost v0 = self@;
        proof {
            assert(game_ok(v0.stats, v0.games[i as int]));
            lemma_wf_remove(v0, i as int);
        }
        let mut g = self.games.remove(i);
        assert(self@.games =~= v0.games.remove(i as int));
        let res = g.apply_move(caller, row, col);
        match res {
            Err(e) => {
                self.games.insert(i, g);
                assert(self@.games =~= v0.games);
                Err(e)
            },
            Ok(MoveOutcome::Continued) => {
                self.games.insert(i, g);
                assert(self@.games =~= v0.games.update(i as int, g@));
                proof {
                    let v = self@;
                    assert forall|k: int| 0 <= k < v.games.len() implies game_ok(
                        v.stats,
                        #[trigger] v.games[k],
                    ) by {
                        if k != i {
                            assert(game_ok(v0.stats, v0.games[k]));
                        }
                    }
                    assert forall|a: int, b: int|
                        0 <= a < v.games.len() && 0 <= b < v.games.len() && a != b implies disjoint(
                        #[trigger] v.games[a],
                        #[trigger] v.games[b],
                    ) by {
                        assert(disjoint(v0.games[a], v0.games[b]));
                    }
                }
                Ok(MoveOutcome::Continued)
            },
            Ok(MoveOutcome::Won(m)) => {
                match m {
                    Player::X => {
                        self.increment_wins(g.x_player());
                        self.increment_loses(g.o_player());
                    },
                    Player::O => {
                        self.increment_wins(g.o_player());
                        self.increment_loses(g.x_player());
                    },
                }
                Ok(MoveOutcome::Won(m))
            },
            Ok(MoveOutcome::Tied) => {
                self.increment_ties(g.x_player());
                self.increment_ties(g.o_player());
                Ok(MoveOutcome::Tied)
            },
            Ok(MoveOutcome::AlreadyLost) => {
                self.increment_loses(caller);
                Ok(MoveOutcome::AlreadyLost)
            },
            Ok(MoveOutcome::AlreadyTied) => {
                self.increment_ties(caller);
                Ok(MoveOutcome::AlreadyTied)
            },
        }
    }

    /// Whether the cell at zero-based (row, col) of `board` holds `mark`
    /// and completes a line of it: its row, its column, or a diagonal that
    /// it lies on (the centre lies on both).
    pub fn has_user_won_on_turn(board: &Board, mark: Player, row: usize, col: usize) -> (r: bool)
        requires
            board.wf(),
            row < 3,
            col < 3,
        ensures
            r == wins_through(board@, row as int, col as int, mark),
    {
        board.wins(row, col, mark)
    }

    /// A well-formed registry has a well-formed view.
    pub proof fn lemma_view_wf(&self)
        requires
            self.wf(),
        ensures
            self@.wf(),
    {
    }

    /// The match of `caller`: its board, the role to move, its players.
    pub fn view_game(&self, caller: &PlayerId) -> (r: Result<&Game, GameError>)
        requires
            self.wf(),
        ensures
            !has_game(self@.games, caller@) ==> r == Err::<&Game, GameError>(
                GameError::NoActiveSession,
            ),
            has_game(self@.games, caller@) ==> r is Ok && r->Ok_0@ == self@.games[game_index(
                self@.games,
                caller@,
            )],
    {
        match self.find_game(caller) {
            Some(i) => Ok(&self.games[i]),
            None => Err(GameError::NoActiveSession),
        }
    }

    /// The counters of `user`, who must have played.
    pub fn view_user_stats(&self, user: &PlayerId) -> (r: Result<Stats, GameError>)
        requires
            self.wf(),
        ensures
            self@.stats.contains_key(user@) ==> r == Ok::<Stats, GameError>(self@.stats[user@]),
            !self@.stats.contains_key(user@) ==> r == Err::<Stats, GameError>(GameError::NoStats),
    {
        match self.find_stats(user) {
            Some(i) => Ok(self.stat_values[i]),
            None => Err(GameError::NoStats),
        }
    }

    /// Refuses a player who has never played.
    pub fn panic_if_user_does_not_have_stats(&self, user: &PlayerId) -> (r: Result<(), GameError>)
        requires
            self.wf(),
        ensures
            self@.stats.contains_key(user@) ==> r == Ok::<(), GameError>(()),
            !self@.stats.contains_key(user@) ==> r == Err::<(), GameError>(GameError::NoStats),
    {
        match self.find_stats(user) {
            Some(_) => Ok(()),
            None => Err(GameError::NoStats),
        }
    }


    /// A registry from its stored parts: the matches under way, and the
    /// identities with their counters, position by position. `None` unless
    /// the parts form a well-formed registry.
    pub fn from_parts(games: Vec<Game>, stat_users: Vec<PlayerId>, stat_values: Vec<Stats>) -> (r:
        Option<Contract>)
        ensures
            ({
                let v = ContractView {
                    games: games@.map_values(|g: Game| g@),
                    stats: stats_map(stat_users@, stat_values@),
                };
                &&& r is Some <==> (stat_users@.len() == stat_values@.len() && unique_ids(
                    stat_users@,
                ) && v.wf())
                &&& r is Some ==> r->Some_0.wf() && r->Some_0@ == v
            }),
    {
        let ghost v = ContractView {
            games: games@.map_values(|g: Game| g@),
            stats: stats_map(stat_users@, stat_values@),
        };
        if stat_users.len() != stat_values.len() {
            return None;
        }
        let stored_ok = games_stored_ok(&games, &stat_users);
        let apart = games_disjoint(&games);
        let unique = ids_unique(&stat_users);
        proof {
            if stored_ok {
                assert forall|i: int| 0 <= i < v.games.len() implies game_ok(
                    v.stats,
                    #[trigger] v.games[i],
                ) by {
                    assert(stored_game_ok(stat_users@, games@[i]@));
                }
            }
            if apart {
                assert forall|a: int, b: int|
                    0 <= a < v.games.len() && 0 <= b < v.games.len() && a != b implies disjoint(
                    #[trigger] v.games[a],
                    #[trigger] v.games[b],
                ) by {
                    assert(disjoint(games@[a]@, games@[b]@));
                }
            }
            if v.wf() {
                assert forall|i: int| 0 <= i < games@.len() implies stored_game_ok(
                    stat_users@,
                    #[trigger] games@[i]@,
                ) by {
                    assert(game_ok(v.stats, v.games[i]));
                }
                assert forall|a: int, b: int|
                    0 <= a < games@.len() && 0 <= b < games@.len() && a != b implies disjoint(
                    #[trigger] games@[a]@,
                    #[trigger] games@[b]@,
                ) by {
                    assert(disjoint(v.games[a], v.games[b]));
                }
            }
        }
        if stored_ok && apart && unique {
            Some(Contract { games, stat_users, stat_values })
        } else {
            None
        }
    }

    /// The matches under way.
    pub fn games(&self) -> (r: &Vec<Game>)
        ensures
            r@.map_values(|g: Game| g@) == self@.games,
    {
        &self.games
    }

    /// The identities that have counters and their counters, position by
    /// position.
    pub fn stat_entries(&self) -> (r: (&Vec<PlayerId>, &Vec<Stats>))
        requires
            self.wf(),
        ensures
            r.0@.len() == r.1@.len(),
            unique_ids(r.0@),
            stats_map(r.0@, r.1@) == self@.stats,
    {
        (&self.stat_users, &self.stat_values)
    }
}

} // verus!
