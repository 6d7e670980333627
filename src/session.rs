use vstd::prelude::*;
use crate::board::{
    cell_at, empty_board, filled, has_line, idx, lemma_filled_empty, lemma_filled_mark,
    lemma_line_through_move, wins_through, Board, Cell, Player,
};

verus! {

/// The authenticated identity of a player, an account name.
#[derive(Clone, Debug, PartialEq, Eq)]
pub struct PlayerId {
    pub name: String,
}

impl View for PlayerId {
    type V = Seq<char>;

    open spec fn view(&self) -> Seq<char> {
        self.name@
    }
}

impl PlayerId {
    pub fn new(name: String) -> (r: PlayerId)
        ensures
            r@ == name@,
    {
        PlayerId { name }
    }

    /// Whether both identities name the same account.
    pub fn same(&self, other: &PlayerId) -> (r: bool)
        ensures
            r == (self@ == other@),
    {
        self.name == other.name
    }

    /// A second value of this identity.
    pub fn duplicate(&self) -> (r: PlayerId)
        ensures
            r@ == self@,
    {
        PlayerId { name: self.name.clone() }
    }
}

/// What the rules refuse, and why.
#[derive(Clone, Copy, Debug, PartialEq, Eq, Structural)]
pub enum GameError {
    /// A player already has a match that is not over: the one who would
    /// have played X (the caller) or O (the challenger).
    AlreadyInSession(Player),
    /// The caller has no match that is not over.
    NoActiveSession,
    /// A coordinate, given 1-based as (row, col), is above 3.
    PositionTooHigh(usize, usize),
    /// A coordinate, given 1-based as (row, col), is below 1.
    PositionTooLow(usize, usize),
    /// The cell, given 1-based as (row, col), already holds a mark.
    PositionOccupied(usize, usize),
    /// The caller is not the player whose move is pending.
    NotYourTurn,
    /// The player has never played.
    NoStats,
    /// The attached deposit does not cover the storage cost.
    InsufficientDeposit,
}

/// What a call of the move operation led to.
#[derive(Clone, Copy, Debug, PartialEq, Eq, Structural)]
pub enum MoveOutcome {
    /// The move was made and the match goes on.
    Continued,
    /// The move completed a line of the given mark.
    Won(Player),
    /// The move filled the last cell without completing a line.
    Tied,
    /// The match had already been won by the opponent: no move was made.
    AlreadyLost,
    /// The board was already full: no move was made.
    AlreadyTied,
}

/// The mathematical state of a match.
pub struct GameView {
    pub x: Seq<char>,
    pub o: Seq<char>,
    pub turn: Player,
    pub board: Seq<Cell>,
    pub complete: bool,
    pub turns: nat,
}

impl GameView {
    /// The identity bound to the role whose move is pending.
    pub open spec fn turn_id(self) -> Seq<char> {
        match self.turn {
            Player::X => self.x,
            Player::O => self.o,
        }
    }

    pub open spec fn involves(self, p: Seq<char>) -> bool {
        self.x == p || self.o == p
    }

    /// The identity that is not `p` among the two players.
    pub open spec fn opponent_of(self, p: Seq<char>) -> Seq<char> {
        if self.x == p {
            self.o
        } else {
            self.x
        }
    }

    /// The identity bound to role `m`.
    pub open spec fn id_of(self, m: Player) -> Seq<char> {
        match m {
            Player::X => self.x,
            Player::O => self.o,
        }
    }

    /// Exactly `turns` cells are marked, the players are distinct, and a
    /// match that is not over holds no complete line.
    pub open spec fn wf(self) -> bool {
        &&& self.board.len() == 9
        &&& self.turns <= 9
        &&& filled(self.board) == self.turns
        &&& self.x != self.o
        &&& !self.complete ==> !has_line(self.board, Player::X) && !has_line(
            self.board,
            Player::O,
        )
    }
}

/// A fresh match: empty board, `x` to move.
pub open spec fn fresh(x: Seq<char>, o: Seq<char>) -> GameView {
    GameView { x, o, turn: Player::X, board: empty_board(), complete: false, turns: 0 }
}

/// The role whose move is pending marks zero-based (row, col).
pub open spec fn step(g: GameView, row: int, col: int) -> (MoveOutcome, GameView) {
    let m = g.turn;
    let b = g.board.update(idx(row, col), Cell::Mark(m));
    let t = g.turns + 1;
    if wins_through(b, row, col, m) {
        (
            MoveOutcome::Won(m),
            GameView { x: g.x, o: g.o, turn: m, board: b, complete: true, turns: t },
        )
    } else if t == 9 {
        (
            MoveOutcome::Tied,
            GameView { x: g.x, o: g.o, turn: m, board: b, complete: false, turns: t },
        )
    } else {
        (
            MoveOutcome::Continued,
            GameView { x: g.x, o: g.o, turn: m.opponent(), board: b, complete: false, turns: t },
        )
    }
}

/// The answer to `caller` asking to mark the 1-based (row, col) of match `g`,
/// and the match afterwards. Checks come in this order: a match already won,
/// a full board, the turn, too high, too low, an occupied cell.
pub open spec fn move_result(g: GameView, caller: Seq<char>, row: usize, col: usize) -> (
    Result<MoveOutcome, GameError>,
    GameView,
) {
    if g.complete {
        (Ok(MoveOutcome::AlreadyLost), g)
    } else if g.turns >= 9 {
        (Ok(MoveOutcome::AlreadyTied), g)
    } else if caller != g.turn_id() {
        (Err(GameError::NotYourTurn), g)
    } else if row > 3 || col > 3 {
        (Err(GameError::PositionTooHigh(row, col)), g)
    } else if row < 1 || col < 1 {
        (Err(GameError::PositionTooLow(row, col)), g)
    } else if cell_at(g.board, row - 1, col - 1) != Cell::Empty {
        (Err(GameError::PositionOccupied(row, col)), g)
    } else {
        let (o, g2) = step(g, row - 1, col - 1);
        (Ok(o), g2)
    }
}

/// A move made on a well-formed match leaves it well-formed.
pub proof fn lemma_step_wf(g: GameView, row: int, col: int)
    requires
        g.wf(),
        !g.complete,
        g.turns < 9,
        0 <= row < 3,
        0 <= col < 3,
        cell_at(g.board, row, col) == Cell::Empty,
    ensures
        step(g, row, col).1.wf(),
{
    let m = g.turn;
    lemma_filled_mark(g.board, idx(row, col), Cell::Mark(m));
    lemma_line_through_move(g.board, row, col, m);
    assert(m == Player::X || m == Player::O);
}

/// The move of `caller` at 1-based (row, col) is accepted: the match is
/// under way, it is the caller's turn, the cell exists and is empty.
pub open spec fn accepts(g: GameView, caller: Seq<char>, row: usize, col: usize) -> bool {
    &&& !g.complete
    &&& g.turns < 9
    &&& caller == g.turn_id()
    &&& 1 <= row <= 3
    &&& 1 <= col <= 3
    &&& cell_at(g.board, row - 1, col - 1) == Cell::Empty
}

/// Each accepted move adds exactly one to the number of turns played; any
/// other request leaves it as it was, so it never decreases.
pub proof fn lemma_turns_advance_by_one(g: GameView, caller: Seq<char>, row: usize, col: usize)
    ensures
        accepts(g, caller, row, col) ==> move_result(g, caller, row, col).1.turns == g.turns + 1,
        !accepts(g, caller, row, col) ==> move_result(g, caller, row, col).1 == g,
        move_result(g, caller, row, col).1.turns >= g.turns,
{
}

/// On a well-formed match, an accepted move wins, for the role that made
/// it, exactly when it leaves a complete line of that role on the board; it
/// never leaves a complete line of the other role.
pub proof fn lemma_win_iff_line(g: GameView, caller: Seq<char>, row: usize, col: usize)
    requires
        g.wf(),
        accepts(g, caller, row, col),
    ensures
        move_result(g, caller, row, col).0 == Ok::<MoveOutcome, GameError>(MoveOutcome::Won(g.turn))
            <==> has_line(move_result(g, caller, row, col).1.board, g.turn),
        move_result(g, caller, row, col).0 is Ok && move_result(g, caller, row, col).0->Ok_0 is Won
            ==> move_result(g, caller, row, col).0->Ok_0->Won_0 == g.turn,
        !has_line(move_result(g, caller, row, col).1.board, g.turn.opponent()),
{
    lemma_line_through_move(g.board, row - 1, col - 1, g.turn);
    assert(g.turn == Player::X || g.turn == Player::O);
}

/// No request clears or changes a marked cell.
pub proof fn lemma_marks_persist(g: GameView, caller: Seq<char>, row: usize, col: usize, k: int)
    requires
        g.wf(),
        0 <= k < 9,
        g.board[k] != Cell::Empty,
    ensures
        move_result(g, caller, row, col).1.board[k] == g.board[k],
{
}

/// A request by the player whose turn it is not is refused with
/// `NotYourTurn` and changes nothing.
pub proof fn lemma_out_of_turn(g: GameView, caller: Seq<char>, row: usize, col: usize)
    requires
        !g.complete,
        g.turns < 9,
        caller != g.turn_id(),
    ensures
        move_result(g, caller, row, col) == (Err::<MoveOutcome, GameError>(GameError::NotYourTurn), g),
{
}

/// From the player whose turn it is, a coordinate above 3 is refused with
/// `PositionTooHigh`, one below 1 with `PositionTooLow`, and both change
/// nothing; coordinates in `1..=3` are refused for neither reason.
pub proof fn lemma_position_range(g: GameView, caller: Seq<char>, row: usize, col: usize)
    requires
        !g.complete,
        g.turns < 9,
        caller == g.turn_id(),
    ensures
        (row > 3 || col > 3) ==> move_result(g, caller, row, col) == (Err::<MoveOutcome, GameError>(
            GameError::PositionTooHigh(row, col),
        ), g),
        (row <= 3 && col <= 3 && (row < 1 || col < 1)) ==> move_result(g, caller, row, col) == (Err::<
            MoveOutcome,
            GameError,
        >(GameError::PositionTooLow(row, col)), g),
        (1 <= row <= 3 && 1 <= col <= 3) ==> move_result(g, caller, row, col).0 != Err::<
            MoveOutcome,
            GameError,
        >(GameError::PositionTooHigh(row, col)) && move_result(g, caller, row, col).0 != Err::<
            MoveOutcome,
            GameError,
        >(GameError::PositionTooLow(row, col)),
{
}

/// On a well-formed match, a move ties exactly when it is accepted, is the
/// ninth, and completes no line; so never before the ninth move.
pub proof fn lemma_tie_on_ninth_move(g: GameView, caller: Seq<char>, row: usize, col: usize)
    requires
        g.wf(),
    ensures
        move_result(g, caller, row, col).0 == Ok::<MoveOutcome, GameError>(MoveOutcome::Tied) <==> (
        accepts(g, caller, row, col) && g.turns + 1 == 9 && !has_line(
            move_result(g, caller, row, col).1.board,
            g.turn,
        )),
        move_result(g, caller, row, col).0 == Ok::<MoveOutcome, GameError>(MoveOutcome::Tied)
            ==> move_result(g, caller, row, col).1.turns == 9,
{
    if accepts(g, caller, row, col) {
        lemma_win_iff_line(g, caller, row, col);
    }
}

/// Validates a 1-based placement: each coordinate must lie in `1..=3`.
/// A coordinate above 3 is reported before one below 1.
pub fn check_if_placement_is_valid(row: usize, col: usize) -> (r: Result<(), GameError>)
    ensures
        (row > 3 || col > 3) ==> r == Err::<(), GameError>(GameError::PositionTooHigh(row, col)),
        (row <= 3 && col <= 3 && (row < 1 || col < 1)) ==> r == Err::<(), GameError>(
            GameError::PositionTooLow(row, col),
        ),
        (1 <= row <= 3 && 1 <= col <= 3) ==> r == Ok::<(), GameError>(()),
{
    if row > 3 || col > 3 {
        Err(GameError::PositionTooHigh(row, col))
    } else if row < 1 || col < 1 {
        Err(GameError::PositionTooLow(row, col))
    } else {
        Ok(())
    }
}

/// One match between two players.
#[derive(Clone, Debug)]
pub struct Game {
    users_turn: Player,
    x_player: PlayerId,
    o_player: PlayerId,
    board: Board,
    game_complete_status: bool,
    number_of_turns_played: u8,
}

impl View for Game {
    type V = GameView;

    closed spec fn view(&self) -> GameView {
        GameView {
            x: self.x_player@,
            o: self.o_player@,
            turn: self.users_turn,
            board: self.board@,
            complete: self.game_complete_status,
            turns: self.number_of_turns_played as nat,
        }
    }
}

impl Game {
    /// A fresh match in which `x_player` moves first.
    pub fn new(x_player: PlayerId, o_player: PlayerId) -> (g: Game)
        requires
            x_player@ != o_player@,
        ensures
            g@ == fresh(x_player@, o_player@),
            g@.wf(),
    {
        let board = Board::new();
        proof {
            lemma_filled_empty(board@);
        }
        Game {
            users_turn: Player::X,
            x_player,
            o_player,
            board,
            game_complete_status: false,
            number_of_turns_played: 0,
        }
    }

    /// `caller` asks to mark the 1-based (row, col). On a match that is
    /// already over nothing is marked: the caller has lost, or tied when the
    /// board is full.
    pub fn apply_move(&mut self, caller: &PlayerId, row: usize, col: usize) -> (r: Result<
        MoveOutcome,
        GameError,
    >)
        requires
            old(self)@.wf(),
        ensures
            (r, final(self)@) == move_result(old(self)@, caller@, row, col),
            final(self)@.wf(),
    {
        if self.game_complete_status {
            return Ok(MoveOutcome::AlreadyLost);
        }
        if self.number_of_turns_played >= 9 {
            return Ok(MoveOutcome::AlreadyTied);
        }
        let mover = self.users_turn;
        let on_turn = match mover {
            Player::X => caller.same(&self.x_player),
            Player::O => caller.same(&self.o_player),
        };
        if !on_turn {
            return Err(GameError::NotYourTurn);
        }
        match check_if_placement_is_valid(row, col) {
            Err(e) => {
                return Err(e);
            },
            Ok(()) => {},
        }
        let r0 = row - 1;
        let c0 = col - 1;
        if self.board.is_occupied(r0, c0) {
            return Err(GameError::PositionOccupied(row, col));
        }
        proof {
            lemma_step_wf(self@, r0 as int, c0 as int);
        }
        self.board.set(r0, c0, mover);
        self.number_of_turns_played = self.number_of_turns_played + 1;
        if self.board.wins(r0, c0, mover) {
            self.game_complete_status = true;
            Ok(MoveOutcome::Won(mover))
        } else if self.number_of_turns_played == 9 {
            Ok(MoveOutcome::Tied)
        } else {
            self.users_turn = mover.other();
            Ok(MoveOutcome::Continued)
        }
    }

    pub fn board(&self) -> (b: &Board)
        ensures
            b@ == self@.board,
    {
        &self.board
    }

    /// The role whose move is pending.
    pub fn turn(&self) -> (t: Player)
        ensures
            t == self@.turn,
    {
        self.users_turn
    }

    /// Whether the match has been won.
    pub fn is_complete(&self) -> (c: bool)
        ensures
            c == self@.complete,
    {
        self.game_complete_status
    }

    pub fn turns_played(&self) -> (n: u8)
        ensures
            n == self@.turns,
    {
        self.number_of_turns_played
    }

    pub fn x_player(&self) -> (p: &PlayerId)
        ensures
            p@ == self@.x,
    {
        &self.x_player
    }

    pub fn o_player(&self) -> (p: &PlayerId)
        ensures
            p@ == self@.o,
    {
        &self.o_player
    }

    /// Whether the match is well-formed: exactly `turns` cells marked, at
    /// most nine turns, distinct players, and no complete line unless won.
    pub fn check(&self) -> (r: bool)
        ensures
            r == self@.wf(),
    {
        if self.board.cells().len() != 9 {
            return false;
        }
        if self.number_of_turns_played > 9 {
            return false;
        }
        if self.board.filled_count() != self.number_of_turns_played {
            return false;
        }
        if self.x_player.same(&self.o_player) {
            return false;
        }
        if !self.game_complete_status && (self.board.has_line_of(Player::X)
            || self.board.has_line_of(Player::O)) {
            return false;
        }
        true
    }

    /// A match from its stored fields; `None` unless they form a
    /// well-formed match.
    pub fn from_parts(
        x_player: PlayerId,
        o_player: PlayerId,
        users_turn: Player,
        board: Board,
        game_complete_status: bool,
        number_of_turns_played: u8,
    ) -> (r: Option<Game>)
        ensures
            ({
                let v = GameView {
                    x: x_player@,
                    o: o_player@,
                    turn: users_turn,
                    board: board@,
                    complete: game_complete_status,
                    turns: number_of_turns_played as nat,
                };
                &&& r is Some <==> v.wf()
                &&& r is Some ==> r->Some_0@ == v
            }),
    {
        let g = Game {
            users_turn,
            x_player,
            o_player,
            board,
            game_complete_status,
            number_of_turns_played,
        };
        if g.check() {
            Some(g)
        } else {
            None
        }
    }

}

} // verus!
