use tic_tac_toe::{
    check_if_placement_is_valid, storage_cost, Board, Cell, Contract, Game, GameError,
    MoveOutcome, Player, PlayerId, Stats,
};

fn id(name: &str) -> PlayerId {
    PlayerId::new(name.to_string())
}

const LINES: [[(usize, usize); 3]; 8] = [
    [(1, 1), (1, 2), (1, 3)],
    [(2, 1), (2, 2), (2, 3)],
    [(3, 1), (3, 2), (3, 3)],
    [(1, 1), (2, 1), (3, 1)],
    [(1, 2), (2, 2), (3, 2)],
    [(1, 3), (2, 3), (3, 3)],
    [(1, 1), (2, 2), (3, 3)],
    [(3, 1), (2, 2), (1, 3)],
];

fn completes_line(cells: &[(usize, usize)]) -> bool {
    LINES.iter().any(|l| l.iter().all(|c| cells.contains(c)))
}

/// Three cells off `line` that hold no line among themselves.
fn filler(line: &[(usize, usize); 3]) -> Vec<(usize, usize)> {
    let off: Vec<(usize, usize)> = (1..=3)
        .flat_map(|r| (1..=3).map(move |c| (r, c)))
        .filter(|c| !line.contains(c))
        .collect();
    for a in 0..off.len() {
        for b in a + 1..off.len() {
            for d in b + 1..off.len() {
                let pick = vec![off[a], off[b], off[d]];
                if !completes_line(&pick) {
                    return pick;
                }
            }
        }
    }
    panic!("no filler");
}

fn started() -> (Contract, PlayerId, PlayerId) {
    let mut c = Contract::new();
    let x = id("alice.near");
    let o = id("bob.near");
    assert_eq!(c.new_game(&x, &o), Ok(()));
    (c, x, o)
}

fn board_text(c: &Contract, p: &PlayerId) -> String {
    c.view_game(p).unwrap().board().render().into_iter().collect()
}

#[test]
fn every_line_wins_for_both_marks() {
    for line in LINES.iter() {
        let other = filler(line);
        // X completes the line on its third move.
        let (mut c, x, o) = started();
        for k in 0..2 {
            assert_eq!(c.play_turn(&x, line[k].0, line[k].1), Ok(MoveOutcome::Continued));
            assert_eq!(c.play_turn(&o, other[k].0, other[k].1), Ok(MoveOutcome::Continued));
        }
        assert_eq!(c.play_turn(&x, line[2].0, line[2].1), Ok(MoveOutcome::Won(Player::X)));
        assert_eq!(c.view_user_stats(&x).unwrap().wins, 1);
        assert_eq!(c.view_user_stats(&o).unwrap().losses, 1);
        // O completes the line on its third move.
        let (mut c, x, o) = started();
        for k in 0..2 {
            assert_eq!(c.play_turn(&x, other[k].0, other[k].1), Ok(MoveOutcome::Continued));
            assert_eq!(c.play_turn(&o, line[k].0, line[k].1), Ok(MoveOutcome::Continued));
        }
        assert_eq!(c.play_turn(&x, other[2].0, other[2].1), Ok(MoveOutcome::Continued));
        assert_eq!(c.play_turn(&o, line[2].0, line[2].1), Ok(MoveOutcome::Won(Player::O)));
        assert_eq!(c.view_user_stats(&o).unwrap().wins, 1);
        assert_eq!(c.view_user_stats(&x).unwrap().losses, 1);
    }
}

#[test]
fn o_completes_top_row() {
    let (mut c, x, o) = started();
    let moves = [(&x, 2, 1), (&o, 1, 1), (&x, 2, 2), (&o, 1, 2), (&x, 3, 1)];
    for (p, r, col) in moves.iter() {
        assert_eq!(c.play_turn(p, *r, *col), Ok(MoveOutcome::Continued));
    }
    assert_eq!(c.play_turn(&o, 1, 3), Ok(MoveOutcome::Won(Player::O)));
    let sx = c.view_user_stats(&x).unwrap();
    let so = c.view_user_stats(&o).unwrap();
    assert_eq!((sx.wins, sx.losses, sx.ties), (0, 1, 0));
    assert_eq!((so.wins, so.losses, so.ties), (1, 0, 0));
}

#[test]
fn full_draw_ties_on_ninth_move() {
    let (mut c, x, o) = started();
    let moves = [
        (&x, 1, 1),
        (&o, 1, 2),
        (&x, 1, 3),
        (&o, 2, 2),
        (&x, 2, 1),
        (&o, 2, 3),
        (&x, 3, 2),
        (&o, 3, 1),
    ];
    for (k, (p, r, col)) in moves.iter().enumerate() {
        assert_eq!(c.play_turn(p, *r, *col), Ok(MoveOutcome::Continued));
        assert_eq!(c.view_game(&x).unwrap().turns_played() as usize, k + 1);
    }
    assert_eq!(c.play_turn(&x, 3, 3), Ok(MoveOutcome::Tied));
    for p in [&x, &o] {
        let s = c.view_user_stats(p).unwrap();
        assert_eq!((s.wins, s.losses, s.ties), (0, 0, 1));
    }
}

#[test]
fn resolution_clears_both_players() {
    let (mut c, x, o) = started();
    for (p, r, col) in [(&x, 1, 1), (&o, 2, 1), (&x, 1, 2), (&o, 2, 2)] {
        assert_eq!(c.play_turn(p, r, col), Ok(MoveOutcome::Continued));
    }
    assert_eq!(c.play_turn(&x, 1, 3), Ok(MoveOutcome::Won(Player::X)));
    assert!(matches!(c.view_game(&x), Err(GameError::NoActiveSession)));
    assert!(matches!(c.view_game(&o), Err(GameError::NoActiveSession)));
    assert_eq!(c.play_turn(&o, 3, 3), Err(GameError::NoActiveSession));
    assert_eq!(c.new_game(&o, &x), Ok(()));
}

#[test]
fn turns_played_grows_by_one_per_accepted_move() {
    let (mut c, x, o) = started();
    assert_eq!(c.view_game(&x).unwrap().turns_played(), 0);
    assert_eq!(c.play_turn(&x, 2, 2), Ok(MoveOutcome::Continued));
    assert_eq!(c.view_game(&x).unwrap().turns_played(), 1);
    assert_eq!(c.play_turn(&o, 2, 2), Err(GameError::PositionOccupied(2, 2)));
    assert_eq!(c.play_turn(&o, 0, 2), Err(GameError::PositionTooLow(0, 2)));
    assert_eq!(c.play_turn(&x, 1, 1), Err(GameError::NotYourTurn));
    assert_eq!(c.view_game(&x).unwrap().turns_played(), 1);
    assert_eq!(c.play_turn(&o, 1, 1), Ok(MoveOutcome::Continued));
    assert_eq!(c.view_game(&o).unwrap().turns_played(), 2);
}

#[test]
fn move_out_of_turn_is_refused() {
    let (mut c, x, o) = started();
    let before = board_text(&c, &x);
    assert_eq!(c.play_turn(&o, 1, 1), Err(GameError::NotYourTurn));
    assert_eq!(board_text(&c, &x), before);
    assert_eq!(c.play_turn(&x, 1, 1), Ok(MoveOutcome::Continued));
    let before = board_text(&c, &x);
    assert_eq!(c.play_turn(&x, 2, 2), Err(GameError::NotYourTurn));
    assert_eq!(board_text(&c, &x), before);
    assert_eq!(c.view_game(&x).unwrap().turn(), Player::O);
}

#[test]
fn coordinates_outside_one_to_three_are_refused() {
    let (mut c, x, o) = started();
    let before = board_text(&c, &x);
    assert_eq!(c.play_turn(&x, 0, 1), Err(GameError::PositionTooLow(0, 1)));
    assert_eq!(c.play_turn(&x, 1, 0), Err(GameError::PositionTooLow(1, 0)));
    assert_eq!(c.play_turn(&x, 4, 1), Err(GameError::PositionTooHigh(4, 1)));
    assert_eq!(c.play_turn(&x, 3, 4), Err(GameError::PositionTooHigh(3, 4)));
    assert_eq!(c.play_turn(&x, 0, 4), Err(GameError::PositionTooHigh(0, 4)));
    assert_eq!(board_text(&c, &x), before);
    assert_eq!(c.view_game(&x).unwrap().turns_played(), 0);
    assert_eq!(c.play_turn(&x, 1, 1), Ok(MoveOutcome::Continued));
    assert_eq!(c.play_turn(&o, 3, 3), Ok(MoveOutcome::Continued));
}

#[test]
fn placement_check() {
    assert_eq!(check_if_placement_is_valid(1, 3), Ok(()));
    assert_eq!(check_if_placement_is_valid(3, 1), Ok(()));
    assert_eq!(check_if_placement_is_valid(4, 0), Err(GameError::PositionTooHigh(4, 0)));
    assert_eq!(check_if_placement_is_valid(0, 3), Err(GameError::PositionTooLow(0, 3)));
}

#[test]
fn no_tie_before_ninth_move() {
    let (mut c, x, o) = started();
    let moves = [
        (&x, 2, 2),
        (&o, 1, 1),
        (&x, 1, 2),
        (&o, 3, 2),
        (&x, 2, 1),
        (&o, 2, 3),
        (&x, 1, 3),
        (&o, 3, 1),
    ];
    for (p, r, col) in moves.iter() {
        assert_eq!(c.play_turn(p, *r, *col), Ok(MoveOutcome::Continued));
    }
    assert_eq!(c.play_turn(&x, 3, 3), Ok(MoveOutcome::Tied));
}

#[test]
fn starting_twice_is_refused() {
    let (mut c, x, o) = started();
    let z = id("carol.near");
    assert_eq!(c.new_game(&x, &z), Err(GameError::AlreadyInSession(Player::X)));
    assert_eq!(c.new_game(&z, &o), Err(GameError::AlreadyInSession(Player::O)));
    assert_eq!(c.new_game(&o, &x), Err(GameError::AlreadyInSession(Player::X)));
    assert!(matches!(c.view_user_stats(&z), Err(GameError::NoStats)));
    assert_eq!(c.panic_if_user_does_not_have_stats(&z), Err(GameError::NoStats));
    assert_eq!(c.panic_if_user_does_not_have_stats(&x), Ok(()));
    assert!(matches!(c.view_game(&z), Err(GameError::NoActiveSession)));
}

#[test]
fn fresh_players_have_zero_counters() {
    let (c, x, o) = started();
    for p in [&x, &o] {
        let s = c.view_user_stats(p).unwrap();
        assert_eq!((s.wins, s.losses, s.ties), (0, 0, 0));
    }
    let g = c.view_game(&o).unwrap();
    assert_eq!(g.turn(), Player::X);
    assert_eq!(g.x_player(), &x);
    assert_eq!(g.o_player(), &o);
    assert!(!g.is_complete());
}

#[test]
fn counters_increment_one_at_a_time() {
    let (mut c, x, _o) = started();
    c.increment_wins(&x);
    c.increment_loses(&x);
    c.increment_loses(&x);
    c.increment_ties(&x);
    let s = c.view_user_stats(&x).unwrap();
    assert_eq!((s.wins, s.losses, s.ties), (1, 2, 1));
}

#[test]
fn won_match_resolves_late_move_as_loss() {
    let mut g = Game::new(id("a"), id("b"));
    let a = id("a");
    let b = id("b");
    for (p, r, col) in [(&a, 1, 1), (&b, 2, 1), (&a, 1, 2), (&b, 2, 2)] {
        assert_eq!(g.apply_move(p, r, col), Ok(MoveOutcome::Continued));
    }
    assert_eq!(g.apply_move(&a, 1, 3), Ok(MoveOutcome::Won(Player::X)));
    assert!(g.is_complete());
    assert_eq!(g.apply_move(&b, 3, 3), Ok(MoveOutcome::AlreadyLost));
    assert_eq!(g.turns_played(), 5);
}

#[test]
fn full_board_resolves_late_move_as_tie() {
    let mut g = Game::new(id("a"), id("b"));
    let a = id("a");
    let b = id("b");
    let moves = [
        (&a, 1, 1),
        (&b, 1, 2),
        (&a, 1, 3),
        (&b, 2, 2),
        (&a, 2, 1),
        (&b, 2, 3),
        (&a, 3, 2),
        (&b, 3, 1),
    ];
    for (p, r, col) in moves.iter() {
        assert_eq!(g.apply_move(p, *r, *col), Ok(MoveOutcome::Continued));
    }
    assert_eq!(g.apply_move(&a, 3, 3), Ok(MoveOutcome::Tied));
    assert!(!g.is_complete());
    assert_eq!(g.apply_move(&b, 1, 1), Ok(MoveOutcome::AlreadyTied));
    assert_eq!(g.turns_played(), 9);
}

#[test]
fn board_cells_and_wins() {
    let mut b = Board::new();
    assert_eq!(b.get(0, 0), Cell::Empty);
    assert!(!b.is_occupied(1, 2));
    b.set(1, 2, Player::O);
    assert_eq!(b.get(1, 2), Cell::Mark(Player::O));
    assert!(b.is_occupied(1, 2));
    b.set(0, 2, Player::O);
    b.set(2, 2, Player::O);
    assert!(b.wins(1, 2, Player::O));
    assert!(!b.wins(1, 2, Player::X));
    assert!(!b.wins(1, 1, Player::O));
    b.set(1, 1, Player::X);
    b.set(0, 0, Player::X);
    assert!(!b.wins(1, 1, Player::X));
    b.set(2, 2, Player::X);
    assert!(b.wins(0, 0, Player::X));
    assert!(!b.wins(0, 2, Player::O));
}

#[test]
fn board_renders_cells_as_symbols() {
    let mut b = Board::new();
    b.set(0, 0, Player::X);
    b.set(1, 1, Player::O);
    b.set(2, 2, Player::X);
    let text: String = b.render().into_iter().collect();
    assert_eq!(
        text,
        "\n X |   |   \n-----------\n   | O |   \n-----------\n   |   | X "
    );
    assert_eq!(Cell::Empty.symbol(), ' ');
    assert_eq!(Player::X.other(), Player::O);
}

#[test]
fn storage_refund_amounts() {
    assert_eq!(Contract::refund_excess_storage(100, 110, 10, 1000), Ok(900));
    assert_eq!(Contract::refund_excess_storage(100, 110, 10, 101), Ok(0));
    assert_eq!(Contract::refund_excess_storage(100, 110, 10, 102), Ok(2));
    assert_eq!(Contract::refund_excess_storage(100, 110, 10, 100), Ok(0));
    assert_eq!(
        Contract::refund_excess_storage(100, 110, 10, 99),
        Err(GameError::InsufficientDeposit)
    );
    assert_eq!(
        Contract::refund_excess_storage(0, 2, u128::MAX, u128::MAX),
        Err(GameError::InsufficientDeposit)
    );
    assert_eq!(storage_cost(0, 2, u128::MAX), None);
    assert_eq!(storage_cost(5, 8, 7), Some(21));
}

fn cells(text: &str) -> Vec<Cell> {
    text.chars()
        .map(|ch| match ch {
            'X' => Cell::Mark(Player::X),
            'O' => Cell::Mark(Player::O),
            _ => Cell::Empty,
        })
        .collect()
}

#[test]
fn board_from_cells_counts_and_lines() {
    assert!(Board::from_cells(cells("XO")).is_none());
    let b = Board::from_cells(cells("XXXOO    ")).unwrap();
    assert_eq!(b.filled_count(), 5);
    assert!(b.has_line_of(Player::X));
    assert!(!b.has_line_of(Player::O));
    let b = Board::from_cells(cells("O X O X O")).unwrap();
    assert_eq!(b.filled_count(), 5);
    assert!(b.has_line_of(Player::O));
    assert_eq!(b.cells().len(), 9);
}

#[test]
fn game_from_parts_checks_the_fields() {
    let make = |text: &str, complete: bool, turns: u8, o: &str| {
        Game::from_parts(
            id("a"),
            id(o),
            Player::O,
            Board::from_cells(cells(text)).unwrap(),
            complete,
            turns,
        )
    };
    let g = make("X        ", false, 1, "b").unwrap();
    assert_eq!(g.turn(), Player::O);
    assert_eq!(g.turns_played(), 1);
    assert!(make("X        ", false, 2, "b").is_none());
    assert!(make("X        ", false, 1, "a").is_none());
    assert!(make("XXXOO    ", false, 5, "b").is_none());
    assert!(make("XXXOO    ", true, 5, "b").is_some());
}

#[test]
fn registry_from_parts_round_trip_and_checks() {
    let (mut c, x, o) = started();
    assert_eq!(c.play_turn(&x, 2, 2), Ok(MoveOutcome::Continued));
    let games: Vec<Game> = c.games().to_vec();
    let (users, values) = c.stat_entries();
    let (users, values) = (users.clone(), values.clone());
    let mut back = Contract::from_parts(games.clone(), users.clone(), values.clone()).unwrap();
    assert_eq!(board_text(&back, &o), board_text(&c, &o));
    assert_eq!(back.play_turn(&o, 1, 1), Ok(MoveOutcome::Continued));
    // Counters listed twice.
    let mut twice = users.clone();
    twice.push(x.clone());
    let mut more = values.clone();
    more.push(Stats { wins: 0, losses: 0, ties: 0 });
    assert!(Contract::from_parts(games.clone(), twice, more).is_none());
    // Lengths that differ.
    assert!(Contract::from_parts(games.clone(), users.clone(), Vec::new()).is_none());
    // A match whose players have no counters.
    assert!(Contract::from_parts(games.clone(), Vec::new(), Vec::new()).is_none());
    // One player in two matches.
    let mut doubled = games.clone();
    doubled.push(games[0].clone());
    assert!(Contract::from_parts(doubled, users, values).is_none());
}

fn won(rows: [&str; 3], mark: Player, row: usize, col: usize) -> bool {
    let b = Board::from_cells(cells(&rows.concat())).unwrap();
    Contract::has_user_won_on_turn(&b, mark, row, col)
}

#[test]
fn win_check_through_rows_columns_and_diagonals() {
    assert!(won(["XXX", "OO ", "   "], Player::X, 0, 2));
    assert!(won(["OXX", "OX ", "O  "], Player::O, 2, 0));
    assert!(won(["X O", " XO", "  X"], Player::X, 2, 2));
    assert!(won(["O X", " X ", "X O"], Player::X, 1, 1));
    assert!(won(["XXO", " O ", "O X"], Player::O, 2, 0));
}

#[test]
fn win_check_ignores_lines_not_through_the_cell() {
    assert!(!won(["XXO", " X ", "O X"], Player::X, 0, 1));
    assert!(!won(["OOO", "XX ", "X  "], Player::X, 2, 0));
    assert!(!won(["XOX", "XOO", "OXX"], Player::X, 2, 2));
    assert!(!won(["XXX", "OO ", "   "], Player::O, 0, 2));
}
