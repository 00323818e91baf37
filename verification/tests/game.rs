use fourmation_core::Action;
use fourmation_core::Board;
use fourmation_core::Player;
use fourmation_core::Position;
use fourmation_core::State;
use fourmation_core::StepError;

fn pos(row: u64, col: u64) -> Position {
    Position::new(row * 7 + col)
}

fn words(cells: &[u64]) -> u64 {
    cells.iter().fold(0, |acc, p| acc | (1u64 << p))
}

#[test]
fn opponent_swaps_and_is_involutive() {
    assert_eq!(Player::R.opponent(), Player::B);
    assert_eq!(Player::B.opponent(), Player::R);
    assert_eq!(Player::R.opponent().opponent(), Player::R);
    assert_eq!(Player::B.opponent().opponent(), Player::B);
}

#[test]
fn empty_state_starts_with_r_and_open_board() {
    let s = State::from_empty();
    assert_eq!(s.player(), Player::R);
    assert_eq!(s.r_board.to_u64(), 0);
    assert_eq!(s.b_board.to_u64(), 0);
    assert!(s.previous_action.is_none());
    assert_eq!(s.empty_board().to_u64(), 0x1FFFFFFFFFFFF);
    assert_eq!(s.next_action().len(), 49);
}

#[test]
fn scenario_first_move_in_the_centre() {
    let s0 = State::from_empty();
    let action = Action { player: Player::R, position: pos(3, 3) };
    let (s1, done) = s0.step(&action).expect("first move is legal");
    assert!(s1.r_board.get(pos(3, 3)));
    assert!(!s1.b_board.get(pos(3, 3)));
    assert_eq!(s1.previous_action, Some(action));
    assert_eq!(s1.previous_action.unwrap().player, Player::R);
    assert!(!done);
    assert_eq!(s1.player(), Player::B);
}

#[test]
fn scenario_non_adjacent_reply_is_rejected() {
    let s0 = State::from_empty();
    let (s1, _) = s0.step(&Action { player: Player::R, position: pos(3, 3) }).unwrap();
    let r = s1.step(&Action { player: Player::B, position: pos(0, 0) });
    assert_eq!(r, Err(StepError::IllegalPosition));
    // the rejected step left the state untouched
    assert_eq!(s1.r_board.to_u64(), 1u64 << 24);
    assert_eq!(s1.b_board.to_u64(), 0);
    assert_eq!(s1.player(), Player::B);
}

#[test]
fn scenario_adjacent_reply_succeeds() {
    let s0 = State::from_empty();
    let (s1, _) = s0.step(&Action { player: Player::R, position: pos(3, 3) }).unwrap();
    let (s2, done) = s1.step(&Action { player: Player::B, position: pos(3, 4) }).expect(
        "adjacent reply is legal",
    );
    assert!(!done);
    assert!(s2.b_board.get(pos(3, 4)));
    assert_eq!(s2.player(), Player::R);
}

#[test]
fn out_of_turn_move_is_rejected() {
    let s0 = State::from_empty();
    let r = s0.step(&Action { player: Player::B, position: pos(3, 3) });
    assert_eq!(r, Err(StepError::WrongTurn));
    let (s1, _) = s0.step(&Action { player: Player::R, position: pos(3, 3) }).unwrap();
    let r = s1.step(&Action { player: Player::R, position: pos(3, 4) });
    assert_eq!(r, Err(StepError::WrongTurn));
}

#[test]
fn occupied_cell_is_rejected_before_adjacency() {
    let s0 = State::from_empty();
    let (s1, _) = s0.step(&Action { player: Player::R, position: pos(3, 3) }).unwrap();
    // occupied and also non-adjacent: occupancy is reported first
    let r = s1.step(&Action { player: Player::B, position: pos(3, 3) });
    assert_eq!(r, Err(StepError::Occupied));
}

#[test]
fn scenario_fourth_stone_in_a_row_wins() {
    // R owns (0,0) (0,1) (0,2); B moved last at (1,3), adjacent to (0,3)
    let s = State {
        r_board: Board::new(words(&[0, 1, 2])),
        b_board: Board::new(words(&[10])),
        previous_action: Some(Action { player: Player::B, position: pos(1, 3) }),
    };
    let (s1, done) = s.step(&Action { player: Player::R, position: pos(0, 3) }).expect(
        "adjacent completion is legal",
    );
    assert!(done);
    assert!(s1.r_board.get(pos(0, 3)));
}

#[test]
fn three_in_a_row_does_not_win() {
    let s = State {
        r_board: Board::new(words(&[0, 1])),
        b_board: Board::new(words(&[10])),
        previous_action: Some(Action { player: Player::B, position: pos(1, 3) }),
    };
    let (_, done) = s.step(&Action { player: Player::R, position: pos(0, 2) }).expect(
        "adjacent move is legal",
    );
    assert!(!done);
}

#[test]
fn vertical_line_wins() {
    // R owns (0,3) (1,3) (2,3); B moved last at (3,4), adjacent to (3,3)
    let s = State {
        r_board: Board::new(words(&[3, 10, 17])),
        b_board: Board::new(words(&[25])),
        previous_action: Some(Action { player: Player::B, position: pos(3, 4) }),
    };
    let (_, done) = s.step(&Action { player: Player::R, position: pos(3, 3) }).unwrap();
    assert!(done);
}

#[test]
fn diagonal_line_wins() {
    // R owns (0,0) (1,1) (2,2); B moved last at (2,3), adjacent to (3,3)
    let s = State {
        r_board: Board::new(words(&[0, 8, 16])),
        b_board: Board::new(words(&[17])),
        previous_action: Some(Action { player: Player::B, position: pos(2, 3) }),
    };
    let (_, done) = s.step(&Action { player: Player::R, position: pos(3, 3) }).unwrap();
    assert!(done);
}

#[test]
fn line_completed_in_the_middle_wins() {
    // R owns (0,0) (0,1) (0,3); the new stone at (0,2) sits inside the line
    let s = State {
        r_board: Board::new(words(&[0, 1, 3])),
        b_board: Board::new(words(&[9])),
        previous_action: Some(Action { player: Player::B, position: pos(1, 2) }),
    };
    let (_, done) = s.step(&Action { player: Player::R, position: pos(0, 2) }).unwrap();
    assert!(done);
}

#[test]
fn surrounded_stone_falls_back_to_own_neighbours() {
    // B moved last at (0,0), whose neighbours (0,1) (1,0) (1,1) are all
    // occupied, so R may play any empty neighbour of R's own stones
    let s = State {
        r_board: Board::new(words(&[8])),
        b_board: Board::new(words(&[0, 1, 7])),
        previous_action: Some(Action { player: Player::B, position: pos(0, 0) }),
    };
    // (2,2) borders R's stone at (1,1)
    let (s1, done) = s.step(&Action { player: Player::R, position: pos(2, 2) }).expect(
        "fallback move beside own stone is legal",
    );
    assert!(!done);
    assert!(s1.r_board.get(pos(2, 2)));
    // (0,3) borders no R stone
    let r = s.step(&Action { player: Player::R, position: pos(0, 3) });
    assert_eq!(r, Err(StepError::IllegalPosition));
}

#[test]
fn fallback_move_list_is_the_own_neighbourhood() {
    let s = State {
        r_board: Board::new(words(&[8])),
        b_board: Board::new(words(&[0, 1, 7])),
        previous_action: Some(Action { player: Player::B, position: pos(0, 0) }),
    };
    // empty neighbours of R's stone (1,1): (0,2) (1,2) (2,0) (2,1) (2,2)
    let expected: Vec<Position> = vec![
        Position::new(2),
        Position::new(9),
        Position::new(14),
        Position::new(15),
        Position::new(16),
    ];
    assert_eq!(s.next_action(), expected);
}

#[test]
fn next_action_lists_empty_neighbours_of_last_stone() {
    let s0 = State::from_empty();
    let (s1, _) = s0.step(&Action { player: Player::R, position: pos(3, 3) }).unwrap();
    let moves = s1.next_action();
    let expected: Vec<Position> = vec![
        Position::new(16),
        Position::new(17),
        Position::new(18),
        Position::new(23),
        Position::new(25),
        Position::new(30),
        Position::new(31),
        Position::new(32),
    ];
    assert_eq!(moves, expected);
}

#[test]
fn scenario_packed_corner_ends_in_a_draw() {
    // A 3x3 corner block: R holds its centre (1,1); B holds the ring except
    // (0,0); R moved last at the centre. B's only legal reply is (0,0).
    let s = State {
        r_board: Board::new(words(&[8])),
        b_board: Board::new(words(&[1, 2, 7, 9, 14, 15, 16])),
        previous_action: Some(Action { player: Player::R, position: pos(1, 1) }),
    };
    let (s1, done) = s.step(&Action { player: Player::B, position: pos(0, 0) }).expect(
        "the one open neighbour is legal",
    );
    // no side holds four in a line, yet the game is over: the next mover's
    // two-tier move set is exhausted even though most of the board is empty
    assert!(done);
    assert!(s1.next_action().is_empty());
    assert!(!s1.r_board.get(pos(6, 6)));
    assert!(!s1.b_board.get(pos(6, 6)));
    assert_eq!(s1.empty_board().to_u64() & (1u64 << 48), 1u64 << 48);
}

#[test]
fn first_move_anywhere_is_legal() {
    let s0 = State::from_empty();
    for &cell in &[0u64, 6, 42, 48, 24] {
        let (s1, done) = s0.step(&Action { player: Player::R, position: Position::new(cell) })
            .expect("any empty cell is legal before the first move");
        assert!(!done);
        assert!(s1.r_board.get(Position::new(cell)));
    }
}

#[test]
fn full_game_to_a_diagonal_win() {
    let mut state = State::from_empty();
    // every move borders the opponent's previous stone; R builds the main
    // diagonal (3,3) (4,4) (5,5) (6,6)
    let script: [(Player, u64, u64); 7] = [
        (Player::R, 3, 3),
        (Player::B, 4, 3),
        (Player::R, 4, 4),
        (Player::B, 5, 4),
        (Player::R, 5, 5),
        (Player::B, 5, 6),
        (Player::R, 6, 6),
    ];
    for (index, &(player, row, col)) in script.iter().enumerate() {
        assert_eq!(state.player(), player, "turns alternate starting with R");
        let action = Action { player, position: pos(row, col) };
        let (next, done) = state.step(&action).expect("scripted move is legal");
        assert_eq!(done, index == script.len() - 1, "only the last move ends the game");
        state = next;
        assert!(
            state.r_board.intersect(state.b_board).is_empty(),
            "the two boards never share a cell"
        );
    }
    for &(player, row, col) in script.iter() {
        assert_eq!(state.player_board(player).get(pos(row, col)), true);
        assert_eq!(state.player_board(player.opponent()).get(pos(row, col)), false);
    }
}

#[test]
fn player_board_selects_the_right_board() {
    let s = State {
        r_board: Board::new(words(&[3])),
        b_board: Board::new(words(&[4])),
        previous_action: None,
    };
    assert_eq!(s.player_board(Player::R).to_u64(), 1u64 << 3);
    assert_eq!(s.player_board(Player::B).to_u64(), 1u64 << 4);
}
