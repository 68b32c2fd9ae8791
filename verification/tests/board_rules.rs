use qlearn_tictactoe::piece::Piece;
use qlearn_tictactoe::state::{Action, IllegalMove, State};
use qlearn_tictactoe::vector::Vector2;

fn at(player: Piece, x: i32, y: i32) -> Action {
    Action { player, position: Vector2::new(x, y) }
}

fn board(size: (i32, i32), moves: &[(Piece, i32, i32)]) -> State {
    let mut state = State::new(Vector2::new(size.0, size.1));
    for (player, x, y) in moves {
        assert_eq!(state.play_mut(&at(*player, *x, *y)), Ok(()));
    }
    state
}

#[test]
fn new_board_is_empty_and_first_seat_moves() {
    let state = State::new(Vector2::new(3, 3));
    assert_eq!(state.size(), (3, 3));
    assert_eq!(state.on_play(), Piece::P1);
    for x in 0..3 {
        for y in 0..3 {
            assert_eq!(state.get_piece(&Vector2::new(x, y)), Piece::Empty);
            assert_eq!(state.cell(x as usize, y as usize), Piece::Empty);
        }
    }
    assert!(!state.terminal());
    assert_eq!(state.check_winner(), Piece::Empty);
}

#[test]
fn board_keeps_rows_and_columns_apart() {
    let state = State::new(Vector2::new(2, 5));
    assert_eq!(state.size(), (2, 5));
    assert!(state.is_in_bounds(&Vector2::new(1, 4)));
    assert!(!state.is_in_bounds(&Vector2::new(2, 0)));
    assert!(!state.is_in_bounds(&Vector2::new(0, 5)));
    assert!(!state.is_in_bounds(&Vector2::new(-1, 0)));
    assert!(!state.is_in_bounds(&Vector2::new(0, -1)));
}

#[test]
fn legal_move_places_piece_and_passes_turn() {
    let mut state = State::new(Vector2::new(3, 3));
    assert_eq!(state.play_mut(&at(Piece::P1, 1, 2)), Ok(()));
    assert_eq!(state.get_piece(&Vector2::new(1, 2)), Piece::P1);
    assert_eq!(state.get_piece(&Vector2::new(2, 1)), Piece::Empty);
    assert_eq!(state.on_play(), Piece::P2);
    assert_eq!(state.play_mut(&at(Piece::P2, 0, 0)), Ok(()));
    assert_eq!(state.get_piece(&Vector2::new(0, 0)), Piece::P2);
    assert_eq!(state.on_play(), Piece::P1);
}

#[test]
fn move_outside_the_board_is_illegal_and_changes_nothing() {
    let mut state = board((3, 3), &[(Piece::P1, 0, 0)]);
    let before = state.clone();
    for (x, y) in [(3, 0), (0, 3), (-1, 1), (1, -1), (7, 7)] {
        assert_eq!(state.play_mut(&at(Piece::P2, x, y)), Err(IllegalMove));
        assert!(state.same_as(&before));
        assert_eq!(state.on_play(), Piece::P2);
    }
}

#[test]
fn move_to_a_taken_cell_is_illegal_and_changes_nothing() {
    let mut state = board((3, 3), &[(Piece::P1, 1, 1)]);
    let before = state.clone();
    assert_eq!(state.play_mut(&at(Piece::P2, 1, 1)), Err(IllegalMove));
    assert!(state.same_as(&before));
    assert_eq!(state.get_piece(&Vector2::new(1, 1)), Piece::P1);
    assert_eq!(state.on_play(), Piece::P2);
}

#[test]
fn move_of_what_is_no_seat_is_illegal_and_changes_nothing() {
    let mut state = board((3, 3), &[(Piece::P1, 0, 0)]);
    let before = state.clone();
    for player in [Piece::Empty, Piece::Draw] {
        assert!(!state.allows(&at(player, 1, 1)));
        assert_eq!(state.play_mut(&at(player, 1, 1)), Err(IllegalMove));
        assert!(state.play(&at(player, 1, 1)).is_err());
        assert!(state.same_as(&before));
        assert_eq!(state.get_piece(&Vector2::new(1, 1)), Piece::Empty);
        assert_eq!(state.on_play(), Piece::P2);
    }
}

#[test]
fn anti_diagonal_wins_on_larger_boards() {
    for n in [2, 4, 5] {
        let mut state = State::new(Vector2::new(n, n));
        for i in 0..n {
            assert_eq!(state.check_winner(), Piece::Empty);
            assert_eq!(state.play_mut(&at(Piece::P2, i, n - 1 - i)), Ok(()));
        }
        assert_eq!(state.check_winner(), Piece::P2);
    }
}

#[test]
fn play_returns_the_next_state_and_keeps_this_one() {
    let state = State::new(Vector2::new(3, 3));
    let next = state.play(&at(Piece::P1, 2, 0)).unwrap();
    assert_eq!(next.get_piece(&Vector2::new(2, 0)), Piece::P1);
    assert_eq!(next.on_play(), Piece::P2);
    assert_eq!(state.get_piece(&Vector2::new(2, 0)), Piece::Empty);
    assert_eq!(state.on_play(), Piece::P1);
    assert!(next.play(&at(Piece::P2, 2, 0)).is_err());
    assert!(state.play(&at(Piece::P1, 3, 3)).is_err());
}

#[test]
fn allows_tells_legal_moves_from_others() {
    let state = board((3, 3), &[(Piece::P1, 0, 1)]);
    assert!(state.allows(&at(Piece::P2, 0, 0)));
    assert!(!state.allows(&at(Piece::P2, 0, 1)));
    assert!(!state.allows(&at(Piece::P2, 0, 3)));
}

#[test]
fn clone_is_equal_and_independent() {
    let state = board((3, 3), &[(Piece::P1, 0, 0), (Piece::P2, 1, 1)]);
    let mut copy = state.clone();
    assert!(copy.same_as(&state));
    assert_eq!(copy.play_mut(&at(Piece::P1, 2, 2)), Ok(()));
    assert!(!copy.same_as(&state));
    assert_eq!(state.get_piece(&Vector2::new(2, 2)), Piece::Empty);
}

#[test]
fn same_as_compares_cells_mover_and_size() {
    let a = board((3, 3), &[(Piece::P1, 0, 0)]);
    let b = board((3, 3), &[(Piece::P1, 0, 0)]);
    let c = board((3, 3), &[(Piece::P1, 0, 1)]);
    let d = board((3, 3), &[(Piece::P2, 0, 0)]);
    assert!(a.same_as(&b));
    assert!(!a.same_as(&c));
    assert!(!a.same_as(&d));
    assert!(!State::new(Vector2::new(2, 3)).same_as(&State::new(Vector2::new(3, 2))));
    assert!(!State::new(Vector2::new(2, 2)).same_as(&State::new(Vector2::new(2, 3))));
}

#[test]
fn states_are_equal_where_they_show_the_same() {
    let a = board((3, 3), &[(Piece::P1, 0, 0), (Piece::P2, 2, 1)]);
    let b = board((3, 3), &[(Piece::P1, 0, 0), (Piece::P2, 2, 1)]);
    let c = board((3, 3), &[(Piece::P1, 0, 0), (Piece::P2, 1, 2)]);
    assert_eq!(a, b);
    assert_eq!(a, a.clone());
    assert_ne!(a, c);
    assert_ne!(State::new(Vector2::new(3, 3)), State::new(Vector2::new(3, 4)));
}

#[test]
fn equal_states_hash_alike_and_serve_as_keys() {
    let a = board((3, 3), &[(Piece::P1, 0, 0), (Piece::P2, 2, 1)]);
    let b = board((3, 3), &[(Piece::P1, 0, 0), (Piece::P2, 2, 1)]);
    let c = board((3, 3), &[(Piece::P1, 0, 0), (Piece::P2, 1, 2)]);
    let mut seen = std::collections::HashMap::new();
    seen.insert((a, at(Piece::P1, 1, 1)), 1);
    seen.insert((c.clone(), at(Piece::P1, 1, 1)), 2);
    assert_eq!(seen.get(&(b.clone(), at(Piece::P1, 1, 1))), Some(&1));
    assert_eq!(seen.get(&(c, at(Piece::P1, 1, 1))), Some(&2));
    assert_eq!(seen.get(&(b, at(Piece::P1, 1, 2))), None);
}

#[test]
fn reset_gives_a_fresh_board_of_the_same_size() {
    let mut state = board(
        (3, 4),
        &[(Piece::P1, 0, 0), (Piece::P2, 1, 1), (Piece::P1, 2, 3)],
    );
    state.reset();
    assert!(state.same_as(&State::new(Vector2::new(3, 4))));
    assert_eq!(state.on_play(), Piece::P1);
    assert_eq!(state.size(), (3, 4));
    state.reset();
    assert!(state.same_as(&State::new(Vector2::new(3, 4))));
}

#[test]
fn anti_diagonal_wins() {
    let state = board(
        (3, 3),
        &[(Piece::P1, 0, 2), (Piece::P1, 1, 1), (Piece::P1, 2, 0)],
    );
    assert_eq!(state.check_winner(), Piece::P1);
    let state = board(
        (3, 3),
        &[(Piece::P2, 0, 2), (Piece::P2, 1, 1), (Piece::P2, 2, 0)],
    );
    assert_eq!(state.check_winner(), Piece::P2);
}

#[test]
fn anti_diagonal_is_not_read_one_cell_off() {
    // One cell off the anti-diagonal in every row: no line.
    let state = board(
        (3, 3),
        &[(Piece::P1, 0, 1), (Piece::P1, 1, 0), (Piece::P1, 2, 2)],
    );
    assert_eq!(state.check_winner(), Piece::Empty);
    let state = board((3, 3), &[(Piece::P1, 0, 2), (Piece::P1, 1, 1)]);
    assert_eq!(state.check_winner(), Piece::Empty);
    let state = board(
        (3, 3),
        &[(Piece::P1, 0, 2), (Piece::P2, 1, 1), (Piece::P1, 2, 0)],
    );
    assert_eq!(state.check_winner(), Piece::Empty);
}

#[test]
fn main_diagonal_wins() {
    let state = board(
        (3, 3),
        &[(Piece::P2, 0, 0), (Piece::P2, 1, 1), (Piece::P2, 2, 2)],
    );
    assert_eq!(state.check_winner(), Piece::P2);
}

#[test]
fn every_row_and_column_wins() {
    for k in 0..3 {
        let row = board(
            (3, 3),
            &[(Piece::P1, k, 0), (Piece::P1, k, 1), (Piece::P1, k, 2)],
        );
        assert_eq!(row.check_winner(), Piece::P1);
        let column = board(
            (3, 3),
            &[(Piece::P2, 0, k), (Piece::P2, 1, k), (Piece::P2, 2, k)],
        );
        assert_eq!(column.check_winner(), Piece::P2);
    }
}

#[test]
fn first_line_of_the_scan_is_reported() {
    // Row 0 belongs to P2 and column 2 ... to no one; rows come first.
    let state = board(
        (3, 3),
        &[
            (Piece::P1, 1, 0),
            (Piece::P1, 1, 1),
            (Piece::P1, 1, 2),
            (Piece::P2, 0, 0),
            (Piece::P2, 0, 1),
            (Piece::P2, 0, 2),
        ],
    );
    assert_eq!(state.check_winner(), Piece::P2);
    // A row of P1 and a column of P2 cannot both be whole; a row and the
    // main diagonal of different seats can on a wider board.
    let state = board(
        (2, 2),
        &[(Piece::P1, 1, 0), (Piece::P1, 1, 1), (Piece::P2, 0, 0)],
    );
    assert_eq!(state.check_winner(), Piece::P1);
}

#[test]
fn undecided_while_a_cell_is_free_and_no_line_is_whole() {
    let state = board(
        (3, 3),
        &[
            (Piece::P1, 0, 0),
            (Piece::P2, 0, 1),
            (Piece::P1, 0, 2),
            (Piece::P2, 1, 1),
            (Piece::P1, 2, 1),
        ],
    );
    assert!(!state.terminal());
    assert_eq!(state.check_winner(), Piece::Empty);
}

#[test]
fn full_board_without_line_is_a_draw() {
    // X O X
    // X O O
    // O X X
    let state = board(
        (3, 3),
        &[
            (Piece::P1, 0, 0),
            (Piece::P2, 0, 1),
            (Piece::P1, 0, 2),
            (Piece::P1, 1, 0),
            (Piece::P2, 1, 1),
            (Piece::P2, 1, 2),
            (Piece::P2, 2, 0),
            (Piece::P1, 2, 1),
            (Piece::P1, 2, 2),
        ],
    );
    assert!(state.terminal());
    assert_eq!(state.check_winner(), Piece::Draw);
}

#[test]
fn full_board_with_line_has_a_winner() {
    // X X X
    // O O X
    // X O O
    let state = board(
        (3, 3),
        &[
            (Piece::P1, 0, 0),
            (Piece::P1, 0, 1),
            (Piece::P1, 0, 2),
            (Piece::P2, 1, 0),
            (Piece::P2, 1, 1),
            (Piece::P1, 1, 2),
            (Piece::P1, 2, 0),
            (Piece::P2, 2, 1),
            (Piece::P2, 2, 2),
        ],
    );
    assert!(state.terminal());
    assert_eq!(state.check_winner(), Piece::P1);
}

#[test]
fn terminal_needs_every_cell() {
    let mut state = State::new(Vector2::new(2, 2));
    let cells = [(0, 0), (0, 1), (1, 0), (1, 1)];
    for (n, (x, y)) in cells.iter().enumerate() {
        assert!(!state.terminal());
        let player = if n % 2 == 0 { Piece::P1 } else { Piece::P2 };
        assert_eq!(state.play_mut(&at(player, *x, *y)), Ok(()));
    }
    assert!(state.terminal());
}

#[test]
fn wide_board_reads_both_diagonals_over_its_rows() {
    // 2 rows, 3 columns: the anti-diagonal is (0,2), (1,1).
    let state = board((2, 3), &[(Piece::P1, 0, 2), (Piece::P1, 1, 1)]);
    assert_eq!(state.check_winner(), Piece::P1);
    let state = board((2, 3), &[(Piece::P2, 0, 0), (Piece::P2, 1, 1)]);
    assert_eq!(state.check_winner(), Piece::P2);
    let state = board((2, 3), &[(Piece::P1, 0, 1), (Piece::P1, 1, 0)]);
    assert_eq!(state.check_winner(), Piece::Empty);
}

#[test]
fn tall_board_reads_both_diagonals_over_its_columns() {
    // 3 rows, 2 columns: the anti-diagonal is (0,1), (1,0).
    let state = board((3, 2), &[(Piece::P1, 0, 1), (Piece::P1, 1, 0)]);
    assert_eq!(state.check_winner(), Piece::P1);
    let state = board((3, 2), &[(Piece::P2, 0, 0), (Piece::P2, 1, 1)]);
    assert_eq!(state.check_winner(), Piece::P2);
    let state = board((3, 2), &[(Piece::P1, 0, 0), (Piece::P1, 1, 0)]);
    assert_eq!(state.check_winner(), Piece::Empty);
}

#[test]
fn single_cell_board_is_won_by_the_first_move() {
    let mut state = State::new(Vector2::new(1, 1));
    assert_eq!(state.check_winner(), Piece::Empty);
    assert_eq!(state.play_mut(&at(Piece::P1, 0, 0)), Ok(()));
    assert!(state.terminal());
    assert_eq!(state.check_winner(), Piece::P1);
}

#[test]
fn board_is_shown_three_characters_to_a_cell() {
    let state = board((2, 3), &[(Piece::P1, 0, 0), (Piece::P2, 1, 2)]);
    assert_eq!(state.to_string(), "-X-|_||_|\n|_||_|-O-\n");
    assert_eq!(State::new(Vector2::new(1, 1)).to_string(), "|_|\n");
}

#[test]
fn piece_names_and_slots() {
    assert_eq!(Piece::P1.to_index(), 0);
    assert_eq!(Piece::P2.to_index(), 1);
    assert_eq!(Piece::Empty.to_index(), 0);
    assert_eq!(Piece::Draw.to_index(), 0);
    assert_eq!(Piece::Draw.to_string(), "Draw");
    assert_eq!(Piece::Empty.to_string(), "Empty");
    assert_eq!(Piece::P1.to_string(), "Player 1");
    assert_eq!(Piece::P2.to_string(), "Player 2");
    assert!(Piece::P1.seat() && Piece::P2.seat());
    assert!(!Piece::Empty.seat() && !Piece::Draw.seat());
    assert_eq!(Piece::P1.opponent(), Piece::P2);
    assert_eq!(Piece::P2.opponent(), Piece::P1);
    assert_eq!(Piece::Empty.opponent(), Piece::Empty);
    assert_eq!(Piece::Draw.opponent(), Piece::Empty);
}

#[test]
fn vector_gives_its_coordinates_back() {
    let v = Vector2::new(2, 7);
    assert_eq!((v.x, v.y), (2, 7));
    assert_eq!(v.index(), (2, 7));
    assert_eq!(v.dim(), (2, 7));
    assert_eq!(v, Vector2 { x: 2, y: 7 });
}
