use puretd_engine::board::{
    counts_fit_board, to_puretd, Board, BoardState, Play, BLACK, CHECKERS_PER_PLAYER, WHITE,
};

/// The opening position's Position ID, as gnubg writes it, is "4HPwATDgc/ABMA";
/// this is the board it decodes to, in the mover's view.
fn opening_board() -> Board {
    let mut board: Board = [0; 26];
    board[6] = 5;
    board[8] = 3;
    board[13] = 5;
    board[24] = 2;
    board[1] = -2;
    board[12] = -5;
    board[17] = -3;
    board[19] = -5;
    board
}

/// PureTD's own opening board: WHITE's two back checkers on points[23].
fn board_init() -> BoardState {
    let mut state = BoardState::default();
    state.points[23] = 2;
    state.points[12] = 5;
    state.points[7] = 3;
    state.points[5] = 5;
    state.points[0] = -2;
    state.points[11] = -5;
    state.points[16] = -3;
    state.points[18] = -5;
    state.turn = WHITE;
    state
}

#[test]
fn the_opening_position_matches_puretds_own_board() {
    let decoded = opening_board();
    let converted = to_puretd(&decoded);
    let native = board_init();

    assert_eq!(
        converted.points, native.points,
        "converted points differ from board_init"
    );
    assert_eq!(converted.bar, native.bar, "bar differs");
    assert_eq!(converted.off, native.off, "off differs");
    assert_eq!(converted.turn, native.turn, "turn differs");
}

#[test]
fn borne_off_checkers_are_derived_not_read() {
    let decoded = opening_board();
    let state = to_puretd(&decoded);
    let white: i32 = state.points.iter().filter(|p| **p > 0).sum::<i32>()
        + state.bar[WHITE as usize]
        + state.off[WHITE as usize];
    let black: i32 = state.points.iter().filter(|p| **p < 0).map(|p| -p).sum::<i32>()
        + state.bar[BLACK as usize]
        + state.off[BLACK as usize];
    assert_eq!(white, CHECKERS_PER_PLAYER);
    assert_eq!(black, CHECKERS_PER_PLAYER);
}

#[test]
fn points_shift_by_one_and_bars_are_copied() {
    let mut board: Board = [0; 26];
    for i in 0..26 {
        board[i] = (i as i32 % 3) - 1;
    }
    board[25] = 2;
    board[0] = 4;
    let state = to_puretd(&board);
    for i in 0..24 {
        assert_eq!(state.points[i], board[i + 1]);
    }
    assert_eq!(state.bar[WHITE as usize], 2);
    assert_eq!(state.bar[BLACK as usize], 4);
    assert_eq!(state.turn, WHITE);
}

#[test]
fn checkers_on_the_bar_are_not_borne_off() {
    let mut board = opening_board();
    // two of the mover's back checkers hit and on the bar; one opponent off
    board[24] = 0;
    board[25] = 2;
    board[1] = -1;
    let state = to_puretd(&board);
    assert_eq!(state.off[WHITE as usize], 0);
    assert_eq!(state.off[BLACK as usize], 1);
    assert_eq!(state.bar[WHITE as usize], 2);
}

#[test]
fn too_many_checkers_clamp_off_at_zero() {
    let mut board: Board = [0; 26];
    board[6] = 20;
    board[19] = -17;
    let state = to_puretd(&board);
    assert_eq!(state.off[WHITE as usize], 0);
    assert_eq!(state.off[BLACK as usize], 0);
}

#[test]
fn empty_board_has_everyone_off() {
    let board: Board = [0; 26];
    let state = to_puretd(&board);
    assert_eq!(state.off[WHITE as usize], 15);
    assert_eq!(state.off[BLACK as usize], 15);
    assert_eq!(state.points, [0; 24]);
}

#[test]
fn defaults_are_empty() {
    let state = BoardState::default();
    assert_eq!(state.points, [0; 24]);
    assert_eq!(state.bar, [0, 0]);
    assert_eq!(state.off, [0, 0]);
    assert_eq!(state.turn, WHITE);
    let play = Play::default();
    assert_eq!(play.num_moves, 0);
    assert_eq!(play.moves[3].src, 0);
    assert_eq!(play.moves[3].dst, 0);
    assert_eq!(play.resulting_state.points, [0; 24]);
}

#[test]
fn a_bar_at_the_least_i32_is_converted() {
    let mut board: Board = [0; 26];
    board[6] = 16;
    board[25] = i32::MIN;
    assert!(counts_fit_board(&board));
    let state = to_puretd(&board);
    assert_eq!(state.bar[WHITE as usize], i32::MIN);
    assert_eq!(state.off[WHITE as usize], i32::MAX);
}

#[test]
fn a_point_at_the_least_i32_does_not_fit() {
    let mut board: Board = [0; 26];
    board[3] = i32::MIN;
    assert!(!counts_fit_board(&board));
}
