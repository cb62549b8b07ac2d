//! Turning a GnuBG position into a PureTD board.
//!
//! A GnuBG board is 26 integers in the MOVER's view: cells `1..=24` are the
//! points counted from the mover's home, positive for the mover and negative
//! for the opponent; cell `25` is the mover's bar and cell `0` the opponent's.
//! PureTD's `points[0..24]` use the same numbering shifted by one, positive
//! for WHITE. So the mover becomes WHITE and `points[i] = board[i + 1]`:
//! nothing is mirrored, reversed or renumbered.
//!
//! Neither side's borne-off count is carried by a position id: it is implied by
//! the fifteen checkers that are not on the board or the bar.

use vstd::prelude::*;

verus! {

/// Points on a backgammon board.
pub const NUM_POINTS: usize = 24;

/// Inputs of the default feature encoding.
pub const NUM_FEATURES: usize = 196;

/// Checker moves in one play (four for doubles).
pub const MAX_MOVES_PER_PLAY: usize = 4;

/// Room for the legal plays of one roll.
pub const MAX_PLAYS: usize = 4096;

/// Hidden layers a network file may declare.
pub const NN_MAX_LAYERS: usize = 8;

/// Outputs of a prob5 network: win, win gammon, win backgammon, lose gammon,
/// lose backgammon.
pub const NN_PROB5_OUTPUTS: usize = 5;

/// The widest network input the buffers are sized for.
pub const MAX_INPUT_SIZE: usize = 256;

/// WHITE is the positive side.
pub const WHITE: i32 = 0;

/// BLACK is the negative side.
pub const BLACK: i32 = 1;

/// Source slot of a checker entering from the bar.
pub const BAR_SENTINEL: i32 = -1;

/// Destination slot of a checker borne off.
pub const OFF_SENTINEL: i32 = -2;

/// Every player has fifteen checkers; what is not on the board or the bar is off.
pub const CHECKERS_PER_PLAYER: i32 = 15;

/// A GnuBG board in the mover's view (see the module documentation).
pub type Board = [i32; 26];

/// PureTD's board.
#[derive(Clone, Copy)]
pub struct BoardState {
    /// `> 0`: WHITE checkers on the point, `< 0`: BLACK.
    pub points: [i32; NUM_POINTS],
    /// Indexed by `WHITE` / `BLACK`.
    pub bar: [i32; 2],
    /// Indexed by `WHITE` / `BLACK`.
    pub off: [i32; 2],
    pub turn: i32,
}

/// One checker move of a play.
#[derive(Clone, Copy)]
pub struct Move {
    /// Point index 0-23, or [`BAR_SENTINEL`].
    pub src: i32,
    /// Point index 0-23, or [`OFF_SENTINEL`].
    pub dst: i32,
}

/// One legal play: up to four checker moves and the board they lead to.
#[derive(Clone, Copy)]
pub struct Play {
    pub moves: [Move; MAX_MOVES_PER_PLAY],
    pub num_moves: i32,
    pub resulting_state: BoardState,
}

/// The empty board, WHITE on roll.
pub open spec fn is_empty_state(s: BoardState) -> bool {
    &&& forall|i: int| 0 <= i < NUM_POINTS ==> s.points[i] == 0
    &&& s.bar[0] == 0 && s.bar[1] == 0
    &&& s.off[0] == 0 && s.off[1] == 0
    &&& s.turn == WHITE
}

impl Default for BoardState {
    fn default() -> (s: Self)
        ensures
            is_empty_state(s),
    {
        BoardState { points: [0i32; 24], bar: [0i32; 2], off: [0i32; 2], turn: WHITE }
    }
}

impl Default for Play {
    fn default() -> (p: Self)
        ensures
            p.num_moves == 0,
            forall|i: int| 0 <= i < MAX_MOVES_PER_PLAY ==> p.moves[i].src == 0 && p.moves[i].dst == 0,
            is_empty_state(p.resulting_state),
    {
        Play {
            moves: [Move { src: 0, dst: 0 }; 4],
            num_moves: 0,
            resulting_state: BoardState::default(),
        }
    }
}

/// The checkers of the positive side on `s`.
pub open spec fn sum_positive(s: Seq<i32>) -> int
    decreases s.len(),
{
    if s.len() == 0 {
        0
    } else {
        sum_positive(s.drop_last()) + if s.last() > 0 { s.last() as int } else { 0 }
    }
}

/// The checkers of the negative side on `s`, counted positively.
pub open spec fn sum_negative(s: Seq<i32>) -> int
    decreases s.len(),
{
    if s.len() == 0 {
        0
    } else {
        sum_negative(s.drop_last()) + if s.last() > 0 { 0 } else { -(s.last() as int) }
    }
}

/// The 24 points of a GnuBG board, in order.
pub open spec fn points_of(board: Board) -> Seq<i32> {
    board@.subrange(1, 25)
}

/// The mover's checkers on the points.
pub open spec fn mover_on_board(board: Board) -> int {
    sum_positive(points_of(board))
}

/// The opponent's checkers on the points.
pub open spec fn opponent_on_board(board: Board) -> int {
    sum_negative(points_of(board))
}

/// Borne-off checkers derived from what is on the board and the bar, clamped
/// at zero.
pub open spec fn derived_off(on_board: int, on_bar: int) -> int {
    let off = CHECKERS_PER_PLAYER - on_board - on_bar;
    if off > 0 {
        off
    } else {
        0
    }
}

/// The counts stay within `i32` while they are added up; outside this the
/// conversion would overflow.
pub open spec fn counts_fit(board: Board) -> bool {
    &&& forall|i: int| 1 <= i <= 24 ==> board[i] > i32::MIN
    &&& mover_on_board(board) <= i32::MAX
    &&& opponent_on_board(board) <= i32::MAX
    &&& i32::MIN <= CHECKERS_PER_PLAYER - mover_on_board(board) - board[25] <= i32::MAX
    &&& i32::MIN <= CHECKERS_PER_PLAYER - opponent_on_board(board) - board[0] <= i32::MAX
}

/// `state` is the PureTD board of the GnuBG `board`: the mover is WHITE, the
/// points are the board's shifted by one, the bars are copied, and each side's
/// borne-off count is what is missing from fifteen, never negative.
pub open spec fn is_puretd_of(board: Board, state: BoardState) -> bool {
    &&& state.points@ == points_of(board)
    &&& state.bar[WHITE as int] == board[25]
    &&& state.bar[BLACK as int] == board[0]
    &&& state.off[WHITE as int] == derived_off(mover_on_board(board), board[25] as int)
    &&& state.off[BLACK as int] == derived_off(opponent_on_board(board), board[0] as int)
    &&& state.turn == WHITE
}

proof fn lemma_sums_grow(s: Seq<i32>, k: int)
    requires
        0 <= k <= s.len(),
    ensures
        0 <= sum_positive(s.subrange(0, k)) <= sum_positive(s),
        0 <= sum_negative(s.subrange(0, k)) <= sum_negative(s),
    decreases s.len(),
{
    if k == s.len() {
        assert(s.subrange(0, k) =~= s);
        if s.len() > 0 {
            lemma_sums_grow(s.drop_last(), s.len() - 1);
            assert(s.drop_last().subrange(0, s.len() - 1) =~= s.drop_last());
        }
    } else {
        lemma_sums_grow(s.drop_last(), k);
        assert(s.drop_last().subrange(0, k) =~= s.subrange(0, k));
    }
}

/// The checkers of `s` counted point by point from the left: a point holding
/// `c > 0` of the positive side's checkers adds `c`, any other adds nothing.
pub open spec fn positive_total(s: Seq<i32>) -> int {
    s.fold_left(0int, |total: int, c: i32| if c > 0 { total + c } else { total })
}

/// The same count for the negative side: a point holding `c < 0` adds `-c`.
pub open spec fn negative_total(s: Seq<i32>) -> int {
    s.fold_left(0int, |total: int, c: i32| if c < 0 { total - c } else { total })
}

/// Every checker on every point counts, single checkers included: the sides'
/// counts are the point-by-point totals.
pub proof fn lemma_every_checker_counts(s: Seq<i32>)
    ensures
        sum_positive(s) == positive_total(s),
        sum_negative(s) == negative_total(s),
    decreases s.len(),
{
    if s.len() > 0 {
        lemma_every_checker_counts(s.drop_last());
    }
}

/// A point holding `c` checkers of the mover adds exactly `c` to the mover's
/// count, and `-c` to the opponent's when `c` is negative.
pub proof fn lemma_one_more_point(s: Seq<i32>, c: i32)
    ensures
        positive_total(s.push(c)) == positive_total(s) + if c > 0 { c as int } else { 0 },
        negative_total(s.push(c)) == negative_total(s) + if c < 0 { -(c as int) } else { 0 },
{
    assert(s.push(c).drop_last() =~= s);
}

/// The mover's board as PureTD wants it, with the mover on the WHITE side.
pub fn to_puretd(board: &Board) -> (state: BoardState)
    requires
        counts_fit(*board),
    ensures
        is_puretd_of(*board, state),
        forall|i: int| 0 <= i < 24 ==> state.points[i] == board[i + 1],
        state.turn == 0,
        state.bar[0] == board[25] && state.bar[1] == board[0],
        state.off[WHITE as int] == if CHECKERS_PER_PLAYER - positive_total(board@.subrange(1, 25))
            - board[25] > 0 {
            CHECKERS_PER_PLAYER - positive_total(board@.subrange(1, 25)) - board[25]
        } else {
            0
        },
        state.off[BLACK as int] == if CHECKERS_PER_PLAYER - negative_total(board@.subrange(1, 25))
            - board[0] > 0 {
            CHECKERS_PER_PLAYER - negative_total(board@.subrange(1, 25)) - board[0]
        } else {
            0
        },
{
    proof {
        lemma_every_checker_counts(board@.subrange(1, 25));
    }
    let mut state = BoardState::default();
    let ghost pts = points_of(*board);
    let mut mover: i32 = 0;
    let mut opponent: i32 = 0;
    let mut i: usize = 0;
    while i < NUM_POINTS
        invariant
            0 <= i <= NUM_POINTS,
            counts_fit(*board),
            pts == points_of(*board),
            forall|j: int| 0 <= j < i ==> state.points[j] == board[j + 1],
            state.bar[0] == 0 && state.bar[1] == 0,
            state.turn == WHITE,
            mover == sum_positive(pts.subrange(0, i as int)),
            opponent == sum_negative(pts.subrange(0, i as int)),
        decreases NUM_POINTS - i,
    {
        let checkers = board[i + 1];
        state.points[i] = checkers;
        proof {
            assert(pts.subrange(0, i + 1).drop_last() =~= pts.subrange(0, i as int));
            lemma_sums_grow(pts, i + 1);
        }
        if checkers > 0 {
            mover += checkers;
        } else {
            opponent += -checkers;
        }
        i += 1;
    }
    assert(pts.subrange(0, 24) =~= pts);
    assert(state.points@ =~= pts);
    proof {
        lemma_sums_grow(pts, 24);
    }
    state.bar[WHITE as usize] = board[25];
    state.bar[BLACK as usize] = board[0];
    // Clamped at zero rather than trusted: a malformed id can describe more
    // than fifteen checkers, and a negative "off" would pass into the feature
    // encoding as a plausible number instead of a refusal.
    let white_off = CHECKERS_PER_PLAYER - mover - board[25];
    state.off[WHITE as usize] = if white_off > 0 { white_off } else { 0 };
    let black_off = CHECKERS_PER_PLAYER - opponent - board[0];
    state.off[BLACK as usize] = if black_off > 0 { black_off } else { 0 };
    state.turn = WHITE;
    state
}

/// Whether `board`'s checker counts stay within `i32` while the conversion
/// adds them up, that is, whether [`to_puretd`] may be called on it.
pub fn counts_fit_board(board: &Board) -> (fit: bool)
    ensures
        fit == counts_fit(*board),
{
    let ghost pts = points_of(*board);
    let mut mover: i64 = 0;
    let mut opponent: i64 = 0;
    let mut no_min = true;
    let mut i: usize = 1;
    while i <= 24
        invariant
            1 <= i <= 25,
            no_min == forall|j: int| 1 <= j < i ==> board[j] > i32::MIN,
        decreases 25 - i,
    {
        if board[i] == i32::MIN {
            no_min = false;
        }
        i += 1;
    }
    let mut k: usize = 0;
    while k < NUM_POINTS
        invariant
            k <= NUM_POINTS,
            pts == points_of(*board),
            mover == sum_positive(pts.subrange(0, k as int)),
            opponent == sum_negative(pts.subrange(0, k as int)),
            0 <= mover <= k * 2147483648,
            0 <= opponent <= k * 2147483648,
        decreases NUM_POINTS - k,
    {
        let checkers = board[k + 1];
        assert(pts.subrange(0, k + 1).drop_last() =~= pts.subrange(0, k as int));
        if checkers > 0 {
            mover += checkers as i64;
        } else {
            opponent -= checkers as i64;
        }
        k += 1;
    }
    assert(pts.subrange(0, 24) =~= pts);
    let white_off = CHECKERS_PER_PLAYER as i64 - mover - board[25] as i64;
    let black_off = CHECKERS_PER_PLAYER as i64 - opponent - board[0] as i64;
    no_min && mover <= i32::MAX as i64 && opponent <= i32::MAX as i64 && i32::MIN as i64
        <= white_off && white_off <= i32::MAX as i64 && i32::MIN as i64 <= black_off
        && black_off <= i32::MAX as i64
}

/// Fifteen a side, always: when a position places at most fifteen checkers of
/// a side on the points and its bar, that side's checkers on the converted
/// board, on its bar and borne off add up to exactly fifteen.
pub proof fn lemma_fifteen_a_side(board: Board, state: BoardState)
    requires
        is_puretd_of(board, state),
    ensures
        mover_on_board(board) + board[25] <= CHECKERS_PER_PLAYER ==>
            sum_positive(state.points@) + state.bar[WHITE as int] + state.off[WHITE as int]
                == CHECKERS_PER_PLAYER,
        opponent_on_board(board) + board[0] <= CHECKERS_PER_PLAYER ==>
            sum_negative(state.points@) + state.bar[BLACK as int] + state.off[BLACK as int]
                == CHECKERS_PER_PLAYER,
{
}

/// A borne-off count is never negative, however many checkers a malformed
/// position describes.
pub proof fn lemma_off_never_negative(board: Board, state: BoardState)
    requires
        is_puretd_of(board, state),
    ensures
        state.off[WHITE as int] >= 0,
        state.off[BLACK as int] >= 0,
{
}

} // verus!
