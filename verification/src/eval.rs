//! Heuristic scoring of a position and the score/move pair the search hands
//! back: mobility, corner-anchored safe discs and X-square liabilities for a
//! running game, a saturating disc-differential score for a finished one.

use crate::board::{
    count_bits, lemma_count_bits_le64, popcount, possible_plys, spec_possible_plys, Board, Player,
    Ply, NOT_COL_FIRST, NOT_COL_LAST, NOT_ROW_FIRST, NOT_ROW_LAST,
};
use vstd::prelude::*;

verus! {

/// A totally ordered search score. Ordering is solely on the value; the
/// extreme values serve as sentinel bounds for alpha-beta pruning.
#[derive(Clone, Copy, PartialEq, Eq, PartialOrd, Ord, Hash, Debug, Structural)]
pub struct MinMaxEval {
    pub value: i32,
}

impl MinMaxEval {
    /// Wraps a raw score.
    pub fn new(value: i32) -> (r: MinMaxEval)
        ensures
            r.value == value,
    {
        MinMaxEval { value }
    }

    /// The greatest score: a certain win for black, and the upper sentinel
    /// bound of the alpha-beta window.
    pub fn max_value() -> (r: MinMaxEval)
        ensures
            r.value == i32::MAX,
    {
        MinMaxEval { value: i32::MAX }
    }

    /// The least score: a certain win for white, and the lower sentinel
    /// bound of the alpha-beta window.
    pub fn min_value() -> (r: MinMaxEval)
        ensures
            r.value == i32::MIN,
    {
        MinMaxEval { value: i32::MIN }
    }

    /// The neutral score of an exactly tied outcome.
    pub fn zero() -> (r: MinMaxEval)
        ensures
            r.value == 0,
    {
        MinMaxEval { value: 0 }
    }
}

/// A search result: a score together with the best move found at that node,
/// or no move for a leaf judgment.
#[derive(Clone, Copy, PartialEq, Eq, Hash, Debug, Structural)]
pub struct MinMaxResponse {
    pub eval: MinMaxEval,
    pub ply: Option<Ply>,
}

impl MinMaxResponse {
    /// A leaf judgment: a score that recommends no move.
    pub fn new_empty_ply(eval: MinMaxEval) -> (r: MinMaxResponse)
        ensures
            r.eval == eval,
            r.ply is None,
    {
        MinMaxResponse { eval, ply: None }
    }

    /// Records the move this score belongs to.
    pub fn set_ply(&mut self, ply: Ply)
        ensures
            final(self).eval == old(self).eval,
            final(self).ply == Some(ply),
    {
        self.ply = Some(ply);
    }
}

/// One step of the safe-disc flood fill in the quadrant of the first-row,
/// first-column corner: a disc of `c` stays in the fill if each pull toward
/// that corner is covered by a filled disc or leaves the board.
pub open spec fn safe_step_nw(c: u64, m: u64) -> u64 {
    c & (m << 1 | !NOT_COL_FIRST) & (m << 8 | !NOT_ROW_FIRST) & (m << 9 | !(NOT_ROW_FIRST
        & NOT_COL_FIRST)) & (m << 7 | m >> 7 | !(NOT_ROW_FIRST & NOT_COL_FIRST))
}

/// One flood-fill step in the quadrant of the first-row, last-column corner.
pub open spec fn safe_step_ne(c: u64, m: u64) -> u64 {
    c & (m >> 1 | !NOT_COL_LAST) & (m << 8 | !NOT_ROW_FIRST) & (m << 7 | !(NOT_ROW_FIRST
        & NOT_COL_LAST)) & (m << 9 | m >> 9 | !(NOT_ROW_FIRST & NOT_COL_LAST))
}

/// One flood-fill step in the quadrant of the last-row, last-column corner.
pub open spec fn safe_step_se(c: u64, m: u64) -> u64 {
    c & (m >> 1 | !NOT_COL_LAST) & (m >> 8 | !NOT_ROW_LAST) & (m >> 9 | !(NOT_ROW_LAST
        & NOT_COL_LAST)) & (m << 7 | m >> 7 | !(NOT_ROW_LAST & NOT_COL_LAST))
}

/// One flood-fill step in the quadrant of the last-row, first-column corner.
pub open spec fn safe_step_sw(c: u64, m: u64) -> u64 {
    c & (m << 1 | !NOT_COL_FIRST) & (m >> 8 | !NOT_ROW_LAST) & (m >> 7 | !(NOT_ROW_LAST
        & NOT_COL_FIRST)) & (m << 9 | m >> 9 | !(NOT_ROW_LAST & NOT_COL_FIRST))
}

/// The flood fill of one quadrant after `k + 1` steps, seeded with the
/// discs themselves.
pub open spec fn safe_fold(quadrant: int, c: u64, k: nat) -> u64
    decreases k,
{
    let prev = if k == 0 {
        c
    } else {
        safe_fold(quadrant, c, (k - 1) as nat)
    };
    if quadrant == 0 {
        safe_step_nw(c, prev)
    } else if quadrant == 1 {
        safe_step_ne(c, prev)
    } else if quadrant == 2 {
        safe_step_se(c, prev)
    } else {
        safe_step_sw(c, prev)
    }
}

/// The discs of `c` the heuristic holds safe: the union of the four
/// corner-anchored flood fills, each run for five steps.
pub open spec fn spec_safe_discs(c: u64) -> u64 {
    safe_fold(0, c, 4) | safe_fold(1, c, 4) | safe_fold(2, c, 4) | safe_fold(3, c, 4)
}

/// The discs of `c` on an X-square (diagonally adjacent to a corner) whose
/// corner is not already held by `c`: a known tactical liability.
pub open spec fn spec_x_squares(c: u64) -> u64 {
    ((!c & 1u64) << 9 & c) | ((!c & (1u64 << 7)) << 7 & c) | ((!c & (1u64 << 56)) >> 7 & c) | ((!c
        & (1u64 << 63)) >> 9 & c)
}

/// Black's legal-move count minus white's, each taken as if that side were
/// to move, so black's mobility is the positive term whoever's turn it is.
pub open spec fn spec_mobility(board: Board) -> int {
    count_bits(
        spec_possible_plys(
            Board { black: board.black, white: board.white, turn: Some(Player::Black) },
        ),
    ) - count_bits(
        spec_possible_plys(
            Board { black: board.black, white: board.white, turn: Some(Player::White) },
        ),
    )
}

/// The heuristic score of a position. A finished game scores a saturating
/// extreme biased by the final disc differential, zero for an exact tie, so
/// terminal outcomes dominate every running-game heuristic score. A running
/// game scores mobility plus ten points per safe disc and minus ten per
/// exposed X-square, black positive and white negative.
pub open spec fn spec_static_eval(board: Board) -> int {
    let bc = count_bits(board.black) as int;
    let wc = count_bits(board.white) as int;
    if board.turn is None {
        if bc > wc {
            i32::MAX - 64 + bc - wc
        } else if wc > bc {
            i32::MIN + 64 + wc - bc
        } else {
            0
        }
    } else {
        let bs = count_bits(spec_safe_discs(board.black)) as int;
        let ws = count_bits(spec_safe_discs(board.white)) as int;
        let bx = count_bits(spec_x_squares(board.black)) as int;
        let wx = count_bits(spec_x_squares(board.white)) as int;
        spec_mobility(board) + 10 * (bs - ws) - 10 * (bx - wx)
    }
}

/// The heuristic score always fits a 32-bit value.
pub proof fn lemma_static_eval_in_range(board: Board)
    ensures
        i32::MIN <= spec_static_eval(board) <= i32::MAX,
{
    lemma_count_bits_le64(board.black);
    lemma_count_bits_le64(board.white);
    lemma_count_bits_le64(spec_safe_discs(board.black));
    lemma_count_bits_le64(spec_safe_discs(board.white));
    lemma_count_bits_le64(spec_x_squares(board.black));
    lemma_count_bits_le64(spec_x_squares(board.white));
    lemma_count_bits_le64(
        spec_possible_plys(
            Board { black: board.black, white: board.white, turn: Some(Player::Black) },
        ),
    );
    lemma_count_bits_le64(
        spec_possible_plys(
            Board { black: board.black, white: board.white, turn: Some(Player::White) },
        ),
    );
}

/// The whole response of the heuristic: its exact score, recommending no
/// move.
pub open spec fn spec_static_response(board: Board) -> MinMaxResponse {
    MinMaxResponse { eval: MinMaxEval { value: spec_static_eval(board) as i32 }, ply: None }
}

/// One executable flood-fill step of the given quadrant.
fn safe_step_x(quadrant: u8, c: u64, m: u64) -> (r: u64)
    requires
        quadrant < 4,
    ensures
        r == if quadrant == 0 {
            safe_step_nw(c, m)
        } else if quadrant == 1 {
            safe_step_ne(c, m)
        } else if quadrant == 2 {
            safe_step_se(c, m)
        } else {
            safe_step_sw(c, m)
        },
{
    if quadrant == 0 {
        c & (m << 1 | !NOT_COL_FIRST) & (m << 8 | !NOT_ROW_FIRST) & (m << 9 | !(NOT_ROW_FIRST
            & NOT_COL_FIRST)) & (m << 7 | m >> 7 | !(NOT_ROW_FIRST & NOT_COL_FIRST))
    } else if quadrant == 1 {
        c & (m >> 1 | !NOT_COL_LAST) & (m << 8 | !NOT_ROW_FIRST) & (m << 7 | !(NOT_ROW_FIRST
            & NOT_COL_LAST)) & (m << 9 | m >> 9 | !(NOT_ROW_FIRST & NOT_COL_LAST))
    } else if quadrant == 2 {
        c & (m >> 1 | !NOT_COL_LAST) & (m >> 8 | !NOT_ROW_LAST) & (m >> 9 | !(NOT_ROW_LAST
            & NOT_COL_LAST)) & (m << 7 | m >> 7 | !(NOT_ROW_LAST & NOT_COL_LAST))
    } else {
        c & (m << 1 | !NOT_COL_FIRST) & (m >> 8 | !NOT_ROW_LAST) & (m >> 7 | !(NOT_ROW_LAST
            & NOT_COL_FIRST)) & (m << 9 | m >> 9 | !(NOT_ROW_LAST & NOT_COL_FIRST))
    }
}

/// The five-step flood fill of one quadrant, executably.
fn safe_fill_x(quadrant: u8, c: u64) -> (r: u64)
    requires
        quadrant < 4,
    ensures
        r == safe_fold(quadrant as int, c, 4),
{
    let mut m = safe_step_x(quadrant, c, c);
    let mut k: u64 = 0;
    while k < 4
        invariant
            quadrant < 4,
            k <= 4,
            m == safe_fold(quadrant as int, c, k as nat),
        decreases 4 - k,
    {
        m = safe_step_x(quadrant, c, m);
        k = k + 1;
    }
    m
}

/// The heuristic safe discs of `c`, executably.
fn safe_discs(c: u64) -> (r: u64)
    ensures
        r == spec_safe_discs(c),
{
    safe_fill_x(0, c) | safe_fill_x(1, c) | safe_fill_x(2, c) | safe_fill_x(3, c)
}

/// The exposed X-square discs of `c`, executably.
fn x_squares(c: u64) -> (r: u64)
    ensures
        r == spec_x_squares(c),
{
    ((!c & 1u64) << 9u64 & c) | ((!c & (1u64 << 7u64)) << 7u64 & c) | ((!c & (1u64 << 56u64))
        >> 7u64 & c) | ((!c & (1u64 << 63u64)) >> 9u64 & c)
}

/// Scores the position heuristically, as a leaf judgment that recommends no
/// move: `spec_static_eval` states the exact value.
pub fn static_eval(board: &Board) -> (r: MinMaxResponse)
    ensures
        r == spec_static_response(*board),
        r.eval.value == spec_static_eval(*board),
        r.ply is None,
{
    proof {
        lemma_static_eval_in_range(*board);
    }
    let black_pieces: i32 = popcount(board.black) as i32;
    let white_pieces: i32 = popcount(board.white) as i32;
    if board.turn.is_none() {
        if black_pieces - white_pieces > 0 {
            return MinMaxResponse {
                eval: MinMaxEval { value: i32::MAX - 64 + black_pieces - white_pieces },
                ply: None,
            };
        } else if white_pieces - black_pieces > 0 {
            return MinMaxResponse {
                eval: MinMaxEval { value: i32::MIN + 64 + white_pieces - black_pieces },
                ply: None,
            };
        } else {
            return MinMaxResponse { eval: MinMaxEval { value: 0 }, ply: None };
        }
    }
    let n_black_safe: i32 = popcount(safe_discs(board.black)) as i32;
    let n_white_safe: i32 = popcount(safe_discs(board.white)) as i32;
    let n_black_x: i32 = popcount(x_squares(board.black)) as i32;
    let n_white_x: i32 = popcount(x_squares(board.white)) as i32;
    let black_to_move = Board { black: board.black, white: board.white, turn: Some(Player::Black) };
    let white_to_move = Board { black: board.black, white: board.white, turn: Some(Player::White) };
    let n_black_plys: i32 = popcount(possible_plys(&black_to_move).mask()) as i32;
    let n_white_plys: i32 = popcount(possible_plys(&white_to_move).mask()) as i32;
    let value: i32 = n_black_plys - n_white_plys + 10 * (n_black_safe - n_white_safe) - 10 * (
    n_black_x - n_white_x);
    MinMaxResponse { eval: MinMaxEval { value }, ply: None }
}

} // verus!
