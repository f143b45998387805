//! Players: the interface a game loop drives, and the automated player that
//! picks its move by iterative-deepening alpha-beta search under a time
//! budget derived from the clock time it has left.

use crate::board::{bit_masks, one_bit, possible_plys, spec_possible_plys, Board, Ply};
use crate::clock::instant_now;
use crate::eval::MinMaxEval;
use crate::search::{min_max, spec_deepening, table_consistent};
use crate::table::TranspositionTable;
use vstd::prelude::*;

verus! {

/// A participant in a game: it is shown the position between frames and is
/// asked for a move when it is its turn.
pub trait Player {
    /// Reacts to the current position between moves; a player that needs no
    /// interaction does nothing here.
    fn update(&mut self, board: &Board);

    /// Picks a legal move for the side to move, spending at most a share of
    /// the given remaining clock time. The caller must not ask on a
    /// position without legal moves.
    fn generate_ply(&self, board: &Board, time_left_ms: u64) -> (r: Ply)
        requires
            spec_possible_plys(*board) != 0,
        ensures
            one_bit(r@),
            r@ & spec_possible_plys(*board) == r@,
    ;
}

/// The engine's move decision: iterative deepening over the memoized
/// alpha-beta search, from depth one up to a ceiling of sixty, over one
/// fresh transposition table and the full score window, until the deadline
/// abandons a pass.
///
/// The answer is the recommendation of the deepest completed pass, exactly
/// as `spec_deepening` states it; until a pass completes, the first legal
/// move stands in, so even an instantly expired budget leaves a legal
/// answer. The budget of this one decision grows as the board fills: twice
/// the remaining clock time divided by the number of empty squares.
pub fn generate_move(board: &Board, time_left_ms: u64) -> (r: Ply)
    requires
        spec_possible_plys(*board) != 0,
    ensures
        one_bit(r@),
        r@ & spec_possible_plys(*board) == r@,
        r@ == bit_masks(spec_possible_plys(*board))[0] || exists|d: u32|
            1 <= d <= 60 && (#[trigger] spec_deepening(*board, d)).0.ply == Some(r),
{
    let moves = possible_plys(board).to_vec_ply();
    let mut best_ply = moves[0];
    proof {
        assert(moves@.map_values(|p: Ply| p@)[0] == moves@[0]@);
    }
    let alpha = MinMaxEval::min_value();
    let beta = MinMaxEval::max_value();
    let mut transposition_table = TranspositionTable::new();
    let start = instant_now();
    let pieces = board.count_pieces();
    let empty: u64 = if pieces >= 64 {
        1
    } else {
        (64 - pieces) as u64
    };
    let half = time_left_ms / empty;
    let allowed_ms: u64 = if half > u64::MAX / 2 {
        u64::MAX
    } else {
        2 * half
    };
    let mut depth: u32 = 1;
    while depth <= 60
        invariant
            one_bit(best_ply@),
            best_ply@ & spec_possible_plys(*board) == best_ply@,
            best_ply@ == bit_masks(spec_possible_plys(*board))[0] || exists|d: u32|
                1 <= d < depth && (#[trigger] spec_deepening(*board, d)).0.ply == Some(best_ply),
            table_consistent(transposition_table@),
            transposition_table@ == spec_deepening(*board, (depth - 1) as u32).1,
            alpha.value == i32::MIN,
            beta.value == i32::MAX,
            1 <= depth <= 61,
        decreases 61 - depth,
    {
        match min_max(
            *board,
            depth,
            &alpha,
            &beta,
            &mut transposition_table,
            start,
            allowed_ms,
        ) {
            Some(response) => {
                proof {
                    assert(spec_deepening(*board, depth).0 == response);
                    assert(spec_deepening(*board, depth).1 == transposition_table@);
                }
                if let Some(ply) = response.ply {
                    best_ply = ply;
                    proof {
                        assert((#[trigger] spec_deepening(*board, depth)).0.ply == Some(best_ply));
                    }
                }
            },
            None => {
                return best_ply;
            },
        }
        depth = depth + 1;
    }
    best_ply
}

/// The automated player: iterative-deepening memoized alpha-beta search.
#[derive(Clone)]
pub struct MinMaxPlayer {}

impl MinMaxPlayer {
    /// A fresh automated player.
    pub fn new() -> (r: MinMaxPlayer) {
        MinMaxPlayer {}
    }
}

impl Player for MinMaxPlayer {
    /// An automated player needs no interaction between moves.
    fn update(&mut self, _board: &Board) {
    }

    /// Asks the engine for the move decision.
    fn generate_ply(&self, board: &Board, time_left_ms: u64) -> (r: Ply) {
        generate_move(board, time_left_ms)
    }
}

} // verus!
