//! The search engine: recursive alpha-beta minimax over the move generator
//! and applicator, maximizing for black and minimizing for white, memoized
//! in a transposition table and abandoned cooperatively once a wall-clock
//! deadline has passed. `spec_search` is the whole per-node protocol at the
//! specification level; a search pass the deadline lets finish returns
//! exactly its answer.

use crate::board::{
    lemma_count_bits_pos, lemma_ply_from_view, one_bit, play, possible_plys, spec_play, spec_ply,
    spec_possible_plys, Board, Player, Ply,
};
use crate::clock::elapsed_millis;
use crate::eval::{spec_static_eval, spec_static_response, static_eval, MinMaxEval, MinMaxResponse};
use crate::table::{
    move_ordering, spec_entry, spec_ordered_moves, TranspositionEntry, TranspositionTable,
};
use vstd::prelude::*;

verus! {

/// A cached entry fits its board: a recommended move, if any, is a legal
/// move of that board, and an entry of depth one or more for a board that
/// has legal moves carries a recommendation.
pub open spec fn entry_consistent(board: Board, entry: TranspositionEntry) -> bool {
    &&& (entry.spec_response().ply matches Some(p) ==> one_bit(p@) && p@ & spec_possible_plys(
        board,
    ) == p@)
    &&& (entry.spec_depth() >= 1 && spec_possible_plys(board) != 0
        ==> entry.spec_response().ply is Some)
}

/// Every entry of the table fits its board.
pub open spec fn table_consistent(t: Map<Board, TranspositionEntry>) -> bool {
    forall|b: Board| #[trigger] t.contains_key(b) ==> entry_consistent(b, t[b])
}

/// The best response a node starts from: the worst score for the side to
/// move, with no move attached.
pub open spec fn spec_search_init(board: Board) -> MinMaxResponse {
    if board.turn == Some(Player::Black) {
        MinMaxResponse { eval: MinMaxEval { value: i32::MIN }, ply: None }
    } else {
        MinMaxResponse { eval: MinMaxEval { value: i32::MAX }, ply: None }
    }
}

/// One node of the search at the specification level: the transposition
/// cutoff, the leaf evaluation of a depth-zero or move-less position, and
/// otherwise the expansion of the ordered moves; paired with the table as
/// the node leaves it, its own answer cached at its depth.
pub open spec fn spec_search(
    table: Map<Board, TranspositionEntry>,
    board: Board,
    depth: u32,
    alpha: i32,
    beta: i32,
) -> (MinMaxResponse, Map<Board, TranspositionEntry>)
    decreases depth, 1int, 0int,
{
    if table.contains_key(board) && table[board].spec_depth() >= depth {
        (table[board].spec_response(), table)
    } else if depth == 0 || spec_possible_plys(board) == 0 {
        let resp = spec_static_response(board);
        (resp, table.insert(board, spec_entry(resp, depth)))
    } else {
        let moves = spec_ordered_moves(table, board, depth);
        let (best, after) = spec_search_moves(
            table,
            board,
            depth,
            alpha,
            beta,
            moves,
            0,
            spec_search_init(board),
        );
        (best, after.insert(board, spec_entry(best, depth)))
    }
}

/// The expansion of one node's moves from position `i` on: each move's
/// successor is searched one ply deeper through the threaded table, the
/// best response is updated by the side to move's rule (a tie replaces),
/// the window narrows, and expansion stops early once `beta < alpha`
/// (strict pruning).
pub open spec fn spec_search_moves(
    table: Map<Board, TranspositionEntry>,
    board: Board,
    depth: u32,
    alpha: i32,
    beta: i32,
    moves: Seq<u64>,
    i: int,
    best: MinMaxResponse,
) -> (MinMaxResponse, Map<Board, TranspositionEntry>)
    decreases depth, 0int, moves.len() - i,
{
    if i < 0 || i >= moves.len() || depth == 0 {
        (best, table)
    } else {
        let child = spec_play(board, moves[i]);
        let (val, t1) = spec_search(table, child, (depth - 1) as u32, alpha, beta);
        if board.turn == Some(Player::Black) {
            let best1 = if val.eval.value >= best.eval.value {
                MinMaxResponse { eval: val.eval, ply: Some(spec_ply(moves[i])) }
            } else {
                best
            };
            let alpha1 = if best1.eval.value > alpha {
                best1.eval.value
            } else {
                alpha
            };
            if beta < alpha1 {
                (best1, t1)
            } else {
                spec_search_moves(t1, board, depth, alpha1, beta, moves, i + 1, best1)
            }
        } else {
            let best1 = if val.eval.value <= best.eval.value {
                MinMaxResponse { eval: val.eval, ply: Some(spec_ply(moves[i])) }
            } else {
                best
            };
            let beta1 = if best1.eval.value < beta {
                best1.eval.value
            } else {
                beta
            };
            if beta1 < alpha {
                (best1, t1)
            } else {
                spec_search_moves(t1, board, depth, alpha, beta1, moves, i + 1, best1)
            }
        }
    }
}

/// The state of the iterative deepening after the pass at depth `d`: the
/// passes run at depths 1, 2, ... up to `d` over one shared table that
/// starts empty, each with the full score window; the response is the last
/// pass's answer. Depth zero stands for "no pass yet": an empty table and
/// the placeholder start response, which recommends no move.
pub open spec fn spec_deepening(board: Board, d: u32) -> (MinMaxResponse, Map<
    Board,
    TranspositionEntry,
>)
    decreases d,
{
    if d == 0 {
        (spec_search_init(board), Map::empty())
    } else {
        let prev = spec_deepening(board, (d - 1) as u32);
        spec_search(prev.1, board, d, i32::MIN, i32::MAX)
    }
}

/// Alpha-beta minimax from `board` with `depth` plies to go, inside the
/// score window `alpha..beta`, memoized in the transposition table.
///
/// Returns `None` exactly as the abort signal of a pass overtaken by the
/// deadline: the whole in-flight pass is abandoned and no partial value is
/// substituted. A completed call is pinned: its response and the final
/// table are exactly `spec_search` of the inputs — in particular a position
/// already cached at sufficient depth is answered with exactly the cached
/// response and the table is left unchanged, an uncached-or-stale leaf
/// answers the static evaluation and caches it at exactly the node's
/// depth, and the response's move is a legal move of `board`, present
/// whenever the depth is at least one and `board` has legal moves. Whether
/// or not the call completes, the table only grows: every board cached
/// before stays cached (entries may be overwritten, last write wins).
///
/// Pruning is strict: siblings stop being expanded only once `beta < alpha`,
/// so an exactly closed window still explores one more equal-valued branch.
pub fn min_max(
    board: Board,
    depth: u32,
    alpha: &MinMaxEval,
    beta: &MinMaxEval,
    transposition_table: &mut TranspositionTable,
    start_time: std::time::Instant,
    thinking_time_ms: u64,
) -> (r: Option<MinMaxResponse>)
    requires
        table_consistent(old(transposition_table)@),
    ensures
        table_consistent(final(transposition_table)@),
        ({
            let grown = final(transposition_table)@;
            forall|k: Board| old(transposition_table)@.contains_key(k) ==> grown.contains_key(k)
        }),
        r matches Some(resp) ==> resp == spec_search(
            old(transposition_table)@,
            board,
            depth,
            alpha.value,
            beta.value,
        ).0,
        r is Some ==> final(transposition_table)@ == spec_search(
            old(transposition_table)@,
            board,
            depth,
            alpha.value,
            beta.value,
        ).1,
        r matches Some(resp) ==> {
            &&& (resp.ply matches Some(p) ==> one_bit(p@) && p@ & spec_possible_plys(board) == p@)
            &&& (depth >= 1 && spec_possible_plys(board) != 0 ==> resp.ply is Some)
        },
        old(transposition_table)@.contains_key(board) && old(transposition_table)@[
            board
        ].spec_depth() >= depth && r is Some ==> r == Some(
            old(transposition_table)@[board].spec_response(),
        ) && final(transposition_table)@ == old(transposition_table)@,
        r matches Some(resp) ==> ({
            let cached = final(transposition_table)@;
            (!(old(transposition_table)@.contains_key(board) && old(transposition_table)@[
                board
            ].spec_depth() >= depth) && (depth == 0 || spec_possible_plys(board) == 0))
                ==> resp.eval.value == spec_static_eval(board) && resp.ply is None
                && cached[board].spec_depth() == depth
        }),
        r is Some ==> ({
            let cached = final(transposition_table)@;
            cached.contains_key(board) && cached[board].spec_depth() >= depth
        }),
        r matches Some(resp) ==> ({
            let cached = final(transposition_table)@;
            cached[board].spec_response() == resp
        }),
    decreases depth,
{
    if elapsed_millis(&start_time) >= thinking_time_ms {
        return None;
    }
    if let Some(lookup) = transposition_table.get(&board) {
        if lookup.get_depth() >= depth {
            return Some(lookup.get_minmax_response());
        }
    }
    if depth == 0 {
        let response = static_eval(&board);
        let entry = TranspositionEntry::new(response, depth);
        transposition_table.insert(board, entry);
        return Some(response);
    }
    let plys = possible_plys(&board);
    if plys.is_zero() {
        let response = static_eval(&board);
        let entry = TranspositionEntry::new(response, depth);
        transposition_table.insert(board, entry);
        return Some(response);
    }
    let mut alpha = *alpha;
    let mut beta = *beta;
    let ghost t0 = transposition_table@;
    let ghost a0 = alpha.value;
    let ghost b0 = beta.value;
    let ordered = move_ordering(&board, transposition_table, depth);
    let ghost moves_spec = spec_ordered_moves(t0, board, depth);
    proof {
        lemma_count_bits_pos(spec_possible_plys(board));
    }
    let maximizing = matches!(board.turn, Some(Player::Black));
    let mut best_move = if maximizing {
        MinMaxResponse { eval: MinMaxEval { value: i32::MIN }, ply: None }
    } else {
        MinMaxResponse { eval: MinMaxEval { value: i32::MAX }, ply: None }
    };
    let ghost goal = spec_search_moves(
        t0,
        board,
        depth,
        a0,
        b0,
        moves_spec,
        0,
        spec_search_init(board),
    );
    let mut idx: usize = 0;
    while idx < ordered.len()
        invariant_except_break
            idx <= ordered.len(),
            goal == spec_search_moves(
                transposition_table@,
                board,
                depth,
                alpha.value,
                beta.value,
                moves_spec,
                idx as int,
                best_move,
            ),
        invariant
            t0 == old(transposition_table)@,
            table_consistent(transposition_table@),
            forall|k: Board| t0.contains_key(k) ==> transposition_table@.contains_key(k),
            ordered@.len() > 0,
            ordered@.len() == moves_spec.len(),
            ordered@.map_values(|p: Ply| p@) == moves_spec,
            forall|i: int|
                0 <= i < ordered@.len() ==> one_bit(#[trigger] ordered@[i]@) && ordered@[i]@
                    & spec_possible_plys(board) == ordered@[i]@,
            idx > 0 ==> (best_move.ply matches Some(p) && one_bit(p@) && p@
                & spec_possible_plys(board) == p@),
            idx == 0 ==> best_move == spec_search_init(board),
            maximizing == (board.turn == Some(Player::Black)),
            depth >= 1,
            goal == spec_search_moves(t0, board, depth, a0, b0, moves_spec, 0, spec_search_init(board)),
        ensures
            table_consistent(transposition_table@),
            forall|k: Board| t0.contains_key(k) ==> transposition_table@.contains_key(k),
            (best_move.ply matches Some(p) && one_bit(p@) && p@ & spec_possible_plys(board)
                == p@),
            goal == (best_move, transposition_table@),
        decreases ordered.len() - idx,
    {
        let ply = ordered[idx];
        let new_board = play(&board, ply);
        proof {
            lemma_ply_from_view(ply);
            assert(ordered@.map_values(|p: Ply| p@)[idx as int] == ply@);
        }
        match min_max(
            new_board,
            depth - 1,
            &alpha,
            &beta,
            transposition_table,
            start_time,
            thinking_time_ms,
        ) {
            Some(min_max_val) => {
                if maximizing {
                    if min_max_val.eval.value >= best_move.eval.value {
                        best_move.eval = min_max_val.eval;
                        best_move.ply = Some(ply);
                    }
                    if best_move.eval.value > alpha.value {
                        alpha = best_move.eval;
                    }
                } else {
                    if min_max_val.eval.value <= best_move.eval.value {
                        best_move.eval = min_max_val.eval;
                        best_move.ply = Some(ply);
                    }
                    if best_move.eval.value < beta.value {
                        beta = best_move.eval;
                    }
                }
                if beta.value < alpha.value {
                    idx = idx + 1;
                    break;
                }
            },
            None => {
                return None;
            },
        }
        idx = idx + 1;
    }
    transposition_table.insert(board, TranspositionEntry::new(best_move, depth));
    Some(best_move)
}

} // verus!
