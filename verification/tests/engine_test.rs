use revello::player::Player as EnginePlayer;
use revello::{
    generate_move, instant_now, min_max, move_ordering, play, possible_plys, start_board,
    static_eval, Board, MinMaxEval, MinMaxPlayer, MinMaxResponse, Player, Ply, TranspositionEntry,
    TranspositionTable,
};

/// Plain full-width minimax without pruning, memoization or deadline,
/// maximizing for black, as a reference for the searched score.
fn reference_minimax(board: &Board, depth: u32) -> i32 {
    if depth == 0 {
        return static_eval(board).eval.value;
    }
    let plys = possible_plys(board);
    if plys.is_zero() {
        return static_eval(board).eval.value;
    }
    let children = plys.to_vec_ply();
    let maximizing = board.get_turn() == Some(Player::Black);
    let mut best = if maximizing { i32::MIN } else { i32::MAX };
    for ply in children {
        let value = reference_minimax(&play(board, ply), depth - 1);
        if maximizing {
            best = best.max(value);
        } else {
            best = best.min(value);
        }
    }
    best
}

fn searched_score(board: &Board, depth: u32) -> i32 {
    let alpha = MinMaxEval::min_value();
    let beta = MinMaxEval::max_value();
    let mut table = TranspositionTable::new();
    let response = min_max(
        *board,
        depth,
        &alpha,
        &beta,
        &mut table,
        instant_now(),
        1_000_000,
    )
    .expect("a generous deadline must not abort the search");
    response.eval.value
}

#[test]
fn alpha_beta_matches_full_minimax() {
    let board = start_board();
    for depth in 1..=3 {
        assert_eq!(searched_score(&board, depth), reference_minimax(&board, depth));
    }
    // also from a later position, after black took (2,3)
    let later = play(&board, Ply::from_row_col(2, 3).unwrap());
    for depth in 1..=3 {
        assert_eq!(searched_score(&later, depth), reference_minimax(&later, depth));
    }
}

#[test]
fn transposition_hit_is_answered_from_cache() {
    let board = start_board();
    let planted_ply = Ply::from_row_col(2, 3).unwrap();
    let mut response = MinMaxResponse::new_empty_ply(MinMaxEval::new(1234));
    response.set_ply(planted_ply);
    let entry = TranspositionEntry::new(response, 5);
    let mut table = TranspositionTable::new();
    table.insert(board, entry);

    let alpha = MinMaxEval::min_value();
    let beta = MinMaxEval::max_value();
    let answered = min_max(board, 3, &alpha, &beta, &mut table, instant_now(), 1_000_000)
        .expect("a generous deadline must not abort the search");
    assert_eq!(answered.eval.value, 1234);
    assert_eq!(answered.ply, Some(planted_ply));
    // a sufficient-depth hit leaves the table untouched
    let still = table.get(&board).unwrap();
    assert_eq!(still.get_depth(), 5);
    assert_eq!(still.get_minmax_response().eval.value, 1234);
}

#[test]
fn engine_entry_point_yields_legal_move() {
    let board = start_board();
    let ply = generate_move(&board, 100);
    assert!(ply.is_in(possible_plys(&board)));
    let ply_rushed = generate_move(&board, 0);
    assert!(ply_rushed.is_in(possible_plys(&board)));
}

#[test]
fn search_is_deterministic() {
    // equal inputs, generous deadline: two runs answer identically
    let board = start_board();
    let alpha = MinMaxEval::min_value();
    let beta = MinMaxEval::max_value();
    let mut t1 = TranspositionTable::new();
    let mut t2 = TranspositionTable::new();
    let r1 = min_max(board, 3, &alpha, &beta, &mut t1, instant_now(), 1_000_000).unwrap();
    let r2 = min_max(board, 3, &alpha, &beta, &mut t2, instant_now(), 1_000_000).unwrap();
    assert_eq!(r1.eval.value, r2.eval.value);
    assert_eq!(r1.ply, r2.ply);
}

#[test]
fn shallow_entries_are_not_trusted() {
    let board = start_board();
    let planted_ply = Ply::from_row_col(2, 3).unwrap();
    let mut response = MinMaxResponse::new_empty_ply(MinMaxEval::new(7777));
    response.set_ply(planted_ply);
    let mut table = TranspositionTable::new();
    table.insert(board, TranspositionEntry::new(response, 1));

    // the cached depth (1) is below the requested depth (2): the search
    // must expand the node itself instead of answering 7777
    let alpha = MinMaxEval::min_value();
    let beta = MinMaxEval::max_value();
    let answered = min_max(board, 2, &alpha, &beta, &mut table, instant_now(), 1_000_000)
        .expect("a generous deadline must not abort the search");
    assert_eq!(answered.eval.value, reference_minimax(&board, 2));
}

#[test]
fn deadline_still_yields_legal_move() {
    let board = start_board();
    let player = MinMaxPlayer::new();
    let ply = player.generate_ply(&board, 0);
    assert!(ply.is_in(possible_plys(&board)));
}

#[test]
fn generated_move_is_legal() {
    let board = start_board();
    let player = MinMaxPlayer::new();
    let ply = player.generate_ply(&board, 200);
    assert!(ply.is_in(possible_plys(&board)));
}

#[test]
fn static_eval_of_start_is_balanced() {
    let response = static_eval(&start_board());
    assert_eq!(response.eval.value, 0);
    assert!(response.ply.is_none());
}

#[test]
fn terminal_eval_saturates_by_disc_differential() {
    let black_won = Board::new(0b1, 0, None).unwrap();
    assert_eq!(static_eval(&black_won).eval.value, i32::MAX - 63);

    let white_won = Board::new(0, 0b1, None).unwrap();
    assert_eq!(static_eval(&white_won).eval.value, i32::MIN + 65);

    let tie = Board::new(0b01, 0b10, None).unwrap();
    assert_eq!(static_eval(&tie).eval.value, 0);
    assert!(static_eval(&tie).ply.is_none());
}

#[test]
fn corner_discs_are_safe() {
    // a lone black disc in the first-row first-column corner is safe and
    // contributes +10; moved off the corner edge it is not safe
    let corner = Board::new(1u64 << 0, 0, Some(Player::Black)).unwrap();
    assert_eq!(static_eval(&corner).eval.value, 10);
    let loose = Board::new(1u64 << 2, 0, Some(Player::Black)).unwrap();
    assert_eq!(static_eval(&loose).eval.value, 0);
}

#[test]
fn x_square_is_penalized() {
    // a black disc on (1,1) with its corner empty is an exposed X-square;
    // neither side can move, turn kept Some to request the heuristic
    let exposed = Board::new(1u64 << 9, 0, Some(Player::Black)).unwrap();
    let quiet = Board::new(1u64 << 2, 0, Some(Player::Black)).unwrap();
    assert_eq!(static_eval(&exposed).eval.value + 10, static_eval(&quiet).eval.value);
}

#[test]
fn table_is_last_write_wins() {
    let board = start_board();
    let other = play(&board, Ply::from_row_col(2, 3).unwrap());
    let mut table = TranspositionTable::new();
    assert!(table.get(&board).is_none());

    let first = TranspositionEntry::new(MinMaxResponse::new_empty_ply(MinMaxEval::new(1)), 0);
    let second = TranspositionEntry::new(MinMaxResponse::new_empty_ply(MinMaxEval::new(2)), 0);
    table.insert(board, first);
    assert_eq!(table.get(&board).unwrap().get_minmax_response().eval.value, 1);
    table.insert(board, second);
    assert_eq!(table.get(&board).unwrap().get_minmax_response().eval.value, 2);
    assert_eq!(table.get(&board).unwrap().get_depth(), 0);
    assert!(table.get(&other).is_none());
}

#[test]
fn move_ordering_lists_every_legal_move() {
    let board = start_board();
    let table = TranspositionTable::new();
    for depth in 1..=3 {
        let ordered = move_ordering(&board, &table, depth);
        let mut masks: Vec<u64> = ordered.iter().map(|p| p.mask()).collect();
        masks.sort();
        let mut expected: Vec<u64> =
            possible_plys(&board).to_vec_ply().iter().map(|p| p.mask()).collect();
        expected.sort();
        assert_eq!(masks, expected);
    }
}

#[test]
fn move_ordering_prefers_cached_best_for_black() {
    let board = start_board();
    let mut table = TranspositionTable::new();
    let moves = possible_plys(&board).to_vec_ply();
    // score each successor with a rising value; black sorts descending,
    // so the last-scored move must come out first
    for (i, ply) in moves.iter().enumerate() {
        let successor = play(&board, *ply);
        let response = MinMaxResponse::new_empty_ply(MinMaxEval::new(i as i32));
        table.insert(successor, TranspositionEntry::new(response, 0));
    }
    let ordered = move_ordering(&board, &table, 2);
    let masks: Vec<u64> = ordered.iter().map(|p| p.mask()).collect();
    let reversed: Vec<u64> = moves.iter().rev().map(|p| p.mask()).collect();
    assert_eq!(masks, reversed);
}

#[test]
fn minmax_value_types() {
    assert_eq!(MinMaxEval::new(17).value, 17);
    assert_eq!(MinMaxEval::max_value().value, i32::MAX);
    assert_eq!(MinMaxEval::min_value().value, i32::MIN);
    assert_eq!(MinMaxEval::zero().value, 0);
    assert!(MinMaxEval::new(3) > MinMaxEval::new(2));

    let mut response = MinMaxResponse::new_empty_ply(MinMaxEval::new(5));
    assert!(response.ply.is_none());
    let ply = Ply::from_row_col(4, 5).unwrap();
    response.set_ply(ply);
    assert_eq!(response.ply, Some(ply));
    assert_eq!(response.eval.value, 5);
}

#[test]
fn turn_bookkeeping() {
    let mut board = start_board();
    board.flip_turn();
    assert_eq!(board.get_turn(), Some(Player::White));
    board.flip_turn();
    assert_eq!(board.get_turn(), Some(Player::Black));
    board.set_turn(None);
    board.flip_turn();
    assert_eq!(board.get_turn(), None);
}

#[test]
fn self_play_reaches_a_finished_game() {
    let mut board = start_board();
    let player = MinMaxPlayer::new();
    let mut moves_made = 0;
    while board.get_turn().is_some() {
        // a running game always offers the side to move at least one move
        assert!(!possible_plys(&board).is_zero());
        let ply = player.generate_ply(&board, 5);
        board = play(&board, ply);
        // mutual exclusivity holds on every reachable board
        assert_eq!(board.black & board.white, 0);
        moves_made += 1;
        assert!(moves_made <= 60, "a game cannot outlast the empty squares");
    }
    assert!(possible_plys(&board).is_zero());
    assert_eq!(board.count_pieces(), board.count_black() + board.count_white());
}
