use revello::{play, possible_plys, start_board, Board, Piece, Player, Ply, Plys};

fn count_moves(board: &Board, depth: i32) -> i32 {
    if depth == 0 {
        return 1;
    }
    let mut total = 0;
    let plys = possible_plys(board);
    for ply in plys.to_vec_ply() {
        total += count_moves(&play(board, ply), depth - 1);
    }
    total
}

#[test]
fn test_move_gen() {
    let board = start_board();
    assert_eq!(count_moves(&board, 1), 4);
    assert_eq!(count_moves(&board, 2), 12);
    assert_eq!(count_moves(&board, 3), 56);
    assert_eq!(count_moves(&board, 4), 244);
    assert_eq!(count_moves(&board, 5), 1396);
    assert_eq!(count_moves(&board, 6), 8200);
    assert_eq!(count_moves(&board, 7), 55092);
    assert_eq!(count_moves(&board, 8), 390216);
}

#[test]
fn start_board_counts() {
    let board = start_board();
    assert_eq!(board.count_pieces(), 4);
    assert_eq!(board.count_black(), 2);
    assert_eq!(board.count_white(), 2);
    assert_eq!(board.get_turn(), Some(Player::Black));
    assert_eq!(board.get(3, 3), Some(Piece::White));
    assert_eq!(board.get(3, 4), Some(Piece::Black));
    assert_eq!(board.get(4, 3), Some(Piece::Black));
    assert_eq!(board.get(4, 4), Some(Piece::White));
    assert_eq!(board.get(0, 0), None);
}

#[test]
fn board_new_rejects_overlap() {
    assert!(Board::new(0b11, 0b01, Some(Player::Black)).is_none());
    let board = Board::new(0b10, 0b01, Some(Player::White)).unwrap();
    assert_eq!(board.black, 0b10);
    assert_eq!(board.white, 0b01);
    assert_eq!(board.turn, Some(Player::White));
}

#[test]
fn ply_construction() {
    assert!(Ply::new(0).is_none());
    assert!(Ply::new(0b11).is_none());
    assert!(Ply::new(0b100).is_some());
    assert_eq!(Ply::new(1u64 << 63).unwrap().mask(), 1u64 << 63);
    assert!(Ply::from_row_col(8, 0).is_none());
    assert!(Ply::from_row_col(0, 8).is_none());
    let ply = Ply::from_row_col(2, 3).unwrap();
    assert_eq!(ply.mask(), 1u64 << 19);
    assert_eq!(ply.to_row_col(), (2, 3));
}

#[test]
fn plys_listing() {
    let plys = Plys::new(0b1011);
    let listed = plys.to_vec_ply();
    let masks: Vec<u64> = listed.iter().map(|p| p.mask()).collect();
    assert_eq!(masks, vec![0b0001, 0b0010, 0b1000]);
    assert!(!plys.is_zero());
    assert!(Plys::new(0).is_zero());

    let mut cursor = plys.iter();
    assert_eq!(cursor.next().unwrap().mask(), 0b0001);
    assert_eq!(cursor.next().unwrap().mask(), 0b0010);
    assert_eq!(cursor.next().unwrap().mask(), 0b1000);
    assert!(cursor.next().is_none());
}

#[test]
fn opening_moves() {
    let board = start_board();
    let plys = possible_plys(&board);
    let mut coords: Vec<(usize, usize)> = plys.to_vec_ply().iter().map(|p| p.to_row_col()).collect();
    coords.sort();
    assert_eq!(coords, vec![(2, 3), (3, 2), (4, 5), (5, 4)]);
}

#[test]
fn opening_capture() {
    let board = start_board();
    let ply = Ply::from_row_col(2, 3).unwrap();
    assert!(ply.is_in(possible_plys(&board)));
    let next = play(&board, ply);
    // the white disc at (3,3) is flipped and (2,3) is taken by black
    assert_eq!(next.black, (1u64 << 19) | (1u64 << 27) | (1u64 << 28) | (1u64 << 35));
    assert_eq!(next.white, 1u64 << 36);
    assert_eq!(next.turn, Some(Player::White));
    assert_eq!(next.black & next.white, 0);
}

#[test]
fn noop_on_occupied_square() {
    let board = start_board();
    // (3,3) already holds a white disc
    let ply = Ply::from_row_col(3, 3).unwrap();
    let next = play(&board, ply);
    assert_eq!(next, board);
}

#[test]
fn noop_on_captureless_square() {
    let board = start_board();
    // (0,0) is empty but captures nothing
    let ply = Ply::from_row_col(0, 0).unwrap();
    let next = play(&board, ply);
    assert_eq!(next, board);
}

#[test]
fn noop_on_finished_game() {
    let board = Board::new(1, 2, None).unwrap();
    let ply = Ply::from_row_col(1, 0).unwrap();
    assert_eq!(play(&board, ply), board);
    assert!(possible_plys(&board).is_zero());
}

#[test]
fn game_ends_when_neither_side_can_move() {
    let black = 1u64 << 2; // (0,2)
    let white = 1u64 << 1; // (0,1)
    let board = Board::new(black, white, Some(Player::Black)).unwrap();
    // black plays (0,0), capturing (0,1); white then has no disc left, so
    // it cannot reply, and black has no further capture either: game over.
    let ply = Ply::from_row_col(0, 0).unwrap();
    assert!(ply.is_in(possible_plys(&board)));
    let next = play(&board, ply);
    assert_eq!(next.white, 0);
    assert_eq!(next.black, 0b111);
    assert_eq!(next.turn, None);
    assert!(possible_plys(&next).is_zero());
}

#[test]
fn pass_keeps_mover_when_opponent_stuck() {
    // Row 0: B W . and Row 2: B W . with a lone white elsewhere that black
    // can still attack after the first capture, while white never has a
    // reply anywhere.
    let black = (1u64 << 0) | (1u64 << 16);
    let white = (1u64 << 1) | (1u64 << 17);
    let board = Board::new(black, white, Some(Player::Black)).unwrap();
    let moves = possible_plys(&board);
    let ply = Ply::from_row_col(0, 2).unwrap();
    assert!(ply.is_in(moves));
    let next = play(&board, ply);
    // white's only disc left is at (2,1); white to move has no capture,
    // but black can still take (2,2): the turn returns to black.
    assert_eq!(next.turn, Some(Player::Black));
    assert_eq!(next.black, 0b111 | (1u64 << 16));
    assert_eq!(next.white, 1u64 << 17);
    // and the position stayed mutually exclusive
    assert_eq!(next.black & next.white, 0);
}
