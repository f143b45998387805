//! The game board and its rules: a bitboard pair for the two disc colors,
//! single-square moves (`Ply`), move sets (`Plys`), legal-move generation and
//! move application with capture by flipping.
//!
//! Square numbering, one bit per square of the 8x8 grid:
//! ```text
//! 00 01 02 03 04 05 06 07
//! 08 09 10 11 12 13 14 15
//! 16 17 18 19 20 21 22 23
//! 24 25 26 27 28 29 30 31
//! 32 33 34 35 36 37 38 39
//! 40 41 42 43 44 45 46 47
//! 48 49 50 51 52 53 54 55
//! 56 57 58 59 60 61 62 63
//! ```

use vstd::prelude::*;

verus! {

/// Squares outside the first row: a northward (`>> 8`) step may start here.
pub const NOT_ROW_FIRST: u64 = 0xFFFFFFFFFFFFFF00;
/// Squares outside the last row: a southward (`<< 8`) step may start here.
pub const NOT_ROW_LAST: u64 = 0x00FFFFFFFFFFFFFF;
/// Squares outside the rightmost file: an eastward (`<< 1`) step may start here.
pub const NOT_COL_LAST: u64 = 0x7F7F7F7F7F7F7F7F;
/// Squares outside the leftmost file: a westward (`>> 1`) step may start here.
pub const NOT_COL_FIRST: u64 = 0xFEFEFEFEFEFEFEFE;

/// One of the two sides.
#[derive(Clone, Copy, PartialEq, Eq, Hash, Debug, Structural)]
pub enum Player {
    Black,
    White,
}

/// The color of a disc standing on a square.
#[derive(Clone, Copy, PartialEq, Eq, Hash, Debug, Structural)]
pub enum Piece {
    Black,
    White,
}

impl Player {
    /// The other side.
    pub open spec fn spec_opposite(self) -> Player {
        match self {
            Player::Black => Player::White,
            Player::White => Player::Black,
        }
    }

    /// The other side.
    pub fn opposite(self) -> (r: Player)
        ensures
            r == self.spec_opposite(),
    {
        match self {
            Player::Black => Player::White,
            Player::White => Player::Black,
        }
    }
}

/// Holds when exactly one bit of `m` is set.
pub open spec fn one_bit(m: u64) -> bool {
    m != 0 && m & ((m - 1) as u64) == 0
}

/// A move: a mask with exactly one bit set, the target square.
#[derive(Clone, Copy, PartialEq, Eq, Hash, Debug, Structural)]
pub struct Ply {
    mask: u64,
}

impl View for Ply {
    type V = u64;

    closed spec fn view(&self) -> u64 {
        self.mask
    }
}

/// The move whose mask is `m`, at the specification level. Meaningful for
/// single-bit masks; an executable `Ply` always equals `spec_ply` of its
/// own mask.
pub closed spec fn spec_ply(m: u64) -> Ply {
    Ply { mask: m }
}

/// A move is determined by its mask.
pub proof fn lemma_ply_from_view(p: Ply)
    ensures
        p == spec_ply(p@),
{
}

/// The mask of `spec_ply(m)` is `m`.
pub proof fn lemma_spec_ply_view(m: u64)
    ensures
        spec_ply(m)@ == m,
{
}

/// A set of moves: a mask whose set bits are target squares.
#[derive(Clone, Copy, PartialEq, Eq, Hash, Debug, Structural)]
pub struct Plys {
    mask: u64,
}

impl View for Plys {
    type V = u64;

    closed spec fn view(&self) -> u64 {
        self.mask
    }
}

impl Ply {
    #[verifier::type_invariant]
    spec fn type_inv(self) -> bool {
        one_bit(self.mask)
    }

    /// Accepts exactly the masks with a single set bit; zero and multi-bit
    /// masks are rejected.
    pub fn new(mask: u64) -> (r: Option<Ply>)
        ensures
            r is Some <==> one_bit(mask),
            r is Some ==> r.unwrap()@ == mask,
    {
        if mask != 0 && mask & (mask - 1) == 0 {
            Some(Ply { mask })
        } else {
            None
        }
    }

    /// The move's mask.
    pub fn mask(&self) -> (r: u64)
        ensures
            r == self@,
            one_bit(r),
    {
        proof {
            use_type_invariant(self);
        }
        self.mask
    }

    /// Builds the move that targets the square in the given row and column;
    /// rejects coordinates off the board.
    pub fn from_row_col(row: usize, col: usize) -> (r: Option<Ply>)
        ensures
            r is Some <==> row < 8 && col < 8,
            r is Some ==> r.unwrap()@ == 1u64 << (row * 8 + col),
    {
        if row < 8 && col < 8 {
            let index: u64 = row as u64 * 8 + col as u64;
            let mask: u64 = 1u64 << index;
            proof {
                let i = index;
                assert(i < 64 ==> (1u64 << i) != 0 && (1u64 << i) & (((1u64 << i) - 1) as u64)
                    == 0) by (bit_vector);
            }
            Some(Ply { mask })
        } else {
            None
        }
    }

    /// The row and column of the target square.
    pub fn to_row_col(&self) -> (r: (usize, usize))
        ensures
            r.0 < 8,
            r.1 < 8,
            self@ == 1u64 << (r.0 * 8 + r.1),
    {
        proof {
            use_type_invariant(self);
        }
        let index = self.mask.trailing_zeros() as usize;
        proof {
            vstd::std_specs::bits::axiom_u64_trailing_zeros(self.mask);
            let m = self.mask;
            let t = vstd::std_specs::bits::u64_trailing_zeros(self.mask) as u64;
            assert(m != 0 && m & (((m - 1) as u64)) == 0 && t < 64 && (m >> t) & 1u64 == 1u64
                ==> m == 1u64 << t) by (bit_vector);
            assert(self@ == 1u64 << ((index / 8) * 8 + index % 8));
        }
        (index / 8, index % 8)
    }

    /// Membership of this move's square in a move set.
    pub fn is_in(&self, plys: Plys) -> (r: bool)
        ensures
            r == (self@ & plys@ != 0),
    {
        self.mask & plys.mask != 0
    }
}

impl Plys {
    /// Wraps a mask of target squares; any mask is a valid set.
    pub fn new(plys: u64) -> (r: Plys)
        ensures
            r@ == plys,
    {
        Plys { mask: plys }
    }

    /// Whether the set holds no move.
    pub fn is_zero(&self) -> (r: bool)
        ensures
            r == (self@ == 0),
    {
        self.mask == 0
    }

    /// The set's mask.
    pub fn mask(&self) -> (r: u64)
        ensures
            r == self@,
    {
        self.mask
    }

    /// A cursor over the squares of the set.
    pub fn iter(self) -> (r: PlysIter)
        ensures
            r@ == self@,
    {
        PlysIter { mask: self.mask }
    }

    /// Lists the set's squares as moves, lowest square first: one move per
    /// set bit, in strictly increasing mask order, and nothing forgotten:
    /// the union of the listed masks is exactly the set.
    pub fn to_vec_ply(self) -> (r: Vec<Ply>)
        ensures
            r@.map_values(|p: Ply| p@) == bit_masks(self@),
            r@.len() == count_bits(self@),
            forall|i: int|
                0 <= i < r@.len() ==> one_bit(#[trigger] r@[i]@) && r@[i]@ & self@ == r@[i]@,
            forall|i: int, k: int| 0 <= i < k < r@.len() ==> r@[i]@ < r@[k]@,
            masks_union(r@) == self@,
            self@ != 0 ==> r@.len() > 0,
    {
        let m = self.mask;
        let mut ret: Vec<Ply> = Vec::new();
        let mut bit: u64 = 0;
        proof {
            assert(((m >> 0u64) << 0u64) | 0u64 == m) by (bit_vector);
        }
        while bit < 64
            invariant
                bit <= 64,
                ret@.len() == count_bits_upto(m, bit as nat),
                forall|i: int|
                    0 <= i < ret@.len() ==> one_bit(#[trigger] ret@[i]@) && ret@[i]@ & m
                        == ret@[i]@,
                forall|i: int, k: int| 0 <= i < k < ret@.len() ==> ret@[i]@ < ret@[k]@,
                bit < 64 ==> forall|i: int| 0 <= i < ret@.len() ==> #[trigger] ret@[i]@ < 1u64
                    << bit,
                bit < 64 ==> ((m >> bit) << bit) | masks_union(ret@) == m,
                bit == 64 ==> masks_union(ret@) == m,
                ret@.map_values(|p: Ply| p@) == bit_masks_upto(m, bit as nat),
            decreases 64 - bit,
        {
            let ghost prev = ret@;
            if (m >> bit) & 1 == 1 {
                proof {
                    lemma_shift_one_bit(bit);
                    lemma_bit_subset(m, bit);
                }
                ret.push(Ply { mask: 1u64 << bit });
                proof {
                    assert(ret@.drop_last() == prev);
                    lemma_union_step_set(m, masks_union(prev), bit);
                    assert(ret@.map_values(|p: Ply| p@) =~= prev.map_values(|p: Ply| p@).push(
                        1u64 << bit,
                    ));
                }
            } else {
                proof {
                    lemma_union_step_clear(m, masks_union(prev), bit);
                }
            }
            proof {
                if bit + 1 < 64 {
                    lemma_shift_increasing(bit, (bit + 1) as u64);
                }
            }
            bit = bit + 1;
        }
        proof {
            if m != 0 {
                lemma_count_bits_pos(m);
            }
        }
        ret
    }
}

/// The masks of the set bits of `m` below position `n`, ascending.
pub open spec fn bit_masks_upto(m: u64, n: nat) -> Seq<u64>
    decreases n,
{
    if n == 0 {
        Seq::empty()
    } else {
        let prev = bit_masks_upto(m, (n - 1) as nat);
        if (m >> ((n - 1) as u64)) & 1 == 1 {
            prev.push(1u64 << ((n - 1) as u64))
        } else {
            prev
        }
    }
}

/// The masks of the set bits of `m`, ascending.
pub open spec fn bit_masks(m: u64) -> Seq<u64> {
    bit_masks_upto(m, 64)
}

/// The union of the masks of a move list.
pub open spec fn masks_union(s: Seq<Ply>) -> u64
    decreases s.len(),
{
    if s.len() == 0 {
        0u64
    } else {
        masks_union(s.drop_last()) | s.last()@
    }
}

/// Collecting bit `b` of `m` moves the uncollected remainder one bit up.
proof fn lemma_union_step_set(m: u64, u: u64, b: u64)
    requires
        b < 64,
        (m >> b) & 1 == 1,
        ((m >> b) << b) | u == m,
    ensures
        b + 1 < 64 ==> ((m >> ((b + 1) as u64)) << ((b + 1) as u64)) | (u | (1u64 << b)) == m,
        b + 1 == 64 ==> (u | (1u64 << b)) == m,
{
    assert((b + 1 < 64 ==> ((m >> ((b + 1) as u64)) << ((b + 1) as u64)) | (u | (1u64 << b)) == m)
        && (b + 1 == 64 ==> (u | (1u64 << b)) == m)) by (bit_vector)
        requires
            b < 64,
            (m >> b) & 1 == 1,
            ((m >> b) << b) | u == m,
    ;
}

/// Skipping the clear bit `b` of `m` moves the uncollected remainder one
/// bit up.
proof fn lemma_union_step_clear(m: u64, u: u64, b: u64)
    requires
        b < 64,
        (m >> b) & 1 != 1,
        ((m >> b) << b) | u == m,
    ensures
        b + 1 < 64 ==> ((m >> ((b + 1) as u64)) << ((b + 1) as u64)) | u == m,
        b + 1 == 64 ==> u == m,
{
    assert((b + 1 < 64 ==> ((m >> ((b + 1) as u64)) << ((b + 1) as u64)) | u == m) && (b + 1 == 64
        ==> u == m)) by (bit_vector)
        requires
            b < 64,
            (m >> b) & 1 != 1,
            ((m >> b) << b) | u == m,
    ;
}

/// Bit `j` of `m` is set.
pub open spec fn bit_set(m: u64, j: u64) -> bool {
    j < 64 && (m >> j) & 1 == 1
}

/// A mask with exactly one bit set has that form.
proof fn lemma_shift_one_bit(j: u64)
    requires
        j < 64,
    ensures
        one_bit(1u64 << j),
{
    assert(j < 64 ==> (1u64 << j) != 0 && (1u64 << j) & (((1u64 << j) - 1) as u64) == 0)
        by (bit_vector);
}

/// A set bit of `m`, taken alone, is a subset of `m`.
proof fn lemma_bit_subset(m: u64, j: u64)
    requires
        bit_set(m, j),
    ensures
        (1u64 << j) & m == 1u64 << j,
{
    assert(j < 64 && (m >> j) & 1 == 1 ==> (1u64 << j) & m == 1u64 << j) by (bit_vector);
}

/// Single-bit masks are ordered as their bit positions.
proof fn lemma_shift_increasing(j: u64, k: u64)
    requires
        j < k < 64,
    ensures
        1u64 << j < 1u64 << k,
{
    assert(j < k < 64 ==> 1u64 << j < 1u64 << k) by (bit_vector);
}

/// A cursor over the squares of a move set, lowest square first.
#[derive(Clone, Copy, PartialEq, Eq, Hash, Debug, Structural)]
pub struct PlysIter {
    mask: u64,
}

impl View for PlysIter {
    type V = u64;

    closed spec fn view(&self) -> u64 {
        self.mask
    }
}

impl PlysIter {
    /// Hands out the lowest remaining square as a move and removes it; `None`
    /// once the set is exhausted.
    pub fn next(&mut self) -> (r: Option<Ply>)
        ensures
            old(self)@ == 0 ==> r is None && final(self)@ == 0,
            old(self)@ != 0 ==> {
                let j = vstd::std_specs::bits::u64_trailing_zeros(old(self)@) as u64;
                &&& r is Some
                &&& r.unwrap()@ == 1u64 << j
                &&& final(self)@ == old(self)@ & !(1u64 << j)
            },
    {
        if self.mask == 0 {
            return None;
        }
        let j = self.mask.trailing_zeros();
        proof {
            vstd::std_specs::bits::axiom_u64_trailing_zeros(self.mask);
            lemma_shift_one_bit(j as u64);
        }
        let lsb = 1u64 << (j as u64);
        self.mask = self.mask & !lsb;
        Some(Ply { mask: lsb })
    }
}

/// The game state: one bitmask per color and whose turn it is, where `None`
/// means the game has ended. The two masks never overlap.
#[derive(Clone, Copy, PartialEq, Eq, Hash, Debug, Structural)]
pub struct Board {
    pub black: u64,
    pub white: u64,
    pub turn: Option<Player>,
}

impl Board {
    /// The masks of the two colors are mutually exclusive.
    pub open spec fn wf(self) -> bool {
        self.black & self.white == 0
    }

    /// Builds a board from raw masks; rejects overlapping masks.
    pub fn new(black: u64, white: u64, turn: Option<Player>) -> (r: Option<Board>)
        ensures
            r is Some <==> black & white == 0,
            r is Some ==> r.unwrap() == (Board { black, white, turn }),
            r is Some ==> r.unwrap().wf(),
    {
        if black & white == 0 {
            Some(Board { black, white, turn })
        } else {
            None
        }
    }

    /// Reads the occupant of the square in the given row and column.
    pub fn get(&self, row: usize, col: usize) -> (r: Option<Piece>)
        requires
            row < 8,
            col < 8,
        ensures
            r == Some(Piece::White) <==> (1u64 << (row * 8 + col)) & self.white != 0,
            r == Some(Piece::Black) <==> ((1u64 << (row * 8 + col)) & self.white == 0 && (1u64 << (
            row * 8 + col)) & self.black != 0),
            r is None <==> ((1u64 << (row * 8 + col)) & self.white == 0 && (1u64 << (row * 8 + col))
                & self.black == 0),
    {
        let index: u64 = row as u64 * 8 + col as u64;
        if ((1u64 << index) & self.white) != 0 {
            Some(Piece::White)
        } else if ((1u64 << index) & self.black) != 0 {
            Some(Piece::Black)
        } else {
            None
        }
    }

    /// Hands the turn to the other side; a finished game stays finished.
    pub fn flip_turn(&mut self)
        ensures
            final(self).black == old(self).black,
            final(self).white == old(self).white,
            final(self).turn == match old(self).turn {
                None => None,
                Some(p) => Some(p.spec_opposite()),
            },
    {
        match self.turn {
            None => {},
            Some(p) => {
                self.turn = Some(p.opposite());
            },
        }
    }

    /// Overwrites whose turn it is.
    pub fn set_turn(&mut self, turn: Option<Player>)
        ensures
            final(self).black == old(self).black,
            final(self).white == old(self).white,
            final(self).turn == turn,
    {
        self.turn = turn;
    }

    /// Whose turn it is, `None` once the game has ended.
    pub fn get_turn(&self) -> (r: Option<Player>)
        ensures
            r == self.turn,
    {
        self.turn
    }

    /// How many squares hold a disc of either color.
    pub fn count_pieces(&self) -> (r: i32)
        ensures
            r == count_bits(self.black | self.white),
            0 <= r <= 64,
    {
        popcount(self.black | self.white) as i32
    }

    /// How many squares hold a black disc.
    pub fn count_black(&self) -> (r: i32)
        ensures
            r == count_bits(self.black),
            0 <= r <= 64,
    {
        popcount(self.black) as i32
    }

    /// How many squares hold a white disc.
    pub fn count_white(&self) -> (r: i32)
        ensures
            r == count_bits(self.white),
            0 <= r <= 64,
    {
        popcount(self.white) as i32
    }
}

/// The canonical opening position: the center block of four squares holds the
/// two colors on opposing diagonals, and the first move belongs to black.
pub fn start_board() -> (r: Board)
    ensures
        r.black == 0x0000000810000000u64,
        r.white == 0x0000001008000000u64,
        r.turn == Some(Player::Black),
        r.wf(),
{
    proof {
        assert(0x0000000810000000u64 & 0x0000001008000000u64 == 0) by (bit_vector);
    }
    Board { black: 0x0000000810000000, white: 0x0000001008000000, turn: Some(Player::Black) }
}

/// One move along the direction given by the shift distance `sh` and its
/// orientation `left`, from the squares of `m` inside the edge mask `edge`.
pub open spec fn dir_shift(m: u64, edge: u64, left: bool, sh: u64) -> u64 {
    if left {
        (m & edge) << sh
    } else {
        (m & edge) >> sh
    }
}

/// One ray-casting step: the squares one shift further along the direction
/// that are opponent-occupied and do not cross the board edge. The direction
/// is given by the shift distance `sh`, its orientation `left`, and the edge
/// mask `edge` of the squares a step may start from and land on.
pub open spec fn dir_step(m: u64, opp: u64, edge: u64, left: bool, sh: u64) -> u64 {
    dir_shift(m, edge, left, sh) & opp & edge
}

/// The frontier after `k + 1` ray-casting steps from `src`: every opponent
/// square reachable from a square of `src` along the direction through
/// opponent squares only, in at most `k + 1` steps.
pub open spec fn dir_reach(src: u64, opp: u64, edge: u64, left: bool, sh: u64, k: nat) -> u64
    decreases k,
{
    if k == 0 {
        dir_step(src, opp, edge, left, sh)
    } else {
        let prev = dir_reach(src, opp, edge, left, sh, (k - 1) as nat);
        prev | dir_step(prev, opp, edge, left, sh)
    }
}

/// The legal destinations contributed by one direction: the empty square one
/// step beyond a frontier of opponent squares anchored at `src`. Six
/// extensions cover the longest possible run on an 8x8 board.
pub open spec fn dir_moves(src: u64, opp: u64, edge: u64, left: bool, sh: u64, occupied: u64) -> u64 {
    dir_shift(dir_reach(src, opp, edge, left, sh, 5), edge, left, sh) & !occupied
}

/// The legal destinations for discs `player` against discs `opp`: the union
/// of the eight directions' contributions.
pub open spec fn spec_possible_from(player: u64, opp: u64) -> u64 {
    let occupied = player | opp;
    dir_moves(player, opp, NOT_ROW_FIRST, false, 8, occupied) | dir_moves(
        player,
        opp,
        NOT_ROW_LAST,
        true,
        8,
        occupied,
    ) | dir_moves(player, opp, NOT_COL_LAST, true, 1, occupied) | dir_moves(
        player,
        opp,
        NOT_COL_FIRST,
        false,
        1,
        occupied,
    ) | dir_moves(player, opp, NOT_ROW_FIRST & NOT_COL_LAST, false, 7, occupied) | dir_moves(
        player,
        opp,
        NOT_ROW_LAST & NOT_COL_LAST,
        true,
        9,
        occupied,
    ) | dir_moves(player, opp, NOT_ROW_LAST & NOT_COL_FIRST, true, 7, occupied) | dir_moves(
        player,
        opp,
        NOT_ROW_FIRST & NOT_COL_FIRST,
        false,
        9,
        occupied,
    )
}

/// The set of legal moves on `board` for the side to move; empty when the
/// game has ended.
pub open spec fn spec_possible_plys(board: Board) -> u64 {
    match board.turn {
        None => 0,
        Some(Player::Black) => spec_possible_from(board.black, board.white),
        Some(Player::White) => spec_possible_from(board.white, board.black),
    }
}

/// One ray-casting step, executably.
fn dir_step_x(m: u64, opp: u64, edge: u64, left: bool, sh: u64) -> (r: u64)
    requires
        sh < 64,
    ensures
        r == dir_step(m, opp, edge, left, sh),
{
    if left {
        ((m & edge) << sh) & opp & edge
    } else {
        ((m & edge) >> sh) & opp & edge
    }
}

/// The frontier after six ray-casting steps, executably.
fn dir_reach_x(src: u64, opp: u64, edge: u64, left: bool, sh: u64) -> (r: u64)
    requires
        sh < 64,
    ensures
        r == dir_reach(src, opp, edge, left, sh, 5),
{
    let mut frontier = dir_step_x(src, opp, edge, left, sh);
    let mut k: u64 = 0;
    while k < 5
        invariant
            sh < 64,
            k <= 5,
            frontier == dir_reach(src, opp, edge, left, sh, k as nat),
        decreases 5 - k,
    {
        frontier = frontier | dir_step_x(frontier, opp, edge, left, sh);
        k = k + 1;
    }
    frontier
}

/// The legal destinations contributed by one direction, executably.
fn dir_moves_x(src: u64, opp: u64, edge: u64, left: bool, sh: u64, occupied: u64) -> (r: u64)
    requires
        sh < 64,
    ensures
        r == dir_moves(src, opp, edge, left, sh, occupied),
{
    let frontier = dir_reach_x(src, opp, edge, left, sh);
    let shifted = if left {
        (frontier & edge) << sh
    } else {
        (frontier & edge) >> sh
    };
    shifted & !occupied
}

/// Computes the set of legal moves for the side to move: every empty square
/// that, played by that side, would capture at least one opposing run. A
/// finished game has no legal moves.
pub fn possible_plys(board: &Board) -> (r: Plys)
    ensures
        r@ == spec_possible_plys(*board),
{
    let (player, opp) = match board.turn {
        None => {
            return Plys { mask: 0 };
        },
        Some(Player::Black) => (board.black, board.white),
        Some(Player::White) => (board.white, board.black),
    };
    let occupied = player | opp;
    let n = dir_moves_x(player, opp, NOT_ROW_FIRST, false, 8, occupied);
    let s = dir_moves_x(player, opp, NOT_ROW_LAST, true, 8, occupied);
    let e = dir_moves_x(player, opp, NOT_COL_LAST, true, 1, occupied);
    let w = dir_moves_x(player, opp, NOT_COL_FIRST, false, 1, occupied);
    let ne = dir_moves_x(player, opp, NOT_ROW_FIRST & NOT_COL_LAST, false, 7, occupied);
    let se = dir_moves_x(player, opp, NOT_ROW_LAST & NOT_COL_LAST, true, 9, occupied);
    let sw = dir_moves_x(player, opp, NOT_ROW_LAST & NOT_COL_FIRST, true, 7, occupied);
    let nw = dir_moves_x(player, opp, NOT_ROW_FIRST & NOT_COL_FIRST, false, 9, occupied);
    Plys { mask: n | s | e | w | ne | se | sw | nw }
}

/// The flips realized along one direction: a candidate ray of opponent
/// squares cast from the target square meets a backstop ray cast from the
/// player's own discs the opposite way; only their intersection is captured.
pub open spec fn dir_flip(
    uply: u64,
    player: u64,
    opp: u64,
    edge: u64,
    redge: u64,
    left: bool,
    sh: u64,
) -> u64 {
    dir_reach(uply, opp, edge, left, sh, 5) & dir_reach(player, opp, redge, !left, sh, 5)
}

/// Every disc captured by playing the square `uply`: the union of the eight
/// directions' realized flips.
pub open spec fn spec_flips(uply: u64, player: u64, opp: u64) -> u64 {
    dir_flip(uply, player, opp, NOT_ROW_FIRST, NOT_ROW_LAST, false, 8) | dir_flip(
        uply,
        player,
        opp,
        NOT_ROW_LAST,
        NOT_ROW_FIRST,
        true,
        8,
    ) | dir_flip(uply, player, opp, NOT_COL_LAST, NOT_COL_FIRST, true, 1) | dir_flip(
        uply,
        player,
        opp,
        NOT_COL_FIRST,
        NOT_COL_LAST,
        false,
        1,
    ) | dir_flip(
        uply,
        player,
        opp,
        NOT_ROW_FIRST & NOT_COL_LAST,
        NOT_ROW_LAST & NOT_COL_FIRST,
        false,
        7,
    ) | dir_flip(
        uply,
        player,
        opp,
        NOT_ROW_LAST & NOT_COL_LAST,
        NOT_ROW_FIRST & NOT_COL_FIRST,
        true,
        9,
    ) | dir_flip(
        uply,
        player,
        opp,
        NOT_ROW_LAST & NOT_COL_FIRST,
        NOT_ROW_FIRST & NOT_COL_LAST,
        true,
        7,
    ) | dir_flip(
        uply,
        player,
        opp,
        NOT_ROW_FIRST & NOT_COL_FIRST,
        NOT_ROW_LAST & NOT_COL_LAST,
        false,
        9,
    )
}

/// The discs of the side to move; meaningful only while the game is running.
pub open spec fn mover_discs(board: Board) -> u64 {
    if board.turn == Some(Player::Black) {
        board.black
    } else {
        board.white
    }
}

/// The discs of the side not to move; meaningful only while the game is
/// running.
pub open spec fn opponent_discs(board: Board) -> u64 {
    if board.turn == Some(Player::Black) {
        board.white
    } else {
        board.black
    }
}

/// The successor of `board` after playing the square `uply`.
///
/// A finished game, an occupied target and a capture-free target all leave
/// the board unchanged. Otherwise the captured discs change color, the target
/// square takes the mover's color, and the turn advances: to the opponent if
/// it has a reply, back to the mover if only the mover can move again (a
/// pass), and to `None` if neither side has a legal move (the game ends).
pub open spec fn spec_play(board: Board, uply: u64) -> Board {
    match board.turn {
        None => board,
        Some(mover) => {
            let player = mover_discs(board);
            let opp = opponent_discs(board);
            if uply & (player | opp) != 0 {
                board
            } else {
                let flip = spec_flips(uply, player, opp);
                if flip == 0 {
                    board
                } else {
                    let new_black = if mover == Player::Black {
                        (board.black ^ flip) | uply
                    } else {
                        board.black ^ flip
                    };
                    let new_white = if mover == Player::White {
                        (board.white ^ flip) | uply
                    } else {
                        board.white ^ flip
                    };
                    let to_opp = Board {
                        black: new_black,
                        white: new_white,
                        turn: Some(mover.spec_opposite()),
                    };
                    if spec_possible_plys(to_opp) != 0 {
                        to_opp
                    } else {
                        let back = Board { black: new_black, white: new_white, turn: Some(mover) };
                        if spec_possible_plys(back) != 0 {
                            back
                        } else {
                            Board { black: new_black, white: new_white, turn: None }
                        }
                    }
                }
            }
        },
    }
}

/// A value masked twice by `o` keeps its first masking.
proof fn lemma_mask_absorb(s: u64, o: u64, e: u64)
    ensures
        ((s & o) & e) & o == (s & o) & e,
{
    assert(((s & o) & e) & o == (s & o) & e) by (bit_vector);
}

/// A union of two subsets of `o` is a subset of `o`.
proof fn lemma_or_subset(a: u64, b: u64, o: u64)
    requires
        a & o == a,
        b & o == b,
    ensures
        (a | b) & o == (a | b),
{
    assert((a | b) & o == (a | b)) by (bit_vector)
        requires
            a & o == a,
            b & o == b,
    ;
}

/// An intersection with a subset of `o` is a subset of `o`.
proof fn lemma_and_subset(a: u64, b: u64, o: u64)
    requires
        a & o == a,
    ensures
        (a & b) & o == (a & b),
{
    assert((a & b) & o == (a & b)) by (bit_vector)
        requires
            a & o == a,
    ;
}

/// Every frontier square is opponent-occupied.
proof fn lemma_dir_reach_subset(src: u64, opp: u64, edge: u64, left: bool, sh: u64, k: nat)
    ensures
        dir_reach(src, opp, edge, left, sh, k) & opp == dir_reach(src, opp, edge, left, sh, k),
    decreases k,
{
    let shifted_src = if left {
        (src & edge) << sh
    } else {
        (src & edge) >> sh
    };
    lemma_mask_absorb(shifted_src, opp, edge);
    if k > 0 {
        let prev = dir_reach(src, opp, edge, left, sh, (k - 1) as nat);
        lemma_dir_reach_subset(src, opp, edge, left, sh, (k - 1) as nat);
        let shifted_prev = if left {
            (prev & edge) << sh
        } else {
            (prev & edge) >> sh
        };
        lemma_mask_absorb(shifted_prev, opp, edge);
        lemma_or_subset(prev, dir_step(prev, opp, edge, left, sh), opp);
    }
}

/// Flips along one direction only capture opponent discs.
proof fn lemma_dir_flip_subset(
    uply: u64,
    player: u64,
    opp: u64,
    edge: u64,
    redge: u64,
    left: bool,
    sh: u64,
)
    ensures
        dir_flip(uply, player, opp, edge, redge, left, sh) & opp == dir_flip(
            uply,
            player,
            opp,
            edge,
            redge,
            left,
            sh,
        ),
{
    lemma_dir_reach_subset(uply, opp, edge, left, sh, 5);
    lemma_and_subset(
        dir_reach(uply, opp, edge, left, sh, 5),
        dir_reach(player, opp, redge, !left, sh, 5),
        opp,
    );
}

/// Flipped discs all belong to the opponent.
pub proof fn lemma_flips_subset(uply: u64, player: u64, opp: u64)
    ensures
        spec_flips(uply, player, opp) & opp == spec_flips(uply, player, opp),
{
    let f1 = dir_flip(uply, player, opp, NOT_ROW_FIRST, NOT_ROW_LAST, false, 8);
    let f2 = dir_flip(uply, player, opp, NOT_ROW_LAST, NOT_ROW_FIRST, true, 8);
    let f3 = dir_flip(uply, player, opp, NOT_COL_LAST, NOT_COL_FIRST, true, 1);
    let f4 = dir_flip(uply, player, opp, NOT_COL_FIRST, NOT_COL_LAST, false, 1);
    let f5 = dir_flip(
        uply,
        player,
        opp,
        NOT_ROW_FIRST & NOT_COL_LAST,
        NOT_ROW_LAST & NOT_COL_FIRST,
        false,
        7,
    );
    let f6 = dir_flip(
        uply,
        player,
        opp,
        NOT_ROW_LAST & NOT_COL_LAST,
        NOT_ROW_FIRST & NOT_COL_FIRST,
        true,
        9,
    );
    let f7 = dir_flip(
        uply,
        player,
        opp,
        NOT_ROW_LAST & NOT_COL_FIRST,
        NOT_ROW_FIRST & NOT_COL_LAST,
        true,
        7,
    );
    let f8 = dir_flip(
        uply,
        player,
        opp,
        NOT_ROW_FIRST & NOT_COL_FIRST,
        NOT_ROW_LAST & NOT_COL_LAST,
        false,
        9,
    );
    lemma_dir_flip_subset(uply, player, opp, NOT_ROW_FIRST, NOT_ROW_LAST, false, 8);
    lemma_dir_flip_subset(uply, player, opp, NOT_ROW_LAST, NOT_ROW_FIRST, true, 8);
    lemma_dir_flip_subset(uply, player, opp, NOT_COL_LAST, NOT_COL_FIRST, true, 1);
    lemma_dir_flip_subset(uply, player, opp, NOT_COL_FIRST, NOT_COL_LAST, false, 1);
    lemma_dir_flip_subset(
        uply,
        player,
        opp,
        NOT_ROW_FIRST & NOT_COL_LAST,
        NOT_ROW_LAST & NOT_COL_FIRST,
        false,
        7,
    );
    lemma_dir_flip_subset(
        uply,
        player,
        opp,
        NOT_ROW_LAST & NOT_COL_LAST,
        NOT_ROW_FIRST & NOT_COL_FIRST,
        true,
        9,
    );
    lemma_dir_flip_subset(
        uply,
        player,
        opp,
        NOT_ROW_LAST & NOT_COL_FIRST,
        NOT_ROW_FIRST & NOT_COL_LAST,
        true,
        7,
    );
    lemma_dir_flip_subset(
        uply,
        player,
        opp,
        NOT_ROW_FIRST & NOT_COL_FIRST,
        NOT_ROW_LAST & NOT_COL_LAST,
        false,
        9,
    );
    lemma_or_subset(f1, f2, opp);
    lemma_or_subset(f1 | f2, f3, opp);
    lemma_or_subset(f1 | f2 | f3, f4, opp);
    lemma_or_subset(f1 | f2 | f3 | f4, f5, opp);
    lemma_or_subset(f1 | f2 | f3 | f4 | f5, f6, opp);
    lemma_or_subset(f1 | f2 | f3 | f4 | f5 | f6, f7, opp);
    lemma_or_subset(f1 | f2 | f3 | f4 | f5 | f6 | f7, f8, opp);
}

/// Intersection of masks is symmetric.
proof fn lemma_and_comm(a: u64, b: u64)
    ensures
        a & b == b & a,
{
    assert(a & b == b & a) by (bit_vector);
}

/// Flipping a subset of the opponent's discs and adding an empty target
/// square keeps the two colors mutually exclusive.
proof fn lemma_masks_stay_disjoint(b: u64, w: u64, f: u64, u: u64)
    requires
        b & w == 0,
        f & w == f,
        u & (b | w) == 0,
    ensures
        ((b ^ f) | u) & (w ^ f) == 0,
        (b ^ f) & ((w ^ f) | u) == 0,
{
    assert(((b ^ f) | u) & (w ^ f) == 0 && (b ^ f) & ((w ^ f) | u) == 0) by (bit_vector)
        requires
            b & w == 0,
            f & w == f,
            u & (b | w) == 0,
    ;
}

/// A destination square beyond a frontier is never occupied.
proof fn lemma_dir_moves_empty(src: u64, opp: u64, edge: u64, left: bool, sh: u64, occupied: u64)
    ensures
        dir_moves(src, opp, edge, left, sh, occupied) & occupied == 0,
{
    let frontier = dir_reach(src, opp, edge, left, sh, 5);
    let shifted = if left {
        (frontier & edge) << sh
    } else {
        (frontier & edge) >> sh
    };
    assert((shifted & !occupied) & occupied == 0) by (bit_vector);
}

/// Legal moves lie on empty squares only: the legal-move set never meets an
/// occupied square.
pub proof fn lemma_moves_on_empty(board: Board)
    ensures
        spec_possible_plys(board) & (board.black | board.white) == 0,
{
    let occupied = board.black | board.white;
    match board.turn {
        None => {
            assert(0u64 & occupied == 0) by (bit_vector);
        },
        Some(_) => {
            let player = mover_discs(board);
            let opp = opponent_discs(board);
            lemma_or_comm(opp, player);
            let o = player | opp;
            lemma_dir_moves_empty(player, opp, NOT_ROW_FIRST, false, 8, o);
            lemma_dir_moves_empty(player, opp, NOT_ROW_LAST, true, 8, o);
            lemma_dir_moves_empty(player, opp, NOT_COL_LAST, true, 1, o);
            lemma_dir_moves_empty(player, opp, NOT_COL_FIRST, false, 1, o);
            lemma_dir_moves_empty(player, opp, NOT_ROW_FIRST & NOT_COL_LAST, false, 7, o);
            lemma_dir_moves_empty(player, opp, NOT_ROW_LAST & NOT_COL_LAST, true, 9, o);
            lemma_dir_moves_empty(player, opp, NOT_ROW_LAST & NOT_COL_FIRST, true, 7, o);
            lemma_dir_moves_empty(player, opp, NOT_ROW_FIRST & NOT_COL_FIRST, false, 9, o);
            let m1 = dir_moves(player, opp, NOT_ROW_FIRST, false, 8, o);
            let m2 = dir_moves(player, opp, NOT_ROW_LAST, true, 8, o);
            let m3 = dir_moves(player, opp, NOT_COL_LAST, true, 1, o);
            let m4 = dir_moves(player, opp, NOT_COL_FIRST, false, 1, o);
            let m5 = dir_moves(player, opp, NOT_ROW_FIRST & NOT_COL_LAST, false, 7, o);
            let m6 = dir_moves(player, opp, NOT_ROW_LAST & NOT_COL_LAST, true, 9, o);
            let m7 = dir_moves(player, opp, NOT_ROW_LAST & NOT_COL_FIRST, true, 7, o);
            let m8 = dir_moves(player, opp, NOT_ROW_FIRST & NOT_COL_FIRST, false, 9, o);
            lemma_or_empty(m1, m2, o);
            lemma_or_empty(m1 | m2, m3, o);
            lemma_or_empty(m1 | m2 | m3, m4, o);
            lemma_or_empty(m1 | m2 | m3 | m4, m5, o);
            lemma_or_empty(m1 | m2 | m3 | m4 | m5, m6, o);
            lemma_or_empty(m1 | m2 | m3 | m4 | m5 | m6, m7, o);
            lemma_or_empty(m1 | m2 | m3 | m4 | m5 | m6 | m7, m8, o);
        },
    }
}

/// A union of masks disjoint from `o` is disjoint from `o`.
proof fn lemma_or_empty(a: u64, b: u64, o: u64)
    requires
        a & o == 0,
        b & o == 0,
    ensures
        (a | b) & o == 0,
{
    assert((a | b) & o == 0) by (bit_vector)
        requires
            a & o == 0,
            b & o == 0,
    ;
}

/// Union of masks is symmetric.
proof fn lemma_or_comm(a: u64, b: u64)
    ensures
        a | b == b | a,
{
    assert(a | b == b | a) by (bit_vector);
}

/// A move that targets an occupied square, or that captures nothing, leaves
/// the board bit-for-bit unchanged; so does any move on a finished game.
pub proof fn lemma_play_noop(board: Board, uply: u64)
    requires
        board.turn is None || uply & (board.black | board.white) != 0 || spec_flips(
            uply,
            mover_discs(board),
            opponent_discs(board),
        ) == 0,
    ensures
        spec_play(board, uply) == board,
{
    match board.turn {
        None => {},
        Some(_) => {
            lemma_or_comm(board.black, board.white);
            lemma_or_comm(board.white, board.black);
        },
    }
}

/// The masks the two colors hold right after the flips of playing `uply` are
/// applied, before the turn advances.
pub open spec fn spec_play_masks(board: Board, uply: u64) -> (u64, u64) {
    let flip = spec_flips(uply, mover_discs(board), opponent_discs(board));
    if board.turn == Some(Player::Black) {
        ((board.black ^ flip) | uply, board.white ^ flip)
    } else {
        (board.black ^ flip, (board.white ^ flip) | uply)
    }
}

/// Pass and end-of-game detection. After a capturing move the discs are the
/// post-flip masks, and the turn advances to the opponent if it has a reply;
/// with no opponent reply but a mover reply, the turn returns to the mover
/// and the discs stay the post-flip masks (a pass); with no reply for either
/// side, the turn becomes `None` and, the move set of a finished game being
/// empty, no further move is generated.
pub proof fn lemma_pass_terminal(board: Board, uply: u64)
    requires
        board.turn is Some,
        uply & (board.black | board.white) == 0,
        spec_flips(uply, mover_discs(board), opponent_discs(board)) != 0,
    ensures
        ({
            let mover = board.turn.unwrap();
            let (nb, nw) = spec_play_masks(board, uply);
            let r = spec_play(board, uply);
            &&& r.black == nb
            &&& r.white == nw
            &&& spec_possible_plys(
                Board { black: nb, white: nw, turn: Some(mover.spec_opposite()) },
            ) != 0 ==> r.turn == Some(mover.spec_opposite())
            &&& spec_possible_plys(
                Board { black: nb, white: nw, turn: Some(mover.spec_opposite()) },
            ) == 0 && spec_possible_plys(Board { black: nb, white: nw, turn: Some(mover) }) != 0
                ==> r.turn == Some(mover)
            &&& spec_possible_plys(
                Board { black: nb, white: nw, turn: Some(mover.spec_opposite()) },
            ) == 0 && spec_possible_plys(Board { black: nb, white: nw, turn: Some(mover) }) == 0
                ==> r.turn is None
            &&& spec_possible_plys(Board { black: nb, white: nw, turn: None }) == 0
        }),
{
    lemma_or_comm(board.black, board.white);
    lemma_or_comm(board.white, board.black);
}

/// A destination reached by a right shift, mapped back by the matching
/// left shift, lands on a set bit of the shifted mask.
proof fn lemma_transfer_right(u: u64, g: u64, e: u64, sh: u64)
    requires
        sh < 64,
        one_bit(u),
        u & ((g & e) >> sh) == u,
    ensures
        (u << sh) & (g & e) == u << sh,
        u << sh != 0,
        one_bit(u << sh),
{
    assert((sh < 64 && u != 0 && u & ((u - 1) as u64) == 0 && u & ((g & e) >> sh) == u) ==> ((u
        << sh) & (g & e) == u << sh && u << sh != 0 && (u << sh) & (((u << sh) - 1) as u64) == 0))
        by (bit_vector);
}

/// A destination reached by a left shift, mapped back by the matching
/// right shift, lands on a set bit of the shifted mask.
proof fn lemma_transfer_left(u: u64, g: u64, e: u64, sh: u64)
    requires
        sh < 64,
        one_bit(u),
        u & ((g & e) << sh) == u,
    ensures
        (u >> sh) & (g & e) == u >> sh,
        u >> sh != 0,
        one_bit(u >> sh),
{
    assert((sh < 64 && u != 0 && u & ((u - 1) as u64) == 0 && u & ((g & e) << sh) == u) ==> ((u
        >> sh) & (g & e) == u >> sh && u >> sh != 0 && (u >> sh) & (((u >> sh) - 1) as u64) == 0))
        by (bit_vector);
}

/// Subsets chain: inside `b` inside `c` is inside `c`.
proof fn lemma_subset_trans(a: u64, b: u64, c: u64)
    requires
        a & b == a,
        b & c == b,
    ensures
        a & c == a,
{
    assert(a & c == a) by (bit_vector)
        requires
            a & b == a,
            b & c == b,
    ;
}

/// A frontier stays inside any region every single step lands in.
proof fn lemma_dir_reach_in(src: u64, opp: u64, edge: u64, left: bool, sh: u64, region: u64, k: nat)
    requires
        forall|x: u64| #[trigger] dir_step(x, opp, edge, left, sh) & region == dir_step(
            x,
            opp,
            edge,
            left,
            sh,
        ),
    ensures
        dir_reach(src, opp, edge, left, sh, k) & region == dir_reach(src, opp, edge, left, sh, k),
    decreases k,
{
    if k > 0 {
        lemma_dir_reach_in(src, opp, edge, left, sh, region, (k - 1) as nat);
        let prev = dir_reach(src, opp, edge, left, sh, (k - 1) as nat);
        lemma_or_subset(prev, dir_step(prev, opp, edge, left, sh), region);
    }
}

/// The first step of a ray is part of its frontier.
proof fn lemma_dir_reach_grows(src: u64, opp: u64, edge: u64, left: bool, sh: u64, k: nat)
    ensures
        dir_step(src, opp, edge, left, sh) & dir_reach(src, opp, edge, left, sh, k) == dir_step(
            src,
            opp,
            edge,
            left,
            sh,
        ),
    decreases k,
{
    if k == 0 {
        assert(dir_step(src, opp, edge, left, sh) & dir_step(src, opp, edge, left, sh) == dir_step(
            src,
            opp,
            edge,
            left,
            sh,
        )) by (bit_vector);
    } else {
        lemma_dir_reach_grows(src, opp, edge, left, sh, (k - 1) as nat);
        let prev = dir_reach(src, opp, edge, left, sh, (k - 1) as nat);
        assert(dir_step(src, opp, edge, left, sh) & prev == dir_step(src, opp, edge, left, sh)
            ==> dir_step(src, opp, edge, left, sh) & (prev | dir_step(prev, opp, edge, left, sh))
            == dir_step(src, opp, edge, left, sh)) by (bit_vector);
    }
}

/// A single-bit destination of one direction's move set realizes a capture
/// in that direction: the first run square anchors both the candidate ray
/// cast back from the destination and the generator's own frontier.
proof fn lemma_dir_moves_capture(
    u: u64,
    player: u64,
    opp: u64,
    edge: u64,
    redge: u64,
    left: bool,
    sh: u64,
    occupied: u64,
)
    requires
        sh < 64,
        one_bit(u),
        u & dir_moves(player, opp, edge, left, sh, occupied) == u,
        forall|x: u64| #[trigger] dir_shift(x, edge, left, sh) & redge == dir_shift(
            x,
            edge,
            left,
            sh,
        ),
    ensures
        dir_flip(u, player, opp, redge, edge, !left, sh) != 0,
{
    let frontier = dir_reach(player, opp, edge, left, sh, 5);
    lemma_dir_reach_subset(player, opp, edge, left, sh, 5);
    assert forall|x: u64| #[trigger] dir_step(x, opp, edge, left, sh) & redge == dir_step(
        x,
        opp,
        edge,
        left,
        sh,
    ) by {
        lemma_and_subset(dir_shift(x, edge, left, sh), opp, redge);
        lemma_and_subset(dir_shift(x, edge, left, sh) & opp, edge, redge);
    }
    lemma_dir_reach_in(player, opp, edge, left, sh, redge, 5);
    let moved = dir_shift(frontier, edge, left, sh);
    assert(dir_moves(player, opp, edge, left, sh, occupied) == moved & !occupied);
    assert(u & moved == u) by (bit_vector)
        requires
            u & (moved & !occupied) == u,
    ;
    lemma_subset_trans(u, moved, redge);
    if left {
        // generator shifted left; the run lies a right shift back
        lemma_transfer_left(u, frontier, edge, sh);
        let f = u >> sh;
        assert(f & opp == f && f & redge == f) by (bit_vector)
            requires
                f & (frontier & edge) == f,
                frontier & opp == frontier,
                frontier & redge == frontier,
        ;
        assert(dir_step(u, opp, redge, !left, sh) & f == f) by (bit_vector)
            requires
                f == u >> sh,
                u & redge == u,
                f & opp == f,
                f & redge == f,
                dir_step(u, opp, redge, false, sh) == ((u & redge) >> sh) & opp & redge,
                !left == false,
        ;
        lemma_dir_reach_grows(u, opp, redge, !left, sh, 5);
        assert(dir_flip(u, player, opp, redge, edge, !left, sh) != 0) by (bit_vector)
            requires
                f != 0,
                dir_step(u, opp, redge, !left, sh) & f == f,
                dir_step(u, opp, redge, !left, sh) & dir_reach(u, opp, redge, !left, sh, 5)
                    == dir_step(u, opp, redge, !left, sh),
                f & (frontier & edge) == f,
                dir_flip(u, player, opp, redge, edge, !left, sh) == dir_reach(
                    u,
                    opp,
                    redge,
                    !left,
                    sh,
                    5,
                ) & frontier,
        ;
    } else {
        lemma_transfer_right(u, frontier, edge, sh);
        let f = u << sh;
        assert(f & opp == f && f & redge == f) by (bit_vector)
            requires
                f & (frontier & edge) == f,
                frontier & opp == frontier,
                frontier & redge == frontier,
        ;
        assert(dir_step(u, opp, redge, !left, sh) & f == f) by (bit_vector)
            requires
                f == u << sh,
                u & redge == u,
                f & opp == f,
                f & redge == f,
                dir_step(u, opp, redge, true, sh) == ((u & redge) << sh) & opp & redge,
                !left == true,
        ;
        lemma_dir_reach_grows(u, opp, redge, !left, sh, 5);
        assert(dir_flip(u, player, opp, redge, edge, !left, sh) != 0) by (bit_vector)
            requires
                f != 0,
                dir_step(u, opp, redge, !left, sh) & f == f,
                dir_step(u, opp, redge, !left, sh) & dir_reach(u, opp, redge, !left, sh, 5)
                    == dir_step(u, opp, redge, !left, sh),
                f & (frontier & edge) == f,
                dir_flip(u, player, opp, redge, edge, !left, sh) == dir_reach(
                    u,
                    opp,
                    redge,
                    !left,
                    sh,
                    5,
                ) & frontier,
        ;
    }
}

/// A subset of a mask disjoint from `c` is disjoint from `c`.
proof fn lemma_subset_disjoint(a: u64, b: u64, c: u64)
    requires
        a & b == a,
        b & c == 0,
    ensures
        a & c == 0,
{
    assert(a & c == 0) by (bit_vector)
        requires
            a & b == a,
            b & c == 0,
    ;
}

/// A union of eight masks is nonzero as soon as one of them is.
proof fn lemma_or8_nonzero(t1: u64, t2: u64, t3: u64, t4: u64, t5: u64, t6: u64, t7: u64, t8: u64)
    requires
        t1 != 0 || t2 != 0 || t3 != 0 || t4 != 0 || t5 != 0 || t6 != 0 || t7 != 0 || t8 != 0,
    ensures
        t1 | t2 | t3 | t4 | t5 | t6 | t7 | t8 != 0,
{
    assert(t1 | t2 | t3 | t4 | t5 | t6 | t7 | t8 != 0) by (bit_vector)
        requires
            t1 != 0 || t2 != 0 || t3 != 0 || t4 != 0 || t5 != 0 || t6 != 0 || t7 != 0 || t8 != 0,
    ;
}

/// A generator-legal move captures: the target of any move of the legal
/// move set is an empty square whose play flips at least one disc. With
/// this, the pass and end-of-game rule and the one-more-disc law apply to
/// every legal move.
pub proof fn lemma_legal_move_captures(board: Board, u: u64)
    requires
        board.turn is Some,
        one_bit(u),
        u & spec_possible_plys(board) != 0,
    ensures
        u & (board.black | board.white) == 0,
        spec_flips(u, mover_discs(board), opponent_discs(board)) != 0,
{
    let player = mover_discs(board);
    let opp = opponent_discs(board);
    let occ = player | opp;
    let pos = spec_possible_plys(board);
    assert(pos == spec_possible_from(player, opp));
    let m1 = dir_moves(player, opp, NOT_ROW_FIRST, false, 8, occ);
    let m2 = dir_moves(player, opp, NOT_ROW_LAST, true, 8, occ);
    let m3 = dir_moves(player, opp, NOT_COL_LAST, true, 1, occ);
    let m4 = dir_moves(player, opp, NOT_COL_FIRST, false, 1, occ);
    let m5 = dir_moves(player, opp, NOT_ROW_FIRST & NOT_COL_LAST, false, 7, occ);
    let m6 = dir_moves(player, opp, NOT_ROW_LAST & NOT_COL_LAST, true, 9, occ);
    let m7 = dir_moves(player, opp, NOT_ROW_LAST & NOT_COL_FIRST, true, 7, occ);
    let m8 = dir_moves(player, opp, NOT_ROW_FIRST & NOT_COL_FIRST, false, 9, occ);
    assert(pos == m1 | m2 | m3 | m4 | m5 | m6 | m7 | m8);
    assert(u & pos == u && (u & m1 == u || u & m2 == u || u & m3 == u || u & m4 == u || u & m5 == u
        || u & m6 == u || u & m7 == u || u & m8 == u)) by (bit_vector)
        requires
            u != 0,
            u & ((u - 1) as u64) == 0,
            u & pos != 0,
            pos == m1 | m2 | m3 | m4 | m5 | m6 | m7 | m8,
    ;
    lemma_moves_on_empty(board);
    lemma_subset_disjoint(u, pos, board.black | board.white);
    if u & m1 == u {
        assert forall|x: u64| #[trigger] dir_shift(x, NOT_ROW_FIRST, false, 8) & NOT_ROW_LAST
            == dir_shift(x, NOT_ROW_FIRST, false, 8) by {
            assert(((x & NOT_ROW_FIRST) >> 8u64) & NOT_ROW_LAST == ((x & NOT_ROW_FIRST) >> 8u64))
                by (bit_vector);
        }
        lemma_dir_moves_capture(u, player, opp, NOT_ROW_FIRST, NOT_ROW_LAST, false, 8, occ);
    } else if u & m2 == u {
        assert forall|x: u64| #[trigger] dir_shift(x, NOT_ROW_LAST, true, 8) & NOT_ROW_FIRST
            == dir_shift(x, NOT_ROW_LAST, true, 8) by {
            assert(((x & NOT_ROW_LAST) << 8u64) & NOT_ROW_FIRST == ((x & NOT_ROW_LAST) << 8u64))
                by (bit_vector);
        }
        lemma_dir_moves_capture(u, player, opp, NOT_ROW_LAST, NOT_ROW_FIRST, true, 8, occ);
    } else if u & m3 == u {
        assert forall|x: u64| #[trigger] dir_shift(x, NOT_COL_LAST, true, 1) & NOT_COL_FIRST
            == dir_shift(x, NOT_COL_LAST, true, 1) by {
            assert(((x & NOT_COL_LAST) << 1u64) & NOT_COL_FIRST == ((x & NOT_COL_LAST) << 1u64))
                by (bit_vector);
        }
        lemma_dir_moves_capture(u, player, opp, NOT_COL_LAST, NOT_COL_FIRST, true, 1, occ);
    } else if u & m4 == u {
        assert forall|x: u64| #[trigger] dir_shift(x, NOT_COL_FIRST, false, 1) & NOT_COL_LAST
            == dir_shift(x, NOT_COL_FIRST, false, 1) by {
            assert(((x & NOT_COL_FIRST) >> 1u64) & NOT_COL_LAST == ((x & NOT_COL_FIRST) >> 1u64))
                by (bit_vector);
        }
        lemma_dir_moves_capture(u, player, opp, NOT_COL_FIRST, NOT_COL_LAST, false, 1, occ);
    } else if u & m5 == u {
        assert forall|x: u64| #[trigger] dir_shift(x, NOT_ROW_FIRST & NOT_COL_LAST, false, 7) & (
        NOT_ROW_LAST & NOT_COL_FIRST) == dir_shift(x, NOT_ROW_FIRST & NOT_COL_LAST, false, 7) by {
            assert(((x & (NOT_ROW_FIRST & NOT_COL_LAST)) >> 7u64) & (NOT_ROW_LAST & NOT_COL_FIRST)
                == ((x & (NOT_ROW_FIRST & NOT_COL_LAST)) >> 7u64)) by (bit_vector);
        }
        lemma_dir_moves_capture(
            u,
            player,
            opp,
            NOT_ROW_FIRST & NOT_COL_LAST,
            NOT_ROW_LAST & NOT_COL_FIRST,
            false,
            7,
            occ,
        );
    } else if u & m6 == u {
        assert forall|x: u64| #[trigger] dir_shift(x, NOT_ROW_LAST & NOT_COL_LAST, true, 9) & (
        NOT_ROW_FIRST & NOT_COL_FIRST) == dir_shift(x, NOT_ROW_LAST & NOT_COL_LAST, true, 9) by {
            assert(((x & (NOT_ROW_LAST & NOT_COL_LAST)) << 9u64) & (NOT_ROW_FIRST & NOT_COL_FIRST)
                == ((x & (NOT_ROW_LAST & NOT_COL_LAST)) << 9u64)) by (bit_vector);
        }
        lemma_dir_moves_capture(
            u,
            player,
            opp,
            NOT_ROW_LAST & NOT_COL_LAST,
            NOT_ROW_FIRST & NOT_COL_FIRST,
            true,
            9,
            occ,
        );
    } else if u & m7 == u {
        assert forall|x: u64| #[trigger] dir_shift(x, NOT_ROW_LAST & NOT_COL_FIRST, true, 7) & (
        NOT_ROW_FIRST & NOT_COL_LAST) == dir_shift(x, NOT_ROW_LAST & NOT_COL_FIRST, true, 7) by {
            assert(((x & (NOT_ROW_LAST & NOT_COL_FIRST)) << 7u64) & (NOT_ROW_FIRST & NOT_COL_LAST)
                == ((x & (NOT_ROW_LAST & NOT_COL_FIRST)) << 7u64)) by (bit_vector);
        }
        lemma_dir_moves_capture(
            u,
            player,
            opp,
            NOT_ROW_LAST & NOT_COL_FIRST,
            NOT_ROW_FIRST & NOT_COL_LAST,
            true,
            7,
            occ,
        );
    } else {
        assert forall|x: u64| #[trigger] dir_shift(x, NOT_ROW_FIRST & NOT_COL_FIRST, false, 9) & (
        NOT_ROW_LAST & NOT_COL_LAST) == dir_shift(x, NOT_ROW_FIRST & NOT_COL_FIRST, false, 9) by {
            assert(((x & (NOT_ROW_FIRST & NOT_COL_FIRST)) >> 9u64) & (NOT_ROW_LAST & NOT_COL_LAST)
                == ((x & (NOT_ROW_FIRST & NOT_COL_FIRST)) >> 9u64)) by (bit_vector);
        }
        lemma_dir_moves_capture(
            u,
            player,
            opp,
            NOT_ROW_FIRST & NOT_COL_FIRST,
            NOT_ROW_LAST & NOT_COL_LAST,
            false,
            9,
            occ,
        );
    }
    let f1 = dir_flip(u, player, opp, NOT_ROW_FIRST, NOT_ROW_LAST, false, 8);
    let f2 = dir_flip(u, player, opp, NOT_ROW_LAST, NOT_ROW_FIRST, true, 8);
    let f3 = dir_flip(u, player, opp, NOT_COL_LAST, NOT_COL_FIRST, true, 1);
    let f4 = dir_flip(u, player, opp, NOT_COL_FIRST, NOT_COL_LAST, false, 1);
    let f5 = dir_flip(
        u,
        player,
        opp,
        NOT_ROW_FIRST & NOT_COL_LAST,
        NOT_ROW_LAST & NOT_COL_FIRST,
        false,
        7,
    );
    let f6 = dir_flip(
        u,
        player,
        opp,
        NOT_ROW_LAST & NOT_COL_LAST,
        NOT_ROW_FIRST & NOT_COL_FIRST,
        true,
        9,
    );
    let f7 = dir_flip(
        u,
        player,
        opp,
        NOT_ROW_LAST & NOT_COL_FIRST,
        NOT_ROW_FIRST & NOT_COL_LAST,
        true,
        7,
    );
    let f8 = dir_flip(
        u,
        player,
        opp,
        NOT_ROW_FIRST & NOT_COL_FIRST,
        NOT_ROW_LAST & NOT_COL_LAST,
        false,
        9,
    );
    assert(spec_flips(u, player, opp) == f1 | f2 | f3 | f4 | f5 | f6 | f7 | f8);
    lemma_or8_nonzero(f1, f2, f3, f4, f5, f6, f7, f8);
}

/// Bit `k` of `m | (1 << j)` agrees with bit `k` of `m` away from `j`, and
/// is set at `j`.
proof fn lemma_or_bit_test(m: u64, j: u64, k: u64)
    requires
        j < 64,
        k < 64,
    ensures
        ((m | (1u64 << j)) >> k) & 1 == (if j == k {
            1u64
        } else {
            (m >> k) & 1
        }),
{
    assert(((m | (1u64 << j)) >> k) & 1 == (if j == k {
        1u64
    } else {
        (m >> k) & 1
    })) by (bit_vector)
        requires
            j < 64,
            k < 64,
    ;
}

/// Setting a clear bit raises the bit count of every prefix that covers it
/// by one and leaves the others unchanged.
proof fn lemma_count_upto_or_bit(m: u64, j: u64, n: nat)
    requires
        j < 64,
        (m >> j) & 1 != 1,
        n <= 64,
    ensures
        count_bits_upto(m | (1u64 << j), n) == count_bits_upto(m, n) + (if j < n {
            1nat
        } else {
            0nat
        }),
    decreases n,
{
    if n > 0 {
        lemma_count_upto_or_bit(m, j, (n - 1) as nat);
        lemma_or_bit_test(m, j, (n - 1) as u64);
    }
}

/// Adding one fresh bit to a mask raises its bit count by exactly one.
pub proof fn lemma_count_or_fresh_bit(m: u64, u: u64)
    requires
        one_bit(u),
        u & m == 0,
    ensures
        count_bits(m | u) == count_bits(m) + 1,
{
    vstd::std_specs::bits::axiom_u64_trailing_zeros(u);
    let j = vstd::std_specs::bits::u64_trailing_zeros(u) as u64;
    assert(u != 0 && u & (((u - 1) as u64)) == 0 && j < 64 && (u >> j) & 1u64 == 1u64 ==> u == 1u64
        << j) by (bit_vector);
    assert(j < 64 && u == 1u64 << j && u & m == 0 ==> (m >> j) & 1 != 1) by (bit_vector);
    lemma_count_upto_or_bit(m, j, 64);
}

/// Flipping discs inside the occupied set and taking the empty target
/// square grows the occupied set by the target square alone.
proof fn lemma_union_after_flip(b: u64, w: u64, f: u64, u: u64)
    requires
        b & w == 0,
        f & w == f,
        u & (b | w) == 0,
    ensures
        ((b ^ f) | u) | (w ^ f) == (b | w) | u,
        (w ^ f) | ((b ^ f) | u) == (w | b) | u,
{
    assert((((b ^ f) | u) | (w ^ f) == (b | w) | u) && ((w ^ f) | ((b ^ f) | u) == (w | b) | u))
        by (bit_vector)
        requires
            b & w == 0,
            f & w == f,
            u & (b | w) == 0,
    ;
}

/// A successful move occupies exactly one more square: every flip recolors
/// an already occupied square, so the occupied set gains the target square
/// and nothing else, and the disc count rises by exactly one.
pub proof fn lemma_play_adds_one_disc(board: Board, uply: u64)
    requires
        board.wf(),
        board.turn is Some,
        one_bit(uply),
        uply & (board.black | board.white) == 0,
        spec_flips(uply, mover_discs(board), opponent_discs(board)) != 0,
    ensures
        ({
            let r = spec_play(board, uply);
            &&& (r.black | r.white) == (board.black | board.white) | uply
            &&& count_bits(r.black | r.white) == count_bits(board.black | board.white) + 1
        }),
{
    let player = mover_discs(board);
    let opp = opponent_discs(board);
    let flip = spec_flips(uply, player, opp);
    lemma_flips_subset(uply, player, opp);
    lemma_or_comm(board.black, board.white);
    lemma_or_comm(board.white, board.black);
    if board.turn == Some(Player::Black) {
        lemma_union_after_flip(board.black, board.white, flip, uply);
    } else {
        lemma_and_comm(board.black, board.white);
        lemma_union_after_flip(board.white, board.black, flip, uply);
    }
    lemma_count_or_fresh_bit(board.black | board.white, uply);
}

/// The pass and end-of-game rule for a legal move, as the move generator
/// defines legality: playing any move of the legal move set flips at least
/// one disc, leaves the post-flip masks, and advances the turn to the
/// opponent if it has a reply, back to the mover if only the mover can
/// reply (the pass alters no piece), and to `None` when neither side can
/// reply, after which no further move is generated.
pub proof fn lemma_pass_terminal_legal(board: Board, uply: u64)
    requires
        board.turn is Some,
        one_bit(uply),
        uply & spec_possible_plys(board) != 0,
    ensures
        spec_flips(uply, mover_discs(board), opponent_discs(board)) != 0,
        ({
            let mover = board.turn.unwrap();
            let (nb, nw) = spec_play_masks(board, uply);
            let r = spec_play(board, uply);
            &&& r.black == nb
            &&& r.white == nw
            &&& spec_possible_plys(
                Board { black: nb, white: nw, turn: Some(mover.spec_opposite()) },
            ) != 0 ==> r.turn == Some(mover.spec_opposite())
            &&& spec_possible_plys(
                Board { black: nb, white: nw, turn: Some(mover.spec_opposite()) },
            ) == 0 && spec_possible_plys(Board { black: nb, white: nw, turn: Some(mover) }) != 0
                ==> r.turn == Some(mover)
            &&& spec_possible_plys(
                Board { black: nb, white: nw, turn: Some(mover.spec_opposite()) },
            ) == 0 && spec_possible_plys(Board { black: nb, white: nw, turn: Some(mover) }) == 0
                ==> r.turn is None
            &&& spec_possible_plys(Board { black: nb, white: nw, turn: None }) == 0
        }),
{
    lemma_legal_move_captures(board, uply);
    lemma_pass_terminal(board, uply);
}

/// Every legal move, as the move generator defines legality, occupies
/// exactly one more square.
pub proof fn lemma_legal_move_adds_one_disc(board: Board, uply: u64)
    requires
        board.wf(),
        board.turn is Some,
        one_bit(uply),
        uply & spec_possible_plys(board) != 0,
    ensures
        ({
            let r = spec_play(board, uply);
            &&& (r.black | r.white) == (board.black | board.white) | uply
            &&& count_bits(r.black | r.white) == count_bits(board.black | board.white) + 1
        }),
{
    lemma_legal_move_captures(board, uply);
    lemma_play_adds_one_disc(board, uply);
}

/// Mutual exclusivity is preserved by every move: the successor of a
/// well-formed board under `spec_play` is well-formed.
pub proof fn lemma_play_preserves_wf(board: Board, uply: u64)
    requires
        board.wf(),
    ensures
        spec_play(board, uply).wf(),
{
    match board.turn {
        None => {},
        Some(mover) => {
            let player = mover_discs(board);
            let opp = opponent_discs(board);
            if uply & (player | opp) == 0 {
                let flip = spec_flips(uply, player, opp);
                if flip != 0 {
                    lemma_flips_subset(uply, player, opp);
                    if mover == Player::Black {
                        lemma_masks_stay_disjoint(board.black, board.white, flip, uply);
                        lemma_and_comm(
                            (board.black ^ flip) | uply,
                            board.white ^ flip,
                        );
                    } else {
                        lemma_and_comm(board.black, board.white);
                        lemma_masks_stay_disjoint(board.white, board.black, flip, uply);
                        lemma_and_comm((board.white ^ flip) | uply, board.black ^ flip);
                    }
                }
            }
        },
    }
}

/// Plays the given move on the board and returns the successor state.
///
/// A move on an occupied square, or one that captures nothing, returns the
/// board unchanged; so does a move on a finished game. Otherwise the flips
/// are applied and the turn advances with the pass and end-of-game rules.
pub fn play(board: &Board, ply: Ply) -> (r: Board)
    ensures
        r == spec_play(*board, ply@),
        board.wf() ==> r.wf(),
        board.turn is None || ply@ & (board.black | board.white) != 0 || spec_flips(
            ply@,
            mover_discs(*board),
            opponent_discs(*board),
        ) == 0 ==> r == *board,
{
    proof {
        if board.wf() {
            lemma_play_preserves_wf(*board, ply@);
        }
        if board.turn is None || ply@ & (board.black | board.white) != 0 || spec_flips(
            ply@,
            mover_discs(*board),
            opponent_discs(*board),
        ) == 0 {
            lemma_play_noop(*board, ply@);
        }
    }
    let mover = match board.turn {
        None => {
            return *board;
        },
        Some(p) => p,
    };
    let (player, opp) = match mover {
        Player::Black => (board.black, board.white),
        Player::White => (board.white, board.black),
    };
    let uply = ply.mask();
    if uply & (player | opp) != 0 {
        return *board;
    }
    let f_n = dir_reach_x(uply, opp, NOT_ROW_FIRST, false, 8) & dir_reach_x(
        player,
        opp,
        NOT_ROW_LAST,
        true,
        8,
    );
    let f_s = dir_reach_x(uply, opp, NOT_ROW_LAST, true, 8) & dir_reach_x(
        player,
        opp,
        NOT_ROW_FIRST,
        false,
        8,
    );
    let f_e = dir_reach_x(uply, opp, NOT_COL_LAST, true, 1) & dir_reach_x(
        player,
        opp,
        NOT_COL_FIRST,
        false,
        1,
    );
    let f_w = dir_reach_x(uply, opp, NOT_COL_FIRST, false, 1) & dir_reach_x(
        player,
        opp,
        NOT_COL_LAST,
        true,
        1,
    );
    let f_ne = dir_reach_x(uply, opp, NOT_ROW_FIRST & NOT_COL_LAST, false, 7) & dir_reach_x(
        player,
        opp,
        NOT_ROW_LAST & NOT_COL_FIRST,
        true,
        7,
    );
    let f_se = dir_reach_x(uply, opp, NOT_ROW_LAST & NOT_COL_LAST, true, 9) & dir_reach_x(
        player,
        opp,
        NOT_ROW_FIRST & NOT_COL_FIRST,
        false,
        9,
    );
    let f_sw = dir_reach_x(uply, opp, NOT_ROW_LAST & NOT_COL_FIRST, true, 7) & dir_reach_x(
        player,
        opp,
        NOT_ROW_FIRST & NOT_COL_LAST,
        false,
        7,
    );
    let f_nw = dir_reach_x(uply, opp, NOT_ROW_FIRST & NOT_COL_FIRST, false, 9) & dir_reach_x(
        player,
        opp,
        NOT_ROW_LAST & NOT_COL_LAST,
        true,
        9,
    );
    let flip = f_n | f_s | f_e | f_w | f_ne | f_se | f_sw | f_nw;
    if flip == 0 {
        return *board;
    }
    let new_black = if matches!(mover, Player::Black) {
        (board.black ^ flip) | uply
    } else {
        board.black ^ flip
    };
    let new_white = if matches!(mover, Player::White) {
        (board.white ^ flip) | uply
    } else {
        board.white ^ flip
    };
    let to_opp = Board { black: new_black, white: new_white, turn: Some(mover.opposite()) };
    if !possible_plys(&to_opp).is_zero() {
        return to_opp;
    }
    let back = Board { black: new_black, white: new_white, turn: Some(mover) };
    if !possible_plys(&back).is_zero() {
        return back;
    }
    Board { black: new_black, white: new_white, turn: None }
}

/// The number of set bits among the `n` lowest bits of `m`.
pub open spec fn count_bits_upto(m: u64, n: nat) -> nat
    decreases n,
{
    if n == 0 {
        0
    } else {
        count_bits_upto(m, (n - 1) as nat) + (if (m >> ((n - 1) as u64)) & 1 == 1 {
            1nat
        } else {
            0nat
        })
    }
}

/// The number of set bits of `m`.
pub open spec fn count_bits(m: u64) -> nat {
    count_bits_upto(m, 64)
}

/// A mask whose bit `j` is set has at least one set bit among its first `n`
/// bits, for any `n` beyond `j`.
proof fn lemma_count_upto_pos(m: u64, j: u64, n: nat)
    requires
        bit_set(m, j),
        j < n,
        n <= 64,
    ensures
        count_bits_upto(m, n) > 0,
    decreases n,
{
    if n - 1 == j {
        assert((m >> ((n - 1) as u64)) & 1 == 1);
    } else {
        lemma_count_upto_pos(m, j, (n - 1) as nat);
    }
}

/// No more bits can be set than are looked at.
proof fn lemma_count_upto_le(m: u64, n: nat)
    requires
        n <= 64,
    ensures
        count_bits_upto(m, n) <= n,
    decreases n,
{
    if n > 0 {
        lemma_count_upto_le(m, (n - 1) as nat);
    }
}

/// A 64-bit mask holds at most 64 set bits.
pub proof fn lemma_count_bits_le64(m: u64)
    ensures
        count_bits(m) <= 64,
{
    lemma_count_upto_le(m, 64);
}

/// A nonzero mask has a positive bit count.
pub proof fn lemma_count_bits_pos(m: u64)
    requires
        m != 0,
    ensures
        count_bits(m) > 0,
{
    vstd::std_specs::bits::axiom_u64_trailing_zeros(m);
    let j = vstd::std_specs::bits::u64_trailing_zeros(m) as u64;
    lemma_count_upto_pos(m, j, 64);
}

/// Counts the set bits of `m`.
pub fn popcount(m: u64) -> (r: u32)
    ensures
        r == count_bits(m),
        r <= 64,
{
    let mut r: u32 = 0;
    let mut i: u64 = 0;
    while i < 64
        invariant
            i <= 64,
            r == count_bits_upto(m, i as nat),
            r <= i,
        decreases 64 - i,
    {
        if (m >> i) & 1 == 1 {
            r = r + 1;
        }
        i = i + 1;
    }
    r
}

} // verus!
