//! The transposition table: a cache from an exact board state to the best
//! search result already computed for it, with the depth at which it was
//! computed, and the table-driven move ordering used by the search.

use crate::board::{bit_masks, count_bits, lemma_ply_from_view, lemma_spec_ply_view, one_bit, play, possible_plys, spec_play, spec_ply, spec_possible_plys, Board, Player, Ply};
use crate::eval::MinMaxResponse;
use vstd::prelude::*;

verus! {

/// A cached search result together with the depth it was computed at. A
/// cached entry is only authoritative for a desired depth if its own depth
/// is at least that deep.
#[derive(Clone, Copy, PartialEq, Eq, Hash, Debug, Structural)]
pub struct TranspositionEntry {
    minmax_response: MinMaxResponse,
    depth: u32,
}

impl TranspositionEntry {
    /// The cached search result.
    pub closed spec fn spec_response(self) -> MinMaxResponse {
        self.minmax_response
    }

    /// The depth the result was computed at.
    pub closed spec fn spec_depth(self) -> u32 {
        self.depth
    }

    /// Pairs a search result with the depth it was computed at.
    pub fn new(minmax_response: MinMaxResponse, depth: u32) -> (r: TranspositionEntry)
        ensures
            r == spec_entry(minmax_response, depth),
            r.spec_response() == minmax_response,
            r.spec_depth() == depth,
    {
        TranspositionEntry { minmax_response, depth }
    }

    /// The depth the result was computed at.
    pub fn get_depth(&self) -> (r: u32)
        ensures
            r == self.spec_depth(),
    {
        self.depth
    }

    /// The cached search result.
    pub fn get_minmax_response(&self) -> (r: MinMaxResponse)
        ensures
            r == self.spec_response(),
    {
        self.minmax_response
    }
}

/// The entry pairing `resp` with `depth`, at the specification level; an
/// executable entry always equals `spec_entry` of its own parts.
pub closed spec fn spec_entry(resp: MinMaxResponse, depth: u32) -> TranspositionEntry {
    TranspositionEntry { minmax_response: resp, depth }
}

/// `spec_entry` holds exactly what it was given.
pub proof fn lemma_spec_entry(resp: MinMaxResponse, depth: u32)
    ensures
        spec_entry(resp, depth).spec_response() == resp,
        spec_entry(resp, depth).spec_depth() == depth,
{
}

/// The mapping a record list denotes: later records override earlier ones,
/// so an insert is last-write-wins.
pub open spec fn map_of(s: Seq<(Board, TranspositionEntry)>) -> Map<Board, TranspositionEntry>
    decreases s.len(),
{
    if s.len() == 0 {
        Map::empty()
    } else {
        map_of(s.drop_last()).insert(s.last().0, s.last().1)
    }
}

/// A key absent from every record is absent from the mapping.
proof fn lemma_map_of_absent(s: Seq<(Board, TranspositionEntry)>, k: Board)
    requires
        forall|i: int| 0 <= i < s.len() ==> (#[trigger] s[i]).0 != k,
    ensures
        !map_of(s).contains_key(k),
    decreases s.len(),
{
    if s.len() > 0 {
        lemma_map_of_absent(s.drop_last(), k);
    }
}

/// The latest record of a key gives the mapping's value for it.
proof fn lemma_map_of_latest(s: Seq<(Board, TranspositionEntry)>, k: Board, i: int)
    requires
        0 <= i < s.len(),
        s[i].0 == k,
        forall|j: int| i < j < s.len() ==> (#[trigger] s[j]).0 != k,
    ensures
        map_of(s).contains_key(k),
        map_of(s)[k] == s[i].1,
    decreases s.len(),
{
    if i == s.len() - 1 {
    } else {
        lemma_map_of_latest(s.drop_last(), k, i);
    }
}

/// A cache from a board state to the best search result already computed
/// for it. Keys are exact board states; an insert overwrites any earlier
/// entry for the same board (last write wins); there is no capacity bound
/// and no eviction. One search session owns one table.
pub struct TranspositionTable {
    records: Vec<(Board, TranspositionEntry)>,
}

impl View for TranspositionTable {
    type V = Map<Board, TranspositionEntry>;

    closed spec fn view(&self) -> Map<Board, TranspositionEntry> {
        map_of(self.records@)
    }
}

impl TranspositionTable {
    /// An empty table.
    pub fn new() -> (r: TranspositionTable)
        ensures
            r@ == Map::<Board, TranspositionEntry>::empty(),
    {
        TranspositionTable { records: Vec::new() }
    }

    /// Looks the board up: the entry last inserted for it, if any.
    pub fn get(&self, board: &Board) -> (r: Option<TranspositionEntry>)
        ensures
            self@.contains_key(*board) ==> r == Some(self@[*board]),
            !self@.contains_key(*board) ==> r is None,
    {
        let n = self.records.len();
        let mut i = n;
        while i > 0
            invariant
                i <= n,
                n == self.records.len(),
                forall|j: int| i <= j < n ==> (#[trigger] self.records@[j]).0 != *board,
            decreases i,
        {
            i = i - 1;
            let record = &self.records[i];
            if record.0 == *board {
                proof {
                    lemma_map_of_latest(self.records@, *board, i as int);
                }
                return Some(record.1);
            }
        }
        proof {
            lemma_map_of_absent(self.records@, *board);
        }
        None
    }

    /// Caches an entry for the board, overwriting any entry the board
    /// already had.
    pub fn insert(&mut self, board: Board, entry: TranspositionEntry)
        ensures
            final(self)@ == old(self)@.insert(board, entry),
    {
        self.records.push((board, entry));
        proof {
            assert(self.records@.drop_last() == old(self).records@);
        }
    }
}

/// The score the table suggests for examining a candidate move early: the
/// cached score of the successor board, or, for a successor not yet cached,
/// the placeholder best case for the side to move so unseen moves are still
/// tried early.
pub open spec fn spec_ordering_score(table: Map<Board, TranspositionEntry>, board: Board, successor: Board) -> int {
    spec_score32(table, board, successor) as int
}

/// The suggested score as the stored 32-bit value.
pub open spec fn spec_score32(table: Map<Board, TranspositionEntry>, board: Board, successor: Board) -> i32 {
    if table.contains_key(successor) {
        table[successor].spec_response().eval.value
    } else if board.turn == Some(Player::Black) {
        i32::MAX
    } else {
        i32::MIN
    }
}

/// Each candidate mask paired with the table's suggested score for its
/// successor.
pub open spec fn spec_scored(
    table: Map<Board, TranspositionEntry>,
    board: Board,
    masks: Seq<u64>,
) -> Seq<(Ply, i32)> {
    Seq::new(
        masks.len(),
        |i: int| (spec_ply(masks[i]), spec_score32(table, board, spec_play(board, masks[i]))),
    )
}

/// The index of the preferred score in `s` from position `j` on, given the
/// best index seen so far: a later entry wins only by a strictly better
/// score, so the earliest of equally scored entries is kept.
pub open spec fn scan_best(s: Seq<(Ply, i32)>, descending: bool, j: nat, best: nat) -> nat
    decreases s.len() - j,
{
    if j >= s.len() {
        best
    } else {
        let better = if descending {
            s[j as int].1 > s[best as int].1
        } else {
            s[j as int].1 < s[best as int].1
        };
        scan_best(s, descending, j + 1, if better { j } else { best })
    }
}

/// The index the sort brings to the front: `scan_best` over the whole
/// list, which never leaves the list's bounds.
pub open spec fn sel_pick(s: Seq<(Ply, i32)>, descending: bool) -> int {
    let b = scan_best(s, descending, 1, 0);
    if b < s.len() {
        b as int
    } else {
        0
    }
}

/// Selection sort at the specification level: the entry `scan_best` prefers
/// moves to the front, the displaced front entry takes the vacated
/// position, and the remainder is sorted the same way.
pub open spec fn spec_sel_sort(s: Seq<(Ply, i32)>, descending: bool) -> Seq<(Ply, i32)>
    decreases s.len(),
{
    if s.len() == 0 {
        s
    } else {
        let b = sel_pick(s, descending);
        let rest = s.update(b, s[0]).subrange(1, s.len() as int);
        seq![s[b]] + spec_sel_sort(rest, descending)
    }
}

/// The candidate order the search examines: the legal masks ascending at a
/// remaining depth of one, and otherwise the scored candidates under the
/// specification sort, descending for black and ascending for white.
pub open spec fn spec_ordered_moves(
    table: Map<Board, TranspositionEntry>,
    board: Board,
    depth: u32,
) -> Seq<u64> {
    let masks = bit_masks(spec_possible_plys(board));
    if depth == 1 {
        masks
    } else {
        spec_sel_sort(
            spec_scored(table, board, masks),
            board.turn == Some(Player::Black),
        ).map_values(|q: (Ply, i32)| q.0@)
    }
}

/// Orders the legal moves of the side to move for the search: exactly the
/// sequence `spec_ordered_moves` prescribes — all legal moves, each exactly
/// once, sorted by the table's suggested score, descending for the
/// maximizing side (black) and ascending for the minimizing side. At a
/// remaining depth of one the generator order is kept, ordering being of no
/// help to a one-ply search.
pub fn move_ordering(board: &Board, transposition_table: &TranspositionTable, depth: u32) -> (r:
    Vec<Ply>)
    ensures
        r@.map_values(|p: Ply| p@) == spec_ordered_moves(transposition_table@, *board, depth),
        r@.len() == count_bits(spec_possible_plys(*board)),
        forall|i: int|
            0 <= i < r@.len() ==> one_bit(#[trigger] r@[i]@) && r@[i]@ & spec_possible_plys(*board)
                == r@[i]@,
        forall|a: int, b: int| 0 <= a < b < r@.len() ==> r@[a]@ != r@[b]@,
        depth != 1 ==> sorted_for_search(r@, transposition_table@, *board),
        depth == 1 ==> forall|a: int, b: int| 0 <= a < b < r@.len() ==> r@[a]@ < r@[b]@,
{
    let plys = possible_plys(board);
    let moves = plys.to_vec_ply();
    if depth == 1 {
        return moves;
    }
    let ghost masks = bit_masks(spec_possible_plys(*board));
    let ghost scored_spec = spec_scored(transposition_table@, *board, masks);
    let mut scored: Vec<(Ply, i32)> = Vec::new();
    let mut i: usize = 0;
    while i < moves.len()
        invariant
            i <= moves.len(),
            scored@.len() == i,
            masks == bit_masks(spec_possible_plys(*board)),
            scored_spec == spec_scored(transposition_table@, *board, masks),
            moves@.map_values(|p: Ply| p@) == masks,
            moves@.len() == count_bits(spec_possible_plys(*board)),
            forall|k: int| 0 <= k < i ==> #[trigger] scored@[k] == scored_spec[k],
        decreases moves.len() - i,
    {
        let ply = moves[i];
        let successor = play(board, ply);
        let score: i32 = match transposition_table.get(&successor) {
            Some(entry) => entry.get_minmax_response().eval.value,
            None => match board.turn {
                Some(Player::Black) => i32::MAX,
                _ => i32::MIN,
            },
        };
        proof {
            lemma_ply_from_view(ply);
            assert(moves@.map_values(|p: Ply| p@)[i as int] == ply@);
            assert(score == spec_score32(transposition_table@, *board, spec_play(*board, ply@)));
            assert(scored_spec[i as int] == (spec_ply(masks[i as int]), spec_score32(
                transposition_table@,
                *board,
                spec_play(*board, masks[i as int]),
            )));
        }
        scored.push((ply, score));
        i = i + 1;
    }
    proof {
        assert(scored@ =~= scored_spec);
    }
    let descending = match board.turn {
        Some(Player::Black) => true,
        _ => false,
    };
    let sorted = sort_scored(&scored, descending);
    let ghost sorted_spec = spec_sel_sort(scored_spec, descending);
    proof {
        lemma_sel_sort_elements(scored_spec, descending);
        lemma_sel_sort_sorted(scored_spec, descending);
        assert(moves@.len() == masks.len());
        assert forall|x: int, y: int| 0 <= x < y < scored_spec.len() implies scored_spec[x].0@
            != scored_spec[y].0@ by {
            lemma_spec_ply_view(masks[x]);
            lemma_spec_ply_view(masks[y]);
            assert(scored_spec[x].0 == spec_ply(masks[x]));
            assert(scored_spec[y].0 == spec_ply(masks[y]));
            assert(moves@.map_values(|p: Ply| p@)[x] == moves@[x]@);
            assert(moves@.map_values(|p: Ply| p@)[y] == moves@[y]@);
            assert(moves@[x]@ < moves@[y]@);
        }
        lemma_sel_sort_distinct(scored_spec, descending);
    }
    let mut out: Vec<Ply> = Vec::new();
    let mut k: usize = 0;
    while k < sorted.len()
        invariant
            k <= sorted@.len(),
            out@.len() == k,
            sorted@ == sorted_spec,
            forall|j: int| 0 <= j < k ==> #[trigger] out@[j] == sorted@[j].0,
        decreases sorted.len() - k,
    {
        out.push(sorted[k].0);
        k = k + 1;
    }
    proof {
        assert(out@.map_values(|p: Ply| p@) =~= sorted_spec.map_values(|q: (Ply, i32)| q.0@));
        assert forall|j: int| 0 <= j < out@.len() implies one_bit(#[trigger] out@[j]@) && out@[j]@
            & spec_possible_plys(*board) == out@[j]@ by {
            assert(exists|e: int|
                0 <= e < scored_spec.len() && #[trigger] sorted_spec[j] == scored_spec[e]);
            let e = choose|e: int|
                0 <= e < scored_spec.len() && #[trigger] sorted_spec[j] == scored_spec[e];
            assert(scored_spec[e].0@ == spec_ply(masks[e])@);
            lemma_spec_ply_view(masks[e]);
            assert(moves@.map_values(|p: Ply| p@)[e] == moves@[e]@);
            assert(out@[j]@ == moves@[e]@);
        }
        assert forall|a: int, b: int| 0 <= a < b < out@.len() implies score_le(
            spec_ordering_score(transposition_table@, *board, spec_play(*board, out@[b]@)),
            spec_ordering_score(transposition_table@, *board, spec_play(*board, out@[a]@)),
            board.turn == Some(Player::Black),
        ) by {
            assert(exists|e: int|
                0 <= e < scored_spec.len() && #[trigger] sorted_spec[a] == scored_spec[e]);
            let ea = choose|e: int|
                0 <= e < scored_spec.len() && #[trigger] sorted_spec[a] == scored_spec[e];
            assert(exists|e: int|
                0 <= e < scored_spec.len() && #[trigger] sorted_spec[b] == scored_spec[e]);
            let eb = choose|e: int|
                0 <= e < scored_spec.len() && #[trigger] sorted_spec[b] == scored_spec[e];
            lemma_spec_ply_view(masks[ea]);
            lemma_spec_ply_view(masks[eb]);
            assert(sorted_spec[a].1 == spec_score32(
                transposition_table@,
                *board,
                spec_play(*board, sorted_spec[a].0@),
            ));
            assert(sorted_spec[b].1 == spec_score32(
                transposition_table@,
                *board,
                spec_play(*board, sorted_spec[b].0@),
            ));
            assert(score_le(sorted_spec[b].1 as int, sorted_spec[a].1 as int, descending));
        }
    }
    out
}

/// `scan_best` stays in bounds and its answer's score is preferred to every
/// entry's score.
proof fn lemma_scan_best(s: Seq<(Ply, i32)>, descending: bool, j: nat, best: nat)
    requires
        best < s.len(),
        j <= s.len(),
        forall|k: int| 0 <= k < j ==> score_le(s[k].1 as int, s[best as int].1 as int, descending),
    ensures
        scan_best(s, descending, j, best) < s.len(),
        forall|k: int|
            0 <= k < s.len() ==> score_le(
                s[k].1 as int,
                s[scan_best(s, descending, j, best) as int].1 as int,
                descending,
            ),
    decreases s.len() - j,
{
    if j < s.len() {
        let better = if descending {
            s[j as int].1 > s[best as int].1
        } else {
            s[j as int].1 < s[best as int].1
        };
        if better {
            lemma_scan_best(s, descending, j + 1, j);
        } else {
            lemma_scan_best(s, descending, j + 1, best);
        }
    }
}

/// The specification sort permutes its input: same length, every entry
/// drawn from the input.
proof fn lemma_sel_sort_elements(s: Seq<(Ply, i32)>, descending: bool)
    ensures
        spec_sel_sort(s, descending).len() == s.len(),
        forall|k: int|
            0 <= k < s.len() ==> exists|j: int|
                0 <= j < s.len() && #[trigger] spec_sel_sort(s, descending)[k] == s[j],
    decreases s.len(),
{
    if s.len() > 0 {
        lemma_scan_best(s, descending, 1, 0);
        let b = sel_pick(s, descending);
        let rest = s.update(b, s[0]).subrange(1, s.len() as int);
        lemma_sel_sort_elements(rest, descending);
        let out = spec_sel_sort(s, descending);
        assert forall|k: int| 0 <= k < s.len() implies exists|j: int|
            0 <= j < s.len() && #[trigger] out[k] == s[j] by {
            if k == 0 {
                assert(out[0] == s[b]);
            } else {
                assert(out[k] == spec_sel_sort(rest, descending)[k - 1]);
                let j2 = choose|j2: int|
                    0 <= j2 < rest.len() && #[trigger] spec_sel_sort(rest, descending)[k - 1]
                        == rest[j2];
                assert(rest[j2] == s.update(b, s[0])[j2 + 1]);
                if j2 + 1 == b {
                    assert(out[k] == s[0]);
                } else {
                    assert(out[k] == s[j2 + 1]);
                }
            }
        }
    }
}

/// The specification sort leaves the scores in the chosen order.
proof fn lemma_sel_sort_sorted(s: Seq<(Ply, i32)>, descending: bool)
    ensures
        sorted_by_score(spec_sel_sort(s, descending), descending),
    decreases s.len(),
{
    if s.len() > 0 {
        lemma_scan_best(s, descending, 1, 0);
        let b = sel_pick(s, descending);
        let rest = s.update(b, s[0]).subrange(1, s.len() as int);
        lemma_sel_sort_sorted(rest, descending);
        lemma_sel_sort_elements(rest, descending);
        let out = spec_sel_sort(s, descending);
        assert forall|x: int, y: int| 0 <= x < y < out.len() implies score_le(
            out[y].1 as int,
            out[x].1 as int,
            descending,
        ) by {
            if x == 0 {
                assert(out[y] == spec_sel_sort(rest, descending)[y - 1]);
                let j = choose|j: int|
                    0 <= j < rest.len() && #[trigger] spec_sel_sort(rest, descending)[y - 1]
                        == rest[j];
                assert(rest[j] == s.update(b, s[0])[j + 1]);
                if j + 1 == b {
                    assert(out[y] == s[0]);
                } else {
                    assert(out[y] == s[j + 1]);
                }
            } else {
                assert(score_le(
                    spec_sel_sort(rest, descending)[y - 1].1 as int,
                    spec_sel_sort(rest, descending)[x - 1].1 as int,
                    descending,
                ));
            }
        }
    }
}

/// The specification sort keeps pairwise distinct move masks distinct.
proof fn lemma_sel_sort_distinct(s: Seq<(Ply, i32)>, descending: bool)
    requires
        forall|x: int, y: int| 0 <= x < y < s.len() ==> s[x].0@ != s[y].0@,
    ensures
        forall|x: int, y: int|
            0 <= x < y < spec_sel_sort(s, descending).len() ==> spec_sel_sort(s, descending)[x].0@
                != spec_sel_sort(s, descending)[y].0@,
    decreases s.len(),
{
    if s.len() > 0 {
        lemma_scan_best(s, descending, 1, 0);
        let b = sel_pick(s, descending);
        let rest = s.update(b, s[0]).subrange(1, s.len() as int);
        assert forall|x: int, y: int| 0 <= x < y < rest.len() implies rest[x].0@ != rest[y].0@ by {
            assert(rest[x] == s.update(b, s[0])[x + 1]);
            assert(rest[y] == s.update(b, s[0])[y + 1]);
        }
        lemma_sel_sort_distinct(rest, descending);
        lemma_sel_sort_elements(rest, descending);
        let out = spec_sel_sort(s, descending);
        assert forall|x: int, y: int| 0 <= x < y < out.len() implies out[x].0@ != out[y].0@ by {
            if x == 0 {
                assert(out[y] == spec_sel_sort(rest, descending)[y - 1]);
                let j = choose|j: int|
                    0 <= j < rest.len() && #[trigger] spec_sel_sort(rest, descending)[y - 1]
                        == rest[j];
                assert(rest[j] == s.update(b, s[0])[j + 1]);
                if j + 1 == b {
                    assert(out[y] == s[0] && b != 0);
                } else {
                    assert(out[y] == s[j + 1] && j + 1 != b);
                }
            } else {
                assert(spec_sel_sort(rest, descending)[x - 1].0@ != spec_sel_sort(
                    rest,
                    descending,
                )[y - 1].0@);
            }
        }
    }
}

/// Sorts scored moves exactly as `spec_sel_sort` prescribes, by selecting
/// the preferred entry to the front and recurring on the remainder.
fn sort_scored(v: &Vec<(Ply, i32)>, descending: bool) -> (r: Vec<(Ply, i32)>)
    ensures
        r@ == spec_sel_sort(v@, descending),
    decreases v@.len(),
{
    let ghost s = v@;
    let n = v.len();
    if n == 0 {
        let r: Vec<(Ply, i32)> = Vec::new();
        proof {
            assert(r@ =~= spec_sel_sort(s, descending));
        }
        return r;
    }
    let mut best: usize = 0;
    let mut j: usize = 1;
    while j < n
        invariant
            1 <= j <= n,
            best < j,
            n == v@.len(),
            s == v@,
            scan_best(s, descending, j as nat, best as nat) == scan_best(s, descending, 1, 0),
        decreases n - j,
    {
        let better = if descending {
            v[j].1 > v[best].1
        } else {
            v[j].1 < v[best].1
        };
        if better {
            best = j;
        }
        j = j + 1;
    }
    proof {
        assert(scan_best(s, descending, n as nat, best as nat) == best as nat);
        assert(sel_pick(s, descending) == best as int);
    }
    let first = v[0];
    let vb = v[best];
    let mut rest: Vec<(Ply, i32)> = Vec::new();
    let mut k: usize = 1;
    while k < n
        invariant
            1 <= k <= n,
            best < n,
            n == v@.len(),
            s == v@,
            first == s[0],
            rest@.len() == k - 1,
            forall|x: int|
                0 <= x < rest@.len() ==> #[trigger] rest@[x] == (if x + 1 == best {
                    s[0]
                } else {
                    s[x + 1]
                }),
        decreases n - k,
    {
        if k == best {
            rest.push(first);
        } else {
            rest.push(v[k]);
        }
        k = k + 1;
    }
    proof {
        assert(rest@ =~= s.update(best as int, s[0]).subrange(1, s.len() as int));
    }
    let sorted_rest = sort_scored(&rest, descending);
    let mut out: Vec<(Ply, i32)> = Vec::new();
    out.push(vb);
    let mut t: usize = 0;
    while t < sorted_rest.len()
        invariant
            t <= sorted_rest@.len(),
            out@.len() == t + 1,
            out@[0] == s[best as int],
            forall|x: int| 1 <= x < t + 1 ==> #[trigger] out@[x] == sorted_rest@[x - 1],
        decreases sorted_rest.len() - t,
    {
        out.push(sorted_rest[t]);
        t = t + 1;
    }
    proof {
        assert(out@ =~= seq![s[best as int]] + sorted_rest@);
        assert(out@ == spec_sel_sort(s, descending));
    }
    out
}

/// `x` comes no earlier than `y` under the chosen direction: descending
/// keeps greater scores first, ascending keeps smaller scores first.
pub open spec fn score_le(x: int, y: int, descending: bool) -> bool {
    if descending {
        x <= y
    } else {
        y <= x
    }
}

/// The scored list is sorted in the chosen direction.
pub open spec fn sorted_by_score(s: Seq<(Ply, i32)>, descending: bool) -> bool {
    forall|a: int, b: int| 0 <= a < b < s.len() ==> score_le(s[b].1 as int, s[a].1 as int, descending)
}

/// The moves stand in the order the search wants: by the table's suggested
/// score of each move's successor, descending when black (the maximizer) is
/// to move and ascending otherwise.
pub open spec fn sorted_for_search(s: Seq<Ply>, table: Map<Board, TranspositionEntry>, board: Board) -> bool {
    forall|a: int, b: int|
        0 <= a < b < s.len() ==> score_le(
            spec_ordering_score(table, board, spec_play(board, s[b]@)),
            spec_ordering_score(table, board, spec_play(board, s[a]@)),
            board.turn == Some(Player::Black),
        )
}

} // verus!
