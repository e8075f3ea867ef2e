//! What holds of every game: theorems about the rules of the model.
//!
//! The executable board ensures that it moves from view to view as the spec
//! functions of the model say. The theorems here are stated over those spec
//! functions and so hold of every board, whatever was done to it.

use vstd::prelude::*;
use crate::board::CellState;
use crate::model::{
    BoardView, Coord, adjacent, count_in, grid_neighbors, lemma_count_in_bound,
    lemma_count_in_push, lemma_count_in_zero, lemma_neighbors, lemma_pick_contains, on_grid, pick,
};

verus! {

/// Appending a pick of a cell that a sequence does not hold keeps the sequence
/// free of duplicates.
proof fn lemma_append_pick(cells: Seq<Coord>, width: int, height: int, x: int, y: int)
    requires
        cells.no_duplicates(),
        !cells.contains((x, y)),
    ensures
        (cells + pick(width, height, x, y)).no_duplicates(),
{
    let p = pick(width, height, x, y);
    assert forall|i: int, j: int| 0 <= i < cells.len() && 0 <= j < p.len() implies cells[i]
        != p[j] by {
        assert(cells.contains(cells[i]));
    }
    vstd::seq_lib::lemma_no_dup_in_concat(cells, p);
}

/// No cell comes twice among the neighbors of a cell.
pub proof fn lemma_neighbors_distinct(width: int, height: int, x: int, y: int)
    ensures
        grid_neighbors(width, height, x, y).no_duplicates(),
{
    let p0 = pick(width, height, x - 1, y - 1);
    let p1 = pick(width, height, x, y - 1);
    let p2 = pick(width, height, x + 1, y - 1);
    let p3 = pick(width, height, x - 1, y);
    let p4 = pick(width, height, x + 1, y);
    let p5 = pick(width, height, x - 1, y + 1);
    let p6 = pick(width, height, x, y + 1);
    let p7 = pick(width, height, x + 1, y + 1);
    let s0 = Seq::<Coord>::empty() + p0;
    let s1 = s0 + p1;
    let s2 = s1 + p2;
    let s3 = s2 + p3;
    let s4 = s3 + p4;
    let s5 = s4 + p5;
    let s6 = s5 + p6;
    let s7 = s6 + p7;
    assert forall|c: Coord|
        (s0.contains(c) ==> c == (x - 1, y - 1)) && (s1.contains(c) ==> c.1 == y - 1 && c.0 <= x)
            && (s2.contains(c) ==> c.1 == y - 1) && (s3.contains(c) ==> c.1 == y - 1 || c == (
            x - 1,
            y,
        )) && (s4.contains(c) ==> c.1 <= y) && (s5.contains(c) ==> c.1 <= y || c == (x - 1, y + 1))
            && (s6.contains(c) ==> c.1 <= y || (c.1 == y + 1 && c.0 <= x)) by {
        lemma_pick_contains(width, height, x - 1, y - 1, c);
        lemma_pick_contains(width, height, x, y - 1, c);
        lemma_pick_contains(width, height, x + 1, y - 1, c);
        lemma_pick_contains(width, height, x - 1, y, c);
        lemma_pick_contains(width, height, x + 1, y, c);
        lemma_pick_contains(width, height, x - 1, y + 1, c);
        lemma_pick_contains(width, height, x, y + 1, c);
        vstd::seq_lib::lemma_seq_concat_contains_all_elements(Seq::<Coord>::empty(), p0, c);
        vstd::seq_lib::lemma_seq_concat_contains_all_elements(s0, p1, c);
        vstd::seq_lib::lemma_seq_concat_contains_all_elements(s1, p2, c);
        vstd::seq_lib::lemma_seq_concat_contains_all_elements(s2, p3, c);
        vstd::seq_lib::lemma_seq_concat_contains_all_elements(s3, p4, c);
        vstd::seq_lib::lemma_seq_concat_contains_all_elements(s4, p5, c);
        vstd::seq_lib::lemma_seq_concat_contains_all_elements(s5, p6, c);
    }
    lemma_append_pick(Seq::empty(), width, height, x - 1, y - 1);
    lemma_append_pick(s0, width, height, x, y - 1);
    lemma_append_pick(s1, width, height, x + 1, y - 1);
    lemma_append_pick(s2, width, height, x - 1, y);
    lemma_append_pick(s3, width, height, x + 1, y);
    lemma_append_pick(s4, width, height, x - 1, y + 1);
    lemma_append_pick(s5, width, height, x, y + 1);
    lemma_append_pick(s6, width, height, x + 1, y + 1);
    assert(s7 =~= grid_neighbors(width, height, x, y));
}

/// Counting over a sequence without duplicates counts the cells that the
/// sequence and the set share.
pub proof fn lemma_count_in_is_cardinality(cells: Seq<Coord>, set: Set<Coord>)
    requires
        cells.no_duplicates(),
    ensures
        cells.to_set().intersect(set).finite(),
        count_in(cells, set) == cells.to_set().intersect(set).len(),
    decreases cells.len(),
{
    vstd::seq_lib::seq_to_set_is_finite(cells);
    vstd::set_lib::lemma_len_subset(cells.to_set().intersect(set), cells.to_set());
    if cells.len() == 0 {
        lemma_count_in_bound(cells, set);
        assert(cells.to_set().intersect(set) =~= Set::<Coord>::empty());
    } else {
        let front = cells.drop_last();
        let last = cells.last();
        assert(front.push(last) =~= cells);
        assert forall|i: int, j: int|
            0 <= i < front.len() && 0 <= j < front.len() && i != j
            implies front[i] != front[j] by {
            assert(front[i] == cells[i] && front[j] == cells[j]);
        }
        lemma_count_in_is_cardinality(front, set);
        lemma_count_in_push(front, last, set);
        front.lemma_push_to_set_commute(last);
        if front.contains(last) {
            let i = choose|i: int| 0 <= i < front.len() && front[i] == last;
            assert(cells[i] == cells[cells.len() - 1]);
        }
        let shared = front.to_set().intersect(set);
        if set.contains(last) {
            assert(cells.to_set().intersect(set) =~= shared.insert(last));
        } else {
            assert(cells.to_set().intersect(set) =~= shared);
        }
    }
}

/// Counting over two sequences joined is counting over each and adding up.
pub proof fn lemma_count_in_concat(a: Seq<Coord>, b: Seq<Coord>, set: Set<Coord>)
    ensures
        count_in(a + b, set) == count_in(a, set) + count_in(b, set),
{
    Seq::filter_distributes_over_add(a, b, |c: Coord| set.contains(c));
}

/// One if `(x, y)` is a cell of the grid that lies in `set`, else zero.
pub open spec fn one_if_in(set: Set<Coord>, width: int, height: int, x: int, y: int) -> nat {
    if on_grid(width, height, x, y) && set.contains((x, y)) {
        1
    } else {
        0
    }
}

/// Counting over a pick gives one if the picked cell is on the grid and in
/// the set, else zero.
pub proof fn lemma_count_in_pick(set: Set<Coord>, width: int, height: int, x: int, y: int)
    ensures
        count_in(pick(width, height, x, y), set) == one_if_in(set, width, height, x, y),
{
    let none = Seq::<Coord>::empty();
    lemma_count_in_bound(none, set);
    lemma_count_in_push(none, (x, y), set);
    assert(none.push((x, y)) =~= seq![(x, y)]);
}

/// The count over the neighbors of a cell, written out: the sum, over the
/// eight places around the cell, of one for each that is on the grid and in
/// the set.
pub proof fn theorem_count_around(set: Set<Coord>, width: int, height: int, x: int, y: int)
    ensures
        count_in(grid_neighbors(width, height, x, y), set) == one_if_in(
            set,
            width,
            height,
            x - 1,
            y - 1,
        ) + one_if_in(set, width, height, x, y - 1) + one_if_in(set, width, height, x + 1, y - 1)
            + one_if_in(set, width, height, x - 1, y) + one_if_in(set, width, height, x + 1, y)
            + one_if_in(set, width, height, x - 1, y + 1) + one_if_in(set, width, height, x, y + 1)
            + one_if_in(set, width, height, x + 1, y + 1),
{
    let p0 = pick(width, height, x - 1, y - 1);
    let p1 = pick(width, height, x, y - 1);
    let p2 = pick(width, height, x + 1, y - 1);
    let p3 = pick(width, height, x - 1, y);
    let p4 = pick(width, height, x + 1, y);
    let p5 = pick(width, height, x - 1, y + 1);
    let p6 = pick(width, height, x, y + 1);
    let p7 = pick(width, height, x + 1, y + 1);
    lemma_count_in_pick(set, width, height, x - 1, y - 1);
    lemma_count_in_pick(set, width, height, x, y - 1);
    lemma_count_in_pick(set, width, height, x + 1, y - 1);
    lemma_count_in_pick(set, width, height, x - 1, y);
    lemma_count_in_pick(set, width, height, x + 1, y);
    lemma_count_in_pick(set, width, height, x - 1, y + 1);
    lemma_count_in_pick(set, width, height, x, y + 1);
    lemma_count_in_pick(set, width, height, x + 1, y + 1);
    lemma_count_in_concat(p0, p1, set);
    lemma_count_in_concat(p0 + p1, p2, set);
    lemma_count_in_concat(p0 + p1 + p2, p3, set);
    lemma_count_in_concat(p0 + p1 + p2 + p3, p4, set);
    lemma_count_in_concat(p0 + p1 + p2 + p3 + p4, p5, set);
    lemma_count_in_concat(p0 + p1 + p2 + p3 + p4 + p5, p6, set);
    lemma_count_in_concat(p0 + p1 + p2 + p3 + p4 + p5 + p6, p7, set);
}

impl BoardView {
    /// The mined cells of the grid adjacent to `(x, y)`.
    pub open spec fn mines_around(self, x: int, y: int) -> Set<Coord> {
        Set::new(|c: Coord| self.contains(c) && adjacent((x, y), c) && self.mined.contains(c))
    }

    /// The number that a cell shows is the number of mined cells adjacent to
    /// it: the count over the neighbors is the size of that set of cells.
    pub proof fn theorem_adjacent_mines_counts_mines(self, x: int, y: int)
        ensures
            self.mines_around(x, y).finite(),
            self.adjacent_mines(x, y) == self.mines_around(x, y).len(),
    {
        let around = self.neighbors(x, y);
        lemma_neighbors(self.width, self.height, x, y);
        lemma_neighbors_distinct(self.width, self.height, x, y);
        lemma_count_in_is_cardinality(around, self.mined);
        assert(around.to_set().intersect(self.mined) =~= self.mines_around(x, y));
    }

    /// Count correctness: on every board that satisfies the invariants, a cell
    /// that shows `n` is not mined and has exactly `n` mined cells adjacent to
    /// it. Every operation of the board keeps the invariants, so this holds at
    /// every point of a game.
    pub proof fn theorem_revealed_count_is_exact(self, x: int, y: int, n: u8)
        requires
            self.wf(),
            self.in_bounds(x, y),
            self.cell(x, y) == CellState::Revealed(n),
        ensures
            !self.is_mine(x, y),
            self.placed,
            n == self.mines_around(x, y).len(),
            n <= 8,
    {
        assert(self.cells.dom().contains((x, y)));
        self.theorem_adjacent_mines_counts_mines(x, y);
        self.lemma_adjacent_bounds(x, y);
    }

    /// First-click safety: whatever layout a first reveal on the grid draws,
    /// afterwards the mines are placed, exactly as many as configured, the
    /// revealed cell is not one of them, and the reveal was safe. If the cell
    /// was hidden it now shows its number.
    pub proof fn theorem_first_reveal_is_safe(self, x: int, y: int, after: BoardView, safe: bool)
        requires
            self.wf(),
            !self.placed,
            self.in_bounds(x, y),
            self.reveal_result(x, y, after, safe),
        ensures
            safe,
            after.wf(),
            after.placed,
            after.mined.len() == self.mines,
            !after.is_mine(x, y),
            self.cell(x, y) is Hidden ==> after.cell(x, y) == CellState::Revealed(
                after.adjacent_mines(x, y) as u8,
            ),
            self.cell(x, y) is Flagged ==> after.cell(x, y) is Flagged,
    {
        let ready = self.with_mines(after.mined);
        assert(ready.wf());
        ready.lemma_opened_by_reveal(x, y);
        ready.lemma_uncover_wf(ready.opened_by_reveal(x, y));
        assert(self.cells.dom().contains((x, y)));
        if self.cell(x, y) is Hidden {
            ready.lemma_floods_self((x, y));
        } else {
            ready.lemma_reveal_noop(x, y);
        }
    }

    /// A reveal keeps the invariants of a board whose mines are placed.
    pub proof fn theorem_reveal_keeps_invariants(self, x: int, y: int)
        requires
            self.wf(),
            self.placed,
        ensures
            self.reveal_cell(x, y).wf(),
    {
        self.lemma_opened_by_reveal(x, y);
        self.lemma_uncover_wf(self.opened_by_reveal(x, y));
    }

    /// A chord keeps the invariants of a board.
    pub proof fn theorem_chord_keeps_invariants(self, x: int, y: int)
        requires
            self.wf(),
        ensures
            self.chord(x, y).wf(),
    {
        if self.chord_applies(x, y) {
            assert(self.cells.dom().contains((x, y)));
            self.lemma_opened_from(self.neighbors(x, y));
            self.lemma_uncover_wf(self.opened_from(self.neighbors(x, y)));
        }
    }

    /// Flood-fill closure: a reveal of a hidden cell without a mine uncovers
    /// it; it uncovers every cell on every flood path from it, each with its
    /// number; from every cell it uncovers that has no mine around it, all
    /// neighbors are revealed afterwards but the flagged ones, and none of them
    /// is mined; and it changes no mined cell, no flagged cell and no cell that
    /// was revealed before.
    pub proof fn theorem_reveal_floods(self, x: int, y: int)
        requires
            self.wf(),
            self.placed,
        ensures
            self.floodable((x, y)) ==> self.reveal_cell(x, y).cell(x, y) is Revealed,
            forall|path: Seq<Coord>, i: int|
                #![trigger self.flood_path(path), path[i]]
                self.flood_path(path) && path.first() == (x, y) && 0 <= i < path.len()
                    ==> self.reveal_cell(x, y).cells[path[i]] == CellState::Revealed(
                    self.adjacent_mines(path[i].0, path[i].1) as u8,
                ),
            forall|a: Coord, k: int|
                #![trigger self.opened_by_reveal(x, y).contains(a), self.neighbors(a.0, a.1)[k]]
                self.opened_by_reveal(x, y).contains(a) && self.adjacent_mines(a.0, a.1) == 0 && 0
                    <= k < self.neighbors(a.0, a.1).len() ==> {
                    let b = self.neighbors(a.0, a.1)[k];
                    &&& !self.mined.contains(b)
                    &&& self.reveal_cell(x, y).cells[b] is Revealed || self.cells[b] is Flagged
                },
            forall|c: Coord|
                self.contains(c) && !(self.cells[c] is Hidden && !self.mined.contains(c))
                    ==> #[trigger] self.reveal_cell(x, y).cells[c] == self.cells[c],
    {
        let opened = self.opened_by_reveal(x, y);
        let after = self.reveal_cell(x, y);
        self.lemma_opened_by_reveal(x, y);
        if self.floodable((x, y)) {
            self.lemma_floods_self((x, y));
        }
        assert forall|path: Seq<Coord>, i: int|
            #![trigger self.flood_path(path), path[i]]
            self.flood_path(path) && path.first() == (x, y) && 0 <= i < path.len()
            implies after.cells[path[i]] == CellState::Revealed(
            self.adjacent_mines(path[i].0, path[i].1) as u8,
        ) by {
            let prefix = path.take(i + 1);
            assert forall|j: int| 0 <= j < prefix.len() implies self.floodable(
                #[trigger] prefix[j],
            ) by {
                assert(prefix[j] == path[j]);
            }
            assert forall|j: int| 0 <= j < prefix.len() - 1 implies self.flood_step(
                #[trigger] prefix[j],
                prefix[j + 1],
            ) by {
                assert(prefix[j] == path[j]);
                assert(prefix[j + 1] == path[j + 1]);
                assert(self.flood_step(path[j], path[j + 1]));
            }
            assert(self.flood_path(prefix));
            assert(prefix.first() == (x, y) && prefix.last() == path[i]);
            assert(self.floods((x, y), path[i]));
            assert(self.floodable(path[i]));
            assert(self.cells.dom().contains(path[i]));
        }
        assert forall|a: Coord, k: int|
            #![trigger opened.contains(a), self.neighbors(a.0, a.1)[k]]
            opened.contains(a) && self.adjacent_mines(a.0, a.1) == 0 && 0 <= k < self.neighbors(
                a.0,
                a.1,
            ).len() implies {
            let b = self.neighbors(a.0, a.1)[k];
            &&& !self.mined.contains(b)
            &&& after.cells[b] is Revealed || self.cells[b] is Flagged
        } by {
            let b = self.neighbors(a.0, a.1)[k];
            lemma_count_in_zero(self.neighbors(a.0, a.1), self.mined);
            self.lemma_neighbors_on_grid(a.0, a.1);
            assert(self.neighbors(a.0, a.1).contains(b));
            assert(self.flood_step(a, b));
            assert(self.cells.dom().contains(b));
            if self.cells[b] is Hidden {
                assert(self.floodable(b));
                assert(opened.contains(b));
            }
        }
    }

    /// A chord never changes a mined cell, a flagged cell or a cell that was
    /// revealed before: it uncovers hidden cells without mines, and no others.
    pub proof fn theorem_chord_spares(self, x: int, y: int)
        requires
            self.wf(),
        ensures
            forall|c: Coord|
                self.contains(c) && !(self.cells[c] is Hidden && !self.mined.contains(c))
                    ==> #[trigger] self.chord(x, y).cells[c] == self.cells[c],
    {
        self.lemma_opened_from(self.neighbors(x, y));
    }

    /// Flag round-trip: two flag toggles on one cell leave the board as it was;
    /// and a toggle on a revealed cell, or off the grid, changes nothing.
    pub proof fn theorem_toggle_flag_twice(self, x: int, y: int)
        requires
            self.wf(),
        ensures
            self.toggle_flag(x, y).toggle_flag(x, y) == self,
            self.in_bounds(x, y) && self.cell(x, y) is Hidden ==> self.toggle_flag(x, y).cell(x, y)
                is Flagged,
            self.in_bounds(x, y) && self.cell(x, y) is Flagged ==> self.toggle_flag(x, y).cell(
                x,
                y,
            ) is Hidden,
            !self.in_bounds(x, y) || self.cell(x, y) is Revealed ==> self.toggle_flag(x, y) == self,
    {
        let twice = self.toggle_flag(x, y).toggle_flag(x, y);
        if self.in_bounds(x, y) {
            assert(self.cells.dom().contains((x, y)));
        }
        assert(twice.cells =~= self.cells);
    }

    /// Chord gating: a chord acts only on a revealed cell that shows a number
    /// above zero and has exactly that many flagged neighbors. On a revealed
    /// cell with another count of flags, and on every other target, it changes
    /// nothing and is safe.
    pub proof fn theorem_chord_is_gated(self, x: int, y: int)
        ensures
            forall|n: u8|
                self.in_bounds(x, y) && self.cell(x, y) == CellState::Revealed(n)
                    && self.adjacent_flags(x, y) != n ==> self.chord(x, y) == self
                    && self.chord_safe(x, y),
            !self.in_bounds(x, y) || !(self.cell(x, y) is Revealed) || self.cell(x, y)
                == CellState::Revealed(0) ==> self.chord(x, y) == self && self.chord_safe(x, y),
    {
    }

    /// A chord is a row of reveals: it leaves the board as revealing the
    /// neighbors of the cell one after the other does, and it is safe exactly
    /// if each of those reveals is.
    pub open spec fn reveal_each(self, seeds: Seq<Coord>) -> BoardView
        decreases seeds.len(),
    {
        if seeds.len() == 0 {
            self
        } else {
            self.reveal_each(seeds.drop_last()).reveal_cell(seeds.last().0, seeds.last().1)
        }
    }

    /// Revealing cells one after the other opens what the model says revealing
    /// them together opens.
    pub proof fn theorem_reveal_each(self, seeds: Seq<Coord>)
        requires
            self.wf(),
        ensures
            self.reveal_each(seeds) == self.uncover(self.opened_from(seeds)),
        decreases seeds.len(),
    {
        if seeds.len() == 0 {
            self.lemma_opened_from_push(seeds, (0, 0));
            assert(seeds =~= Seq::<Coord>::empty());
            self.lemma_uncover_nothing(self.opened_from(seeds));
        } else {
            self.theorem_reveal_each(seeds.drop_last());
            self.lemma_reveal_in_turn(seeds.drop_last(), seeds.last());
            assert(seeds.drop_last().push(seeds.last()) =~= seeds);
        }
    }

    /// Where a chord acts, it is the reveal of each neighbor in turn.
    pub proof fn theorem_chord_reveals_each(self, x: int, y: int)
        requires
            self.wf(),
            self.chord_applies(x, y),
        ensures
            self.chord(x, y) == self.reveal_each(self.neighbors(x, y)),
    {
        self.theorem_reveal_each(self.neighbors(x, y));
    }

    /// Whether the board `after` keeps what is revealed on this board: the
    /// same grid, and every revealed cell as it was.
    pub open spec fn keeps_revealed(self, after: BoardView) -> bool {
        &&& after.width == self.width
        &&& after.height == self.height
        &&& forall|c: Coord|
            self.contains(c) && self.cells[c] is Revealed ==> #[trigger] after.cells[c]
                == self.cells[c]
    }

    /// Win monotonicity, for the flag toggle: no cell is covered again, and a
    /// won board stays won.
    pub proof fn theorem_toggle_flag_keeps_win(self, x: int, y: int)
        requires
            self.wf(),
        ensures
            self.keeps_revealed(self.toggle_flag(x, y)),
            self.toggle_flag(x, y).is_win() == self.is_win(),
    {
        if self.in_bounds(x, y) {
            self.lemma_toggle_flag_flagged(x, y);
            assert(self.cells.dom().contains((x, y)));
        }
    }

    /// Win monotonicity, for the chord: no cell is covered again, and a won
    /// board stays won.
    pub proof fn theorem_chord_keeps_win(self, x: int, y: int)
        requires
            self.wf(),
        ensures
            self.keeps_revealed(self.chord(x, y)),
            self.is_win() ==> self.chord(x, y).is_win(),
    {
        let opened = self.opened_from(self.neighbors(x, y));
        self.lemma_opened_from(self.neighbors(x, y));
        self.lemma_uncover_keeps(opened);
    }

    /// Win monotonicity, for the reveal: whatever the outcome of a reveal, no
    /// cell is covered again, and a won board stays won. A board without
    /// mines is never won.
    pub proof fn theorem_reveal_keeps_win(self, x: int, y: int, after: BoardView, safe: bool)
        requires
            self.wf(),
            self.reveal_result(x, y, after, safe),
        ensures
            self.keeps_revealed(after),
            self.is_win() ==> after.is_win(),
            !self.placed ==> !self.is_win(),
    {
        if !self.placed {
            assert(self.contains((0, 0)));
            assert(self.cells.dom().contains((0, 0)));
            assert(self.mined.len() == 0);
            assert(!self.mined.contains((0, 0)));
            assert(!(self.mined.contains((0, 0)) || self.cells[(0, 0)] is Revealed));
        }
        if self.in_bounds(x, y) {
            let ready = self.ready(after.mined);
            ready.lemma_opened_by_reveal(x, y);
            if self.placed {
                ready.lemma_uncover_keeps(ready.opened_by_reveal(x, y));
            } else {
                assert forall|c: Coord| self.contains(c) implies !(#[trigger] self.cells[c]
                    is Revealed) by {
                    assert(self.cells.dom().contains(c));
                }
            }
        }
    }

    /// Win monotonicity, for the placement: a board without mines shows no
    /// number and is not won, so drawing a valid layout covers nothing again;
    /// and the board with the layout satisfies the invariants.
    pub proof fn theorem_placement_keeps_win(self, layout: Set<Coord>)
        requires
            self.wf(),
            !self.placed,
            self.valid_layout(layout),
        ensures
            self.with_mines(layout).wf(),
            self.keeps_revealed(self.with_mines(layout)),
            !self.is_win(),
            forall|c: Coord| self.contains(c) ==> !(#[trigger] self.cells[c] is Revealed),
    {
        assert forall|c: Coord| self.contains(c) implies !(#[trigger] self.cells[c]
            is Revealed) by {
            assert(self.cells.dom().contains(c));
        }
        assert(self.contains((0, 0)));
        assert(!(self.mined.contains((0, 0)) || self.cells[(0, 0)] is Revealed));
    }

    /// The game is won exactly when no cell without a mine is left hidden or
    /// flagged. Flags on mines, or their absence, do not matter.
    pub proof fn theorem_win_ignores_flags(self)
        requires
            self.wf(),
        ensures
            self.is_win() <==> forall|c: Coord|
                self.contains(c) && !self.mined.contains(c) ==> !(#[trigger] self.cells[c]
                    is Hidden) && !(self.cells[c] is Flagged),
    {
        if self.is_win() {
            assert forall|c: Coord| self.contains(c) && !self.mined.contains(c) implies !(
            #[trigger] self.cells[c] is Hidden) && !(self.cells[c] is Flagged) by {
                assert(self.mined.contains(c) || self.cells[c] is Revealed);
            }
        }
    }
}

} // verus!
