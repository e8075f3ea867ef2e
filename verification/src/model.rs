//! The mathematical model of a board.
//!
//! A [`BoardView`] is what a board is to its player: its dimensions, where the
//! mines lie once they have been placed, and the state of every cell. The rules
//! of the game are spec functions over this view; the executable board states
//! its contracts in their terms.

use vstd::prelude::*;
use crate::board::CellState;

verus! {

/// A cell coordinate `(x, y)`: column first, then row.
pub type Coord = (int, int);

/// The coordinates that a sequence of machine-sized pairs stands for.
pub open spec fn as_coords(cells: Seq<(usize, usize)>) -> Seq<Coord> {
    cells.map_values(|c: (usize, usize)| (c.0 as int, c.1 as int))
}

/// How many of `cells` lie in `set`.
pub open spec fn count_in(cells: Seq<Coord>, set: Set<Coord>) -> nat {
    cells.filter(|c: Coord| set.contains(c)).len()
}

/// Whether `(x, y)` names a cell of a grid of `width` columns and `height` rows.
pub open spec fn on_grid(width: int, height: int, x: int, y: int) -> bool {
    0 <= x < width && 0 <= y < height
}

/// The one-element sequence `[(x, y)]` if that is a cell of the grid, else the
/// empty sequence.
pub open spec fn pick(width: int, height: int, x: int, y: int) -> Seq<Coord> {
    if on_grid(width, height, x, y) {
        seq![(x, y)]
    } else {
        Seq::empty()
    }
}

/// The cells of the grid a king's move away from `(x, y)`, row by row from the
/// upper left.
pub open spec fn grid_neighbors(width: int, height: int, x: int, y: int) -> Seq<Coord> {
    pick(width, height, x - 1, y - 1) + pick(width, height, x, y - 1) + pick(
        width,
        height,
        x + 1,
        y - 1,
    ) + pick(width, height, x - 1, y) + pick(width, height, x + 1, y) + pick(
        width,
        height,
        x - 1,
        y + 1,
    ) + pick(width, height, x, y + 1) + pick(width, height, x + 1, y + 1)
}

/// The character that stands for a cell in a text rendering: `#` hidden, `F`
/// flagged, the digit of its number revealed.
pub open spec fn glyph(cell: CellState) -> char {
    match cell {
        CellState::Hidden => '#',
        CellState::Flagged => 'F',
        CellState::Revealed(n) => ((48 + n) as u8) as char,
    }
}

/// Two distinct coordinates that differ by at most one in each direction.
pub open spec fn adjacent(a: Coord, b: Coord) -> bool {
    &&& a != b
    &&& -1 <= a.0 - b.0 <= 1
    &&& -1 <= a.1 - b.1 <= 1
}

/// The abstract state of a board.
#[verifier::ext_equal]
pub struct BoardView {
    /// Number of columns.
    pub width: int,
    /// Number of rows.
    pub height: int,
    /// Number of mines the board is configured with.
    pub mines: int,
    /// Whether the mine layout has been drawn yet.
    pub placed: bool,
    /// The coordinates of the mines; empty until the layout is drawn.
    pub mined: Set<Coord>,
    /// The visible state of every cell of the grid.
    pub cells: Map<Coord, CellState>,
}

impl BoardView {
    /// A board as it is constructed: every cell hidden, no mine placed.
    pub open spec fn fresh(width: int, height: int, mines: int) -> BoardView {
        BoardView {
            width,
            height,
            mines,
            placed: false,
            mined: Set::empty(),
            cells: Map::new(
                |c: Coord| on_grid(width, height, c.0, c.1),
                |c: Coord| CellState::Hidden,
            ),
        }
    }

    /// Whether `(x, y)` names a cell of the grid.
    pub open spec fn in_bounds(self, x: int, y: int) -> bool {
        on_grid(self.width, self.height, x, y)
    }

    /// Whether `c` names a cell of the grid.
    pub open spec fn contains(self, c: Coord) -> bool {
        on_grid(self.width, self.height, c.0, c.1)
    }

    /// All coordinates of the grid.
    pub open spec fn grid(self) -> Set<Coord> {
        Set::new(|c: Coord| on_grid(self.width, self.height, c.0, c.1))
    }

    /// The state of the cell at `(x, y)`.
    pub open spec fn cell(self, x: int, y: int) -> CellState {
        self.cells[(x, y)]
    }

    /// Whether the cell at `(x, y)` holds a mine.
    pub open spec fn is_mine(self, x: int, y: int) -> bool {
        self.mined.contains((x, y))
    }

    /// The cells of the grid a king's move away from `(x, y)`, row by row from
    /// the upper left.
    pub open spec fn neighbors(self, x: int, y: int) -> Seq<Coord> {
        grid_neighbors(self.width, self.height, x, y)
    }

    /// The number of mines among the neighbors of `(x, y)`.
    pub open spec fn adjacent_mines(self, x: int, y: int) -> nat {
        count_in(grid_neighbors(self.width, self.height, x, y), self.mined)
    }

    /// The coordinates of the flagged cells.
    pub open spec fn flagged(self) -> Set<Coord> {
        Set::new(|c: Coord| self.contains(c) && self.cells[c] is Flagged)
    }

    /// The number of flagged cells among the neighbors of `(x, y)`.
    pub open spec fn adjacent_flags(self, x: int, y: int) -> nat {
        count_in(grid_neighbors(self.width, self.height, x, y), self.flagged())
    }

    /// The invariants of a board:
    /// the dimensions are positive and the mines leave a cell free; every cell
    /// of the grid, and nothing else, has a state; the mines lie on the grid,
    /// none before the layout is drawn and exactly `mines` after; and a revealed
    /// cell is never mined and shows the number of mines around it.
    pub open spec fn wf(self) -> bool {
        &&& 0 < self.width
        &&& 0 < self.height
        &&& 0 <= self.mines < self.width * self.height
        &&& self.cells.dom() == self.grid()
        &&& self.mined.finite()
        &&& self.mined.subset_of(self.grid())
        &&& self.mined.len() == (if self.placed {
            self.mines
        } else {
            0
        })
        &&& forall|c: Coord| #[trigger]
            self.cells.dom().contains(c) ==> (self.cells[c] matches CellState::Revealed(n)
                ==> self.placed && !self.mined.contains(c) && n == self.adjacent_mines(c.0, c.1))
    }

    /// The game is won when every cell without a mine is revealed.
    pub open spec fn is_win(self) -> bool {
        forall|c: Coord|
            #![trigger self.cells[c]]
            #![trigger self.mined.contains(c)]
            self.contains(c) ==> self.mined.contains(c) || self.cells[c] is Revealed
    }

    /// The text of row `y`: each cell's glyph followed by a space.
    pub open spec fn text_row(self, y: int) -> Seq<char> {
        Seq::new(
            (2 * self.width) as nat,
            |i: int|
                if i % 2 == 0 {
                    glyph(self.cells[(i / 2, y)])
                } else {
                    ' '
                },
        )
    }

    /// Whether `layout` can be this board's mines: exactly `mines` cells of
    /// the grid.
    pub open spec fn valid_layout(self, layout: Set<Coord>) -> bool {
        &&& layout.finite()
        &&& layout.len() == self.mines
        &&& layout.subset_of(self.grid())
    }

    /// This board with `layout` drawn as its mines.
    pub open spec fn with_mines(self, layout: Set<Coord>) -> BoardView {
        BoardView { placed: true, mined: layout, ..self }
    }

    /// Whether the first `mines` cells of `order` can be drawn as this board's
    /// mines: there are that many, they are cells of the grid, and none comes
    /// twice.
    pub open spec fn admits(self, order: Seq<Coord>) -> bool {
        &&& order.len() >= self.mines
        &&& order.take(self.mines).no_duplicates()
        &&& forall|k: int| 0 <= k < self.mines ==> self.contains(#[trigger] order[k])
    }

    /// This board as a reveal finds it: as it is once the mines are placed, and
    /// with `layout` drawn before.
    pub open spec fn ready(self, layout: Set<Coord>) -> BoardView {
        if self.placed {
            self
        } else {
            self.with_mines(layout)
        }
    }

    /// Whether `after` and `safe` are a possible outcome of a reveal at
    /// `(x, y)`.
    ///
    /// Off the grid nothing happens and the reveal is safe. On the grid, a
    /// board without mines first draws a valid layout that spares `(x, y)`;
    /// which one is not determined. After that the outcome is: the board is
    /// [`Self::reveal_cell`] and the reveal is safe as [`Self::reveal_safe`]
    /// says.
    pub open spec fn reveal_result(self, x: int, y: int, after: BoardView, safe: bool) -> bool {
        if !self.in_bounds(x, y) {
            after == self && safe
        } else {
            &&& self.placed || (self.valid_layout(after.mined) && !after.mined.contains((x, y)))
            &&& after == self.ready(after.mined).reveal_cell(x, y)
            &&& safe == self.ready(after.mined).reveal_safe(x, y)
        }
    }

    /// This board with the cell at `c` in state `s`.
    pub open spec fn with_cell(self, c: Coord, s: CellState) -> BoardView {
        BoardView { cells: self.cells.insert(c, s), ..self }
    }

    /// The board after a flag toggle at `(x, y)`: a hidden cell becomes
    /// flagged, a flagged cell hidden; a revealed cell, or a coordinate off the
    /// grid, changes nothing.
    pub open spec fn toggle_flag(self, x: int, y: int) -> BoardView {
        if !self.in_bounds(x, y) {
            self
        } else {
            match self.cells[(x, y)] {
                CellState::Hidden => self.with_cell((x, y), CellState::Flagged),
                CellState::Flagged => self.with_cell((x, y), CellState::Hidden),
                CellState::Revealed(_) => self,
            }
        }
    }

    /// A cell that a reveal may open: on the grid, hidden, and not mined.
    pub open spec fn floodable(self, c: Coord) -> bool {
        self.contains(c) && self.cells[c] is Hidden && !self.mined.contains(c)
    }

    /// The flood passes from `a` on to `b`: `a` has no mine around it and `b` is
    /// one of its neighbors.
    pub open spec fn flood_step(self, a: Coord, b: Coord) -> bool {
        self.adjacent_mines(a.0, a.1) == 0 && self.neighbors(a.0, a.1).contains(b)
    }

    /// A path along which a reveal spreads: every cell on it can be opened, and
    /// the flood passes on from each cell to the next.
    pub open spec fn flood_path(self, path: Seq<Coord>) -> bool {
        &&& path.len() > 0
        &&& forall|i: int| 0 <= i < path.len() ==> self.floodable(#[trigger] path[i])
        &&& forall|i: int|
            0 <= i < path.len() - 1 ==> self.flood_step(#[trigger] path[i], path[i + 1])
    }

    /// Revealing `from` opens `to`: a flood path leads from the one to the
    /// other. In particular a cell that can be opened opens itself.
    pub open spec fn floods(self, from: Coord, to: Coord) -> bool {
        exists|path: Seq<Coord>|
            #[trigger] self.flood_path(path) && path.first() == from && path.last() == to
    }

    /// The cells that a reveal of `(x, y)` opens. Empty unless `(x, y)` is a
    /// hidden cell without a mine.
    pub open spec fn opened_by_reveal(self, x: int, y: int) -> Set<Coord> {
        Set::new(|c: Coord| self.floods((x, y), c))
    }

    /// The cells that revealing all of `seeds` opens.
    pub open spec fn opened_from(self, seeds: Seq<Coord>) -> Set<Coord> {
        Set::new(
            |c: Coord| exists|k: int| 0 <= k < seeds.len() && self.floods(#[trigger] seeds[k], c),
        )
    }

    /// This board with the cells of `opened` revealed, each showing the number
    /// of mines around it.
    pub open spec fn uncover(self, opened: Set<Coord>) -> BoardView {
        BoardView {
            cells: Map::new(
                |c: Coord| self.cells.dom().contains(c),
                |c: Coord|
                    if opened.contains(c) {
                        CellState::Revealed(self.adjacent_mines(c.0, c.1) as u8)
                    } else {
                        self.cells[c]
                    },
            ),
            ..self
        }
    }

    /// The board after a reveal at `(x, y)`, once the mines are placed.
    ///
    /// A hidden cell without a mine is opened, and the reveal spreads from every
    /// opened cell without a mine around it to its hidden neighbors. Any other
    /// target (off the grid, flagged, revealed, or a hidden mine) leaves the
    /// board as it is.
    pub open spec fn reveal_cell(self, x: int, y: int) -> BoardView {
        self.uncover(self.opened_by_reveal(x, y))
    }

    /// Whether a reveal at `(x, y)` is safe: it is unless it hits a hidden mine.
    pub open spec fn reveal_safe(self, x: int, y: int) -> bool {
        !(self.in_bounds(x, y) && self.cells[(x, y)] is Hidden && self.mined.contains((x, y)))
    }

    /// Whether a chord at `(x, y)` acts: the cell is revealed, shows a number
    /// above zero, and has exactly that many flagged neighbors.
    pub open spec fn chord_applies(self, x: int, y: int) -> bool {
        &&& self.in_bounds(x, y)
        &&& self.cells[(x, y)] matches CellState::Revealed(n)
        &&& n > 0
        &&& self.adjacent_flags(x, y) == n
    }

    /// The board after a chord at `(x, y)`: where the chord acts, every hidden
    /// neighbor is revealed as by a reveal of its own; else nothing changes.
    pub open spec fn chord(self, x: int, y: int) -> BoardView {
        if self.chord_applies(x, y) {
            self.uncover(self.opened_from(self.neighbors(x, y)))
        } else {
            self
        }
    }

    /// Whether every reveal of one of `seeds` is safe.
    pub open spec fn all_safe(self, seeds: Seq<Coord>) -> bool {
        forall|k: int|
            0 <= k < seeds.len() ==> self.reveal_safe((#[trigger] seeds[k]).0, seeds[k].1)
    }

    /// Whether a chord at `(x, y)` is safe: it is unless it acts and one of the
    /// hidden neighbors is mined.
    pub open spec fn chord_safe(self, x: int, y: int) -> bool {
        self.chord_applies(x, y) ==> self.all_safe(self.neighbors(x, y))
    }
}

/// Counting over a sequence extended by one cell adds one exactly if that cell
/// lies in the set.
pub proof fn lemma_count_in_push(cells: Seq<Coord>, c: Coord, set: Set<Coord>)
    ensures
        count_in(cells.push(c), set) == count_in(cells, set) + (if set.contains(c) {
            1nat
        } else {
            0nat
        }),
{
    cells.lemma_filter_len_push(|c: Coord| set.contains(c), c);
}

/// A count never exceeds the number of cells counted over, and counting over
/// no cell gives zero.
pub proof fn lemma_count_in_bound(cells: Seq<Coord>, set: Set<Coord>)
    ensures
        count_in(cells, set) <= cells.len(),
        cells.len() == 0 ==> count_in(cells, set) == 0,
{
    cells.lemma_filter_len(|c: Coord| set.contains(c));
}

/// Where a count is zero, none of the cells lies in the set.
pub proof fn lemma_count_in_zero(cells: Seq<Coord>, set: Set<Coord>)
    requires
        count_in(cells, set) == 0,
    ensures
        forall|k: int| 0 <= k < cells.len() ==> !set.contains(#[trigger] cells[k]),
{
    let pred = |c: Coord| set.contains(c);
    assert forall|k: int| 0 <= k < cells.len() implies !set.contains(#[trigger] cells[k]) by {
        if set.contains(cells[k]) {
            cells.lemma_filter_contains(pred, k);
            let j = choose|j: int|
                0 <= j < cells.filter(pred).len() && cells.filter(pred)[j] == cells[k];
        }
    }
}

/// A prefix one longer holds what the prefix holds, and the next item; it is
/// free of duplicates exactly if the prefix is and does not hold the next item.
pub proof fn lemma_take_next<A>(s: Seq<A>, k: int)
    requires
        0 <= k < s.len(),
    ensures
        s.take(k + 1) == s.take(k).push(s[k]),
        forall|a: A| s.take(k + 1).contains(a) <==> s.take(k).contains(a) || a == s[k],
        s.take(k + 1).no_duplicates() <==> s.take(k).no_duplicates() && !s.take(k).contains(s[k]),
{
    let short = s.take(k);
    let long = s.take(k + 1);
    assert(long =~= short.push(s[k]));
    assert forall|a: A| long.contains(a) <==> short.contains(a) || a == s[k] by {
        if long.contains(a) {
            let i = choose|i: int| 0 <= i < long.len() && long[i] == a;
            if i < k {
                assert(short[i] == a);
            }
        }
        if short.contains(a) {
            let i = choose|i: int| 0 <= i < short.len() && short[i] == a;
            assert(long[i] == a);
        }
        assert(long[k] == s[k]);
    }
    if long.no_duplicates() {
        assert forall|i: int, j: int|
            0 <= i < short.len() && 0 <= j < short.len() && i != j
            implies short[i] != short[j] by {
            assert(long[i] == short[i] && long[j] == short[j]);
        }
        if short.contains(s[k]) {
            let i = choose|i: int| 0 <= i < short.len() && short[i] == s[k];
            assert(long[i] == long[k]);
        }
    }
    if short.no_duplicates() && !short.contains(s[k]) {
        assert forall|i: int, j: int|
            0 <= i < long.len() && 0 <= j < long.len() && i != j
            implies long[i] != long[j] by {
            if i < k {
                assert(short[i] == long[i]);
            }
            if j < k {
                assert(short[j] == long[j]);
            }
        }
    }
}

/// The neighbors of a cell are exactly the cells of the grid adjacent to it,
/// and there are at most eight.
pub proof fn lemma_neighbors(width: int, height: int, x: int, y: int)
    ensures
        grid_neighbors(width, height, x, y).len() <= 8,
        forall|c: Coord|
            grid_neighbors(width, height, x, y).contains(c) <==> on_grid(width, height, c.0, c.1)
                && adjacent((x, y), c),
{
    let p0 = pick(width, height, x - 1, y - 1);
    let p1 = pick(width, height, x, y - 1);
    let p2 = pick(width, height, x + 1, y - 1);
    let p3 = pick(width, height, x - 1, y);
    let p4 = pick(width, height, x + 1, y);
    let p5 = pick(width, height, x - 1, y + 1);
    let p6 = pick(width, height, x, y + 1);
    let p7 = pick(width, height, x + 1, y + 1);
    let n = grid_neighbors(width, height, x, y);
    assert forall|c: Coord| n.contains(c) <==> on_grid(width, height, c.0, c.1) && adjacent(
        (x, y),
        c,
    ) by {
        lemma_pick_contains(width, height, x - 1, y - 1, c);
        lemma_pick_contains(width, height, x, y - 1, c);
        lemma_pick_contains(width, height, x + 1, y - 1, c);
        lemma_pick_contains(width, height, x - 1, y, c);
        lemma_pick_contains(width, height, x + 1, y, c);
        lemma_pick_contains(width, height, x - 1, y + 1, c);
        lemma_pick_contains(width, height, x, y + 1, c);
        lemma_pick_contains(width, height, x + 1, y + 1, c);
        vstd::seq_lib::lemma_seq_concat_contains_all_elements(p0, p1, c);
        vstd::seq_lib::lemma_seq_concat_contains_all_elements(p0 + p1, p2, c);
        vstd::seq_lib::lemma_seq_concat_contains_all_elements(p0 + p1 + p2, p3, c);
        vstd::seq_lib::lemma_seq_concat_contains_all_elements(p0 + p1 + p2 + p3, p4, c);
        vstd::seq_lib::lemma_seq_concat_contains_all_elements(p0 + p1 + p2 + p3 + p4, p5, c);
        vstd::seq_lib::lemma_seq_concat_contains_all_elements(
            p0 + p1 + p2 + p3 + p4 + p5,
            p6,
            c,
        );
        vstd::seq_lib::lemma_seq_concat_contains_all_elements(
            p0 + p1 + p2 + p3 + p4 + p5 + p6,
            p7,
            c,
        );
    }
}

/// A pick holds a cell exactly if it is the picked one and that lies on the
/// grid.
pub proof fn lemma_pick_contains(width: int, height: int, x: int, y: int, c: Coord)
    ensures
        pick(width, height, x, y).contains(c) <==> on_grid(width, height, x, y) && c == (x, y),
{
    if on_grid(width, height, x, y) {
        assert(seq![(x, y)][0] == (x, y));
    }
}

impl BoardView {
    /// Around any cell lie at most eight mines and at most eight flags.
    pub proof fn lemma_adjacent_bounds(self, x: int, y: int)
        ensures
            self.neighbors(x, y).len() <= 8,
            self.adjacent_mines(x, y) <= 8,
            self.adjacent_flags(x, y) <= 8,
    {
        lemma_neighbors(self.width, self.height, x, y);
        lemma_count_in_bound(self.neighbors(x, y), self.mined);
        lemma_count_in_bound(self.neighbors(x, y), self.flagged());
    }

    /// Every neighbor of a cell lies on the grid.
    pub proof fn lemma_neighbors_on_grid(self, x: int, y: int)
        ensures
            forall|k: int|
                0 <= k < self.neighbors(x, y).len() ==> self.contains(
                    #[trigger] self.neighbors(x, y)[k],
                ),
    {
        lemma_neighbors(self.width, self.height, x, y);
        assert forall|k: int| 0 <= k < self.neighbors(x, y).len() implies self.contains(
            #[trigger] self.neighbors(x, y)[k],
        ) by {
            assert(self.neighbors(x, y).contains(self.neighbors(x, y)[k]));
        }
    }

    /// Toggling a flag keeps the board's invariants.
    pub proof fn lemma_toggle_flag_wf(self, x: int, y: int)
        requires
            self.wf(),
        ensures
            self.toggle_flag(x, y).wf(),
    {
        let t = self.toggle_flag(x, y);
        assert(t.cells.dom() =~= self.cells.dom());
    }

    /// Revealing cells that are hidden and not mined keeps the board's
    /// invariants.
    pub proof fn lemma_uncover_wf(self, opened: Set<Coord>)
        requires
            self.wf(),
            self.placed,
            forall|c: Coord| opened.contains(c) ==> self.floodable(c),
        ensures
            self.uncover(opened).wf(),
    {
        let u = self.uncover(opened);
        assert(u.cells.dom() =~= self.cells.dom());
        assert forall|c: Coord| #[trigger] u.cells.dom().contains(c) implies (
        u.cells[c] matches CellState::Revealed(n) ==> u.placed && !u.mined.contains(c) && n
            == u.adjacent_mines(c.0, c.1)) by {
            self.lemma_adjacent_bounds(c.0, c.1);
        }
    }

    /// Setting one cell that can be opened to its number is revealing that
    /// cell alone.
    pub proof fn lemma_uncover_one(self, c: Coord)
        requires
            self.wf(),
            self.contains(c),
        ensures
            self.with_cell(c, CellState::Revealed(self.adjacent_mines(c.0, c.1) as u8))
                == self.uncover(set![c]),
    {
        let one = self.with_cell(c, CellState::Revealed(self.adjacent_mines(c.0, c.1) as u8));
        assert(one.cells =~= self.uncover(set![c]).cells);
    }

    /// The flagged cells that come before `(x, y)` when the grid is read row by
    /// row.
    pub open spec fn flagged_before(self, x: int, y: int) -> Set<Coord> {
        Set::new(|c: Coord| self.flagged().contains(c) && (c.1 < y || (c.1 == y && c.0 < x)))
    }

    /// Reading on by one cell adds that cell to the flagged cells read, if it is
    /// flagged; reading a row to its end is standing at the start of the next.
    pub proof fn lemma_flagged_before_next(self, x: int, y: int)
        requires
            self.in_bounds(x, y),
        ensures
            !self.flagged_before(x, y).contains((x, y)),
            self.flagged_before(x + 1, y) == (if self.cells[(x, y)] is Flagged {
                self.flagged_before(x, y).insert((x, y))
            } else {
                self.flagged_before(x, y)
            }),
            self.flagged_before(self.width, y) == self.flagged_before(0, y + 1),
    {
        if self.cells[(x, y)] is Flagged {
            assert(self.flagged_before(x + 1, y) =~= self.flagged_before(x, y).insert((x, y)));
        } else {
            assert(self.flagged_before(x + 1, y) =~= self.flagged_before(x, y));
        }
        assert(self.flagged_before(self.width, y) =~= self.flagged_before(0, y + 1));
    }

    /// Before the first cell nothing is read; after the last row everything.
    pub proof fn lemma_flagged_before_ends(self)
        ensures
            self.flagged_before(0, 0) == Set::<Coord>::empty(),
            self.flagged_before(0, self.height) == self.flagged(),
    {
        assert(self.flagged_before(0, 0) =~= Set::<Coord>::empty());
        assert(self.flagged_before(0, self.height) =~= self.flagged());
    }

    /// The flagged cells read up to any point are finitely many, no more than
    /// the cells read.
    pub proof fn lemma_flagged_before_finite(self, x: int, y: int)
        requires
            0 < self.width,
            0 <= x <= self.width,
            0 <= y,
            y < self.height || (y == self.height && x == 0),
        ensures
            self.flagged_before(x, y).finite(),
            self.flagged_before(x, y).len() <= y * self.width + x,
        decreases y, x,
    {
        if x > 0 {
            let before = self.flagged_before(x - 1, y);
            self.lemma_flagged_before_finite(x - 1, y);
            self.lemma_flagged_before_next(x - 1, y);
            assert(self.flagged_before(x - 1 + 1, y) == self.flagged_before(x, y));
            assert(self.flagged_before(x, y) == before || self.flagged_before(x, y)
                == before.insert((x - 1, y)));
        } else if y > 0 {
            self.lemma_flagged_before_finite(self.width, y - 1);
            self.lemma_flagged_before_next(0, y - 1);
            assert(self.flagged_before(0, y - 1 + 1) == self.flagged_before(0, y));
            assert((y - 1) * self.width + self.width == y * self.width) by (nonlinear_arith);
        } else {
            self.lemma_flagged_before_ends();
            assert(y * self.width == 0) by (nonlinear_arith)
                requires
                    y == 0,
            ;
        }
    }

    /// The flagged cells are finitely many, no more than the grid has cells.
    pub proof fn lemma_flagged_finite(self)
        requires
            0 < self.width,
            0 < self.height,
        ensures
            self.flagged().finite(),
            self.flagged().len() <= self.width * self.height,
    {
        self.lemma_flagged_before_finite(0, self.height);
        self.lemma_flagged_before_ends();
        assert(self.height * self.width == self.width * self.height) by (nonlinear_arith);
    }

    /// A flag toggle adds the cell to the flagged cells if it was hidden, takes
    /// it from them if it was flagged, and never changes whether the game is
    /// won.
    pub proof fn lemma_toggle_flag_flagged(self, x: int, y: int)
        requires
            self.wf(),
            self.in_bounds(x, y),
        ensures
            self.toggle_flag(x, y).is_win() == self.is_win(),
            self.toggle_flag(x, y).flagged() == (match self.cells[(x, y)] {
                CellState::Hidden => self.flagged().insert((x, y)),
                CellState::Flagged => self.flagged().remove((x, y)),
                CellState::Revealed(_) => self.flagged(),
            }),
            self.flagged().contains((x, y)) == (self.cells[(x, y)] is Flagged),
    {
        let t = self.toggle_flag(x, y);
        match self.cells[(x, y)] {
            CellState::Hidden => {
                assert(t.flagged() =~= self.flagged().insert((x, y)));
            },
            CellState::Flagged => {
                assert(t.flagged() =~= self.flagged().remove((x, y)));
            },
            CellState::Revealed(_) => {},
        }
        if self.is_win() {
            assert forall|c: Coord|
                #![trigger t.cells[c]]
                #![trigger t.mined.contains(c)]
                t.contains(c) implies t.mined.contains(c) || t.cells[c] is Revealed by {
                assert(self.mined.contains(c) || self.cells[c] is Revealed);
            }
        }
        if t.is_win() {
            assert forall|c: Coord|
                #![trigger self.cells[c]]
                #![trigger self.mined.contains(c)]
                self.contains(c) implies self.mined.contains(c) || self.cells[c] is Revealed by {
                assert(t.mined.contains(c) || t.cells[c] is Revealed);
            }
        }
    }

    /// Revealing cells that are hidden flags and unflags nothing, and a cell
    /// that was revealed stays as it was.
    pub proof fn lemma_uncover_keeps(self, opened: Set<Coord>)
        requires
            self.wf(),
            forall|c: Coord| opened.contains(c) ==> self.floodable(c),
        ensures
            self.uncover(opened).flagged() == self.flagged(),
            forall|c: Coord|
                self.contains(c) && self.cells[c] is Revealed ==> #[trigger] self.uncover(
                    opened,
                ).cells[c] == self.cells[c],
            self.is_win() ==> self.uncover(opened).is_win(),
    {
        let u = self.uncover(opened);
        assert(u.flagged() =~= self.flagged());
        if self.is_win() {
            assert forall|c: Coord|
                #![trigger u.cells[c]]
                #![trigger u.mined.contains(c)]
                u.contains(c) implies u.mined.contains(c) || u.cells[c] is Revealed by {
                assert(self.mined.contains(c) || self.cells[c] is Revealed);
            }
        }
    }

    /// A board fresh from construction satisfies the invariants, has no flag,
    /// and is not won.
    pub proof fn lemma_fresh(width: int, height: int, mines: int)
        requires
            0 < width,
            0 < height,
            0 <= mines < width * height,
        ensures
            Self::fresh(width, height, mines).wf(),
            Self::fresh(width, height, mines).flagged() == Set::<Coord>::empty(),
            !Self::fresh(width, height, mines).is_win(),
    {
        let f = Self::fresh(width, height, mines);
        assert(f.cells.dom() =~= f.grid());
        assert(f.flagged() =~= Set::<Coord>::empty());
        assert(f.contains((0, 0)));
        assert(!(f.mined.contains((0, 0)) || f.cells[(0, 0)] is Revealed));
    }

    /// Revealing no cell changes nothing.
    pub proof fn lemma_uncover_nothing(self, opened: Set<Coord>)
        requires
            forall|c: Coord| self.cells.dom().contains(c) ==> !opened.contains(c),
        ensures
            self.uncover(opened) == self,
    {
        assert(self.uncover(opened).cells =~= self.cells);
    }
}

} // verus!
