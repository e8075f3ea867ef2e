//! The board: a grid of cells that draws its mines on the first reveal.

use vstd::prelude::*;
use crate::model::{
    BoardView, Coord, as_coords, count_in, lemma_count_in_bound, lemma_count_in_push,
    lemma_take_next, pick,
};
use crate::shuffle::{shuffle, thread_rng};

verus! {

/// What a player sees of one cell.
#[derive(Debug, Clone, Copy, PartialEq, Eq, Structural)]
pub enum CellState {
    /// Not yet uncovered.
    Hidden,
    /// Uncovered; holds the number of mines among the neighbors.
    Revealed(u8),
    /// Marked by the player as a suspected mine.
    Flagged,
}

/// A rectangular minefield, stored row by row.
#[derive(Debug, Clone)]
pub struct Board {
    width: usize,
    height: usize,
    mines: usize,
    mines_placed: bool,
    minefield: Vec<bool>,
    state: Vec<CellState>,
}

/// A cell's position in row-major storage is within the storage.
proof fn lemma_index_in_range(w: int, h: int, x: int, y: int)
    requires
        0 <= x < w,
        0 <= y < h,
    ensures
        0 <= y * w + x < w * h,
{
    assert(y * w >= 0) by (nonlinear_arith)
        requires
            y >= 0,
            w >= 0,
    ;
    assert(y * w + w <= h * w) by (nonlinear_arith)
        requires
            y + 1 <= h,
            w >= 0,
    ;
    assert(h * w == w * h) by (nonlinear_arith);
}

/// Two cells of one grid that share a position in row-major storage are the
/// same cell.
proof fn lemma_index_injective(w: int, x1: int, y1: int, x2: int, y2: int)
    requires
        0 <= x1 < w,
        0 <= x2 < w,
        y1 * w + x1 == y2 * w + x2,
    ensures
        x1 == x2,
        y1 == y2,
{
    if y1 < y2 {
        assert(y1 * w + w <= y2 * w) by (nonlinear_arith)
            requires
                y1 + 1 <= y2,
                w >= 0,
        ;
    } else if y2 < y1 {
        assert(y2 * w + w <= y1 * w) by (nonlinear_arith)
            requires
                y2 + 1 <= y1,
                w >= 0,
        ;
    }
}

/// The number of hidden cells in an array of cell states.
spec fn hidden_count(cells: Seq<CellState>) -> nat
    decreases cells.len(),
{
    if cells.len() == 0 {
        0
    } else {
        hidden_count(cells.drop_last()) + (if cells.last() is Hidden {
            1nat
        } else {
            0nat
        })
    }
}

/// Opening a hidden cell leaves one hidden cell fewer.
proof fn lemma_hidden_count_open(cells: Seq<CellState>, i: int, s: CellState)
    requires
        0 <= i < cells.len(),
        cells[i] is Hidden,
        !(s is Hidden),
    ensures
        hidden_count(cells.update(i, s)) + 1 == hidden_count(cells),
    decreases cells.len(),
{
    let next = cells.update(i, s);
    if i == cells.len() - 1 {
        assert(next.drop_last() =~= cells.drop_last());
    } else {
        assert(next.drop_last() =~= cells.drop_last().update(i, s));
        lemma_hidden_count_open(cells.drop_last(), i, s);
    }
}

/// The cells that a stack of coordinates holds.
spec fn cells_of(stack: Seq<(usize, usize)>) -> Set<Coord> {
    as_coords(stack).to_set()
}

/// A stack holds what it held before its top was pushed, and its top.
proof fn lemma_cells_of_push(stack: Seq<(usize, usize)>, top: (usize, usize))
    ensures
        cells_of(stack.push(top)) == cells_of(stack).insert((top.0 as int, top.1 as int)),
        cells_of(Seq::empty()) == Set::<Coord>::empty(),
{
    assert(as_coords(stack.push(top)) =~= as_coords(stack).push((top.0 as int, top.1 as int)));
    as_coords(stack).lemma_push_to_set_commute((top.0 as int, top.1 as int));
    assert(cells_of(Seq::empty()) =~= Set::<Coord>::empty());
}

impl View for Board {
    type V = BoardView;

    closed spec fn view(&self) -> BoardView {
        BoardView {
            width: self.width as int,
            height: self.height as int,
            mines: self.mines as int,
            placed: self.mines_placed,
            mined: Set::new(
                |c: Coord|
                    0 <= c.0 < self.width && 0 <= c.1 < self.height && self.minefield@[c.1
                        * self.width + c.0],
            ),
            cells: Map::new(
                |c: Coord| 0 <= c.0 < self.width && 0 <= c.1 < self.height,
                |c: Coord| self.state@[c.1 * self.width + c.0],
            ),
        }
    }
}

impl Board {
    /// The board's invariant: both arrays hold one entry for each cell of the
    /// grid, and the view satisfies [`BoardView::wf`].
    pub closed spec fn wf(&self) -> bool {
        &&& self.width * self.height <= usize::MAX
        &&& self.minefield@.len() == self.width * self.height
        &&& self.state@.len() == self.width * self.height
        &&& self@.wf()
    }

    /// A well-formed board has a well-formed view.
    pub proof fn lemma_view_wf(&self)
        requires
            self.wf(),
        ensures
            self@.wf(),
    {
    }

    /// Create an empty board with all cells hidden and no mines placed yet.
    pub fn new(width: usize, height: usize, mines: usize) -> (b: Board)
        requires
            width > 0,
            height > 0,
            width * height <= usize::MAX,
            mines < width * height,
        ensures
            b.wf(),
            b@.wf(),
            b@ == BoardView::fresh(width as int, height as int, mines as int),
    {
        let len = width * height;
        let b = Board {
            width,
            height,
            mines,
            mines_placed: false,
            minefield: vec![false; len],
            state: vec![CellState::Hidden; len],
        };
        proof {
            assert forall|c: Coord| !b@.mined.contains(c) by {
                if b@.contains(c) {
                    lemma_index_in_range(width as int, height as int, c.0, c.1);
                }
            }
            assert forall|c: Coord| #[trigger]
                b@.cells.dom().contains(c) implies b@.cells[c] == CellState::Hidden by {
                lemma_index_in_range(width as int, height as int, c.0, c.1);
            }
            assert(b@.mined =~= Set::<Coord>::empty());
            assert(b@.cells =~= BoardView::fresh(width as int, height as int, mines as int).cells);
            assert(b@.cells.dom() =~= b@.grid());
        }
        b
    }

    /// Board width in cells.
    pub fn width(&self) -> (w: usize)
        ensures
            w == self@.width,
    {
        self.width
    }

    /// Board height in cells.
    pub fn height(&self) -> (h: usize)
        ensures
            h == self@.height,
    {
        self.height
    }

    /// Total number of mines.
    pub fn mines(&self) -> (m: usize)
        ensures
            m == self@.mines,
    {
        self.mines
    }

    /// Whether the mine layout has been drawn yet.
    pub fn mines_placed(&self) -> (placed: bool)
        ensures
            placed == self@.placed,
    {
        self.mines_placed
    }

    /// Whether the cell at (x, y) holds a mine.
    pub fn is_mine(&self, x: usize, y: usize) -> (mined: bool)
        requires
            self.wf(),
            self@.in_bounds(x as int, y as int),
        ensures
            mined == self@.is_mine(x as int, y as int),
    {
        self.minefield[self.idx(x, y)]
    }

    /// The position of cell `(x, y)` in the row-major arrays.
    fn idx(&self, x: usize, y: usize) -> (i: usize)
        requires
            self.wf(),
            self@.in_bounds(x as int, y as int),
        ensures
            i == y * self.width + x,
            i < self.state@.len(),
            i < self.minefield@.len(),
    {
        proof {
            lemma_index_in_range(self.width as int, self.height as int, x as int, y as int);
            assert(y * self.width >= 0) by (nonlinear_arith)
                requires
                    y >= 0,
                    self.width >= 0,
            ;
        }
        y * self.width + x
    }

    /// Return the current state of the cell at (x, y).
    pub fn cell_at(&self, x: usize, y: usize) -> (cell: CellState)
        requires
            self.wf(),
            self@.in_bounds(x as int, y as int),
        ensures
            cell == self@.cell(x as int, y as int),
    {
        self.state[self.idx(x, y)]
    }

    /// Whether (x, y) names a cell of the grid.
    pub fn in_bounds(&self, x: isize, y: isize) -> (inside: bool)
        ensures
            inside == self@.in_bounds(x as int, y as int),
    {
        x >= 0 && y >= 0 && (x as usize) < self.width && (y as usize) < self.height
    }

    /// Whether the cell (x, y), given in unsigned coordinates, lies on the grid.
    fn holds(&self, x: usize, y: usize) -> (inside: bool)
        ensures
            inside == self@.in_bounds(x as int, y as int),
    {
        x < self.width && y < self.height
    }

    /// Writing `s` into the state array at the position of `(x, y)` sets that
    /// cell of the view and no other.
    proof fn lemma_set_cell(&self, next: &Board, x: int, y: int, s: CellState)
        requires
            self.wf(),
            self@.in_bounds(x, y),
            next.width == self.width,
            next.height == self.height,
            next.mines == self.mines,
            next.mines_placed == self.mines_placed,
            next.minefield@ == self.minefield@,
            next.state@ == self.state@.update(y * self.width + x, s),
        ensures
            next@ == self@.with_cell((x, y), s),
    {
        let w = self.width as int;
        let h = self.height as int;
        let target = self@.with_cell((x, y), s);
        lemma_index_in_range(w, h, x, y);
        assert forall|c: Coord| #[trigger]
            next@.cells.dom().contains(c) implies next@.cells[c] == target.cells[c] by {
            lemma_index_in_range(w, h, c.0, c.1);
            if c != (x, y) {
                if c.1 * w + c.0 == y * w + x {
                    lemma_index_injective(w, c.0, c.1, x, y);
                }
            }
        }
        assert(next@.cells =~= target.cells);
        assert(next@.mined =~= target.mined);
    }

    /// Appends `(nx, ny)` to `out` if both coordinates exist and name a cell of
    /// the grid.
    fn push_inside(&self, out: &mut Vec<(usize, usize)>, nx: Option<usize>, ny: Option<usize>)
        ensures
            as_coords(final(out)@) == as_coords(old(out)@) + (match (nx, ny) {
                (Some(a), Some(b)) => pick(self@.width, self@.height, a as int, b as int),
                _ => Seq::empty(),
            }),
    {
        if let Some(a) = nx {
            if let Some(b) = ny {
                if a < self.width && b < self.height {
                    out.push((a, b));
                    assert(as_coords(out@) =~= as_coords(old(out)@) + seq![(a as int, b as int)]);
                    return ;
                }
            }
        }
        assert(as_coords(out@) =~= as_coords(old(out)@) + Seq::<Coord>::empty());
    }

    /// The cells of the grid next to (x, y), diagonals included, row by row from
    /// the upper left. At most eight; fewer at the border.
    pub fn neighbors(&self, x: usize, y: usize) -> (out: Vec<(usize, usize)>)
        ensures
            as_coords(out@) == self@.neighbors(x as int, y as int),
            out@.len() == self@.neighbors(x as int, y as int).len(),
            out@.len() <= 8,
    {
        let left = x.checked_sub(1);
        let right = x.checked_add(1);
        let up = y.checked_sub(1);
        let down = y.checked_add(1);
        let mut out: Vec<(usize, usize)> = Vec::new();
        assert(as_coords(out@) =~= Seq::<Coord>::empty());
        self.push_inside(&mut out, left, up);
        self.push_inside(&mut out, Some(x), up);
        self.push_inside(&mut out, right, up);
        self.push_inside(&mut out, left, Some(y));
        self.push_inside(&mut out, right, Some(y));
        self.push_inside(&mut out, left, down);
        self.push_inside(&mut out, Some(x), down);
        self.push_inside(&mut out, right, down);
        assert(as_coords(out@) =~= self@.neighbors(x as int, y as int));
        proof {
            self@.lemma_adjacent_bounds(x as int, y as int);
        }
        out
    }

    /// The number of mines among the neighbors of (x, y).
    pub fn adjacent_mine_count(&self, x: usize, y: usize) -> (n: u8)
        requires
            self.wf(),
        ensures
            n == self@.adjacent_mines(x as int, y as int),
            n <= 8,
    {
        let around = self.neighbors(x, y);
        let ghost cells = self@.neighbors(x as int, y as int);
        proof {
            self@.lemma_adjacent_bounds(x as int, y as int);
            self@.lemma_neighbors_on_grid(x as int, y as int);
            lemma_count_in_bound(cells.take(0), self@.mined);
        }
        let mut n: u8 = 0;
        let mut k: usize = 0;
        while k < around.len()
            invariant
                self.wf(),
                k <= around@.len() <= 8,
                cells == as_coords(around@),
                forall|j: int| 0 <= j < cells.len() ==> self@.contains(#[trigger] cells[j]),
                n == count_in(cells.take(k as int), self@.mined),
                n <= k,
            decreases around.len() - k,
        {
            let (nx, ny) = around[k];
            assert(cells[k as int] == (nx as int, ny as int));
            proof {
                lemma_count_in_push(cells.take(k as int), cells[k as int], self@.mined);
                assert(cells.take(k as int + 1) =~= cells.take(k as int).push(cells[k as int]));
            }
            if self.minefield[self.idx(nx, ny)] {
                n += 1;
            }
            k += 1;
        }
        assert(cells.take(k as int) =~= cells);
        n
    }

    /// All cells of the grid but `exclude`, row by row.
    fn candidates(&self, exclude: (usize, usize)) -> (out: Vec<(usize, usize)>)
        requires
            self.wf(),
            self@.in_bounds(exclude.0 as int, exclude.1 as int),
        ensures
            out@.no_duplicates(),
            out@.len() == self@.width * self@.height - 1,
            forall|k: int|
                0 <= k < out@.len() ==> self@.in_bounds(
                    (#[trigger] out@[k]).0 as int,
                    out@[k].1 as int,
                ) && out@[k] != exclude,
    {
        let mut out: Vec<(usize, usize)> = Vec::new();
        let mut y: usize = 0;
        assert(0 * self.width == 0) by (nonlinear_arith);
        while y < self.height
            invariant
                self.wf(),
                self@.in_bounds(exclude.0 as int, exclude.1 as int),
                y <= self.height,
                out@.no_duplicates(),
                out@.len() == y * self.width - (if exclude.1 < y {
                    1int
                } else {
                    0int
                }),
                forall|k: int|
                    0 <= k < out@.len() ==> self@.in_bounds(
                        (#[trigger] out@[k]).0 as int,
                        out@[k].1 as int,
                    ) && out@[k] != exclude && out@[k].1 < y,
            decreases self.height - y,
        {
            let mut x: usize = 0;
            while x < self.width
                invariant
                    self.wf(),
                    self@.in_bounds(exclude.0 as int, exclude.1 as int),
                    y < self.height,
                    x <= self.width,
                    out@.no_duplicates(),
                    out@.len() == y * self.width + x - (if exclude.1 < y || (exclude.1 == y
                        && exclude.0 < x) {
                        1int
                    } else {
                        0int
                    }),
                    forall|k: int|
                        0 <= k < out@.len() ==> self@.in_bounds(
                            (#[trigger] out@[k]).0 as int,
                            out@[k].1 as int,
                        ) && out@[k] != exclude && (out@[k].1 < y || (out@[k].1 == y && out@[k].0
                            < x)),
                decreases self.width - x,
            {
                if !(x == exclude.0 && y == exclude.1) {
                    out.push((x, y));
                }
                x += 1;
            }
            assert(y * self.width + self.width == (y + 1) * self.width) by (nonlinear_arith);
            y += 1;
        }
        assert(self.height * self.width == self.width * self.height) by (nonlinear_arith);
        out
    }

    /// Place the mines on the first cells of `order`, one for each mine.
    ///
    /// This is the placement without the draw: `order` stands for the outcome of
    /// a shuffle, or spells out a layout. The mines are placed, and `true` is
    /// returned, exactly if none are placed yet and the first `mines` cells of
    /// `order` are that many distinct cells of the grid. Else nothing changes.
    pub fn place_mines_from(&mut self, order: &Vec<(usize, usize)>) -> (placed: bool)
        requires
            old(self).wf(),
        ensures
            final(self).wf(),
            final(self)@.wf(),
            placed == (!old(self)@.placed && old(self)@.admits(as_coords(order@))),
            placed ==> final(self)@ == old(self)@.with_mines(
                as_coords(order@).take(old(self)@.mines).to_set(),
            ),
            !placed ==> final(self)@ == old(self)@,
    {
        if self.mines_placed {
            return false;
        }
        if order.len() < self.mines {
            return false;
        }
        let ghost coords = as_coords(order@);
        let ghost w = self.width as int;
        let ghost h = self.height as int;
        let mut field: Vec<bool> = vec![false; self.width * self.height];
        let mut k: usize = 0;
        proof {
            assert forall|c: Coord| self@.contains(c) implies (field@[c.1 * w + c.0]
                <==> #[trigger] coords.take(0).contains(c)) by {
                lemma_index_in_range(w, h, c.0, c.1);
            }
        }
        while k < self.mines
            invariant
                self.wf(),
                !self.mines_placed,
                *self == *old(self),
                coords == as_coords(order@),
                w == self.width,
                h == self.height,
                k <= self.mines <= order@.len(),
                field@.len() == w * h,
                coords.take(k as int).no_duplicates(),
                forall|j: int| 0 <= j < k ==> self@.contains(#[trigger] coords[j]),
                forall|c: Coord|
                    self@.contains(c) ==> (field@[c.1 * w + c.0] <==> #[trigger] coords.take(
                        k as int,
                    ).contains(c)),
            decreases self.mines - k,
        {
            let (mx, my) = order[k];
            let ghost m = (mx as int, my as int);
            assert(coords[k as int] == m);
            proof {
                lemma_take_next(coords, k as int);
            }
            if !self.holds(mx, my) {
                return false;
            }
            let i = self.idx(mx, my);
            if field[i] {
                proof {
                    let short = coords.take(k as int);
                    let long = coords.take(self.mines as int);
                    let j = choose|j: int| 0 <= j < short.len() && short[j] == m;
                    assert(long[j] == long[k as int]);
                }
                return false;
            }
            let ghost prev = field@;
            field[i] = true;
            proof {
                assert forall|c: Coord| self@.contains(c) implies (field@[c.1 * w + c.0]
                    <==> #[trigger] coords.take(k as int + 1).contains(c)) by {
                    lemma_index_in_range(w, h, c.0, c.1);
                    assert(prev[c.1 * w + c.0] <==> coords.take(k as int).contains(c));
                    if c.1 * w + c.0 == i {
                        lemma_index_injective(w, c.0, c.1, mx as int, my as int);
                    }
                }
            }
            k += 1;
        }
        self.minefield = field;
        self.mines_placed = true;
        proof {
            let layout = coords.take(self.mines as int);
            assert forall|c: Coord| self@.mined.contains(c) <==> layout.to_set().contains(c) by {
                if layout.contains(c) {
                    let j = choose|j: int| 0 <= j < layout.len() && layout[j] == c;
                    assert(coords[j] == c);
                }
            }
            assert(self@.mined =~= layout.to_set());
            assert(self@.cells =~= old(self)@.cells);
            layout.unique_seq_to_set();
            vstd::seq_lib::seq_to_set_is_finite(layout);
            assert(self@ =~= old(self)@.with_mines(layout.to_set()));
        }
        true
    }

    /// Lazily place mines on the first reveal, excluding a specific coordinate.
    ///
    /// A no-op if the mines are placed already. Else exactly `mines` distinct
    /// cells other than `exclude` become mines: the first of all other cells
    /// after a shuffle. Which cells is left to the random source.
    pub fn place_mines_excluding(&mut self, exclude: (usize, usize))
        requires
            old(self).wf(),
            old(self)@.in_bounds(exclude.0 as int, exclude.1 as int),
        ensures
            final(self).wf(),
            final(self)@.wf(),
            old(self)@.placed ==> final(self)@ == old(self)@,
            !old(self)@.placed ==> {
                &&& final(self)@ == old(self)@.with_mines(final(self)@.mined)
                &&& old(self)@.valid_layout(final(self)@.mined)
                &&& !final(self)@.mined.contains((exclude.0 as int, exclude.1 as int))
            },
    {
        if self.mines_placed {
            return ;
        }
        let mut cells = self.candidates(exclude);
        let ghost sorted = cells@;
        let mut rng = thread_rng();
        shuffle(&mut cells, &mut rng);
        proof {
            let mixed = cells@;
            sorted.to_multiset_ensures();
            mixed.to_multiset_ensures();
            sorted.lemma_multiset_has_no_duplicates();
            mixed.lemma_multiset_has_no_duplicates_conv();
            assert forall|k: int| 0 <= k < mixed.len() implies self@.in_bounds(
                (#[trigger] mixed[k]).0 as int,
                mixed[k].1 as int,
            ) && mixed[k] != exclude by {
                assert(mixed.to_multiset().count(mixed[k]) > 0);
                assert(sorted.contains(mixed[k]));
                let i = choose|i: int| 0 <= i < sorted.len() && sorted[i] == mixed[k];
            }
            let coords = as_coords(mixed);
            let layout = coords.take(self.mines as int);
            assert forall|i: int, j: int|
                0 <= i < layout.len() && 0 <= j < layout.len() && i != j implies layout[i]
                != layout[j] by {
                assert(mixed[i] != mixed[j]);
            }
            assert forall|k: int| 0 <= k < self.mines implies self@.contains(
                #[trigger] coords[k],
            ) by {
                assert(self@.in_bounds(mixed[k].0 as int, mixed[k].1 as int));
            }
            if layout.to_set().contains((exclude.0 as int, exclude.1 as int)) {
                let j = choose|j: int|
                    0 <= j < layout.len() && layout[j] == (exclude.0 as int, exclude.1 as int);
                assert(mixed[j] == exclude);
            }
        }
        let placed = self.place_mines_from(&cells);
        assert(placed);
    }

    /// Uncover the hidden, unmined cell (x, y): it shows the number of mines
    /// around it, which is returned.
    fn open_cell(&mut self, x: usize, y: usize) -> (count: u8)
        requires
            old(self).wf(),
            old(self)@.placed,
            old(self)@.floodable((x as int, y as int)),
        ensures
            final(self).wf(),
            count == old(self)@.adjacent_mines(x as int, y as int),
            final(self)@ == old(self)@.uncover(set![(x as int, y as int)]),
            hidden_count(final(self).state@) + 1 == hidden_count(old(self).state@),
    {
        let count = self.adjacent_mine_count(x, y);
        let i = self.idx(x, y);
        self.state[i] = CellState::Revealed(count);
        proof {
            let c = (x as int, y as int);
            old(self).lemma_set_cell(self, x as int, y as int, CellState::Revealed(count));
            old(self)@.lemma_uncover_one(c);
            old(self)@.lemma_uncover_wf(set![c]);
            lemma_hidden_count_open(old(self).state@, i as int, CellState::Revealed(count));
        }
        count
    }

    /// Spread a reveal from the cell (x, y), which was just uncovered and has no
    /// mine around it: uncover its hidden, unmined neighbors, and go on from
    /// each of them that has no mine around it either. `pre` is the board before
    /// (x, y) was uncovered.
    fn flood_fill_zeroes(&mut self, x: usize, y: usize, Ghost(pre): Ghost<BoardView>)
        requires
            old(self).wf(),
            pre.wf(),
            pre.placed,
            pre.floodable((x as int, y as int)),
            pre.adjacent_mines(x as int, y as int) == 0,
            old(self)@ == pre.uncover(set![(x as int, y as int)]),
        ensures
            final(self).wf(),
            final(self)@ == pre.reveal_cell(x as int, y as int),
    {
        let ghost start = (x as int, y as int);
        let ghost mut opened: Set<Coord> = set![start];
        let ghost mut pending: Set<Coord> = set![start];
        let mut stack: Vec<(usize, usize)> = Vec::new();
        stack.push((x, y));
        proof {
            pre.lemma_search_begin(start);
            lemma_cells_of_push(Seq::empty(), (x, y));
            assert(stack@ =~= Seq::<(usize, usize)>::empty().push((x, y)));
            assert(pending =~= cells_of(stack@));
        }
        while stack.len() > 0
            invariant
                self.wf(),
                pre.wf(),
                pre.placed,
                self@ == pre.uncover(opened),
                pre.search_inv(start, opened, pending),
                pending == cells_of(stack@),
            decreases hidden_count(self.state@) + stack@.len(),
        {
            let ghost budget = hidden_count(self.state@) + stack@.len();
            let ghost full = stack@;
            let top = stack.pop();
            assert(full =~= stack@.push(full.last()));
            let (cx, cy) = top.unwrap();
            let ghost cur = (cx as int, cy as int);
            proof {
                lemma_cells_of_push(stack@, (cx, cy));
                pre.lemma_neighbors_on_grid(cur.0, cur.1);
            }
            let around = self.neighbors(cx, cy);
            let ghost cells = as_coords(around@);
            let mut j: usize = 0;
            while j < around.len()
                invariant
                    self.wf(),
                    pre.wf(),
                    pre.placed,
                    self@ == pre.uncover(opened),
                    pre.search_inv(start, opened, pending),
                    pending == cells_of(stack@).insert(cur),
                    cells == as_coords(around@),
                    cells == pre.neighbors(cur.0, cur.1),
                    forall|k: int| 0 <= k < cells.len() ==> pre.contains(#[trigger] cells[k]),
                    j <= around@.len(),
                    forall|k: int|
                        0 <= k < j && pre.floodable(#[trigger] cells[k]) ==> opened.contains(
                            cells[k],
                        ),
                    hidden_count(self.state@) + stack@.len() < budget,
                decreases around@.len() - j,
            {
                let (nx, ny) = around[j];
                let ghost next = (nx as int, ny as int);
                assert(cells[j as int] == next);
                let i = self.idx(nx, ny);
                let hidden = match self.state[i] {
                    CellState::Hidden => true,
                    _ => false,
                };
                if hidden && !self.minefield[i] {
                    let ghost now = self@;
                    let ghost below = stack@;
                    let count = self.open_cell(nx, ny);
                    proof {
                        pre.lemma_search_open(start, opened, pending, cur, next);
                        pre.lemma_uncover_more(opened, next);
                        opened = opened.insert(next);
                    }
                    if count == 0 {
                        stack.push((nx, ny));
                        proof {
                            lemma_cells_of_push(below, (nx, ny));
                            pending = pending.insert(next);
                            assert(pending =~= cells_of(stack@).insert(cur));
                        }
                    }
                }
                j += 1;
            }
            proof {
                assert forall|b: Coord|
                    pre.neighbors(cur.0, cur.1).contains(b) && pre.floodable(b)
                    implies opened.contains(b) by {
                    let k = choose|k: int| 0 <= k < cells.len() && cells[k] == b;
                    assert(pre.floodable(cells[k]));
                }
                pre.lemma_search_close(start, opened, pending, cur);
                if cells_of(stack@).contains(cur) {
                    assert(cells_of(stack@) =~= pending);
                } else {
                    assert(cells_of(stack@) =~= pending.remove(cur));
                }
                pending = cells_of(stack@);
            }
        }
        proof {
            assert(stack@ =~= Seq::<(usize, usize)>::empty());
            lemma_cells_of_push(Seq::empty(), (x, y));
            pre.lemma_search_end(start, opened, pending);
        }
    }

    /// Reveal the cell (x, y) of a board whose mines are placed. Returns true
    /// if safe, false if the cell is a hidden mine.
    fn reveal_placed(&mut self, x: usize, y: usize) -> (safe: bool)
        requires
            old(self).wf(),
            old(self)@.placed,
            old(self)@.in_bounds(x as int, y as int),
        ensures
            final(self).wf(),
            final(self)@ == old(self)@.reveal_cell(x as int, y as int),
            safe == old(self)@.reveal_safe(x as int, y as int),
    {
        let ghost pre = self@;
        let i = self.idx(x, y);
        match self.state[i] {
            CellState::Hidden => {
                if self.minefield[i] {
                    proof {
                        pre.lemma_reveal_noop(x as int, y as int);
                    }
                    return false;
                }
                let count = self.open_cell(x, y);
                if count == 0 {
                    self.flood_fill_zeroes(x, y, Ghost(pre));
                } else {
                    proof {
                        pre.lemma_reveal_numbered(x as int, y as int);
                    }
                }
                true
            },
            _ => {
                proof {
                    pre.lemma_reveal_noop(x as int, y as int);
                }
                true
            },
        }
    }

    /// Reveal a cell. Returns true if safe, false if a mine was revealed.
    ///
    /// The first reveal on the grid places the mines, sparing (x, y). A hidden
    /// cell without a mine is uncovered and shows the number of mines around it;
    /// if that is zero the reveal spreads to its neighbors. A coordinate off the
    /// grid, a flagged cell and a revealed cell change nothing and are safe. A
    /// hidden mine changes nothing and is not safe.
    pub fn reveal_cell(&mut self, x: usize, y: usize) -> (safe: bool)
        requires
            old(self).wf(),
        ensures
            final(self).wf(),
            final(self)@.wf(),
            old(self)@.reveal_result(x as int, y as int, final(self)@, safe),
            old(self)@.in_bounds(x as int, y as int) ==> final(self)@.placed,
            old(self)@.in_bounds(x as int, y as int) && !old(self)@.placed ==> safe
                && !final(self)@.is_mine(x as int, y as int),
            safe && old(self)@.in_bounds(x as int, y as int) && old(self)@.cell(x as int, y as int)
                is Hidden ==> final(self)@.cell(x as int, y as int) == CellState::Revealed(
                final(self)@.adjacent_mines(x as int, y as int) as u8,
            ),
    {
        if !self.holds(x, y) {
            return true;
        }
        if !self.mines_placed {
            self.place_mines_excluding((x, y));
        }
        let ghost ready = self@;
        let safe = self.reveal_placed(x, y);
        proof {
            if ready.floodable((x as int, y as int)) {
                ready.lemma_floods_self((x as int, y as int));
            }
            assert(self@.mined == old(self)@.ready(self@.mined).mined);
            assert(old(self)@.ready(self@.mined) =~= old(self)@.ready(
                old(self)@.ready(self@.mined).mined,
            ));
        }
        safe
    }

    /// Chord a revealed numbered cell: if its number equals the count of
    /// flagged neighbors, reveal every hidden neighbor. Returns true if safe,
    /// false if one of them was a mine; the other neighbors are revealed all the
    /// same.
    ///
    /// On any other cell, or off the grid, or with another count of flags,
    /// nothing changes and the chord is safe.
    pub fn chord(&mut self, x: usize, y: usize) -> (safe: bool)
        requires
            old(self).wf(),
        ensures
            final(self).wf(),
            final(self)@.wf(),
            final(self)@ == old(self)@.chord(x as int, y as int),
            safe == old(self)@.chord_safe(x as int, y as int),
    {
        if !self.holds(x, y) {
            return true;
        }
        let i = self.idx(x, y);
        let number = match self.state[i] {
            CellState::Revealed(n) => n,
            _ => 0,
        };
        if number == 0 {
            return true;
        }
        let ghost pre = self@;
        let around = self.neighbors(x, y);
        let ghost cells = as_coords(around@);
        proof {
            pre.lemma_adjacent_bounds(x as int, y as int);
            pre.lemma_neighbors_on_grid(x as int, y as int);
            lemma_count_in_bound(cells.take(0), pre.flagged());
        }
        let mut flag_count: u8 = 0;
        let mut k: usize = 0;
        while k < around.len()
            invariant
                self.wf(),
                pre == self@,
                k <= around@.len() <= 8,
                cells == as_coords(around@),
                forall|j: int| 0 <= j < cells.len() ==> pre.contains(#[trigger] cells[j]),
                flag_count == count_in(cells.take(k as int), pre.flagged()),
                flag_count <= k,
            decreases around@.len() - k,
        {
            let (nx, ny) = around[k];
            assert(cells[k as int] == (nx as int, ny as int));
            proof {
                lemma_count_in_push(cells.take(k as int), cells[k as int], pre.flagged());
                assert(cells.take(k as int + 1) =~= cells.take(k as int).push(cells[k as int]));
            }
            let flagged = match self.state[self.idx(nx, ny)] {
                CellState::Flagged => true,
                _ => false,
            };
            if flagged {
                flag_count += 1;
            }
            k += 1;
        }
        assert(cells.take(k as int) =~= cells);
        if flag_count != number {
            return true;
        }
        let mut safe = true;
        let mut j: usize = 0;
        proof {
            pre.lemma_opened_from_push(Seq::empty(), (0, 0));
            pre.lemma_uncover_nothing(Set::empty());
            assert(cells.take(0) =~= Seq::<Coord>::empty());
        }
        while j < around.len()
            invariant
                self.wf(),
                pre.wf(),
                pre.placed,
                j <= around@.len(),
                cells == as_coords(around@),
                forall|k: int| 0 <= k < cells.len() ==> pre.contains(#[trigger] cells[k]),
                self@ == pre.uncover(pre.opened_from(cells.take(j as int))),
                safe == pre.all_safe(cells.take(j as int)),
            decreases around@.len() - j,
        {
            let (nx, ny) = around[j];
            assert(cells[j as int] == (nx as int, ny as int));
            proof {
                pre.lemma_reveal_in_turn(cells.take(j as int), cells[j as int]);
                assert(cells.take(j as int + 1) =~= cells.take(j as int).push(cells[j as int]));
            }
            if !self.reveal_placed(nx, ny) {
                safe = false;
            }
            j += 1;
        }
        assert(cells.take(j as int) =~= cells);
        safe
    }

    /// Count how many flags are currently placed on the board.
    pub fn flags_count(&self) -> (n: usize)
        requires
            self.wf(),
        ensures
            n == self@.flagged().len(),
    {
        let mut n: usize = 0;
        let mut y: usize = 0;
        proof {
            self@.lemma_flagged_before_ends();
            assert(0 * self.width == 0) by (nonlinear_arith);
        }
        while y < self.height
            invariant
                self.wf(),
                y <= self.height,
                self@.flagged_before(0, y as int).finite(),
                n == self@.flagged_before(0, y as int).len(),
                n <= y * self.width,
            decreases self.height - y,
        {
            let mut x: usize = 0;
            while x < self.width
                invariant
                    self.wf(),
                    y < self.height,
                    x <= self.width,
                    self@.flagged_before(x as int, y as int).finite(),
                    n == self@.flagged_before(x as int, y as int).len(),
                    n <= y * self.width + x,
                decreases self.width - x,
            {
                proof {
                    self@.lemma_flagged_before_next(x as int, y as int);
                    lemma_index_in_range(
                        self.width as int,
                        self.height as int,
                        x as int,
                        y as int,
                    );
                }
                let flagged = match self.state[self.idx(x, y)] {
                    CellState::Flagged => true,
                    _ => false,
                };
                if flagged {
                    n += 1;
                }
                x += 1;
            }
            proof {
                self@.lemma_flagged_before_next(0, y as int);
                assert(y * self.width + self.width == (y + 1) * self.width) by (nonlinear_arith);
            }
            y += 1;
        }
        proof {
            self@.lemma_flagged_before_ends();
        }
        n
    }

    /// The board as text: for each row of cells one row of characters, in
    /// which each cell is its glyph followed by a space. The glyph is `#` for a
    /// hidden cell, `F` for a flagged one, and the digit of its number for a
    /// revealed one.
    pub fn render(&self) -> (rows: Vec<Vec<char>>)
        requires
            self.wf(),
        ensures
            rows@.len() == self@.height,
            forall|y: int| 0 <= y < self@.height ==> (#[trigger] rows@[y])@ == self@.text_row(y),
    {
        let mut rows: Vec<Vec<char>> = Vec::new();
        let mut y: usize = 0;
        while y < self.height
            invariant
                self.wf(),
                y <= self.height,
                rows@.len() == y,
                forall|r: int| 0 <= r < y ==> (#[trigger] rows@[r])@ == self@.text_row(r),
            decreases self.height - y,
        {
            let mut row: Vec<char> = Vec::new();
            let mut x: usize = 0;
            while x < self.width
                invariant
                    self.wf(),
                    y < self.height,
                    x <= self.width,
                    row@ == self@.text_row(y as int).take(2 * x),
                decreases self.width - x,
            {
                let ch = match self.state[self.idx(x, y)] {
                    CellState::Hidden => '#',
                    CellState::Flagged => 'F',
                    CellState::Revealed(n) => {
                        proof {
                            assert(self@.cells.dom().contains((x as int, y as int)));
                            self@.lemma_adjacent_bounds(x as int, y as int);
                        }
                        (48u8 + n) as char
                    },
                };
                row.push(ch);
                row.push(' ');
                assert(row@ =~= self@.text_row(y as int).take(2 * (x + 1)));
                x += 1;
            }
            assert(row@ =~= self@.text_row(y as int));
            rows.push(row);
            y += 1;
        }
        rows
    }

    /// Toggle flag on a cell. Hidden <-> Flagged. No-op if Revealed or off the
    /// grid.
    pub fn toggle_flag(&mut self, x: usize, y: usize)
        requires
            old(self).wf(),
        ensures
            final(self).wf(),
            final(self)@.wf(),
            final(self)@ == old(self)@.toggle_flag(x as int, y as int),
    {
        if !self.holds(x, y) {
            return ;
        }
        let i = self.idx(x, y);
        let next = match self.state[i] {
            CellState::Hidden => CellState::Flagged,
            CellState::Flagged => CellState::Hidden,
            CellState::Revealed(n) => CellState::Revealed(n),
        };
        self.state[i] = next;
        proof {
            old(self).lemma_set_cell(self, x as int, y as int, next);
            old(self)@.lemma_toggle_flag_wf(x as int, y as int);
            assert(old(self)@.with_cell((x as int, y as int), next) =~= old(self)@.toggle_flag(
                x as int,
                y as int,
            ));
        }
    }

    /// Check if all non-mine cells are revealed.
    pub fn is_win(&self) -> (won: bool)
        requires
            self.wf(),
        ensures
            won == self@.is_win(),
    {
        let mut y: usize = 0;
        while y < self.height
            invariant
                self.wf(),
                y <= self.height,
                forall|c: Coord|
                    #![trigger self@.cells[c]]
                    self@.contains(c) && c.1 < y ==> self@.mined.contains(c)
                        || self@.cells[c] is Revealed,
            decreases self.height - y,
        {
            let mut x: usize = 0;
            while x < self.width
                invariant
                    self.wf(),
                    y < self.height,
                    x <= self.width,
                    forall|c: Coord|
                        #![trigger self@.cells[c]]
                        self@.contains(c) && (c.1 < y || (c.1 == y && c.0 < x))
                            ==> self@.mined.contains(c) || self@.cells[c] is Revealed,
                decreases self.width - x,
            {
                let i = self.idx(x, y);
                let open = match self.state[i] {
                    CellState::Revealed(_) => true,
                    _ => false,
                };
                if !self.minefield[i] && !open {
                    assert(!(self@.mined.contains((x as int, y as int)) || self@.cells[(
                        x as int,
                        y as int,
                    )] is Revealed));
                    return false;
                }
                x += 1;
            }
            y += 1;
        }
        true
    }
}

} // verus!
