//! How a reveal spreads over the board: facts about flood paths.
//!
//! A reveal opens its target and then every hidden, unmined neighbor of each
//! opened cell that has no mine around it. The model states this as
//! reachability along flood paths; the lemmas here connect that statement with
//! a search that opens one cell at a time, and with several reveals in a row.

use vstd::prelude::*;
use crate::model::{BoardView, Coord};

verus! {

impl BoardView {
    /// Whether the flood never leaves `reached`: from a cell of `reached` it
    /// passes on only to cells of `reached`.
    pub open spec fn closed_under_flood(self, reached: Set<Coord>) -> bool {
        forall|a: Coord, b: Coord|
            #![trigger reached.contains(a), self.flood_step(a, b)]
            reached.contains(a) && self.flood_step(a, b) && self.floodable(b) ==> reached.contains(
                b,
            )
    }

    /// A cell that can be opened opens itself.
    pub proof fn lemma_floods_self(self, c: Coord)
        requires
            self.floodable(c),
        ensures
            self.floods(c, c),
    {
        let path = seq![c];
        assert(path[0] == c);
        assert(self.flood_path(path));
        assert(path.first() == c && path.last() == c);
    }

    /// Only a cell that can be opened opens anything, and all it opens are
    /// cells that can be opened.
    pub proof fn lemma_floods_floodable(self, from: Coord, to: Coord)
        requires
            self.floods(from, to),
        ensures
            self.floodable(from),
            self.floodable(to),
    {
        let path = choose|path: Seq<Coord>|
            #[trigger] self.flood_path(path) && path.first() == from && path.last() == to;
        assert(self.floodable(path[0]));
        assert(self.floodable(path[path.len() - 1]));
    }

    /// What a reveal has opened, it passes on from: if `from` opens `a`, and the
    /// flood passes from `a` on to a cell `b` that can be opened, then `from`
    /// opens `b`.
    pub proof fn lemma_floods_step(self, from: Coord, a: Coord, b: Coord)
        requires
            self.floods(from, a),
            self.flood_step(a, b),
            self.floodable(b),
        ensures
            self.floods(from, b),
    {
        let path = choose|path: Seq<Coord>|
            #[trigger] self.flood_path(path) && path.first() == from && path.last() == a;
        let longer = path.push(b);
        assert forall|i: int| 0 <= i < longer.len() implies self.floodable(
            #[trigger] longer[i],
        ) by {
            if i < path.len() {
                assert(longer[i] == path[i]);
            }
        }
        assert forall|i: int| 0 <= i < longer.len() - 1 implies self.flood_step(
            #[trigger] longer[i],
            longer[i + 1],
        ) by {
            if i < path.len() - 1 {
                assert(longer[i] == path[i]);
                assert(longer[i + 1] == path[i + 1]);
            } else {
                assert(longer[i] == a);
                assert(longer[i + 1] == b);
            }
        }
        assert(self.flood_path(longer));
        assert(longer.first() == from && longer.last() == b);
    }

    /// Along a flood path, once inside a set that the flood never leaves, always
    /// inside it.
    proof fn lemma_path_stays(self, path: Seq<Coord>, reached: Set<Coord>, i: int, j: int)
        requires
            self.flood_path(path),
            self.closed_under_flood(reached),
            0 <= i <= j < path.len(),
            reached.contains(path[i]),
        ensures
            reached.contains(path[j]),
        decreases j - i,
    {
        if i < j {
            self.lemma_path_stays(path, reached, i, j - 1);
            assert(self.flood_step(path[j - 1], path[j - 1 + 1]));
            assert(self.floodable(path[j]));
        }
    }

    /// A reveal opens nothing outside a set that holds its target and that the
    /// flood never leaves.
    pub proof fn lemma_floods_within(self, from: Coord, reached: Set<Coord>)
        requires
            self.floodable(from) ==> reached.contains(from),
            self.closed_under_flood(reached),
        ensures
            forall|c: Coord| self.floods(from, c) ==> reached.contains(c),
    {
        assert forall|c: Coord| self.floods(from, c) implies reached.contains(c) by {
            let path = choose|path: Seq<Coord>|
                #[trigger] self.flood_path(path) && path.first() == from && path.last() == c;
            assert(self.floodable(path[0]));
            self.lemma_path_stays(path, reached, 0, path.len() - 1);
        }
    }

    /// A reveal of a cell with a mine around it opens that cell alone.
    pub proof fn lemma_floods_numbered(self, from: Coord, to: Coord)
        requires
            self.adjacent_mines(from.0, from.1) != 0,
            self.floods(from, to),
        ensures
            to == from,
    {
        let path = choose|path: Seq<Coord>|
            #[trigger] self.flood_path(path) && path.first() == from && path.last() == to;
        if path.len() > 1 {
            assert(self.flood_step(path[0], path[1]));
        }
    }

    /// A reveal of a target that cannot be opened changes nothing.
    pub proof fn lemma_reveal_noop(self, x: int, y: int)
        requires
            !self.floodable((x, y)),
        ensures
            self.reveal_cell(x, y) == self,
    {
        let opened = self.opened_by_reveal(x, y);
        assert forall|c: Coord| !opened.contains(c) by {
            if self.floods((x, y), c) {
                self.lemma_floods_floodable((x, y), c);
            }
        }
        self.lemma_uncover_nothing(opened);
    }

    /// What a reveal opens are cells that can be opened, and the flood never
    /// leaves them.
    pub proof fn lemma_opened_by_reveal(self, x: int, y: int)
        ensures
            forall|c: Coord| self.opened_by_reveal(x, y).contains(c) ==> self.floodable(c),
            self.closed_under_flood(self.opened_by_reveal(x, y)),
    {
        let opened = self.opened_by_reveal(x, y);
        assert forall|c: Coord| opened.contains(c) implies self.floodable(c) by {
            self.lemma_floods_floodable((x, y), c);
        }
        assert forall|a: Coord, b: Coord|
            #![trigger opened.contains(a), self.flood_step(a, b)]
            opened.contains(a) && self.flood_step(a, b) && self.floodable(b)
            implies opened.contains(b) by {
            self.lemma_floods_step((x, y), a, b);
        }
    }

    /// What several reveals open are cells that can be opened, and the flood
    /// never leaves them.
    pub proof fn lemma_opened_from(self, seeds: Seq<Coord>)
        ensures
            forall|c: Coord| self.opened_from(seeds).contains(c) ==> self.floodable(c),
            self.closed_under_flood(self.opened_from(seeds)),
    {
        let opened = self.opened_from(seeds);
        assert forall|c: Coord| opened.contains(c) implies self.floodable(c) by {
            let k = choose|k: int| 0 <= k < seeds.len() && self.floods(#[trigger] seeds[k], c);
            self.lemma_floods_floodable(seeds[k], c);
        }
        assert forall|a: Coord, b: Coord|
            #![trigger opened.contains(a), self.flood_step(a, b)]
            opened.contains(a) && self.flood_step(a, b) && self.floodable(b)
            implies opened.contains(b) by {
            let k = choose|k: int| 0 <= k < seeds.len() && self.floods(#[trigger] seeds[k], a);
            self.lemma_floods_step(seeds[k], a, b);
        }
    }

    /// Revealing one more cell opens what the others open and what it opens.
    pub proof fn lemma_opened_from_push(self, seeds: Seq<Coord>, seed: Coord)
        ensures
            self.opened_from(seeds.push(seed)) == self.opened_from(seeds).union(
                self.opened_by_reveal(seed.0, seed.1),
            ),
            self.opened_from(Seq::empty()) == Set::<Coord>::empty(),
    {
        let more = seeds.push(seed);
        let lhs = self.opened_from(more);
        let rhs = self.opened_from(seeds).union(self.opened_by_reveal(seed.0, seed.1));
        assert forall|c: Coord| lhs.contains(c) <==> rhs.contains(c) by {
            if lhs.contains(c) {
                let k = choose|k: int| 0 <= k < more.len() && self.floods(#[trigger] more[k], c);
                if k < seeds.len() {
                    assert(more[k] == seeds[k]);
                } else {
                    assert(more[k] == seed);
                }
            }
            if self.opened_from(seeds).contains(c) {
                let k = choose|k: int| 0 <= k < seeds.len() && self.floods(#[trigger] seeds[k], c);
                assert(more[k] == seeds[k]);
            }
            if self.opened_by_reveal(seed.0, seed.1).contains(c) {
                assert(more[seeds.len() as int] == seed);
            }
        }
        assert(lhs =~= rhs);
        assert(self.opened_from(Seq::empty()) =~= Set::<Coord>::empty());
    }

    /// A reveal after cells were opened, from a set that the flood never
    /// leaves, opens what it would have opened before, as far as that is not
    /// open yet.
    pub proof fn lemma_reveal_after_uncover(self, opened: Set<Coord>, x: int, y: int)
        requires
            self.wf(),
            forall|c: Coord| opened.contains(c) ==> self.floodable(c),
            self.closed_under_flood(opened),
        ensures
            self.uncover(opened).reveal_cell(x, y) == self.uncover(
                opened.union(self.opened_by_reveal(x, y)),
            ),
    {
        let later = self.uncover(opened);
        let from = (x, y);
        assert forall|c: Coord| later.floods(from, c) implies self.floods(from, c) by {
            let path = choose|path: Seq<Coord>|
                #[trigger] later.flood_path(path) && path.first() == from && path.last() == c;
            assert forall|i: int| 0 <= i < path.len() implies self.floodable(
                #[trigger] path[i],
            ) by {
                assert(later.floodable(path[i]));
            }
            assert forall|i: int| 0 <= i < path.len() - 1 implies self.flood_step(
                #[trigger] path[i],
                path[i + 1],
            ) by {
                assert(later.flood_step(path[i], path[i + 1]));
            }
            assert(self.flood_path(path));
        }
        assert forall|c: Coord| self.floods(from, c) && !opened.contains(c) implies later.floods(
            from,
            c,
        ) by {
            let path = choose|path: Seq<Coord>|
                #[trigger] self.flood_path(path) && path.first() == from && path.last() == c;
            assert forall|i: int| 0 <= i < path.len() implies later.floodable(
                #[trigger] path[i],
            ) by {
                assert(self.floodable(path[i]));
                if opened.contains(path[i]) {
                    self.lemma_path_stays(path, opened, i, path.len() - 1);
                }
            }
            assert forall|i: int| 0 <= i < path.len() - 1 implies later.flood_step(
                #[trigger] path[i],
                path[i + 1],
            ) by {
                assert(self.flood_step(path[i], path[i + 1]));
            }
            assert(later.flood_path(path));
        }
        let both = opened.union(self.opened_by_reveal(x, y));
        assert(later.reveal_cell(x, y).cells =~= self.uncover(both).cells);
    }

    /// A reveal of a cell that can be opened and has a mine around it opens
    /// that cell alone.
    pub proof fn lemma_reveal_numbered(self, x: int, y: int)
        requires
            self.floodable((x, y)),
            self.adjacent_mines(x, y) != 0,
        ensures
            self.reveal_cell(x, y) == self.uncover(set![(x, y)]),
    {
        let opened = self.opened_by_reveal(x, y);
        self.lemma_floods_self((x, y));
        assert forall|c: Coord| opened.contains(c) implies c == (x, y) by {
            self.lemma_floods_numbered((x, y), c);
        }
        assert(opened =~= set![(x, y)]);
    }

    /// One more reveal in a row of reveals: after the cells of `seeds` were
    /// revealed, a reveal of `seed` leaves the board as revealing all of them at
    /// once does, and it is safe exactly if it would have been safe before.
    pub proof fn lemma_reveal_in_turn(self, seeds: Seq<Coord>, seed: Coord)
        requires
            self.wf(),
        ensures
            self.uncover(self.opened_from(seeds)).reveal_cell(seed.0, seed.1) == self.uncover(
                self.opened_from(seeds.push(seed)),
            ),
            self.uncover(self.opened_from(seeds)).reveal_safe(seed.0, seed.1) == self.reveal_safe(
                seed.0,
                seed.1,
            ),
            self.all_safe(seeds.push(seed)) == (self.all_safe(seeds) && self.reveal_safe(
                seed.0,
                seed.1,
            )),
    {
        let opened = self.opened_from(seeds);
        self.lemma_opened_from(seeds);
        self.lemma_reveal_after_uncover(opened, seed.0, seed.1);
        self.lemma_opened_from_push(seeds, seed);
        let more = seeds.push(seed);
        if self.all_safe(more) {
            assert forall|k: int| 0 <= k < seeds.len() implies self.reveal_safe(
                (#[trigger] seeds[k]).0,
                seeds[k].1,
            ) by {
                assert(more[k] == seeds[k]);
            }
            assert(more[seeds.len() as int] == seed);
        }
        if self.all_safe(seeds) && self.reveal_safe(seed.0, seed.1) {
            assert forall|k: int| 0 <= k < more.len() implies self.reveal_safe(
                (#[trigger] more[k]).0,
                more[k].1,
            ) by {
                if k < seeds.len() {
                    assert(more[k] == seeds[k]);
                }
            }
        }
    }

    /// Revealing one more cell after some others is revealing them all.
    pub proof fn lemma_uncover_more(self, opened: Set<Coord>, c: Coord)
        ensures
            self.uncover(opened).uncover(set![c]) == self.uncover(opened.insert(c)),
    {
        assert(self.uncover(opened).uncover(set![c]).cells =~= self.uncover(
            opened.insert(c),
        ).cells);
    }

    /// The state of a search that opens, cell by cell, what a reveal of `start`
    /// opens. `opened` holds the cells opened so far and `pending` those of them
    /// whose neighbors are still to be visited:
    /// the start is open; every open cell is one that the reveal opens; the
    /// flood leaves the open cells only from pending ones; and every pending
    /// cell is open and has no mine around it.
    pub open spec fn search_inv(
        self,
        start: Coord,
        opened: Set<Coord>,
        pending: Set<Coord>,
    ) -> bool {
        &&& opened.contains(start)
        &&& forall|c: Coord| opened.contains(c) ==> self.floods(start, c)
        &&& forall|a: Coord, b: Coord|
            #![trigger opened.contains(a), self.flood_step(a, b)]
            opened.contains(a) && self.flood_step(a, b) && self.floodable(b) && !pending.contains(
                a,
            ) ==> opened.contains(b)
        &&& forall|c: Coord|
            pending.contains(c) ==> opened.contains(c) && self.adjacent_mines(c.0, c.1) == 0
    }

    /// A search begins with its start opened and pending.
    pub proof fn lemma_search_begin(self, start: Coord)
        requires
            self.floodable(start),
            self.adjacent_mines(start.0, start.1) == 0,
        ensures
            self.search_inv(start, set![start], set![start]),
    {
        self.lemma_floods_self(start);
    }

    /// Opening a neighbor of a pending cell, and making it pending if it has no
    /// mine around it, keeps a search in order.
    pub proof fn lemma_search_open(
        self,
        start: Coord,
        opened: Set<Coord>,
        pending: Set<Coord>,
        cur: Coord,
        next: Coord,
    )
        requires
            self.search_inv(start, opened, pending),
            pending.contains(cur),
            self.neighbors(cur.0, cur.1).contains(next),
            self.floodable(next),
        ensures
            self.search_inv(
                start,
                opened.insert(next),
                if self.adjacent_mines(next.0, next.1) == 0 {
                    pending.insert(next)
                } else {
                    pending
                },
            ),
    {
        assert(self.flood_step(cur, next));
        self.lemma_floods_step(start, cur, next);
    }

    /// A pending cell whose neighbors have all been visited is pending no
    /// longer.
    pub proof fn lemma_search_close(
        self,
        start: Coord,
        opened: Set<Coord>,
        pending: Set<Coord>,
        cur: Coord,
    )
        requires
            self.search_inv(start, opened, pending),
            forall|b: Coord|
                self.neighbors(cur.0, cur.1).contains(b) && self.floodable(b) ==> opened.contains(
                    b,
                ),
        ensures
            self.search_inv(start, opened, pending.remove(cur)),
    {
    }

    /// A search with nothing pending has opened exactly what the reveal opens.
    pub proof fn lemma_search_end(self, start: Coord, opened: Set<Coord>, pending: Set<Coord>)
        requires
            self.search_inv(start, opened, pending),
            forall|c: Coord| !pending.contains(c),
        ensures
            opened == self.opened_by_reveal(start.0, start.1),
    {
        assert(self.closed_under_flood(opened));
        self.lemma_floods_within(start, opened);
        assert(opened =~= self.opened_by_reveal(start.0, start.1));
    }
}

} // verus!
