//! The sparse grid of placed bubbles and its playable bounds.

use vstd::prelude::*;

use crate::hex::{adjacent, lemma_neighbor_list_adjacent, HexCoord};
use crate::reach::{
    ball, lemma_ball_stays_closed, lemma_ball_bounds, lemma_ball_frontier, lemma_ball_grows, lemma_ball_monotone, lemma_ball_nested,
};
use crate::seqs::{lemma_push_contains, lemma_push_no_duplicates};

verus! {

/// Largest magnitude of a column or row that the grid holds.
pub const COORD_LIMIT: i32 = 0x4000_0000;

/// Largest magnitude of a column or row that a landing search may start from.
pub const SEARCH_COORD_LIMIT: i32 = 0x2000_0000;

/// A landing search gives up once it has examined more cells than this.
pub const SEARCH_CAP: usize = 1000;

/// A coordinate that the grid can hold: both components within `COORD_LIMIT`.
pub open spec fn storable(c: HexCoord) -> bool {
    -COORD_LIMIT <= c.q <= COORD_LIMIT && -COORD_LIMIT <= c.r <= COORD_LIMIT
}

/// `c` is an occupied cell of the smallest row that holds a bubble.
pub open spec fn in_top_row(g: Map<HexCoord, BubbleId>, c: HexCoord) -> bool {
    g.contains_key(c) && forall|d: HexCoord| #[trigger] g.contains_key(d) ==> c.r <= d.r
}

/// Stable identifier of a placed bubble: its index in the bubble table.
#[derive(Debug, Clone, Copy, PartialEq, Eq, Hash, Structural)]
pub struct BubbleId(pub usize);

/// The nominal playable rectangle of columns and rows.
#[derive(Debug, Clone, Copy, PartialEq, Eq, Structural)]
pub struct GridBounds {
    pub min_q: i32,
    pub max_q: i32,
    pub min_r: i32,
    pub max_r: i32,
}

/// Columns -6 to 6, rows 0 to 13.
pub open spec fn default_bounds() -> GridBounds {
    GridBounds { min_q: -6i32, max_q: 6i32, min_r: 0i32, max_r: 13i32 }
}

impl GridBounds {
    pub open spec fn contains_spec(self, c: HexCoord) -> bool {
        self.min_q <= c.q <= self.max_q && self.min_r <= c.r <= self.max_r
    }

    /// Columns -6 to 6, rows 0 to 13.
    pub fn default() -> (b: GridBounds)
        ensures
            b == default_bounds(),
    {
        GridBounds { min_q: -6, max_q: 6, min_r: 0, max_r: 13 }
    }

    /// Whether `coord` lies inside the rectangle.
    pub fn contains(&self, coord: HexCoord) -> (b: bool)
        ensures
            b == self.contains_spec(coord),
    {
        coord.q >= self.min_q && coord.q <= self.max_q && coord.r >= self.min_r && coord.r
            <= self.max_r
    }

    /// Number of columns in row `_r` (the same for every row).
    pub fn columns_in_row(&self, _r: i32) -> (n: i64)
        ensures
            n == self.max_q - self.min_q + 1,
    {
        self.max_q as i64 - self.min_q as i64 + 1
    }

    /// Every cell of the rectangle, row by row, each row from left to right.
    pub fn iter(&self) -> (cells: Vec<HexCoord>)
        requires
            (self.max_r - self.min_r + 1) * (self.max_q - self.min_q + 1) <= usize::MAX,
        ensures
            cells@.no_duplicates(),
            forall|c: HexCoord| cells@.contains(c) <==> self.contains_spec(c),
    {
        let mut cells: Vec<HexCoord> = Vec::new();
        let mut r: i64 = self.min_r as i64;
        while r <= self.max_r as i64
            invariant
                r >= self.min_r,
                r <= self.max_r + 1 || self.min_r > self.max_r,
                cells@.no_duplicates(),
                forall|c: HexCoord| #[trigger]
                    cells@.contains(c) <==> (self.contains_spec(c) && c.r < r),
            decreases self.max_r + 1 - r,
        {
            let mut q: i64 = self.min_q as i64;
            while q <= self.max_q as i64
                invariant
                    self.min_r <= r <= self.max_r,
                    q >= self.min_q,
                    q <= self.max_q + 1 || self.min_q > self.max_q,
                    cells@.no_duplicates(),
                    forall|c: HexCoord| #[trigger]
                        cells@.contains(c) <==> (self.contains_spec(c) && (c.r < r || (c.r == r
                            && c.q < q))),
                decreases self.max_q + 1 - q,
            {
                let c = HexCoord::new(q as i32, r as i32);
                proof {
                    assert(c.q == q && c.r == r);
                    assert(!cells@.contains(c));
                    lemma_push_no_duplicates(cells@, c);
                    assert forall|d: HexCoord| #[trigger]
                        cells@.push(c).contains(d) <==> (self.contains_spec(d) && (d.r < r || (d.r
                            == r && d.q < q + 1))) by {
                        lemma_push_contains(cells@, c, d);
                    }
                }
                cells.push(c);
                q = q + 1;
            }
            r = r + 1;
        }
        cells
    }
}

/// The bubbles on the board: at most one bubble per cell, in no particular
/// order, together with the nominal playable bounds.
pub struct HexGrid {
    cells: Vec<(HexCoord, BubbleId)>,
    occupancy: Ghost<Map<HexCoord, BubbleId>>,
    bounds: GridBounds,
}

impl View for HexGrid {
    type V = Map<HexCoord, BubbleId>;

    closed spec fn view(&self) -> Map<HexCoord, BubbleId> {
        self.occupancy@
    }
}

impl HexGrid {
    /// The grid's playable bounds.
    pub closed spec fn bounds_spec(&self) -> GridBounds {
        self.bounds
    }

    /// The stored cells, in storage order.
    pub closed spec fn cell_seq(&self) -> Seq<(HexCoord, BubbleId)> {
        self.cells@
    }

    /// The stored cells are exactly the entries of the view, each once.
    pub open spec fn wf(&self) -> bool {
        let cells = self.cell_seq();
        &&& forall|i: int, j: int|
            0 <= i < cells.len() && 0 <= j < cells.len() && i != j ==> #[trigger] cells[i].0
                != #[trigger] cells[j].0
        &&& forall|i: int|
            0 <= i < cells.len() ==> self@.contains_key(#[trigger] cells[i].0) && self@[cells[i].0]
                == cells[i].1
        &&& forall|c: HexCoord|
            #[trigger] self@.contains_key(c) ==> exists|i: int|
                0 <= i < cells.len() && #[trigger] cells[i].0 == c
        &&& self@.dom().finite()
        &&& self@.dom().len() == cells.len()
        &&& forall|c: HexCoord| #[trigger] self@.contains_key(c) ==> storable(c)
    }

    /// Whether some neighbour of `c` is occupied.
    pub open spec fn touches_bubble(&self, c: HexCoord) -> bool {
        exists|n: HexCoord| adjacent(c, n) && #[trigger] self@.contains_key(n)
    }

    pub open spec fn in_top_row(&self, c: HexCoord) -> bool {
        in_top_row(self@, c)
    }

    /// `c` is free and may take a landing bubble: inside the bounds or next to
    /// a bubble.
    pub open spec fn legal_landing(&self, c: HexCoord) -> bool {
        (self.bounds_spec().contains_spec(c) || self.touches_bubble(c)) && !self@.contains_key(c)
    }

    /// `found` is what the landing search from `target` may return: the first
    /// free legal cell by ring, found while at most `SEARCH_CAP` cells lie in
    /// the rings before it; or nothing, once a ball around `target` holds no
    /// legal cell and either exceeds `SEARCH_CAP` cells or stops growing.
    pub open spec fn landing_search(&self, target: HexCoord, found: Option<HexCoord>) -> bool {
        match found {
            Some(c) => {
                &&& self.legal_landing(c)
                &&& storable(c)
                &&& exists|k: int|
                    0 <= k && #[trigger] ball(target, k).contains(c) && ball(target, k - 1).finite()
                        && ball(target, k - 1).len() <= SEARCH_CAP && forall|d: HexCoord|
                        #[trigger] ball(target, k - 1).contains(d) ==> !self.legal_landing(d)
            },
            None => exists|k: int|
                0 <= k && (forall|d: HexCoord| #[trigger]
                    ball(target, k).contains(d) ==> !self.legal_landing(d)) && ball(target, k).finite()
                    && (ball(target, k).len() > SEARCH_CAP || ball(target, k + 1) == ball(target, k)),
        }
    }

    /// An empty grid with the default bounds.
    pub fn new() -> (g: HexGrid)
        ensures
            g.wf(),
            g@ == Map::<HexCoord, BubbleId>::empty(),
            g.bounds_spec() == default_bounds(),
    {
        HexGrid {
            cells: Vec::new(),
            occupancy: Ghost(Map::empty()),
            bounds: GridBounds::default(),
        }
    }

    /// The playable bounds.
    pub fn bounds(&self) -> (b: GridBounds)
        ensures
            b == self.bounds_spec(),
    {
        self.bounds
    }

    /// Number of stored cells.
    pub fn cell_count(&self) -> (n: usize)
        ensures
            n == self.cell_seq().len(),
    {
        self.cells.len()
    }

    /// The stored cell at position `i`.
    pub fn cell(&self, i: usize) -> (c: (HexCoord, BubbleId))
        requires
            i < self.cell_seq().len(),
        ensures
            c == self.cell_seq()[i as int],
    {
        self.cells[i]
    }

    /// Storage position of `coord`, if it is occupied.
    pub fn index_of(&self, coord: HexCoord) -> (r: Option<usize>)
        requires
            self.wf(),
        ensures
            match r {
                Some(i) => i < self.cell_seq().len() && self.cell_seq()[i as int].0 == coord,
                None => !self@.contains_key(coord),
            },
    {
        let mut i: usize = 0;
        while i < self.cells.len()
            invariant
                self.wf(),
                i <= self.cells@.len(),
                forall|j: int| 0 <= j < i ==> self.cells@[j].0 != coord,
            decreases self.cells@.len() - i,
        {
            if self.cells[i].0 == coord {
                return Some(i);
            }
            i += 1;
        }
        None
    }

    /// Whether a bubble occupies `coord`.
    pub fn is_occupied(&self, coord: HexCoord) -> (b: bool)
        requires
            self.wf(),
        ensures
            b == self@.contains_key(coord),
    {
        match self.index_of(coord) {
            Some(_) => true,
            None => false,
        }
    }

    /// Whether some neighbour of `coord` is occupied.
    pub fn is_adjacent_to_bubble(&self, coord: HexCoord) -> (b: bool)
        requires
            self.wf(),
            coord.interior(),
        ensures
            b == self.touches_bubble(coord),
    {
        let ns = coord.neighbors();
        let mut k: usize = 0;
        while k < 6
            invariant
                self.wf(),
                coord.interior(),
                k <= 6,
                ns@ == coord.neighbor_list(),
                forall|j: int| 0 <= j < k ==> !self@.contains_key(#[trigger] ns@[j]),
            decreases 6 - k,
        {
            if self.is_occupied(ns[k]) {
                proof {
                    lemma_neighbor_list_adjacent(coord, ns@[k as int]);
                }
                return true;
            }
            k += 1;
        }
        proof {
            assert forall|n: HexCoord| adjacent(coord, n) implies !#[trigger] self@.contains_key(n) by {
                lemma_neighbor_list_adjacent(coord, n);
                let j = choose|j: int| 0 <= j < 6 && ns@[j] == n;
            }
        }
        false
    }

    /// The bubble at `coord`, if any.
    pub fn get(&self, coord: HexCoord) -> (r: Option<BubbleId>)
        requires
            self.wf(),
        ensures
            r == (if self@.contains_key(coord) {
                Some(self@[coord])
            } else {
                None
            }),
    {
        match self.index_of(coord) {
            Some(i) => Some(self.cells[i].1),
            None => None,
        }
    }

    /// Places `entity` at `coord` and returns the bubble that was there before.
    pub fn insert(&mut self, coord: HexCoord, entity: BubbleId) -> (prev: Option<BubbleId>)
        requires
            old(self).wf(),
            storable(coord),
        ensures
            final(self).wf(),
            final(self)@ == old(self)@.insert(coord, entity),
            final(self).bounds_spec() == old(self).bounds_spec(),
            prev == (if old(self)@.contains_key(coord) {
                Some(old(self)@[coord])
            } else {
                None
            }),
    {
        match self.index_of(coord) {
            Some(i) => {
                let prev = self.cells[i].1;
                self.cells[i] = (coord, entity);
                self.occupancy = Ghost(self.occupancy@.insert(coord, entity));
                proof {
                    assert(self@.dom() =~= old(self)@.dom());
                    assert forall|c: HexCoord| #[trigger] self@.contains_key(c) implies exists|j: int|
                        0 <= j < self.cell_seq().len() && #[trigger] self.cell_seq()[j].0 == c by {
                        if c != coord {
                            let j = choose|j: int|
                                0 <= j < old(self).cell_seq().len() && old(self).cell_seq()[j].0 == c;
                            assert(self.cell_seq()[j].0 == c);
                        } else {
                            assert(self.cell_seq()[i as int].0 == c);
                        }
                    }
                }
                Some(prev)
            },
            None => {
                self.cells.push((coord, entity));
                self.occupancy = Ghost(self.occupancy@.insert(coord, entity));
                proof {
                    let n = old(self).cell_seq().len();
                    assert(self.cell_seq()[n as int].0 == coord);
                    assert forall|c: HexCoord| #[trigger] self@.contains_key(c) implies exists|j: int|
                        0 <= j < self.cell_seq().len() && #[trigger] self.cell_seq()[j].0 == c by {
                        if c != coord {
                            let j = choose|j: int|
                                0 <= j < old(self).cell_seq().len() && old(self).cell_seq()[j].0 == c;
                            assert(self.cell_seq()[j].0 == c);
                        }
                    }
                }
                None
            },
        }
    }

    /// Takes the bubble at `coord` off the grid and returns it.
    pub fn remove(&mut self, coord: HexCoord) -> (prev: Option<BubbleId>)
        requires
            old(self).wf(),
        ensures
            final(self).wf(),
            final(self)@ == old(self)@.remove(coord),
            final(self).bounds_spec() == old(self).bounds_spec(),
            prev == (if old(self)@.contains_key(coord) {
                Some(old(self)@[coord])
            } else {
                None
            }),
    {
        match self.index_of(coord) {
            Some(i) => {
                let prev = self.cells[i].1;
                let ghost before = self.cells@;
                self.cells.remove(i);
                self.occupancy = Ghost(self.occupancy@.remove(coord));
                proof {
                    assert(self.cell_seq() == before.remove(i as int));
                    assert forall|a: int, b: int|
                        0 <= a < self.cell_seq().len() && 0 <= b < self.cell_seq().len() && a
                            != b implies #[trigger] self.cell_seq()[a].0
                        != #[trigger] self.cell_seq()[b].0 by {
                        let a0 = if a < i { a } else { a + 1 };
                        let b0 = if b < i { b } else { b + 1 };
                        assert(self.cell_seq()[a] == before[a0]);
                        assert(self.cell_seq()[b] == before[b0]);
                    }
                    assert forall|a: int| 0 <= a < self.cell_seq().len() implies self@.contains_key(
                        #[trigger] self.cell_seq()[a].0) && self@[self.cell_seq()[a].0]
                        == self.cell_seq()[a].1 by {
                        let a0 = if a < i { a } else { a + 1 };
                        assert(self.cell_seq()[a] == before[a0]);
                    }
                    assert forall|c: HexCoord| #[trigger] self@.contains_key(c) implies exists|j: int|
                        0 <= j < self.cell_seq().len() && #[trigger] self.cell_seq()[j].0 == c by {
                        let j = choose|j: int| 0 <= j < before.len() && before[j].0 == c;
                        let j1 = if j < i { j } else { j - 1 };
                        assert(self.cell_seq()[j1] == before[j]);
                    }
                }
                Some(prev)
            },
            None => {
                proof {
                    assert(self@ =~= old(self)@.remove(coord));
                }
                None
            },
        }
    }

    /// Removes every bubble.
    pub fn clear(&mut self)
        requires
            old(self).wf(),
        ensures
            final(self).wf(),
            final(self)@ == Map::<HexCoord, BubbleId>::empty(),
            final(self).bounds_spec() == old(self).bounds_spec(),
    {
        self.cells.clear();
        self.occupancy = Ghost(Map::empty());
    }

    /// Number of bubbles on the grid.
    pub fn len(&self) -> (n: usize)
        requires
            self.wf(),
        ensures
            n == self@.len(),
    {
        self.cells.len()
    }

    /// Whether the grid holds no bubble.
    pub fn is_empty(&self) -> (b: bool)
        requires
            self.wf(),
        ensures
            b == (self@ == Map::<HexCoord, BubbleId>::empty()),
    {
        if self.cells.len() == 0 {
            assert(self@ =~= Map::<HexCoord, BubbleId>::empty());
            true
        } else {
            assert(self@.contains_key(self.cell_seq()[0].0));
            false
        }
    }

    /// Every occupied cell with its bubble, each once.
    pub fn iter(&self) -> (entries: Vec<(HexCoord, BubbleId)>)
        requires
            self.wf(),
        ensures
            entries@.len() == self@.len(),
            forall|i: int| 0 <= i < entries@.len() ==> self@.contains_key(#[trigger] entries@[i].0)
                && self@[entries@[i].0] == entries@[i].1,
            forall|c: HexCoord| #[trigger] self@.contains_key(c) ==> exists|i: int|
                0 <= i < entries@.len() && #[trigger] entries@[i].0 == c,
            forall|i: int, j: int|
                0 <= i < entries@.len() && 0 <= j < entries@.len() && i != j ==> #[trigger] entries@[i].0
                    != #[trigger] entries@[j].0,
    {
        let mut entries: Vec<(HexCoord, BubbleId)> = Vec::new();
        let mut i: usize = 0;
        while i < self.cells.len()
            invariant
                i <= self.cells@.len(),
                entries@ == self.cells@.take(i as int),
            decreases self.cells@.len() - i,
        {
            entries.push(self.cells[i]);
            i += 1;
            assert(entries@ =~= self.cells@.take(i as int));
        }
        assert(entries@ =~= self.cells@);
        entries
    }

    /// Every occupied cell, each once.
    pub fn coords(&self) -> (cs: Vec<HexCoord>)
        requires
            self.wf(),
        ensures
            cs@.no_duplicates(),
            cs@.len() == self@.len(),
            forall|c: HexCoord| cs@.contains(c) <==> self@.contains_key(c),
    {
        let mut cs: Vec<HexCoord> = Vec::new();
        let mut i: usize = 0;
        while i < self.cells.len()
            invariant
                self.wf(),
                i <= self.cells@.len(),
                cs@.len() == i,
                forall|j: int| 0 <= j < i ==> #[trigger] cs@[j] == self.cells@[j].0,
            decreases self.cells@.len() - i,
        {
            cs.push(self.cells[i].0);
            i += 1;
        }
        proof {
            assert forall|c: HexCoord| cs@.contains(c) <==> self@.contains_key(c) by {
                if self@.contains_key(c) {
                    let j = choose|j: int| 0 <= j < self.cell_seq().len() && self.cell_seq()[j].0 == c;
                    assert(cs@[j] == c);
                }
                if cs@.contains(c) {
                    let j = choose|j: int| 0 <= j < cs@.len() && cs@[j] == c;
                    assert(self.cell_seq()[j].0 == c);
                }
            }
            assert forall|a: int, b: int| 0 <= a < cs@.len() && 0 <= b < cs@.len() && a != b implies cs@[a] != cs@[b] by {
                assert(self.cell_seq()[a].0 == cs@[a]);
                assert(self.cell_seq()[b].0 == cs@[b]);
            }
        }
        cs
    }

    /// The neighbours of `coord` that lie inside the bounds and are empty.
    pub fn empty_neighbors(&self, coord: HexCoord) -> (r: Vec<HexCoord>)
        requires
            self.wf(),
            coord.interior(),
        ensures
            r@.no_duplicates(),
            forall|n: HexCoord|
                r@.contains(n) <==> (adjacent(coord, n) && self.bounds_spec().contains_spec(n)
                    && !self@.contains_key(n)),
    {
        let ns = coord.neighbors();
        proof {
            crate::hex::lemma_six_distinct_neighbors(coord);
        }
        let mut r: Vec<HexCoord> = Vec::new();
        let mut k: usize = 0;
        while k < 6
            invariant
                self.wf(),
                coord.interior(),
                k <= 6,
                ns@ == coord.neighbor_list(),
                ns@.no_duplicates(),
                r@.no_duplicates(),
                forall|n: HexCoord| #[trigger]
                    r@.contains(n) <==> (exists|j: int| 0 <= j < k && ns@[j] == n)
                        && self.bounds.contains_spec(n) && !self@.contains_key(n),
            decreases 6 - k,
        {
            let n = ns[k];
            if self.bounds.contains(n) && !self.is_occupied(n) {
                proof {
                    assert(!r@.contains(n));
                    lemma_push_no_duplicates(r@, n);
                    assert forall|m: HexCoord| #[trigger] r@.push(n).contains(m) <==> (exists|j: int|
                        0 <= j < k + 1 && ns@[j] == m) && self.bounds.contains_spec(m)
                        && !self@.contains_key(m) by {
                        lemma_push_contains(r@, n, m);
                        if m == n {
                            assert(ns@[k as int] == m);
                        }
                    }
                }
                r.push(n);
            } else {
                proof {
                    assert forall|m: HexCoord| #[trigger] r@.contains(m) <==> (exists|j: int|
                        0 <= j < k + 1 && ns@[j] == m) && self.bounds.contains_spec(m)
                        && !self@.contains_key(m) by {
                        if exists|j: int| 0 <= j < k + 1 && ns@[j] == m {
                            let j = choose|j: int| 0 <= j < k + 1 && ns@[j] == m;
                            if j == k && self.bounds.contains_spec(m) {
                                assert(self@.contains_key(m));
                            }
                        }
                    }
                }
            }
            k += 1;
        }
        proof {
            assert forall|n: HexCoord|
                r@.contains(n) <==> (adjacent(coord, n) && self.bounds_spec().contains_spec(n)
                    && !self@.contains_key(n)) by {
                lemma_neighbor_list_adjacent(coord, n);
            }
        }
        r
    }

    /// The largest row that holds a bubble, if any.
    pub fn lowest_row(&self) -> (m: Option<i32>)
        requires
            self.wf(),
        ensures
            match m {
                None => self@ == Map::<HexCoord, BubbleId>::empty(),
                Some(r) => (exists|c: HexCoord| #[trigger] self@.contains_key(c) && c.r == r)
                    && forall|c: HexCoord| #[trigger] self@.contains_key(c) ==> c.r <= r,
            },
    {
        if self.cells.len() == 0 {
            assert(self@ =~= Map::<HexCoord, BubbleId>::empty());
            return None;
        }
        let mut best: i32 = self.cells[0].0.r;
        let mut i: usize = 1;
        while i < self.cells.len()
            invariant
                self.wf(),
                1 <= i <= self.cells@.len(),
                exists|j: int| 0 <= j < i && self.cells@[j].0.r == best,
                forall|j: int| 0 <= j < i ==> #[trigger] self.cells@[j].0.r <= best,
            decreases self.cells@.len() - i,
        {
            if self.cells[i].0.r > best {
                best = self.cells[i].0.r;
            }
            i += 1;
        }
        proof {
            let j = choose|j: int| 0 <= j < i && self.cells@[j].0.r == best;
            assert(self@.contains_key(self.cell_seq()[j].0));
            assert forall|c: HexCoord| #[trigger] self@.contains_key(c) implies c.r <= best by {
                let k = choose|k: int| 0 <= k < self.cell_seq().len() && self.cell_seq()[k].0 == c;
                assert(self.cells@[k].0.r <= best);
            }
        }
        Some(best)
    }

    /// The occupied cells of the smallest occupied row (empty for an empty grid).
    pub fn top_row_coords(&self) -> (top: Vec<HexCoord>)
        requires
            self.wf(),
        ensures
            top@.no_duplicates(),
            forall|c: HexCoord| top@.contains(c) <==> self.in_top_row(c),
    {
        let mut top: Vec<HexCoord> = Vec::new();
        if self.cells.len() == 0 {
            return top;
        }
        let mut least: i32 = self.cells[0].0.r;
        let mut i: usize = 1;
        while i < self.cells.len()
            invariant
                self.wf(),
                1 <= i <= self.cells@.len(),
                exists|j: int| 0 <= j < i && self.cells@[j].0.r == least,
                forall|j: int| 0 <= j < i ==> #[trigger] self.cells@[j].0.r >= least,
            decreases self.cells@.len() - i,
        {
            if self.cells[i].0.r < least {
                least = self.cells[i].0.r;
            }
            i += 1;
        }
        proof {
            assert forall|c: HexCoord| #[trigger] self@.contains_key(c) implies c.r >= least by {
                let k = choose|k: int| 0 <= k < self.cell_seq().len() && self.cell_seq()[k].0 == c;
                assert(self.cells@[k].0.r >= least);
            }
            let j = choose|j: int| 0 <= j < self.cells@.len() && self.cells@[j].0.r == least;
            assert(self@.contains_key(self.cell_seq()[j].0));
        }
        let mut i: usize = 0;
        while i < self.cells.len()
            invariant
                self.wf(),
                i <= self.cells@.len(),
                forall|c: HexCoord| #[trigger] self@.contains_key(c) ==> c.r >= least,
                exists|c: HexCoord| #[trigger] self@.contains_key(c) && c.r == least,
                top@.no_duplicates(),
                forall|c: HexCoord| #[trigger]
                    top@.contains(c) <==> (c.r == least && exists|j: int|
                        0 <= j < i && self.cells@[j].0 == c),
            decreases self.cells@.len() - i,
        {
            let c = self.cells[i].0;
            if c.r == least {
                proof {
                    if top@.contains(c) {
                        let j = choose|j: int| 0 <= j < i && self.cells@[j].0 == c;
                        assert(self.cell_seq()[j].0 == self.cell_seq()[i as int].0);
                    }
                    lemma_push_no_duplicates(top@, c);
                    assert forall|d: HexCoord| #[trigger] top@.push(c).contains(d) <==> (d.r == least
                        && exists|j: int| 0 <= j < i + 1 && self.cells@[j].0 == d) by {
                        lemma_push_contains(top@, c, d);
                        if d == c {
                            assert(self.cells@[i as int].0 == d);
                        }
                    }
                }
                top.push(c);
            } else {
                proof {
                    assert forall|d: HexCoord| #[trigger] top@.contains(d) <==> (d.r == least
                        && exists|j: int| 0 <= j < i + 1 && self.cells@[j].0 == d) by {
                        if d.r == least && exists|j: int| 0 <= j < i + 1 && self.cells@[j].0 == d {
                            let j = choose|j: int| 0 <= j < i + 1 && self.cells@[j].0 == d;
                            assert(j != i);
                        }
                    }
                }
            }
            i += 1;
        }
        proof {
            assert forall|c: HexCoord| top@.contains(c) <==> self.in_top_row(c) by {
                if self.in_top_row(c) {
                    let k = choose|k: int| 0 <= k < self.cell_seq().len() && self.cell_seq()[k].0 == c;
                    let w = choose|w: HexCoord| #[trigger] self@.contains_key(w) && w.r == least;
                    assert(c.r <= w.r);
                    assert(self.cells@[k].0 == c);
                }
                if top@.contains(c) {
                    let j = choose|j: int| 0 <= j < i && self.cells@[j].0 == c;
                    assert(self@.contains_key(self.cell_seq()[j].0));
                }
            }
        }
        top
    }

    /// The nearest free cell where a bubble aimed at `target` may land,
    /// searched ring by ring outward from `target` through neighbours; `None`
    /// once more than `SEARCH_CAP` cells have been examined without success.
    pub fn closest_empty_cell(&self, target: HexCoord) -> (found: Option<HexCoord>)
        requires
            self.wf(),
            -SEARCH_COORD_LIMIT <= target.q <= SEARCH_COORD_LIMIT,
            -SEARCH_COORD_LIMIT <= target.r <= SEARCH_COORD_LIMIT,
        ensures
            self.landing_search(target, found),
    {
        let mut checked: Vec<HexCoord> = Vec::new();
        let mut to_check: Vec<HexCoord> = Vec::new();
        to_check.push(target);
        let ghost mut k: int = 0;
        proof {
            assert forall|c: HexCoord| ball(target, 0).contains(c) <==> c == target by {}
            assert(to_check@[0] == target);
        }
        loop
            invariant
                self.wf(),
                -SEARCH_COORD_LIMIT <= target.q <= SEARCH_COORD_LIMIT,
                -SEARCH_COORD_LIMIT <= target.r <= SEARCH_COORD_LIMIT,
                k >= 0,
                checked@.no_duplicates(),
                checked@.len() <= SEARCH_CAP,
                forall|c: HexCoord| #[trigger] checked@.contains(c) <==> ball(target, k - 1).contains(c),
                forall|c: HexCoord| #[trigger] checked@.contains(c) ==> !self.legal_landing(c),
                forall|c: HexCoord| #[trigger] to_check@.contains(c) ==> ball(target, k).contains(c),
                forall|c: HexCoord|
                    #[trigger] ball(target, k).contains(c) && !ball(target, k - 1).contains(c)
                        ==> to_check@.contains(c),
                to_check@.len() > 0 ==> checked@.len() >= k,
            decreases 2 * (SEARCH_CAP + 1 - checked@.len()) + (if to_check@.len() > 0 {
                1int
            } else {
                0int
            }),
        {
            if to_check.len() == 0 {
                proof {
                    assert(k >= 1) by {
                        if k == 0 {
                            assert(ball(target, 0).contains(target));
                        }
                    }
                    assert forall|d: HexCoord| ball(target, k).contains(d) implies ball(target, k - 1).contains(d) by {}
                    assert forall|d: HexCoord| ball(target, k - 1).contains(d) implies ball(target, k).contains(d) by {
                        lemma_ball_nested(target, k, d);
                    }
                    assert(ball(target, k) =~= ball(target, k - 1));
                    assert(checked@.to_set() =~= ball(target, k - 1));
                    checked@.unique_seq_to_set();
                    let kk = k - 1;
                    assert(0 <= kk && (forall|d: HexCoord| #[trigger]
                        ball(target, kk).contains(d) ==> !self.legal_landing(d)) && ball(target, kk).finite()
                        && (ball(target, kk).len() > SEARCH_CAP || ball(target, kk + 1) == ball(target, kk)));
                }
                return None;
            }
            let ghost start_len = checked@.len();
            proof {
                assert(checked@.to_set() =~= ball(target, k - 1));
                checked@.unique_seq_to_set();
            }
            let mut next_ring: Vec<HexCoord> = Vec::new();
            let mut i: usize = 0;
            while i < to_check.len()
                invariant
                    self.wf(),
                    -SEARCH_COORD_LIMIT <= target.q <= SEARCH_COORD_LIMIT,
                    -SEARCH_COORD_LIMIT <= target.r <= SEARCH_COORD_LIMIT,
                    0 <= k <= SEARCH_CAP,
                    ball(target, k - 1).finite(),
                    ball(target, k - 1).len() <= SEARCH_CAP,
                    i <= to_check@.len(),
                    checked@.no_duplicates(),
                    checked@.len() >= start_len,
                    start_len >= k,
                    next_ring@.len() > 0 ==> checked@.len() > start_len,
                    forall|c: HexCoord| #[trigger]
                        checked@.contains(c) <==> (ball(target, k - 1).contains(c) || exists|j: int|
                            0 <= j < i && to_check@[j] == c),
                    forall|c: HexCoord| #[trigger] checked@.contains(c) ==> !self.legal_landing(c),
                    forall|c: HexCoord| #[trigger] to_check@.contains(c) ==> ball(target, k).contains(c),
                    forall|c: HexCoord|
                        #[trigger] ball(target, k).contains(c) && !ball(target, k - 1).contains(c)
                            ==> to_check@.contains(c),
                    forall|c: HexCoord| #[trigger] next_ring@.contains(c) ==> ball(target, k + 1).contains(c),
                    forall|c: HexCoord, m: HexCoord|
                        checked@.contains(c) && !ball(target, k - 1).contains(c) && #[trigger] crate::hex::adjacent(c, m)
                            ==> checked@.contains(m) || next_ring@.contains(m),
                decreases to_check@.len() - i,
            {
                let coord = to_check[i];
                proof {
                    assert(to_check@.contains(coord));
                    lemma_ball_bounds(target, k, coord);
                }
                if crate::cluster::contains_coord(&checked, coord) {
                    proof {
                        assert forall|c: HexCoord| #[trigger]
                            checked@.contains(c) <==> (ball(target, k - 1).contains(c) || exists|j: int|
                                0 <= j < i + 1 && to_check@[j] == c) by {
                            if exists|j: int| 0 <= j < i + 1 && to_check@[j] == c {
                                let j = choose|j: int| 0 <= j < i + 1 && to_check@[j] == c;
                                if j < i {
                                    assert(exists|j: int| 0 <= j < i && to_check@[j] == c);
                                }
                            }
                        }
                    }
                    i += 1;
                    continue;
                }
                let ghost before = checked@;
                proof {
                    lemma_push_no_duplicates(before, coord);
                }
                checked.push(coord);
                if (self.bounds.contains(coord) || self.is_adjacent_to_bubble(coord))
                    && !self.is_occupied(coord) {
                    proof {
                        assert forall|d: HexCoord| #[trigger]
                            ball(target, k - 1).contains(d) implies !self.legal_landing(d) by {
                            assert(before.contains(d));
                        }
                        assert(ball(target, k).contains(coord));
                        assert(storable(coord));
                        assert(self.legal_landing(coord));
                        assert(0 <= k && ball(target, k).contains(coord) && ball(target, k - 1).finite()
                            && ball(target, k - 1).len() <= SEARCH_CAP && forall|d: HexCoord|
                            #[trigger] ball(target, k - 1).contains(d) ==> !self.legal_landing(d));
                    }
                    return Some(coord);
                }
                proof {
                    lemma_push_contains(before, coord, coord);
                }
                let ns = coord.neighbors();
                let mut j: usize = 0;
                while j < 6
                    invariant
                        self.wf(),
                        0 <= k,
                        j <= 6,
                        coord.interior(),
                        ns@ == coord.neighbor_list(),
                        ball(target, k).contains(coord),
                        checked@.contains(coord),
                        checked@.len() > start_len,
                        forall|c: HexCoord| #[trigger] next_ring@.contains(c) ==> ball(target, k + 1).contains(c),
                        forall|c: HexCoord, m: HexCoord|
                            before.contains(c) && !ball(target, k - 1).contains(c) && #[trigger] crate::hex::adjacent(c, m)
                                ==> before.contains(m) || next_ring@.contains(m),
                        forall|jj: int| 0 <= jj < j ==> checked@.contains(#[trigger] ns@[jj]) || next_ring@.contains(ns@[jj]),
                        checked@ == before.push(coord),
                    decreases 6 - j,
                {
                    let m = ns[j];
                    if !crate::cluster::contains_coord(&checked, m) {
                        let ghost nr = next_ring@;
                        next_ring.push(m);
                        proof {
                            crate::hex::lemma_neighbor_list_adjacent(coord, m);
                            lemma_ball_grows(target, k, coord, m);
                            assert forall|c: HexCoord| #[trigger] next_ring@.contains(c) implies ball(target, k + 1).contains(c) by {
                                lemma_push_contains(nr, m, c);
                            }
                            assert forall|c: HexCoord, mm: HexCoord|
                                before.contains(c) && !ball(target, k - 1).contains(c) && #[trigger] crate::hex::adjacent(c, mm)
                                    implies before.contains(mm) || next_ring@.contains(mm) by {
                                lemma_push_contains(nr, m, mm);
                            }
                            assert forall|jj: int| 0 <= jj < j + 1 implies checked@.contains(#[trigger] ns@[jj]) || next_ring@.contains(ns@[jj]) by {
                                lemma_push_contains(nr, m, ns@[jj]);
                            }
                        }
                    }
                    j += 1;
                }
                proof {
                    assert forall|c: HexCoord| #[trigger]
                        checked@.contains(c) <==> (ball(target, k - 1).contains(c) || exists|jj: int|
                            0 <= jj < i + 1 && to_check@[jj] == c) by {
                        lemma_push_contains(before, coord, c);
                        if exists|jj: int| 0 <= jj < i + 1 && to_check@[jj] == c {
                            let jj = choose|jj: int| 0 <= jj < i + 1 && to_check@[jj] == c;
                            if jj < i {
                                assert(exists|jj: int| 0 <= jj < i && to_check@[jj] == c);
                            }
                        }
                        if c == coord {
                            assert(to_check@[i as int] == c);
                        }
                    }
                    assert forall|c: HexCoord| #[trigger] checked@.contains(c) implies !self.legal_landing(c) by {
                        lemma_push_contains(before, coord, c);
                    }
                    assert forall|c: HexCoord, m: HexCoord|
                        checked@.contains(c) && !ball(target, k - 1).contains(c) && #[trigger] crate::hex::adjacent(c, m)
                            implies checked@.contains(m) || next_ring@.contains(m) by {
                        lemma_push_contains(before, coord, c);
                        lemma_push_contains(before, coord, m);
                        if c == coord {
                            crate::hex::lemma_neighbor_list_adjacent(coord, m);
                            let jj = choose|jj: int| 0 <= jj < 6 && ns@[jj] == m;
                        }
                    }
                }
                i += 1;
            }
            proof {
                assert forall|c: HexCoord| #[trigger] checked@.contains(c) <==> ball(target, k).contains(c) by {
                    if ball(target, k).contains(c) && !ball(target, k - 1).contains(c) {
                        assert(to_check@.contains(c));
                        let jj = choose|jj: int| 0 <= jj < to_check@.len() && to_check@[jj] == c;
                    }
                    if ball(target, k - 1).contains(c) {
                        lemma_ball_nested(target, k, c);
                    }
                    if checked@.contains(c) && !ball(target, k - 1).contains(c) {
                        let jj = choose|jj: int| 0 <= jj < to_check@.len() && to_check@[jj] == c;
                        assert(to_check@.contains(c));
                    }
                }
                assert forall|m: HexCoord|
                    #[trigger] ball(target, k + 1).contains(m) && !ball(target, k).contains(m)
                        implies next_ring@.contains(m) by {
                    let c = lemma_ball_frontier(target, k, m);
                    assert(checked@.contains(c));
                }
            }
            to_check = next_ring;
            proof {
                k = k + 1;
            }
            if checked.len() > SEARCH_CAP {
                proof {
                    assert(checked@.to_set() =~= ball(target, k - 1));
                    checked@.unique_seq_to_set();
                    assert forall|d: HexCoord| #[trigger] ball(target, k - 1).contains(d) implies !self.legal_landing(d) by {
                        assert(checked@.contains(d));
                    }
                    let kk = k - 1;
                    assert(0 <= kk && (forall|d: HexCoord| #[trigger]
                        ball(target, kk).contains(d) ==> !self.legal_landing(d)) && ball(target, kk).finite()
                        && (ball(target, kk).len() > SEARCH_CAP || ball(target, kk + 1) == ball(target, kk)));
                }
                return None;
            }
        }
    }
}

/// A landing search never settles on an occupied cell.
pub proof fn lemma_landing_never_occupied(g: &HexGrid, target: HexCoord, found: Option<HexCoord>)
    requires
        g.landing_search(target, found),
    ensures
        found matches Some(c) ==> !g@.contains_key(c),
{
}

/// When every cell of a ball around `target` holding more than `SEARCH_CAP`
/// cells is occupied, the landing search finds nothing.
pub proof fn lemma_saturated_gives_none(
    g: &HexGrid,
    target: HexCoord,
    found: Option<HexCoord>,
    k: int,
)
    requires
        g.landing_search(target, found),
        0 <= k,
        ball(target, k).finite(),
        ball(target, k).len() > SEARCH_CAP,
        forall|d: HexCoord| #[trigger] ball(target, k).contains(d) ==> g@.contains_key(d),
    ensures
        found is None,
{
    if let Some(c) = found {
        let k2 = choose|k2: int|
            0 <= k2 && #[trigger] ball(target, k2).contains(c) && ball(target, k2 - 1).finite()
                && ball(target, k2 - 1).len() <= SEARCH_CAP && forall|d: HexCoord|
                #[trigger] ball(target, k2 - 1).contains(d) ==> !g.legal_landing(d);
        if k2 <= k {
            lemma_ball_monotone(target, k2, k, c);
            assert(g@.contains_key(c));
        } else {
            assert forall|d: HexCoord| ball(target, k).contains(d) implies ball(target, k2 - 1).contains(
                d,
            ) by {
                lemma_ball_monotone(target, k, k2 - 1, d);
            }
            vstd::set_lib::lemma_len_subset(ball(target, k), ball(target, k2 - 1));
        }
    }
}

/// A legal landing cell inside a ball around `target` of at most
/// `SEARCH_CAP` cells is never missed: the search then finds a cell.
pub proof fn lemma_capped_legal_cell_is_found(
    g: &HexGrid,
    target: HexCoord,
    found: Option<HexCoord>,
    k: int,
    c: HexCoord,
)
    requires
        g.landing_search(target, found),
        0 <= k,
        ball(target, k).finite(),
        ball(target, k).len() <= SEARCH_CAP,
        ball(target, k).contains(c),
        g.legal_landing(c),
    ensures
        found is Some,
{
    if found is None {
        let k2 = choose|k2: int|
            0 <= k2 && (forall|d: HexCoord| #[trigger]
                ball(target, k2).contains(d) ==> !g.legal_landing(d)) && ball(target, k2).finite()
                && (ball(target, k2).len() > SEARCH_CAP || ball(target, k2 + 1) == ball(target, k2));
        if k <= k2 {
            lemma_ball_monotone(target, k, k2, c);
        } else if ball(target, k2 + 1) == ball(target, k2) {
            lemma_ball_stays_closed(target, k2, k);
        } else {
            assert forall|d: HexCoord| ball(target, k2).contains(d) implies ball(target, k).contains(d) by {
                lemma_ball_monotone(target, k2, k, d);
            }
            vstd::set_lib::lemma_len_subset(ball(target, k2), ball(target, k));
        }
    }
}

} // verus!
