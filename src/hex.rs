//! Offset ("odd-r") hexagonal coordinates: odd rows sit half a cell to the right.

use vstd::prelude::*;

verus! {

/// Pixel height of one row: 1.5 times the hexagon size of 20 pixels.
pub const ROW_HEIGHT: i32 = 30;

/// Pixel y of row 0 when a game starts.
pub const GRID_ORIGIN_Y: i32 = 250;

/// Whether row `r` is shifted right by half a cell.
pub open spec fn is_odd_row(r: int) -> bool {
    r % 2 != 0
}

pub open spec fn abs(x: int) -> int {
    if x < 0 {
        -x
    } else {
        x
    }
}

/// A cell of the grid: column `q`, row `r` (rows grow downward).
#[derive(Debug, Clone, Copy, PartialEq, Eq, Hash, Structural)]
pub struct HexCoord {
    pub q: i32,
    pub r: i32,
}

/// The coordinate `(q, r)` as a value (for use in specifications).
pub open spec fn coord(q: int, r: int) -> HexCoord {
    HexCoord { q: q as i32, r: r as i32 }
}

/// `b` touches `a`: same row and one column apart, or one row apart with the
/// column shift that the parity of `a`'s row dictates.
pub open spec fn adjacent(a: HexCoord, b: HexCoord) -> bool {
    let dq = b.q - a.q;
    let dr = b.r - a.r;
    (dr == 0 && (dq == 1 || dq == -1)) || ((dr == 1 || dr == -1) && if is_odd_row(a.r as int) {
        dq == 0 || dq == 1
    } else {
        dq == -1 || dq == 0
    })
}

impl HexCoord {
    /// All six neighbours are representable.
    pub open spec fn interior(self) -> bool {
        i32::MIN < self.q < i32::MAX && i32::MIN < self.r < i32::MAX
    }

    /// The six neighbours in order: east, the two upper diagonals, west, the
    /// two lower diagonals.
    pub open spec fn neighbor_list(self) -> Seq<HexCoord> {
        let q = self.q as int;
        let r = self.r as int;
        if is_odd_row(r) {
            seq![
                coord(q + 1, r),
                coord(q + 1, r - 1),
                coord(q, r - 1),
                coord(q - 1, r),
                coord(q, r + 1),
                coord(q + 1, r + 1),
            ]
        } else {
            seq![
                coord(q + 1, r),
                coord(q, r - 1),
                coord(q - 1, r - 1),
                coord(q - 1, r),
                coord(q - 1, r + 1),
                coord(q, r + 1),
            ]
        }
    }

    /// Cube-coordinate hex distance: `(|dq| + |dr| + |ds|) / 2` with `s = -q - r`.
    pub open spec fn distance_spec(self, other: HexCoord) -> int {
        let dq = self.q - other.q;
        let dr = self.r - other.r;
        let ds = (-self.q - self.r) - (-other.q - other.r);
        (abs(dq) + abs(dr) + abs(ds)) / 2
    }

    /// Pixel y of the cell's centre when row 0 is drawn at `origin_y`.
    pub open spec fn pixel_y_spec(self, origin_y: int) -> int {
        origin_y - ROW_HEIGHT * self.r
    }

    pub fn new(q: i32, r: i32) -> (c: HexCoord)
        ensures
            c.q == q,
            c.r == r,
    {
        HexCoord { q, r }
    }

    /// The derived cube coordinate `s = -q - r`.
    pub fn s(&self) -> (s: i32)
        requires
            i32::MIN <= -self.q - self.r <= i32::MAX,
        ensures
            s == -self.q - self.r,
    {
        (-(self.q as i64) - self.r as i64) as i32
    }

    /// The six adjacent cells, in the order of `neighbor_list`.
    pub fn neighbors(&self) -> (n: [HexCoord; 6])
        requires
            self.interior(),
        ensures
            n@ == self.neighbor_list(),
    {
        let q = self.q;
        let r = self.r;
        let n = if r % 2 != 0 {
            [
                HexCoord::new(q + 1, r),
                HexCoord::new(q + 1, r - 1),
                HexCoord::new(q, r - 1),
                HexCoord::new(q - 1, r),
                HexCoord::new(q, r + 1),
                HexCoord::new(q + 1, r + 1),
            ]
        } else {
            [
                HexCoord::new(q + 1, r),
                HexCoord::new(q, r - 1),
                HexCoord::new(q - 1, r - 1),
                HexCoord::new(q - 1, r),
                HexCoord::new(q - 1, r + 1),
                HexCoord::new(q, r + 1),
            ]
        };
        assert(n@ =~= self.neighbor_list());
        n
    }

    /// Hex distance to `other`.
    pub fn distance(&self, other: HexCoord) -> (d: i32)
        requires
            self.distance_spec(other) <= i32::MAX,
        ensures
            d == self.distance_spec(other),
    {
        let dq = (self.q as i64 - other.q as i64);
        let dr = (self.r as i64 - other.r as i64);
        let ds = (-(self.q as i64) - self.r as i64) - (-(other.q as i64) - other.r as i64);
        let adq = if dq < 0 { -dq } else { dq };
        let adr = if dr < 0 { -dr } else { dr };
        let ads = if ds < 0 { -ds } else { ds };
        ((adq + adr + ads) / 2) as i32
    }

    /// Pixel y of the cell's centre when row 0 is drawn at `origin_y`.
    pub fn pixel_y(&self, origin_y: i32) -> (y: i64)
        ensures
            y == self.pixel_y_spec(origin_y as int),
    {
        let r = self.r as i64;
        assert(-0x1_0000_0000_0000 <= 30 * r <= 0x1_0000_0000_0000) by (nonlinear_arith)
            requires
                i32::MIN <= r <= i32::MAX,
        ;
        origin_y as i64 - 30 * r
    }
}

/// Membership in the neighbour list is adjacency.
pub proof fn lemma_neighbor_list_adjacent(a: HexCoord, b: HexCoord)
    requires
        a.interior(),
    ensures
        a.neighbor_list().contains(b) <==> adjacent(a, b),
{
    let n = a.neighbor_list();
    if adjacent(a, b) {
        let dq = b.q - a.q;
        let dr = b.r - a.r;
        let i: int = if is_odd_row(a.r as int) {
            if dr == 0 && dq == 1 { 0 } else if dr == -1 && dq == 1 { 1 } else if dr == -1 { 2 }
            else if dr == 0 { 3 } else if dq == 0 { 4 } else { 5 }
        } else {
            if dr == 0 && dq == 1 { 0 } else if dr == -1 && dq == 0 { 1 } else if dr == -1 { 2 }
            else if dr == 0 { 3 } else if dq == -1 { 4 } else { 5 }
        };
        assert(n[i] == b);
    }
}

/// Every cell has exactly six neighbours, all different.
pub proof fn lemma_six_distinct_neighbors(a: HexCoord)
    requires
        a.interior(),
    ensures
        a.neighbor_list().len() == 6,
        a.neighbor_list().no_duplicates(),
{
}

/// Adjacency is symmetric: `b` is a neighbour of `a` exactly when `a` is a
/// neighbour of `b`.
pub proof fn lemma_neighbors_symmetric(a: HexCoord, b: HexCoord)
    requires
        a.interior(),
        b.interior(),
    ensures
        a.neighbor_list().contains(b) <==> b.neighbor_list().contains(a),
{
    lemma_neighbor_list_adjacent(a, b);
    lemma_neighbor_list_adjacent(b, a);
}

} // verus!
