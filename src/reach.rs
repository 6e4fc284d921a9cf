//! Reachability over the hexagonal adjacency relation.

use vstd::prelude::*;

use crate::hex::{adjacent, HexCoord};

verus! {

/// Cells reachable from `seeds` in at most `k` steps, where each step moves to
/// an adjacent cell that satisfies `pass` (the seeds themselves need not).
pub open spec fn reach(seeds: Set<HexCoord>, pass: spec_fn(HexCoord) -> bool, k: nat) -> Set<
    HexCoord,
>
    decreases k,
{
    if k == 0 {
        seeds
    } else {
        let prev = reach(seeds, pass, (k - 1) as nat);
        prev.union(
            Set::new(|m: HexCoord| pass(m) && exists|c: HexCoord| prev.contains(c) && adjacent(c, m)),
        )
    }
}

/// `c` is reachable from `seeds` in some number of steps.
pub open spec fn connected(seeds: Set<HexCoord>, pass: spec_fn(HexCoord) -> bool, c: HexCoord) -> bool {
    exists|k: nat| #[trigger] reach(seeds, pass, k).contains(c)
}

/// One more step from a reachable cell.
pub proof fn lemma_reach_step(
    seeds: Set<HexCoord>,
    pass: spec_fn(HexCoord) -> bool,
    c: HexCoord,
    m: HexCoord,
)
    requires
        connected(seeds, pass, c),
        pass(m),
        adjacent(c, m),
    ensures
        connected(seeds, pass, m),
{
    let k = choose|k: nat| #[trigger] reach(seeds, pass, k).contains(c);
    assert(reach(seeds, pass, k + 1).contains(m));
}

/// A set that holds the seeds and is closed under steps holds every
/// reachable cell.
pub proof fn lemma_closed_holds_reach(
    seeds: Set<HexCoord>,
    pass: spec_fn(HexCoord) -> bool,
    s: Set<HexCoord>,
    k: nat,
)
    requires
        seeds.subset_of(s),
        forall|c: HexCoord, m: HexCoord|
            s.contains(c) && pass(m) && #[trigger] adjacent(c, m) ==> s.contains(m),
    ensures
        reach(seeds, pass, k).subset_of(s),
    decreases k,
{
    if k > 0 {
        lemma_closed_holds_reach(seeds, pass, s, (k - 1) as nat);
        let prev = reach(seeds, pass, (k - 1) as nat);
        assert forall|m: HexCoord| reach(seeds, pass, k).contains(m) implies s.contains(m) by {
            if !prev.contains(m) {
                let c = choose|c: HexCoord| prev.contains(c) && adjacent(c, m);
                assert(s.contains(c));
            }
        }
    }
}

/// A reachable cell is a seed or satisfies `pass`.
pub proof fn lemma_reach_passes(
    seeds: Set<HexCoord>,
    pass: spec_fn(HexCoord) -> bool,
    c: HexCoord,
    k: nat,
)
    requires
        reach(seeds, pass, k).contains(c),
    ensures
        seeds.contains(c) || pass(c),
    decreases k,
{
    if k > 0 && reach(seeds, pass, (k - 1) as nat).contains(c) {
        lemma_reach_passes(seeds, pass, c, (k - 1) as nat);
    }
}

/// Every cell passes.
pub open spec fn any_cell() -> spec_fn(HexCoord) -> bool {
    |c: HexCoord| true
}

/// Cells within `k` neighbour steps of `t` (empty for negative `k`).
pub open spec fn ball(t: HexCoord, k: int) -> Set<HexCoord> {
    if k < 0 {
        Set::empty()
    } else {
        reach(set![t], any_cell(), k as nat)
    }
}

/// A cell within `k` steps of `t` is at most `k` columns and `k` rows away.
pub proof fn lemma_ball_bounds(t: HexCoord, k: int, c: HexCoord)
    requires
        ball(t, k).contains(c),
    ensures
        t.q - k <= c.q <= t.q + k,
        t.r - k <= c.r <= t.r + k,
    decreases k,
{
    if k > 0 && !ball(t, k - 1).contains(c) {
        let prev = reach(set![t], any_cell(), (k - 1) as nat);
        assert(prev == ball(t, k - 1));
        let d = choose|d: HexCoord| prev.contains(d) && adjacent(d, c);
        lemma_ball_bounds(t, k - 1, d);
    } else if k > 0 {
        lemma_ball_bounds(t, k - 1, c);
    }
}

/// Steps from `ball(t, k)` land in `ball(t, k + 1)`, which contains `ball(t, k)`.
pub proof fn lemma_ball_grows(t: HexCoord, k: int, c: HexCoord, m: HexCoord)
    requires
        k >= 0,
        ball(t, k).contains(c),
    ensures
        ball(t, k + 1).contains(c),
        adjacent(c, m) ==> ball(t, k + 1).contains(m),
{
    let prev = reach(set![t], any_cell(), k as nat);
    assert(reach(set![t], any_cell(), (k + 1) as nat) == prev.union(
        Set::new(|m: HexCoord| any_cell()(m) && exists|c: HexCoord| prev.contains(c) && adjacent(c, m)),
    ));
}

/// A cell that first appears in `ball(t, k + 1)` is next to one that first
/// appears in `ball(t, k)`.
pub proof fn lemma_ball_frontier(t: HexCoord, k: int, m: HexCoord) -> (c: HexCoord)
    requires
        k >= 0,
        ball(t, k + 1).contains(m),
        !ball(t, k).contains(m),
    ensures
        ball(t, k).contains(c),
        !ball(t, k - 1).contains(c),
        adjacent(c, m),
{
    let prev = reach(set![t], any_cell(), k as nat);
    assert(prev == ball(t, k));
    let c = choose|c: HexCoord| prev.contains(c) && adjacent(c, m);
    if ball(t, k - 1).contains(c) {
        lemma_ball_grows(t, k - 1, c, m);
    }
    c
}

/// `ball(t, k - 1)` is part of `ball(t, k)`.
pub proof fn lemma_ball_nested(t: HexCoord, k: int, c: HexCoord)
    requires
        ball(t, k - 1).contains(c),
    ensures
        ball(t, k).contains(c),
{
    lemma_ball_grows(t, k - 1, c, c);
}

/// Balls grow with their radius.
pub proof fn lemma_ball_monotone(t: HexCoord, a: int, b: int, c: HexCoord)
    requires
        a <= b,
        ball(t, a).contains(c),
    ensures
        ball(t, b).contains(c),
    decreases b - a,
{
    if a < b {
        lemma_ball_nested(t, a + 1, c);
        lemma_ball_monotone(t, a + 1, b, c);
    }
}

/// A ball that stops growing for one step never grows again.
pub proof fn lemma_ball_stays_closed(t: HexCoord, k: int, j: int)
    requires
        0 <= k <= j,
        ball(t, k + 1) == ball(t, k),
    ensures
        ball(t, j) == ball(t, k),
    decreases j - k,
{
    if j > k {
        lemma_ball_stays_closed(t, k, j - 1);
        assert(reach(set![t], any_cell(), (j - 1) as nat) == reach(set![t], any_cell(), k as nat));
        assert(reach(set![t], any_cell(), j as nat) == reach(set![t], any_cell(), (k + 1) as nat));
    }
}

} // verus!
