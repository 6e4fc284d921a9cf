//! Cluster detection: the same-colour group around a landed bubble, and the
//! bubbles still hanging from the top row.

use vstd::prelude::*;

use crate::bubble::{Bubble, BubbleColor};
use crate::grid::{in_top_row, storable, BubbleId, HexGrid};
use crate::hex::{lemma_neighbor_list_adjacent, HexCoord};
use crate::reach::{connected, lemma_closed_holds_reach, lemma_reach_passes, lemma_reach_step, reach};
use crate::seqs::{lemma_push_contains, lemma_push_no_duplicates};

verus! {

/// A sequence without repeats whose items come from `seeds` or `dom` is no
/// longer than the two together.
proof fn lemma_queue_bound(queue: Seq<HexCoord>, seeds: Seq<HexCoord>, dom: Set<HexCoord>)
    requires
        queue.no_duplicates(),
        dom.finite(),
        forall|c: HexCoord| #[trigger] queue.contains(c) ==> seeds.contains(c) || dom.contains(c),
    ensures
        queue.len() <= seeds.len() + dom.len(),
{
    queue.unique_seq_to_set();
    seeds.lemma_cardinality_of_set();
    let u = seeds.to_set().union(dom);
    assert(queue.to_set().subset_of(u));
    vstd::set_lib::lemma_len_union(seeds.to_set(), dom);
    vstd::set_lib::lemma_len_subset(queue.to_set(), u);
}

/// Breadth-first search from `seeds` over occupied cells whose stored
/// position is flagged in `pass_mask`: every cell reachable under `pass`, each once.
fn flood(
    grid: &HexGrid,
    pass_mask: &Vec<bool>,
    seeds: &Vec<HexCoord>,
    Ghost(pass): Ghost<spec_fn(HexCoord) -> bool>,
) -> (found: Vec<HexCoord>)
    requires
        grid.wf(),
        pass_mask@.len() == grid.cell_seq().len(),
        forall|i: int|
            0 <= i < grid.cell_seq().len() ==> pass_mask@[i] == pass(#[trigger] grid.cell_seq()[i].0),
        forall|c: HexCoord| #[trigger] pass(c) ==> grid@.contains_key(c),
        seeds@.no_duplicates(),
        forall|c: HexCoord| #[trigger] seeds@.contains(c) ==> storable(c),
    ensures
        found@.no_duplicates(),
        forall|c: HexCoord| #[trigger]
            found@.contains(c) <==> connected(seeds@.to_set(), pass, c),
        found@.len() >= seeds@.len(),
        forall|i: int| 0 <= i < seeds@.len() ==> found@[i] == seeds@[i],
{
    let n = grid.cell_count();
    let ghost seedset = seeds@.to_set();
    let ghost cells = grid.cell_seq();
    let mut marked: Vec<bool> = vec![false; n];
    let mut queue: Vec<HexCoord> = Vec::new();
    let mut s: usize = 0;
    while s < seeds.len()
        invariant
            grid.wf(),
            cells == grid.cell_seq(),
            n == cells.len(),
            s <= seeds@.len(),
            seeds@.no_duplicates(),
            marked@.len() == n,
            queue@ == seeds@.take(s as int),
            forall|j: int| 0 <= j < n ==> (#[trigger] marked@[j] <==> queue@.contains(cells[j].0)),
        decreases seeds@.len() - s,
    {
        let c = seeds[s];
        let ghost before = queue@;
        queue.push(c);
        proof {
            assert(queue@ =~= seeds@.take(s + 1));
        }
        match grid.index_of(c) {
            Some(j) => {
                marked.set(j, true);
            },
            None => {},
        }
        proof {
            assert forall|j: int| 0 <= j < n implies (#[trigger] marked@[j] <==> queue@.contains(
                cells[j].0)) by {
                lemma_push_contains(before, c, cells[j].0);
            }
        }
        s += 1;
    }
    proof {
        assert(queue@ =~= seeds@);
        assert forall|c: HexCoord| #[trigger] queue@.contains(c) implies connected(seedset, pass, c) by {
            assert(reach(seedset, pass, 0).contains(c));
        }
    }
    let mut head: usize = 0;
    while head < queue.len()
        invariant
            grid.wf(),
            cells == grid.cell_seq(),
            n == cells.len(),
            pass_mask@.len() == n,
            forall|i: int| 0 <= i < n ==> pass_mask@[i] == pass(#[trigger] cells[i].0),
            forall|c: HexCoord| #[trigger] pass(c) ==> grid@.contains_key(c),
            forall|c: HexCoord| #[trigger] seeds@.contains(c) ==> storable(c),
            seedset == seeds@.to_set(),
            marked@.len() == n,
            forall|j: int| 0 <= j < n ==> (#[trigger] marked@[j] <==> queue@.contains(cells[j].0)),
            queue@.no_duplicates(),
            head <= queue@.len(),
            queue@.len() <= seeds@.len() + n,
            queue@.len() >= seeds@.len(),
            forall|i: int| 0 <= i < seeds@.len() ==> queue@[i] == seeds@[i],
            forall|c: HexCoord| #[trigger]
                queue@.contains(c) ==> seeds@.contains(c) || grid@.contains_key(c),
            forall|c: HexCoord| #[trigger] seeds@.contains(c) ==> queue@.contains(c),
            forall|c: HexCoord| #[trigger] queue@.contains(c) ==> connected(seedset, pass, c),
            forall|i: int, m: HexCoord|
                0 <= i < head && pass(m) && #[trigger] crate::hex::adjacent(queue@[i], m)
                    ==> queue@.contains(m),
        decreases seeds@.len() + n - head,
    {
        let c = queue[head];
        proof {
            assert(queue@.contains(c));
            if !seeds@.contains(c) {
                assert(grid@.contains_key(c));
            }
        }
        let ns = c.neighbors();
        let mut k: usize = 0;
        while k < 6
            invariant
                grid.wf(),
                cells == grid.cell_seq(),
                n == cells.len(),
                pass_mask@.len() == n,
                forall|i: int| 0 <= i < n ==> pass_mask@[i] == pass(#[trigger] cells[i].0),
                forall|c: HexCoord| #[trigger] pass(c) ==> grid@.contains_key(c),
                forall|c: HexCoord| #[trigger] seeds@.contains(c) ==> storable(c),
                seedset == seeds@.to_set(),
                marked@.len() == n,
                forall|j: int| 0 <= j < n ==> (#[trigger] marked@[j] <==> queue@.contains(cells[j].0)),
                queue@.no_duplicates(),
                head < queue@.len(),
                queue@[head as int] == c,
                c.interior(),
                ns@ == c.neighbor_list(),
                k <= 6,
                queue@.len() <= seeds@.len() + n,
                queue@.len() >= seeds@.len(),
                forall|i: int| 0 <= i < seeds@.len() ==> queue@[i] == seeds@[i],
                forall|c: HexCoord| #[trigger]
                    queue@.contains(c) ==> seeds@.contains(c) || grid@.contains_key(c),
                forall|c: HexCoord| #[trigger] seeds@.contains(c) ==> queue@.contains(c),
                forall|c: HexCoord| #[trigger] queue@.contains(c) ==> connected(seedset, pass, c),
                forall|i: int, m: HexCoord|
                    0 <= i < head && pass(m) && #[trigger] crate::hex::adjacent(queue@[i], m)
                        ==> queue@.contains(m),
                forall|j: int| 0 <= j < k && pass(#[trigger] ns@[j]) ==> queue@.contains(ns@[j]),
            decreases 6 - k,
        {
            let m = ns[k];
            match grid.index_of(m) {
                Some(j) => {
                    if !marked[j] && pass_mask[j] {
                        let ghost before = queue@;
                        proof {
                            lemma_neighbor_list_adjacent(c, m);
                            assert(queue@.contains(c));
                            lemma_reach_step(seedset, pass, c, m);
                            lemma_push_no_duplicates(before, m);
                        }
                        marked.set(j, true);
                        queue.push(m);
                        proof {
                            assert forall|d: HexCoord| #[trigger] queue@.contains(d) implies seeds@.contains(d)
                                || grid@.contains_key(d) by {
                                lemma_push_contains(before, m, d);
                            }
                            assert forall|d: HexCoord| #[trigger] queue@.contains(d) implies connected(
                                seedset, pass, d) by {
                                lemma_push_contains(before, m, d);
                            }
                            assert forall|d: HexCoord| #[trigger] seeds@.contains(d) implies queue@.contains(d) by {
                                lemma_push_contains(before, m, d);
                            }
                            assert forall|i: int, d: HexCoord|
                                0 <= i < head && pass(d) && #[trigger] crate::hex::adjacent(queue@[i], d)
                                    implies queue@.contains(d) by {
                                assert(queue@[i] == before[i]);
                                lemma_push_contains(before, m, d);
                            }
                            assert forall|jj: int| 0 <= jj < n implies (#[trigger] marked@[jj]
                                <==> queue@.contains(cells[jj].0)) by {
                                lemma_push_contains(before, m, cells[jj].0);
                            }
                            assert forall|jj: int| 0 <= jj < k + 1 && pass(#[trigger] ns@[jj]) implies queue@.contains(
                                ns@[jj]) by {
                                lemma_push_contains(before, m, ns@[jj]);
                            }
                            assert(queue@[head as int] == c);
                            assert forall|i: int| 0 <= i < seeds@.len() implies queue@[i] == seeds@[i] by {
                                assert(queue@[i] == before[i]);
                            }
                            lemma_queue_bound(queue@, seeds@, grid@.dom());
                        }
                    }
                },
                None => {},
            }
            k += 1;
        }
        proof {
            assert forall|i: int, d: HexCoord|
                0 <= i < head + 1 && pass(d) && #[trigger] crate::hex::adjacent(queue@[i], d)
                    implies queue@.contains(d) by {
                if i == head {
                    lemma_neighbor_list_adjacent(c, d);
                    let j = choose|j: int| 0 <= j < 6 && ns@[j] == d;
                }
            }
        }
        head += 1;
    }
    proof {
        let s = queue@.to_set();
        assert forall|c: HexCoord, m: HexCoord|
            s.contains(c) && pass(m) && #[trigger] crate::hex::adjacent(c, m) implies s.contains(m) by {
            let i = choose|i: int| 0 <= i < queue@.len() && queue@[i] == c;
        }
        assert forall|c: HexCoord| #[trigger]
            queue@.contains(c) <==> connected(seedset, pass, c) by {
            if connected(seedset, pass, c) {
                let k = choose|k: nat| #[trigger] reach(seedset, pass, k).contains(c);
                lemma_closed_holds_reach(seedset, pass, s, k);
            }
        }
    }
    queue
}

/// Smallest cluster that pops.
pub const MIN_CLUSTER_SIZE: usize = 3;

/// A bubble was placed at `coord` with `color` (the bubble `entity`).
#[derive(Debug, Clone, Copy, PartialEq, Eq, Structural)]
pub struct BubbleLanded {
    pub coord: HexCoord,
    pub color: BubbleColor,
    pub entity: BubbleId,
}

/// A same-colour cluster was removed.
#[derive(Debug)]
pub struct ClusterPopped {
    pub coords: Vec<HexCoord>,
    pub color: BubbleColor,
    pub count: usize,
}

/// Bubbles no longer connected to the top row were removed.
#[derive(Debug)]
pub struct FloatingBubblesRemoved {
    pub coords: Vec<HexCoord>,
    pub count: usize,
}

/// The colour of the bubble at `c`, when `c` is occupied and its bubble is in the table.
pub open spec fn color_at(g: Map<HexCoord, BubbleId>, bubbles: Seq<Bubble>, c: HexCoord) -> Option<
    BubbleColor,
> {
    if g.contains_key(c) && g[c].0 < bubbles.len() {
        Some(bubbles[g[c].0 as int].color)
    } else {
        None
    }
}

/// Cells holding a bubble of `color`.
pub open spec fn has_color(g: Map<HexCoord, BubbleId>, bubbles: Seq<Bubble>, color: BubbleColor) -> spec_fn(
    HexCoord,
) -> bool {
    |c: HexCoord| color_at(g, bubbles, c) == Some(color)
}

/// Occupied cells.
pub open spec fn occupied(g: Map<HexCoord, BubbleId>) -> spec_fn(HexCoord) -> bool {
    |c: HexCoord| g.contains_key(c)
}

/// `c` belongs to the cluster grown from `start` through bubbles of `color`;
/// `start` itself always does.
pub open spec fn in_cluster(
    g: Map<HexCoord, BubbleId>,
    bubbles: Seq<Bubble>,
    start: HexCoord,
    color: BubbleColor,
    c: HexCoord,
) -> bool {
    connected(set![start], has_color(g, bubbles, color), c)
}

/// The whole cluster grown from `start`.
pub open spec fn cluster_set(
    g: Map<HexCoord, BubbleId>,
    bubbles: Seq<Bubble>,
    start: HexCoord,
    color: BubbleColor,
) -> Set<HexCoord> {
    Set::new(|c: HexCoord| in_cluster(g, bubbles, start, color, c))
}

/// The occupied cells of the top row.
pub open spec fn top_row(g: Map<HexCoord, BubbleId>) -> Set<HexCoord> {
    Set::new(|c: HexCoord| in_top_row(g, c))
}

/// `c` is linked to the top row through occupied cells.
pub open spec fn anchored(g: Map<HexCoord, BubbleId>, c: HexCoord) -> bool {
    connected(top_row(g), occupied(g), c)
}

/// The occupied cells that are not anchored.
pub open spec fn floating_set(g: Map<HexCoord, BubbleId>) -> Set<HexCoord> {
    Set::new(|c: HexCoord| g.contains_key(c) && !anchored(g, c))
}

/// Every member of a cluster other than its start holds a bubble of the
/// cluster's colour, so a bubble of another colour never joins, even when it
/// touches the cluster.
pub proof fn lemma_cluster_is_one_color(
    g: Map<HexCoord, BubbleId>,
    bubbles: Seq<Bubble>,
    start: HexCoord,
    color: BubbleColor,
    c: HexCoord,
)
    requires
        in_cluster(g, bubbles, start, color, c),
        c != start,
    ensures
        color_at(g, bubbles, c) == Some(color),
{
    let k = choose|k: nat| #[trigger] reach(set![start], has_color(g, bubbles, color), k).contains(c);
    lemma_reach_passes(set![start], has_color(g, bubbles, color), c, k);
}

/// A bubble of the cluster's colour next to a member of the cluster belongs
/// to it too.
pub proof fn lemma_cluster_absorbs_neighbor(
    g: Map<HexCoord, BubbleId>,
    bubbles: Seq<Bubble>,
    start: HexCoord,
    color: BubbleColor,
    c: HexCoord,
    m: HexCoord,
)
    requires
        in_cluster(g, bubbles, start, color, c),
        crate::hex::adjacent(c, m),
        color_at(g, bubbles, m) == Some(color),
    ensures
        in_cluster(g, bubbles, start, color, m),
{
    lemma_reach_step(set![start], has_color(g, bubbles, color), c, m);
}

/// Dropping the floating cells keeps exactly the anchored bubbles, each with
/// the bubble it had, and nothing else.
pub proof fn lemma_floating_removal_keeps_anchored(g: Map<HexCoord, BubbleId>, c: HexCoord)
    ensures
        g.remove_keys(floating_set(g)).contains_key(c) <==> (g.contains_key(c) && anchored(g, c)),
        g.remove_keys(floating_set(g)).contains_key(c) ==> g.remove_keys(floating_set(g))[c] == g[c],
{
}

/// Popping a cluster removes exactly its cells; every other bubble keeps its cell and identifier.
pub proof fn lemma_pop_removes_exactly_cluster(
    g: Map<HexCoord, BubbleId>,
    bubbles: Seq<Bubble>,
    start: HexCoord,
    color: BubbleColor,
    c: HexCoord,
)
    ensures
        g.remove_keys(cluster_set(g, bubbles, start, color)).contains_key(c) <==> (g.contains_key(c)
            && !in_cluster(g, bubbles, start, color, c)),
        g.remove_keys(cluster_set(g, bubbles, start, color)).contains_key(c) ==> g.remove_keys(
            cluster_set(g, bubbles, start, color),
        )[c] == g[c],
{
}

/// Whether `c` occurs in `cs`.
pub fn contains_coord(cs: &Vec<HexCoord>, c: HexCoord) -> (b: bool)
    ensures
        b == cs@.contains(c),
{
    let mut i: usize = 0;
    while i < cs.len()
        invariant
            i <= cs@.len(),
            forall|j: int| 0 <= j < i ==> cs@[j] != c,
        decreases cs@.len() - i,
    {
        if cs[i] == c {
            assert(cs@[i as int] == c);
            return true;
        }
        i += 1;
    }
    false
}

/// The cluster of `target_color` grown from `start`: `start` itself, then
/// every bubble of that colour linked to it through bubbles of that colour.
/// A grid cell whose bubble is missing from `bubbles` is skipped.
pub fn find_cluster(
    grid: &HexGrid,
    bubbles: &Vec<Bubble>,
    start: HexCoord,
    target_color: BubbleColor,
) -> (cluster: Vec<HexCoord>)
    requires
        grid.wf(),
        storable(start),
    ensures
        cluster@.no_duplicates(),
        cluster@.len() >= 1,
        cluster@[0] == start,
        forall|c: HexCoord| #[trigger]
            cluster@.contains(c) <==> in_cluster(grid@, bubbles@, start, target_color, c),
{
    let ghost pass = has_color(grid@, bubbles@, target_color);
    let n = grid.cell_count();
    let mut mask: Vec<bool> = Vec::new();
    let mut i: usize = 0;
    while i < n
        invariant
            grid.wf(),
            n == grid.cell_seq().len(),
            i <= n,
            mask@.len() == i,
            pass == has_color(grid@, bubbles@, target_color),
            forall|j: int| 0 <= j < i ==> mask@[j] == pass(#[trigger] grid.cell_seq()[j].0),
        decreases n - i,
    {
        let (c, id) = grid.cell(i);
        proof {
            assert(grid@.contains_key(grid.cell_seq()[i as int].0));
        }
        let ok = id.0 < bubbles.len() && bubbles[id.0].color == target_color;
        mask.push(ok);
        i += 1;
    }
    let seeds = vec![start];
    proof {
        assert(seeds@.to_set() =~= set![start]) by {
            assert forall|c: HexCoord| seeds@.contains(c) <==> c == start by {
                if c == start {
                    assert(seeds@[0] == c);
                }
            }
        }
        assert forall|c: HexCoord| #[trigger] seeds@.contains(c) implies storable(c) by {
            assert(seeds@[0] == start);
        }
    }
    let cluster = flood(grid, &mask, &seeds, Ghost(pass));
    proof {
        assert(reach(set![start], pass, 0).contains(start));
        assert(cluster@.contains(start));
        assert(seeds@[0] == start);
    }
    cluster
}

/// Every bubble linked to the top row through occupied cells.
pub fn find_anchored_bubbles(grid: &HexGrid) -> (anchored_cells: Vec<HexCoord>)
    requires
        grid.wf(),
    ensures
        anchored_cells@.no_duplicates(),
        forall|c: HexCoord| #[trigger] anchored_cells@.contains(c) <==> anchored(grid@, c),
{
    let n = grid.cell_count();
    let mask: Vec<bool> = vec![true; n];
    let seeds = grid.top_row_coords();
    proof {
        assert forall|c: HexCoord| #[trigger] seeds@.contains(c) implies storable(c) && grid.in_top_row(c) by {
            assert(grid.in_top_row(c));
            assert(grid@.contains_key(c));
        }
        assert forall|c: HexCoord| seeds@.to_set().contains(c) <==> top_row(grid@).contains(c) by {
            if top_row(grid@).contains(c) {
                assert(grid.in_top_row(c));
            }
        }
        assert(seeds@.to_set() =~= top_row(grid@));
        assert forall|j: int| 0 <= j < n implies mask@[j] == occupied(grid@)(
            #[trigger] grid.cell_seq()[j].0) by {
            assert(grid@.contains_key(grid.cell_seq()[j].0));
        }
    }
    flood(grid, &mask, &seeds, Ghost(occupied(grid@)))
}

/// Removes every cell of `coords` from the grid.
fn remove_all(grid: &mut HexGrid, coords: &Vec<HexCoord>)
    requires
        old(grid).wf(),
    ensures
        final(grid).wf(),
        final(grid)@ == old(grid)@.remove_keys(coords@.to_set()),
        final(grid).bounds_spec() == old(grid).bounds_spec(),
{
    let mut i: usize = 0;
    while i < coords.len()
        invariant
            grid.wf(),
            i <= coords@.len(),
            grid@ == old(grid)@.remove_keys(coords@.take(i as int).to_set()),
            grid.bounds_spec() == old(grid).bounds_spec(),
        decreases coords@.len() - i,
    {
        let ghost before = grid@;
        grid.remove(coords[i]);
        proof {
            assert(coords@.take(i + 1) =~= coords@.take(i as int).push(coords@[i as int]));
            assert forall|c: HexCoord| coords@.take(i + 1).contains(c) <==> (coords@.take(
                i as int,
            ).contains(c) || c == coords@[i as int]) by {
                lemma_push_contains(coords@.take(i as int), coords@[i as int], c);
            }
            assert(grid@ =~= old(grid)@.remove_keys(coords@.take(i + 1).to_set()));
        }
        i += 1;
    }
    assert(coords@.take(coords@.len() as int) =~= coords@);
}

/// Pops the cluster around a landed bubble when it holds at least
/// `MIN_CLUSTER_SIZE` bubbles; otherwise leaves the grid as it is.
pub fn detect_clusters(grid: &mut HexGrid, bubbles: &Vec<Bubble>, landed: BubbleLanded) -> (popped:
    Option<ClusterPopped>)
    requires
        old(grid).wf(),
        storable(landed.coord),
    ensures
        final(grid).wf(),
        final(grid).bounds_spec() == old(grid).bounds_spec(),
        cluster_set(old(grid)@, bubbles@, landed.coord, landed.color).finite(),
        popped is Some <==> cluster_set(old(grid)@, bubbles@, landed.coord, landed.color).len()
            >= MIN_CLUSTER_SIZE,
        match popped {
            Some(ev) => {
                &&& ev.color == landed.color
                &&& ev.count == ev.coords@.len()
                &&& ev.count == cluster_set(old(grid)@, bubbles@, landed.coord, landed.color).len()
                &&& ev.coords@.no_duplicates()
                &&& ev.coords@.to_set() == cluster_set(old(grid)@, bubbles@, landed.coord, landed.color)
                &&& final(grid)@ == old(grid)@.remove_keys(
                    cluster_set(old(grid)@, bubbles@, landed.coord, landed.color),
                )
            },
            None => final(grid)@ == old(grid)@,
        },
{
    let cluster = find_cluster(grid, bubbles, landed.coord, landed.color);
    proof {
        assert(cluster@.to_set() =~= cluster_set(grid@, bubbles@, landed.coord, landed.color));
        cluster@.unique_seq_to_set();
    }
    if cluster.len() >= MIN_CLUSTER_SIZE {
        remove_all(grid, &cluster);
        let count = cluster.len();
        Some(ClusterPopped { coords: cluster, color: landed.color, count })
    } else {
        None
    }
}

/// Removes every bubble that is no longer linked to the top row.
pub fn detect_floating_bubbles(grid: &mut HexGrid) -> (removed: Option<FloatingBubblesRemoved>)
    requires
        old(grid).wf(),
    ensures
        final(grid).wf(),
        final(grid).bounds_spec() == old(grid).bounds_spec(),
        final(grid)@ == old(grid)@.remove_keys(floating_set(old(grid)@)),
        floating_set(old(grid)@).finite(),
        removed is Some <==> floating_set(old(grid)@).len() > 0,
        match removed {
            Some(ev) => {
                &&& ev.count == ev.coords@.len()
                &&& ev.count == floating_set(old(grid)@).len()
                &&& ev.coords@.no_duplicates()
                &&& ev.coords@.to_set() == floating_set(old(grid)@)
            },
            None => true,
        },
{
    let anchored_cells = find_anchored_bubbles(grid);
    let all = grid.coords();
    let mut floating: Vec<HexCoord> = Vec::new();
    let mut i: usize = 0;
    while i < all.len()
        invariant
            grid.wf(),
            i <= all@.len(),
            all@.no_duplicates(),
            forall|c: HexCoord| all@.contains(c) <==> grid@.contains_key(c),
            forall|c: HexCoord| #[trigger] anchored_cells@.contains(c) <==> anchored(grid@, c),
            floating@.no_duplicates(),
            forall|c: HexCoord| #[trigger]
                floating@.contains(c) <==> (all@.take(i as int).contains(c) && !anchored(grid@, c)),
        decreases all@.len() - i,
    {
        let c = all[i];
        proof {
            assert(all@.take(i + 1) =~= all@.take(i as int).push(c));
            assert forall|d: HexCoord| all@.take(i + 1).contains(d) <==> (all@.take(
                i as int,
            ).contains(d) || d == c) by {
                lemma_push_contains(all@.take(i as int), c, d);
            }
            if all@.take(i as int).contains(c) {
                let j = choose|j: int| 0 <= j < i && all@.take(i as int)[j] == c;
                assert(all@[j] == all@[i as int]);
            }
        }
        if !contains_coord(&anchored_cells, c) {
            proof {
                lemma_push_no_duplicates(floating@, c);
                assert forall|d: HexCoord| #[trigger] floating@.push(c).contains(d) <==> (all@.take(
                    i + 1,
                ).contains(d) && !anchored(grid@, d)) by {
                    lemma_push_contains(floating@, c, d);
                }
            }
            floating.push(c);
        }
        i += 1;
    }
    proof {
        assert(all@.take(all@.len() as int) =~= all@);
        assert(floating@.to_set() =~= floating_set(grid@));
        floating@.unique_seq_to_set();
    }
    if floating.len() == 0 {
        proof {
            assert(grid@.remove_keys(floating_set(grid@)) =~= grid@);
        }
        return None;
    }
    remove_all(grid, &floating);
    let count = floating.len();
    Some(FloatingBubblesRemoved { coords: floating, count })
}

} // verus!
