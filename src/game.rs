//! The state of one game and the steps of a turn: landing a projectile,
//! popping and dropping bubbles, scoring, descent and the shooter's reload.

use vstd::prelude::*;

use crate::bubble::{Bubble, BubbleColor};
use crate::cluster::{
    cluster_set, detect_clusters, detect_floating_bubbles, floating_set, BubbleLanded, ClusterPopped,
    FloatingBubblesRemoved,
};
use crate::grid::{default_bounds, in_top_row, storable, BubbleId, HexGrid};
use crate::hex::{coord, HexCoord, ROW_HEIGHT};
use crate::powerups::{PowerUp, PowerUpChoices, UnlockedPowerUps};
use crate::state::{
    capped_add, check_lose_condition, check_win_condition, cluster_points, floating_points, is_lost, is_won,
    shots_per_descent, GameLevel, GameScore, GridOffset, SHOOTER_Y,
};

verus! {

/// A projectile that comes to rest with its cell's centre below this pixel y
/// ends the game instead of landing.
pub const LANDING_DANGER_Y: i32 = SHOOTER_Y + 80;

/// Rows filled at the start of a game.
pub const INITIAL_ROWS: i32 = 5;

/// Records a new bubble in the table and returns its identifier.
pub fn spawn_bubble(bubbles: &mut Vec<Bubble>, coord: HexCoord, color: BubbleColor) -> (id: BubbleId)
    ensures
        id.0 == old(bubbles)@.len(),
        final(bubbles)@ == old(bubbles)@.push(Bubble { color, coord }),
{
    let id = BubbleId(bubbles.len());
    bubbles.push(Bubble { color, coord });
    id
}

/// Columns of a full row.
pub const ROW_WIDTH: usize = 13;

/// Every `MILESTONE_LEVELS`-th level offers a power-up.
pub const MILESTONE_LEVELS: u32 = 5;

/// The row above the highest occupied row (row -1 over an empty grid).
pub open spec fn new_top_row(g: Map<HexCoord, BubbleId>) -> int {
    if exists|c: HexCoord| in_top_row(g, c) {
        (choose|c: HexCoord| in_top_row(g, c)).r - 1
    } else {
        -1
    }
}

/// `c` lies in row `r` between columns -6 and 6.
pub open spec fn in_full_row(c: HexCoord, r: int) -> bool {
    c.r == r && default_bounds().min_q <= c.q <= default_bounds().max_q
}

/// `g1`/`b1` are `g0`/`b0` with row `r` filled left to right by new bubbles
/// whose colours are `colors[start..start + ROW_WIDTH]`, numbered from `b0.len()`.
pub open spec fn row_added(
    g0: Map<HexCoord, BubbleId>,
    b0: Seq<Bubble>,
    g1: Map<HexCoord, BubbleId>,
    b1: Seq<Bubble>,
    r: int,
    colors: Seq<BubbleColor>,
    start: int,
) -> bool {
    &&& forall|c: HexCoord| #[trigger]
        g1.contains_key(c) <==> (g0.contains_key(c) || in_full_row(c, r))
    &&& forall|c: HexCoord| #[trigger] g1.contains_key(c) && !in_full_row(c, r) ==> g1[c] == g0[c]
    &&& forall|c: HexCoord| #[trigger]
        in_full_row(c, r) ==> g1[c] == BubbleId((b0.len() + c.q - default_bounds().min_q) as usize)
    &&& b1.len() == b0.len() + ROW_WIDTH
    &&& b1.take(b0.len() as int) == b0
    &&& forall|j: int| #![trigger b1[b0.len() + j]]
        0 <= j < ROW_WIDTH ==> b1[b0.len() + j] == (Bubble {
            color: colors[start + j],
            coord: coord(default_bounds().min_q + j, r),
        })
}

/// Finishing a flight whose landing search gave `found`, from grid `g0` and
/// bubble table `b0` with row 0 at `origin_y`, yields `out`, `g1` and `b1`:
/// nothing found is a discard; with `check_cell`, a found cell whose centre is
/// below `LANDING_DANGER_Y` is the danger zone; otherwise a new bubble of
/// `color` lands there.
pub open spec fn landing_committed(
    g0: Map<HexCoord, BubbleId>,
    b0: Seq<Bubble>,
    origin_y: int,
    found: Option<HexCoord>,
    color: BubbleColor,
    check_cell: bool,
    out: LandingOutcome,
    g1: Map<HexCoord, BubbleId>,
    b1: Seq<Bubble>,
) -> bool {
    match found {
        None => out == LandingOutcome::Discarded && g1 == g0 && b1 == b0,
        Some(c) => if check_cell && c.pixel_y_spec(origin_y) < LANDING_DANGER_Y {
            out == LandingOutcome::DangerZone && g1 == g0 && b1 == b0
        } else {
            &&& out == LandingOutcome::Landed(
                BubbleLanded { coord: c, color, entity: BubbleId(b0.len() as usize) },
            )
            &&& g1 == g0.insert(c, BubbleId(b0.len() as usize))
            &&& b1 == b0.push(Bubble { color, coord: c })
        },
    }
}

/// What a descent did.
#[derive(Debug)]
pub struct DescentReport {
    /// A bubble ended up below the danger line: the game is over and the
    /// level did not advance.
    pub game_over: bool,
    /// The power-ups offered at a milestone level, if any.
    pub offer: Option<PowerUpChoices>,
}

/// Whether the shooter may fire.
#[derive(Debug, Clone, Copy, PartialEq, Eq, Structural)]
pub enum ShooterState {
    Ready,
    /// Waiting for the projectile in flight to come to rest.
    Reloading,
}

/// The colour about to be fired.
#[derive(Debug, Clone, Copy, PartialEq, Eq, Structural)]
pub struct LoadedBubble(pub BubbleColor);

/// The colour after the loaded one.
#[derive(Debug, Clone, Copy, PartialEq, Eq, Structural)]
pub struct NextBubble(pub BubbleColor);

/// The colour after the next one.
#[derive(Debug, Clone, Copy, PartialEq, Eq, Structural)]
pub struct SecondNextBubble(pub BubbleColor);

/// The colour after the second next one.
#[derive(Debug, Clone, Copy, PartialEq, Eq, Structural)]
pub struct ThirdNextBubble(pub BubbleColor);

/// The launcher: its state and the queue of upcoming colours.
#[derive(Debug, Clone, Copy, PartialEq, Eq, Structural)]
pub struct Shooter {
    pub state: ShooterState,
    pub loaded: LoadedBubble,
    pub next: NextBubble,
    pub second_next: SecondNextBubble,
    pub third_next: ThirdNextBubble,
}

impl Shooter {
    /// A ready shooter loaded with `colors` in order.
    pub fn new(colors: [BubbleColor; 4]) -> (s: Shooter)
        ensures
            s.state == ShooterState::Ready,
            s.loaded.0 == colors@[0],
            s.next.0 == colors@[1],
            s.second_next.0 == colors@[2],
            s.third_next.0 == colors@[3],
    {
        Shooter {
            state: ShooterState::Ready,
            loaded: LoadedBubble(colors[0]),
            next: NextBubble(colors[1]),
            second_next: SecondNextBubble(colors[2]),
            third_next: ThirdNextBubble(colors[3]),
        }
    }
}

/// What became of a projectile that stopped.
#[derive(Debug, Clone, Copy, PartialEq, Eq, Structural)]
pub enum LandingOutcome {
    /// It became a bubble of the grid.
    Landed(BubbleLanded),
    /// It came to rest in the danger zone: the game is over.
    DangerZone,
    /// No cell could take it; it vanished.
    Discarded,
}

/// What the cluster and floating passes removed after a landing.
#[derive(Debug)]
pub struct TurnReport {
    pub popped: Option<ClusterPopped>,
    pub floating: Option<FloatingBubblesRemoved>,
}

/// The whole state of one game.
pub struct Game {
    pub grid: HexGrid,
    pub bubbles: Vec<Bubble>,
    pub grid_offset: GridOffset,
    pub level: GameLevel,
    pub score: GameScore,
    pub powerups: UnlockedPowerUps,
}

impl Game {
    pub open spec fn wf(&self) -> bool {
        self.grid.wf() && self.grid.bounds_spec() == default_bounds()
    }

    /// A fresh game: empty grid, origin at its start, level 1, no score, no power-ups.
    pub fn new() -> (g: Game)
        ensures
            g.wf(),
            g.grid@ == Map::<HexCoord, BubbleId>::empty(),
            g.grid.bounds_spec() == crate::grid::default_bounds(),
            g.bubbles@.len() == 0,
            g.grid_offset.y == crate::hex::GRID_ORIGIN_Y,
            g.level.level == 1,
            g.level.shots_this_round == 0,
            g.level.shots_until_descent == crate::state::START_SHOTS_PER_DESCENT,
            g.score == (GameScore { score: 0, bubbles_popped: 0, clusters_popped: 0 }),
            g.powerups.powers@.len() == 0,
    {
        Game {
            grid: HexGrid::new(),
            bubbles: Vec::new(),
            grid_offset: GridOffset::new(),
            level: GameLevel::new(),
            score: GameScore::new(),
            powerups: UnlockedPowerUps::new(),
        }
    }

    /// Places a new bubble of `color` at `coord`.
    pub fn land_projectile(&mut self, coord: HexCoord, color: BubbleColor) -> (ev: BubbleLanded)
        requires
            old(self).wf(),
            storable(coord),
        ensures
            final(self).wf(),
            ev == (BubbleLanded { coord, color, entity: BubbleId(old(self).bubbles@.len() as usize) }),
            final(self).grid@ == old(self).grid@.insert(coord, ev.entity),
            final(self).grid.bounds_spec() == old(self).grid.bounds_spec(),
            final(self).bubbles@ == old(self).bubbles@.push(Bubble { color, coord }),
            final(self).grid_offset == old(self).grid_offset,
            final(self).level == old(self).level,
            final(self).score == old(self).score,
            final(self).powerups.powers@ == old(self).powerups.powers@,
    {
        let entity = spawn_bubble(&mut self.bubbles, coord, color);
        self.grid.insert(coord, entity);
        BubbleLanded { coord, color, entity }
    }

    /// Finishes a flight whose landing search returned `found`: nothing to
    /// take it is a discard; when `check_cell` is set, a cell whose centre is
    /// below `LANDING_DANGER_Y` is the danger zone; otherwise the bubble lands.
    pub fn commit_landing(&mut self, found: Option<HexCoord>, color: BubbleColor, check_cell: bool) -> (out:
        LandingOutcome)
        requires
            old(self).wf(),
            found matches Some(c) ==> storable(c),
        ensures
            final(self).wf(),
            final(self).grid.bounds_spec() == old(self).grid.bounds_spec(),
            final(self).grid_offset == old(self).grid_offset,
            final(self).level == old(self).level,
            final(self).score == old(self).score,
            final(self).powerups.powers@ == old(self).powerups.powers@,
            landing_committed(
                old(self).grid@,
                old(self).bubbles@,
                old(self).grid_offset.y as int,
                found,
                color,
                check_cell,
                out,
                final(self).grid@,
                final(self).bubbles@,
            ),
    {
        match found {
            None => LandingOutcome::Discarded,
            Some(c) => {
                if check_cell && c.pixel_y(self.grid_offset.y) < LANDING_DANGER_Y as i64 {
                    LandingOutcome::DangerZone
                } else {
                    LandingOutcome::Landed(self.land_projectile(c, color))
                }
            },
        }
    }

    /// A projectile of `color` reached the top wall over cell `target`: it
    /// lands in the nearest legal free cell, unless that cell is in the
    /// danger zone.
    pub fn resolve_top_wall(&mut self, target: HexCoord, color: BubbleColor) -> (out: LandingOutcome)
        requires
            old(self).wf(),
            -crate::grid::SEARCH_COORD_LIMIT <= target.q <= crate::grid::SEARCH_COORD_LIMIT,
            -crate::grid::SEARCH_COORD_LIMIT <= target.r <= crate::grid::SEARCH_COORD_LIMIT,
        ensures
            final(self).wf(),
            final(self).grid_offset == old(self).grid_offset,
            final(self).score == old(self).score,
            final(self).level == old(self).level,
            final(self).powerups.powers@ == old(self).powerups.powers@,
            exists|found: Option<HexCoord>|
                old(self).grid.landing_search(target, found) && #[trigger] landing_committed(
                    old(self).grid@,
                    old(self).bubbles@,
                    old(self).grid_offset.y as int,
                    found,
                    color,
                    true,
                    out,
                    final(self).grid@,
                    final(self).bubbles@,
                ),
            match out {
                LandingOutcome::Landed(ev) => {
                    &&& ev.color == color
                    &&& old(self).grid.legal_landing(ev.coord)
                    &&& ev.coord.pixel_y_spec(old(self).grid_offset.y as int) >= LANDING_DANGER_Y
                    &&& final(self).grid@ == old(self).grid@.insert(ev.coord, ev.entity)
                },
                _ => final(self).grid@ == old(self).grid@,
            },
    {
        let found = self.grid.closest_empty_cell(target);
        let out = self.commit_landing(found, color, true);
        proof {
            assert(old(self).grid.landing_search(target, found) && landing_committed(
                old(self).grid@,
                old(self).bubbles@,
                old(self).grid_offset.y as int,
                found,
                color,
                true,
                out,
                self.grid@,
                self.bubbles@,
            ));
        }
        out
    }

    /// A projectile of `color` touched a bubble over cell `target`; when
    /// `in_danger` (its own position is in the danger zone) the game is over,
    /// otherwise it lands in the nearest legal free cell.
    pub fn resolve_contact(&mut self, target: HexCoord, color: BubbleColor, in_danger: bool) -> (out:
        LandingOutcome)
        requires
            old(self).wf(),
            -crate::grid::SEARCH_COORD_LIMIT <= target.q <= crate::grid::SEARCH_COORD_LIMIT,
            -crate::grid::SEARCH_COORD_LIMIT <= target.r <= crate::grid::SEARCH_COORD_LIMIT,
        ensures
            final(self).wf(),
            final(self).grid_offset == old(self).grid_offset,
            final(self).score == old(self).score,
            final(self).level == old(self).level,
            final(self).powerups.powers@ == old(self).powerups.powers@,
            in_danger ==> out == LandingOutcome::DangerZone && final(self).grid@ == old(self).grid@
                && final(self).bubbles@ == old(self).bubbles@,
            !in_danger ==> exists|found: Option<HexCoord>|
                old(self).grid.landing_search(target, found) && #[trigger] landing_committed(
                    old(self).grid@,
                    old(self).bubbles@,
                    old(self).grid_offset.y as int,
                    found,
                    color,
                    false,
                    out,
                    final(self).grid@,
                    final(self).bubbles@,
                ),
            match out {
                LandingOutcome::Landed(ev) => {
                    &&& !in_danger
                    &&& ev.color == color
                    &&& old(self).grid.legal_landing(ev.coord)
                    &&& final(self).grid@ == old(self).grid@.insert(ev.coord, ev.entity)
                },
                _ => final(self).grid@ == old(self).grid@,
            },
    {
        if in_danger {
            return LandingOutcome::DangerZone;
        }
        let found = self.grid.closest_empty_cell(target);
        let out = self.commit_landing(found, color, false);
        proof {
            assert(old(self).grid.landing_search(target, found) && landing_committed(
                old(self).grid@,
                old(self).bubbles@,
                old(self).grid_offset.y as int,
                found,
                color,
                false,
                out,
                self.grid@,
                self.bubbles@,
            ));
        }
        out
    }

    /// After a landing: pops the cluster around it (scoring it), and after a
    /// pop drops and scores the bubbles no longer linked to the top row.
    pub fn settle_landing(&mut self, landed: BubbleLanded) -> (report: TurnReport)
        requires
            old(self).wf(),
            storable(landed.coord),
        ensures
            final(self).wf(),
            final(self).grid.bounds_spec() == old(self).grid.bounds_spec(),
            final(self).bubbles@ == old(self).bubbles@,
            final(self).grid_offset == old(self).grid_offset,
            final(self).level == old(self).level,
            final(self).powerups.powers@ == old(self).powerups.powers@,
            ({
                let g0 = old(self).grid@;
                let cl = cluster_set(g0, old(self).bubbles@, landed.coord, landed.color);
                let g1 = g0.remove_keys(cl);
                let combo = old(self).powerups.powers@.contains(PowerUp::ComboSnord);
                match report.popped {
                    None => {
                        &&& cl.len() < crate::cluster::MIN_CLUSTER_SIZE
                        &&& report.floating is None
                        &&& final(self).grid@ == g0
                        &&& final(self).score == old(self).score
                    },
                    Some(ev) => {
                        &&& cl.len() >= crate::cluster::MIN_CLUSTER_SIZE
                        &&& ev.count == cl.len()
                        &&& ev.coords@.to_set() == cl
                        &&& final(self).grid@ == g1.remove_keys(floating_set(g1))
                        &&& (report.floating is Some <==> floating_set(g1).len() > 0)
                        &&& (match report.floating {
                            Some(f) => f.count == floating_set(g1).len() && f.coords@.to_set()
                                == floating_set(g1),
                            None => true,
                        })
                        &&& final(self).score.clusters_popped == capped_add(
                            old(self).score.clusters_popped as int,
                            1,
                        )
                        &&& final(self).score.score == capped_add(
                            capped_add(old(self).score.score as int, cluster_points(ev.count as int, combo)),
                            floating_points(floating_set(g1).len() as int),
                        )
                    },
                }
            }),
    {
        let popped = detect_clusters(&mut self.grid, &self.bubbles, landed);
        match popped {
            None => TurnReport { popped: None, floating: None },
            Some(ev) => {
                let combo = self.powerups.has(PowerUp::ComboSnord);
                self.score.add_cluster(ev.count, combo);
                let ghost g1 = self.grid@;
                let floating = detect_floating_bubbles(&mut self.grid);
                match &floating {
                    Some(f) => {
                        self.score.add_floating(f.count);
                    },
                    None => {
                        proof {
                            assert(floating_set(g1).len() == 0);
                            assert(capped_add(self.score.score as int, floating_points(0)) == self.score.score);
                        }
                    },
                }
                TurnReport { popped: Some(ev), floating }
            },
        }
    }

    /// Fills row `r` from column -6 to 6 with new bubbles coloured
    /// `colors[start..start + ROW_WIDTH]`.
    pub fn fill_row(&mut self, r: i32, colors: &Vec<BubbleColor>, start: usize)
        requires
            old(self).wf(),
            -crate::grid::COORD_LIMIT <= r <= crate::grid::COORD_LIMIT,
            start + ROW_WIDTH <= colors@.len(),
            old(self).bubbles@.len() + ROW_WIDTH <= usize::MAX,
        ensures
            final(self).wf(),
            row_added(
                old(self).grid@,
                old(self).bubbles@,
                final(self).grid@,
                final(self).bubbles@,
                r as int,
                colors@,
                start as int,
            ),
            final(self).grid_offset == old(self).grid_offset,
            final(self).level == old(self).level,
            final(self).score == old(self).score,
            final(self).powerups.powers@ == old(self).powerups.powers@,
    {
        let ghost g0 = self.grid@;
        let ghost b0 = self.bubbles@;
        let min_q = self.grid.bounds().min_q;
        let n_colors = colors.len();
        let mut i: usize = 0;
        while i < ROW_WIDTH
            invariant
                self.wf(),
                n_colors == colors@.len(),
                min_q == default_bounds().min_q,
                -crate::grid::COORD_LIMIT <= r <= crate::grid::COORD_LIMIT,
                start + ROW_WIDTH <= colors@.len(),
                b0.len() + ROW_WIDTH <= usize::MAX,
                i <= ROW_WIDTH,
                forall|c: HexCoord| #[trigger]
                    self.grid@.contains_key(c) <==> (g0.contains_key(c) || (in_full_row(c, r as int)
                        && c.q < min_q + i)),
                forall|c: HexCoord| #[trigger]
                    self.grid@.contains_key(c) && !in_full_row(c, r as int) ==> self.grid@[c] == g0[c],
                forall|c: HexCoord| #[trigger]
                    in_full_row(c, r as int) && c.q < min_q + i ==> self.grid@[c] == BubbleId(
                        (b0.len() + c.q - min_q) as usize,
                    ),
                self.bubbles@.len() == b0.len() + i,
                self.bubbles@.take(b0.len() as int) == b0,
                forall|j: int| #![trigger self.bubbles@[b0.len() + j]]
                    0 <= j < i ==> self.bubbles@[b0.len() + j] == (Bubble {
                        color: colors@[start + j],
                        coord: coord(min_q + j, r as int),
                    }),
                self.grid_offset == old(self).grid_offset,
                self.level == old(self).level,
                self.score == old(self).score,
                self.powerups.powers@ == old(self).powerups.powers@,
            decreases ROW_WIDTH - i,
        {
            let c = HexCoord::new(min_q + i as i32, r);
            let ghost bb = self.bubbles@;
            let ghost gg = self.grid@;
            let id = spawn_bubble(&mut self.bubbles, c, colors[start + i]);
            self.grid.insert(c, id);
            proof {
                assert(c == coord(min_q + i, r as int));
                assert(self.bubbles@.take(b0.len() as int) =~= bb.take(b0.len() as int));
                assert forall|j: int| #![trigger self.bubbles@[b0.len() + j]]
                    0 <= j < i + 1 implies self.bubbles@[b0.len() + j] == (Bubble {
                        color: colors@[start + j],
                        coord: coord(min_q + j, r as int),
                    }) by {
                    if j < i {
                        assert(self.bubbles@[b0.len() + j] == bb[b0.len() + j]);
                    }
                }
            }
            i += 1;
        }
    }

    /// Starts a game: clears the board and counters, then fills rows 0 to 4
    /// from column -6 to 6, row by row, with `colors`.
    pub fn start_with_colors(&mut self, colors: &Vec<BubbleColor>)
        requires
            old(self).wf(),
            colors@.len() == ROW_WIDTH * (INITIAL_ROWS as int),
        ensures
            final(self).wf(),
            final(self).grid_offset.y == crate::hex::GRID_ORIGIN_Y,
            final(self).level.level == 1,
            final(self).level.shots_this_round == 0,
            final(self).level.shots_until_descent == crate::state::START_SHOTS_PER_DESCENT,
            final(self).score == (GameScore { score: 0, bubbles_popped: 0, clusters_popped: 0 }),
            final(self).powerups.powers@.len() == 0,
            final(self).bubbles@.len() == ROW_WIDTH * (INITIAL_ROWS as int),
            forall|c: HexCoord| #[trigger]
                final(self).grid@.contains_key(c) <==> (0 <= c.r < INITIAL_ROWS && in_full_row(c, c.r as int)),
            forall|c: HexCoord| #[trigger] final(self).grid@.contains_key(c) ==> {
                let i = ROW_WIDTH * c.r + c.q - default_bounds().min_q;
                &&& final(self).grid@[c] == BubbleId(i as usize)
                &&& final(self).bubbles@[i] == (Bubble { color: colors@[i], coord: c })
            },
    {
        self.grid.clear();
        self.bubbles.clear();
        self.grid_offset.reset();
        self.level.reset();
        self.score.reset();
        self.powerups.reset();
        let mut r: i32 = 0;
        while r < INITIAL_ROWS
            invariant
                self.wf(),
                0 <= r <= INITIAL_ROWS,
                colors@.len() == ROW_WIDTH * (INITIAL_ROWS as int),
                self.grid_offset.y == crate::hex::GRID_ORIGIN_Y,
                self.level.level == 1,
                self.level.shots_this_round == 0,
                self.level.shots_until_descent == crate::state::START_SHOTS_PER_DESCENT,
                self.score == (GameScore { score: 0, bubbles_popped: 0, clusters_popped: 0 }),
                self.powerups.powers@.len() == 0,
                self.bubbles@.len() == ROW_WIDTH * r,
                forall|c: HexCoord| #[trigger]
                    self.grid@.contains_key(c) <==> (0 <= c.r < r && in_full_row(c, c.r as int)),
                forall|c: HexCoord| #[trigger] self.grid@.contains_key(c) ==> {
                    let i = ROW_WIDTH * c.r + c.q - default_bounds().min_q;
                    &&& self.grid@[c] == BubbleId(i as usize)
                    &&& self.bubbles@[i] == (Bubble { color: colors@[i], coord: c })
                },
            decreases INITIAL_ROWS - r,
        {
            let ghost g0 = self.grid@;
            let ghost b0 = self.bubbles@;
            self.fill_row(r, colors, ROW_WIDTH * r as usize);
            proof {
                assert forall|c: HexCoord| #[trigger] self.grid@.contains_key(c) implies {
                    let i = ROW_WIDTH * c.r + c.q - default_bounds().min_q;
                    &&& self.grid@[c] == BubbleId(i as usize)
                    &&& self.bubbles@[i] == (Bubble { color: colors@[i], coord: c })
                } by {
                    let i = ROW_WIDTH * c.r + c.q - default_bounds().min_q;
                    if in_full_row(c, r as int) {
                        let j = c.q - default_bounds().min_q;
                        assert(self.bubbles@[b0.len() + j] == (Bubble {
                            color: colors@[ROW_WIDTH * r + j],
                            coord: coord(default_bounds().min_q + j, r as int),
                        }));
                    } else {
                        assert(g0.contains_key(c));
                        assert(0 <= i < b0.len()) by (nonlinear_arith)
                            requires
                                i == ROW_WIDTH * c.r + c.q - default_bounds().min_q,
                                0 <= c.r < r,
                                -6 <= c.q <= 6,
                                b0.len() == ROW_WIDTH * r,
                                ROW_WIDTH == 13,
                                default_bounds().min_q == -6;
                        assert(self.bubbles@.take(b0.len() as int)[i] == b0[i]);
                    }
                }
            }
            r += 1;
        }
    }

    /// Whether the game is won: the grid is empty after at least one pop.
    pub fn check_win_condition(&self) -> (won: bool)
        requires
            self.wf(),
        ensures
            won == is_won(self.grid@, self.score),
    {
        check_win_condition(&self.grid, &self.score)
    }

    /// Whether some bubble is below the danger line.
    pub fn check_lose_condition(&self) -> (lost: bool)
        requires
            self.wf(),
        ensures
            lost == is_lost(self.grid@, self.grid_offset.y as int),
    {
        check_lose_condition(&self.grid, &self.grid_offset)
    }

    /// One descent with the new row coloured `colors`: the origin moves down a
    /// row, a full row is added above the highest occupied row, and then
    /// either some bubble is below the danger line (game over, the level
    /// stays) or the level advances.
    pub fn descend_with_colors(&mut self, colors: &Vec<BubbleColor>) -> (game_over: bool)
        requires
            old(self).wf(),
            colors@.len() == ROW_WIDTH,
            old(self).grid_offset.y >= i32::MIN + ROW_HEIGHT,
            new_top_row(old(self).grid@) >= -crate::grid::COORD_LIMIT,
            old(self).bubbles@.len() + ROW_WIDTH <= usize::MAX,
            old(self).level.level < u32::MAX,
        ensures
            final(self).wf(),
            final(self).grid_offset.y == old(self).grid_offset.y - ROW_HEIGHT,
            row_added(
                old(self).grid@,
                old(self).bubbles@,
                final(self).grid@,
                final(self).bubbles@,
                new_top_row(old(self).grid@),
                colors@,
                0,
            ),
            game_over == is_lost(final(self).grid@, final(self).grid_offset.y as int),
            game_over ==> final(self).level == old(self).level,
            !game_over ==> final(self).level.level == old(self).level.level + 1
                && final(self).level.shots_this_round == 0 && final(self).level.shots_until_descent
                == shots_per_descent(final(self).level.level as int),
            final(self).score == old(self).score,
            final(self).powerups.powers@ == old(self).powerups.powers@,
    {
        self.grid_offset.descend();
        let top = self.grid.top_row_coords();
        let new_r: i32 = if top.len() == 0 {
            proof {
                assert(!exists|c: HexCoord| in_top_row(self.grid@, c)) by {
                    assert forall|c: HexCoord| !in_top_row(self.grid@, c) by {
                        if in_top_row(self.grid@, c) {
                            assert(self.grid.in_top_row(c));
                            assert(top@.contains(c));
                        }
                    }
                }
            }
            -1
        } else {
            proof {
                assert(top@.contains(top@[0]));
                assert(self.grid.in_top_row(top@[0]));
                assert(in_top_row(self.grid@, top@[0]));
                let c = choose|c: HexCoord| in_top_row(self.grid@, c);
                assert(c.r <= top@[0].r && top@[0].r <= c.r);
            }
            top[0].r - 1
        };
        self.fill_row(new_r, colors, 0);
        let over = self.check_lose_condition();
        if !over {
            self.level.advance_level();
        }
        over
    }

    /// A descent with a random new row; at every `MILESTONE_LEVELS`-th level
    /// reached it also draws the power-ups to offer.
    pub fn handle_descent(&mut self) -> (report: DescentReport)
        requires
            old(self).wf(),
            old(self).grid_offset.y >= i32::MIN + ROW_HEIGHT,
            new_top_row(old(self).grid@) >= -crate::grid::COORD_LIMIT,
            old(self).bubbles@.len() + ROW_WIDTH <= usize::MAX,
            old(self).level.level < u32::MAX,
        ensures
            final(self).wf(),
            final(self).grid_offset.y == old(self).grid_offset.y - ROW_HEIGHT,
            exists|colors: Seq<BubbleColor>|
                colors.len() == ROW_WIDTH && #[trigger] row_added(
                    old(self).grid@,
                    old(self).bubbles@,
                    final(self).grid@,
                    final(self).bubbles@,
                    new_top_row(old(self).grid@),
                    colors,
                    0,
                ),
            report.game_over == is_lost(final(self).grid@, final(self).grid_offset.y as int),
            report.game_over ==> final(self).level == old(self).level && report.offer is None,
            !report.game_over ==> final(self).level.level == old(self).level.level + 1
                && final(self).level.shots_this_round == 0 && final(self).level.shots_until_descent
                == shots_per_descent(final(self).level.level as int),
            report.offer matches Some(o) ==> !report.game_over && o.level == final(self).level.level
                && o.level % MILESTONE_LEVELS == 0 && o.choices@.len() > 0 && (forall|i: int|
                0 <= i < o.choices@.len() ==> crate::powerups::choice_pool(
                    o.level as int,
                    old(self).powerups.powers@,
                ).contains(#[trigger] o.choices@[i])),
            (!report.game_over && final(self).level.level % MILESTONE_LEVELS == 0
                && crate::powerups::choice_pool(
                final(self).level.level as int,
                old(self).powerups.powers@,
            ).len() > 0) ==> report.offer is Some,
            final(self).score == old(self).score,
            final(self).powerups.powers@ == old(self).powerups.powers@,
    {
        let mut colors: Vec<BubbleColor> = Vec::new();
        let mut i: usize = 0;
        while i < ROW_WIDTH
            invariant
                i <= ROW_WIDTH,
                colors@.len() == i,
            decreases ROW_WIDTH - i,
        {
            colors.push(BubbleColor::random());
            i += 1;
        }
        let game_over = self.descend_with_colors(&colors);
        proof {
            assert(colors@.len() == ROW_WIDTH && row_added(
                old(self).grid@,
                old(self).bubbles@,
                self.grid@,
                self.bubbles@,
                new_top_row(old(self).grid@),
                colors@,
                0,
            ));
        }
        if game_over {
            return DescentReport { game_over, offer: None };
        }
        let level = self.level.level;
        if level % MILESTONE_LEVELS == 0 {
            let choices = PowerUp::random_choices(level, &self.powerups.powers);
            if choices.len() > 0 {
                return DescentReport { game_over, offer: Some(PowerUpChoices { choices, level }) };
            }
        }
        DescentReport { game_over, offer: None }
    }

    /// A fire command: fires the loaded colour when the shooter is ready and
    /// no projectile is in flight, counting the shot; otherwise nothing.
    pub fn handle_fire_input(&mut self, shooter: &mut Shooter, projectile_in_flight: bool) -> (fired:
        Option<BubbleColor>)
        ensures
            fired is Some <==> (old(shooter).state == ShooterState::Ready && !projectile_in_flight),
            match fired {
                Some(c) => {
                    &&& c == old(shooter).loaded.0
                    &&& *final(shooter) == (Shooter { state: ShooterState::Reloading, ..*old(shooter) })
                    &&& final(self).level.shots_this_round == (if old(self).level.shots_this_round
                        < u32::MAX {
                        old(self).level.shots_this_round + 1
                    } else {
                        old(self).level.shots_this_round as int
                    })
                },
                None => *final(shooter) == *old(shooter) && final(self).level == old(self).level,
            },
            final(self).level.level == old(self).level.level,
            final(self).level.shots_until_descent == old(self).level.shots_until_descent,
            final(self).grid@ == old(self).grid@,
            final(self).grid.wf() == old(self).grid.wf(),
            final(self).grid.bounds_spec() == old(self).grid.bounds_spec(),
            final(self).bubbles@ == old(self).bubbles@,
            final(self).score == old(self).score,
            final(self).grid_offset == old(self).grid_offset,
            final(self).powerups.powers@ == old(self).powerups.powers@,
    {
        if shooter.state != ShooterState::Ready || projectile_in_flight {
            return None;
        }
        shooter.state = ShooterState::Reloading;
        self.level.record_shot();
        Some(shooter.loaded.0)
    }

    /// Reloads once the projectile has come to rest: the preview colours move
    /// up one place and `new_color` joins at the back. Returns `None` when
    /// there was nothing to reload, else whether a descent is due.
    pub fn reload_with(&self, shooter: &mut Shooter, projectile_in_flight: bool, new_color: BubbleColor) -> (due:
        Option<bool>)
        ensures
            due is Some <==> (old(shooter).state == ShooterState::Reloading && !projectile_in_flight),
            match due {
                Some(d) => {
                    &&& *final(shooter) == (Shooter {
                        state: ShooterState::Ready,
                        loaded: LoadedBubble(old(shooter).next.0),
                        next: NextBubble(old(shooter).second_next.0),
                        second_next: SecondNextBubble(old(shooter).third_next.0),
                        third_next: ThirdNextBubble(new_color),
                    })
                    &&& d == (self.level.shots_this_round >= self.level.shots_until_descent + (if self.powerups.powers@.contains(
                        PowerUp::Procrastisnord,
                    ) {
                        crate::state::PROCRASTINATION_BONUS as int
                    } else {
                        0
                    }))
                },
                None => *final(shooter) == *old(shooter),
            },
    {
        if shooter.state != ShooterState::Reloading || projectile_in_flight {
            return None;
        }
        shooter.loaded = LoadedBubble(shooter.next.0);
        shooter.next = NextBubble(shooter.second_next.0);
        shooter.second_next = SecondNextBubble(shooter.third_next.0);
        shooter.third_next = ThirdNextBubble(new_color);
        shooter.state = ShooterState::Ready;
        let procrastinate = self.powerups.has(PowerUp::Procrastisnord);
        Some(self.level.descent_due(procrastinate))
    }

    /// The colour that joins the back of the shooter's queue: with Lucky
    /// Snord weighted toward the colours on the grid, otherwise uniform.
    pub fn next_preview_color(&self) -> (c: BubbleColor)
        requires
            self.wf(),
    {
        if self.powerups.has(PowerUp::LuckySnord) {
            let grid_colors = self.grid_colors();
            BubbleColor::random_weighted(&grid_colors)
        } else {
            BubbleColor::random()
        }
    }

    /// The colour of every bubble on the grid whose record is in the table.
    fn grid_colors(&self) -> (colors: Vec<BubbleColor>)
        requires
            self.wf(),
    {
        let n = self.grid.cell_count();
        let mut colors: Vec<BubbleColor> = Vec::new();
        let mut i: usize = 0;
        while i < n
            invariant
                n == self.grid.cell_seq().len(),
                i <= n,
            decreases n - i,
        {
            let (_, id) = self.grid.cell(i);
            if id.0 < self.bubbles.len() {
                colors.push(self.bubbles[id.0].color);
            }
            i += 1;
        }
        colors
    }

    /// Starts a game with rows 0 to 4 filled with random colours.
    pub fn start(&mut self)
        requires
            old(self).wf(),
        ensures
            final(self).wf(),
            final(self).grid_offset.y == crate::hex::GRID_ORIGIN_Y,
            final(self).level.level == 1,
            final(self).level.shots_this_round == 0,
            final(self).level.shots_until_descent == crate::state::START_SHOTS_PER_DESCENT,
            final(self).score == (GameScore { score: 0, bubbles_popped: 0, clusters_popped: 0 }),
            final(self).powerups.powers@.len() == 0,
            final(self).bubbles@.len() == ROW_WIDTH * (INITIAL_ROWS as int),
            forall|c: HexCoord| #[trigger]
                final(self).grid@.contains_key(c) <==> (0 <= c.r < INITIAL_ROWS && in_full_row(c, c.r as int)),
    {
        let total = ROW_WIDTH * INITIAL_ROWS as usize;
        let mut colors: Vec<BubbleColor> = Vec::new();
        let mut i: usize = 0;
        while i < total
            invariant
                total == ROW_WIDTH * (INITIAL_ROWS as int),
                i <= total,
                colors@.len() == i,
            decreases total - i,
        {
            colors.push(BubbleColor::random());
            i += 1;
        }
        self.start_with_colors(&colors);
    }

    /// A ready shooter loaded with four random colours.
    pub fn spawn_shooter(&self) -> (s: Shooter)
        ensures
            s.state == ShooterState::Ready,
    {
        Shooter::new(
            [BubbleColor::random(), BubbleColor::random(), BubbleColor::random(), BubbleColor::random()],
        )
    }
}

} // verus!
