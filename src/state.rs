//! Level progression, score, and the win and loss conditions.

use vstd::prelude::*;

use crate::grid::{BubbleId, HexGrid};
use crate::hex::{HexCoord, GRID_ORIGIN_Y, ROW_HEIGHT};

verus! {

/// Pixel y of the shooter.
pub const SHOOTER_Y: i32 = -210;

/// A bubble whose centre is below this pixel y ends the game.
pub const DANGER_LINE_Y: i32 = SHOOTER_Y + 40;

/// Shots between descents at the start of a game.
pub const START_SHOTS_PER_DESCENT: u32 = 8;

/// Fewest shots between descents, however high the level.
pub const MIN_SHOTS_PER_DESCENT: u32 = 5;

/// Points for each bubble of a popped cluster.
pub const POINTS_PER_BUBBLE: u32 = 10;

/// Multiplier on the points for each floating bubble.
pub const FLOATING_BONUS_MULTIPLIER: u32 = 2;

/// Extra shots before a descent with the Procrastisnord power-up.
pub const PROCRASTINATION_BONUS: u32 = 2;

/// Vertical pixel origin of row 0; it moves down one row per descent.
#[derive(Debug, Clone, Copy, PartialEq, Eq, Structural)]
pub struct GridOffset {
    pub y: i32,
}

impl GridOffset {
    /// The origin at the start of a game.
    pub fn new() -> (o: GridOffset)
        ensures
            o.y == GRID_ORIGIN_Y,
    {
        GridOffset { y: GRID_ORIGIN_Y }
    }

    /// Puts the origin back where a game starts.
    pub fn reset(&mut self)
        ensures
            final(self).y == GRID_ORIGIN_Y,
    {
        self.y = GRID_ORIGIN_Y;
    }

    /// Moves the origin down by one row.
    pub fn descend(&mut self)
        requires
            old(self).y >= i32::MIN + ROW_HEIGHT,
        ensures
            final(self).y == old(self).y - ROW_HEIGHT,
    {
        self.y = self.y - ROW_HEIGHT;
    }
}

/// Shots between descents once `level` is reached: one fewer every ten
/// levels, never below `MIN_SHOTS_PER_DESCENT`.
pub open spec fn shots_per_descent(level: int) -> int {
    let ramp = START_SHOTS_PER_DESCENT - level / 10;
    if ramp < MIN_SHOTS_PER_DESCENT {
        MIN_SHOTS_PER_DESCENT as int
    } else {
        ramp
    }
}

/// Level number and descent timing.
#[derive(Debug, Clone, Copy, PartialEq, Eq, Structural)]
pub struct GameLevel {
    pub level: u32,
    pub shots_until_descent: u32,
    pub shots_this_round: u32,
}

impl GameLevel {
    /// Level 1, eight shots per descent, none fired.
    pub fn new() -> (l: GameLevel)
        ensures
            l.level == 1,
            l.shots_until_descent == START_SHOTS_PER_DESCENT,
            l.shots_this_round == 0,
    {
        GameLevel { level: 1, shots_until_descent: START_SHOTS_PER_DESCENT, shots_this_round: 0 }
    }

    /// Back to level 1.
    pub fn reset(&mut self)
        ensures
            final(self).level == 1,
            final(self).shots_until_descent == START_SHOTS_PER_DESCENT,
            final(self).shots_this_round == 0,
    {
        self.level = 1;
        self.shots_until_descent = START_SHOTS_PER_DESCENT;
        self.shots_this_round = 0;
    }

    /// The next level after a descent: the shot count restarts and the shots
    /// per descent follow the ramp.
    pub fn advance_level(&mut self)
        requires
            old(self).level < u32::MAX,
        ensures
            final(self).level == old(self).level + 1,
            final(self).shots_this_round == 0,
            final(self).shots_until_descent == shots_per_descent(final(self).level as int),
    {
        self.level = self.level + 1;
        self.shots_this_round = 0;
        let step = self.level / 10;
        let ramp = if step >= START_SHOTS_PER_DESCENT {
            0
        } else {
            START_SHOTS_PER_DESCENT - step
        };
        self.shots_until_descent = if ramp < MIN_SHOTS_PER_DESCENT {
            MIN_SHOTS_PER_DESCENT
        } else {
            ramp
        };
    }

    /// Shots left before the next descent, never negative.
    pub fn shots_remaining(&self) -> (n: u32)
        ensures
            n == (if self.shots_this_round <= self.shots_until_descent {
                self.shots_until_descent - self.shots_this_round
            } else {
                0
            }),
    {
        if self.shots_this_round <= self.shots_until_descent {
            self.shots_until_descent - self.shots_this_round
        } else {
            0
        }
    }

    /// Counts one more shot fired (the count stops at its largest value).
    pub fn record_shot(&mut self)
        ensures
            final(self).level == old(self).level,
            final(self).shots_until_descent == old(self).shots_until_descent,
            final(self).shots_this_round == (if old(self).shots_this_round < u32::MAX {
                old(self).shots_this_round + 1
            } else {
                old(self).shots_this_round as int
            }),
    {
        if self.shots_this_round < u32::MAX {
            self.shots_this_round = self.shots_this_round + 1;
        }
    }

    /// Whether enough shots have been fired for a descent; `procrastinate`
    /// adds `PROCRASTINATION_BONUS` shots to the threshold.
    pub fn descent_due(&self, procrastinate: bool) -> (due: bool)
        ensures
            due == (self.shots_this_round >= self.shots_until_descent + (if procrastinate {
                PROCRASTINATION_BONUS as int
            } else {
                0
            })),
    {
        let threshold: u64 = if procrastinate {
            self.shots_until_descent as u64 + PROCRASTINATION_BONUS as u64
        } else {
            self.shots_until_descent as u64
        };
        self.shots_this_round as u64 >= threshold
    }
}

/// Points for popping a cluster of `count` bubbles: ten each, plus half
/// again for clusters larger than three when the combo bonus applies.
pub open spec fn cluster_points(count: int, combo: bool) -> int {
    let base = count * POINTS_PER_BUBBLE;
    if combo && count > 3 {
        base + base / 2
    } else {
        base
    }
}

/// Points for `count` floating bubbles.
pub open spec fn floating_points(count: int) -> int {
    count * POINTS_PER_BUBBLE * FLOATING_BONUS_MULTIPLIER
}

/// `x + y`, or `u32::MAX` when that does not fit.
pub open spec fn capped_add(x: int, y: int) -> int {
    if x + y > u32::MAX {
        u32::MAX as int
    } else {
        x + y
    }
}

/// Score and counters of the run; they only grow.
#[derive(Debug, Clone, Copy, PartialEq, Eq, Structural)]
pub struct GameScore {
    pub score: u32,
    pub bubbles_popped: u32,
    pub clusters_popped: u32,
}

fn add_capped(x: u32, y: u128) -> (r: u32)
    ensures
        r == capped_add(x as int, y as int),
{
    if y > (u32::MAX - x) as u128 {
        u32::MAX
    } else {
        x + y as u32
    }
}

impl GameScore {
    /// All zero.
    pub fn new() -> (s: GameScore)
        ensures
            s.score == 0,
            s.bubbles_popped == 0,
            s.clusters_popped == 0,
    {
        GameScore { score: 0, bubbles_popped: 0, clusters_popped: 0 }
    }

    /// Back to zero.
    pub fn reset(&mut self)
        ensures
            final(self).score == 0,
            final(self).bubbles_popped == 0,
            final(self).clusters_popped == 0,
    {
        self.score = 0;
        self.bubbles_popped = 0;
        self.clusters_popped = 0;
    }

    /// Scores a popped cluster of `count` bubbles; each counter stops at `u32::MAX`.
    pub fn add_cluster(&mut self, count: usize, combo: bool)
        ensures
            final(self).score == capped_add(old(self).score as int, cluster_points(count as int, combo)),
            final(self).bubbles_popped == capped_add(old(self).bubbles_popped as int, count as int),
            final(self).clusters_popped == capped_add(old(self).clusters_popped as int, 1),
    {
        let base: u128 = count as u128 * 10;
        assert(base <= 10 * usize::MAX);
        let points: u128 = if combo && count > 3 {
            base + base / 2
        } else {
            base
        };
        self.score = add_capped(self.score, points);
        self.bubbles_popped = add_capped(self.bubbles_popped, count as u128);
        self.clusters_popped = add_capped(self.clusters_popped, 1);
    }

    /// Scores `count` floating bubbles; each counter stops at `u32::MAX`.
    pub fn add_floating(&mut self, count: usize)
        ensures
            final(self).score == capped_add(old(self).score as int, floating_points(count as int)),
            final(self).bubbles_popped == capped_add(old(self).bubbles_popped as int, count as int),
            final(self).clusters_popped == old(self).clusters_popped,
    {
        let points: u128 = count as u128 * 20;
        assert(points == floating_points(count as int));
        self.score = add_capped(self.score, points);
        self.bubbles_popped = add_capped(self.bubbles_popped, count as u128);
    }
}

/// The game is won: the grid is empty after at least one popped cluster.
pub open spec fn is_won(g: Map<HexCoord, BubbleId>, score: GameScore) -> bool {
    score.clusters_popped > 0 && g == Map::<HexCoord, BubbleId>::empty()
}

/// The game is lost: some bubble's centre is below the danger line when row
/// 0 is drawn at `origin_y`.
pub open spec fn is_lost(g: Map<HexCoord, BubbleId>, origin_y: int) -> bool {
    exists|c: HexCoord| #[trigger] g.contains_key(c) && c.pixel_y_spec(origin_y) < DANGER_LINE_Y
}

/// Whether the game is won.
pub fn check_win_condition(grid: &HexGrid, score: &GameScore) -> (won: bool)
    requires
        grid.wf(),
    ensures
        won == is_won(grid@, *score),
{
    score.clusters_popped > 0 && grid.is_empty()
}

/// Whether some bubble sits below the danger line.
pub fn check_lose_condition(grid: &HexGrid, offset: &GridOffset) -> (lost: bool)
    requires
        grid.wf(),
    ensures
        lost == is_lost(grid@, offset.y as int),
{
    let n = grid.cell_count();
    let mut i: usize = 0;
    while i < n
        invariant
            grid.wf(),
            n == grid.cell_seq().len(),
            i <= n,
            forall|j: int| 0 <= j < i ==> (#[trigger] grid.cell_seq()[j]).0.pixel_y_spec(offset.y as int)
                >= DANGER_LINE_Y,
        decreases n - i,
    {
        let (c, _) = grid.cell(i);
        if c.pixel_y(offset.y) < DANGER_LINE_Y as i64 {
            proof {
                assert(grid@.contains_key(grid.cell_seq()[i as int].0));
            }
            return true;
        }
        i += 1;
    }
    proof {
        assert forall|c: HexCoord| #[trigger] grid@.contains_key(c) implies c.pixel_y_spec(offset.y as int)
            >= DANGER_LINE_Y by {
            let j = choose|j: int| 0 <= j < grid.cell_seq().len() && grid.cell_seq()[j].0 == c;
            assert(grid.cell_seq()[j].0.pixel_y_spec(offset.y as int) >= DANGER_LINE_Y);
        }
    }
    false
}

/// A game whose score has no popped cluster yet is not won, whatever the grid
/// holds; in particular an empty grid at the start of a game is no win.
pub proof fn lemma_no_win_before_first_pop(g: Map<HexCoord, BubbleId>, score: GameScore)
    requires
        score.clusters_popped == 0,
    ensures
        !is_won(g, score),
{
}

/// After a pop, an empty grid is a win.
pub proof fn lemma_win_after_pop(g: Map<HexCoord, BubbleId>, score: GameScore)
    requires
        score.clusters_popped > 0,
        g == Map::<HexCoord, BubbleId>::empty(),
    ensures
        is_won(g, score),
{
}

} // verus!
