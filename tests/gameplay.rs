use snord::bubble::{Bubble, BubbleColor};
use snord::cluster::{
    contains_coord, detect_clusters, detect_floating_bubbles, find_anchored_bubbles, find_cluster,
    BubbleLanded,
};
use snord::game::{
    Game, LandingOutcome, LoadedBubble, NextBubble, SecondNextBubble, Shooter, ShooterState,
    ThirdNextBubble, INITIAL_ROWS, ROW_WIDTH,
};
use snord::grid::{BubbleId, GridBounds, HexGrid};
use snord::hex::HexCoord;
use snord::powerups::PowerUp;
use snord::state::{check_lose_condition, GameLevel, GameScore, GridOffset};

fn c(q: i32, r: i32) -> HexCoord {
    HexCoord::new(q, r)
}

fn place(game: &mut Game, q: i32, r: i32, color: BubbleColor) {
    game.land_projectile(c(q, r), color);
}

fn sorted(mut v: Vec<HexCoord>) -> Vec<(i32, i32)> {
    let mut out: Vec<(i32, i32)> = v.drain(..).map(|h| (h.q, h.r)).collect();
    out.sort();
    out
}

#[test]
fn grid_insert_get_remove() {
    let mut g = HexGrid::new();
    assert!(g.is_empty());
    assert_eq!(g.insert(c(1, 1), BubbleId(7)), None);
    assert_eq!(g.insert(c(1, 1), BubbleId(8)), Some(BubbleId(7)));
    assert_eq!(g.get(c(1, 1)), Some(BubbleId(8)));
    assert!(g.is_occupied(c(1, 1)));
    assert_eq!(g.len(), 1);
    assert_eq!(g.remove(c(1, 1)), Some(BubbleId(8)));
    assert_eq!(g.remove(c(1, 1)), None);
    assert!(g.is_empty());
}

#[test]
fn grid_rows_and_coords() {
    let mut g = HexGrid::new();
    assert_eq!(g.lowest_row(), None);
    assert!(g.top_row_coords().is_empty());
    g.insert(c(0, 2), BubbleId(0));
    g.insert(c(1, -1), BubbleId(1));
    g.insert(c(3, -1), BubbleId(2));
    g.insert(c(2, 5), BubbleId(3));
    assert_eq!(g.lowest_row(), Some(5));
    assert_eq!(sorted(g.top_row_coords()), vec![(1, -1), (3, -1)]);
    assert_eq!(sorted(g.coords()), vec![(0, 2), (1, -1), (2, 5), (3, -1)]);
    assert_eq!(g.iter().len(), 4);
    g.clear();
    assert!(g.is_empty());
}

#[test]
fn bounds_default_and_iter() {
    let b = GridBounds::default();
    assert_eq!((b.min_q, b.max_q, b.min_r, b.max_r), (-6, 6, 0, 13));
    assert!(b.contains(c(-6, 0)));
    assert!(!b.contains(c(7, 0)));
    assert!(!b.contains(c(0, -1)));
    assert_eq!(b.columns_in_row(3), 13);
    assert_eq!(b.iter().len(), 13 * 14);
}

#[test]
fn empty_neighbors_filters_bounds_and_occupied() {
    let mut g = HexGrid::new();
    g.insert(c(1, 0), BubbleId(0));
    let e = g.empty_neighbors(c(0, 0));
    // (1,0) occupied, (0,-1) and (-1,-1) outside the bounds.
    assert_eq!(sorted(e), vec![(-1, 0), (-1, 1), (0, 1)]);
}

#[test]
fn cluster_excludes_adjacent_other_color() {
    let mut game = Game::new();
    place(&mut game, 0, 0, BubbleColor::Red);
    place(&mut game, 1, 0, BubbleColor::Red);
    place(&mut game, 2, 0, BubbleColor::Red);
    place(&mut game, 0, 1, BubbleColor::Blue);
    place(&mut game, 3, 0, BubbleColor::Green);
    let cluster = find_cluster(&game.grid, &game.bubbles, c(0, 0), BubbleColor::Red);
    assert_eq!(sorted(cluster), vec![(0, 0), (1, 0), (2, 0)]);
}

#[test]
fn cluster_start_always_included() {
    let game = Game::new();
    let cluster = find_cluster(&game.grid, &game.bubbles, c(4, 4), BubbleColor::Blue);
    assert_eq!(sorted(cluster), vec![(4, 4)]);
}

#[test]
fn cluster_follows_odd_row_parity() {
    let mut game = Game::new();
    // (1,1) is on an odd row: its upper neighbours are (1,0) and (2,0).
    place(&mut game, 1, 1, BubbleColor::Yellow);
    place(&mut game, 2, 0, BubbleColor::Yellow);
    place(&mut game, 0, 0, BubbleColor::Yellow);
    let cluster = find_cluster(&game.grid, &game.bubbles, c(1, 1), BubbleColor::Yellow);
    assert_eq!(sorted(cluster), vec![(1, 1), (2, 0)]);
}

#[test]
fn cluster_skips_missing_bubble_records() {
    let mut game = Game::new();
    place(&mut game, 0, 0, BubbleColor::Red);
    game.grid.insert(c(1, 0), BubbleId(99));
    let cluster = find_cluster(&game.grid, &game.bubbles, c(0, 0), BubbleColor::Red);
    assert_eq!(sorted(cluster), vec![(0, 0)]);
}

#[test]
fn pop_cluster_of_three_removes_exactly_it() {
    let mut game = Game::new();
    place(&mut game, 0, 0, BubbleColor::Red);
    place(&mut game, 1, 0, BubbleColor::Red);
    place(&mut game, 4, 0, BubbleColor::Green);
    let landed = game.land_projectile(c(2, 0), BubbleColor::Red);
    let ev = detect_clusters(&mut game.grid, &game.bubbles, landed).expect("pop");
    assert_eq!(ev.count, 3);
    assert_eq!(ev.color, BubbleColor::Red);
    assert_eq!(sorted(ev.coords), vec![(0, 0), (1, 0), (2, 0)]);
    assert_eq!(sorted(game.grid.coords()), vec![(4, 0)]);
}

#[test]
fn pair_does_not_pop() {
    let mut game = Game::new();
    place(&mut game, 0, 0, BubbleColor::Red);
    let landed = game.land_projectile(c(1, 0), BubbleColor::Red);
    assert!(detect_clusters(&mut game.grid, &game.bubbles, landed).is_none());
    assert_eq!(game.grid.len(), 2);
}

fn branch_game() -> (Game, BubbleLanded) {
    let mut game = Game::new();
    place(&mut game, 0, 0, BubbleColor::Green);
    place(&mut game, 1, 0, BubbleColor::Red);
    place(&mut game, 2, 0, BubbleColor::Red);
    place(&mut game, 1, 1, BubbleColor::Blue);
    place(&mut game, 1, 2, BubbleColor::Yellow);
    let landed = game.land_projectile(c(3, 0), BubbleColor::Red);
    (game, landed)
}

#[test]
fn floating_branch_removed_after_pop() {
    let (mut game, landed) = branch_game();
    let ev = detect_clusters(&mut game.grid, &game.bubbles, landed).expect("pop");
    assert_eq!(ev.count, 3);
    let anchored = find_anchored_bubbles(&game.grid);
    assert_eq!(sorted(anchored), vec![(0, 0)]);
    let f = detect_floating_bubbles(&mut game.grid).expect("floating");
    assert_eq!(f.count, 2);
    assert_eq!(sorted(f.coords), vec![(1, 1), (1, 2)]);
    assert_eq!(sorted(game.grid.coords()), vec![(0, 0)]);
}

#[test]
fn floating_none_when_all_anchored() {
    let mut game = Game::new();
    place(&mut game, 0, 0, BubbleColor::Green);
    place(&mut game, 0, 1, BubbleColor::Blue);
    assert!(detect_floating_bubbles(&mut game.grid).is_none());
    assert_eq!(game.grid.len(), 2);
}

#[test]
fn settle_scores_pop_and_floating() {
    let (mut game, landed) = branch_game();
    let report = game.settle_landing(landed);
    assert_eq!(report.popped.expect("pop").count, 3);
    assert_eq!(report.floating.expect("floating").count, 2);
    assert_eq!(game.score.score, 30 + 40);
    assert_eq!(game.score.bubbles_popped, 5);
    assert_eq!(game.score.clusters_popped, 1);
}

#[test]
fn closest_empty_cell_target_free() {
    let g = HexGrid::new();
    assert_eq!(g.closest_empty_cell(c(3, 4)), Some(c(3, 4)));
}

#[test]
fn closest_empty_cell_skips_occupied() {
    let mut g = HexGrid::new();
    g.insert(c(0, 0), BubbleId(0));
    let found = g.closest_empty_cell(c(0, 0)).expect("cell");
    assert!(!g.is_occupied(found));
    assert!(c(0, 0).neighbors().contains(&found));
}

#[test]
fn closest_empty_cell_allows_cells_touching_bubbles_above_bounds() {
    let mut g = HexGrid::new();
    g.insert(c(0, -3), BubbleId(0));
    // (0,-4) is outside the bounds but touches (0,-3).
    assert_eq!(g.closest_empty_cell(c(0, -4)), Some(c(0, -4)));
}

#[test]
fn closest_empty_cell_saturated_gives_none() {
    let mut g = HexGrid::new();
    let mut id = 0;
    for q in -22..=22 {
        for r in -22..=22 {
            g.insert(c(q, r), BubbleId(id));
            id += 1;
        }
    }
    assert_eq!(g.closest_empty_cell(c(0, 0)), None);
}

#[test]
fn score_cluster_of_four() {
    let mut s = GameScore::new();
    s.add_cluster(4, false);
    assert_eq!(s.score, 40);
    let mut t = GameScore::new();
    t.add_cluster(4, true);
    assert_eq!(t.score, 60);
    let mut u = GameScore::new();
    u.add_cluster(3, true);
    assert_eq!(u.score, 30);
}

#[test]
fn score_floating_and_counters() {
    let mut s = GameScore::new();
    s.add_floating(3);
    assert_eq!((s.score, s.bubbles_popped, s.clusters_popped), (60, 3, 0));
    s.add_cluster(5, false);
    assert_eq!((s.score, s.bubbles_popped, s.clusters_popped), (110, 8, 1));
    s.reset();
    assert_eq!((s.score, s.bubbles_popped, s.clusters_popped), (0, 0, 0));
}

#[test]
fn score_caps_at_max() {
    let mut s = GameScore { score: u32::MAX - 5, bubbles_popped: 0, clusters_popped: 0 };
    s.add_cluster(3, false);
    assert_eq!(s.score, u32::MAX);
}

#[test]
fn win_needs_a_pop() {
    let game = Game::new();
    assert!(!game.check_win_condition());
    let mut game = Game::new();
    place(&mut game, 0, 0, BubbleColor::Red);
    place(&mut game, 1, 0, BubbleColor::Red);
    let landed = game.land_projectile(c(2, 0), BubbleColor::Red);
    assert!(!game.check_win_condition());
    let report = game.settle_landing(landed);
    assert!(report.popped.is_some());
    assert!(game.grid.is_empty());
    assert!(game.check_win_condition());
}

#[test]
fn loss_below_danger_line() {
    let mut g = HexGrid::new();
    let offset = GridOffset::new();
    g.insert(c(0, 14), BubbleId(0));
    assert!(!check_lose_condition(&g, &offset));
    g.insert(c(0, 15), BubbleId(1));
    assert!(check_lose_condition(&g, &offset));
}

#[test]
fn descent_pushes_row_into_danger() {
    let mut game = Game::new();
    place(&mut game, 0, 14, BubbleColor::Blue);
    assert!(!game.check_lose_condition());
    let colors = vec![BubbleColor::Red; ROW_WIDTH];
    let over = game.descend_with_colors(&colors);
    assert!(over);
    assert_eq!(game.grid_offset.y, 220);
    assert_eq!(game.level.level, 1);
    assert!(game.grid.is_occupied(c(-6, 13)));
    assert!(game.grid.is_occupied(c(6, 13)));
}

#[test]
fn descent_adds_row_above_and_advances() {
    let mut game = Game::new();
    place(&mut game, 0, 0, BubbleColor::Blue);
    let colors = vec![BubbleColor::Green; ROW_WIDTH];
    let over = game.descend_with_colors(&colors);
    assert!(!over);
    assert_eq!(game.level.level, 2);
    assert_eq!(game.level.shots_this_round, 0);
    assert_eq!(game.grid.len(), 1 + ROW_WIDTH);
    assert_eq!(sorted(game.grid.top_row_coords()).len(), ROW_WIDTH);
    assert_eq!(game.grid.top_row_coords()[0].r, -1);
    let id = game.grid.get(c(-6, -1)).expect("new cell");
    assert_eq!(game.bubbles[id.0], Bubble { color: BubbleColor::Green, coord: c(-6, -1) });
}

#[test]
fn level_ramp() {
    let mut l = GameLevel::new();
    assert_eq!(l.shots_remaining(), 8);
    l.shots_this_round = 10;
    assert_eq!(l.shots_remaining(), 0);
    assert!(l.descent_due(false));
    assert!(l.descent_due(true));
    l.shots_this_round = 9;
    assert!(!l.descent_due(true));
    for _ in 0..9 {
        l.advance_level();
    }
    assert_eq!(l.level, 10);
    assert_eq!(l.shots_until_descent, 7);
    for _ in 0..30 {
        l.advance_level();
    }
    assert_eq!(l.shots_until_descent, 5);
    l.reset();
    assert_eq!((l.level, l.shots_until_descent, l.shots_this_round), (1, 8, 0));
}

#[test]
fn fire_and_reload_cycle() {
    let mut game = Game::new();
    let mut shooter = Shooter::new([
        BubbleColor::Red,
        BubbleColor::Blue,
        BubbleColor::Green,
        BubbleColor::Yellow,
    ]);
    assert_eq!(game.handle_fire_input(&mut shooter, true), None);
    assert_eq!(game.handle_fire_input(&mut shooter, false), Some(BubbleColor::Red));
    assert_eq!(shooter.state, ShooterState::Reloading);
    assert_eq!(game.level.shots_this_round, 1);
    assert_eq!(game.handle_fire_input(&mut shooter, false), None);
    assert_eq!(game.reload_with(&mut shooter, true, BubbleColor::Purple), None);
    assert_eq!(game.reload_with(&mut shooter, false, BubbleColor::Purple), Some(false));
    assert_eq!(shooter.state, ShooterState::Ready);
    assert_eq!(shooter.loaded, LoadedBubble(BubbleColor::Blue));
    assert_eq!(shooter.next, NextBubble(BubbleColor::Green));
    assert_eq!(shooter.second_next, SecondNextBubble(BubbleColor::Yellow));
    assert_eq!(shooter.third_next, ThirdNextBubble(BubbleColor::Purple));
}

#[test]
fn landing_in_danger_zone() {
    let mut game = Game::new();
    // Row 13 sits at pixel y -140, below the landing danger line at -130.
    assert_eq!(game.resolve_top_wall(c(0, 13), BubbleColor::Red), LandingOutcome::DangerZone);
    assert!(game.grid.is_empty());
    assert_eq!(game.resolve_contact(c(0, 2), BubbleColor::Red, true), LandingOutcome::DangerZone);
    assert!(game.grid.is_empty());
    match game.resolve_top_wall(c(0, 2), BubbleColor::Red) {
        LandingOutcome::Landed(ev) => {
            assert_eq!(ev.coord, c(0, 2));
            assert_eq!(ev.color, BubbleColor::Red);
        }
        other => panic!("unexpected {:?}", other),
    }
    assert_eq!(game.commit_landing(None, BubbleColor::Red, true), LandingOutcome::Discarded);
}

#[test]
fn start_fills_five_rows() {
    let mut game = Game::new();
    let colors = vec![BubbleColor::Orange; ROW_WIDTH * INITIAL_ROWS as usize];
    game.start_with_colors(&colors);
    assert_eq!(game.grid.len(), 65);
    assert!(game.grid.is_occupied(c(-6, 0)));
    assert!(game.grid.is_occupied(c(6, 4)));
    assert!(!game.grid.is_occupied(c(0, 5)));
    assert_eq!(game.bubbles.len(), 65);
}

#[test]
fn end_to_end_first_pop() {
    let palette = [
        BubbleColor::Blue,
        BubbleColor::Green,
        BubbleColor::Yellow,
        BubbleColor::Purple,
        BubbleColor::Orange,
    ];
    let mut colors = Vec::new();
    for r in 0..INITIAL_ROWS {
        for q in -6..=6 {
            let color = if r == 4 && (q == 0 || q == 1) {
                BubbleColor::Red
            } else {
                palette[((q + 6 + 2 * r) % 5) as usize]
            };
            colors.push(color);
        }
    }
    let mut game = Game::new();
    game.start_with_colors(&colors);
    let before = game.score.score;
    let out = game.resolve_contact(c(0, 5), BubbleColor::Red, false);
    let landed = match out {
        LandingOutcome::Landed(ev) => ev,
        other => panic!("unexpected {:?}", other),
    };
    assert_eq!(landed.coord, c(0, 5));
    let report = game.settle_landing(landed);
    let popped = report.popped.expect("pop");
    assert_eq!(popped.count, 3);
    assert_eq!(sorted(popped.coords), vec![(0, 4), (0, 5), (1, 4)]);
    assert_eq!(game.score.score - before, 30);
    assert!(report.floating.is_none());
    assert_eq!(game.grid.len(), 63);
    assert!(!game.check_win_condition());
    assert!(!game.check_lose_condition());
}

#[test]
fn contains_coord_lookup() {
    let v = vec![c(1, 2), c(3, 4)];
    assert!(contains_coord(&v, c(3, 4)));
    assert!(!contains_coord(&v, c(4, 3)));
}

#[test]
fn grid_colors_weighting_outcome() {
    let colors = vec![BubbleColor::Green, BubbleColor::Purple];
    assert_eq!(
        BubbleColor::weighted_choice(&colors, true, 1, BubbleColor::Red),
        BubbleColor::Purple
    );
    assert_eq!(
        BubbleColor::weighted_choice(&colors, false, 1, BubbleColor::Red),
        BubbleColor::Red
    );
    let empty: Vec<BubbleColor> = Vec::new();
    assert_eq!(
        BubbleColor::weighted_choice(&empty, true, 0, BubbleColor::Blue),
        BubbleColor::Blue
    );
    for _ in 0..20 {
        let _ = BubbleColor::random_weighted(&colors);
        let _ = BubbleColor::random();
    }
    assert_eq!(BubbleColor::from_index(3), BubbleColor::Yellow);
    assert_eq!(BubbleColor::from_index(9), BubbleColor::Orange);
}

#[test]
fn lucky_preview_color_comes_from_grid() {
    let mut game = Game::new();
    place(&mut game, 0, 0, BubbleColor::Purple);
    game.powerups.add(PowerUp::LuckySnord);
    let _ = game.next_preview_color();
}

#[test]
fn random_colors_vary() {
    let mut seen = Vec::new();
    for _ in 0..300 {
        let color = BubbleColor::random();
        if !seen.contains(&color) {
            seen.push(color);
        }
    }
    assert!(seen.len() > 1);
}

#[test]
fn cluster_lists_start_first() {
    let mut game = Game::new();
    place(&mut game, 0, 0, BubbleColor::Red);
    place(&mut game, 1, 0, BubbleColor::Red);
    let cluster = find_cluster(&game.grid, &game.bubbles, c(1, 0), BubbleColor::Red);
    assert_eq!(cluster[0], c(1, 0));
    assert_eq!(cluster.len(), 2);
}

#[test]
fn descent_at_milestone_offers_power_ups() {
    let mut game = Game::new();
    place(&mut game, 0, 0, BubbleColor::Blue);
    game.level.level = 4;
    let report = game.handle_descent();
    assert!(!report.game_over);
    assert_eq!(game.level.level, 5);
    assert_eq!(game.level.shots_this_round, 0);
    assert_eq!(game.level.shots_until_descent, 8);
    let offer = report.offer.expect("offer");
    assert_eq!(offer.level, 5);
    assert_eq!(offer.choices.len(), 3);
    assert_eq!(game.grid.get(c(0, 0)), Some(BubbleId(0)));
    assert_eq!(game.grid.len(), 1 + ROW_WIDTH);
}

#[test]
fn descent_game_over_offers_nothing() {
    let mut game = Game::new();
    place(&mut game, 0, 14, BubbleColor::Blue);
    game.level.level = 4;
    let report = game.handle_descent();
    assert!(report.game_over);
    assert!(report.offer.is_none());
    assert_eq!(game.level.level, 4);
}
