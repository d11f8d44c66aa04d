use ndlife::life::{Life, LiveSet, StandardRule, State};
use ndlife::point::Point;

fn p2(a: i32, b: i32) -> Point {
    Point { x: vec![a, b] }
}

fn pd(coords: &[i32]) -> Point {
    Point { x: coords.to_vec() }
}

fn alive(game: &Life<StandardRule>, a: i32, b: i32) -> bool {
    matches!(game.get(&p2(a, b)), State::Alive)
}

fn single_cell_game(dim: usize, coords: &[i32]) -> Life<StandardRule> {
    let mut cells = LiveSet::empty(dim);
    cells.insert(pd(coords));
    Life::new(cells, StandardRule)
}

fn gun_plate() -> Vec<&'static str> {
    vec![
        "........................#...........",
        "......................#.#...........",
        "............##......##............##",
        "...........#...#....##............##",
        "##........#.....#...##..............",
        "##........#...#.##....#.#...........",
        "..........#.....#.......#...........",
        "...........#...#....................",
        "............##......................",
    ]
}

#[test]
fn neighbor_counts_match_dimension() {
    for (dim, expected) in [(1usize, 2usize), (2, 8), (3, 26), (4, 80)] {
        let p = Point { x: vec![0; dim] };
        let nbrs = p.neighbors();
        assert_eq!(nbrs.len(), expected);
        for n in &nbrs {
            assert!(*n != p);
        }
        for i in 0..nbrs.len() {
            for j in (i + 1)..nbrs.len() {
                assert!(nbrs[i] != nbrs[j]);
            }
        }
    }
}

#[test]
fn neighbors_with_self_counts_match_dimension() {
    for (dim, expected) in [(1usize, 3usize), (2, 9), (3, 27)] {
        let p = Point { x: vec![1; dim] };
        let nbrs = p.neighbors_with_self();
        assert_eq!(nbrs.len(), expected);
        let selves = nbrs.iter().filter(|n| **n == p).count();
        assert_eq!(selves, 1);
        for i in 0..nbrs.len() {
            for j in (i + 1)..nbrs.len() {
                assert!(nbrs[i] != nbrs[j]);
            }
        }
    }
}

#[test]
fn neighbors_2d_exact() {
    let p = p2(3, -2);
    let nbrs = p.neighbors();
    assert_eq!(nbrs.len(), 8);
    for da in -1..=1 {
        for db in -1..=1 {
            if da == 0 && db == 0 {
                continue;
            }
            let q = p2(3 + da, -2 + db);
            assert!(nbrs.iter().any(|n| *n == q));
        }
    }
}

#[test]
fn point_add_is_axis_wise() {
    let p = p2(3, -2).add(&p2(-1, 5));
    assert_eq!(p.x, vec![2, 3]);
}

#[test]
fn from_duple_embeds_two_axes() {
    let p = Point::from_duple(4, 7, -9);
    assert_eq!(p.x, vec![7, -9, 0, 0]);
}

#[test]
fn extinction_is_absorbing() {
    let game: Life<StandardRule> = Life::new(LiveSet::empty(2), StandardRule);
    let g1 = game.next();
    assert_eq!(g1.active_cells(), 0);
    let g2 = g1.next();
    assert_eq!(g2.active_cells(), 0);
}

#[test]
fn advance_is_deterministic() {
    let plate = gun_plate();
    let game = Life::from_plate_default_rules(2, &plate);
    let a = game.next().next().next();
    let b = game.next().next().next();
    assert_eq!(a.active_cells(), b.active_cells());
    for row in -5..20 {
        for col in -5..45 {
            assert_eq!(alive(&a, row, col), alive(&b, row, col));
        }
    }
}

#[test]
fn isolated_cell_dies() {
    let game = single_cell_game(2, &[3, 4]);
    assert_eq!(game.active_cells(), 1);
    let next = game.next();
    assert_eq!(next.active_cells(), 0);
}

#[test]
fn isolated_cell_dies_in_three_dimensions() {
    let game = single_cell_game(3, &[2, -1, 5]);
    let next = game.next();
    assert_eq!(next.active_cells(), 0);
}

#[test]
fn block_is_a_still_life() {
    let mut cells = LiveSet::empty(2);
    for (a, b) in [(0, 0), (0, 1), (1, 0), (1, 1)] {
        cells.insert(p2(a, b));
    }
    let game = Life::new(cells, StandardRule);
    let next = game.next();
    assert_eq!(next.active_cells(), 4);
    for (a, b) in [(0, 0), (0, 1), (1, 0), (1, 1)] {
        assert!(alive(&next, a, b));
    }
    let again = next.next();
    assert_eq!(again.active_cells(), 4);
}

#[test]
fn block_is_a_still_life_in_three_dimensions() {
    let mut cells = LiveSet::empty(3);
    for (a, b) in [(0, 0), (0, 1), (1, 0), (1, 1)] {
        cells.insert(pd(&[a, b, 0]));
    }
    let game = Life::new(cells, StandardRule);
    let next = game.next();
    assert_eq!(next.active_cells(), 4);
    for (a, b) in [(0, 0), (0, 1), (1, 0), (1, 1)] {
        assert!(matches!(next.get(&pd(&[a, b, 0])), State::Alive));
    }
}

#[test]
fn blinker_oscillates_with_period_two() {
    let plate = vec!["", "", "", "", "", "....###"];
    let game = Life::from_plate_default_rules(2, &plate);
    assert_eq!(game.active_cells(), 3);
    assert!(alive(&game, 5, 4) && alive(&game, 5, 5) && alive(&game, 5, 6));

    let g1 = game.next();
    assert_eq!(g1.active_cells(), 3);
    assert!(alive(&g1, 4, 5) && alive(&g1, 5, 5) && alive(&g1, 6, 5));

    let g2 = g1.next();
    assert_eq!(g2.active_cells(), 3);
    assert!(alive(&g2, 5, 4) && alive(&g2, 5, 5) && alive(&g2, 5, 6));
}

#[test]
fn glider_gun_population_grows() {
    let plate = gun_plate();
    let mut game = Life::from_plate_default_rules(2, &plate);
    let initial = game.active_cells();
    assert_eq!(initial, 36);
    for _ in 0..30 {
        game = game.next();
    }
    assert!(game.active_cells() > initial);
}

#[test]
fn from_plate_reads_only_hash_marks() {
    let plate = vec!["#.x", ".#*"];
    let game = Life::from_plate_default_rules(2, &plate);
    assert_eq!(game.active_cells(), 2);
    assert!(alive(&game, 0, 0));
    assert!(alive(&game, 1, 1));
    assert!(!alive(&game, 0, 1));
    assert!(!alive(&game, 0, 2));
    assert!(!alive(&game, 1, 2));
}

#[test]
fn smart_bound_of_single_cell_is_its_neighborhood() {
    let game = single_cell_game(2, &[10, 20]);
    let frontier = game.smart_bound();
    assert_eq!(frontier.len(), 9);
    for da in -1..=1 {
        for db in -1..=1 {
            assert!(frontier.contains(&p2(10 + da, 20 + db)));
        }
    }
    assert!(!frontier.contains(&p2(12, 20)));
}

#[test]
fn state_changes_stay_within_frontier() {
    let plate = vec!["", "", "", "", "", "....###"];
    let game = Life::from_plate_default_rules(2, &plate);
    let frontier = game.smart_bound();
    let next = game.next();
    for row in -3..12 {
        for col in -3..12 {
            if alive(&game, row, col) != alive(&next, row, col) {
                assert!(frontier.contains(&p2(row, col)));
            }
        }
    }
}

#[test]
fn live_set_ignores_duplicate_inserts() {
    let mut cells = LiveSet::empty(2);
    cells.insert(p2(1, 1));
    cells.insert(p2(1, 1));
    cells.insert(p2(2, 1));
    assert_eq!(cells.len(), 2);
    assert!(cells.contains(&p2(1, 1)));
    assert!(cells.contains(&p2(2, 1)));
    assert!(!cells.contains(&p2(1, 2)));
}
