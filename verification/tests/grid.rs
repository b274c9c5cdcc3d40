use cave_grid::grid::Grid;

fn dead_grid(width: usize, height: usize) -> Grid {
    let mut g = Grid::new(width, height);
    for y in 0..height {
        for x in 0..width {
            g.set(x, y, false);
        }
    }
    g
}

fn snapshot(g: &Grid) -> Vec<bool> {
    let mut out = Vec::new();
    for y in 0..g.height {
        for x in 0..g.width {
            out.push(g.get(x, y));
        }
    }
    out
}

#[test]
fn initialize_defines_all_cells() {
    let g = Grid::new(5, 4);
    assert_eq!(g.width, 5);
    assert_eq!(g.height, 4);
    assert_eq!(snapshot(&g).len(), 20);
    for y in 0..4 {
        for x in 0..5 {
            let alive = g.get(x, y);
            assert!(alive == true || alive == false);
        }
    }
}

#[test]
fn reset_rerandomizes() {
    let mut g = Grid::new(50, 50);
    let first = snapshot(&g);
    assert!(first.contains(&true) && first.contains(&false));

    let changed_once = g.reset();
    let second = snapshot(&g);
    assert!(second.contains(&true) && second.contains(&false));
    assert_eq!(changed_once, first != second);
    assert_ne!(first, second);

    let changed_twice = g.reset();
    let third = snapshot(&g);
    assert!(third.contains(&true) && third.contains(&false));
    assert_eq!(changed_twice, second != third);
    assert_ne!(second, third);

    assert_eq!(g.width, 50);
    assert_eq!(g.height, 50);
}

#[test]
fn step_lone_center_dies() {
    let mut g = dead_grid(3, 3);
    g.set(1, 1, true);
    let changed = g.step();
    assert!(changed);
    assert!(!g.get(1, 1));
    for y in 0..3 {
        for x in 0..3 {
            assert!(!g.get(x, y));
        }
    }
}

#[test]
fn step_surrounded_center_born() {
    let mut g = dead_grid(3, 3);
    for y in 0..3 {
        for x in 0..3 {
            if !(x == 1 && y == 1) {
                g.set(x, y, true);
            }
        }
    }
    let changed = g.step();
    assert!(changed);
    assert!(g.get(1, 1));
}

#[test]
fn single_cell_always_dies() {
    let mut alive = dead_grid(1, 1);
    alive.set(0, 0, true);
    let changed = alive.step();
    assert!(changed);
    assert!(!alive.get(0, 0));

    let mut dead = dead_grid(1, 1);
    let changed = dead.step();
    assert!(!changed);
    assert!(!dead.get(0, 0));
}

#[test]
fn boundary_counts_no_wrap() {
    let mut g = dead_grid(5, 5);
    for y in 0..5 {
        for x in 0..5 {
            g.set(x, y, true);
        }
    }
    // corners have 3 in-bounds neighbors, edges 5, the interior 8
    assert_eq!(g.count_neighbors_alive(0, 0), 3);
    assert_eq!(g.count_neighbors_alive(4, 0), 3);
    assert_eq!(g.count_neighbors_alive(0, 4), 3);
    assert_eq!(g.count_neighbors_alive(4, 4), 3);
    assert_eq!(g.count_neighbors_alive(2, 0), 5);
    assert_eq!(g.count_neighbors_alive(0, 2), 5);
    assert_eq!(g.count_neighbors_alive(2, 2), 8);

    // a live far corner is never seen from the opposite corner
    let mut h = dead_grid(5, 5);
    h.set(4, 4, true);
    h.set(4, 0, true);
    h.set(0, 4, true);
    assert_eq!(h.count_neighbors_alive(0, 0), 0);
}

#[test]
fn step_is_deterministic() {
    let pattern = [
        (0, 0),
        (1, 0),
        (3, 0),
        (2, 1),
        (3, 1),
        (0, 2),
        (1, 3),
        (2, 3),
        (3, 3),
    ];
    let mut a = dead_grid(4, 4);
    let mut b = dead_grid(4, 4);
    for &(x, y) in pattern.iter() {
        a.set(x, y, true);
        b.set(x, y, true);
    }
    assert_eq!(snapshot(&a), snapshot(&b));
    a.step();
    b.step();
    assert_eq!(snapshot(&a), snapshot(&b));
}

#[test]
fn live_cell_threshold_is_three() {
    // a live center with exactly 4 live neighbors stays alive
    let mut g = dead_grid(3, 3);
    g.set(1, 1, true);
    g.set(0, 0, true);
    g.set(1, 0, true);
    g.set(2, 0, true);
    g.set(0, 1, true);
    g.step();
    assert!(g.get(1, 1));

    // with exactly 3 live neighbors it dies
    let mut h = dead_grid(3, 3);
    h.set(1, 1, true);
    h.set(0, 0, true);
    h.set(1, 0, true);
    h.set(2, 0, true);
    h.step();
    assert!(!h.get(1, 1));
}

#[test]
fn dead_cell_threshold_is_four() {
    // a dead center with exactly 5 live neighbors becomes alive
    let mut g = dead_grid(3, 3);
    g.set(0, 0, true);
    g.set(1, 0, true);
    g.set(2, 0, true);
    g.set(0, 1, true);
    g.set(2, 1, true);
    g.step();
    assert!(g.get(1, 1));

    // with exactly 4 live neighbors it stays dead
    let mut h = dead_grid(3, 3);
    h.set(0, 0, true);
    h.set(1, 0, true);
    h.set(2, 0, true);
    h.set(0, 1, true);
    h.step();
    assert!(!h.get(1, 1));
}

#[test]
fn step_on_still_grid_reports_no_change() {
    let mut g = dead_grid(4, 4);
    let changed = g.step();
    assert!(!changed);
    for y in 0..4 {
        for x in 0..4 {
            assert!(!g.get(x, y));
        }
    }
}

#[test]
fn set_then_get_roundtrip() {
    let mut g = dead_grid(3, 2);
    g.set(2, 1, true);
    assert!(g.get(2, 1));
    assert!(!g.get(0, 0));
    assert!(!g.get(1, 1));
    g.set(2, 1, false);
    assert!(!g.get(2, 1));
}
