use conway_rs::{Grid, Simmetry, Stamp};

fn live_cells(g: &Grid) -> Vec<(usize, usize)> {
    let mut cells = Vec::new();
    for i in 0..g.rows() {
        for j in 0..g.columns() {
            if g.get(i, j) {
                cells.push((i, j));
            }
        }
    }
    cells
}

#[test]
fn an_all_dead_grid_stays_all_dead() {
    let mut g = Grid::sized(9, 6);
    let before = g.clone();
    for _ in 0..5 {
        g.tick();
        assert_eq!(g, before);
    }
}

#[test]
fn a_lone_cell_dies_of_underpopulation() {
    let mut g = Grid::sized(5, 5);
    assert!(g.stamp(Stamp::Point, (2, 2), Simmetry::Identity).is_ok());
    g.tick();
    assert_eq!(live_cells(&g), vec![]);
}

#[test]
fn a_block_is_a_still_life() {
    let mut g = Grid::sized(6, 6);
    assert!(g.stamp(Stamp::Block, (2, 3), Simmetry::Identity).is_ok());
    let before = g.clone();
    for _ in 0..7 {
        g.tick();
        assert_eq!(g, before);
    }
}

#[test]
fn a_bee_hive_is_a_still_life() {
    let mut g = Grid::sized(8, 7);
    assert!(g.stamp(Stamp::BeeHive, (2, 2), Simmetry::Identity).is_ok());
    let before = g.clone();
    g.tick();
    assert_eq!(g, before);
}

#[test]
fn a_tub_is_a_still_life() {
    let mut g = Grid::sized(7, 7);
    assert!(g.stamp(Stamp::Tub, (2, 2), Simmetry::Identity).is_ok());
    let before = g.clone();
    g.tick();
    assert_eq!(g, before);
}

#[test]
fn a_blinker_oscillates_with_period_two() {
    let mut g = Grid::sized(5, 5);
    assert!(g.stamp(Stamp::Blinker, (2, 1), Simmetry::Identity).is_ok());
    let horizontal = g.clone();
    g.tick();
    // one tick: the quarter-turn rotation about the middle cell
    assert_eq!(live_cells(&g), vec![(1, 2), (2, 2), (3, 2)]);
    g.tick();
    assert_eq!(g, horizontal);
}

#[test]
fn a_glider_translates_one_diagonal_step_every_four_ticks() {
    let mut g = Grid::sized(10, 10);
    assert!(g.stamp(Stamp::Glider, (1, 1), Simmetry::Identity).is_ok());
    for _ in 0..4 {
        g.tick();
    }
    let mut expected = Grid::sized(10, 10);
    assert!(expected.stamp(Stamp::Glider, (2, 2), Simmetry::Identity).is_ok());
    assert_eq!(g, expected);
}

#[test]
fn a_mirrored_glider_travels_the_other_diagonal() {
    let mut g = Grid::sized(12, 12);
    assert!(g.stamp(Stamp::Glider, (5, 5), Simmetry::XY).is_ok());
    for _ in 0..4 {
        g.tick();
    }
    let mut expected = Grid::sized(12, 12);
    assert!(expected.stamp(Stamp::Glider, (4, 4), Simmetry::XY).is_ok());
    assert_eq!(g, expected);
}

#[test]
fn ten_by_ten_point_and_block_scenario() {
    let mut g = Grid::sized(10, 10);
    assert!(g.stamp(Stamp::Point, (9, 0), Simmetry::Identity).is_ok());
    assert!(g.stamp(Stamp::Block, (4, 4), Simmetry::Identity).is_ok());
    g.tick();
    // the isolated point dies of underpopulation
    assert!(!g.get(9, 0));
    // each block cell keeps exactly three live neighbors and survives
    assert!(g.get(4, 4));
    assert!(g.get(4, 5));
    assert!(g.get(5, 4));
    assert!(g.get(5, 5));
    assert_eq!(live_cells(&g), vec![(4, 4), (4, 5), (5, 4), (5, 5)]);
}

#[test]
fn the_largest_observed_configuration_runs() {
    let mut g = Grid::sized(127, 71);
    assert!(g.stamp(Stamp::Point, (9, 0), Simmetry::Identity).is_ok());
    assert!(g.stamp(Stamp::Block, (4, 4), Simmetry::Identity).is_ok());
    assert!(g.stamp(Stamp::Blinker, (8, 7), Simmetry::Identity).is_ok());
    assert!(g.stamp(Stamp::Glider, (0, 7), Simmetry::Identity).is_ok());
    assert!(g.stamp(Stamp::BeeHive, (4, 15), Simmetry::Identity).is_ok());
    assert!(g.stamp(Stamp::Tub, (10, 15), Simmetry::Identity).is_ok());
    for _ in 0..8 {
        g.tick();
    }
    // the block is far from everything else and survives all eight ticks
    assert!(g.get(4, 4) && g.get(4, 5) && g.get(5, 4) && g.get(5, 5));
}
