use conway_rs::{Grid, Simmetry, Stamp, StampError};

fn live_cells(g: &Grid) -> Vec<(usize, usize)> {
    let mut cells = Vec::new();
    for i in 0..g.rows() {
        for j in 0..g.columns() {
            if g.get(i, j) {
                cells.push((i, j));
            }
        }
    }
    cells
}

#[test]
fn sized_grid_is_all_dead() {
    let g = Grid::sized(7, 4);
    assert_eq!(g.columns(), 7);
    assert_eq!(g.rows(), 4);
    assert_eq!(live_cells(&g), vec![]);
}

#[test]
fn new_wraps_a_matrix_as_is() {
    let g = Grid::new(vec![
        vec![false, true, false],
        vec![true, false, true],
    ]);
    assert_eq!(g.rows(), 2);
    assert_eq!(g.columns(), 3);
    assert_eq!(live_cells(&g), vec![(0, 1), (1, 0), (1, 2)]);
}

#[test]
fn empty_grid_ticks_without_complaint() {
    let mut g = Grid::sized(0, 0);
    g.tick();
    assert_eq!(g.rows(), 0);
    assert_eq!(g.columns(), 0);
}

#[test]
fn neighbor_counts_at_center_edge_and_corner() {
    let g = Grid::new(vec![
        vec![true, true, true],
        vec![true, true, true],
        vec![true, true, true],
    ]);
    assert_eq!(g.live_neighbors_around(1, 1), 8);
    assert_eq!(g.live_neighbors_around(0, 1), 5);
    assert_eq!(g.live_neighbors_around(0, 0), 3);
    assert_eq!(g.live_neighbors_around(2, 2), 3);
}

#[test]
fn mark_alive_is_additive() {
    let mut g = Grid::sized(4, 4);
    g.mark_alive(&vec![(0, 0), (1, 1)]);
    g.mark_alive(&vec![(1, 1), (2, 3)]);
    assert_eq!(live_cells(&g), vec![(0, 0), (1, 1), (2, 3)]);
}

#[test]
fn stamp_translates_by_the_anchor() {
    let mut g = Grid::sized(6, 6);
    assert!(g.stamp(Stamp::Tub, (2, 1), Simmetry::Identity).is_ok());
    assert_eq!(live_cells(&g), vec![(2, 2), (3, 1), (3, 3), (4, 2)]);
}

#[test]
fn stamp_is_additive_and_never_subtractive() {
    let mut g = Grid::sized(6, 6);
    assert!(g.stamp(Stamp::Point, (0, 0), Simmetry::Identity).is_ok());
    assert!(g.stamp(Stamp::Block, (0, 0), Simmetry::Identity).is_ok());
    assert_eq!(live_cells(&g), vec![(0, 0), (0, 1), (1, 0), (1, 1)]);
}

#[test]
fn stamp_applies_the_mirror_before_translating() {
    let mut mirrored = Grid::sized(6, 6);
    assert!(mirrored.stamp(Stamp::Glider, (1, 1), Simmetry::X).is_ok());
    assert_eq!(
        live_cells(&mirrored),
        vec![(1, 1), (1, 2), (2, 2), (2, 3), (3, 1)]
    );
}

#[test]
fn out_of_bounds_stamp_rejects_and_leaves_the_grid_unchanged() {
    let mut g = Grid::sized(5, 5);
    assert!(g.stamp(Stamp::Blinker, (2, 1), Simmetry::Identity).is_ok());
    let before = g.clone();
    assert_eq!(
        g.stamp(Stamp::Block, (4, 4), Simmetry::Identity),
        Err(StampError::OutOfBounds((4, 4)))
    );
    assert_eq!(g, before);
}

#[test]
fn far_out_of_bounds_anchor_is_rejected() {
    let mut g = Grid::sized(5, 5);
    let before = g.clone();
    assert_eq!(
        g.stamp(Stamp::Point, (17, 3), Simmetry::Identity),
        Err(StampError::OutOfBounds((17, 3)))
    );
    assert_eq!(g, before);
}

#[test]
fn unsupported_stamp_rejects_and_leaves_the_grid_unchanged() {
    let mut g = Grid::sized(5, 5);
    assert!(g.stamp(Stamp::Tub, (1, 1), Simmetry::Identity).is_ok());
    let before = g.clone();
    assert_eq!(
        g.stamp(Stamp::Loaf, (0, 0), Simmetry::Identity),
        Err(StampError::Unsupported(Stamp::Loaf))
    );
    assert_eq!(g, before);
}
