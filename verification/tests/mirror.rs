use conway_rs::{Simmetry, Stamp, StampError};

#[test]
fn identity_mode_returns_offsets_unchanged() {
    let offsets = Stamp::Glider.positions().unwrap();
    let size = Stamp::Glider.size().unwrap();
    assert_eq!(Simmetry::Identity.apply(&offsets, size), offsets);
}

#[test]
fn mirror_x_flips_rows() {
    let offsets = Stamp::Glider.positions().unwrap();
    let size = Stamp::Glider.size().unwrap();
    assert_eq!(
        Simmetry::X.apply(&offsets, size),
        vec![(2, 0), (1, 1), (1, 2), (0, 0), (0, 1)]
    );
}

#[test]
fn mirror_y_flips_columns() {
    let offsets = Stamp::Glider.positions().unwrap();
    let size = Stamp::Glider.size().unwrap();
    assert_eq!(
        Simmetry::Y.apply(&offsets, size),
        vec![(0, 2), (1, 1), (1, 0), (2, 2), (2, 1)]
    );
}

#[test]
fn mirror_xy_flips_both() {
    let offsets = Stamp::Glider.positions().unwrap();
    let size = Stamp::Glider.size().unwrap();
    assert_eq!(
        Simmetry::XY.apply(&offsets, size),
        vec![(2, 2), (1, 1), (1, 0), (0, 2), (0, 1)]
    );
}

#[test]
fn mirror_xy_twice_is_the_identity() {
    for stamp in [Stamp::Point, Stamp::Block, Stamp::BeeHive, Stamp::Tub, Stamp::Blinker,
        Stamp::Glider] {
        let offsets = stamp.positions().unwrap();
        let size = stamp.size().unwrap();
        let once = Simmetry::XY.apply(&offsets, size);
        let twice = Simmetry::XY.apply(&once, size);
        assert_eq!(twice, offsets, "{:?}", stamp);
    }
}

#[test]
fn rotated_resolves_the_catalog() {
    assert_eq!(
        Simmetry::Y.rotated(Stamp::Blinker).unwrap(),
        vec![(0, 2), (0, 1), (0, 0)]
    );
    assert_eq!(
        Simmetry::Identity.rotated(Stamp::Block).unwrap(),
        vec![(0, 0), (0, 1), (1, 0), (1, 1)]
    );
}

#[test]
fn rotated_propagates_unsupported() {
    assert_eq!(
        Simmetry::XY.rotated(Stamp::Loaf),
        Err(StampError::Unsupported(Stamp::Loaf))
    );
}
