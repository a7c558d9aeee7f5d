use conway_rs::{Stamp, StampError};

#[test]
fn point_shape() {
    assert_eq!(Stamp::Point.size().unwrap(), (1, 1));
    assert_eq!(Stamp::Point.positions().unwrap(), vec![(0, 0)]);
}

#[test]
fn block_shape() {
    assert_eq!(Stamp::Block.size().unwrap(), (2, 2));
    assert_eq!(Stamp::Block.positions().unwrap(), vec![(0, 0), (0, 1), (1, 0), (1, 1)]);
}

#[test]
fn bee_hive_shape() {
    assert_eq!(Stamp::BeeHive.size().unwrap(), (3, 4));
    assert_eq!(
        Stamp::BeeHive.positions().unwrap(),
        vec![(1, 0), (0, 1), (2, 1), (0, 2), (2, 2), (1, 3)]
    );
}

#[test]
fn tub_shape() {
    assert_eq!(Stamp::Tub.size().unwrap(), (3, 3));
    assert_eq!(Stamp::Tub.positions().unwrap(), vec![(1, 0), (0, 1), (1, 2), (2, 1)]);
}

#[test]
fn blinker_shape() {
    assert_eq!(Stamp::Blinker.size().unwrap(), (1, 3));
    assert_eq!(Stamp::Blinker.positions().unwrap(), vec![(0, 0), (0, 1), (0, 2)]);
}

#[test]
fn glider_shape() {
    assert_eq!(Stamp::Glider.size().unwrap(), (3, 3));
    assert_eq!(
        Stamp::Glider.positions().unwrap(),
        vec![(0, 0), (1, 1), (1, 2), (2, 0), (2, 1)]
    );
}

#[test]
fn every_offset_is_inside_its_box() {
    let supported = [
        Stamp::Point,
        Stamp::Block,
        Stamp::BeeHive,
        Stamp::Tub,
        Stamp::Blinker,
        Stamp::Glider,
    ];
    for stamp in supported {
        let (height, width) = stamp.size().unwrap();
        for (x, y) in stamp.positions().unwrap() {
            assert!(x < height, "{:?} offset row {} outside box", stamp, x);
            assert!(y < width, "{:?} offset column {} outside box", stamp, y);
        }
    }
}

#[test]
fn undefined_patterns_are_unsupported() {
    let undefined = [
        Stamp::Loaf,
        Stamp::Boat,
        Stamp::Toad,
        Stamp::Beacon,
        Stamp::Pulsar,
        Stamp::PentaDecathlon,
        Stamp::LightWeightSpaceship,
        Stamp::MiddleWeightSpaceship,
        Stamp::HeavyWeightSpaceship,
    ];
    for stamp in undefined {
        assert_eq!(stamp.size(), Err(StampError::Unsupported(stamp)));
        assert_eq!(stamp.positions(), Err(StampError::Unsupported(stamp)));
    }
}
