//! The pattern catalog: every stampable shape, its bounding box and the
//! relative offsets of its live cells within that box.

use vstd::prelude::*;

verus! {

/// A cell coordinate, written (row, column).
pub type Position = (usize, usize);

/// The predefined live-cell patterns that can be stamped onto a grid.
#[derive(Debug, Clone, Copy, PartialEq, Eq)]
pub enum Stamp {
    Point,
    // still lifes
    Block,
    BeeHive,
    Loaf,
    Boat,
    Tub,
    // oscillators
    Blinker,
    Toad,
    Beacon,
    Pulsar,
    PentaDecathlon,
    // spaceships
    Glider,
    LightWeightSpaceship,
    MiddleWeightSpaceship,
    HeavyWeightSpaceship,
}

/// Why a stamp request was rejected; the grid is never changed on rejection.
#[derive(Debug, Clone, Copy, PartialEq, Eq)]
pub enum StampError {
    /// The pattern's geometry is not defined in the catalog.
    Unsupported(Stamp),
    /// Placing the pattern at this anchor would write outside the grid.
    OutOfBounds(Position),
}

/// Which patterns have a shape in the catalog.
pub open spec fn spec_supported(s: Stamp) -> bool {
    match s {
        Stamp::Point => true,
        Stamp::Block => true,
        Stamp::BeeHive => true,
        Stamp::Tub => true,
        Stamp::Blinker => true,
        Stamp::Glider => true,
        _ => false,
    }
}

/// The bounding box of a supported pattern, written (rows, columns).
pub open spec fn spec_size(s: Stamp) -> (usize, usize)
    recommends
        spec_supported(s),
{
    match s {
        Stamp::Point => (1usize, 1usize),
        Stamp::Block => (2usize, 2usize),
        Stamp::BeeHive => (3usize, 4usize),
        Stamp::Tub => (3usize, 3usize),
        Stamp::Blinker => (1usize, 3usize),
        Stamp::Glider => (3usize, 3usize),
        _ => (0usize, 0usize),
    }
}

/// The live-cell offsets of a supported pattern, each within its bounding box.
pub open spec fn spec_offsets(s: Stamp) -> Seq<(usize, usize)>
    recommends
        spec_supported(s),
{
    match s {
        Stamp::Point => seq![(0usize, 0usize)],
        Stamp::Block => seq![(0usize, 0usize), (0usize, 1usize), (1usize, 0usize), (1usize, 1usize)],
        Stamp::BeeHive => seq![
            (1usize, 0usize),
            (0usize, 1usize),
            (2usize, 1usize),
            (0usize, 2usize),
            (2usize, 2usize),
            (1usize, 3usize),
        ],
        Stamp::Tub => seq![(1usize, 0usize), (0usize, 1usize), (1usize, 2usize), (2usize, 1usize)],
        Stamp::Blinker => seq![(0usize, 0usize), (0usize, 1usize), (0usize, 2usize)],
        Stamp::Glider => seq![
            (0usize, 0usize),
            (1usize, 1usize),
            (1usize, 2usize),
            (2usize, 0usize),
            (2usize, 1usize),
        ],
        _ => Seq::empty(),
    }
}

/// Every offset of the sequence lies inside the given bounding box.
pub open spec fn offsets_in_box(offs: Seq<(usize, usize)>, size: (usize, usize)) -> bool {
    forall|k: int|
        0 <= k < offs.len() ==> (#[trigger] offs[k]).0 < size.0 && offs[k].1 < size.1
}

/// Every catalog shape fits inside its own bounding box.
pub proof fn lemma_offsets_in_box(s: Stamp)
    requires
        spec_supported(s),
    ensures
        offsets_in_box(spec_offsets(s), spec_size(s)),
{
}

impl Stamp {
    /// The pattern's bounding box, written (rows, columns); an unsupported
    /// pattern is reported as such rather than given an empty box.
    pub fn size(&self) -> (r: Result<(usize, usize), StampError>)
        ensures
            spec_supported(*self) ==> r == Ok::<(usize, usize), StampError>(spec_size(*self)),
            !spec_supported(*self) ==> r == Err::<(usize, usize), StampError>(
                StampError::Unsupported(*self),
            ),
    {
        match self {
            Stamp::Point => Ok((1, 1)),
            Stamp::Block => Ok((2, 2)),
            Stamp::BeeHive => Ok((3, 4)),
            Stamp::Loaf => Err(StampError::Unsupported(*self)),
            Stamp::Boat => Err(StampError::Unsupported(*self)),
            Stamp::Tub => Ok((3, 3)),
            Stamp::Blinker => Ok((1, 3)),
            Stamp::Toad => Err(StampError::Unsupported(*self)),
            Stamp::Beacon => Err(StampError::Unsupported(*self)),
            Stamp::Pulsar => Err(StampError::Unsupported(*self)),
            Stamp::PentaDecathlon => Err(StampError::Unsupported(*self)),
            Stamp::Glider => Ok((3, 3)),
            Stamp::LightWeightSpaceship => Err(StampError::Unsupported(*self)),
            Stamp::MiddleWeightSpaceship => Err(StampError::Unsupported(*self)),
            Stamp::HeavyWeightSpaceship => Err(StampError::Unsupported(*self)),
        }
    }

    /// The pattern's live cells, as offsets within its bounding box; an
    /// unsupported pattern is reported as such rather than stamped as nothing.
    pub fn positions(&self) -> (r: Result<Vec<Position>, StampError>)
        ensures
            spec_supported(*self) ==> (r matches Ok(v) && v@ == spec_offsets(*self)),
            !spec_supported(*self) ==> r == Err::<Vec<Position>, StampError>(
                StampError::Unsupported(*self),
            ),
    {
        match self {
            Stamp::Point => {
                let v: Vec<Position> = vec![(0, 0)];
                proof {
                    assert(v@ =~= spec_offsets(*self));
                }
                Ok(v)
            },
            Stamp::Block => {
                let v: Vec<Position> = vec![(0, 0), (0, 1), (1, 0), (1, 1)];
                proof {
                    assert(v@ =~= spec_offsets(*self));
                }
                Ok(v)
            },
            Stamp::BeeHive => {
                let v: Vec<Position> = vec![(1, 0), (0, 1), (2, 1), (0, 2), (2, 2), (1, 3)];
                proof {
                    assert(v@ =~= spec_offsets(*self));
                }
                Ok(v)
            },
            Stamp::Loaf => Err(StampError::Unsupported(*self)),
            Stamp::Boat => Err(StampError::Unsupported(*self)),
            Stamp::Tub => {
                let v: Vec<Position> = vec![(1, 0), (0, 1), (1, 2), (2, 1)];
                proof {
                    assert(v@ =~= spec_offsets(*self));
                }
                Ok(v)
            },
            Stamp::Blinker => {
                let v: Vec<Position> = vec![(0, 0), (0, 1), (0, 2)];
                proof {
                    assert(v@ =~= spec_offsets(*self));
                }
                Ok(v)
            },
            Stamp::Toad => Err(StampError::Unsupported(*self)),
            Stamp::Beacon => Err(StampError::Unsupported(*self)),
            Stamp::Pulsar => Err(StampError::Unsupported(*self)),
            Stamp::PentaDecathlon => Err(StampError::Unsupported(*self)),
            Stamp::Glider => {
                let v: Vec<Position> = vec![(0, 0), (1, 1), (1, 2), (2, 0), (2, 1)];
                proof {
                    assert(v@ =~= spec_offsets(*self));
                }
                Ok(v)
            },
            Stamp::LightWeightSpaceship => Err(StampError::Unsupported(*self)),
            Stamp::MiddleWeightSpaceship => Err(StampError::Unsupported(*self)),
            Stamp::HeavyWeightSpaceship => Err(StampError::Unsupported(*self)),
        }
    }
}

} // verus!
