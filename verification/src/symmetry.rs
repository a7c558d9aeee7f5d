//! The mirror transform: reflects a pattern's offsets across its own
//! bounding box before the pattern is placed on the grid.

use vstd::prelude::*;

use crate::pattern::{offsets_in_box, spec_offsets, spec_size, spec_supported, Position, Stamp,
    StampError};
use crate::pattern::lemma_offsets_in_box;

verus! {

/// Which axis of the pattern's own bounding box to reflect across before
/// placement. Reflection is about the box, not the grid, so mirroring an
/// asymmetric pattern such as the glider changes which diagonal it travels.
#[derive(Debug, Clone, Copy, PartialEq, Eq)]
pub enum Simmetry {
    Identity,
    X,
    Y,
    XY,
}

/// One offset reflected across the bounding box `size`, per mode.
pub open spec fn spec_reflect(m: Simmetry, size: (usize, usize), p: (usize, usize)) -> (usize,
    usize)
    recommends
        p.0 < size.0,
        p.1 < size.1,
{
    match m {
        Simmetry::Identity => p,
        Simmetry::X => (((size.0 - 1 - p.0) as usize), p.1),
        Simmetry::Y => (p.0, ((size.1 - 1 - p.1) as usize)),
        Simmetry::XY => (((size.0 - 1 - p.0) as usize), ((size.1 - 1 - p.1) as usize)),
    }
}

/// A whole offset sequence reflected across the bounding box `size`.
pub open spec fn spec_apply(m: Simmetry, size: (usize, usize), offs: Seq<(usize, usize)>) -> Seq<
    (usize, usize),
> {
    offs.map_values(|p: (usize, usize)| spec_reflect(m, size, p))
}

impl Simmetry {
    /// Reflect every offset of a pattern across the pattern's own bounding
    /// box. Pure and total: same cardinality, same order, same domain.
    pub fn apply(&self, offsets: &Vec<Position>, size: (usize, usize)) -> (r: Vec<Position>)
        requires
            offsets_in_box(offsets@, size),
        ensures
            r@ == spec_apply(*self, size, offsets@),
            offsets_in_box(r@, size),
    {
        let mut out: Vec<Position> = Vec::new();
        let mut k: usize = 0;
        while k < offsets.len()
            invariant
                k <= offsets@.len(),
                offsets_in_box(offsets@, size),
                out@.len() == k,
                forall|m: int|
                    0 <= m < k ==> out@[m] == spec_reflect(*self, size, #[trigger] offsets@[m]),
            decreases offsets@.len() - k,
        {
            let (x, y) = offsets[k];
            let q: Position = match self {
                Simmetry::Identity => (x, y),
                Simmetry::X => (size.0 - 1 - x, y),
                Simmetry::Y => (x, size.1 - 1 - y),
                Simmetry::XY => (size.0 - 1 - x, size.1 - 1 - y),
            };
            out.push(q);
            k += 1;
        }
        proof {
            assert(out@ =~= spec_apply(*self, size, offsets@));
        }
        out
    }

    /// The offsets of `stamp` reflected per this mode, ready for placement;
    /// an unsupported pattern is reported as such.
    pub fn rotated(&self, stamp: Stamp) -> (r: Result<Vec<Position>, StampError>)
        ensures
            spec_supported(stamp) ==> (r matches Ok(v) && v@ == spec_apply(
                *self,
                spec_size(stamp),
                spec_offsets(stamp),
            )),
            !spec_supported(stamp) ==> r == Err::<Vec<Position>, StampError>(
                StampError::Unsupported(stamp),
            ),
    {
        let positions = match stamp.positions() {
            Ok(p) => p,
            Err(e) => {
                return Err(e);
            },
        };
        let size = match stamp.size() {
            Ok(s) => s,
            Err(e) => {
                return Err(e);
            },
        };
        proof {
            lemma_offsets_in_box(stamp);
        }
        Ok(self.apply(&positions, size))
    }
}

/// Applying the identity mode returns every offset sequence unchanged.
pub proof fn lemma_apply_identity(size: (usize, usize), offs: Seq<(usize, usize)>)
    ensures
        spec_apply(Simmetry::Identity, size, offs) == offs,
{
    assert(spec_apply(Simmetry::Identity, size, offs) =~= offs);
}

/// Mirroring across both axes is an involution: applied twice, it returns
/// the original offset sequence.
pub proof fn lemma_apply_mirror_xy_involution(size: (usize, usize), offs: Seq<(usize, usize)>)
    requires
        offsets_in_box(offs, size),
    ensures
        spec_apply(Simmetry::XY, size, spec_apply(Simmetry::XY, size, offs)) == offs,
{
    assert(spec_apply(Simmetry::XY, size, spec_apply(Simmetry::XY, size, offs)) =~= offs);
}

} // verus!
