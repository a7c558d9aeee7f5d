//! The grid: a fixed-size boolean cell matrix, the generational update rule,
//! and the stamping operation.

use vstd::prelude::*;

use crate::pattern::{spec_offsets, spec_size, spec_supported, Position, Stamp, StampError};
use crate::symmetry::{spec_apply, Simmetry};

verus! {

/// The cell matrix as a sequence of rows, each a sequence of booleans.
pub open spec fn matrix_view(m: Seq<Vec<bool>>) -> Seq<Seq<bool>> {
    m.map_values(|r: Vec<bool>| r@)
}

/// The cell at (i, j) exists and is live. False outside the matrix, so edge
/// cells simply have fewer live neighbors: there is no wraparound.
pub open spec fn alive_at(g: Seq<Seq<bool>>, i: int, j: int) -> bool {
    0 <= i < g.len() && 0 <= j < g[i].len() && g[i][j]
}

/// One if the cell is live, zero otherwise.
pub open spec fn live_count(b: bool) -> int {
    if b {
        1
    } else {
        0
    }
}

/// How many of the up-to-eight orthogonal and diagonal neighbors of (i, j)
/// are live.
pub open spec fn neighbor_count(g: Seq<Seq<bool>>, i: int, j: int) -> int {
    live_count(alive_at(g, i - 1, j - 1)) + live_count(alive_at(g, i - 1, j)) + live_count(
        alive_at(g, i - 1, j + 1),
    ) + live_count(alive_at(g, i, j - 1)) + live_count(alive_at(g, i, j + 1)) + live_count(
        alive_at(g, i + 1, j - 1),
    ) + live_count(alive_at(g, i + 1, j)) + live_count(alive_at(g, i + 1, j + 1))
}

/// The generation rule for one cell: a live cell with two or three live
/// neighbors stays live, a dead cell with exactly three becomes live, and
/// every other cell is dead in the next generation.
pub open spec fn next_cell(g: Seq<Seq<bool>>, i: int, j: int) -> bool {
    (alive_at(g, i, j) && neighbor_count(g, i, j) == 2) || neighbor_count(g, i, j) == 3
}

/// The whole next generation, every cell computed from the previous one.
pub open spec fn next_grid(g: Seq<Seq<bool>>) -> Seq<Seq<bool>> {
    Seq::new(g.len(), |i: int| Seq::new(g[i].len(), |j: int| next_cell(g, i, j)))
}

/// The grid after `n` generations.
pub open spec fn next_grid_n(g: Seq<Seq<bool>>, n: nat) -> Seq<Seq<bool>>
    decreases n,
{
    if n == 0 {
        g
    } else {
        next_grid(next_grid_n(g, (n - 1) as nat))
    }
}

/// No cell of the grid is live.
pub open spec fn all_dead(g: Seq<Seq<bool>>) -> bool {
    forall|i: int, j: int| !alive_at(g, i, j)
}

/// The position sequence holds (i, j).
pub open spec fn contains_pos(ps: Seq<(usize, usize)>, i: int, j: int) -> bool {
    exists|k: int|
        0 <= k < ps.len() && (#[trigger] ps[k]).0 == i && ps[k].1 == j
}

/// The grid with every listed cell set live and all other cells unchanged.
pub open spec fn mark_view(g: Seq<Seq<bool>>, ps: Seq<(usize, usize)>) -> Seq<Seq<bool>> {
    Seq::new(g.len(), |i: int| Seq::new(g[i].len(), |j: int| g[i][j] || contains_pos(ps, i, j)))
}

/// Every offset, translated by `anchor`, lands inside a grid of the given
/// dimensions.
pub open spec fn stamp_fits(
    offs: Seq<(usize, usize)>,
    anchor: (usize, usize),
    rows: usize,
    columns: usize,
) -> bool {
    forall|k: int|
        0 <= k < offs.len() ==> (#[trigger] offs[k]).0 + anchor.0 < rows && offs[k].1 + anchor.1
            < columns
}

/// The cell (i, j) is one of the offsets translated by `anchor`.
pub open spec fn stamped_at(offs: Seq<(usize, usize)>, anchor: (usize, usize), i: int, j: int) -> bool {
    exists|k: int|
        0 <= k < offs.len() && (#[trigger] offs[k]).0 + anchor.0 == i && offs[k].1 + anchor.1 == j
}

/// A fixed-size rectangular cell matrix with hard edges.
#[derive(Debug, Clone, PartialEq, Eq)]
pub struct Grid {
    columns: usize,
    rows: usize,
    grid: Vec<Vec<bool>>,
}

impl View for Grid {
    type V = Seq<Seq<bool>>;

    closed spec fn view(&self) -> Seq<Seq<bool>> {
        matrix_view(self.grid@)
    }
}

impl Grid {
    /// The view indexes the same cells as the underlying row vectors.
    proof fn lemma_view(self)
        ensures
            self@.len() == self.grid@.len(),
            forall|a: int| 0 <= a < self.grid@.len() ==> self@[a] == (#[trigger] self.grid@[a])@,
    {
    }

    /// How many rows the grid was constructed with.
    pub closed spec fn spec_rows(&self) -> usize {
        self.rows
    }

    /// How many columns the grid was constructed with.
    pub closed spec fn spec_columns(&self) -> usize {
        self.columns
    }

    /// The matrix matches the constructed dimensions: `spec_rows()` rows,
    /// each of `spec_columns()` cells. Constructors establish this and every
    /// method preserves it.
    pub open spec fn well_formed(&self) -> bool {
        self@.len() == self.spec_rows() && forall|i: int|
            0 <= i < self@.len() ==> (#[trigger] self@[i]).len() == self.spec_columns()
    }

    /// A grid of the given dimensions with every cell dead. Never fails.
    pub fn sized(columns: usize, rows: usize) -> (g: Grid)
        ensures
            g.well_formed(),
            g.spec_columns() == columns,
            g.spec_rows() == rows,
            all_dead(g@),
    {
        let mut grid: Vec<Vec<bool>> = Vec::new();
        let mut i: usize = 0;
        while i < rows
            invariant
                i <= rows,
                grid@.len() == i,
                forall|a: int| 0 <= a < i ==> (#[trigger] grid@[a])@.len() == columns,
                forall|a: int, b: int|
                    0 <= a < i && 0 <= b < columns ==> !(#[trigger] grid@[a]@[b]),
            decreases rows - i,
        {
            let mut row: Vec<bool> = Vec::new();
            let mut j: usize = 0;
            while j < columns
                invariant
                    j <= columns,
                    row@.len() == j,
                    forall|b: int| 0 <= b < j ==> !(#[trigger] row@[b]),
                decreases columns - j,
            {
                row.push(false);
                j += 1;
            }
            grid.push(row);
            i += 1;
        }
        let g = Grid { columns, rows, grid };
        proof {
            assert forall|i: int, j: int| !alive_at(g@, i, j) by {
                if 0 <= i < g@.len() && 0 <= j < g@[i].len() {
                    assert(!g.grid@[i]@[j]);
                }
            }
        }
        g
    }

    /// A grid that wraps a caller-supplied matrix as-is. The matrix must be
    /// rectangular; the contract at this boundary guarantees it, so nothing
    /// is validated, truncated or padded at run time.
    pub fn new(grid: Vec<Vec<bool>>) -> (g: Grid)
        requires
            forall|i: int|
                0 <= i < grid@.len() ==> (#[trigger] grid@[i])@.len() == grid@[0]@.len(),
        ensures
            g.well_formed(),
            g@ == matrix_view(grid@),
            g.spec_rows() == grid@.len(),
            g.spec_columns() == if grid@.len() == 0 {
                0int
            } else {
                grid@[0]@.len() as int
            },
    {
        let rows = grid.len();
        let columns = if rows == 0 {
            0
        } else {
            grid[0].len()
        };
        Grid { columns, rows, grid }
    }

    /// The number of rows.
    pub fn rows(&self) -> (r: usize)
        ensures
            r == self.spec_rows(),
    {
        self.rows
    }

    /// The number of columns.
    pub fn columns(&self) -> (c: usize)
        ensures
            c == self.spec_columns(),
    {
        self.columns
    }

    /// Whether the cell at (row, col) is live.
    pub fn get(&self, row: usize, col: usize) -> (b: bool)
        requires
            self.well_formed(),
            row < self.spec_rows(),
            col < self.spec_columns(),
        ensures
            b == self@[row as int][col as int],
    {
        proof {
            self.lemma_view();
        }
        self.grid[row][col]
    }

    /// How many of the up-to-eight neighbors of (i, j) are live. Pure and
    /// read-only; edge and corner cells have a reduced neighbor set.
    pub fn live_neighbors_around(&self, i: usize, j: usize) -> (n: usize)
        requires
            self.well_formed(),
            i < self.spec_rows(),
            j < self.spec_columns(),
        ensures
            n as int == neighbor_count(self@, i as int, j as int),
            n <= 8,
    {
        proof {
            self.lemma_view();
        }
        let mut live_neighbors: usize = 0;

        if i > 0 {
            if j > 0 && self.grid[i - 1][j - 1] {
                live_neighbors += 1;
            }
            if self.grid[i - 1][j] {
                live_neighbors += 1;
            }
            if j < self.columns - 1 && self.grid[i - 1][j + 1] {
                live_neighbors += 1;
            }
        }

        if j > 0 && self.grid[i][j - 1] {
            live_neighbors += 1;
        }
        if j < self.columns - 1 && self.grid[i][j + 1] {
            live_neighbors += 1;
        }

        if i < self.rows - 1 {
            if j > 0 && self.grid[i + 1][j - 1] {
                live_neighbors += 1;
            }
            if self.grid[i + 1][j] {
                live_neighbors += 1;
            }
            if j < self.columns - 1 && self.grid[i + 1][j + 1] {
                live_neighbors += 1;
            }
        }

        live_neighbors
    }

    /// Advance the whole grid one generation, synchronously: every cell of
    /// the new matrix is computed from the previous generation, so neighbor
    /// counts never see partially updated cells.
    pub fn tick(&mut self)
        requires
            old(self).well_formed(),
        ensures
            final(self).well_formed(),
            final(self).spec_rows() == old(self).spec_rows(),
            final(self).spec_columns() == old(self).spec_columns(),
            final(self)@ == next_grid(old(self)@),
    {
        let rows = self.rows;
        let columns = self.columns;
        let mut new_grid: Vec<Vec<bool>> = Vec::new();
        let mut i: usize = 0;
        while i < rows
            invariant
                self == old(self),
                self.well_formed(),
                rows == self.spec_rows(),
                columns == self.spec_columns(),
                i <= rows,
                new_grid@.len() == i,
                forall|a: int| 0 <= a < i ==> (#[trigger] new_grid@[a])@.len() == columns,
                forall|a: int, b: int|
                    0 <= a < i && 0 <= b < columns ==> (#[trigger] new_grid@[a]@[b]) == next_cell(
                        self@,
                        a,
                        b,
                    ),
            decreases rows - i,
        {
            let mut new_row: Vec<bool> = Vec::new();
            let mut j: usize = 0;
            while j < columns
                invariant
                    self == old(self),
                    self.well_formed(),
                    rows == self.spec_rows(),
                    columns == self.spec_columns(),
                    i < rows,
                    j <= columns,
                    new_row@.len() == j,
                    forall|b: int|
                        0 <= b < j ==> (#[trigger] new_row@[b]) == next_cell(self@, i as int, b),
                decreases columns - j,
            {
                proof {
                    self.lemma_view();
                }
                let n = self.live_neighbors_around(i, j);
                let cell = self.grid[i][j];
                proof {
                    assert(alive_at(self@, i as int, j as int) == cell);
                }
                new_row.push((cell && n == 2) || n == 3);
                j += 1;
            }
            new_grid.push(new_row);
            i += 1;
        }
        self.grid = new_grid;
        proof {
            self.lemma_view();
            assert(self@ =~~= next_grid(old(self)@));
        }
    }

    /// Set every listed cell live, leaving all others as they were.
    pub fn mark_alive(&mut self, positions: &Vec<Position>)
        requires
            old(self).well_formed(),
            forall|k: int|
                0 <= k < positions@.len() ==> (#[trigger] positions@[k]).0 < old(self).spec_rows()
                    && positions@[k].1 < old(self).spec_columns(),
        ensures
            final(self).well_formed(),
            final(self).spec_rows() == old(self).spec_rows(),
            final(self).spec_columns() == old(self).spec_columns(),
            final(self)@ == mark_view(old(self)@, positions@),
    {
        let mut k: usize = 0;
        proof {
            assert(self@ =~~= mark_view(old(self)@, positions@.take(0)));
        }
        while k < positions.len()
            invariant
                old(self).well_formed(),
                self.well_formed(),
                self.spec_rows() == old(self).spec_rows(),
                self.spec_columns() == old(self).spec_columns(),
                k <= positions@.len(),
                forall|m: int|
                    0 <= m < positions@.len() ==> (#[trigger] positions@[m]).0
                        < self.spec_rows() && positions@[m].1 < self.spec_columns(),
                self@ == mark_view(old(self)@, positions@.take(k as int)),
            decreases positions@.len() - k,
        {
            let (x, y) = positions[k];
            proof {
                self.lemma_view();
            }
            let ghost prev = self@;
            let ghost prevg = self.grid@;
            self.grid[x][y] = true;
            k += 1;
            proof {
                self.lemma_view();
                assert(self.grid@.len() == prevg.len());
                assert(self.grid@[x as int]@ =~= prevg[x as int]@.update(y as int, true));
                assert forall|a: int| 0 <= a < prevg.len() && a != x implies self@[a] == prev[a] by {
                    assert(self.grid@[a] == prevg[a]);
                }
                assert(self@[x as int] =~= prev[x as int].update(y as int, true));
                // Extending the processed prefix by one adds exactly the cell (x, y).
                let t = positions@.take(k - 1);
                let t1 = positions@.take(k as int);
                assert(t1 =~= t.push(positions@[k - 1]));
                assert forall|i: int, j: int|
                    contains_pos(t1, i, j) == (contains_pos(t, i, j) || (i == x && j == y)) by {
                    if contains_pos(t1, i, j) {
                        let m = choose|m: int|
                            0 <= m < t1.len() && (#[trigger] t1[m]).0 == i && t1[m].1 == j;
                        if m < k - 1 {
                            assert(t[m] == t1[m]);
                        }
                    }
                    if contains_pos(t, i, j) {
                        let m = choose|m: int|
                            0 <= m < t.len() && (#[trigger] t[m]).0 == i && t[m].1 == j;
                        assert(t1[m] == t[m]);
                    }
                    if i == x && j == y {
                        assert(t1[k - 1] == positions@[k - 1]);
                        assert(contains_pos(t1, i, j));
                    }
                }
                assert forall|i: int, j: int|
                    0 <= i < self@.len() && 0 <= j < self@[i].len() implies self@[i][j] == (old(
                        self,
                    )@[i][j] || contains_pos(t1, i, j)) by {
                    assert(prev[i][j] == (old(self)@[i][j] || contains_pos(t, i, j)));
                    if i == x && j == y {
                        assert(self@[i][j]);
                        assert(contains_pos(t1, i, j));
                    } else {
                        if i != x {
                            assert(self@[i] == prev[i]);
                        } else {
                            assert(self@[i][j] == prev[i][j]);
                        }
                        assert(contains_pos(t1, i, j) == contains_pos(t, i, j));
                    }
                }
                assert(self@ =~~= mark_view(old(self)@, t1));
            }
        }
        proof {
            assert(positions@.take(positions@.len() as int) =~= positions@);
        }
    }

    /// Stamp a pattern: resolve its shape from the catalog, reflect it per
    /// the symmetry mode, translate it by `anchor`, and set every resulting
    /// cell live. Stamping is purely additive and never partial: on any
    /// failure the grid is left entirely unchanged.
    pub fn stamp(&mut self, stamp: Stamp, anchor: Position, rotation: Simmetry) -> (r: Result<
        (),
        StampError,
    >)
        requires
            old(self).well_formed(),
        ensures
            final(self).well_formed(),
            final(self).spec_rows() == old(self).spec_rows(),
            final(self).spec_columns() == old(self).spec_columns(),
            ({
                let offs = spec_apply(rotation, spec_size(stamp), spec_offsets(stamp));
                match r {
                    Ok(_) => spec_supported(stamp) && stamp_fits(
                        offs,
                        anchor,
                        old(self).spec_rows(),
                        old(self).spec_columns(),
                    ) && forall|i: int, j: int|
                        0 <= i < old(self).spec_rows() && 0 <= j < old(self).spec_columns()
                            ==> final(self)@[i][j] == (old(self)@[i][j] || stamped_at(
                            offs,
                            anchor,
                            i,
                            j,
                        )),
                    Err(StampError::Unsupported(s)) => s == stamp && !spec_supported(stamp)
                        && final(self)@ == old(self)@,
                    Err(StampError::OutOfBounds(p)) => p == anchor && spec_supported(stamp)
                        && !stamp_fits(
                        offs,
                        anchor,
                        old(self).spec_rows(),
                        old(self).spec_columns(),
                    ) && final(self)@ == old(self)@,
                }
            }),
    {
        let reflected = match rotation.rotated(stamp) {
            Ok(v) => v,
            Err(e) => {
                return Err(e);
            },
        };
        let (xi, yi) = anchor;

        // Validate every translated offset before any cell is written.
        let mut k: usize = 0;
        let mut translated: Vec<Position> = Vec::new();
        while k < reflected.len()
            invariant
                self == old(self),
                self.well_formed(),
                spec_supported(stamp),
                reflected@ == spec_apply(rotation, spec_size(stamp), spec_offsets(stamp)),
                k <= reflected@.len(),
                anchor == (xi, yi),
                translated@.len() == k,
                forall|m: int|
                    0 <= m < k ==> (#[trigger] translated@[m]).0 == reflected@[m].0 + xi
                        && translated@[m].1 == reflected@[m].1 + yi,
                forall|m: int|
                    0 <= m < k ==> (#[trigger] reflected@[m]).0 + xi < self.spec_rows()
                        && reflected@[m].1 + yi < self.spec_columns(),
            decreases reflected@.len() - k,
        {
            let (x, y) = reflected[k];
            if !(xi < self.rows && x < self.rows - xi && yi < self.columns && y < self.columns
                - yi) {
                proof {
                    assert(!(reflected@[k as int].0 + xi < self.spec_rows()
                        && reflected@[k as int].1 + yi < self.spec_columns()));
                    assert(!stamp_fits(
                        reflected@,
                        anchor,
                        self.spec_rows(),
                        self.spec_columns(),
                    ));
                }
                return Err(StampError::OutOfBounds(anchor));
            }
            translated.push((x + xi, y + yi));
            k += 1;
        }

        self.mark_alive(&translated);
        proof {
            assert forall|i: int, j: int|
                0 <= i < old(self).spec_rows() && 0 <= j < old(self).spec_columns() implies self@[i][j]
                == (old(self)@[i][j] || stamped_at(reflected@, anchor, i, j)) by {
                assert(self@[i][j] == (old(self)@[i][j] || contains_pos(translated@, i, j)));
                if contains_pos(translated@, i, j) {
                    let m = choose|m: int|
                        0 <= m < translated@.len() && (#[trigger] translated@[m]).0 == i
                            && translated@[m].1 == j;
                    assert((reflected@[m]).0 + anchor.0 == i && reflected@[m].1 + anchor.1 == j);
                    assert(stamped_at(reflected@, anchor, i, j));
                }
                if stamped_at(reflected@, anchor, i, j) {
                    let m = choose|m: int|
                        0 <= m < reflected@.len() && (#[trigger] reflected@[m]).0 + anchor.0 == i
                            && reflected@[m].1 + anchor.1 == j;
                    assert((translated@[m]).0 == i && translated@[m].1 == j);
                    assert(contains_pos(translated@, i, j));
                }
            }
        }
        Ok(())
    }
}

} // verus!
