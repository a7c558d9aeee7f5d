//! Proved behavior of whole configurations under the generation rule: the
//! all-dead fixed point, the block still life, the blinker oscillator and the
//! glider spaceship, each tied back to what `stamp` writes.

use vstd::prelude::*;

use crate::grid::{alive_at, all_dead, live_count, neighbor_count, next_cell, next_grid,
    next_grid_n, stamped_at};
use crate::pattern::{spec_offsets, spec_size, Stamp};
use crate::symmetry::{lemma_apply_identity, spec_apply, Simmetry};

verus! {

/// The matrix has the given dimensions.
pub open spec fn grid_shape(g: Seq<Seq<bool>>, rows: int, columns: int) -> bool {
    g.len() == rows && forall|i: int| 0 <= i < rows ==> (#[trigger] g[i]).len() == columns
}

/// An all-dead grid is a fixed point of the generation rule: ticking it any
/// number of times yields the same all-dead grid.
pub proof fn lemma_tick_all_dead(g: Seq<Seq<bool>>, n: nat)
    requires
        all_dead(g),
    ensures
        next_grid_n(g, n) == g,
    decreases n,
{
    if n > 0 {
        lemma_tick_all_dead(g, (n - 1) as nat);
        assert forall|i: int, j: int|
            0 <= i < g.len() && 0 <= j < g[i].len() implies !next_cell(g, i, j) by {
            assert(!alive_at(g, i - 1, j - 1));
            assert(!alive_at(g, i - 1, j));
            assert(!alive_at(g, i - 1, j + 1));
            assert(!alive_at(g, i, j - 1));
            assert(!alive_at(g, i, j + 1));
            assert(!alive_at(g, i + 1, j - 1));
            assert(!alive_at(g, i + 1, j));
            assert(!alive_at(g, i + 1, j + 1));
            assert(neighbor_count(g, i, j) == 0);
        }
        assert forall|i: int, j: int|
            0 <= i < g.len() && 0 <= j < g[i].len() implies !g[i][j] by {
            assert(!alive_at(g, i, j));
        }
        assert(next_grid(g) =~~= g);
    }
}

/// The four cells of a block whose top-left corner sits at (r, c).
pub open spec fn block_cell(r: int, c: int, i: int, j: int) -> bool {
    (i == r || i == r + 1) && (j == c || j == c + 1)
}

/// The grid's live cells are exactly a block at (r, c).
pub open spec fn grid_is_block(g: Seq<Seq<bool>>, rows: int, columns: int, r: int, c: int) -> bool {
    grid_shape(g, rows, columns) && forall|i: int, j: int|
        0 <= i < rows && 0 <= j < columns ==> ((#[trigger] g[i][j]) <==> block_cell(r, c, i, j))
}

/// A block stamped with margin at least one from every edge, on an otherwise
/// dead grid, is a still life: any number of generations leaves the grid
/// unchanged.
pub proof fn lemma_block_still_life(
    g: Seq<Seq<bool>>,
    rows: int,
    columns: int,
    r: int,
    c: int,
    n: nat,
)
    requires
        grid_is_block(g, rows, columns, r, c),
        1 <= r,
        r + 2 < rows,
        1 <= c,
        c + 2 < columns,
    ensures
        next_grid_n(g, n) == g,
    decreases n,
{
    if n > 0 {
        lemma_block_still_life(g, rows, columns, r, c, (n - 1) as nat);
        assert forall|a: int, b: int| alive_at(g, a, b) <==> block_cell(r, c, a, b) by {
            if 0 <= a < rows && 0 <= b < columns {
                assert(g[a][b] <==> block_cell(r, c, a, b));
            }
        }
        assert forall|i: int, j: int|
            0 <= i < rows && 0 <= j < columns implies (next_cell(g, i, j) <==> block_cell(
            r,
            c,
            i,
            j,
        )) by {
            assert(alive_at(g, i - 1, j - 1) <==> block_cell(r, c, i - 1, j - 1));
            assert(alive_at(g, i - 1, j) <==> block_cell(r, c, i - 1, j));
            assert(alive_at(g, i - 1, j + 1) <==> block_cell(r, c, i - 1, j + 1));
            assert(alive_at(g, i, j - 1) <==> block_cell(r, c, i, j - 1));
            assert(alive_at(g, i, j + 1) <==> block_cell(r, c, i, j + 1));
            assert(alive_at(g, i + 1, j - 1) <==> block_cell(r, c, i + 1, j - 1));
            assert(alive_at(g, i + 1, j) <==> block_cell(r, c, i + 1, j));
            assert(alive_at(g, i + 1, j + 1) <==> block_cell(r, c, i + 1, j + 1));
        }
        assert(next_grid(g) =~~= g);
    }
}

/// The three cells of a horizontal blinker whose left cell sits at (r, c).
pub open spec fn blinker_h_cell(r: int, c: int, i: int, j: int) -> bool {
    i == r && (j == c || j == c + 1 || j == c + 2)
}

/// The three cells of a vertical blinker centered at (r, c + 1): the same
/// shape rotated a quarter turn about its middle cell.
pub open spec fn blinker_v_cell(r: int, c: int, i: int, j: int) -> bool {
    j == c + 1 && (i == r - 1 || i == r || i == r + 1)
}

/// The grid's live cells are exactly a horizontal blinker at (r, c).
pub open spec fn grid_is_blinker_h(g: Seq<Seq<bool>>, rows: int, columns: int, r: int, c: int) -> bool {
    grid_shape(g, rows, columns) && forall|i: int, j: int|
        0 <= i < rows && 0 <= j < columns ==> ((#[trigger] g[i][j]) <==> blinker_h_cell(r, c, i, j))
}

/// The grid's live cells are exactly a vertical blinker centered at (r, c + 1).
pub open spec fn grid_is_blinker_v(g: Seq<Seq<bool>>, rows: int, columns: int, r: int, c: int) -> bool {
    grid_shape(g, rows, columns) && forall|i: int, j: int|
        0 <= i < rows && 0 <= j < columns ==> ((#[trigger] g[i][j]) <==> blinker_v_cell(r, c, i, j))
}

proof fn lemma_blinker_h_to_v(g: Seq<Seq<bool>>, rows: int, columns: int, r: int, c: int)
    requires
        grid_is_blinker_h(g, rows, columns, r, c),
        1 <= r,
        r + 1 < rows,
        1 <= c,
        c + 3 < columns,
    ensures
        grid_is_blinker_v(next_grid(g), rows, columns, r, c),
{
    assert forall|a: int, b: int| alive_at(g, a, b) <==> blinker_h_cell(r, c, a, b) by {
        if 0 <= a < rows && 0 <= b < columns {
            assert(g[a][b] <==> blinker_h_cell(r, c, a, b));
        }
    }
    assert forall|i: int, j: int|
        0 <= i < rows && 0 <= j < columns implies (next_cell(g, i, j) <==> blinker_v_cell(
        r,
        c,
        i,
        j,
    )) by {
        assert(alive_at(g, i - 1, j - 1) <==> blinker_h_cell(r, c, i - 1, j - 1));
        assert(alive_at(g, i - 1, j) <==> blinker_h_cell(r, c, i - 1, j));
        assert(alive_at(g, i - 1, j + 1) <==> blinker_h_cell(r, c, i - 1, j + 1));
        assert(alive_at(g, i, j - 1) <==> blinker_h_cell(r, c, i, j - 1));
        assert(alive_at(g, i, j + 1) <==> blinker_h_cell(r, c, i, j + 1));
        assert(alive_at(g, i + 1, j - 1) <==> blinker_h_cell(r, c, i + 1, j - 1));
        assert(alive_at(g, i + 1, j) <==> blinker_h_cell(r, c, i + 1, j));
        assert(alive_at(g, i + 1, j + 1) <==> blinker_h_cell(r, c, i + 1, j + 1));
    }
}

proof fn lemma_blinker_v_to_h(g: Seq<Seq<bool>>, rows: int, columns: int, r: int, c: int)
    requires
        grid_is_blinker_v(g, rows, columns, r, c),
        1 <= r,
        r + 1 < rows,
        1 <= c,
        c + 3 < columns,
    ensures
        grid_is_blinker_h(next_grid(g), rows, columns, r, c),
{
    assert forall|a: int, b: int| alive_at(g, a, b) <==> blinker_v_cell(r, c, a, b) by {
        if 0 <= a < rows && 0 <= b < columns {
            assert(g[a][b] <==> blinker_v_cell(r, c, a, b));
        }
    }
    assert forall|i: int, j: int|
        0 <= i < rows && 0 <= j < columns implies (next_cell(g, i, j) <==> blinker_h_cell(
        r,
        c,
        i,
        j,
    )) by {
        assert(alive_at(g, i - 1, j - 1) <==> blinker_v_cell(r, c, i - 1, j - 1));
        assert(alive_at(g, i - 1, j) <==> blinker_v_cell(r, c, i - 1, j));
        assert(alive_at(g, i - 1, j + 1) <==> blinker_v_cell(r, c, i - 1, j + 1));
        assert(alive_at(g, i, j - 1) <==> blinker_v_cell(r, c, i, j - 1));
        assert(alive_at(g, i, j + 1) <==> blinker_v_cell(r, c, i, j + 1));
        assert(alive_at(g, i + 1, j - 1) <==> blinker_v_cell(r, c, i + 1, j - 1));
        assert(alive_at(g, i + 1, j) <==> blinker_v_cell(r, c, i + 1, j));
        assert(alive_at(g, i + 1, j + 1) <==> blinker_v_cell(r, c, i + 1, j + 1));
    }
}

/// A blinker with margin at least one from every edge oscillates with period
/// two: one tick turns it into its quarter-turn rotation about its middle
/// cell, and two ticks return exactly the original grid.
pub proof fn lemma_blinker_period_two(g: Seq<Seq<bool>>, rows: int, columns: int, r: int, c: int)
    requires
        grid_is_blinker_h(g, rows, columns, r, c),
        1 <= r,
        r + 1 < rows,
        1 <= c,
        c + 3 < columns,
    ensures
        grid_is_blinker_v(next_grid(g), rows, columns, r, c),
        next_grid_n(g, 2) == g,
{
    lemma_blinker_h_to_v(g, rows, columns, r, c);
    lemma_blinker_v_to_h(next_grid(g), rows, columns, r, c);
    assert(next_grid_n(g, 2) == next_grid(next_grid(g))) by {
        assert(next_grid_n(g, 1) == next_grid(next_grid_n(g, 0)));
    }
    assert(next_grid(next_grid(g)) =~~= g);
}

/// The five cells of a glider whose bounding box's top-left corner sits at
/// (r, c), in the orientation the catalog stamps.
pub open spec fn glider_cell(r: int, c: int, i: int, j: int) -> bool {
    (i == r && j == c) || (i == r + 1 && j == c + 1) || (i == r + 1 && j == c + 2) || (i == r + 2
        && j == c) || (i == r + 2 && j == c + 1)
}

/// The glider one generation after `glider_cell(r, c)`.
pub open spec fn glider_b_cell(r: int, c: int, i: int, j: int) -> bool {
    (i == r && j == c + 1) || (i == r + 1 && j == c + 2) || (i == r + 2 && j == c) || (i == r + 2
        && j == c + 1) || (i == r + 2 && j == c + 2)
}

/// The glider two generations after `glider_cell(r, c)`.
pub open spec fn glider_c_cell(r: int, c: int, i: int, j: int) -> bool {
    (i == r + 1 && j == c) || (i == r + 1 && j == c + 2) || (i == r + 2 && j == c + 1) || (i == r
        + 2 && j == c + 2) || (i == r + 3 && j == c + 1)
}

/// The glider three generations after `glider_cell(r, c)`.
pub open spec fn glider_d_cell(r: int, c: int, i: int, j: int) -> bool {
    (i == r + 1 && j == c + 2) || (i == r + 2 && j == c) || (i == r + 2 && j == c + 2) || (i == r
        + 3 && j == c + 1) || (i == r + 3 && j == c + 2)
}

/// The grid's live cells are exactly a glider at (r, c).
pub open spec fn grid_is_glider(g: Seq<Seq<bool>>, rows: int, columns: int, r: int, c: int) -> bool {
    grid_shape(g, rows, columns) && forall|i: int, j: int|
        0 <= i < rows && 0 <= j < columns ==> ((#[trigger] g[i][j]) <==> glider_cell(r, c, i, j))
}

/// One generation of a grid whose live cells are exactly the set `from`
/// yields exactly the set `to`; both sets are given pointwise.
proof fn lemma_glider_step(
    g: Seq<Seq<bool>>,
    rows: int,
    columns: int,
    r: int,
    c: int,
    from: spec_fn(int, int, int, int) -> bool,
    to: spec_fn(int, int, int, int) -> bool,
)
    requires
        grid_shape(g, rows, columns),
        forall|i: int, j: int|
            0 <= i < rows && 0 <= j < columns ==> ((#[trigger] g[i][j]) <==> from(r, c, i, j)),
        forall|i: int, j: int| #[trigger] from(r, c, i, j) ==> r <= i < r + 4 && c <= j < c + 4,
        forall|i: int, j: int|
            r - 1 <= i < r + 5 && c - 1 <= j < c + 5 ==> ((#[trigger] to(r, c, i, j)) <==> ((
            live_count(from(r, c, i, j)) == 1 && count_from(from, r, c, i, j) == 2) || count_from(
                from,
                r,
                c,
                i,
                j,
            ) == 3)),
        forall|i: int, j: int| #[trigger] to(r, c, i, j) ==> r <= i < r + 4 && c <= j < c + 4,
        1 <= r,
        r + 4 < rows,
        1 <= c,
        c + 4 < columns,
    ensures
        grid_shape(next_grid(g), rows, columns),
        forall|i: int, j: int|
            0 <= i < rows && 0 <= j < columns ==> ((#[trigger] next_grid(g)[i][j]) <==> to(
                r,
                c,
                i,
                j,
            )),
{
    assert forall|a: int, b: int| alive_at(g, a, b) <==> from(r, c, a, b) by {
        if 0 <= a < rows && 0 <= b < columns {
            assert(g[a][b] <==> from(r, c, a, b));
        }
    }
    assert forall|i: int, j: int|
        0 <= i < rows && 0 <= j < columns implies (next_cell(g, i, j) <==> to(r, c, i, j)) by {
        assert(alive_at(g, i - 1, j - 1) <==> from(r, c, i - 1, j - 1));
        assert(alive_at(g, i - 1, j) <==> from(r, c, i - 1, j));
        assert(alive_at(g, i - 1, j + 1) <==> from(r, c, i - 1, j + 1));
        assert(alive_at(g, i, j - 1) <==> from(r, c, i, j - 1));
        assert(alive_at(g, i, j + 1) <==> from(r, c, i, j + 1));
        assert(alive_at(g, i + 1, j - 1) <==> from(r, c, i + 1, j - 1));
        assert(alive_at(g, i + 1, j) <==> from(r, c, i + 1, j));
        assert(alive_at(g, i + 1, j + 1) <==> from(r, c, i + 1, j + 1));
        assert(alive_at(g, i, j) <==> from(r, c, i, j));
        assert(neighbor_count(g, i, j) == count_from(from, r, c, i, j));
        if r - 1 <= i < r + 5 && c - 1 <= j < c + 5 {
        } else {
            assert(!to(r, c, i, j));
            assert(neighbor_count(g, i, j) == 0);
        }
    }
}

/// How many of the eight neighbors of (i, j) lie in the pointwise set `from`.
pub open spec fn count_from(
    from: spec_fn(int, int, int, int) -> bool,
    r: int,
    c: int,
    i: int,
    j: int,
) -> int {
    live_count(from(r, c, i - 1, j - 1)) + live_count(from(r, c, i - 1, j)) + live_count(
        from(r, c, i - 1, j + 1),
    ) + live_count(from(r, c, i, j - 1)) + live_count(from(r, c, i, j + 1)) + live_count(
        from(r, c, i + 1, j - 1),
    ) + live_count(from(r, c, i + 1, j)) + live_count(from(r, c, i + 1, j + 1))
}

/// A glider with margin at least one around its four-generation journey
/// reproduces itself translated by (+1, +1) after exactly four ticks.
pub proof fn lemma_glider_translates(g: Seq<Seq<bool>>, rows: int, columns: int, r: int, c: int)
    requires
        grid_is_glider(g, rows, columns, r, c),
        1 <= r,
        r + 4 < rows,
        1 <= c,
        c + 4 < columns,
    ensures
        grid_is_glider(next_grid_n(g, 4), rows, columns, r + 1, c + 1),
{
    let fa = |r: int, c: int, i: int, j: int| glider_cell(r, c, i, j);
    let fb = |r: int, c: int, i: int, j: int| glider_b_cell(r, c, i, j);
    let fc = |r: int, c: int, i: int, j: int| glider_c_cell(r, c, i, j);
    let fd = |r: int, c: int, i: int, j: int| glider_d_cell(r, c, i, j);
    let fe = |r: int, c: int, i: int, j: int| glider_cell(r + 1, c + 1, i, j);
    let g1 = next_grid(g);
    let g2 = next_grid(g1);
    let g3 = next_grid(g2);
    let g4 = next_grid(g3);
    lemma_glider_step(g, rows, columns, r, c, fa, fb);
    lemma_glider_step(g1, rows, columns, r, c, fb, fc);
    lemma_glider_step(g2, rows, columns, r, c, fc, fd);
    lemma_glider_step(g3, rows, columns, r, c, fd, fe);
    assert(next_grid_n(g, 4) == g4) by {
        assert(next_grid_n(g, 1) == next_grid(next_grid_n(g, 0)));
        assert(next_grid_n(g, 2) == next_grid(next_grid_n(g, 1)));
        assert(next_grid_n(g, 3) == next_grid(next_grid_n(g, 2)));
    }
    assert forall|i: int, j: int|
        0 <= i < rows && 0 <= j < columns implies ((#[trigger] g4[i][j]) <==> glider_cell(
        r + 1,
        c + 1,
        i,
        j,
    )) by {
        assert(g4[i][j] <==> fe(r, c, i, j));
    }
}

/// The cells that stamping a block at `anchor` without mirroring sets live
/// are exactly `block_cell` at that anchor.
pub proof fn lemma_block_stamped_cells(anchor: (usize, usize), i: int, j: int)
    ensures
        stamped_at(
            spec_apply(Simmetry::Identity, spec_size(Stamp::Block), spec_offsets(Stamp::Block)),
            anchor,
            i,
            j,
        ) <==> block_cell(anchor.0 as int, anchor.1 as int, i, j),
{
    lemma_apply_identity(spec_size(Stamp::Block), spec_offsets(Stamp::Block));
    let offs = spec_offsets(Stamp::Block);
    let r = anchor.0 as int;
    let c = anchor.1 as int;
    if stamped_at(offs, anchor, i, j) {
        let k = choose|k: int|
            0 <= k < offs.len() && (#[trigger] offs[k]).0 + anchor.0 == i && offs[k].1 + anchor.1
                == j;
        assert(block_cell(r, c, i, j));
    }
    if block_cell(r, c, i, j) {
        if i == r && j == c {
            assert(offs[0].0 + anchor.0 == i && offs[0].1 + anchor.1 == j);
        } else if i == r && j == c + 1 {
            assert(offs[1].0 + anchor.0 == i && offs[1].1 + anchor.1 == j);
        } else if i == r + 1 && j == c {
            assert(offs[2].0 + anchor.0 == i && offs[2].1 + anchor.1 == j);
        } else {
            assert(offs[3].0 + anchor.0 == i && offs[3].1 + anchor.1 == j);
        }
        assert(stamped_at(offs, anchor, i, j));
    }
}

/// A block stamped without mirroring onto an otherwise dead grid, with
/// margin at least one from every edge, is a still life: any number of
/// generations leaves the stamped grid unchanged.
pub proof fn lemma_stamped_block_still_life(
    dead: Seq<Seq<bool>>,
    g: Seq<Seq<bool>>,
    rows: int,
    columns: int,
    anchor: (usize, usize),
    n: nat,
)
    requires
        grid_shape(dead, rows, columns),
        all_dead(dead),
        grid_shape(g, rows, columns),
        forall|i: int, j: int|
            0 <= i < rows && 0 <= j < columns ==> (#[trigger] g[i][j]) == (dead[i][j]
                || stamped_at(
                spec_apply(
                    Simmetry::Identity,
                    spec_size(Stamp::Block),
                    spec_offsets(Stamp::Block),
                ),
                anchor,
                i,
                j,
            )),
        1 <= anchor.0,
        anchor.0 + 2 < rows,
        1 <= anchor.1,
        anchor.1 + 2 < columns,
    ensures
        next_grid_n(g, n) == g,
{
    assert forall|i: int, j: int|
        0 <= i < rows && 0 <= j < columns implies ((#[trigger] g[i][j]) <==> block_cell(
        anchor.0 as int,
        anchor.1 as int,
        i,
        j,
    )) by {
        assert(!alive_at(dead, i, j));
        lemma_block_stamped_cells(anchor, i, j);
    }
    lemma_block_still_life(g, rows, columns, anchor.0 as int, anchor.1 as int, n);
}

/// The cells that stamping a blinker at `anchor` without mirroring sets live
/// are exactly the horizontal blinker at that anchor.
pub proof fn lemma_blinker_stamped_cells(anchor: (usize, usize), i: int, j: int)
    ensures
        stamped_at(
            spec_apply(
                Simmetry::Identity,
                spec_size(Stamp::Blinker),
                spec_offsets(Stamp::Blinker),
            ),
            anchor,
            i,
            j,
        ) <==> blinker_h_cell(anchor.0 as int, anchor.1 as int, i, j),
{
    lemma_apply_identity(spec_size(Stamp::Blinker), spec_offsets(Stamp::Blinker));
    let offs = spec_offsets(Stamp::Blinker);
    let r = anchor.0 as int;
    let c = anchor.1 as int;
    if stamped_at(offs, anchor, i, j) {
        let k = choose|k: int|
            0 <= k < offs.len() && (#[trigger] offs[k]).0 + anchor.0 == i && offs[k].1 + anchor.1
                == j;
        assert(blinker_h_cell(r, c, i, j));
    }
    if blinker_h_cell(r, c, i, j) {
        if j == c {
            assert(offs[0].0 + anchor.0 == i && offs[0].1 + anchor.1 == j);
        } else if j == c + 1 {
            assert(offs[1].0 + anchor.0 == i && offs[1].1 + anchor.1 == j);
        } else {
            assert(offs[2].0 + anchor.0 == i && offs[2].1 + anchor.1 == j);
        }
        assert(stamped_at(offs, anchor, i, j));
    }
}

/// A blinker stamped without mirroring onto an otherwise dead grid, with
/// margin at least one from every edge, oscillates with period two: one tick
/// gives its quarter-turn rotation, two ticks return the stamped grid.
pub proof fn lemma_stamped_blinker_period_two(
    dead: Seq<Seq<bool>>,
    g: Seq<Seq<bool>>,
    rows: int,
    columns: int,
    anchor: (usize, usize),
)
    requires
        grid_shape(dead, rows, columns),
        all_dead(dead),
        grid_shape(g, rows, columns),
        forall|i: int, j: int|
            0 <= i < rows && 0 <= j < columns ==> (#[trigger] g[i][j]) == (dead[i][j]
                || stamped_at(
                spec_apply(
                    Simmetry::Identity,
                    spec_size(Stamp::Blinker),
                    spec_offsets(Stamp::Blinker),
                ),
                anchor,
                i,
                j,
            )),
        1 <= anchor.0,
        anchor.0 + 1 < rows,
        1 <= anchor.1,
        anchor.1 + 3 < columns,
    ensures
        grid_is_blinker_v(next_grid(g), rows, columns, anchor.0 as int, anchor.1 as int),
        next_grid_n(g, 2) == g,
{
    assert forall|i: int, j: int|
        0 <= i < rows && 0 <= j < columns implies ((#[trigger] g[i][j]) <==> blinker_h_cell(
        anchor.0 as int,
        anchor.1 as int,
        i,
        j,
    )) by {
        assert(!alive_at(dead, i, j));
        lemma_blinker_stamped_cells(anchor, i, j);
    }
    lemma_blinker_period_two(g, rows, columns, anchor.0 as int, anchor.1 as int);
}

/// The cells that stamping a glider at `anchor` without mirroring sets live
/// are exactly `glider_cell` at that anchor.
pub proof fn lemma_glider_stamped_cells(anchor: (usize, usize), i: int, j: int)
    ensures
        stamped_at(
            spec_apply(Simmetry::Identity, spec_size(Stamp::Glider), spec_offsets(Stamp::Glider)),
            anchor,
            i,
            j,
        ) <==> glider_cell(anchor.0 as int, anchor.1 as int, i, j),
{
    lemma_apply_identity(spec_size(Stamp::Glider), spec_offsets(Stamp::Glider));
    let offs = spec_offsets(Stamp::Glider);
    let r = anchor.0 as int;
    let c = anchor.1 as int;
    if stamped_at(offs, anchor, i, j) {
        let k = choose|k: int|
            0 <= k < offs.len() && (#[trigger] offs[k]).0 + anchor.0 == i && offs[k].1 + anchor.1
                == j;
        assert(glider_cell(r, c, i, j));
    }
    if glider_cell(r, c, i, j) {
        if i == r && j == c {
            assert(offs[0].0 + anchor.0 == i && offs[0].1 + anchor.1 == j);
        } else if i == r + 1 && j == c + 1 {
            assert(offs[1].0 + anchor.0 == i && offs[1].1 + anchor.1 == j);
        } else if i == r + 1 && j == c + 2 {
            assert(offs[2].0 + anchor.0 == i && offs[2].1 + anchor.1 == j);
        } else if i == r + 2 && j == c {
            assert(offs[3].0 + anchor.0 == i && offs[3].1 + anchor.1 == j);
        } else {
            assert(offs[4].0 + anchor.0 == i && offs[4].1 + anchor.1 == j);
        }
        assert(stamped_at(offs, anchor, i, j));
    }
}

/// A glider stamped without mirroring onto an otherwise dead grid, with
/// margin at least one around its four-generation journey, reproduces itself
/// translated by (+1, +1) after exactly four ticks.
pub proof fn lemma_stamped_glider_translates(
    dead: Seq<Seq<bool>>,
    g: Seq<Seq<bool>>,
    rows: int,
    columns: int,
    anchor: (usize, usize),
)
    requires
        grid_shape(dead, rows, columns),
        all_dead(dead),
        grid_shape(g, rows, columns),
        forall|i: int, j: int|
            0 <= i < rows && 0 <= j < columns ==> (#[trigger] g[i][j]) == (dead[i][j]
                || stamped_at(
                spec_apply(
                    Simmetry::Identity,
                    spec_size(Stamp::Glider),
                    spec_offsets(Stamp::Glider),
                ),
                anchor,
                i,
                j,
            )),
        1 <= anchor.0,
        anchor.0 + 4 < rows,
        1 <= anchor.1,
        anchor.1 + 4 < columns,
    ensures
        grid_is_glider(next_grid_n(g, 4), rows, columns, anchor.0 + 1, anchor.1 + 1),
{
    assert forall|i: int, j: int|
        0 <= i < rows && 0 <= j < columns implies ((#[trigger] g[i][j]) <==> glider_cell(
        anchor.0 as int,
        anchor.1 as int,
        i,
        j,
    )) by {
        assert(!alive_at(dead, i, j));
        lemma_glider_stamped_cells(anchor, i, j);
    }
    lemma_glider_translates(g, rows, columns, anchor.0 as int, anchor.1 as int);
}

} // verus!
