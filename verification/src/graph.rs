//! The grid as a graph: which cells can be walked on, which cells touch, and
//! what a walk is.

use vstd::prelude::*;
use crate::grid::{cell_x, spec_in_bounds, spec_mapidx, CELLS, Glyph, Grid, Tile, WIDTH};

verus! {

/// The glyphs that searches may step on: what rooms, corridors and dug cells
/// are drawn with, and the two markers that stand on such a cell.
pub open spec fn spec_walkable(glyph: Glyph) -> bool {
    glyph == Glyph::Wall || glyph == Glyph::Actor || glyph == Glyph::Exit
}

/// Whether searches may step on a tile with this glyph.
pub fn walkable(glyph: Glyph) -> (b: bool)
    ensures
        b == spec_walkable(glyph),
{
    match glyph {
        Glyph::Wall => true,
        Glyph::Actor => true,
        Glyph::Exit => true,
        _ => false,
    }
}

/// For every cell, whether it can be walked on.
pub open spec fn spec_passable(tiles: Seq<Tile>) -> Seq<bool> {
    Seq::new(tiles.len(), |i: int| spec_walkable(tiles[i].0))
}

/// For every cell of the grid, whether it can be walked on.
pub fn passable_mask(grid: &Grid) -> (mask: Vec<bool>)
    requires
        grid.wf(),
    ensures
        mask@ == spec_passable(grid@),
        mask.len() == CELLS,
{
    let mut mask: Vec<bool> = Vec::new();
    let mut i: usize = 0;
    while i < CELLS
        invariant
            i <= CELLS,
            grid.wf(),
            mask.len() == i,
            forall|k: int| 0 <= k < i ==> mask@[k] == spec_walkable(grid@[k].0),
        decreases CELLS - i,
    {
        mask.push(walkable(grid.tiles[i].0));
        i += 1;
    }
    assert(mask@ =~= spec_passable(grid@));
    mask
}

/// Whether the cells with indices `a` and `b` share an edge.
pub open spec fn spec_adjacent(a: int, b: int) -> bool {
    &&& 0 <= a < CELLS
    &&& 0 <= b < CELLS
    &&& ((b == a + 1 && cell_x(b) != 0) || (a == b + 1 && cell_x(a) != 0) || b == a + WIDTH || a == b
        + WIDTH)
}

/// Whether the cell `i` lies on the grid and can be walked on.
pub open spec fn open_cell(passable: Seq<bool>, i: int) -> bool {
    0 <= i < CELLS && i < passable.len() && passable[i]
}

/// Whether the walk's step from `p[k]` to `p[k + 1]` joins two cells that
/// share an edge.
pub open spec fn step_ok(p: Seq<int>, k: int) -> bool {
    spec_adjacent(p[k], p[k + 1])
}

/// A walk: at least one cell, every cell open, and every cell sharing an edge
/// with the next.
pub open spec fn is_walk(passable: Seq<bool>, p: Seq<int>) -> bool {
    &&& p.len() >= 1
    &&& forall|k: int| 0 <= k < p.len() ==> open_cell(passable, #[trigger] p[k])
    &&& forall|k: int| 0 <= k < p.len() - 1 ==> #[trigger] step_ok(p, k)
}

/// A walk that starts at `a` and ends at `b`.
pub open spec fn walk_between(passable: Seq<bool>, p: Seq<int>, a: int, b: int) -> bool {
    is_walk(passable, p) && p[0] == a && p[p.len() - 1] == b
}

/// Whether some walk leads from `a` to `b`.
pub open spec fn connected(passable: Seq<bool>, a: int, b: int) -> bool {
    exists|p: Seq<int>| walk_between(passable, p, a, b)
}

/// An open cell is connected to itself.
pub proof fn lemma_connected_refl(passable: Seq<bool>, a: int)
    requires
        open_cell(passable, a),
    ensures
        connected(passable, a, a),
{
    let p = seq![a];
    assert(walk_between(passable, p, a, a));
}

/// A walk stays a walk when an open cell next to its end is appended.
pub proof fn lemma_walk_push(passable: Seq<bool>, p: Seq<int>, b: int)
    requires
        is_walk(passable, p),
        spec_adjacent(p[p.len() - 1], b),
        open_cell(passable, b),
    ensures
        is_walk(passable, p.push(b)),
        p.push(b)[0] == p[0],
{
    let q = p.push(b);
    assert forall|k: int| 0 <= k < q.len() implies open_cell(passable, #[trigger] q[k]) by {
        if k < p.len() {
            assert(q[k] == p[k]);
        }
    }
    assert forall|k: int| 0 <= k < q.len() - 1 implies #[trigger] step_ok(q, k) by {
        if k < p.len() - 1 {
            assert(step_ok(p, k));
        }
    }
}

/// A walk without its last cell is a walk, if a cell is left.
pub proof fn lemma_walk_drop_last(passable: Seq<bool>, p: Seq<int>)
    requires
        is_walk(passable, p),
        p.len() >= 2,
    ensures
        is_walk(passable, p.drop_last()),
        spec_adjacent(p[p.len() - 2], p[p.len() - 1]),
        open_cell(passable, p[p.len() - 1]),
{
    let q = p.drop_last();
    assert forall|k: int| 0 <= k < q.len() implies open_cell(passable, #[trigger] q[k]) by {
        assert(q[k] == p[k]);
    }
    assert forall|k: int| 0 <= k < q.len() - 1 implies #[trigger] step_ok(q, k) by {
        assert(step_ok(p, k));
    }
    assert(step_ok(p, p.len() - 2));
}

/// A walk read backwards is a walk.
pub proof fn lemma_walk_reverse(passable: Seq<bool>, p: Seq<int>)
    requires
        is_walk(passable, p),
    ensures
        is_walk(passable, p.reverse()),
        p.reverse().len() == p.len(),
        p.reverse()[0] == p[p.len() - 1],
        p.reverse()[p.len() - 1] == p[0],
{
    let q = p.reverse();
    assert forall|k: int| 0 <= k < q.len() implies open_cell(passable, #[trigger] q[k]) by {
        assert(q[k] == p[p.len() - 1 - k]);
    }
    assert forall|k: int| 0 <= k < q.len() - 1 implies #[trigger] step_ok(q, k) by {
        assert(step_ok(p, p.len() - 2 - k));
        assert(q[k] == p[p.len() - 1 - k]);
        assert(q[k + 1] == p[p.len() - 2 - k]);
    }
}

/// Two walks, the second starting where the first ends, make one walk.
pub proof fn lemma_walk_concat(passable: Seq<bool>, p: Seq<int>, q: Seq<int>)
    requires
        is_walk(passable, p),
        is_walk(passable, q),
        p[p.len() - 1] == q[0],
    ensures
        is_walk(passable, p + q.drop_first()),
        (p + q.drop_first())[0] == p[0],
        (p + q.drop_first())[(p + q.drop_first()).len() - 1] == q[q.len() - 1],
{
    let r = p + q.drop_first();
    assert forall|k: int| 0 <= k < r.len() implies open_cell(passable, #[trigger] r[k]) by {
        if k < p.len() {
            assert(r[k] == p[k]);
        } else {
            assert(r[k] == q[k - p.len() + 1]);
        }
    }
    assert forall|k: int| 0 <= k < r.len() - 1 implies #[trigger] step_ok(r, k) by {
        if k < p.len() - 1 {
            assert(step_ok(p, k));
        } else {
            assert(step_ok(q, k - p.len() + 1));
            assert(r[k + 1] == q[k - p.len() + 2]);
            if k == p.len() - 1 {
                assert(r[k] == p[k]);
            } else {
                assert(r[k] == q[k - p.len() + 1]);
            }
        }
    }
}

/// Being connected is symmetric.
pub proof fn lemma_connected_symmetric(passable: Seq<bool>, a: int, b: int)
    requires
        connected(passable, a, b),
    ensures
        connected(passable, b, a),
{
    let p = choose|p: Seq<int>| walk_between(passable, p, a, b);
    lemma_walk_reverse(passable, p);
    assert(walk_between(passable, p.reverse(), b, a));
}

/// Being connected is transitive.
pub proof fn lemma_connected_transitive(passable: Seq<bool>, a: int, b: int, c: int)
    requires
        connected(passable, a, b),
        connected(passable, b, c),
    ensures
        connected(passable, a, c),
{
    let p = choose|p: Seq<int>| walk_between(passable, p, a, b);
    let q = choose|q: Seq<int>| walk_between(passable, q, b, c);
    lemma_walk_concat(passable, p, q);
    assert(walk_between(passable, p + q.drop_first(), a, c));
}

/// Cells that are connected stay connected when more cells open.
pub proof fn lemma_connected_monotone(before: Seq<bool>, after: Seq<bool>, a: int, b: int)
    requires
        connected(before, a, b),
        forall|i: int| open_cell(before, i) ==> open_cell(after, i),
    ensures
        connected(after, a, b),
{
    let p = choose|p: Seq<int>| walk_between(before, p, a, b);
    assert forall|k: int| 0 <= k < p.len() implies open_cell(after, #[trigger] p[k]) by {
        assert(open_cell(before, p[k]));
    }
    assert forall|k: int| 0 <= k < p.len() - 1 implies #[trigger] step_ok(p, k) by {
        assert(step_ok(p, k));
    }
    assert(walk_between(after, p, a, b));
}

/// The cells of one row between two columns, all open, connect the two ends.
pub proof fn lemma_row_connected(passable: Seq<bool>, y: int, xa: int, xb: int)
    requires
        spec_in_bounds(xa, y),
        spec_in_bounds(xb, y),
        forall|x: int|
            (xa <= x <= xb || xb <= x <= xa) ==> open_cell(passable, #[trigger] spec_mapidx(x, y)),
    ensures
        connected(passable, spec_mapidx(xa, y), spec_mapidx(xb, y)),
    decreases
            if xa <= xb {
                xb - xa
            } else {
                xa - xb
            },
{
    if xa == xb {
        assert(open_cell(passable, spec_mapidx(xa, y)));
        lemma_connected_refl(passable, spec_mapidx(xa, y));
    } else {
        let xm = if xa < xb { xb - 1 } else { xb + 1 };
        lemma_row_connected(passable, y, xa, xm);
        let p = choose|p: Seq<int>| walk_between(passable, p, spec_mapidx(xa, y), spec_mapidx(xm, y));
        assert(open_cell(passable, spec_mapidx(xb, y)));
        assert(spec_adjacent(spec_mapidx(xm, y), spec_mapidx(xb, y)));
        lemma_walk_push(passable, p, spec_mapidx(xb, y));
        assert(walk_between(passable, p.push(spec_mapidx(xb, y)), spec_mapidx(xa, y), spec_mapidx(xb, y)));
    }
}

/// The cells of one column between two rows, all open, connect the two ends.
pub proof fn lemma_column_connected(passable: Seq<bool>, x: int, ya: int, yb: int)
    requires
        spec_in_bounds(x, ya),
        spec_in_bounds(x, yb),
        forall|y: int|
            (ya <= y <= yb || yb <= y <= ya) ==> open_cell(passable, #[trigger] spec_mapidx(x, y)),
    ensures
        connected(passable, spec_mapidx(x, ya), spec_mapidx(x, yb)),
    decreases
            if ya <= yb {
                yb - ya
            } else {
                ya - yb
            },
{
    if ya == yb {
        assert(open_cell(passable, spec_mapidx(x, ya)));
        lemma_connected_refl(passable, spec_mapidx(x, ya));
    } else {
        let ym = if ya < yb { yb - 1 } else { yb + 1 };
        lemma_column_connected(passable, x, ya, ym);
        let p = choose|p: Seq<int>| walk_between(passable, p, spec_mapidx(x, ya), spec_mapidx(x, ym));
        assert(open_cell(passable, spec_mapidx(x, yb)));
        assert(spec_adjacent(spec_mapidx(x, ym), spec_mapidx(x, yb)));
        lemma_walk_push(passable, p, spec_mapidx(x, yb));
        assert(walk_between(passable, p.push(spec_mapidx(x, yb)), spec_mapidx(x, ya), spec_mapidx(x, yb)));
    }
}

} // verus!
