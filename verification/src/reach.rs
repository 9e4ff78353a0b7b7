//! What a distance field says about a grid: which walls can be reached, and
//! what is left when the others are removed.

use vstd::prelude::*;
use crate::distance::{
    beyond, is_distance_field, is_start, reaches, shortest, walk_from_start, UNREACHABLE,
};
use crate::graph::{connected, is_walk, open_cell, spec_passable, step_ok, walk_between};
use crate::grid::{default_tile, CELLS, Color, DARK_GRAY, Glyph, Grid, PURPLE, RED, Tile};

verus! {

/// The green of a wall that is `d` steps away: full at no distance, fading
/// evenly to black at a hundred steps and beyond.
pub open spec fn spec_shade(d: int) -> Color {
    if d >= 100 {
        (0u8, 0u8, 0u8)
    } else {
        (0u8, (255 - (255 * d) / 100) as u8, 0u8)
    }
}

/// The green of a wall that is `d` steps away.
pub fn shade(d: u32) -> (c: Color)
    ensures
        c == spec_shade(d as int),
{
    if d >= 100 {
        (0, 0, 0)
    } else {
        (0, (255 - (255 * d) / 100) as u8, 0)
    }
}

/// The tiles after every wall has been coloured by its distance: in the
/// green of [`spec_shade`] where it can be reached, in red where it cannot.
pub open spec fn spec_mark_reachable(tiles: Seq<Tile>, dist: Seq<u32>) -> Seq<Tile> {
    Seq::new(
        tiles.len(),
        |i: int|
            if tiles[i].0 == Glyph::Wall {
                if dist[i] != UNREACHABLE {
                    (Glyph::Wall, spec_shade(dist[i] as int))
                } else {
                    (Glyph::Wall, RED)
                }
            } else {
                tiles[i]
            },
    )
}

/// Colours every wall by its distance.
pub fn mark_reachable(map: &mut Grid, dist: &Vec<u32>)
    requires
        old(map).wf(),
        dist@.len() == CELLS,
    ensures
        final(map).wf(),
        final(map)@ == spec_mark_reachable(old(map)@, dist@),
{
    let mut i: usize = 0;
    while i < CELLS
        invariant
            i <= CELLS,
            map.wf(),
            old(map).wf(),
            dist@.len() == CELLS,
            forall|k: int| 0 <= k < i ==> map@[k] == spec_mark_reachable(old(map)@, dist@)[k],
            forall|k: int| i <= k < CELLS ==> map@[k] == old(map)@[k],
        decreases CELLS - i,
    {
        let ghost before = map@;
        if map.tiles[i].0 == Glyph::Wall {
            let d: u32 = dist[i];
            let color: Color = if d != UNREACHABLE { shade(d) } else { RED };
            map.tiles.set(i, (Glyph::Wall, color));
            assert(map@ == before.update(i as int, (Glyph::Wall, color)));
        }
        assert(map@[i as int] == spec_mark_reachable(old(map)@, dist@)[i as int]);
        i += 1;
    }
    assert(map@ =~= spec_mark_reachable(old(map)@, dist@));
}

/// The tiles after every wall that cannot be reached has become floor.
pub open spec fn spec_cull(tiles: Seq<Tile>, dist: Seq<u32>) -> Seq<Tile> {
    Seq::new(
        tiles.len(),
        |i: int|
            if tiles[i].0 == Glyph::Wall && dist[i] == UNREACHABLE {
                default_tile()
            } else {
                tiles[i]
            },
    )
}

/// Turns every wall that cannot be reached into floor.
pub fn cull_unreachable(map: &mut Grid, dist: &Vec<u32>)
    requires
        old(map).wf(),
        dist@.len() == CELLS,
    ensures
        final(map).wf(),
        final(map)@ == spec_cull(old(map)@, dist@),
{
    let mut i: usize = 0;
    while i < CELLS
        invariant
            i <= CELLS,
            map.wf(),
            old(map).wf(),
            dist@.len() == CELLS,
            forall|k: int| 0 <= k < i ==> map@[k] == spec_cull(old(map)@, dist@)[k],
            forall|k: int| i <= k < CELLS ==> map@[k] == old(map)@[k],
        decreases CELLS - i,
    {
        let ghost before = map@;
        if map.tiles[i].0 == Glyph::Wall && dist[i] == UNREACHABLE {
            map.tiles.set(i, (Glyph::Floor, DARK_GRAY));
            assert(map@ == before.update(i as int, default_tile()));
        }
        assert(map@[i as int] == spec_cull(old(map)@, dist@)[i as int]);
        i += 1;
    }
    assert(map@ =~= spec_cull(old(map)@, dist@));
}

/// The first cells of a walk are a walk.
pub proof fn lemma_walk_prefix(passable: Seq<bool>, p: Seq<int>, n: int)
    requires
        is_walk(passable, p),
        1 <= n <= p.len(),
    ensures
        is_walk(passable, p.subrange(0, n)),
{
    let q = p.subrange(0, n);
    assert forall|k: int| 0 <= k < q.len() implies open_cell(passable, #[trigger] q[k]) by {
        assert(q[k] == p[k]);
    }
    assert forall|k: int| 0 <= k < q.len() - 1 implies #[trigger] step_ok(q, k) by {
        assert(step_ok(p, k));
    }
}

/// After the walls that cannot be reached have been removed, every wall that
/// is left is connected to the start of the distance field, over cells that
/// are left.
pub proof fn lemma_cull_connects(
    tiles: Seq<Tile>,
    dist: Seq<u32>,
    start: usize,
    max_depth: int,
    i: int,
)
    requires
        tiles.len() == CELLS,
        is_distance_field(dist, spec_passable(tiles), seq![start], max_depth),
        0 <= i < CELLS,
        spec_cull(tiles, dist)[i].0 == Glyph::Wall,
    ensures
        connected(spec_passable(spec_cull(tiles, dist)), start as int, i),
{
    let before = spec_passable(tiles);
    let after = spec_passable(spec_cull(tiles, dist));
    let starts = seq![start];
    let d = dist[i] as int;
    assert(tiles[i].0 == Glyph::Wall && dist[i] != UNREACHABLE);
    assert(shortest(before, starts, i, d));
    let p = choose|p: Seq<int>| walk_from_start(before, starts, p, i, d);
    assert(p[0] == start) by {
        let s = choose|s: int| 0 <= s < starts.len() && #[trigger] starts[s] == p[0];
    }
    assert forall|k: int| 0 <= k < p.len() implies open_cell(after, #[trigger] p[k]) by {
        lemma_walk_prefix(before, p, k + 1);
        let q = p.subrange(0, k + 1);
        assert(q[0] == p[0]);
        assert(is_start(starts, q[0]));
        assert(walk_from_start(before, starts, q, p[k], k));
        assert(reaches(before, starts, p[k], k));
        assert(open_cell(before, p[k]));
        if dist[p[k]] == UNREACHABLE {
            assert(beyond(before, starts, p[k], max_depth));
            assert(false);
        }
    }
    assert forall|k: int| 0 <= k < p.len() - 1 implies #[trigger] step_ok(p, k) by {
        assert(step_ok(p, k));
    }
    assert(walk_between(after, p, start as int, i));
}

/// The tiles after the first `n` steps of a route have been marked.
pub open spec fn spec_mark_path(tiles: Seq<Tile>, steps: Seq<usize>, n: int) -> Seq<Tile>
    decreases n,
{
    if n <= 0 {
        tiles
    } else {
        let before = spec_mark_path(tiles, steps, n - 1);
        if steps[n - 1] < before.len() {
            before.update(steps[n - 1] as int, (Glyph::Seed, PURPLE))
        } else {
            before
        }
    }
}

/// Marks every step of a route with a purple star. A step that is no cell of
/// the grid is skipped.
pub fn mark_path(map: &mut Grid, steps: &Vec<usize>)
    requires
        old(map).wf(),
    ensures
        final(map).wf(),
        final(map)@ == spec_mark_path(old(map)@, steps@, steps@.len() as int),
{
    let mut k: usize = 0;
    while k < steps.len()
        invariant
            k <= steps.len(),
            map.wf(),
            map@ == spec_mark_path(old(map)@, steps@, k as int),
        decreases steps.len() - k,
    {
        let cell: usize = steps[k];
        if cell < CELLS {
            map.tiles.set(cell, (Glyph::Seed, PURPLE));
        }
        k += 1;
    }
}

} // verus!
