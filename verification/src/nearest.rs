//! Distances between points, and the search for what lies nearest.

use vstd::prelude::*;
use crate::grid::{cell_x, cell_y, idx_point, CELLS, Glyph, Grid, Point, Tile};
use crate::rect::spec_abs_diff;

verus! {

/// How the distance between two points is measured.
#[derive(Clone, Copy, Debug, PartialEq, Eq, Structural)]
pub enum Metric {
    /// The straight line. Distances are compared by their squares.
    Pythagoras,
    /// The sum of the distances along the two axes.
    Manhattan,
    /// The greater of the distances along the two axes.
    Chebyshev,
}

/// The distance between `a` and `b` under `metric`; for the straight line,
/// its square.
pub open spec fn spec_distance(metric: Metric, a: Point, b: Point) -> int {
    let dx = spec_abs_diff(a.x as int, b.x as int);
    let dy = spec_abs_diff(a.y as int, b.y as int);
    match metric {
        Metric::Pythagoras => dx * dx + dy * dy,
        Metric::Manhattan => dx + dy,
        Metric::Chebyshev => if dx > dy {
            dx
        } else {
            dy
        },
    }
}

/// The distance between `a` and `b` under `metric`; for the straight line,
/// its square.
pub fn distance(metric: Metric, a: Point, b: Point) -> (d: u128)
    ensures
        d == spec_distance(metric, a, b),
{
    let dx: u128 = (if a.x >= b.x {
        a.x as i64 - b.x as i64
    } else {
        b.x as i64 - a.x as i64
    }) as u128;
    let dy: u128 = (if a.y >= b.y {
        a.y as i64 - b.y as i64
    } else {
        b.y as i64 - a.y as i64
    }) as u128;
    match metric {
        Metric::Pythagoras => {
            assert(dx * dx <= 0x1_0000_0000 * 0x1_0000_0000) by (nonlinear_arith)
                requires
                    dx <= 0x1_0000_0000,
            ;
            assert(dy * dy <= 0x1_0000_0000 * 0x1_0000_0000) by (nonlinear_arith)
                requires
                    dy <= 0x1_0000_0000,
            ;
            dx * dx + dy * dy
        },
        Metric::Manhattan => dx + dy,
        Metric::Chebyshev => if dx > dy {
            dx
        } else {
            dy
        },
    }
}

/// Whether `best` is the seed nearest to `p`, the first such in the list
/// where several are equally near.
pub open spec fn is_closest(seeds: Seq<Point>, metric: Metric, p: Point, best: int) -> bool {
    &&& 0 <= best < seeds.len()
    &&& forall|j: int|
        0 <= j < seeds.len() ==> spec_distance(metric, p, seeds[best]) <= spec_distance(
            metric,
            p,
            #[trigger] seeds[j],
        )
    &&& forall|j: int|
        0 <= j < best ==> spec_distance(metric, p, seeds[best]) < spec_distance(
            metric,
            p,
            #[trigger] seeds[j],
        )
}

/// The place in `seeds` of the seed nearest to `p`, the first such where
/// several are equally near.
pub fn closest_seed(seeds: &Vec<Point>, metric: Metric, p: Point) -> (best: usize)
    requires
        seeds.len() > 0,
    ensures
        is_closest(seeds@, metric, p, best as int),
{
    let mut best: usize = 0;
    let mut best_distance: u128 = distance(metric, p, seeds[0]);
    let mut j: usize = 1;
    while j < seeds.len()
        invariant
            1 <= j <= seeds.len(),
            best < j,
            best_distance == spec_distance(metric, p, seeds@[best as int]),
            forall|k: int|
                0 <= k < j ==> best_distance <= spec_distance(metric, p, #[trigger] seeds@[k]),
            forall|k: int|
                0 <= k < best ==> best_distance < spec_distance(metric, p, #[trigger] seeds@[k]),
        decreases seeds.len() - j,
    {
        let d: u128 = distance(metric, p, seeds[j]);
        if d < best_distance {
            best = j;
            best_distance = d;
        }
        j += 1;
    }
    best
}

/// The seed nearest to a point is unique: two answers are the same answer.
pub proof fn lemma_closest_unique(seeds: Seq<Point>, metric: Metric, p: Point, a: int, b: int)
    requires
        is_closest(seeds, metric, p, a),
        is_closest(seeds, metric, p, b),
    ensures
        a == b,
{
    if a < b {
        assert(spec_distance(metric, p, seeds[b]) < spec_distance(metric, p, seeds[a]));
        assert(spec_distance(metric, p, seeds[a]) <= spec_distance(metric, p, seeds[b]));
    } else if b < a {
        assert(spec_distance(metric, p, seeds[a]) < spec_distance(metric, p, seeds[b]));
        assert(spec_distance(metric, p, seeds[b]) <= spec_distance(metric, p, seeds[a]));
    }
}

/// The point of the cell with index `i`.
pub open spec fn cell_point(i: int) -> Point {
    Point { x: cell_x(i) as i32, y: cell_y(i) as i32 }
}

/// Whether `best` is the cell with glyph `glyph` that lies nearest to
/// `anchor` in a straight line, the one with the lowest index where several
/// are equally near.
pub open spec fn is_nearest_cell(tiles: Seq<Tile>, glyph: Glyph, anchor: Point, best: int) -> bool {
    &&& 0 <= best < CELLS
    &&& tiles[best].0 == glyph
    &&& forall|j: int|
        0 <= j < CELLS && (#[trigger] tiles[j]).0 == glyph ==> spec_distance(
            Metric::Pythagoras,
            anchor,
            cell_point(best),
        ) <= spec_distance(Metric::Pythagoras, anchor, cell_point(j))
    &&& forall|j: int|
        0 <= j < best && (#[trigger] tiles[j]).0 == glyph ==> spec_distance(
            Metric::Pythagoras,
            anchor,
            cell_point(best),
        ) < spec_distance(Metric::Pythagoras, anchor, cell_point(j))
}

/// The nearest cell with a glyph is unique: two answers are the same answer.
pub proof fn lemma_nearest_is_one(tiles: Seq<Tile>, glyph: Glyph, anchor: Point, a: int, b: int)
    requires
        is_nearest_cell(tiles, glyph, anchor, a),
        is_nearest_cell(tiles, glyph, anchor, b),
    ensures
        a == b,
{
    let da = spec_distance(Metric::Pythagoras, anchor, cell_point(a));
    let db = spec_distance(Metric::Pythagoras, anchor, cell_point(b));
    let _ = tiles[a];
    let _ = tiles[b];
    if a < b {
        assert(db < da);
        assert(da <= db);
    } else if b < a {
        assert(da < db);
        assert(db <= da);
    }
}

/// Whether no cell carries `glyph`.
pub open spec fn has_no_cell(tiles: Seq<Tile>, glyph: Glyph) -> bool {
    forall|j: int| 0 <= j < CELLS ==> (#[trigger] tiles[j]).0 != glyph
}

/// The cell with glyph `glyph` that lies nearest to `anchor` in a straight
/// line, the one with the lowest index where several are equally near; `None`
/// where no cell carries the glyph.
pub fn nearest_cell(map: &Grid, glyph: Glyph, anchor: Point) -> (r: Option<usize>)
    requires
        map.wf(),
    ensures
        r is None <==> has_no_cell(map@, glyph),
        r matches Some(best) ==> is_nearest_cell(map@, glyph, anchor, best as int),
{
    let mut best: Option<usize> = None;
    let mut best_distance: u128 = 0;
    let mut i: usize = 0;
    while i < CELLS
        invariant
            i <= CELLS,
            map.wf(),
            best is None <==> forall|j: int| 0 <= j < i ==> (#[trigger] map@[j]).0 != glyph,
            best matches Some(b) ==> {
                &&& b < i
                &&& map@[b as int].0 == glyph
                &&& best_distance == spec_distance(Metric::Pythagoras, anchor, cell_point(b as int))
                &&& forall|j: int|
                    0 <= j < i && (#[trigger] map@[j]).0 == glyph ==> best_distance
                        <= spec_distance(Metric::Pythagoras, anchor, cell_point(j))
                &&& forall|j: int|
                    0 <= j < b && (#[trigger] map@[j]).0 == glyph ==> best_distance
                        < spec_distance(Metric::Pythagoras, anchor, cell_point(j))
            },
        decreases CELLS - i,
    {
        if map.tiles[i].0 == glyph {
            let p: Point = idx_point(i);
            assert(p == cell_point(i as int));
            let d: u128 = distance(Metric::Pythagoras, anchor, p);
            match best {
                None => {
                    best = Some(i);
                    best_distance = d;
                },
                Some(_) => {
                    if d < best_distance {
                        best = Some(i);
                        best_distance = d;
                    }
                },
            }
        }
        i += 1;
    }
    best
}

} // verus!
