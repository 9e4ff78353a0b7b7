//! Regions around random seeds: every cell belongs to the seed nearest to it.

use vstd::prelude::*;
use bracket_lib::prelude::RandomNumberGenerator;
use crate::grid::{
    blank_tiles, cell_x, cell_y, default_tile, frames_wf, idx_point, iteration_color,
    spec_iteration_color, spec_mapidx, spec_set, CELLS, Frame, Glyph, Grid, HEIGHT, MapGen, Point,
    Tile, WIDTH,
    YELLOW,
};
use crate::nearest::{
    cell_point, closest_seed, is_closest, lemma_closest_unique, spec_distance, Metric,
};
use crate::rect::spec_abs_diff;
use crate::rng::{range, stream};

verus! {

/// The place in `seeds` of the seed nearest to `p`, the first such where
/// several are equally near.
pub open spec fn spec_closest(seeds: Seq<Point>, metric: Metric, p: Point) -> int {
    choose|best: int| is_closest(seeds, metric, p, best)
}

/// For every cell, the seed that it belongs to.
pub open spec fn spec_membership(seeds: Seq<Point>, metric: Metric) -> Seq<usize> {
    Seq::new(CELLS as nat, |i: int| spec_closest(seeds, metric, cell_point(i)) as usize)
}

/// The tiles that show a membership: every cell in the colour of its seed.
pub open spec fn spec_membership_tiles(membership: Seq<usize>) -> Seq<Tile> {
    Seq::new(CELLS as nat, |i: int| (Glyph::Wall, spec_iteration_color(membership[i] as int)))
}

/// Whether the cell `i` lies on the outer ring of the grid.
pub open spec fn on_edge(i: int) -> bool {
    cell_x(i) == 0 || cell_x(i) == WIDTH - 1 || cell_y(i) == 0 || cell_y(i) == HEIGHT - 1
}

/// Whether the cell `i`, inside the outer ring, belongs to another seed than
/// the cell to its right or the cell below it.
pub open spec fn on_boundary(membership: Seq<usize>, i: int) -> bool {
    membership[i] != membership[i + 1] || membership[i] != membership[i + WIDTH]
}

/// The tiles that show the boundaries of a membership: a yellow wall on every
/// cell inside the outer ring that lies on a boundary, floor elsewhere.
pub open spec fn spec_boundary_tiles(membership: Seq<usize>) -> Seq<Tile> {
    Seq::new(
        CELLS as nat,
        |i: int|
            if !on_edge(i) && on_boundary(membership, i) {
                (Glyph::Wall, YELLOW)
            } else {
                default_tile()
            },
    )
}

/// The tiles after the first `n` seeds have been marked, each in the colour
/// of its place in the list.
pub open spec fn spec_seed_tiles(tiles: Seq<Tile>, seeds: Seq<Point>, n: int) -> Seq<Tile>
    decreases n,
{
    if n <= 0 {
        tiles
    } else {
        spec_set(
            spec_seed_tiles(tiles, seeds, n - 1),
            seeds[n - 1],
            (Glyph::Seed, spec_iteration_color(n - 1)),
        )
    }
}

/// The square of the straight-line distance between `(x, y)` and `seed`.
pub open spec fn spec_square(x: int, y: int, seed: Point) -> int {
    (x - seed.x) * (x - seed.x) + (y - seed.y) * (y - seed.y)
}

/// The straight-line distance of a cell is compared by its square.
pub proof fn lemma_distance_is_square(i: int, seed: Point)
    requires
        0 <= i < CELLS,
    ensures
        spec_distance(Metric::Pythagoras, cell_point(i), seed) == spec_square(
            cell_x(i),
            cell_y(i),
            seed,
        ),
{
    let dx = spec_abs_diff(cell_x(i), seed.x as int);
    let dy = spec_abs_diff(cell_y(i), seed.y as int);
    assert(dx * dx == (cell_x(i) - seed.x) * (cell_x(i) - seed.x)) by (nonlinear_arith)
        requires
            dx == cell_x(i) - seed.x || dx == -(cell_x(i) - seed.x),
    ;
    assert(dy * dy == (cell_y(i) - seed.y) * (cell_y(i) - seed.y)) by (nonlinear_arith)
        requires
            dy == cell_y(i) - seed.y || dy == -(cell_y(i) - seed.y),
    ;
}

/// Among the first `n` seeds one is nearest to `p`, the first such where
/// several are equally near.
proof fn lemma_closest_among(seeds: Seq<Point>, metric: Metric, p: Point, n: int) -> (best: int)
    requires
        0 < n <= seeds.len(),
    ensures
        is_closest(seeds.subrange(0, n), metric, p, best),
    decreases n,
{
    let head = seeds.subrange(0, n);
    if n == 1 {
        0
    } else {
        let before = lemma_closest_among(seeds, metric, p, n - 1);
        let shorter = seeds.subrange(0, n - 1);
        assert forall|j: int| 0 <= j < n - 1 implies shorter[j] == head[j] by {}
        let best = if spec_distance(metric, p, head[n - 1]) < spec_distance(metric, p, head[before]) {
            n - 1
        } else {
            before
        };
        assert forall|j: int| 0 <= j < head.len() implies spec_distance(metric, p, head[best])
            <= spec_distance(metric, p, #[trigger] head[j]) by {
            if j < n - 1 {
                assert(spec_distance(metric, p, shorter[before]) <= spec_distance(
                    metric,
                    p,
                    shorter[j],
                ));
            }
        }
        assert forall|j: int| 0 <= j < best implies spec_distance(metric, p, head[best])
            < spec_distance(metric, p, #[trigger] head[j]) by {
            assert(spec_distance(metric, p, shorter[before]) <= spec_distance(
                metric,
                p,
                shorter[j],
            ));
            if j < before {
                assert(spec_distance(metric, p, shorter[before]) < spec_distance(
                    metric,
                    p,
                    shorter[j],
                ));
            }
        }
        best
    }
}

/// Every cell belongs to a seed: the seed that the membership names is the
/// nearest one.
pub proof fn lemma_membership_is_closest(seeds: Seq<Point>, metric: Metric, i: int)
    requires
        0 < seeds.len() <= usize::MAX,
        0 <= i < CELLS,
    ensures
        is_closest(seeds, metric, cell_point(i), spec_membership(seeds, metric)[i] as int),
{
    let best = lemma_closest_among(seeds, metric, cell_point(i), seeds.len() as int);
    assert(seeds.subrange(0, seeds.len() as int) =~= seeds);
    assert(is_closest(seeds, metric, cell_point(i), best));
    let chosen = spec_closest(seeds, metric, cell_point(i));
    assert(is_closest(seeds, metric, cell_point(i), chosen));
    assert(spec_membership(seeds, metric)[i] == chosen as usize);
}

/// Along a line, the difference between the squares of the distances to two
/// seeds changes evenly: where it is not negative at both ends of a stretch,
/// it is not negative in between, and likewise where it is positive.
proof fn lemma_even_between(a: int, b: int, t1: int, t2: int, t3: int, rest: int)
    requires
        t1 <= t2 <= t3,
    ensures
        ({
            let g = |t: int| (t - b) * (t - b) - (t - a) * (t - a) + rest;
            &&& g(t1) >= 0 && g(t3) >= 0 ==> g(t2) >= 0
            &&& g(t1) > 0 && g(t3) > 0 ==> g(t2) > 0
        }),
{
    let g1 = (t1 - b) * (t1 - b) - (t1 - a) * (t1 - a) + rest;
    let g2 = (t2 - b) * (t2 - b) - (t2 - a) * (t2 - a) + rest;
    let g3 = (t3 - b) * (t3 - b) - (t3 - a) * (t3 - a) + rest;
    assert(g2 - g1 == 2 * ((t2 - t1) * (a - b))) by (nonlinear_arith)
        requires
            g1 == (t1 - b) * (t1 - b) - (t1 - a) * (t1 - a) + rest,
            g2 == (t2 - b) * (t2 - b) - (t2 - a) * (t2 - a) + rest,
    ;
    assert(g3 - g2 == 2 * ((t3 - t2) * (a - b))) by (nonlinear_arith)
        requires
            g2 == (t2 - b) * (t2 - b) - (t2 - a) * (t2 - a) + rest,
            g3 == (t3 - b) * (t3 - b) - (t3 - a) * (t3 - a) + rest,
    ;
    if a >= b {
        assert((t2 - t1) * (a - b) >= 0) by (nonlinear_arith)
            requires
                t2 - t1 >= 0,
                a - b >= 0,
        ;
    } else {
        assert((t3 - t2) * (a - b) <= 0) by (nonlinear_arith)
            requires
                t3 - t2 >= 0,
                a - b < 0,
        ;
    }
}

/// Under the straight-line distance, the cells of a row that belong to one
/// seed lie in one stretch: where two cells of a row belong to the same seed,
/// so does every cell between them. Along a row the membership therefore
/// never switches back.
pub proof fn lemma_row_stretch(seeds: Seq<Point>, y: int, x1: int, x2: int, x3: int)
    requires
        0 < seeds.len() <= usize::MAX,
        0 <= y < HEIGHT,
        0 <= x1 <= x2 <= x3 < WIDTH,
        spec_membership(seeds, Metric::Pythagoras)[spec_mapidx(x1, y)] == spec_membership(
            seeds,
            Metric::Pythagoras,
        )[spec_mapidx(x3, y)],
    ensures
        spec_membership(seeds, Metric::Pythagoras)[spec_mapidx(x2, y)] == spec_membership(
            seeds,
            Metric::Pythagoras,
        )[spec_mapidx(x1, y)],
{
    let metric = Metric::Pythagoras;
    let (i1, i2, i3) = (spec_mapidx(x1, y), spec_mapidx(x2, y), spec_mapidx(x3, y));
    assert(cell_x(i1) == x1 && cell_y(i1) == y);
    assert(cell_x(i2) == x2 && cell_y(i2) == y);
    assert(cell_x(i3) == x3 && cell_y(i3) == y);
    lemma_membership_is_closest(seeds, metric, i1);
    lemma_membership_is_closest(seeds, metric, i2);
    lemma_membership_is_closest(seeds, metric, i3);
    let a = spec_membership(seeds, metric)[i1] as int;
    assert(is_closest(seeds, metric, cell_point(i3), a));
    lemma_distance_is_square(i1, seeds[a]);
    lemma_distance_is_square(i2, seeds[a]);
    lemma_distance_is_square(i3, seeds[a]);
    assert forall|j: int| 0 <= j < seeds.len() implies spec_distance(
        metric,
        cell_point(i2),
        seeds[a],
    ) <= spec_distance(metric, cell_point(i2), #[trigger] seeds[j]) && (j < a ==> spec_distance(
        metric,
        cell_point(i2),
        seeds[a],
    ) < spec_distance(metric, cell_point(i2), seeds[j])) by {
        lemma_distance_is_square(i1, seeds[j]);
        lemma_distance_is_square(i2, seeds[j]);
        lemma_distance_is_square(i3, seeds[j]);
        let rest = (y - seeds[j].y) * (y - seeds[j].y) - (y - seeds[a].y) * (y - seeds[a].y);
        lemma_even_between(seeds[a].x as int, seeds[j].x as int, x1, x2, x3, rest);
    }
    assert(is_closest(seeds, metric, cell_point(i2), a));
    lemma_closest_unique(
        seeds,
        metric,
        cell_point(i2),
        a,
        spec_membership(seeds, metric)[i2] as int,
    );
}

/// Under the straight-line distance, the cells of a column that belong to
/// one seed lie in one stretch: where two cells of a column belong to the
/// same seed, so does every cell between them.
pub proof fn lemma_column_stretch(seeds: Seq<Point>, x: int, y1: int, y2: int, y3: int)
    requires
        0 < seeds.len() <= usize::MAX,
        0 <= x < WIDTH,
        0 <= y1 <= y2 <= y3 < HEIGHT,
        spec_membership(seeds, Metric::Pythagoras)[spec_mapidx(x, y1)] == spec_membership(
            seeds,
            Metric::Pythagoras,
        )[spec_mapidx(x, y3)],
    ensures
        spec_membership(seeds, Metric::Pythagoras)[spec_mapidx(x, y2)] == spec_membership(
            seeds,
            Metric::Pythagoras,
        )[spec_mapidx(x, y1)],
{
    let metric = Metric::Pythagoras;
    let (i1, i2, i3) = (spec_mapidx(x, y1), spec_mapidx(x, y2), spec_mapidx(x, y3));
    assert(cell_x(i1) == x && cell_y(i1) == y1);
    assert(cell_x(i2) == x && cell_y(i2) == y2);
    assert(cell_x(i3) == x && cell_y(i3) == y3);
    lemma_membership_is_closest(seeds, metric, i1);
    lemma_membership_is_closest(seeds, metric, i2);
    lemma_membership_is_closest(seeds, metric, i3);
    let a = spec_membership(seeds, metric)[i1] as int;
    assert(is_closest(seeds, metric, cell_point(i3), a));
    lemma_distance_is_square(i1, seeds[a]);
    lemma_distance_is_square(i2, seeds[a]);
    lemma_distance_is_square(i3, seeds[a]);
    assert forall|j: int| 0 <= j < seeds.len() implies spec_distance(
        metric,
        cell_point(i2),
        seeds[a],
    ) <= spec_distance(metric, cell_point(i2), #[trigger] seeds[j]) && (j < a ==> spec_distance(
        metric,
        cell_point(i2),
        seeds[a],
    ) < spec_distance(metric, cell_point(i2), seeds[j])) by {
        lemma_distance_is_square(i1, seeds[j]);
        lemma_distance_is_square(i2, seeds[j]);
        lemma_distance_is_square(i3, seeds[j]);
        let rest = (x - seeds[j].x) * (x - seeds[j].x) - (x - seeds[a].x) * (x - seeds[a].x);
        lemma_even_between(seeds[a].y as int, seeds[j].y as int, y1, y2, y3, rest);
    }
    assert(is_closest(seeds, metric, cell_point(i2), a));
    lemma_closest_unique(
        seeds,
        metric,
        cell_point(i2),
        a,
        spec_membership(seeds, metric)[i2] as int,
    );
}

/// A cell on a boundary is nearly as far from the seed of the cell across
/// the boundary as from its own seed: the squares of the two distances
/// differ by no more than twice the distance between the two seeds along the
/// axis that the boundary crosses, and the other seed lies on the far side.
pub proof fn lemma_boundary_is_near(seeds: Seq<Point>, i: int)
    requires
        0 < seeds.len() <= usize::MAX,
        0 <= i < CELLS,
        !on_edge(i),
    ensures
        ({
            let m = spec_membership(seeds, Metric::Pythagoras);
            let own = seeds[m[i] as int];
            let right = seeds[m[i + 1] as int];
            let below = seeds[m[i + WIDTH] as int];
            &&& 0 <= spec_square(cell_x(i), cell_y(i), right) - spec_square(
                cell_x(i),
                cell_y(i),
                own,
            ) <= 2 * (right.x - own.x)
            &&& 0 <= spec_square(cell_x(i), cell_y(i), below) - spec_square(
                cell_x(i),
                cell_y(i),
                own,
            ) <= 2 * (below.y - own.y)
        }),
{
    let metric = Metric::Pythagoras;
    let m = spec_membership(seeds, metric);
    let (x, y) = (cell_x(i), cell_y(i));
    lemma_membership_is_closest(seeds, metric, i);
    lemma_membership_is_closest(seeds, metric, i + 1);
    lemma_membership_is_closest(seeds, metric, i + WIDTH);
    let own = seeds[m[i] as int];
    let right = seeds[m[i + 1] as int];
    let below = seeds[m[i + WIDTH] as int];
    assert(cell_x(i + 1) == x + 1 && cell_y(i + 1) == y);
    assert(cell_x(i + WIDTH) == x && cell_y(i + WIDTH) == y + 1);
    lemma_distance_is_square(i, own);
    lemma_distance_is_square(i, right);
    lemma_distance_is_square(i, below);
    lemma_distance_is_square(i + 1, own);
    lemma_distance_is_square(i + 1, right);
    lemma_distance_is_square(i + WIDTH, own);
    lemma_distance_is_square(i + WIDTH, below);
    assert(spec_square(x + 1, y, right) - spec_square(x, y, right) == 2 * (x - right.x) + 1)
        by (nonlinear_arith);
    assert(spec_square(x + 1, y, own) - spec_square(x, y, own) == 2 * (x - own.x) + 1)
        by (nonlinear_arith);
    assert(spec_square(x, y + 1, below) - spec_square(x, y, below) == 2 * (y - below.y) + 1)
        by (nonlinear_arith);
    assert(spec_square(x, y + 1, own) - spec_square(x, y, own) == 2 * (y - own.y) + 1)
        by (nonlinear_arith);
}

/// Whether every seed lies inside the outer ring of the grid.
pub open spec fn seeds_inside(seeds: Seq<Point>) -> bool {
    forall|k: int|
        0 <= k < seeds.len() ==> 1 <= (#[trigger] seeds[k]).x < WIDTH - 1 && 1 <= seeds[k].y
            < HEIGHT - 1
}

/// Draws `count` seeds inside the outer ring of the grid: for each, a column
/// and then a row from the stream.
pub fn random_seeds(rng: &mut RandomNumberGenerator, count: usize) -> (seeds: Vec<Point>)
    ensures
        seeds@.len() == count,
        seeds_inside(seeds@),
{
    let mut seeds: Vec<Point> = Vec::new();
    let mut i: usize = 0;
    while i < count
        invariant
            i <= count,
            seeds@.len() == i,
            seeds_inside(seeds@),
        decreases count - i,
    {
        let x: i32 = range(rng, 1, WIDTH as i32 - 1);
        let y: i32 = range(rng, 1, HEIGHT as i32 - 1);
        seeds.push(Point::new(x, y));
        i += 1;
    }
    seeds
}

/// For every cell, the seed that it belongs to.
pub fn membership(seeds: &Vec<Point>, metric: Metric) -> (m: Vec<usize>)
    requires
        seeds@.len() > 0,
    ensures
        m@ == spec_membership(seeds@, metric),
        forall|i: int|
            0 <= i < CELLS ==> is_closest(seeds@, metric, cell_point(i), #[trigger] m@[i] as int),
{
    let mut m: Vec<usize> = Vec::new();
    let mut i: usize = 0;
    while i < CELLS
        invariant
            i <= CELLS,
            seeds@.len() > 0,
            m@.len() == i,
            forall|k: int|
                0 <= k < i ==> is_closest(seeds@, metric, cell_point(k), #[trigger] m@[k] as int),
        decreases CELLS - i,
    {
        let p: Point = idx_point(i);
        assert(p == cell_point(i as int));
        let best: usize = closest_seed(seeds, metric, p);
        m.push(best);
        i += 1;
    }
    proof {
        assert forall|k: int| 0 <= k < CELLS implies m@[k] == spec_membership(seeds@, metric)[k] by {
            let p = cell_point(k);
            assert(is_closest(seeds@, metric, p, m@[k] as int));
            lemma_closest_unique(seeds@, metric, p, m@[k] as int, spec_closest(seeds@, metric, p));
        }
        assert(m@ =~= spec_membership(seeds@, metric));
    }
    m
}

/// Marks every seed on the grid, in the colour of its place in the list.
pub fn paint_seeds(map: &mut Grid, seeds: &Vec<Point>)
    requires
        old(map).wf(),
    ensures
        final(map).wf(),
        final(map)@ == spec_seed_tiles(old(map)@, seeds@, seeds@.len() as int),
{
    let mut i: usize = 0;
    while i < seeds.len()
        invariant
            i <= seeds.len(),
            map.wf(),
            map@ == spec_seed_tiles(old(map)@, seeds@, i as int),
        decreases seeds.len() - i,
    {
        map.set(seeds[i], Glyph::Seed, iteration_color(i));
        i += 1;
    }
}

/// A grid that shows a membership: every cell in the colour of its seed.
pub fn membership_map(membership: &Vec<usize>) -> (map: Grid)
    requires
        membership@.len() == CELLS,
    ensures
        map.wf(),
        map@ == spec_membership_tiles(membership@),
{
    let mut map: Grid = Grid::new();
    let mut i: usize = 0;
    while i < CELLS
        invariant
            i <= CELLS,
            map.wf(),
            membership@.len() == CELLS,
            forall|k: int| 0 <= k < i ==> map@[k] == spec_membership_tiles(membership@)[k],
        decreases CELLS - i,
    {
        let ghost before = map@;
        map.tiles.set(i, (Glyph::Wall, iteration_color(membership[i])));
        assert(map@ == before.update(i as int, (Glyph::Wall, spec_iteration_color(membership@[i as int] as int))));
        i += 1;
    }
    assert(map@ =~= spec_membership_tiles(membership@));
    map
}

/// A grid that shows the boundaries of a membership.
pub fn boundary_map(membership: &Vec<usize>) -> (map: Grid)
    requires
        membership@.len() == CELLS,
    ensures
        map.wf(),
        map@ == spec_boundary_tiles(membership@),
{
    let mut map: Grid = Grid::new();
    let mut i: usize = 0;
    while i < CELLS
        invariant
            i <= CELLS,
            map.wf(),
            membership@.len() == CELLS,
            forall|k: int| 0 <= k < i ==> map@[k] == spec_boundary_tiles(membership@)[k],
            forall|k: int| i <= k < CELLS ==> map@[k] == default_tile(),
        decreases CELLS - i,
    {
        let p: Point = idx_point(i);
        let edge: bool = p.x == 0 || p.x == WIDTH as i32 - 1 || p.y == 0 || p.y == HEIGHT as i32
            - 1;
        let ghost before = map@;
        if !edge {
            if membership[i] != membership[i + 1] || membership[i] != membership[i + WIDTH] {
                map.tiles.set(i, (Glyph::Wall, YELLOW));
                assert(map@ == before.update(i as int, (Glyph::Wall, YELLOW)));
            }
        }
        assert(edge == on_edge(i as int));
        assert(map@[i as int] == spec_boundary_tiles(membership@)[i as int]);
        i += 1;
    }
    assert(map@ =~= spec_boundary_tiles(membership@));
    map
}

/// Whether `frames` is what a run over the seeds `seeds` records: the
/// seeds; the membership under the straight-line, the Manhattan and the
/// Chebyshev distance; and the boundaries of the straight-line membership.
pub open spec fn shows_partition(frames: Seq<Frame>, seeds: Seq<Point>) -> bool {
    &&& frames.len() == 5
    &&& frames[0].0@ == spec_seed_tiles(
        blank_tiles(),
        seeds,
        seeds.len() as int,
    )
    &&& frames[1].0@ == spec_membership_tiles(spec_membership(seeds, Metric::Pythagoras))
    &&& frames[2].0@ == spec_membership_tiles(spec_membership(seeds, Metric::Manhattan))
    &&& frames[3].0@ == spec_membership_tiles(spec_membership(seeds, Metric::Chebyshev))
    &&& frames[4].0@ == spec_boundary_tiles(spec_membership(seeds, Metric::Pythagoras))
    &&& frames[0].1@ == "Initial Seeds"@
    &&& frames[1].1@ == "Closest Membership (Pythagoras)"@
    &&& frames[2].1@ == "Closest Membership (Manhattan)"@
    &&& frames[3].1@ == "Closest Membership (Chebyshev)"@
    &&& frames[4].1@ == "Voronoi Boundary Walls"@
}

/// A run is determined by what it draws: two runs over the same seeds record
/// the same frames.
pub proof fn lemma_run_is_determined(first: Seq<Frame>, second: Seq<Frame>, seeds: Seq<Point>)
    requires
        shows_partition(first, seeds),
        shows_partition(second, seeds),
    ensures
        first.len() == second.len(),
        forall|j: int|
            0 <= j < first.len() ==> (#[trigger] first[j]).0@ == second[j].0@ && first[j].1@
                == second[j].1@,
{
}

/// How many seeds the generator scatters.
pub const SEEDS: usize = 16;

/// The generator of Voronoi regions.
///
/// After [`MapGen::build`], `seeds` holds the seeds that were drawn and `map`
/// the grid of the last frame.
pub struct RoomBuilder {
    /// The seed of the stream that a run draws from; with `None`, every run
    /// draws from a stream seeded by the system.
    pub seed: Option<u64>,
    pub seeds: Vec<Point>,
    pub map: Grid,
}

impl RoomBuilder {
    /// A generator whose every run draws from a stream seeded by the system.
    pub fn new() -> (builder: Box<Self>)
        ensures
            builder.seed is None,
            builder.map.wf(),
    {
        Box::new(RoomBuilder { seed: None, seeds: Vec::new(), map: Grid::new() })
    }

    /// A generator whose every run draws from the stream of `seed`.
    pub fn seeded(seed: u64) -> (builder: Box<Self>)
        ensures
            builder.seed == Some(seed),
            builder.map.wf(),
    {
        Box::new(RoomBuilder { seed: Some(seed), seeds: Vec::new(), map: Grid::new() })
    }
}

/// The frames of a run over the given seeds: the seeds; the membership under
/// the straight-line, the Manhattan and the Chebyshev distance; and the
/// boundaries of the straight-line membership.
pub fn partition_frames(seeds: &Vec<Point>) -> (frames: Vec<Frame>)
    requires
        seeds@.len() > 0,
    ensures
        frames_wf(frames@),
        shows_partition(frames@, seeds@),
{
    let mut frames: Vec<Frame> = Vec::with_capacity(5);
    let mut map: Grid = Grid::new();
    paint_seeds(&mut map, seeds);
    frames.push((map, "Initial Seeds".to_string()));

    let straight: Vec<usize> = membership(seeds, Metric::Pythagoras);
    frames.push((membership_map(&straight), "Closest Membership (Pythagoras)".to_string()));

    let manhattan: Vec<usize> = membership(seeds, Metric::Manhattan);
    frames.push((membership_map(&manhattan), "Closest Membership (Manhattan)".to_string()));

    let chebyshev: Vec<usize> = membership(seeds, Metric::Chebyshev);
    frames.push((membership_map(&chebyshev), "Closest Membership (Chebyshev)".to_string()));

    frames.push((boundary_map(&straight), "Voronoi Boundary Walls".to_string()));
    frames
}

impl MapGen for RoomBuilder {
    /// Nothing is prepared ahead of a run.
    fn setup(&mut self)
        ensures
            *final(self) == *old(self),
    {
    }

    /// Scatters the seeds and returns the frames of [`partition_frames`]
    /// over them.
    fn build(&mut self) -> (frames: Vec<Frame>)
        ensures
            final(self).seed == old(self).seed,
            final(self).map.wf(),
            final(self).seeds@.len() == SEEDS,
            seeds_inside(final(self).seeds@),
            shows_partition(frames@, final(self).seeds@),
            frames@[4].0@ == final(self).map@,
    {
        let mut rng: RandomNumberGenerator = stream(self.seed);
        self.seeds = random_seeds(&mut rng, SEEDS);
        let frames: Vec<Frame> = partition_frames(&self.seeds);
        self.map = frames[4].0.snapshot();
        frames
    }
}

} // verus!
