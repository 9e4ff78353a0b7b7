//! Diffusion-limited aggregation, mirrored: diggers walk straight to the
//! middle of the grid, and what they dig is dug on both sides of the middle
//! column.

use vstd::prelude::*;
use bracket_lib::prelude::RandomNumberGenerator;
use crate::dla::{
    drifting, drop_point, is_drop_point, seed_cluster, seeded_tiles, spec_seed_cluster, Drift,
    MAX_DIGGERS, TARGET,
};
use crate::frames::record;
use crate::grid::{
    blank_tiles, frames_wf, spec_count_glyph, spec_mapidx, spec_recolor, spec_set, CELLS, Frame,
    GREEN, Glyph, Grid, HEIGHT, MapGen, Point, RED, Tile, WIDTH,
};
use crate::line::{lemma_line_is_one, line2d_bresenham, spec_line};
use crate::rect::spec_abs_diff;
use crate::rng::stream;

verus! {

/// The digger that starts at `start` after the first `n` points of `path`:
/// with each point it moves onto that point, as long as it stands on floor.
pub open spec fn spec_approach(tiles: Seq<Tile>, start: Point, path: Seq<Point>, n: int) -> Drift
    decreases n,
{
    if n <= 0 {
        Drift { pos: start, prev: start }
    } else {
        let before = spec_approach(tiles, start, path, n - 1);
        if drifting(tiles, Glyph::Floor, before.pos) {
            Drift { pos: path[n - 1], prev: before.pos }
        } else {
            before
        }
    }
}

/// Moves a digger from `start` along `path` until it stands on a cell that
/// holds no floor, or the path ends.
pub fn approach(map: &Grid, start: Point, path: &Vec<Point>) -> (end: Drift)
    requires
        map.wf(),
    ensures
        end == spec_approach(map@, start, path@, path@.len() as int),
{
    let mut pos: Point = start;
    let mut prev: Point = start;
    let mut k: usize = 0;
    while k < path.len()
        invariant
            k <= path.len(),
            map.wf(),
            spec_approach(map@, start, path@, k as int) == (Drift { pos, prev }),
        decreases path.len() - k,
    {
        let going: bool = match map.get(pos) {
            Some(tile) => tile.0 == Glyph::Floor,
            None => false,
        };
        if going {
            prev = pos;
            pos = path[k];
        }
        k += 1;
    }
    Drift { pos, prev }
}

/// The column in the middle of the grid.
pub const CENTER_X: i32 = 40;

/// The row in the middle of the grid.
pub const CENTER_Y: i32 = 25;

/// The tiles after `p` and the cell as far from the middle column on its
/// other side have become red walls; the cell on the left first.
pub open spec fn spec_mirror(tiles: Seq<Tile>, p: Point) -> Seq<Tile> {
    let tile = (Glyph::Wall, RED);
    if p.x == CENTER_X {
        spec_set(tiles, p, tile)
    } else {
        let d = spec_abs_diff(CENTER_X as int, p.x as int);
        spec_set(
            spec_set(tiles, Point { x: (CENTER_X - d) as i32, y: p.y }, tile),
            Point { x: (CENTER_X + d) as i32, y: p.y },
            tile,
        )
    }
}

/// Turns `p` and the cell as far from the middle column on its other side
/// into red walls.
pub fn mirror(map: &mut Grid, p: Point)
    requires
        old(map).wf(),
        -0x4000_0000 <= p.x <= 0x4000_0000,
    ensures
        final(map).wf(),
        final(map)@ == spec_mirror(old(map)@, p),
{
    if p.x == CENTER_X {
        map.set(p, Glyph::Wall, RED);
    } else {
        let d: i32 = if CENTER_X >= p.x { CENTER_X - p.x } else { p.x - CENTER_X };
        map.set(Point::new(CENTER_X - d, p.y), Glyph::Wall, RED);
        map.set(Point::new(CENTER_X + d, p.y), Glyph::Wall, RED);
    }
}

/// Whether the walls lie alike on both sides of the middle column: a cell
/// holds a wall exactly when the cell as far from the middle column on its
/// other side does. The leftmost column has no such cell and is left out.
pub open spec fn walls_mirrored(tiles: Seq<Tile>) -> bool {
    forall|x: int, y: int|
        1 <= x < WIDTH && 0 <= y < HEIGHT ==> (tiles[#[trigger] spec_mapidx(x, y)].0 == Glyph::Wall)
            == (tiles[spec_mapidx(WIDTH - x, y)].0 == Glyph::Wall)
}

/// Digging a cell and its mirror image leaves the walls alike on both sides.
pub proof fn lemma_mirror_keeps_symmetry(tiles: Seq<Tile>, p: Point)
    requires
        tiles.len() == CELLS,
        walls_mirrored(tiles),
        -0x4000_0000 <= p.x <= 0x4000_0000,
    ensures
        walls_mirrored(spec_mirror(tiles, p)),
{
    let after = spec_mirror(tiles, p);
    assert forall|x: int, y: int| 1 <= x < WIDTH && 0 <= y < HEIGHT implies (after[#[trigger] spec_mapidx(
        x,
        y,
    )].0 == Glyph::Wall) == (after[spec_mapidx(WIDTH - x, y)].0 == Glyph::Wall) by {
        let i = spec_mapidx(x, y);
        let j = spec_mapidx(WIDTH - x, y);
        assert((tiles[i].0 == Glyph::Wall) == (tiles[j].0 == Glyph::Wall));
        assert(crate::grid::cell_x(i) == x && crate::grid::cell_y(i) == y);
        assert(crate::grid::cell_x(j) == WIDTH - x && crate::grid::cell_y(j) == y);
    }
}

/// Recolouring leaves the walls where they are.
pub proof fn lemma_recolor_keeps_symmetry(tiles: Seq<Tile>, from: crate::grid::Color, to: crate::grid::Color)
    requires
        tiles.len() == CELLS,
        walls_mirrored(tiles),
    ensures
        walls_mirrored(spec_recolor(tiles, from, to)),
{
    let after = spec_recolor(tiles, from, to);
    assert forall|x: int, y: int| 1 <= x < WIDTH && 0 <= y < HEIGHT implies (after[#[trigger] spec_mapidx(
        x,
        y,
    )].0 == Glyph::Wall) == (after[spec_mapidx(WIDTH - x, y)].0 == Glyph::Wall) by {
        let i = spec_mapidx(x, y);
        let j = spec_mapidx(WIDTH - x, y);
        assert((tiles[i].0 == Glyph::Wall) == (tiles[j].0 == Glyph::Wall));
    }
}

/// A digger leaves the walls alike on both sides of the middle column.
pub proof fn lemma_digger_keeps_symmetry(before: Seq<Tile>, start: Point)
    requires
        before.len() == CELLS,
        walls_mirrored(before),
        is_drop_point(start),
    ensures
        walls_mirrored(spec_dig(before, start)),
{
    let recolored = spec_recolor(before, RED, GREEN);
    let path = spec_line(start, spec_center());
    lemma_recolor_keeps_symmetry(before, RED, GREEN);
    lemma_approach_prev(recolored, start, path, path.len() as int);
    lemma_mirror_keeps_symmetry(
        recolored,
        spec_approach(recolored, start, path, path.len() as int).prev,
    );
}

/// The seed in the middle of the grid lies alike on both sides.
pub proof fn lemma_seed_is_mirrored()
    ensures
        walls_mirrored(seeded_tiles()),
{
    let blank = blank_tiles();
    let seeded = spec_seed_cluster(blank);
    assert forall|x: int, y: int| 1 <= x < WIDTH && 0 <= y < HEIGHT implies (seeded[#[trigger] spec_mapidx(
        x,
        y,
    )].0 == Glyph::Wall) == (seeded[spec_mapidx(WIDTH - x, y)].0 == Glyph::Wall) by {
        let i = spec_mapidx(x, y);
        let j = spec_mapidx(WIDTH - x, y);
        assert(blank[i].0 == Glyph::Floor && blank[j].0 == Glyph::Floor);
    }
}

/// The middle of the grid.
pub open spec fn spec_center() -> Point {
    Point { x: CENTER_X, y: CENTER_Y }
}

/// What the digger that is dropped on `start` leaves of `before`: the red of
/// the digger before turns green; the digger walks the line to the middle of
/// the grid until it stands on a cell that holds no floor; the cell that it
/// stood on before, and its mirror image, become red walls.
pub open spec fn spec_dig(before: Seq<Tile>, start: Point) -> Seq<Tile> {
    let recolored = spec_recolor(before, RED, GREEN);
    let path = spec_line(start, spec_center());
    spec_mirror(recolored, spec_approach(recolored, start, path, path.len() as int).prev)
}

/// Whether `after` is what one digger may leave of `before`.
#[verifier::opaque]
pub open spec fn dug_by_digger(before: Seq<Tile>, after: Seq<Tile>) -> bool {
    exists|start: Point| is_drop_point(start) && after == #[trigger] spec_dig(before, start)
}

/// Drops one digger and lets it dig; see [`spec_dig`].
pub fn dig(map: &mut Grid, rng: &mut RandomNumberGenerator)
    requires
        old(map).wf(),
    ensures
        final(map).wf(),
        dug_by_digger(old(map)@, final(map)@),
{
    map.recolor(RED, GREEN);
    let ghost recolored = map@;
    let start: Point = drop_point(rng);
    let path: Vec<Point> = line2d_bresenham(start, Point::new(CENTER_X, CENTER_Y));
    let end: Drift = approach(map, start, &path);
    proof {
        lemma_approach_prev(recolored, start, path@, path@.len() as int);
        lemma_line_is_one(path@, start, spec_center());
    }
    mirror(map, end.prev);
    assert(dug_by_digger(old(map)@, map@)) by {
        reveal(dug_by_digger);
        assert(map@ == spec_dig(old(map)@, start));
    }
}

/// A digger has only ever stood on its start and on cells of the grid.
pub proof fn lemma_approach_prev(tiles: Seq<Tile>, start: Point, path: Seq<Point>, n: int)
    requires
        0 <= n <= path.len(),
    ensures
        spec_approach(tiles, start, path, n).prev == start || crate::grid::spec_in_bounds(
            spec_approach(tiles, start, path, n).prev.x as int,
            spec_approach(tiles, start, path, n).prev.y as int,
        ),
    decreases n,
{
    if n > 0 {
        lemma_approach_prev(tiles, start, path, n - 1);
    }
}

/// Whether the digger dropped on `starts[j]` dug the frame after the `j`-th
/// out of the `j`-th, while fewer than a third of the grid was wall.
pub open spec fn dug_in_turn_at(frames: Seq<Frame>, starts: Seq<Point>, j: int) -> bool {
    &&& is_drop_point(starts[j])
    &&& frames[j + 1].0@ == spec_dig(frames[j].0@, starts[j])
    &&& frames[j + 1].1@ == "Iteration"@
    &&& spec_count_glyph(frames[j].0@, Glyph::Wall) < TARGET
}

/// Whether the first `n` diggers dug the frames one out of the other.
pub open spec fn dug_in_turn(frames: Seq<Frame>, starts: Seq<Point>, n: int) -> bool {
    forall|j: int| 0 <= j < n ==> #[trigger] dug_in_turn_at(frames, starts, j)
}

/// Whether `frames` is what a run records whose diggers are dropped on
/// `starts`: the seed, and then one frame per digger, until a third of the
/// grid is wall or [`MAX_DIGGERS`] diggers have been dropped.
#[verifier::opaque]
pub open spec fn is_run(frames: Seq<Frame>, starts: Seq<Point>) -> bool {
    &&& frames.len() == starts.len() + 1
    &&& starts.len() <= MAX_DIGGERS
    &&& frames[0].0@ == seeded_tiles()
    &&& frames[0].1@ == "Starting Seed"@
    &&& dug_in_turn(frames, starts, starts.len() as int)
    &&& spec_count_glyph(frames[starts.len() as int].0@, Glyph::Wall) >= TARGET || starts.len()
        == MAX_DIGGERS
}

/// A run is determined by what it draws: two runs whose diggers are dropped
/// on the same cells record the same frames.
pub proof fn lemma_run_is_determined(first: Seq<Frame>, second: Seq<Frame>, starts: Seq<Point>)
    requires
        is_run(first, starts),
        is_run(second, starts),
    ensures
        first.len() == second.len(),
        forall|j: int|
            0 <= j < first.len() ==> (#[trigger] first[j]).0@ == second[j].0@ && first[j].1@
                == second[j].1@,
{
    reveal(is_run);
    lemma_same_digs(first, second, starts, starts.len() as int);
}

/// Two runs whose diggers are dropped on the same cells agree on their first
/// frames.
proof fn lemma_same_digs(first: Seq<Frame>, second: Seq<Frame>, starts: Seq<Point>, upto: int)
    requires
        first.len() > upto,
        second.len() > upto,
        first[0].0@ == second[0].0@,
        first[0].1@ == second[0].1@,
        0 <= upto <= starts.len(),
        dug_in_turn(first, starts, upto),
        dug_in_turn(second, starts, upto),
    ensures
        forall|j: int|
            0 <= j <= upto ==> (#[trigger] first[j]).0@ == second[j].0@ && first[j].1@
                == second[j].1@,
    decreases upto,
{
    if upto > 0 {
        lemma_same_digs(first, second, starts, upto - 1);
        assert(dug_in_turn_at(first, starts, upto - 1));
        assert(dug_in_turn_at(second, starts, upto - 1));
        assert(first[upto - 1].0@ == second[upto - 1].0@);
    }
}

/// The generator of caves grown by mirrored aggregation.
///
/// After [`MapGen::build`], `map` holds the grid of the last frame.
pub struct RoomBuilder {
    /// The seed of the stream that a run draws from; with `None`, every run
    /// draws from a stream seeded by the system.
    pub seed: Option<u64>,
    pub map: Grid,
}

impl RoomBuilder {
    /// A generator whose every run draws from a stream seeded by the system.
    pub fn new() -> (builder: Box<Self>)
        ensures
            builder.seed is None,
            builder.map.wf(),
    {
        Box::new(RoomBuilder { seed: None, map: Grid::new() })
    }

    /// A generator whose every run draws from the stream of `seed`.
    pub fn seeded(seed: u64) -> (builder: Box<Self>)
        ensures
            builder.seed == Some(seed),
            builder.map.wf(),
    {
        Box::new(RoomBuilder { seed: Some(seed), map: Grid::new() })
    }
}

impl MapGen for RoomBuilder {
    /// Nothing is prepared ahead of a run.
    fn setup(&mut self)
        ensures
            *final(self) == *old(self),
    {
    }

    /// Seeds the middle of the grid and drops diggers until a third of the
    /// grid is wall or [`MAX_DIGGERS`] diggers have been dropped. One frame for
    /// the seed, one per digger, each digger working on the grid of the frame
    /// before.
    fn build(&mut self) -> (frames: Vec<Frame>)
        ensures
            final(self).seed == old(self).seed,
            final(self).map.wf(),
            exists|starts: Seq<Point>| #[trigger] is_run(frames@, starts),
            1 <= frames@.len() <= 1 + MAX_DIGGERS,
            frames@[frames@.len() - 1].0@ == final(self).map@,
            walls_mirrored(final(self).map@),
            spec_count_glyph(final(self).map@, Glyph::Wall) >= TARGET || frames@.len() == 1
                + MAX_DIGGERS,
    {
        let mut rng: RandomNumberGenerator = stream(self.seed);
        let mut frames: Vec<Frame> = Vec::new();
        self.map = Grid::new();
        seed_cluster(&mut self.map);
        proof {
            lemma_seed_is_mirrored();
        }
        record(&mut frames, &self.map, "Starting Seed".to_string());
        let ghost first = frames@[0];
        let ghost mut starts: Seq<Point> = Seq::empty();

        let mut diggers: usize = 0;
        while diggers < MAX_DIGGERS && self.map.count_glyph(Glyph::Wall) < TARGET
            invariant
                diggers <= MAX_DIGGERS,
                self.seed == old(self).seed,
                self.map.wf(),
                frames_wf(frames@),
                frames@.len() == 1 + diggers,
                starts.len() == diggers,
                frames@[0] == first,
                dug_in_turn(frames@, starts, diggers as int),
                frames@[frames@.len() - 1].0@ == self.map@,
                walls_mirrored(self.map@),
            decreases MAX_DIGGERS - diggers,
        {
            let ghost before = frames@;
            let ghost tiles_before = self.map@;
            let ghost dropped = starts;
            dig(&mut self.map, &mut rng);
            record(&mut frames, &self.map, "Iteration".to_string());
            proof {
                reveal(dug_by_digger);
                let start = choose|start: Point|
                    is_drop_point(start) && self.map@ == #[trigger] spec_dig(tiles_before, start);
                lemma_digger_keeps_symmetry(tiles_before, start);
                starts = starts.push(start);
                assert forall|k: int| 0 <= k < before.len() implies frames@[k] == before[k] by {
                    assert(frames@.subrange(0, before.len() as int)[k] == before[k]);
                }
                assert forall|j: int| 0 <= j < diggers + 1 implies #[trigger] dug_in_turn_at(
                    frames@,
                    starts,
                    j,
                ) by {
                    assert(frames@[j] == before[j]);
                    if j < diggers {
                        assert(frames@[j + 1] == before[j + 1]);
                        assert(starts[j] == dropped[j]);
                        assert(dug_in_turn_at(before, dropped, j));
                    }
                }
            }
            diggers += 1;
        }
        proof {
            reveal(is_run);
            assert(is_run(frames@, starts));
        }
        frames
    }
}

} // verus!
