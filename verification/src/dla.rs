//! Diffusion-limited aggregation: diggers that wander until they touch what
//! has been dug.

use vstd::prelude::*;
use bracket_lib::prelude::RandomNumberGenerator;
use crate::frames::record;
use crate::grid::{
    blank_tiles, frames_wf, spec_count_glyph, spec_in_bounds, spec_mapidx, spec_recolor, spec_set,
    Frame, GREEN, Glyph, Grid, HEIGHT, MapGen, Point, RED, Tile, WIDTH,
};
use crate::rng::{roll_dice, stream};

verus! {

/// Where a digger at `pos` stands after the four-sided die has shown `roll`:
/// one cell to the left for a one, to the right for a two, up for a three,
/// down for anything else; but it stays where it is rather than come within
/// two cells of the edge that it moves towards.
pub open spec fn spec_stagger(pos: Point, roll: int) -> Point {
    if roll == 1 {
        if pos.x > 2 {
            Point { x: (pos.x - 1) as i32, y: pos.y }
        } else {
            pos
        }
    } else if roll == 2 {
        if pos.x < WIDTH - 2 {
            Point { x: (pos.x + 1) as i32, y: pos.y }
        } else {
            pos
        }
    } else if roll == 3 {
        if pos.y > 2 {
            Point { x: pos.x, y: (pos.y - 1) as i32 }
        } else {
            pos
        }
    } else {
        if pos.y < HEIGHT - 2 {
            Point { x: pos.x, y: (pos.y + 1) as i32 }
        } else {
            pos
        }
    }
}

/// Where a digger at `pos` stands after the four-sided die has shown `roll`.
pub fn stagger(pos: Point, roll: i32) -> (next: Point)
    ensures
        next == spec_stagger(pos, roll as int),
        spec_in_bounds(pos.x as int, pos.y as int) ==> spec_in_bounds(next.x as int, next.y as int),
{
    match roll {
        1 => if pos.x > 2 {
            Point::new(pos.x - 1, pos.y)
        } else {
            pos
        },
        2 => if pos.x < WIDTH as i32 - 2 {
            Point::new(pos.x + 1, pos.y)
        } else {
            pos
        },
        3 => if pos.y > 2 {
            Point::new(pos.x, pos.y - 1)
        } else {
            pos
        },
        _ => if pos.y < HEIGHT as i32 - 2 {
            Point::new(pos.x, pos.y + 1)
        } else {
            pos
        },
    }
}

/// A digger on its way: where it stands, and where it stood before its last
/// move.
pub struct Drift {
    pub pos: Point,
    pub prev: Point,
}

/// Whether a digger at `pos` goes on: it does while it stands on a cell of the
/// grid that holds `ground`.
pub open spec fn drifting(tiles: Seq<Tile>, ground: Glyph, pos: Point) -> bool {
    spec_in_bounds(pos.x as int, pos.y as int) && tiles[spec_mapidx(pos.x as int, pos.y as int)].0
        == ground
}

/// The digger that starts at `start` after the rolls `rolls`: with each roll
/// it moves as [`spec_stagger`] says, as long as it goes on.
pub open spec fn spec_drift(tiles: Seq<Tile>, ground: Glyph, start: Point, rolls: Seq<int>) -> Drift
    decreases rolls.len(),
{
    if rolls.len() == 0 {
        Drift { pos: start, prev: start }
    } else {
        let before = spec_drift(tiles, ground, start, rolls.drop_last());
        if drifting(tiles, ground, before.pos) {
            Drift { pos: spec_stagger(before.pos, rolls.last()), prev: before.pos }
        } else {
            before
        }
    }
}

/// A digger that has moved stands one cell left, right, above or below
/// where it stood before, or has been held back on it; and where it stood
/// before, it could go on.
pub proof fn lemma_drift_is_stepwise(tiles: Seq<Tile>, ground: Glyph, start: Point, rolls: Seq<int>)
    ensures
        ({
            let d = spec_drift(tiles, ground, start, rolls);
            let dx = d.pos.x - d.prev.x;
            let dy = d.pos.y - d.prev.y;
            &&& (dx == 0 && -1 <= dy <= 1) || (dy == 0 && -1 <= dx <= 1)
            &&& d.pos != d.prev ==> drifting(tiles, ground, d.prev)
            &&& d.prev != start ==> drifting(tiles, ground, d.prev)
        }),
    decreases rolls.len(),
{
    if rolls.len() > 0 {
        lemma_drift_is_stepwise(tiles, ground, start, rolls.drop_last());
    }
}

/// Whether `end` is where a digger from `start` may end: after at most
/// `max_steps` rolls of the four-sided die, and earlier than that only
/// because it no longer goes on.
pub open spec fn drift_ends(
    tiles: Seq<Tile>,
    ground: Glyph,
    start: Point,
    max_steps: int,
    end: Drift,
) -> bool {
    exists|rolls: Seq<int>|
        {
            &&& rolls.len() <= max_steps
            &&& forall|k: int| 0 <= k < rolls.len() ==> 1 <= #[trigger] rolls[k] <= 4
            &&& #[trigger] spec_drift(tiles, ground, start, rolls) == end
            &&& rolls.len() == max_steps || !drifting(tiles, ground, end.pos)
        }
}

/// Lets a digger wander from `start` over the cells that hold `ground`, one
/// roll of the four-sided die per move, until it stands on another cell or
/// has moved `max_steps` times. The second result says that it stands on
/// another cell.
pub fn drift(
    map: &Grid,
    ground: Glyph,
    start: Point,
    rng: &mut RandomNumberGenerator,
    max_steps: usize,
) -> (r: (Drift, bool))
    requires
        map.wf(),
    ensures
        drift_ends(map@, ground, start, max_steps as int, r.0),
        r.1 == !drifting(map@, ground, r.0.pos),
{
    let mut pos: Point = start;
    let mut prev: Point = start;
    let mut steps: usize = 0;
    let ghost mut rolls: Seq<int> = Seq::empty();
    loop
        invariant
            map.wf(),
            steps <= max_steps,
            rolls.len() == steps,
            forall|k: int| 0 <= k < rolls.len() ==> 1 <= #[trigger] rolls[k] <= 4,
            spec_drift(map@, ground, start, rolls) == (Drift { pos, prev }),
        ensures
            drift_ends(map@, ground, start, max_steps as int, Drift { pos, prev }),
        decreases max_steps - steps,
    {
        let going: bool = match map.get(pos) {
            Some(tile) => tile.0 == ground,
            None => false,
        };
        if !going || steps >= max_steps {
            break;
        }
        let roll: i32 = roll_dice(rng, 1, 4);
        proof {
            let before = rolls;
            rolls = rolls.push(roll as int);
            assert(rolls.drop_last() =~= before);
        }
        prev = pos;
        pos = stagger(pos, roll);
        steps += 1;
    }
    let stopped: bool = match map.get(pos) {
        Some(tile) => tile.0 != ground,
        None => true,
    };
    (Drift { pos, prev }, stopped)
}

/// The tiles after the middle of the grid and the four cells around it have
/// become red walls.
pub open spec fn spec_seed_cluster(tiles: Seq<Tile>) -> Seq<Tile> {
    let cx = (WIDTH / 2) as i32;
    let cy = (HEIGHT / 2) as i32;
    let tile = (Glyph::Wall, RED);
    spec_set(
        spec_set(
            spec_set(
                spec_set(
                    spec_set(tiles, Point { x: cx, y: cy }, tile),
                    Point { x: (cx + 1) as i32, y: cy },
                    tile,
                ),
                Point { x: (cx - 1) as i32, y: cy },
                tile,
            ),
            Point { x: cx, y: (cy + 1) as i32 },
            tile,
        ),
        Point { x: cx, y: (cy - 1) as i32 },
        tile,
    )
}

/// Turns the middle of the grid and the four cells around it into red walls.
pub fn seed_cluster(map: &mut Grid)
    requires
        old(map).wf(),
    ensures
        final(map).wf(),
        final(map)@ == spec_seed_cluster(old(map)@),
{
    let cx: i32 = WIDTH as i32 / 2;
    let cy: i32 = HEIGHT as i32 / 2;
    map.set(Point::new(cx, cy), Glyph::Wall, RED);
    map.set(Point::new(cx + 1, cy), Glyph::Wall, RED);
    map.set(Point::new(cx - 1, cy), Glyph::Wall, RED);
    map.set(Point::new(cx, cy + 1), Glyph::Wall, RED);
    map.set(Point::new(cx, cy - 1), Glyph::Wall, RED);
}

/// Whether `p` lies at least two cells from every edge of the grid.
pub open spec fn is_drop_point(p: Point) -> bool {
    2 <= p.x <= WIDTH - 2 && 2 <= p.y <= HEIGHT - 2
}

/// Draws the cell on which a digger is dropped: a column and then a row from
/// the stream, each at least two cells from the edges.
pub fn drop_point(rng: &mut RandomNumberGenerator) -> (p: Point)
    ensures
        is_drop_point(p),
{
    let x: i32 = roll_dice(rng, 1, WIDTH as i32 - 3) + 1;
    let y: i32 = roll_dice(rng, 1, HEIGHT as i32 - 3) + 1;
    Point::new(x, y)
}

/// The most moves that one digger makes before it is given up.
pub const MAX_DRIFT: usize = 1000000;

/// A third of the grid: the number of walls at which digging stops.
pub const TARGET: usize = 1333;

/// The most diggers that a run drops.
pub const MAX_DIGGERS: usize = 100000;

/// What one digger draws from the stream: the cell on which it is dropped,
/// and the rolls that move it.
pub struct Dig {
    pub start: Point,
    pub rolls: Seq<int>,
}

/// Whether a digger can draw `d` on a grid that holds `ground` where it may
/// wander: every roll is a number on the four-sided die, and the rolls end
/// when the digger stands on other ground, or is given up after
/// `max_steps` rolls.
pub open spec fn valid_drift(tiles: Seq<Tile>, ground: Glyph, d: Dig, max_steps: int) -> bool {
    &&& d.rolls.len() <= max_steps
    &&& forall|k: int| 0 <= k < d.rolls.len() ==> 1 <= #[trigger] d.rolls[k] <= 4
    &&& d.rolls.len() == max_steps || !drifting(
        tiles,
        ground,
        spec_drift(tiles, ground, d.start, d.rolls).pos,
    )
}

/// What the digger that draws `d` leaves of `before`: the red of the digger
/// before turns green; the digger wanders over the floor; where it comes to
/// stand on another cell, the cell that it stood on before becomes a red
/// wall; a digger that is given up changes nothing more.
pub open spec fn spec_dig(before: Seq<Tile>, d: Dig) -> Seq<Tile> {
    let recolored = spec_recolor(before, RED, GREEN);
    let end = spec_drift(recolored, Glyph::Floor, d.start, d.rolls);
    if drifting(recolored, Glyph::Floor, end.pos) {
        recolored
    } else {
        spec_set(recolored, end.prev, (Glyph::Wall, RED))
    }
}

/// Whether a digger can draw `d` on `before`: it is dropped on a drop
/// point, and wanders over the floor of the recoloured grid.
pub open spec fn valid_dig(before: Seq<Tile>, d: Dig) -> bool {
    is_drop_point(d.start) && valid_drift(
        spec_recolor(before, RED, GREEN),
        Glyph::Floor,
        d,
        MAX_DRIFT as int,
    )
}

/// Whether `after` is what one digger may leave of `before`.
#[verifier::opaque]
pub open spec fn dug_by_digger(before: Seq<Tile>, after: Seq<Tile>) -> bool {
    exists|d: Dig| valid_dig(before, d) && after == #[trigger] spec_dig(before, d)
}

/// Drops one digger and lets it dig; see [`spec_dig`].
pub fn dig(map: &mut Grid, rng: &mut RandomNumberGenerator)
    requires
        old(map).wf(),
    ensures
        final(map).wf(),
        dug_by_digger(old(map)@, final(map)@),
{
    map.recolor(RED, GREEN);
    let start: Point = drop_point(rng);
    let (end, stopped) = drift(map, Glyph::Floor, start, rng, MAX_DRIFT);
    let ghost recolored = map@;
    if stopped {
        map.set(end.prev, Glyph::Wall, RED);
    }
    assert(dug_by_digger(old(map)@, map@)) by {
        reveal(dug_by_digger);
        let rolls = choose|rolls: Seq<int>|
            {
                &&& rolls.len() <= MAX_DRIFT as int
                &&& forall|k: int| 0 <= k < rolls.len() ==> 1 <= #[trigger] rolls[k] <= 4
                &&& #[trigger] spec_drift(recolored, Glyph::Floor, start, rolls) == end
                &&& rolls.len() == MAX_DRIFT as int || !drifting(recolored, Glyph::Floor, end.pos)
            };
        let d = Dig { start, rolls };
        assert(valid_dig(old(map)@, d));
        assert(map@ == spec_dig(old(map)@, d));
    }
}

/// The grid that a run starts from: a fresh grid with the seed in its
/// middle.
pub open spec fn seeded_tiles() -> Seq<Tile> {
    spec_seed_cluster(blank_tiles())
}

/// Whether the digger `digs[j]` dug the frame after the `j`-th out of the
/// `j`-th, while fewer than a third of the grid was wall.
pub open spec fn dug_in_turn_at(frames: Seq<Frame>, digs: Seq<Dig>, j: int) -> bool {
    &&& valid_dig(frames[j].0@, digs[j])
    &&& frames[j + 1].0@ == spec_dig(frames[j].0@, digs[j])
    &&& frames[j + 1].1@ == "Iteration"@
    &&& spec_count_glyph(frames[j].0@, Glyph::Wall) < TARGET
}

/// Whether the first `n` diggers of `digs` dug the frames one out of the
/// other, each while fewer than a third of the grid was wall.
pub open spec fn dug_in_turn(frames: Seq<Frame>, digs: Seq<Dig>, n: int) -> bool {
    forall|j: int| 0 <= j < n ==> #[trigger] dug_in_turn_at(frames, digs, j)
}

/// Whether `frames` is what a run records whose diggers draw `digs`: the
/// seed, and then one frame per digger, until a third of the grid is wall or
/// [`MAX_DIGGERS`] diggers have been dropped.
#[verifier::opaque]
pub open spec fn is_run(frames: Seq<Frame>, digs: Seq<Dig>) -> bool {
    &&& frames.len() == digs.len() + 1
    &&& digs.len() <= MAX_DIGGERS
    &&& frames[0].0@ == seeded_tiles()
    &&& frames[0].1@ == "Starting Seed"@
    &&& dug_in_turn(frames, digs, digs.len() as int)
    &&& spec_count_glyph(frames[digs.len() as int].0@, Glyph::Wall) >= TARGET || digs.len()
        == MAX_DIGGERS
}

/// A run is determined by what it draws: two runs whose diggers draw the
/// same record the same frames.
pub proof fn lemma_run_is_determined(first: Seq<Frame>, second: Seq<Frame>, digs: Seq<Dig>)
    requires
        is_run(first, digs),
        is_run(second, digs),
    ensures
        first.len() == second.len(),
        forall|j: int|
            0 <= j < first.len() ==> (#[trigger] first[j]).0@ == second[j].0@ && first[j].1@
                == second[j].1@,
{
    reveal(is_run);
    lemma_same_digs(first, second, digs, digs.len() as int);
}

/// Two runs whose diggers draw the same agree on their first frames.
proof fn lemma_same_digs(first: Seq<Frame>, second: Seq<Frame>, digs: Seq<Dig>, upto: int)
    requires
        first.len() > upto,
        second.len() > upto,
        first[0].0@ == second[0].0@,
        first[0].1@ == second[0].1@,
        0 <= upto <= digs.len(),
        dug_in_turn(first, digs, upto),
        dug_in_turn(second, digs, upto),
    ensures
        forall|j: int|
            0 <= j <= upto ==> (#[trigger] first[j]).0@ == second[j].0@ && first[j].1@
                == second[j].1@,
    decreases upto,
{
    if upto > 0 {
        lemma_same_digs(first, second, digs, upto - 1);
        assert(dug_in_turn_at(first, digs, upto - 1));
        assert(dug_in_turn_at(second, digs, upto - 1));
        assert(first[upto - 1].0@ == second[upto - 1].0@);
    }
}

/// The generator of caves grown by diffusion-limited aggregation.
///
/// After [`MapGen::build`], `map` holds the grid of the last frame.
pub struct RoomBuilder {
    /// The seed of the stream that a run draws from; with `None`, every run
    /// draws from a stream seeded by the system.
    pub seed: Option<u64>,
    pub map: Grid,
}

impl RoomBuilder {
    /// A generator whose every run draws from a stream seeded by the system.
    pub fn new() -> (builder: Box<Self>)
        ensures
            builder.seed is None,
            builder.map.wf(),
    {
        Box::new(RoomBuilder { seed: None, map: Grid::new() })
    }

    /// A generator whose every run draws from the stream of `seed`.
    pub fn seeded(seed: u64) -> (builder: Box<Self>)
        ensures
            builder.seed == Some(seed),
            builder.map.wf(),
    {
        Box::new(RoomBuilder { seed: Some(seed), map: Grid::new() })
    }
}

impl MapGen for RoomBuilder {
    /// Nothing is prepared ahead of a run.
    fn setup(&mut self)
        ensures
            *final(self) == *old(self),
    {
    }

    /// Seeds the middle of the grid and drops diggers until a third of the
    /// grid is wall or [`MAX_DIGGERS`] diggers have been dropped. One frame for
    /// the seed, one per digger, each digger working on the grid of the frame
    /// before.
    fn build(&mut self) -> (frames: Vec<Frame>)
        ensures
            final(self).seed == old(self).seed,
            final(self).map.wf(),
            exists|digs: Seq<Dig>| #[trigger] is_run(frames@, digs),
            1 <= frames@.len() <= 1 + MAX_DIGGERS,
            frames@[frames@.len() - 1].0@ == final(self).map@,
            spec_count_glyph(final(self).map@, Glyph::Wall) >= TARGET || frames@.len() == 1
                + MAX_DIGGERS,
    {
        let mut rng: RandomNumberGenerator = stream(self.seed);
        let mut frames: Vec<Frame> = Vec::new();
        self.map = Grid::new();
        seed_cluster(&mut self.map);
        record(&mut frames, &self.map, "Starting Seed".to_string());
        let ghost first = frames@[0];
        let ghost mut digs: Seq<Dig> = Seq::empty();

        let mut diggers: usize = 0;
        while diggers < MAX_DIGGERS && self.map.count_glyph(Glyph::Wall) < TARGET
            invariant
                diggers <= MAX_DIGGERS,
                self.seed == old(self).seed,
                self.map.wf(),
                frames_wf(frames@),
                frames@.len() == 1 + diggers,
                digs.len() == diggers,
                frames@[0] == first,
                dug_in_turn(frames@, digs, diggers as int),
                frames@[frames@.len() - 1].0@ == self.map@,
            decreases MAX_DIGGERS - diggers,
        {
            let ghost before = frames@;
            let ghost tiles_before = self.map@;
            let ghost dug = digs;
            dig(&mut self.map, &mut rng);
            record(&mut frames, &self.map, "Iteration".to_string());
            proof {
                reveal(dug_by_digger);
                let d = choose|d: Dig|
                    valid_dig(tiles_before, d) && self.map@ == #[trigger] spec_dig(
                        tiles_before,
                        d,
                    );
                digs = digs.push(d);
                assert forall|k: int| 0 <= k < before.len() implies frames@[k] == before[k] by {
                    assert(frames@.subrange(0, before.len() as int)[k] == before[k]);
                }
                assert forall|j: int| 0 <= j < diggers + 1 implies #[trigger] dug_in_turn_at(
                    frames@,
                    digs,
                    j,
                ) by {
                    assert(frames@[j] == before[j]);
                    if j < diggers {
                        assert(frames@[j + 1] == before[j + 1]);
                        assert(digs[j] == dug[j]);
                        assert(dug_in_turn_at(before, dug, j));
                    }
                }
            }
            diggers += 1;
        }
        proof {
            reveal(is_run);
            assert(is_run(frames@, digs));
        }
        frames
    }
}

} // verus!
