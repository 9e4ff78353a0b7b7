//! Cellular-automata smoothing of random noise.

use vstd::prelude::*;
use bracket_lib::prelude::RandomNumberGenerator;
use crate::frames::{numbered_label, numbered_text, record};
use crate::grid::{
    cell_x, cell_y, default_tile, frames_wf, idx_point, spec_in_bounds, spec_mapidx, CELLS, Color,
    DARK_GRAY, Frame, GREEN, Glyph, Grid, HEIGHT, MapGen, Point, Tile, WIDTH,
};
use crate::rng::{range, stream};

verus! {

/// One if `(x, y)` is a cell of the grid that holds a wall, else zero.
pub open spec fn wall_at(tiles: Seq<Tile>, x: int, y: int) -> int {
    if spec_in_bounds(x, y) && tiles[spec_mapidx(x, y)].0 == Glyph::Wall {
        1
    } else {
        0
    }
}

/// How many of the eight cells around `(x, y)` hold a wall. Cells outside the
/// grid count as none.
pub open spec fn spec_count_neighbors(tiles: Seq<Tile>, x: int, y: int) -> int {
    wall_at(tiles, x - 1, y - 1) + wall_at(tiles, x, y - 1) + wall_at(tiles, x + 1, y - 1)
        + wall_at(tiles, x - 1, y) + wall_at(tiles, x + 1, y) + wall_at(tiles, x - 1, y + 1)
        + wall_at(tiles, x, y + 1) + wall_at(tiles, x + 1, y + 1)
}

/// The next state of a cell with `walls` walls around it: floor with none,
/// wall with one to four, floor with five or more.
pub open spec fn spec_next_tile(walls: int, wall_color: Color) -> Tile {
    if walls == 0 {
        default_tile()
    } else if walls < 5 {
        (Glyph::Wall, wall_color)
    } else {
        default_tile()
    }
}

/// Whether the cell `i` lies inside the ring of border cells.
pub open spec fn interior(i: int) -> bool {
    1 <= cell_x(i) < WIDTH - 1 && 1 <= cell_y(i) < HEIGHT - 1
}

/// The next generation: every interior cell takes the state that the walls
/// around it in `tiles` give it; the border ring stays as it is.
pub open spec fn spec_iterate(tiles: Seq<Tile>, wall_color: Color) -> Seq<Tile> {
    Seq::new(
        tiles.len(),
        |i: int|
            if interior(i) {
                spec_next_tile(spec_count_neighbors(tiles, cell_x(i), cell_y(i)), wall_color)
            } else {
                tiles[i]
            },
    )
}

/// The tile that a roll of the hundred-sided die seeds: a wall below
/// `wall_percent`, else floor.
pub open spec fn spec_noise_tile(roll: int, wall_percent: int, wall_color: Color) -> Tile {
    if roll < wall_percent {
        (Glyph::Wall, wall_color)
    } else {
        default_tile()
    }
}

/// Whether `(x, y)` is a cell of `map` that holds a wall, as zero or one.
fn wall_count_at(map: &Grid, x: i32, y: i32) -> (n: usize)
    requires
        map.wf(),
    ensures
        n == wall_at(map@, x as int, y as int),
{
    match map.get(Point::new(x, y)) {
        Some(tile) => if tile.0 == Glyph::Wall {
            1
        } else {
            0
        },
        None => 0,
    }
}

/// How many of the eight cells around `(x, y)` hold a wall.
pub fn count_neighbors(map: &Grid, x: usize, y: usize) -> (n: usize)
    requires
        map.wf(),
    ensures
        n == spec_count_neighbors(map@, x as int, y as int),
        n <= 8,
{
    if x > WIDTH || y > HEIGHT {
        return 0;
    }
    let cx: i32 = x as i32;
    let cy: i32 = y as i32;
    wall_count_at(map, cx - 1, cy - 1) + wall_count_at(map, cx, cy - 1) + wall_count_at(
        map,
        cx + 1,
        cy - 1,
    ) + wall_count_at(map, cx - 1, cy) + wall_count_at(map, cx + 1, cy) + wall_count_at(
        map,
        cx - 1,
        cy + 1,
    ) + wall_count_at(map, cx, cy + 1) + wall_count_at(map, cx + 1, cy + 1)
}

/// The next state of a cell with `walls` walls around it.
pub fn next_tile(walls: usize, wall_color: Color) -> (tile: Tile)
    ensures
        tile == spec_next_tile(walls as int, wall_color),
{
    if walls == 0 {
        (Glyph::Floor, DARK_GRAY)
    } else if walls < 5 {
        (Glyph::Wall, wall_color)
    } else {
        (Glyph::Floor, DARK_GRAY)
    }
}

/// Replaces the grid by its next generation, walls drawn in `wall_color`.
/// Every cell is computed from the grid as it was before the call.
pub fn iterate_with(map: &mut Grid, wall_color: Color)
    requires
        old(map).wf(),
    ensures
        final(map).wf(),
        final(map)@ == spec_iterate(old(map)@, wall_color),
{
    let previous: Grid = map.snapshot();
    let mut i: usize = 0;
    while i < CELLS
        invariant
            i <= CELLS,
            map.wf(),
            previous.wf(),
            previous@ == old(map)@,
            forall|k: int| 0 <= k < i ==> map@[k] == spec_iterate(previous@, wall_color)[k],
            forall|k: int| i <= k < CELLS ==> map@[k] == previous@[k],
        decreases CELLS - i,
    {
        let p: Point = idx_point(i);
        if 1 <= p.x && p.x < WIDTH as i32 - 1 && 1 <= p.y && p.y < HEIGHT as i32 - 1 {
            let walls: usize = count_neighbors(&previous, p.x as usize, p.y as usize);
            map.tiles.set(i, next_tile(walls, wall_color));
        }
        i += 1;
    }
    assert(map@ =~= spec_iterate(old(map)@, wall_color));
}

/// Replaces the grid by its next generation, walls drawn in green.
pub fn iterate(map: &mut Grid)
    requires
        old(map).wf(),
    ensures
        final(map).wf(),
        final(map)@ == spec_iterate(old(map)@, GREEN),
{
    iterate_with(map, GREEN);
}

/// A cell inside the border ring is a wall in the next generation exactly
/// when one to four of the eight cells around it are walls now.
pub proof fn lemma_rule_thresholds(tiles: Seq<Tile>, wall_color: Color, i: int)
    requires
        tiles.len() == CELLS,
        0 <= i < CELLS,
        interior(i),
    ensures
        0 <= spec_count_neighbors(tiles, cell_x(i), cell_y(i)) <= 8,
        spec_iterate(tiles, wall_color)[i].0 == Glyph::Wall <==> 1 <= spec_count_neighbors(
            tiles,
            cell_x(i),
            cell_y(i),
        ) <= 4,
        spec_iterate(tiles, wall_color)[i].0 != Glyph::Wall ==> spec_iterate(tiles, wall_color)[i]
            == default_tile(),
{
}

/// The border ring is the same in every generation.
pub proof fn lemma_border_kept(tiles: Seq<Tile>, wall_color: Color, i: int)
    requires
        0 <= i < tiles.len(),
        !interior(i),
    ensures
        spec_iterate(tiles, wall_color)[i] == tiles[i],
{
}

/// The tile that a roll of the hundred-sided die seeds.
pub fn noise_tile(roll: i32, wall_percent: i32, wall_color: Color) -> (tile: Tile)
    ensures
        tile == spec_noise_tile(roll as int, wall_percent as int, wall_color),
{
    if roll < wall_percent {
        (Glyph::Wall, wall_color)
    } else {
        (Glyph::Floor, DARK_GRAY)
    }
}

/// Whether `tiles` is what the rolls seed, cell by cell.
pub open spec fn seeded_by(tiles: Seq<Tile>, rolls: Seq<int>, wall_percent: int, wall_color: Color) -> bool {
    &&& rolls.len() == tiles.len()
    &&& forall|i: int|
        0 <= i < tiles.len() ==> 0 <= #[trigger] rolls[i] < 100 && tiles[i] == spec_noise_tile(
            rolls[i],
            wall_percent,
            wall_color,
        )
}

/// Seeds every cell on its own: one roll of the hundred-sided die per cell,
/// in the order of the cells.
pub fn seed_noise(map: &mut Grid, rng: &mut RandomNumberGenerator, wall_percent: i32, wall_color: Color)
    requires
        old(map).wf(),
    ensures
        final(map).wf(),
        exists|rolls: Seq<int>| seeded_by(final(map)@, rolls, wall_percent as int, wall_color),
{
    let ghost mut rolls: Seq<int> = Seq::empty();
    let mut i: usize = 0;
    while i < CELLS
        invariant
            i <= CELLS,
            map.wf(),
            rolls.len() == i,
            forall|k: int|
                0 <= k < i ==> 0 <= #[trigger] rolls[k] < 100 && map@[k] == spec_noise_tile(
                    rolls[k],
                    wall_percent as int,
                    wall_color,
                ),
        decreases CELLS - i,
    {
        let roll: i32 = range(rng, 0, 100);
        map.tiles.set(i, noise_tile(roll, wall_percent, wall_color));
        proof {
            rolls = rolls.push(roll as int);
        }
        i += 1;
    }
    assert(seeded_by(map@, rolls, wall_percent as int, wall_color));
}

/// The share of walls, in percent, that the noise is seeded with.
pub const WALL_PERCENT: i32 = 55;

/// The tiles after `n` generations, walls drawn in `wall_color`.
pub open spec fn spec_generations(tiles: Seq<Tile>, wall_color: Color, n: int) -> Seq<Tile>
    decreases n,
{
    if n <= 0 {
        tiles
    } else {
        spec_iterate(spec_generations(tiles, wall_color, n - 1), wall_color)
    }
}

/// The noise that a row of rolls seeds, one roll per cell.
pub open spec fn spec_noise(rolls: Seq<int>, wall_color: Color) -> Seq<Tile> {
    Seq::new(CELLS as nat, |i: int| spec_noise_tile(rolls[i], WALL_PERCENT as int, wall_color))
}

/// The cave that a row of rolls gives: the noise that they seed, after the
/// given number of generations.
pub open spec fn spec_cave(rolls: Seq<int>, generations: int, wall_color: Color) -> Seq<Tile> {
    spec_generations(spec_noise(rolls, wall_color), wall_color, generations)
}

/// Whether `rolls` is a row of rolls of the hundred-sided die, one per cell.
pub open spec fn valid_rolls(rolls: Seq<int>) -> bool {
    rolls.len() == CELLS && forall|i: int| 0 <= i < CELLS ==> 0 <= #[trigger] rolls[i] < 100
}

/// Whether `tiles` is a cave: noise that a row of rolls seeds, after the
/// given number of generations.
pub open spec fn is_cave(tiles: Seq<Tile>, generations: int, wall_color: Color) -> bool {
    exists|rolls: Seq<int>|
        valid_rolls(rolls) && tiles == #[trigger] spec_cave(rolls, generations, wall_color)
}

/// The noise that rolls seed is the noise of the rolls.
pub proof fn lemma_seeded_is_noise(tiles: Seq<Tile>, rolls: Seq<int>, wall_color: Color)
    requires
        tiles.len() == CELLS,
        seeded_by(tiles, rolls, WALL_PERCENT as int, wall_color),
    ensures
        valid_rolls(rolls),
        tiles == spec_noise(rolls, wall_color),
{
    assert forall|i: int| 0 <= i < CELLS implies 0 <= #[trigger] rolls[i] < 100 && tiles[i]
        == spec_noise(rolls, wall_color)[i] by {
        let _ = rolls[i];
    }
    assert(tiles =~= spec_noise(rolls, wall_color));
}

/// Grows a cave on `map`: noise, then `generations` generations, walls in
/// `wall_color`.
pub fn grow_cave_with(
    map: &mut Grid,
    rng: &mut RandomNumberGenerator,
    generations: usize,
    wall_color: Color,
)
    requires
        old(map).wf(),
    ensures
        final(map).wf(),
        is_cave(final(map)@, generations as int, wall_color),
{
    seed_noise(map, rng, WALL_PERCENT, wall_color);
    let ghost noise = map@;
    let ghost rolls = choose|rolls: Seq<int>|
        seeded_by(noise, rolls, WALL_PERCENT as int, wall_color);
    proof {
        lemma_seeded_is_noise(noise, rolls, wall_color);
    }
    let mut g: usize = 0;
    while g < generations
        invariant
            g <= generations,
            map.wf(),
            map@ == spec_generations(noise, wall_color, g as int),
        decreases generations - g,
    {
        iterate_with(map, wall_color);
        g += 1;
    }
    assert(map@ == spec_cave(rolls, generations as int, wall_color));
}

/// Grows a cave on `map`: noise, then `generations` generations, walls in
/// green.
pub fn grow_cave(map: &mut Grid, rng: &mut RandomNumberGenerator, generations: usize)
    requires
        old(map).wf(),
    ensures
        final(map).wf(),
        is_cave(final(map)@, generations as int, GREEN),
{
    grow_cave_with(map, rng, generations, GREEN);
}

/// How many generations the generator runs.
pub const GENERATIONS: usize = 10;

/// Whether `frames` is what a run records that seeds its noise with
/// `rolls`: the noise, and then the generations one by one.
pub open spec fn is_run(frames: Seq<Frame>, rolls: Seq<int>) -> bool {
    &&& frames.len() == GENERATIONS + 1
    &&& seeded_by(frames[0].0@, rolls, WALL_PERCENT as int, GREEN)
    &&& frames[0].1@ == "Random Noise - 55% Walls"@
    &&& forall|k: int|
        1 <= k <= GENERATIONS ==> (#[trigger] frames[k]).0@ == spec_iterate(frames[k - 1].0@, GREEN)
            && frames[k].1@ == numbered_text("Iteration"@, k as nat)
}

/// A run is determined by what it draws: two runs that seed their noise with
/// the same rolls record the same frames.
pub proof fn lemma_run_is_determined(first: Seq<Frame>, second: Seq<Frame>, rolls: Seq<int>)
    requires
        is_run(first, rolls),
        is_run(second, rolls),
    ensures
        first.len() == second.len(),
        forall|j: int|
            0 <= j < first.len() ==> (#[trigger] first[j]).0@ == second[j].0@ && first[j].1@
                == second[j].1@,
{
    assert forall|i: int| 0 <= i < first[0].0@.len() implies first[0].0@[i] == second[0].0@[i] by {
        let _ = rolls[i];
    }
    assert(first[0].0@ =~= second[0].0@);
    lemma_same_generations(first, second, rolls, GENERATIONS as int);
}

/// Two runs that seed their noise with the same rolls agree on their first
/// generations.
proof fn lemma_same_generations(first: Seq<Frame>, second: Seq<Frame>, rolls: Seq<int>, upto: int)
    requires
        is_run(first, rolls),
        is_run(second, rolls),
        first[0].0@ == second[0].0@,
        0 <= upto <= GENERATIONS,
    ensures
        forall|j: int|
            0 <= j <= upto ==> (#[trigger] first[j]).0@ == second[j].0@ && first[j].1@
                == second[j].1@,
    decreases upto,
{
    if upto > 0 {
        lemma_same_generations(first, second, rolls, upto - 1);
        let _ = second[upto];
        let _ = second[upto - 1];
        assert(first[upto - 1].0@ == second[upto - 1].0@);
    }
}

/// The generator of caves: random noise, smoothed generation by generation.
///
/// After [`MapGen::build`], `map` holds the grid of the last frame.
pub struct RoomBuilder {
    /// The seed of the stream that a run draws from; with `None`, every run
    /// draws from a stream seeded by the system.
    pub seed: Option<u64>,
    pub map: Grid,
}

impl RoomBuilder {
    /// A generator whose every run draws from a stream seeded by the system.
    pub fn new() -> (builder: Box<Self>)
        ensures
            builder.seed is None,
            builder.map.wf(),
    {
        Box::new(RoomBuilder { seed: None, map: Grid::new() })
    }

    /// A generator whose every run draws from the stream of `seed`.
    pub fn seeded(seed: u64) -> (builder: Box<Self>)
        ensures
            builder.seed == Some(seed),
            builder.map.wf(),
    {
        Box::new(RoomBuilder { seed: Some(seed), map: Grid::new() })
    }
}

impl MapGen for RoomBuilder {
    /// Nothing is prepared ahead of a run.
    fn setup(&mut self)
        ensures
            *final(self) == *old(self),
    {
    }

    /// Seeds the noise and runs the generations. The first frame shows the
    /// noise, each later frame the generation that follows the frame before
    /// it.
    fn build(&mut self) -> (frames: Vec<Frame>)
        ensures
            final(self).map.wf(),
            final(self).seed == old(self).seed,
            exists|rolls: Seq<int>| #[trigger] is_run(frames@, rolls),
            frames@.len() == GENERATIONS + 1,
            frames@[GENERATIONS as int].0@ == final(self).map@,
    {
        let mut rng: RandomNumberGenerator = stream(self.seed);
        let mut frames: Vec<Frame> = Vec::with_capacity(GENERATIONS + 1);
        self.map = Grid::new();
        seed_noise(&mut self.map, &mut rng, WALL_PERCENT, GREEN);
        record(&mut frames, &self.map, "Random Noise - 55% Walls".to_string());
        let ghost first = frames@[0];
        let ghost rolls = choose|rolls: Seq<int>|
            seeded_by(first.0@, rolls, WALL_PERCENT as int, GREEN);
        let mut i: usize = 0;
        while i < GENERATIONS
            invariant
                i <= GENERATIONS,
                self.seed == old(self).seed,
                self.map.wf(),
                frames_wf(frames@),
                frames@.len() == i + 1,
                frames@[0] == first,
                forall|k: int|
                    1 <= k <= i ==> (#[trigger] frames@[k]).0@ == spec_iterate(
                        frames@[k - 1].0@,
                        GREEN,
                    ) && frames@[k].1@ == numbered_text("Iteration"@, k as nat),
                frames@[i as int].0@ == self.map@,
            decreases GENERATIONS - i,
        {
            let ghost before = frames@;
            iterate(&mut self.map);
            record(&mut frames, &self.map, numbered_label("Iteration", i + 1));
            proof {
                assert forall|k: int| 0 <= k <= i implies frames@[k] == before[k] by {
                    assert(frames@.subrange(0, before.len() as int)[k] == before[k]);
                }
            }
            i += 1;
        }
        assert(is_run(frames@, rolls));
        frames
    }
}

} // verus!
