//! Two generators side by side, and a prefab down the middle.

use vstd::prelude::*;
use bracket_lib::prelude::RandomNumberGenerator;
use crate::bsp::{
    carved_by, first_pool, in_reach, lemma_spaced_sorted, spec_carve, spec_is_possible,
    spec_paint_attempts, spec_side_die, spec_sub_rect, spec_subrects, Attempt,
};
use crate::cellular::{
    grow_cave_with, is_cave, iterate_with, spec_cave, spec_count_neighbors, spec_iterate,
    valid_rolls,
};
use crate::frames::record;
use crate::grid::{
    blank_tiles, cell_x, CELLS, DARK_GRAY, Frame, Glyph, Grid, MapGen, Point, Tile, WIDTH, YELLOW,
};
use crate::prefab::{spec_stamp_text, stamp, Legend, Prefab};
use crate::rect::Rect;
use crate::rng::stream;
use crate::rooms::{connect_rooms, joined_by};
use crate::sorting::{lemma_stable_sort_unique, sort_rooms, stably_sorted, Room};
use crate::tunnel::{carve_horizontal, carve_vertical, spec_carve_horizontal, spec_carve_vertical};

verus! {

/// The pattern that is stamped down the middle: eleven columns, a row for
/// every row of the grid.
pub const PREFAB: &'static str = "
.#####.....
.....#.....
.#...#.....
.#.###.....
.#.#.......
.#.#.......
.#.#.......
.#.#.......
.#.#.......
.#.#.......
.#.#.......
.#.#.......
.#.#.......
.#.#.......
.#.#.......
.#.#.......
.#.#######.
.#.#.....#.
.#.#.....#.
.#.#.....#.
.#.......#.
.#.#######.
...........
...........
.#.#######.
.#.......#.
.#.#.....#.
.#.#.....#.
.#.#.....#.
.#.#######.
.#.#.......
.#.#.......
.#.#.......
.#.#.......
.#.#.......
.#.#.......
.#.#.......
.#.#.......
.#.#.......
.#.#.......
.#.#.......
.#.#.......
.#.#.......
.#.#.......
.#.#.......
.#.#.......
.#.###.....
.#...#.....
.#...#.....
.####......
";

/// How many columns the pattern has.
pub const PREFAB_WIDTH: usize = 11;

/// The column of the grid on which the pattern's first column falls.
pub const PREFAB_X: i32 = 36;

/// How many generations the cave half runs.
pub const GENERATIONS: usize = 4;

/// What the characters of the pattern stand for: `.` a yellow wall, `#`
/// floor.
pub open spec fn spec_legend() -> Seq<(char, Tile)> {
    seq![('.', (Glyph::Wall, YELLOW)), ('#', (Glyph::Floor, DARK_GRAY))]
}

/// What the characters of the pattern stand for.
pub fn legend() -> (l: Legend)
    ensures
        l@ == spec_legend(),
{
    let mut l: Legend = Vec::new();
    l.push(('.', (Glyph::Wall, YELLOW)));
    l.push(('#', (Glyph::Floor, DARK_GRAY)));
    assert(l@ =~= spec_legend());
    l
}

/// The tiles that take their left half, up to the middle column, from `left`
/// and the rest from `right`.
pub open spec fn spec_combine(left: Seq<Tile>, right: Seq<Tile>) -> Seq<Tile> {
    Seq::new(CELLS as nat, |i: int| if cell_x(i) < WIDTH / 2 { left[i] } else { right[i] })
}

/// A grid that takes its left half from `left` and its right half from
/// `right`.
pub fn combine(left: &Grid, right: &Grid) -> (map: Grid)
    requires
        left.wf(),
        right.wf(),
    ensures
        map.wf(),
        map@ == spec_combine(left@, right@),
{
    let mut map: Grid = Grid::new();
    let mut i: usize = 0;
    while i < CELLS
        invariant
            i <= CELLS,
            map.wf(),
            left.wf(),
            right.wf(),
            forall|k: int| 0 <= k < i ==> map@[k] == spec_combine(left@, right@)[k],
        decreases CELLS - i,
    {
        let ghost before = map@;
        let tile: Tile = if i % WIDTH < WIDTH / 2 { left.tiles[i] } else { right.tiles[i] };
        map.tiles.set(i, tile);
        assert(map@ == before.update(i as int, tile));
        i += 1;
    }
    assert(map@ =~= spec_combine(left@, right@));
    map
}

/// Whether `pool`, `rooms` and `tiles` are the rooms by subdivision that the
/// attempts `attempts` and the coins `flips` give, all in yellow; `perm` says
/// where the accepted rooms stand once they are ordered from left to right.
#[verifier::opaque]
pub open spec fn is_layout(
    pool: Seq<Rect>,
    rooms: Seq<Room>,
    tiles: Seq<Tile>,
    attempts: Seq<Attempt>,
    perm: Seq<int>,
    flips: Seq<bool>,
) -> bool {
    let carved = spec_carve(first_pool(), attempts, crate::bsp::ATTEMPTS as int, Some(YELLOW));
    &&& carved_by(first_pool(), attempts, Some(YELLOW), carved)
    &&& pool == carved.pool
    &&& stably_sorted(carved.rooms, rooms, perm)
    &&& joined_by(
        spec_paint_attempts(blank_tiles(), rooms, rooms.len() as int, Some(YELLOW)),
        rooms,
        (Glyph::Wall, YELLOW),
        flips,
        tiles,
    )
}

/// What a run draws: the attempts and the coins of the rooms, and the rolls
/// of the cave.
pub struct Draws {
    pub attempts: Seq<Attempt>,
    pub flips: Seq<bool>,
    pub rolls: Seq<int>,
}

/// Whether `frames` is what a run records that draws `draws` and leaves the
/// pool `pool` and the rooms `rooms`: the rooms by subdivision; the cave; the
/// left half of the first beside the right half of the second; and the same
/// with the prefab stamped down the middle.
#[verifier::opaque]
pub open spec fn is_run(
    frames: Seq<Frame>,
    pool: Seq<Rect>,
    rooms: Seq<Room>,
    perm: Seq<int>,
    draws: Draws,
) -> bool {
    &&& is_layout(pool, rooms, frames[0].0@, draws.attempts, perm, draws.flips)
    &&& valid_rolls(draws.rolls)
    &&& frames.len() == 4
    &&& frames[1].0@ == spec_cave(draws.rolls, GENERATIONS as int, YELLOW)
    &&& frames[2].0@ == spec_combine(frames[0].0@, frames[1].0@)
    &&& frames[3].0@ == spec_stamp_text(
        frames[2].0@,
        PREFAB@,
        PREFAB_WIDTH as int,
        spec_legend(),
        Point { x: PREFAB_X, y: 0 },
    )
    &&& frames[0].1@ == "Make some sub-division rooms"@
    &&& frames[1].1@ == "Make a Cellular Automata Map"@
    &&& frames[2].1@ == "Why Not Both?"@
    &&& frames[3].1@ == "Just Add Prefab"@
}

/// A run is determined by what it draws: two runs that draw the same leave
/// the same pool and rooms and record the same frames.
pub proof fn lemma_run_is_determined(
    first: (Seq<Frame>, Seq<Rect>, Seq<Room>, Seq<int>),
    second: (Seq<Frame>, Seq<Rect>, Seq<Room>, Seq<int>),
    draws: Draws,
)
    requires
        is_run(first.0, first.1, first.2, first.3, draws),
        is_run(second.0, second.1, second.2, second.3, draws),
    ensures
        first.1 == second.1,
        first.2 == second.2,
        first.0.len() == second.0.len(),
        forall|j: int|
            0 <= j < first.0.len() ==> (#[trigger] first.0[j]).0@ == second.0[j].0@ && first.0[j].1@
                == second.0[j].1@,
{
    reveal(is_run);
    reveal(is_layout);
    let carved = spec_carve(
        first_pool(),
        draws.attempts,
        crate::bsp::ATTEMPTS as int,
        Some(YELLOW),
    );
    lemma_stable_sort_unique(carved.rooms, first.2, first.3, second.2, second.3);
    assert forall|j: int| 0 <= j < first.0.len() implies (#[trigger] first.0[j]).0@
        == second.0[j].0@ && first.0[j].1@ == second.0[j].1@ by {
        let _ = second.0[j];
    }
}

/// The generator that puts rooms by subdivision on the left, a cave on the
/// right, and a prefab down the middle.
///
/// After [`MapGen::build`], `map` holds the grid of the last frame.
pub struct RoomBuilder {
    /// The generator of the rooms; it holds the seed of the run.
    pub bsp: crate::bsp::RoomBuilder,
    pub map: Grid,
}

impl RoomBuilder {
    /// A generator whose every run draws from a stream seeded by the system.
    pub fn new() -> (builder: Box<Self>)
        ensures
            builder.bsp.seed is None,
            builder.map.wf(),
    {
        Box::new(
            RoomBuilder {
                bsp: crate::bsp::RoomBuilder {
                    seed: None,
                    rects: Vec::new(),
                    rooms: Vec::new(),
                    map: Grid::new(),
                },
                map: Grid::new(),
            },
        )
    }

    /// A generator whose every run draws from the stream of `seed`.
    pub fn seeded(seed: u64) -> (builder: Box<Self>)
        ensures
            builder.bsp.seed == Some(seed),
            builder.map.wf(),
    {
        Box::new(
            RoomBuilder {
                bsp: crate::bsp::RoomBuilder {
                    seed: Some(seed),
                    rects: Vec::new(),
                    rooms: Vec::new(),
                    map: Grid::new(),
                },
                map: Grid::new(),
            },
        )
    }

    /// Adds the four quarters of `rect` to the pool of the rooms' generator.
    pub fn add_subrects(&mut self, rect: Rect)
        requires
            in_reach(rect),
        ensures
            final(self).bsp.rects@ == old(self).bsp.rects@ + spec_subrects(rect),
            final(self).bsp.rooms == old(self).bsp.rooms,
            final(self).map == old(self).map,
    {
        self.bsp.add_subrects(rect);
    }

    /// Picks a rectangle of the pool of the rooms' generator.
    pub fn get_random_rect(&mut self, rng: &mut RandomNumberGenerator) -> (rect: Rect)
        requires
            0 < old(self).bsp.rects@.len() < i32::MAX,
        ensures
            *final(self) == *old(self),
            old(self).bsp.rects@.contains(rect),
    {
        self.bsp.get_random_rect(rng)
    }

    /// Cuts a candidate room out of `rect`, as the rooms' generator does.
    pub fn get_random_sub_rect(&self, rect: Rect, rng: &mut RandomNumberGenerator) -> (r: Rect)
        requires
            in_reach(rect),
            rect.x1 != rect.x2,
            rect.y1 != rect.y2,
        ensures
            exists|roll_w: int, roll_h: int, roll_x: int, roll_y: int|
                {
                    &&& 1 <= roll_w <= spec_side_die(rect.x1 as int, rect.x2 as int)
                    &&& 1 <= roll_h <= spec_side_die(rect.y1 as int, rect.y2 as int)
                    &&& 1 <= roll_x <= 6
                    &&& 1 <= roll_y <= 6
                    &&& r == #[trigger] spec_sub_rect(rect, roll_w, roll_h, roll_x, roll_y)
                },
    {
        self.bsp.get_random_sub_rect(rect, rng)
    }

    /// Whether a room may be built on `rect`.
    pub fn is_possible(&self, rect: Rect, map: &Grid) -> (b: bool)
        requires
            map.wf(),
        ensures
            b == spec_is_possible(map@, rect),
    {
        self.bsp.is_possible(rect, map)
    }
}

impl RoomBuilder {
    /// Lays out the rooms by subdivision on the grid of the rooms' generator:
    /// carved, ordered from left to right, drawn and joined, all in yellow.
    pub fn lay_out(&mut self, rng: &mut RandomNumberGenerator)
        ensures
            final(self).bsp.seed == old(self).bsp.seed,
            final(self).map == old(self).map,
            final(self).bsp.map.wf(),
            exists|attempts: Seq<Attempt>, perm: Seq<int>, flips: Seq<bool>| #[trigger]
                is_layout(
                    final(self).bsp.rects@,
                    final(self).bsp.rooms@,
                    final(self).bsp.map@,
                    attempts,
                    perm,
                    flips,
                ),
    {
        let mut unused: Vec<Frame> = Vec::new();
        self.bsp.start_pool();
        self.bsp.carve_rooms(rng, &mut unused, Some(YELLOW), false);
        let ghost carved = self.bsp.carved();
        let ghost attempts = choose|attempts: Seq<Attempt>| #[trigger]
            carved_by(first_pool(), attempts, Some(YELLOW), carved);
        let ghost unsorted = self.bsp.rooms@;
        sort_rooms(&mut self.bsp.rooms);
        let ghost perm = choose|perm: Seq<int>| stably_sorted(unsorted, self.bsp.rooms@, perm);
        proof {
            lemma_spaced_sorted(unsorted, self.bsp.rooms@, perm);
        }
        self.bsp.map.clear_default();
        let mut k: usize = 0;
        while k < self.bsp.rooms.len()
            invariant
                k <= self.bsp.rooms.len(),
                self.bsp.map.wf(),
                self.bsp.rects@ == carved.pool,
                self.bsp.seed == old(self).bsp.seed,
                self.map == old(self).map,
                stably_sorted(unsorted, self.bsp.rooms@, perm),
                crate::rooms::rooms_fit(self.bsp.rooms@),
                self.bsp.map@ == spec_paint_attempts(
                    blank_tiles(),
                    self.bsp.rooms@,
                    k as int,
                    Some(YELLOW),
                ),
            decreases self.bsp.rooms.len() - k,
        {
            let rect: Rect = self.bsp.rooms[k].0;
            self.bsp.map.fill_rect(&rect, Glyph::Wall, YELLOW);
            k += 1;
        }
        let ghost painted = self.bsp.map@;
        connect_rooms(&self.bsp.rooms, YELLOW, rng, &mut self.bsp.map, &mut unused, false);
        proof {
            let flips = choose|flips: Seq<bool>| #[trigger]
                joined_by(painted, self.bsp.rooms@, (Glyph::Wall, YELLOW), flips, self.bsp.map@);
            reveal(is_layout);
            assert(spec_carve(
                first_pool(),
                attempts,
                crate::bsp::ATTEMPTS as int,
                Some(YELLOW),
            ) == carved && self.bsp.rects@ == carved.pool) by {
                reveal(carved_by);
            }
            assert(is_layout(
                self.bsp.rects@,
                self.bsp.rooms@,
                self.bsp.map@,
                attempts,
                perm,
                flips,
            ));
        }
    }
}

impl MapGen for RoomBuilder {
    /// Nothing is prepared ahead of a run.
    fn setup(&mut self)
        ensures
            *final(self) == *old(self),
    {
    }

    /// Four frames: rooms by subdivision, joined by yellow corridors; a cave
    /// grown from noise in [`GENERATIONS`] generations; the left half of the
    /// first beside the right half of the second; and the same with the
    /// prefab stamped down the middle.
    fn build(&mut self) -> (frames: Vec<Frame>)
        ensures
            final(self).bsp.seed == old(self).bsp.seed,
            final(self).map.wf(),
            exists|perm: Seq<int>, draws: Draws| #[trigger]
                is_run(frames@, final(self).bsp.rects@, final(self).bsp.rooms@, perm, draws),
            frames@.len() == 4,
            exists|attempts: Seq<Attempt>, perm: Seq<int>, flips: Seq<bool>| #[trigger]
                is_layout(
                    final(self).bsp.rects@,
                    final(self).bsp.rooms@,
                    frames@[0].0@,
                    attempts,
                    perm,
                    flips,
                ),
            is_cave(frames@[1].0@, GENERATIONS as int, YELLOW),
            frames@[2].0@ == spec_combine(frames@[0].0@, frames@[1].0@),
            frames@[3].0@ == spec_stamp_text(
                frames@[2].0@,
                PREFAB@,
                PREFAB_WIDTH as int,
                spec_legend(),
                Point { x: PREFAB_X, y: 0 },
            ),
            frames@[0].1@ == "Make some sub-division rooms"@,
            frames@[1].1@ == "Make a Cellular Automata Map"@,
            frames@[2].1@ == "Why Not Both?"@,
            frames@[3].1@ == "Just Add Prefab"@,
            frames@[3].0@ == final(self).map@,
    {
        let mut rng: RandomNumberGenerator = stream(self.bsp.seed);
        let mut frames: Vec<Frame> = Vec::new();

        self.lay_out(&mut rng);
        let ghost (attempts, perm, flips) = choose|
            attempts: Seq<Attempt>,
            perm: Seq<int>,
            flips: Seq<bool>,
        | #[trigger]
            is_layout(self.bsp.rects@, self.bsp.rooms@, self.bsp.map@, attempts, perm, flips);
        record(&mut frames, &self.bsp.map, "Make some sub-division rooms".to_string());
        let ghost first = frames@[0];

        let mut cave: Grid = Grid::new();
        grow_cave_with(&mut cave, &mut rng, GENERATIONS, YELLOW);
        let ghost rolls = choose|rolls: Seq<int>|
            valid_rolls(rolls) && cave@ == #[trigger] spec_cave(rolls, GENERATIONS as int, YELLOW);
        record(&mut frames, &cave, "Make a Cellular Automata Map".to_string());
        let ghost second = frames@[1];
        assert(frames@.subrange(0, 1)[0] == first);

        self.map = combine(&self.bsp.map, &cave);
        record(&mut frames, &self.map, "Why Not Both?".to_string());
        let ghost third = frames@[2];
        proof {
            assert(frames@.subrange(0, 2)[0] == first);
            assert(frames@.subrange(0, 2)[1] == second);
        }

        match Prefab::parse(PREFAB, PREFAB_WIDTH) {
            Some(prefab) => {
                let l: Legend = legend();
                stamp(&mut self.map, &prefab, &l, Point::new(PREFAB_X, 0));
            },
            None => {},
        }
        record(&mut frames, &self.map, "Just Add Prefab".to_string());
        proof {
            assert(frames@.subrange(0, 3)[0] == first);
            assert(frames@.subrange(0, 3)[1] == second);
            assert(frames@.subrange(0, 3)[2] == third);
            assert(is_layout(
                self.bsp.rects@,
                self.bsp.rooms@,
                frames@[0].0@,
                attempts,
                perm,
                flips,
            ));
            reveal(is_run);
            assert(is_run(
                frames@,
                self.bsp.rects@,
                self.bsp.rooms@,
                perm,
                Draws { attempts, flips, rolls },
            ));
        }
        frames
    }
}

/// Draws a yellow corridor along row `y` from column `x1` to column `x2`.
pub fn apply_horizontal_tunnel(x1: i32, x2: i32, y: i32, map: &mut Grid)
    requires
        old(map).wf(),
    ensures
        final(map).wf(),
        final(map)@ == spec_carve_horizontal(
            old(map)@,
            x1 as int,
            x2 as int,
            y as int,
            (Glyph::Wall, YELLOW),
        ),
{
    carve_horizontal(x1, x2, y, YELLOW, map);
}

/// Draws a yellow corridor along column `x` from row `y1` to row `y2`.
pub fn apply_vertical_tunnel(y1: i32, y2: i32, x: i32, map: &mut Grid)
    requires
        old(map).wf(),
    ensures
        final(map).wf(),
        final(map)@ == spec_carve_vertical(
            old(map)@,
            y1 as int,
            y2 as int,
            x as int,
            (Glyph::Wall, YELLOW),
        ),
{
    carve_vertical(y1, y2, x, YELLOW, map);
}

/// How many of the eight cells around `(x, y)` hold a wall.
pub fn count_neighbors(map: &Grid, x: usize, y: usize) -> (n: usize)
    requires
        map.wf(),
    ensures
        n == spec_count_neighbors(map@, x as int, y as int),
{
    crate::cellular::count_neighbors(map, x, y)
}

/// Replaces the grid by its next generation, walls drawn in yellow.
pub fn iterate(map: &mut Grid)
    requires
        old(map).wf(),
    ensures
        final(map).wf(),
        final(map)@ == spec_iterate(old(map)@, YELLOW),
{
    iterate_with(map, YELLOW);
}

} // verus!
