//! A cave that is connected throughout, with a way in on the left, a way out
//! on the right, and the route between them.

use vstd::prelude::*;
use bracket_lib::prelude::RandomNumberGenerator;
use crate::cellular::{
    grow_cave, iterate_with, spec_cave, spec_count_neighbors, spec_iterate, valid_rolls,
};
use crate::distance::{flood, is_distance_field, lemma_field_is_one};
use crate::frames::record;
use crate::graph::{
    connected, lemma_connected_symmetric, lemma_connected_transitive, passable_mask, spec_passable,
};
use crate::grid::{
    idx_point, spec_set, CELLS, Frame, GOLD, GREEN, Glyph, Grid, HEIGHT, MapGen, Point, RED, Tile,
    WIDTH,
};
use crate::nearest::{cell_point, has_no_cell, is_nearest_cell, lemma_nearest_is_one, nearest_cell};
use crate::path::{
    a_star_search, is_route, is_shortest_route, is_the_route, lemma_route_is_one, NavigationPath,
};
use crate::reach::{cull_unreachable, lemma_cull_connects, mark_path, spec_cull, spec_mark_path};
use crate::rng::stream;

verus! {

/// How many generations the cave runs.
pub const GENERATIONS: usize = 10;

/// The cutoff of the distance field: walls that many steps away from the
/// middle or more are removed.
pub const MAX_DEPTH: u32 = 1024;

/// What a run found on the cave after the walls out of reach were removed.
pub struct Ends {
    /// The wall nearest to the middle of the left edge: the way in.
    pub start: usize,
    /// The wall nearest to the middle of the right edge, the way in apart:
    /// the way out. `None` where the way in is the only wall.
    pub end: Option<usize>,
    /// Whether a route leads from the way in to the way out.
    pub found: bool,
    /// The route, the way out last.
    pub steps: Vec<usize>,
}

/// The middle of the grid.
pub open spec fn spec_middle() -> Point {
    Point { x: (WIDTH / 2) as i32, y: (HEIGHT / 2) as i32 }
}

/// Removes the walls that cannot be reached from the wall nearest to the
/// middle of the grid. The result is that wall, or `None` on a grid without
/// walls, which stays as it is.
///
/// Afterwards every wall is connected to that wall.
pub fn connect_cave(map: &mut Grid) -> (central: Option<usize>)
    requires
        old(map).wf(),
    ensures
        final(map).wf(),
        central is None <==> has_no_cell(old(map)@, Glyph::Wall),
        central is None ==> final(map)@ == old(map)@,
        central matches Some(c) ==> {
            &&& is_nearest_cell(old(map)@, Glyph::Wall, spec_middle(), c as int)
            &&& final(map)@[c as int].0 == Glyph::Wall
            &&& exists|dist: Seq<u32>| #[trigger]
                is_distance_field(dist, spec_passable(old(map)@), seq![c], MAX_DEPTH as int)
                    && final(map)@ == spec_cull(old(map)@, dist)
            &&& is_whole(final(map)@, c as int)
        },
{
    match nearest_cell(map, Glyph::Wall, Point::new(WIDTH as i32 / 2, HEIGHT as i32 / 2)) {
        Some(c) => {
            let mask: Vec<bool> = passable_mask(map);
            let mut starts: Vec<usize> = Vec::new();
            starts.push(c);
            assert(starts@ =~= seq![c]);
            let (dist, _) = flood(&starts, &mask, MAX_DEPTH);
            cull_unreachable(map, &dist);
            proof {
                assert forall|i: int|
                    0 <= i < CELLS && (#[trigger] map@[i]).0 == Glyph::Wall implies connected(
                    spec_passable(map@),
                    c as int,
                    i,
                ) by {
                    lemma_cull_connects(old(map)@, dist@, c, MAX_DEPTH as int, i);
                }
                assert(dist@[c as int] != crate::distance::UNREACHABLE) by {
                    crate::distance::lemma_reaches_zero(spec_passable(old(map)@), starts@, c as int);
                    assert(starts@[0] == c);
                    assert(crate::distance::reaches(spec_passable(old(map)@), starts@, c as int, 0));
                    if dist@[c as int] == crate::distance::UNREACHABLE {
                        assert(crate::distance::beyond(
                            spec_passable(old(map)@),
                            starts@,
                            c as int,
                            MAX_DEPTH as int,
                        ));
                    }
                }
            }
            Some(c)
        },
        None => None,
    }
}

/// The middle of the left edge.
pub open spec fn spec_left() -> Point {
    Point { x: 0, y: (HEIGHT / 2) as i32 }
}

/// The middle of the right edge.
pub open spec fn spec_right() -> Point {
    Point { x: (WIDTH - 1) as i32, y: (HEIGHT / 2) as i32 }
}

/// The tiles after the ends have been marked: the route in purple stars, the
/// way in as the actor, the middle of the right edge as discarded, and the
/// way out as the exit, each over what was marked before it.
pub open spec fn spec_mark_ends(
    tiles: Seq<Tile>,
    start: usize,
    end: Option<usize>,
    steps: Seq<usize>,
) -> Seq<Tile> {
    let marked = tiles.update(start as int, (Glyph::Actor, GOLD));
    match end {
        Some(e) => spec_set(
            spec_set(
                spec_set(
                    spec_mark_path(marked, steps, steps.len() as int),
                    cell_point(start as int),
                    (Glyph::Actor, GOLD),
                ),
                spec_right(),
                (Glyph::Discard, RED),
            ),
            cell_point(e as int),
            (Glyph::Exit, GOLD),
        ),
        None => spec_set(marked, spec_right(), (Glyph::Discard, RED)),
    }
}

/// Whether `ends` is what is found on `tiles`: the way in is the wall
/// nearest to the middle of the left edge, the way out the nearest to the
/// middle of the right edge among the other walls, and the steps are a
/// shortest route from one to the other.
pub open spec fn ends_of(tiles: Seq<Tile>, ends: Ends) -> bool {
    let marked = tiles.update(ends.start as int, (Glyph::Actor, GOLD));
    &&& is_nearest_cell(tiles, Glyph::Wall, spec_left(), ends.start as int)
    &&& ends.end is None <==> has_no_cell(marked, Glyph::Wall)
    &&& ends.end matches Some(end) ==> {
        &&& is_nearest_cell(marked, Glyph::Wall, spec_right(), end as int)
        &&& ends.found == connected(spec_passable(tiles), ends.start as int, end as int)
        &&& ends.found ==> is_route(
            spec_passable(tiles),
            ends.start as int,
            end as int,
            ends.steps@,
        ) && is_shortest_route(spec_passable(tiles), ends.start as int, end as int, ends.steps@)
            && is_the_route(spec_passable(tiles), ends.start as int, end as int, ends.steps@)
    }
    &&& !ends.found ==> ends.steps@.len() == 0
    &&& ends.end is None ==> !ends.found
}

/// Whether every wall is connected to the cell `central`.
pub open spec fn is_whole(tiles: Seq<Tile>, central: int) -> bool {
    forall|i: int|
        0 <= i < CELLS && (#[trigger] tiles[i]).0 == Glyph::Wall ==> connected(
            spec_passable(tiles),
            central,
            i,
        )
}

/// On a grid whose walls are all connected to one cell, there is a route
/// from the way in to the way out.
pub proof fn lemma_whole_cave_has_route(tiles: Seq<Tile>, central: int, ends: Ends)
    requires
        tiles.len() == CELLS,
        is_whole(tiles, central),
        ends_of(tiles, ends),
        ends.end is Some,
    ensures
        ends.found,
{
    let m = spec_passable(tiles);
    let start = ends.start as int;
    let end = ends.end->0 as int;
    let marked = tiles.update(start, (Glyph::Actor, GOLD));
    assert(tiles[start].0 == Glyph::Wall);
    assert(marked[end].0 == Glyph::Wall);
    assert(tiles[end].0 == Glyph::Wall);
    lemma_connected_symmetric(m, central, start);
    lemma_connected_transitive(m, start, central, end);
}

/// Marks the way in, the way out and the route between them. `None` on a
/// grid without walls, which stays as it is.
pub fn mark_ends(map: &mut Grid) -> (r: Option<Ends>)
    requires
        old(map).wf(),
    ensures
        final(map).wf(),
        r is None <==> has_no_cell(old(map)@, Glyph::Wall),
        r is None ==> final(map)@ == old(map)@,
        r matches Some(ends) ==> {
            &&& ends_of(old(map)@, ends)
            &&& final(map)@ == spec_mark_ends(old(map)@, ends.start, ends.end, ends.steps@)
        },
{
    let desired_start: Point = Point::new(0, HEIGHT as i32 / 2);
    let desired_end: Point = Point::new(WIDTH as i32 - 1, HEIGHT as i32 / 2);
    match nearest_cell(map, Glyph::Wall, desired_start) {
        Some(start) => {
            map.tiles.set(start, (Glyph::Actor, GOLD));
            let ghost marked = map@;
            proof {
                assert(spec_passable(marked) =~= spec_passable(old(map)@));
            }
            let end: Option<usize> = nearest_cell(map, Glyph::Wall, desired_end);
            let mut found: bool = false;
            let mut steps: Vec<usize> = Vec::new();
            match end {
                Some(e) => {
                    let mask: Vec<bool> = passable_mask(map);
                    let path: NavigationPath = a_star_search(start, e, &mask);
                    found = path.success;
                    steps = path.steps;
                    mark_path(map, &steps);
                    map.set(idx_point(start), Glyph::Actor, GOLD);
                    map.set(desired_end, Glyph::Discard, RED);
                    map.set(idx_point(e), Glyph::Exit, GOLD);
                },
                None => {
                    map.set(desired_end, Glyph::Discard, RED);
                },
            }
            Some(Ends { start, end, found, steps })
        },
        None => None,
    }
}

/// Whether `ends` and `tiles` are what a run leaves of the cave `cave`: on a
/// cave without walls, nothing and the cave as it is; else the walls that
/// `dist`, the distance field of the wall `central` nearest to the middle of
/// the grid, holds as unreachable are removed, and the ends of what is left
/// are found and marked.
pub open spec fn is_ending(
    cave: Seq<Tile>,
    dist: Seq<u32>,
    central: int,
    ends: Option<Ends>,
    tiles: Seq<Tile>,
) -> bool {
    if has_no_cell(cave, Glyph::Wall) {
        ends is None && tiles == cave
    } else {
        &&& is_nearest_cell(cave, Glyph::Wall, spec_middle(), central)
        &&& is_distance_field(dist, spec_passable(cave), seq![central as usize], MAX_DEPTH as int)
        &&& ends matches Some(found) && ends_of(spec_cull(cave, dist), found) && tiles
            == spec_mark_ends(spec_cull(cave, dist), found.start, found.end, found.steps@)
    }
}

/// Whether `frames` and `ends` are what a run leaves that seeds its noise
/// with `rolls`: one frame, which shows the cave made whole and its ends
/// marked.
#[verifier::opaque]
pub open spec fn is_run(frames: Seq<Frame>, ends: Option<Ends>, rolls: Seq<int>) -> bool {
    &&& valid_rolls(rolls)
    &&& frames.len() == 1
    &&& frames[0].1@ == " Exit by direction "@
    &&& exists|dist: Seq<u32>, central: int| #[trigger]
        is_ending(spec_cave(rolls, GENERATIONS as int, GREEN), dist, central, ends, frames[0].0@)
}

/// The ends of a grid are determined: two answers name the same way in, the
/// same way out and the same route.
pub proof fn lemma_ends_are_determined(tiles: Seq<Tile>, first: Ends, second: Ends)
    requires
        ends_of(tiles, first),
        ends_of(tiles, second),
    ensures
        first.start == second.start,
        first.end == second.end,
        first.found == second.found,
        first.steps@ == second.steps@,
{
    lemma_nearest_is_one(
        tiles,
        Glyph::Wall,
        spec_left(),
        first.start as int,
        second.start as int,
    );
    let marked = tiles.update(first.start as int, (Glyph::Actor, GOLD));
    if first.end is Some {
        let a = first.end->0;
        let b = second.end->0;
        lemma_nearest_is_one(marked, Glyph::Wall, spec_right(), a as int, b as int);
        if first.found {
            lemma_route_is_one(
                spec_passable(tiles),
                first.start as int,
                a as int,
                first.steps@,
                second.steps@,
            );
        } else {
            assert(first.steps@ =~= second.steps@);
        }
    } else {
        assert(first.steps@ =~= second.steps@);
    }
}

/// A run is determined by what it draws: two runs that seed their noise with
/// the same rolls find the same ends and record the same frame.
pub proof fn lemma_run_is_determined(
    first: (Seq<Frame>, Option<Ends>),
    second: (Seq<Frame>, Option<Ends>),
    rolls: Seq<int>,
)
    requires
        is_run(first.0, first.1, rolls),
        is_run(second.0, second.1, rolls),
    ensures
        first.1 is Some == second.1 is Some,
        first.1 matches Some(a) ==> a.start == second.1->0.start && a.end == second.1->0.end
            && a.found == second.1->0.found && a.steps@ == second.1->0.steps@,
        first.0.len() == second.0.len(),
        first.0[0].0@ == second.0[0].0@,
        first.0[0].1@ == second.0[0].1@,
{
    reveal(is_run);
    let cave = spec_cave(rolls, GENERATIONS as int, GREEN);
    let (d1, c1) = choose|dist: Seq<u32>, central: int| #[trigger]
        is_ending(cave, dist, central, first.1, first.0[0].0@);
    let (d2, c2) = choose|dist: Seq<u32>, central: int| #[trigger]
        is_ending(cave, dist, central, second.1, second.0[0].0@);
    if !has_no_cell(cave, Glyph::Wall) {
        lemma_nearest_is_one(cave, Glyph::Wall, spec_middle(), c1, c2);
        lemma_field_is_one(d1, d2, spec_passable(cave), seq![c1 as usize], MAX_DEPTH as int);
        lemma_ends_are_determined(spec_cull(cave, d1), first.1->0, second.1->0);
    }
}

/// The generator of a connected cave with its ends.
///
/// After [`MapGen::build`], `map` holds the grid of the frame, and `ends` what
/// was found, or `None` where the cave has no wall.
pub struct RoomBuilder {
    /// The seed of the stream that a run draws from; with `None`, every run
    /// draws from a stream seeded by the system.
    pub seed: Option<u64>,
    pub map: Grid,
    pub ends: Option<Ends>,
}

impl RoomBuilder {
    /// A generator whose every run draws from a stream seeded by the system.
    pub fn new() -> (builder: Box<Self>)
        ensures
            builder.seed is None,
            builder.map.wf(),
            builder.ends is None,
    {
        Box::new(RoomBuilder { seed: None, map: Grid::new(), ends: None })
    }

    /// A generator whose every run draws from the stream of `seed`.
    pub fn seeded(seed: u64) -> (builder: Box<Self>)
        ensures
            builder.seed == Some(seed),
            builder.map.wf(),
            builder.ends is None,
    {
        Box::new(RoomBuilder { seed: Some(seed), map: Grid::new(), ends: None })
    }
}

impl MapGen for RoomBuilder {
    /// Nothing is prepared ahead of a run.
    fn setup(&mut self)
        ensures
            *final(self) == *old(self),
    {
    }

    /// Grows a cave, removes the walls that cannot be reached from its
    /// middle, and marks the way in, the way out and the route between them.
    /// One frame, which shows the result.
    fn build(&mut self) -> (frames: Vec<Frame>)
        ensures
            final(self).map.wf(),
            frames@.len() == 1,
            frames@[0].0@ == final(self).map@,
            frames@[0].1@ == " Exit by direction "@,
            final(self).ends matches Some(ends) ==> (ends.end is Some ==> ends.found),
            final(self).seed == old(self).seed,
            exists|rolls: Seq<int>| #[trigger] is_run(frames@, final(self).ends, rolls),
    {
        let mut rng: RandomNumberGenerator = stream(self.seed);
        let mut frames: Vec<Frame> = Vec::new();
        self.map = Grid::new();
        self.ends = None;
        grow_cave(&mut self.map, &mut rng, GENERATIONS);
        let ghost cave = self.map@;
        let ghost rolls = choose|rolls: Seq<int>|
            valid_rolls(rolls) && cave == #[trigger] spec_cave(rolls, GENERATIONS as int, GREEN);
        let ghost mut found_dist: Seq<u32> = Seq::empty();
        let ghost mut found_central: int = 0;
        match connect_cave(&mut self.map) {
            Some(central) => {
                let ghost culled = self.map@;
                let ghost dist = choose|dist: Seq<u32>| #[trigger]
                    is_distance_field(dist, spec_passable(cave), seq![central], MAX_DEPTH as int)
                        && culled == spec_cull(cave, dist);
                self.ends = mark_ends(&mut self.map);
                proof {
                    assert(self.ends is Some);
                    assert(is_whole(culled, central as int));
                    if self.ends->0.end is Some {
                        lemma_whole_cave_has_route(culled, central as int, self.ends->0);
                    }
                    assert(is_ending(cave, dist, central as int, self.ends, self.map@));
                    found_dist = dist;
                    found_central = central as int;
                }
            },
            None => {
                proof {
                    assert(is_ending(cave, Seq::empty(), 0, self.ends, self.map@));
                }
            },
        }
        record(&mut frames, &self.map, " Exit by direction ".to_string());
        proof {
            reveal(is_run);
            assert(is_ending(cave, found_dist, found_central, self.ends, frames@[0].0@));
            assert(is_run(frames@, self.ends, rolls));
        }
        frames
    }
}

/// How many of the eight cells around `(x, y)` hold a wall.
pub fn count_neighbors(map: &Grid, x: usize, y: usize) -> (n: usize)
    requires
        map.wf(),
    ensures
        n == spec_count_neighbors(map@, x as int, y as int),
{
    crate::cellular::count_neighbors(map, x, y)
}

/// Replaces the grid by its next generation, walls drawn in green.
pub fn iterate(map: &mut Grid)
    requires
        old(map).wf(),
    ensures
        final(map).wf(),
        final(map)@ == spec_iterate(old(map)@, GREEN),
{
    iterate_with(map, GREEN);
}

} // verus!
