//! A cave, and which of its walls can be reached from its middle.

use vstd::prelude::*;
use bracket_lib::prelude::RandomNumberGenerator;
use crate::cellular::{
    grow_cave, is_cave, iterate_with, spec_cave, spec_count_neighbors, spec_iterate, valid_rolls,
};
use crate::distance::{is_distance_field, lemma_field_is_one, DijkstraMap};
use crate::frames::record;
use crate::graph::{passable_mask, spec_passable};
use crate::grid::{Frame, GOLD, GREEN, Glyph, Grid, HEIGHT, MapGen, Point, WIDTH};
use crate::nearest::{has_no_cell, is_nearest_cell, lemma_nearest_is_one, nearest_cell};
use crate::reach::{mark_reachable, spec_mark_reachable};
use crate::rng::stream;

verus! {

/// How many generations the cave runs.
pub const GENERATIONS: usize = 10;

/// The cutoff of the distance field: walls that many steps away or more
/// count as out of reach.
pub const MAX_DEPTH: u32 = 1024;

/// The middle of the grid.
pub open spec fn spec_middle() -> Point {
    Point { x: (WIDTH / 2) as i32, y: (HEIGHT / 2) as i32 }
}

/// Whether `frames` and `start` are what a run leaves that seeds its noise
/// with `rolls`: the cave; and, unless the cave has no wall, the cave with the
/// wall nearest to its middle marked as the start, and the cave with every
/// wall coloured by its distance from there.
#[verifier::opaque]
pub open spec fn is_run(frames: Seq<Frame>, start: Option<usize>, rolls: Seq<int>) -> bool {
    &&& valid_rolls(rolls)
    &&& frames.len() == (if start is Some {
        3int
    } else {
        1int
    })
    &&& frames[0].0@ == spec_cave(rolls, GENERATIONS as int, GREEN)
    &&& frames[0].1@ == "Cellular Automata Map"@
    &&& start is None <==> has_no_cell(frames[0].0@, Glyph::Wall)
    &&& start matches Some(s) ==> {
        &&& is_nearest_cell(frames[0].0@, Glyph::Wall, spec_middle(), s as int)
        &&& frames[1].0@ == frames[0].0@.update(s as int, (Glyph::Actor, GOLD))
        &&& frames[1].1@ == "Central Open Point"@
        &&& exists|dist: Seq<u32>| #[trigger]
            is_distance_field(dist, spec_passable(frames[1].0@), seq![s], MAX_DEPTH as int)
                && frames[2].0@ == spec_mark_reachable(frames[1].0@, dist)
        &&& frames[2].1@ == "Mark Reachable/Unreachable"@
    }
}

/// A run is determined by what it draws: two runs that seed their noise with
/// the same rolls pick the same start and record the same frames.
pub proof fn lemma_run_is_determined(
    first: (Seq<Frame>, Option<usize>),
    second: (Seq<Frame>, Option<usize>),
    rolls: Seq<int>,
)
    requires
        is_run(first.0, first.1, rolls),
        is_run(second.0, second.1, rolls),
    ensures
        first.1 == second.1,
        first.0.len() == second.0.len(),
        forall|j: int|
            0 <= j < first.0.len() ==> (#[trigger] first.0[j]).0@ == second.0[j].0@ && first.0[j].1@
                == second.0[j].1@,
{
    reveal(is_run);
    if first.1 is Some {
        let s = first.1->0;
        let t = second.1->0;
        lemma_nearest_is_one(first.0[0].0@, Glyph::Wall, spec_middle(), s as int, t as int);
        let a = choose|dist: Seq<u32>| #[trigger]
            is_distance_field(dist, spec_passable(first.0[1].0@), seq![s], MAX_DEPTH as int)
                && first.0[2].0@ == spec_mark_reachable(first.0[1].0@, dist);
        let b = choose|dist: Seq<u32>| #[trigger]
            is_distance_field(dist, spec_passable(second.0[1].0@), seq![t], MAX_DEPTH as int)
                && second.0[2].0@ == spec_mark_reachable(second.0[1].0@, dist);
        lemma_field_is_one(a, b, spec_passable(first.0[1].0@), seq![s], MAX_DEPTH as int);
    }
    assert forall|j: int| 0 <= j < first.0.len() implies (#[trigger] first.0[j]).0@
        == second.0[j].0@ && first.0[j].1@ == second.0[j].1@ by {
        let _ = second.0[j];
    }
}

/// The generator of a cave marked by reach.
///
/// After [`MapGen::build`], `map` holds the grid of the last frame, and
/// `start` the cell from which distances were taken, or `None` where the cave
/// has no wall.
pub struct RoomBuilder {
    /// The seed of the stream that a run draws from; with `None`, every run
    /// draws from a stream seeded by the system.
    pub seed: Option<u64>,
    pub map: Grid,
    pub start: Option<usize>,
}

impl RoomBuilder {
    /// A generator whose every run draws from a stream seeded by the system.
    pub fn new() -> (builder: Box<Self>)
        ensures
            builder.seed is None,
            builder.map.wf(),
            builder.start is None,
    {
        Box::new(RoomBuilder { seed: None, map: Grid::new(), start: None })
    }

    /// A generator whose every run draws from the stream of `seed`.
    pub fn seeded(seed: u64) -> (builder: Box<Self>)
        ensures
            builder.seed == Some(seed),
            builder.map.wf(),
            builder.start is None,
    {
        Box::new(RoomBuilder { seed: Some(seed), map: Grid::new(), start: None })
    }
}

impl MapGen for RoomBuilder {
    /// Nothing is prepared ahead of a run.
    fn setup(&mut self)
        ensures
            *final(self) == *old(self),
    {
    }

    /// Grows a cave, marks the wall nearest to the middle of the grid as the
    /// start, and colours every wall by its distance from there. One frame
    /// for each of the three; a cave without a wall has only the first.
    fn build(&mut self) -> (frames: Vec<Frame>)
        ensures
            final(self).map.wf(),
            frames@.len() == (if final(self).start is Some {
                3int
            } else {
                1int
            }),
            final(self).seed == old(self).seed,
            exists|rolls: Seq<int>| #[trigger] is_run(frames@, final(self).start, rolls),
            frames@[frames@.len() - 1].0@ == final(self).map@,
            is_cave(frames@[0].0@, GENERATIONS as int, GREEN),
            frames@[0].1@ == "Cellular Automata Map"@,
            final(self).start is Some ==> frames@[1].1@ == "Central Open Point"@ && frames@[2].1@
                == "Mark Reachable/Unreachable"@,
            final(self).start is None <==> has_no_cell(frames@[0].0@, Glyph::Wall),
            final(self).start matches Some(start) ==> {
                &&& is_nearest_cell(frames@[0].0@, Glyph::Wall, spec_middle(), start as int)
                &&& frames@[1].0@ == frames@[0].0@.update(start as int, (Glyph::Actor, GOLD))
                &&& exists|dist: Seq<u32>| #[trigger]
                    is_distance_field(
                        dist,
                        spec_passable(frames@[1].0@),
                        seq![start],
                        MAX_DEPTH as int,
                    ) && frames@[2].0@ == spec_mark_reachable(frames@[1].0@, dist)
            },
    {
        let mut rng: RandomNumberGenerator = stream(self.seed);
        let mut frames: Vec<Frame> = Vec::new();
        self.map = Grid::new();
        grow_cave(&mut self.map, &mut rng, GENERATIONS);
        let ghost rolls = choose|rolls: Seq<int>|
            valid_rolls(rolls) && self.map@ == #[trigger] spec_cave(
                rolls,
                GENERATIONS as int,
                GREEN,
            );
        record(&mut frames, &self.map, "Cellular Automata Map".to_string());
        let ghost first = frames@[0];

        self.start = nearest_cell(
            &self.map,
            Glyph::Wall,
            Point::new(WIDTH as i32 / 2, HEIGHT as i32 / 2),
        );
        match self.start {
            Some(start) => {
                self.map.tiles.set(start, (Glyph::Actor, GOLD));
                record(&mut frames, &self.map, "Central Open Point".to_string());
                let ghost second = frames@[1];
                assert(frames@.subrange(0, 1)[0] == first);

                let mask: Vec<bool> = passable_mask(&self.map);
                let mut starts: Vec<usize> = Vec::new();
                starts.push(start);
                assert(starts@ =~= seq![start]);
                let field: DijkstraMap = DijkstraMap::new(&starts, &mask, MAX_DEPTH);
                mark_reachable(&mut self.map, &field.map);
                record(&mut frames, &self.map, "Mark Reachable/Unreachable".to_string());
                proof {
                    assert(frames@.subrange(0, 2)[0] == first);
                    assert(frames@.subrange(0, 2)[1] == second);
                    assert(is_distance_field(
                        field.map@,
                        spec_passable(frames@[1].0@),
                        seq![start],
                        MAX_DEPTH as int,
                    ));
                }
            },
            None => {},
        }
        proof {
            reveal(is_run);
            assert(is_run(frames@, self.start, rolls));
        }
        frames
    }
}

/// How many of the eight cells around `(x, y)` hold a wall.
pub fn count_neighbors(map: &Grid, x: usize, y: usize) -> (n: usize)
    requires
        map.wf(),
    ensures
        n == spec_count_neighbors(map@, x as int, y as int),
{
    crate::cellular::count_neighbors(map, x, y)
}

/// Replaces the grid by its next generation, walls drawn in green.
pub fn iterate(map: &mut Grid)
    requires
        old(map).wf(),
    ensures
        final(map).wf(),
        final(map)@ == spec_iterate(old(map)@, GREEN),
{
    iterate_with(map, GREEN);
}

} // verus!
