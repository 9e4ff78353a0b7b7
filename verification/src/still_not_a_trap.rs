//! A cave, and a prefab placed on a block of walls of its own size.

use vstd::prelude::*;
use bracket_lib::prelude::RandomNumberGenerator;
use crate::cellular::{
    grow_cave, is_cave, iterate_with, spec_cave, spec_count_neighbors, spec_iterate, valid_rolls,
};
use crate::frames::record;
use crate::grid::{Frame, GREEN, Glyph, Grid, MapGen, Point};
use crate::not_a_trap::{legend, spec_legend, NOT_TRAP, TRAP_WIDTH};
use crate::prefab::{
    footprint_holds, is_trial_base, place_on_walls, spec_cells, spec_height, stamped_at, Legend,
    Prefab,
};
use crate::rng::stream;

verus! {

/// How many generations the cave runs.
pub const GENERATIONS: usize = 10;

/// The most cells that are tried for the prefab.
pub const MAX_PLACEMENTS: usize = 100000;

/// Whether `frames` is what a run records that seeds its noise with `rolls`
/// and places the prefab as `placed` says: the cave; and, where the prefab was
/// placed, the cave with the prefab stamped on a block of walls.
#[verifier::opaque]
pub open spec fn is_run(frames: Seq<Frame>, placed: Option<Point>, rolls: Seq<int>) -> bool {
    &&& valid_rolls(rolls)
    &&& frames.len() == (if placed is Some {
        2int
    } else {
        1int
    })
    &&& frames[0].0@ == spec_cave(rolls, GENERATIONS as int, GREEN)
    &&& frames[0].1@ == "Cellular Automata Map"@
    &&& placed matches Some(base) ==> {
        &&& is_trial_base(base)
        &&& footprint_holds(
            frames[0].0@,
            base.x as int,
            base.y as int,
            TRAP_WIDTH as int,
            spec_height(NOT_TRAP@, TRAP_WIDTH as int),
            Glyph::Wall,
        )
        &&& stamped_at(
            frames[0].0@,
            frames[1].0@,
            spec_cells(NOT_TRAP@),
            TRAP_WIDTH as int,
            spec_legend(),
            base,
        )
        &&& frames[1].1@ == "Found a place for the prefab"@
    }
}

/// A run is determined by what it draws: two runs that seed their noise with
/// the same rolls and place the prefab on the same cell record the same
/// frames.
pub proof fn lemma_run_is_determined(
    first: Seq<Frame>,
    second: Seq<Frame>,
    placed: Option<Point>,
    rolls: Seq<int>,
)
    requires
        is_run(first, placed, rolls),
        is_run(second, placed, rolls),
    ensures
        first.len() == second.len(),
        forall|j: int|
            0 <= j < first.len() ==> (#[trigger] first[j]).0@ == second[j].0@ && first[j].1@
                == second[j].1@,
{
    reveal(is_run);
    assert forall|j: int| 0 <= j < first.len() implies (#[trigger] first[j]).0@ == second[j].0@
        && first[j].1@ == second[j].1@ by {
        let _ = second[j];
    }
}

/// The generator of a cave with a prefab on its walls.
///
/// After [`MapGen::build`], `map` holds the grid of the last frame, and
/// `placed` the cell on which the prefab's first cell fell, or `None` where
/// the prefab was not placed.
pub struct RoomBuilder {
    /// The seed of the stream that a run draws from; with `None`, every run
    /// draws from a stream seeded by the system.
    pub seed: Option<u64>,
    pub map: Grid,
    pub placed: Option<Point>,
}

impl RoomBuilder {
    /// A generator whose every run draws from a stream seeded by the system.
    pub fn new() -> (builder: Box<Self>)
        ensures
            builder.seed is None,
            builder.map.wf(),
            builder.placed is None,
    {
        Box::new(RoomBuilder { seed: None, map: Grid::new(), placed: None })
    }

    /// A generator whose every run draws from the stream of `seed`.
    pub fn seeded(seed: u64) -> (builder: Box<Self>)
        ensures
            builder.seed == Some(seed),
            builder.map.wf(),
            builder.placed is None,
    {
        Box::new(RoomBuilder { seed: Some(seed), map: Grid::new(), placed: None })
    }
}

impl MapGen for RoomBuilder {
    /// Nothing is prepared ahead of a run.
    fn setup(&mut self)
        ensures
            *final(self) == *old(self),
    {
    }

    /// Grows a cave and places the prefab on a block of walls. One frame for
    /// the cave, and one for the prefab where it was placed.
    fn build(&mut self) -> (frames: Vec<Frame>)
        ensures
            final(self).map.wf(),
            frames@.len() == (if final(self).placed is Some {
                2int
            } else {
                1int
            }),
            final(self).seed == old(self).seed,
            exists|rolls: Seq<int>| #[trigger] is_run(frames@, final(self).placed, rolls),
            frames@[frames@.len() - 1].0@ == final(self).map@,
            is_cave(frames@[0].0@, GENERATIONS as int, GREEN),
            frames@[0].1@ == "Cellular Automata Map"@,
            final(self).placed is Some ==> frames@[1].1@ == "Found a place for the prefab"@,
            final(self).placed matches Some(base) ==> {
                &&& is_trial_base(base)
                &&& footprint_holds(
                    frames@[0].0@,
                    base.x as int,
                    base.y as int,
                    TRAP_WIDTH as int,
                    spec_height(NOT_TRAP@, TRAP_WIDTH as int),
                    Glyph::Wall,
                )
                &&& stamped_at(
                    frames@[0].0@,
                    frames@[1].0@,
                    spec_cells(NOT_TRAP@),
                    TRAP_WIDTH as int,
                    spec_legend(),
                    base,
                )
            },
    {
        let mut rng: RandomNumberGenerator = stream(self.seed);
        let mut frames: Vec<Frame> = Vec::new();
        self.placed = None;
        self.map = Grid::new();
        grow_cave(&mut self.map, &mut rng, GENERATIONS);
        let ghost rolls = choose|rolls: Seq<int>|
            valid_rolls(rolls) && self.map@ == #[trigger] spec_cave(
                rolls,
                GENERATIONS as int,
                GREEN,
            );
        record(&mut frames, &self.map, "Cellular Automata Map".to_string());
        let ghost first = frames@[0];

        match Prefab::parse(NOT_TRAP, TRAP_WIDTH) {
            Some(prefab) => {
                let l: Legend = legend();
                match place_on_walls(&mut self.map, &prefab, &l, &mut rng, MAX_PLACEMENTS) {
                    Ok(base) => {
                        self.placed = Some(base);
                        record(&mut frames, &self.map, "Found a place for the prefab".to_string());
                        proof {
                            assert(frames@.subrange(0, 1)[0] == first);
                        }
                    },
                    Err(_) => {},
                }
            },
            None => {},
        }
        proof {
            reveal(is_run);
            assert(is_run(frames@, self.placed, rolls));
        }
        frames
    }
}

/// How many of the eight cells around `(x, y)` hold a wall.
pub fn count_neighbors(map: &Grid, x: usize, y: usize) -> (n: usize)
    requires
        map.wf(),
    ensures
        n == spec_count_neighbors(map@, x as int, y as int),
{
    crate::cellular::count_neighbors(map, x, y)
}

/// Replaces the grid by its next generation, walls drawn in green.
pub fn iterate(map: &mut Grid)
    requires
        old(map).wf(),
    ensures
        final(map).wf(),
        final(map)@ == spec_iterate(old(map)@, GREEN),
{
    iterate_with(map, GREEN);
}

} // verus!
