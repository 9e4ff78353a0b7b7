//! Rooms and corridors, eroded: diggers start on what has been dug and
//! wander until they leave it.

use vstd::prelude::*;
use bracket_lib::prelude::RandomNumberGenerator;
use crate::dla::{drift, drifting, spec_drift, valid_drift, Dig, MAX_DRIFT};
use crate::frames::{numbered_label, numbered_text, record};
use crate::grid::{
    frames_wf, idx_point, spec_recolor, spec_set, spec_tint, CELLS, Frame, GREEN, Glyph, Grid,
    MapGen, Point, RED, Tile, YELLOW,
};
use crate::nearest::cell_point;
use crate::rng::{random_index, stream};
use crate::rect::Rect;
use crate::rooms::{
    laid_out, lemma_layout_is_determined, rooms_and_corridors, rooms_apart, rooms_fit, Layout,
};
use crate::sorting::{sorted_by_x1, Room};

verus! {

/// What one digger draws from the stream: the wall on which it starts, and
/// the rolls that move it.
pub struct Erosion {
    pub target: int,
    pub rolls: Seq<int>,
}

/// Whether some cell holds a wall.
pub open spec fn has_walls(tiles: Seq<Tile>) -> bool {
    exists|i: int| 0 <= i < CELLS && (#[trigger] tiles[i]).0 == Glyph::Wall
}

/// Whether a digger can draw `e` on `before`: on a grid with walls, it
/// starts on one of them, and wanders over the walls of the recoloured grid.
pub open spec fn valid_erosion(before: Seq<Tile>, e: Erosion) -> bool {
    has_walls(before) ==> {
        &&& 0 <= e.target < CELLS
        &&& before[e.target].0 == Glyph::Wall
        &&& valid_drift(
            spec_recolor(before, RED, GREEN),
            Glyph::Wall,
            Dig { start: cell_point(e.target), rolls: e.rolls },
            MAX_DRIFT as int,
        )
    }
}

/// What the digger that draws `e` leaves of `before`: the red of the digger
/// before turns green; the digger wanders over the walls; where it comes to
/// stand on another cell, that cell becomes a red wall; a digger that is
/// given up changes nothing more, and on a grid without walls there is no
/// digger.
pub open spec fn spec_erode(before: Seq<Tile>, e: Erosion) -> Seq<Tile> {
    let recolored = spec_recolor(before, RED, GREEN);
    if has_walls(before) {
        let end = spec_drift(recolored, Glyph::Wall, cell_point(e.target), e.rolls);
        if drifting(recolored, Glyph::Wall, end.pos) {
            recolored
        } else {
            spec_set(recolored, end.pos, (Glyph::Wall, RED))
        }
    } else {
        recolored
    }
}

/// Whether `after` is what one digger may leave of `before`.
#[verifier::opaque]
pub open spec fn eroded_by_digger(before: Seq<Tile>, after: Seq<Tile>) -> bool {
    exists|e: Erosion| valid_erosion(before, e) && after == #[trigger] spec_erode(before, e)
}

/// Starts one digger on a wall picked from the stream, each equally likely,
/// and lets it erode; see [`spec_erode`].
pub fn erode(map: &mut Grid, rng: &mut RandomNumberGenerator)
    requires
        old(map).wf(),
    ensures
        final(map).wf(),
        eroded_by_digger(old(map)@, final(map)@),
{
    let open_tiles: Vec<usize> = map.cells_with_glyph(Glyph::Wall);
    map.recolor(RED, GREEN);
    let ghost recolored = map@;
    match random_index(rng, &open_tiles) {
        Some(k) => {
            let target: usize = open_tiles[k];
            let start: Point = idx_point(target);
            assert(start == cell_point(target as int));
            let (end, stopped) = drift(map, Glyph::Wall, start, rng, MAX_DRIFT);
            if stopped {
                map.set(end.pos, Glyph::Wall, RED);
            }
            assert(eroded_by_digger(old(map)@, map@)) by {
                reveal(eroded_by_digger);
                assert(old(map)@[target as int].0 == Glyph::Wall);
                let rolls = choose|rolls: Seq<int>|
                    {
                        &&& rolls.len() <= MAX_DRIFT as int
                        &&& forall|k: int| 0 <= k < rolls.len() ==> 1 <= #[trigger] rolls[k] <= 4
                        &&& #[trigger] spec_drift(recolored, Glyph::Wall, start, rolls) == end
                        &&& rolls.len() == MAX_DRIFT as int || !drifting(
                            recolored,
                            Glyph::Wall,
                            end.pos,
                        )
                    };
                let e = Erosion { target: target as int, rolls };
                assert(valid_erosion(old(map)@, e));
                assert(map@ == spec_erode(old(map)@, e));
            }
        },
        None => {
            assert(eroded_by_digger(old(map)@, map@)) by {
                reveal(eroded_by_digger);
                assert forall|i: int| 0 <= i < CELLS implies (#[trigger] old(map)@[i]).0
                    != Glyph::Wall by {
                    if old(map)@[i].0 == Glyph::Wall {
                        assert(open_tiles@.contains(i as usize));
                    }
                }
                let e = Erosion { target: 0, rolls: Seq::empty() };
                assert(valid_erosion(old(map)@, e));
                assert(map@ == spec_erode(old(map)@, e));
            }
        },
    }
}

/// How many candidate rooms the generator draws.
pub const ATTEMPTS: usize = 20;

/// How many diggers the generator starts.
pub const DIGGERS: usize = 500;

/// The generator of eroded rooms.
///
/// After [`MapGen::build`], `rooms` holds the rooms from left to right and
/// `map` the grid of the last frame.
pub struct RoomBuilder {
    /// The seed of the stream that a run draws from; with `None`, every run
    /// draws from a stream seeded by the system.
    pub seed: Option<u64>,
    pub rooms: Vec<Room>,
    pub map: Grid,
}

impl RoomBuilder {
    /// A generator whose every run draws from a stream seeded by the system.
    pub fn new() -> (builder: Box<Self>)
        ensures
            builder.seed is None,
            builder.rooms@.len() == 0,
            builder.map.wf(),
    {
        Box::new(RoomBuilder { seed: None, rooms: Vec::new(), map: Grid::new() })
    }

    /// A generator whose every run draws from the stream of `seed`.
    pub fn seeded(seed: u64) -> (builder: Box<Self>)
        ensures
            builder.seed == Some(seed),
            builder.rooms@.len() == 0,
            builder.map.wf(),
    {
        Box::new(RoomBuilder { seed: Some(seed), rooms: Vec::new(), map: Grid::new() })
    }
}

/// Whether the digger that draws `erosions[j]` eroded the frame after the
/// `j`-th out of the `j`-th.
pub open spec fn eroded_in_turn_at(frames: Seq<Frame>, erosions: Seq<Erosion>, j: int) -> bool {
    &&& valid_erosion(frames[j].0@, erosions[j])
    &&& frames[j + 1].0@ == spec_erode(frames[j].0@, erosions[j])
    &&& frames[j + 1].1@ == numbered_text("Iteration"@, j as nat)
}

/// Whether the first `n` diggers eroded the frames one out of the other.
pub open spec fn eroded_in_turn(frames: Seq<Frame>, erosions: Seq<Erosion>, n: int) -> bool {
    forall|j: int| 0 <= j < n ==> #[trigger] eroded_in_turn_at(frames, erosions, j)
}

/// Whether `frames` is what a run records that lays out the rooms `rooms` on
/// the grid `laid` as `layout` and `perm` say, and whose diggers draw
/// `erosions`: the rooms in yellow, and then one frame per digger.
#[verifier::opaque]
pub open spec fn is_run(
    frames: Seq<Frame>,
    rooms: Seq<Room>,
    laid: Seq<Tile>,
    perm: Seq<int>,
    layout: Layout,
    erosions: Seq<Erosion>,
) -> bool {
    &&& laid_out(rooms, laid, ATTEMPTS as int, layout.candidates, perm, layout.flips)
    &&& erosions.len() == DIGGERS
    &&& frames.len() == DIGGERS + 1
    &&& frames[0].0@ == spec_tint(laid, Glyph::Wall, YELLOW)
    &&& frames[0].1@ == "Start with a traditional set of rooms"@
    &&& eroded_in_turn(frames, erosions, DIGGERS as int)
}

/// A run is determined by what it draws: two runs that lay out their rooms
/// alike and whose diggers draw the same record the same frames.
pub proof fn lemma_run_is_determined(
    first: (Seq<Frame>, Seq<Room>, Seq<Tile>, Seq<int>),
    second: (Seq<Frame>, Seq<Room>, Seq<Tile>, Seq<int>),
    layout: Layout,
    erosions: Seq<Erosion>,
)
    requires
        is_run(first.0, first.1, first.2, first.3, layout, erosions),
        is_run(second.0, second.1, second.2, second.3, layout, erosions),
    ensures
        first.1 == second.1,
        first.0.len() == second.0.len(),
        forall|j: int|
            0 <= j < first.0.len() ==> (#[trigger] first.0[j]).0@ == second.0[j].0@ && first.0[j].1@
                == second.0[j].1@,
{
    reveal(is_run);
    lemma_layout_is_determined(
        (first.1, first.2, first.3),
        (second.1, second.2, second.3),
        ATTEMPTS as int,
        layout.candidates,
        layout.flips,
    );
    lemma_same_erosions(first.0, second.0, erosions, DIGGERS as int);
}

/// Two runs whose diggers draw the same agree on their first frames.
proof fn lemma_same_erosions(
    first: Seq<Frame>,
    second: Seq<Frame>,
    erosions: Seq<Erosion>,
    upto: int,
)
    requires
        first.len() > upto,
        second.len() > upto,
        first[0].0@ == second[0].0@,
        first[0].1@ == second[0].1@,
        0 <= upto <= erosions.len(),
        eroded_in_turn(first, erosions, upto),
        eroded_in_turn(second, erosions, upto),
    ensures
        forall|j: int|
            0 <= j <= upto ==> (#[trigger] first[j]).0@ == second[j].0@ && first[j].1@
                == second[j].1@,
    decreases upto,
{
    if upto > 0 {
        lemma_same_erosions(first, second, erosions, upto - 1);
        assert(eroded_in_turn_at(first, erosions, upto - 1));
        assert(eroded_in_turn_at(second, erosions, upto - 1));
        assert(first[upto - 1].0@ == second[upto - 1].0@);
    }
}

impl MapGen for RoomBuilder {
    /// Nothing is prepared ahead of a run.
    fn setup(&mut self)
        ensures
            *final(self) == *old(self),
    {
    }

    /// Builds rooms and corridors, shows them in yellow, and starts
    /// [`DIGGERS`] diggers on them. One frame for the rooms, one per digger,
    /// each digger working on the grid of the frame before.
    fn build(&mut self) -> (frames: Vec<Frame>)
        ensures
            final(self).seed == old(self).seed,
            final(self).map.wf(),
            exists|laid: Seq<Tile>, perm: Seq<int>, layout: Layout, erosions: Seq<Erosion>| #[trigger]
                is_run(frames@, final(self).rooms@, laid, perm, layout, erosions),
            rooms_apart(final(self).rooms@),
            rooms_fit(final(self).rooms@),
            sorted_by_x1(final(self).rooms@),
            frames@.len() == 1 + DIGGERS,
            frames@[frames@.len() - 1].0@ == final(self).map@,
    {
        let mut rng: RandomNumberGenerator = stream(self.seed);
        let mut frames: Vec<Frame> = Vec::with_capacity(DIGGERS + 1);
        rooms_and_corridors(ATTEMPTS, &mut rng, &mut self.map, &mut self.rooms);
        let ghost laid = self.map@;
        let ghost (candidates, perm, flips) = choose|
            candidates: Seq<Rect>,
            perm: Seq<int>,
            flips: Seq<bool>,
        | #[trigger] laid_out(self.rooms@, laid, ATTEMPTS as int, candidates, perm, flips);
        self.map.tint(Glyph::Wall, YELLOW);
        record(&mut frames, &self.map, "Start with a traditional set of rooms".to_string());
        let ghost first = frames@[0];
        let ghost mut erosions: Seq<Erosion> = Seq::empty();

        let mut i: usize = 0;
        while i < DIGGERS
            invariant
                i <= DIGGERS,
                self.seed == old(self).seed,
                self.map.wf(),
                rooms_apart(self.rooms@),
                rooms_fit(self.rooms@),
                sorted_by_x1(self.rooms@),
                frames_wf(frames@),
                frames@.len() == 1 + i,
                erosions.len() == i,
                frames@[0] == first,
                laid_out(self.rooms@, laid, ATTEMPTS as int, candidates, perm, flips),
                eroded_in_turn(frames@, erosions, i as int),
                frames@[frames@.len() - 1].0@ == self.map@,
            decreases DIGGERS - i,
        {
            let ghost before = frames@;
            let ghost tiles_before = self.map@;
            let ghost eroded = erosions;
            erode(&mut self.map, &mut rng);
            record(&mut frames, &self.map, numbered_label("Iteration", i));
            proof {
                reveal(eroded_by_digger);
                let e = choose|e: Erosion|
                    valid_erosion(tiles_before, e) && self.map@ == #[trigger] spec_erode(
                        tiles_before,
                        e,
                    );
                erosions = erosions.push(e);
                assert forall|k: int| 0 <= k < before.len() implies frames@[k] == before[k] by {
                    assert(frames@.subrange(0, before.len() as int)[k] == before[k]);
                }
                assert forall|j: int| 0 <= j < i + 1 implies #[trigger] eroded_in_turn_at(
                    frames@,
                    erosions,
                    j,
                ) by {
                    assert(frames@[j] == before[j]);
                    if j < i {
                        assert(frames@[j + 1] == before[j + 1]);
                        assert(erosions[j] == eroded[j]);
                        assert(eroded_in_turn_at(before, eroded, j));
                    }
                }
            }
            i += 1;
        }
        proof {
            reveal(is_run);
            assert(is_run(
                frames@,
                self.rooms@,
                laid,
                perm,
                Layout { candidates, flips },
                erosions,
            ));
        }
        frames
    }
}

} // verus!
