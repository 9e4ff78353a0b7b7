//! Rooms and corridors, and a prefab placed in a room that it fits.

use vstd::prelude::*;
use bracket_lib::prelude::RandomNumberGenerator;
use crate::frames::record;
use crate::grid::{blank_tiles, Frame, GOLD, Glyph, Grid, MapGen, PURPLE, Point, RED, Tile};
use crate::prefab::{
    place_in_room, roomy, spec_anchor, spec_cells, spec_height, spec_stamp_text, stamp, stamped_at,
    Legend, Prefab,
};
use crate::rng::stream;
use crate::rect::Rect;
use crate::rooms::{
    laid_out, lemma_layout_is_determined, rooms_and_corridors, rooms_apart, rooms_fit, Layout,
};
use crate::sorting::{sorted_by_x1, Room};
use crate::tunnel::{carve_horizontal, carve_vertical, spec_carve_horizontal, spec_carve_vertical};

verus! {

/// The pattern of the prefab: six columns by five rows.
pub const NOT_TRAP: &'static str = "
......
.^^^^.
.^$$^.
.^^^^.
......
";

/// How many columns the pattern has.
pub const TRAP_WIDTH: usize = 6;

/// How many candidate rooms the generator draws.
pub const ATTEMPTS: usize = 20;

/// The most rooms that are tried for the prefab.
pub const MAX_PLACEMENTS: usize = 100000;

/// What the characters of the pattern stand for: `$` treasure in gold, `^` a
/// danger marker in red.
pub open spec fn spec_legend() -> Seq<(char, Tile)> {
    seq![('$', (Glyph::Treasure, GOLD)), ('^', (Glyph::Danger, RED))]
}

/// What the characters of the pattern stand for.
pub fn legend() -> (l: Legend)
    ensures
        l@ == spec_legend(),
{
    let mut l: Legend = Vec::new();
    l.push(('$', (Glyph::Treasure, GOLD)));
    l.push(('^', (Glyph::Danger, RED)));
    assert(l@ =~= spec_legend());
    l
}

/// Whether `frames` is what a run records that lays out the rooms `rooms` as
/// `layout` and `perm` say and places the prefab as `placed` says: the rooms;
/// the prefab on a grid of its own; and, where the prefab was placed, the
/// rooms with the prefab stamped into a room that it fits.
#[verifier::opaque]
pub open spec fn is_run(
    frames: Seq<Frame>,
    rooms: Seq<Room>,
    placed: Option<Point>,
    perm: Seq<int>,
    layout: Layout,
) -> bool {
    &&& laid_out(rooms, frames[0].0@, ATTEMPTS as int, layout.candidates, perm, layout.flips)
    &&& frames.len() == (if placed is Some {
        3int
    } else {
        2int
    })
    &&& frames[0].1@ == "Basic Rooms Map"@
    &&& frames[1].0@ == spec_stamp_text(
        blank_tiles(),
        NOT_TRAP@,
        TRAP_WIDTH as int,
        spec_legend(),
        Point { x: 36, y: 20 },
    )
    &&& frames[1].1@ == "This Prefab is Definitely Not A Trap"@
    &&& placed matches Some(base) ==> {
        &&& exists|k: int|
            {
                &&& 0 <= k < rooms.len()
                &&& roomy(
                    (#[trigger] rooms[k]).0,
                    TRAP_WIDTH as int,
                    spec_height(NOT_TRAP@, TRAP_WIDTH as int),
                )
                &&& base == spec_anchor(
                    rooms[k].0,
                    TRAP_WIDTH as int,
                    spec_height(NOT_TRAP@, TRAP_WIDTH as int),
                )
            }
        &&& stamped_at(
            frames[0].0@,
            frames[2].0@,
            spec_cells(NOT_TRAP@),
            TRAP_WIDTH as int,
            spec_legend(),
            base,
        )
        &&& frames[2].1@ == "Place Prefab in Room that Fits"@
    }
}

/// A run is determined by what it draws: two runs that lay out their rooms
/// alike and place the prefab on the same cell record the same frames.
pub proof fn lemma_run_is_determined(
    first: (Seq<Frame>, Seq<Room>, Seq<int>),
    second: (Seq<Frame>, Seq<Room>, Seq<int>),
    placed: Option<Point>,
    layout: Layout,
)
    requires
        is_run(first.0, first.1, placed, first.2, layout),
        is_run(second.0, second.1, placed, second.2, layout),
    ensures
        first.1 == second.1,
        first.0.len() == second.0.len(),
        forall|j: int|
            0 <= j < first.0.len() ==> (#[trigger] first.0[j]).0@ == second.0[j].0@ && first.0[j].1@
                == second.0[j].1@,
{
    reveal(is_run);
    lemma_layout_is_determined(
        (first.1, first.0[0].0@, first.2),
        (second.1, second.0[0].0@, second.2),
        ATTEMPTS as int,
        layout.candidates,
        layout.flips,
    );
    assert forall|j: int| 0 <= j < first.0.len() implies (#[trigger] first.0[j]).0@
        == second.0[j].0@ && first.0[j].1@ == second.0[j].1@ by {
        let _ = second.0[j];
    }
}

/// The generator of rooms with a prefab in one of them.
///
/// After [`MapGen::build`], `rooms` holds the rooms from left to right, `map`
/// the grid of the last frame, and `placed` the cell on which the prefab's
/// first cell fell, or `None` where the prefab was not placed.
pub struct RoomBuilder {
    /// The seed of the stream that a run draws from; with `None`, every run
    /// draws from a stream seeded by the system.
    pub seed: Option<u64>,
    pub rooms: Vec<Room>,
    pub map: Grid,
    pub placed: Option<Point>,
}

impl RoomBuilder {
    /// A generator whose every run draws from a stream seeded by the system.
    pub fn new() -> (builder: Box<Self>)
        ensures
            builder.seed is None,
            builder.map.wf(),
            builder.placed is None,
    {
        Box::new(RoomBuilder { seed: None, rooms: Vec::new(), map: Grid::new(), placed: None })
    }

    /// A generator whose every run draws from the stream of `seed`.
    pub fn seeded(seed: u64) -> (builder: Box<Self>)
        ensures
            builder.seed == Some(seed),
            builder.map.wf(),
            builder.placed is None,
    {
        Box::new(
            RoomBuilder { seed: Some(seed), rooms: Vec::new(), map: Grid::new(), placed: None },
        )
    }
}

impl MapGen for RoomBuilder {
    /// Nothing is prepared ahead of a run.
    fn setup(&mut self)
        ensures
            *final(self) == *old(self),
    {
    }

    /// Builds rooms and corridors, shows the prefab on an empty grid, and
    /// places it in a room that it fits. One frame for each of the three;
    /// where the prefab finds no room, the last frame is left out.
    fn build(&mut self) -> (frames: Vec<Frame>)
        ensures
            final(self).map.wf(),
            rooms_apart(final(self).rooms@),
            rooms_fit(final(self).rooms@),
            sorted_by_x1(final(self).rooms@),
            final(self).seed == old(self).seed,
            exists|perm: Seq<int>, layout: Layout| #[trigger]
                is_run(frames@, final(self).rooms@, final(self).placed, perm, layout),
            frames@.len() == (if final(self).placed is Some {
                3int
            } else {
                2int
            }),
            exists|candidates: Seq<Rect>, perm: Seq<int>, flips: Seq<bool>| #[trigger]
                laid_out(
                    final(self).rooms@,
                    frames@[0].0@,
                    ATTEMPTS as int,
                    candidates,
                    perm,
                    flips,
                ),
            frames@[1].0@ == spec_stamp_text(
                blank_tiles(),
                NOT_TRAP@,
                TRAP_WIDTH as int,
                spec_legend(),
                Point { x: 36, y: 20 },
            ),
            frames@[0].1@ == "Basic Rooms Map"@,
            frames@[1].1@ == "This Prefab is Definitely Not A Trap"@,
            frames@[frames@.len() - 1].0@ == final(self).map@ || final(self).placed is None,
            final(self).placed is None ==> final(self).map@ == frames@[0].0@,
            final(self).placed is Some ==> frames@[2].1@ == "Place Prefab in Room that Fits"@,
            final(self).placed matches Some(base) ==> exists|k: int|
                {
                    &&& 0 <= k < final(self).rooms@.len()
                    &&& roomy(
                        (#[trigger] final(self).rooms@[k]).0,
                        TRAP_WIDTH as int,
                        spec_height(NOT_TRAP@, TRAP_WIDTH as int),
                    )
                    &&& base == spec_anchor(
                        final(self).rooms@[k].0,
                        TRAP_WIDTH as int,
                        spec_height(NOT_TRAP@, TRAP_WIDTH as int),
                    )
                },
            final(self).placed matches Some(base) ==> stamped_at(
                frames@[0].0@,
                frames@[2].0@,
                spec_cells(NOT_TRAP@),
                TRAP_WIDTH as int,
                spec_legend(),
                base,
            ),
    {
        let mut rng: RandomNumberGenerator = stream(self.seed);
        let mut frames: Vec<Frame> = Vec::new();
        self.placed = None;
        rooms_and_corridors(ATTEMPTS, &mut rng, &mut self.map, &mut self.rooms);
        record(&mut frames, &self.map, "Basic Rooms Map".to_string());
        let ghost basic = frames@[0];
        let ghost (candidates, perm, flips) = choose|
            candidates: Seq<Rect>,
            perm: Seq<int>,
            flips: Seq<bool>,
        | #[trigger] laid_out(self.rooms@, basic.0@, ATTEMPTS as int, candidates, perm, flips);

        let l: Legend = legend();
        let mut show: Grid = Grid::new();
        match Prefab::parse(NOT_TRAP, TRAP_WIDTH) {
            Some(prefab) => {
                stamp(&mut show, &prefab, &l, Point::new(36, 20));
                record(&mut frames, &show, "This Prefab is Definitely Not A Trap".to_string());
                let ghost first = frames@[0];
                let ghost second = frames@[1];
                assert(frames@.subrange(0, 1)[0] == basic);
                match place_in_room(
                    &mut self.map,
                    &self.rooms,
                    &prefab,
                    &l,
                    &mut rng,
                    MAX_PLACEMENTS,
                ) {
                    Ok(base) => {
                        self.placed = Some(base);
                        record(&mut frames, &self.map, "Place Prefab in Room that Fits".to_string());
                        proof {
                            assert(frames@.subrange(0, 2)[0] == first);
                            assert(frames@.subrange(0, 2)[1] == second);
                            let k = choose|k: int|
                                0 <= k < self.rooms@.len() && roomy(
                                    (#[trigger] self.rooms@[k]).0,
                                    prefab.width as int,
                                    prefab.height as int,
                                ) && base == spec_anchor(
                                    self.rooms@[k].0,
                                    prefab.width as int,
                                    prefab.height as int,
                                );
                            assert(roomy(
                                self.rooms@[k].0,
                                TRAP_WIDTH as int,
                                spec_height(NOT_TRAP@, TRAP_WIDTH as int),
                            ));
                        }
                    },
                    Err(_) => {},
                }
            },
            None => {
                record(&mut frames, &show, "This Prefab is Definitely Not A Trap".to_string());
                assert(frames@.subrange(0, 1)[0] == basic);
            },
        }
        proof {
            assert(laid_out(self.rooms@, frames@[0].0@, ATTEMPTS as int, candidates, perm, flips));
            reveal(is_run);
            assert(is_run(frames@, self.rooms@, self.placed, perm, Layout { candidates, flips }));
        }
        frames
    }
}

/// Draws a purple corridor along row `y` from column `x1` to column `x2`.
pub fn apply_horizontal_tunnel(x1: i32, x2: i32, y: i32, map: &mut Grid)
    requires
        old(map).wf(),
    ensures
        final(map).wf(),
        final(map)@ == spec_carve_horizontal(
            old(map)@,
            x1 as int,
            x2 as int,
            y as int,
            (Glyph::Wall, PURPLE),
        ),
{
    carve_horizontal(x1, x2, y, PURPLE, map);
}

/// Draws a purple corridor along column `x` from row `y1` to row `y2`.
pub fn apply_vertical_tunnel(y1: i32, y2: i32, x: i32, map: &mut Grid)
    requires
        old(map).wf(),
    ensures
        final(map).wf(),
        final(map)@ == spec_carve_vertical(
            old(map)@,
            y1 as int,
            y2 as int,
            x as int,
            (Glyph::Wall, PURPLE),
        ),
{
    carve_vertical(y1, y2, x, PURPLE, map);
}

} // verus!
