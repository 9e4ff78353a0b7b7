//! Rooms and corridors with a way in and a way out, and the rooms that the
//! route between them passes through.

use vstd::prelude::*;
use bracket_lib::prelude::RandomNumberGenerator;
use crate::frames::record;
use crate::graph::{connected, passable_mask, spec_passable, spec_walkable};
use crate::grid::{
    cell_x, cell_y, idx_point, spec_tint, CELLS, Color, Frame, GOLD, GRAY, GREEN, Glyph, Grid,
    HEIGHT, MapGen, PURPLE, Point, Tile, WIDTH, YELLOW,
};
use crate::ending_right::{spec_left, spec_right};
use crate::nearest::{has_no_cell, is_nearest_cell, lemma_nearest_is_one, nearest_cell};
use crate::path::{
    a_star_search, is_route, is_shortest_route, is_the_route, lemma_route_is_one, NavigationPath,
};
use crate::rect::Rect;
use crate::rng::stream;
use crate::rooms::{
    laid_out, lemma_layout_is_determined, rooms_and_corridors, rooms_apart, rooms_fit, Layout,
};
use crate::sorting::{sorted_by_x1, Room};
use crate::tunnel::{carve_horizontal, carve_vertical, spec_carve_horizontal, spec_carve_vertical};

verus! {

/// How many candidate rooms the generator draws.
pub const ATTEMPTS: usize = 50;

/// Whether the cell `(x, y)` counts as part of `room` for a route: the cells
/// that the room covers, and the row below them.
pub open spec fn room_holds(room: Rect, x: int, y: int) -> bool {
    room.x1 <= x < room.x2 && room.y1 <= y < room.y2 + 1
}

/// Whether one of the steps falls on `room` or on the row below it.
pub open spec fn spec_room_on_path(room: Rect, steps: Seq<usize>) -> bool {
    exists|k: int|
        0 <= k < steps.len() && room_holds(
            room,
            cell_x(#[trigger] steps[k] as int),
            cell_y(steps[k] as int),
        )
}

/// Whether one of the steps falls on `room` or on the row below it.
pub fn room_on_path(room: &Rect, steps: &Vec<usize>) -> (hit: bool)
    ensures
        hit == spec_room_on_path(*room, steps@),
{
    let mut hit: bool = false;
    let mut k: usize = 0;
    while k < steps.len()
        invariant
            k <= steps.len(),
            hit == exists|j: int|
                0 <= j < k && room_holds(
                    *room,
                    cell_x(#[trigger] steps@[j] as int),
                    cell_y(steps@[j] as int),
                ),
        decreases steps.len() - k,
    {
        let x: i64 = (steps[k] % WIDTH) as i64;
        let y: i128 = (steps[k] / WIDTH) as i128;
        if room.x1 as i64 <= x && x < room.x2 as i64 && room.y1 as i128 <= y && y
            < room.y2 as i128 + 1 {
            hit = true;
            assert(room_holds(*room, cell_x(steps@[k as int] as int), cell_y(steps@[k as int] as int)));
        }
        k += 1;
    }
    hit
}

/// The tiles after every cell that `room` covers has become a wall of the
/// given colour, the cells that hold the way in or the way out apart.
pub open spec fn spec_highlight(tiles: Seq<Tile>, room: Rect, color: Color) -> Seq<Tile> {
    Seq::new(
        tiles.len(),
        |i: int|
            if room.covers(cell_x(i), cell_y(i)) && tiles[i].0 != Glyph::Actor && tiles[i].0
                != Glyph::Exit {
                (Glyph::Wall, color)
            } else {
                tiles[i]
            },
    )
}

/// Draws `room` in the given colour, but for a cell that holds the way in or
/// the way out.
pub fn highlight(map: &mut Grid, room: &Rect, color: Color)
    requires
        old(map).wf(),
    ensures
        final(map).wf(),
        final(map)@ == spec_highlight(old(map)@, *room, color),
{
    let mut i: usize = 0;
    while i < CELLS
        invariant
            i <= CELLS,
            map.wf(),
            old(map).wf(),
            forall|k: int| 0 <= k < i ==> map@[k] == spec_highlight(old(map)@, *room, color)[k],
            forall|k: int| i <= k < CELLS ==> map@[k] == old(map)@[k],
        decreases CELLS - i,
    {
        let ghost before = map@;
        let p: Point = idx_point(i);
        let glyph: Glyph = map.tiles[i].0;
        if room.point_in_rect(p) && glyph != Glyph::Actor && glyph != Glyph::Exit {
            map.tiles.set(i, (Glyph::Wall, color));
            assert(map@ == before.update(i as int, (Glyph::Wall, color)));
        }
        assert(map@[i as int] == spec_highlight(old(map)@, *room, color)[i as int]);
        i += 1;
    }
    assert(map@ =~= spec_highlight(old(map)@, *room, color));
}

/// The tiles after the first `n` rooms have been drawn: in yellow the rooms
/// that the route passes through, in grey the others.
pub open spec fn spec_highlight_rooms(
    tiles: Seq<Tile>,
    rooms: Seq<Room>,
    steps: Seq<usize>,
    n: int,
) -> Seq<Tile>
    decreases n,
{
    if n <= 0 {
        tiles
    } else {
        spec_highlight(
            spec_highlight_rooms(tiles, rooms, steps, n - 1),
            rooms[n - 1].0,
            if spec_room_on_path(rooms[n - 1].0, steps) {
                YELLOW
            } else {
                GRAY
            },
        )
    }
}

/// Draws every room: in yellow if the route passes through it, else in grey.
pub fn highlight_rooms(map: &mut Grid, rooms: &Vec<Room>, steps: &Vec<usize>)
    requires
        old(map).wf(),
    ensures
        final(map).wf(),
        final(map)@ == spec_highlight_rooms(old(map)@, rooms@, steps@, rooms@.len() as int),
{
    let mut k: usize = 0;
    while k < rooms.len()
        invariant
            k <= rooms.len(),
            map.wf(),
            map@ == spec_highlight_rooms(old(map)@, rooms@, steps@, k as int),
        decreases rooms.len() - k,
    {
        let room: Rect = rooms[k].0;
        let color: Color = if room_on_path(&room, steps) { YELLOW } else { GRAY };
        highlight(map, &room, color);
        k += 1;
    }
}

/// Whether `start` and `end` are the ends of `tiles`: the walls nearest to
/// the middle of the left and of the right edge, or nothing on a grid
/// without walls.
pub open spec fn ends_picked(tiles: Seq<Tile>, start: Option<usize>, end: Option<usize>) -> bool {
    &&& start is None <==> has_no_cell(tiles, Glyph::Wall)
    &&& end is None <==> has_no_cell(tiles, Glyph::Wall)
    &&& start matches Some(s) ==> is_nearest_cell(tiles, Glyph::Wall, spec_left(), s as int)
    &&& end matches Some(e) ==> is_nearest_cell(tiles, Glyph::Wall, spec_right(), e as int)
}

/// The tiles after the way in has been marked as the actor and then the way
/// out as the exit.
pub open spec fn spec_markers(tiles: Seq<Tile>, start: Option<usize>, end: Option<usize>) -> Seq<
    Tile,
> {
    let with_start = match start {
        Some(s) => tiles.update(s as int, (Glyph::Actor, GOLD)),
        None => tiles,
    };
    match end {
        Some(e) => with_start.update(e as int, (Glyph::Exit, GOLD)),
        None => with_start,
    }
}

/// What a run finds on the rooms that it has laid out.
pub struct Found {
    /// The way in.
    pub start: Option<usize>,
    /// The way out.
    pub end: Option<usize>,
    /// Whether a route leads from one to the other.
    pub found: bool,
    /// The route, the way out last.
    pub steps: Seq<usize>,
}

/// Whether `frames` is what a run records that lays out the rooms `rooms` on
/// the grid `laid` as `layout` and `perm` say, and finds `found` on them: the
/// rooms in green with the way in and the way out marked, and the same with
/// the rooms that the route passes through in yellow, the others in grey.
#[verifier::opaque]
pub open spec fn is_run(
    frames: Seq<Frame>,
    rooms: Seq<Room>,
    found: Found,
    laid: Seq<Tile>,
    perm: Seq<int>,
    layout: Layout,
) -> bool {
    &&& laid_out(rooms, laid, ATTEMPTS as int, layout.candidates, perm, layout.flips)
    &&& ends_picked(laid, found.start, found.end)
    &&& frames.len() == 2
    &&& frames[0].0@ == spec_tint(
        spec_markers(laid, found.start, found.end),
        Glyph::Wall,
        GREEN,
    )
    &&& frames[0].1@ == "Rooms with Start/End"@
    &&& found.start matches Some(s) ==> found.found == connected(
        spec_passable(frames[0].0@),
        s as int,
        found.end->0 as int,
    )
    &&& found.found ==> found.start is Some && is_the_route(
        spec_passable(frames[0].0@),
        found.start->0 as int,
        found.end->0 as int,
        found.steps,
    )
    &&& !found.found ==> found.steps.len() == 0
    &&& frames[1].0@ == spec_highlight_rooms(frames[0].0@, rooms, found.steps, rooms.len() as int)
    &&& frames[1].1@ == "Important Rooms Highlighted"@
}

/// A run is determined by what it draws: two runs that lay out their rooms
/// alike find the same ends and the same route, and record the same frames.
pub proof fn lemma_run_is_determined(
    first: (Seq<Frame>, Seq<Room>, Found, Seq<Tile>, Seq<int>),
    second: (Seq<Frame>, Seq<Room>, Found, Seq<Tile>, Seq<int>),
    layout: Layout,
)
    requires
        is_run(first.0, first.1, first.2, first.3, first.4, layout),
        is_run(second.0, second.1, second.2, second.3, second.4, layout),
    ensures
        first.1 == second.1,
        first.2 == second.2,
        first.0.len() == second.0.len(),
        forall|j: int|
            0 <= j < first.0.len() ==> (#[trigger] first.0[j]).0@ == second.0[j].0@ && first.0[j].1@
                == second.0[j].1@,
{
    reveal(is_run);
    lemma_layout_is_determined(
        (first.1, first.3, first.4),
        (second.1, second.3, second.4),
        ATTEMPTS as int,
        layout.candidates,
        layout.flips,
    );
    let laid = first.3;
    if first.2.start is Some {
        lemma_nearest_is_one(
            laid,
            Glyph::Wall,
            spec_left(),
            first.2.start->0 as int,
            second.2.start->0 as int,
        );
        lemma_nearest_is_one(
            laid,
            Glyph::Wall,
            spec_right(),
            first.2.end->0 as int,
            second.2.end->0 as int,
        );
        if first.2.found {
            lemma_route_is_one(
                spec_passable(first.0[0].0@),
                first.2.start->0 as int,
                first.2.end->0 as int,
                first.2.steps,
                second.2.steps,
            );
        }
    }
    assert(first.2.steps =~= second.2.steps);
    assert forall|j: int| 0 <= j < first.0.len() implies (#[trigger] first.0[j]).0@
        == second.0[j].0@ && first.0[j].1@ == second.0[j].1@ by {
        let _ = second.0[j];
    }
}

/// The generator of rooms with the main route picked out.
///
/// After [`MapGen::build`], `rooms` holds the rooms from left to right, `map`
/// the grid of the last frame, `start` and `end` the way in and the way out
/// (`None` on a grid without walls), and `steps` the route from one to the
/// other, empty where there is none.
pub struct RoomBuilder {
    /// The seed of the stream that a run draws from; with `None`, every run
    /// draws from a stream seeded by the system.
    pub seed: Option<u64>,
    pub rooms: Vec<Room>,
    pub map: Grid,
    pub start: Option<usize>,
    pub end: Option<usize>,
    pub found: bool,
    pub steps: Vec<usize>,
}

impl RoomBuilder {
    /// A generator whose every run draws from a stream seeded by the system.
    pub fn new() -> (builder: Box<Self>)
        ensures
            builder.seed is None,
            builder.map.wf(),
    {
        Box::new(
            RoomBuilder {
                seed: None,
                rooms: Vec::new(),
                map: Grid::new(),
                start: None,
                end: None,
                found: false,
                steps: Vec::new(),
            },
        )
    }

    /// A generator whose every run draws from the stream of `seed`.
    pub fn seeded(seed: u64) -> (builder: Box<Self>)
        ensures
            builder.seed == Some(seed),
            builder.map.wf(),
    {
        Box::new(
            RoomBuilder {
                seed: Some(seed),
                rooms: Vec::new(),
                map: Grid::new(),
                start: None,
                end: None,
                found: false,
                steps: Vec::new(),
            },
        )
    }
}

impl MapGen for RoomBuilder {
    /// Nothing is prepared ahead of a run.
    fn setup(&mut self)
        ensures
            *final(self) == *old(self),
    {
    }

    /// Builds rooms and corridors, marks the walls nearest to the middle of
    /// the left and of the right edge as the way in and the way out, and
    /// draws the rooms that the shortest route between them passes through in
    /// yellow, the others in grey. Two frames: before and after the rooms are
    /// drawn.
    fn build(&mut self) -> (frames: Vec<Frame>)
        ensures
            final(self).map.wf(),
            rooms_apart(final(self).rooms@),
            rooms_fit(final(self).rooms@),
            sorted_by_x1(final(self).rooms@),
            final(self).seed == old(self).seed,
            exists|laid: Seq<Tile>, perm: Seq<int>, layout: Layout| #[trigger]
                is_run(
                    frames@,
                    final(self).rooms@,
                    Found {
                        start: final(self).start,
                        end: final(self).end,
                        found: final(self).found,
                        steps: final(self).steps@,
                    },
                    laid,
                    perm,
                    layout,
                ),
            frames@.len() == 2,
            frames@[0].1@ == "Rooms with Start/End"@,
            frames@[1].1@ == "Important Rooms Highlighted"@,
            exists|laid: Seq<Tile>, candidates: Seq<Rect>, perm: Seq<int>, flips: Seq<bool>|
                {
                    &&& #[trigger] laid_out(
                        final(self).rooms@,
                        laid,
                        ATTEMPTS as int,
                        candidates,
                        perm,
                        flips,
                    )
                    &&& #[trigger] ends_picked(laid, final(self).start, final(self).end)
                    &&& frames@[0].0@ == spec_tint(
                        spec_markers(laid, final(self).start, final(self).end),
                        Glyph::Wall,
                        GREEN,
                    )
                },
            frames@[1].0@ == spec_highlight_rooms(
                frames@[0].0@,
                final(self).rooms@,
                final(self).steps@,
                final(self).rooms@.len() as int,
            ),
            frames@[1].0@ == final(self).map@,
            final(self).start is Some == final(self).end is Some,
            final(self).start matches Some(s) ==> s < CELLS && spec_walkable(frames@[0].0@[s as int].0),
            final(self).end matches Some(e) ==> e < CELLS && frames@[0].0@[e as int].0 == Glyph::Exit,
            final(self).found ==> final(self).start is Some && final(self).end is Some,
            final(self).start is Some && final(self).end is Some ==> final(self).found == connected(
                spec_passable(frames@[0].0@),
                final(self).start->0 as int,
                final(self).end->0 as int,
            ),
            final(self).found ==> is_route(
                spec_passable(frames@[0].0@),
                final(self).start->0 as int,
                final(self).end->0 as int,
                final(self).steps@,
            ) && is_shortest_route(
                spec_passable(frames@[0].0@),
                final(self).start->0 as int,
                final(self).end->0 as int,
                final(self).steps@,
            ) && is_the_route(
                spec_passable(frames@[0].0@),
                final(self).start->0 as int,
                final(self).end->0 as int,
                final(self).steps@,
            ),
            !final(self).found ==> final(self).steps@.len() == 0,
    {
        let mut rng: RandomNumberGenerator = stream(self.seed);
        let mut frames: Vec<Frame> = Vec::new();
        self.steps = Vec::new();
        self.found = false;
        rooms_and_corridors(ATTEMPTS, &mut rng, &mut self.map, &mut self.rooms);
        let ghost laid = self.map@;
        let ghost (candidates, perm, flips) = choose|
            candidates: Seq<Rect>,
            perm: Seq<int>,
            flips: Seq<bool>,
        | #[trigger] laid_out(self.rooms@, laid, ATTEMPTS as int, candidates, perm, flips);

        let start: Option<usize> = nearest_cell(
            &self.map,
            Glyph::Wall,
            Point::new(0, HEIGHT as i32 / 2),
        );
        let end: Option<usize> = nearest_cell(
            &self.map,
            Glyph::Wall,
            Point::new(WIDTH as i32 - 1, HEIGHT as i32 / 2),
        );
        self.start = start;
        self.end = end;
        match start {
            Some(s) => {
                self.map.tiles.set(s, (Glyph::Actor, GOLD));
            },
            None => {},
        }
        match end {
            Some(e) => {
                self.map.tiles.set(e, (Glyph::Exit, GOLD));
            },
            None => {},
        }
        self.map.tint(Glyph::Wall, GREEN);
        record(&mut frames, &self.map, "Rooms with Start/End".to_string());
        let ghost first = frames@[0];

        match (start, end) {
            (Some(s), Some(e)) => {
                let mask: Vec<bool> = passable_mask(&self.map);
                let path: NavigationPath = a_star_search(s, e, &mask);
                self.found = path.success;
                self.steps = path.steps;
            },
            _ => {},
        }
        highlight_rooms(&mut self.map, &self.rooms, &self.steps);
        record(&mut frames, &self.map, "Important Rooms Highlighted".to_string());
        proof {
            assert(frames@.subrange(0, 1)[0] == first);
            assert(laid_out(self.rooms@, laid, ATTEMPTS as int, candidates, perm, flips));
            assert(ends_picked(laid, self.start, self.end));
            reveal(is_run);
            assert(is_run(
                frames@,
                self.rooms@,
                Found { start: self.start, end: self.end, found: self.found, steps: self.steps@ },
                laid,
                perm,
                Layout { candidates, flips },
            ));
        }
        frames
    }
}

/// Draws a purple corridor along row `y` from column `x1` to column `x2`.
pub fn apply_horizontal_tunnel(x1: i32, x2: i32, y: i32, map: &mut Grid)
    requires
        old(map).wf(),
    ensures
        final(map).wf(),
        final(map)@ == spec_carve_horizontal(
            old(map)@,
            x1 as int,
            x2 as int,
            y as int,
            (Glyph::Wall, PURPLE),
        ),
{
    carve_horizontal(x1, x2, y, PURPLE, map);
}

/// Draws a purple corridor along column `x` from row `y1` to row `y2`.
pub fn apply_vertical_tunnel(y1: i32, y2: i32, x: i32, map: &mut Grid)
    requires
        old(map).wf(),
    ensures
        final(map).wf(),
        final(map)@ == spec_carve_vertical(
            old(map)@,
            y1 as int,
            y2 as int,
            x as int,
            (Glyph::Wall, PURPLE),
        ),
{
    carve_vertical(y1, y2, x, PURPLE, map);
}

} // verus!
