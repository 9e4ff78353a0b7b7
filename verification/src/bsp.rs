//! Rooms cut out of a pool of rectangles that grows by subdivision.

use vstd::prelude::*;
use bracket_lib::prelude::RandomNumberGenerator;
use crate::frames::record;
use crate::grid::{
    blank_tiles, frames_wf, iteration_color, mapidx, spec_in_bounds, spec_mapidx, CELLS, Color,
    Frame, Glyph, Grid,
    HEIGHT, MapGen, PURPLE, Tile, WIDTH,
};
use crate::rect::{abs_diff, spec_abs_diff, Rect};
use crate::rng::{roll_dice, stream};
use crate::rooms::{
    chain_connected, connect_rooms, fits_grid, joined_by, rooms_fit, shows_corridors,
};
use crate::sorting::{lemma_stable_sort_unique, sort_rooms, sorted_by_x1, stably_sorted, Room};
use crate::tunnel::{
    carve_horizontal, carve_vertical, greater, lesser, spec_carve_horizontal, spec_carve_vertical,
};

verus! {

/// The furthest from the origin that a corner of a rectangle of the pool may
/// lie, along either axis.
pub const REACH: i32 = 0x1000_0000;

/// Whether both corners of the rectangle lie within [`REACH`] of the origin.
pub open spec fn in_reach(r: Rect) -> bool {
    &&& -REACH <= r.x1 <= REACH
    &&& -REACH <= r.x2 <= REACH
    &&& -REACH <= r.y1 <= REACH
    &&& -REACH <= r.y2 <= REACH
}

/// Half of the distance between two corners along one axis, and at least one.
pub open spec fn spec_half_side(a: int, b: int) -> int {
    greater(spec_abs_diff(a, b) / 2, 1)
}

/// The four quarters of a rectangle: each half as wide and half as high, and
/// at least one cell each way; the first at the rectangle's first corner, then
/// the one below it, the one to its right, and the one below that.
pub open spec fn spec_subrects(r: Rect) -> Seq<Rect> {
    let w = spec_half_side(r.x1 as int, r.x2 as int);
    let h = spec_half_side(r.y1 as int, r.y2 as int);
    seq![
        Rect { x1: r.x1, x2: (r.x1 + w) as i32, y1: r.y1, y2: (r.y1 + h) as i32 },
        Rect { x1: r.x1, x2: (r.x1 + w) as i32, y1: (r.y1 + h) as i32, y2: (r.y1 + h + h) as i32 },
        Rect { x1: (r.x1 + w) as i32, x2: (r.x1 + w + w) as i32, y1: r.y1, y2: (r.y1 + h) as i32 },
        Rect {
            x1: (r.x1 + w) as i32,
            x2: (r.x1 + w + w) as i32,
            y1: (r.y1 + h) as i32,
            y2: (r.y1 + h + h) as i32,
        },
    ]
}

/// The side of a candidate room along one axis: what the die shows, but at
/// least three.
pub open spec fn spec_room_side(roll: int) -> int {
    greater(3, roll)
}

/// The highest number on the die that sizes a side: the side of the source
/// rectangle, but at most ten.
pub open spec fn spec_side_die(a: int, b: int) -> int {
    lesser(spec_abs_diff(a, b), 10)
}

/// The candidate room that four rolls cut out of `rect`: `roll_w` and
/// `roll_h` size it, `roll_x` and `roll_y`, of a six-sided die, shift its
/// first corner right and down from that of `rect`.
pub open spec fn spec_sub_rect(rect: Rect, roll_w: int, roll_h: int, roll_x: int, roll_y: int) -> Rect {
    let x1 = rect.x1 + roll_x - 1;
    let y1 = rect.y1 + roll_y - 1;
    Rect {
        x1: x1 as i32,
        x2: (x1 + spec_room_side(roll_w)) as i32,
        y1: y1 as i32,
        y2: (y1 + spec_room_side(roll_h)) as i32,
    }
}

/// Whether a room may be built on `rect`: every cell of `rect` pushed out by
/// two cells on every side, both corners counted in, lies on the grid and
/// still holds floor.
pub open spec fn spec_is_possible(tiles: Seq<Tile>, rect: Rect) -> bool {
    forall|x: int, y: int|
        rect.x1 - 2 <= x <= rect.x2 + 2 && rect.y1 - 2 <= y <= rect.y2 + 2 ==> spec_in_bounds(x, y)
            && tiles[#[trigger] spec_mapidx(x, y)].0 == Glyph::Floor
}

/// Whether the rectangle has a first corner on or near the grid, and sides of
/// at least one cell.
pub open spec fn pool_rect(r: Rect) -> bool {
    &&& 0 <= r.x1 <= 2 * WIDTH
    &&& 0 <= r.y1 <= 2 * HEIGHT
    &&& 1 <= r.x2 - r.x1 <= WIDTH
    &&& 1 <= r.y2 - r.y1 <= HEIGHT
}

/// Whether every rectangle of the pool is a [`pool_rect`].
pub open spec fn pool_ok(rects: Seq<Rect>) -> bool {
    forall|k: int| 0 <= k < rects.len() ==> pool_rect(#[trigger] rects[k])
}

/// The quarters of a pool rectangle whose first corner lies on the grid are
/// pool rectangles.
pub proof fn lemma_subrects_pool(r: Rect)
    requires
        pool_rect(r),
        r.x1 <= WIDTH,
        r.y1 <= HEIGHT,
    ensures
        pool_ok(spec_subrects(r)),
        spec_subrects(r).len() == 4,
{
    let s = spec_subrects(r);
    assert(pool_rect(s[0]));
    assert(pool_rect(s[1]));
    assert(pool_rect(s[2]));
    assert(pool_rect(s[3]));
}

/// The candidate room that four rolls cut out of `rect`.
pub fn sub_rect(rect: Rect, roll_w: i32, roll_h: i32, roll_x: i32, roll_y: i32) -> (r: Rect)
    requires
        in_reach(rect),
        1 <= roll_w <= 10,
        1 <= roll_h <= 10,
        1 <= roll_x <= 6,
        1 <= roll_y <= 6,
    ensures
        r == spec_sub_rect(rect, roll_w as int, roll_h as int, roll_x as int, roll_y as int),
{
    let w: i32 = if roll_w > 3 { roll_w } else { 3 };
    let h: i32 = if roll_h > 3 { roll_h } else { 3 };
    let x1: i32 = rect.x1 + (roll_x - 1);
    let y1: i32 = rect.y1 + (roll_y - 1);
    Rect { x1, x2: x1 + w, y1, y2: y1 + h }
}

/// The generator of rooms by subdivision.
///
/// After [`MapGen::build`], `rects` holds the pool, `rooms` the accepted rooms
/// from left to right, and `map` the grid of the last frame.
pub struct RoomBuilder {
    /// The seed of the stream that a run draws from; with `None`, every run
    /// draws from a stream seeded by the system.
    pub seed: Option<u64>,
    pub rects: Vec<Rect>,
    pub rooms: Vec<Room>,
    pub map: Grid,
}

/// How many candidate rooms the generator tries.
pub const ATTEMPTS: usize = 240;

/// The most rectangles that the pool may hold when the attempts start.
pub const MAX_POOL: usize = 1000000;

impl RoomBuilder {
    /// A generator whose every run draws from a stream seeded by the system.
    pub fn new() -> (builder: Box<Self>)
        ensures
            builder.seed is None,
            builder.rects@.len() == 0,
            builder.rooms@.len() == 0,
            builder.map.wf(),
    {
        Box::new(
            RoomBuilder { seed: None, rects: Vec::new(), rooms: Vec::new(), map: Grid::new() },
        )
    }

    /// A generator whose every run draws from the stream of `seed`.
    pub fn seeded(seed: u64) -> (builder: Box<Self>)
        ensures
            builder.seed == Some(seed),
            builder.rects@.len() == 0,
            builder.rooms@.len() == 0,
            builder.map.wf(),
    {
        Box::new(
            RoomBuilder {
                seed: Some(seed),
                rects: Vec::new(),
                rooms: Vec::new(),
                map: Grid::new(),
            },
        )
    }

    /// Adds the four quarters of `rect` to the pool.
    pub fn add_subrects(&mut self, rect: Rect)
        requires
            in_reach(rect),
        ensures
            final(self).rects@ == old(self).rects@ + spec_subrects(rect),
            final(self).rooms == old(self).rooms,
            final(self).map == old(self).map,
            final(self).seed == old(self).seed,
    {
        let width: i32 = abs_diff(rect.x1, rect.x2);
        let height: i32 = abs_diff(rect.y1, rect.y2);
        let half_width: i32 = if width / 2 > 1 { width / 2 } else { 1 };
        let half_height: i32 = if height / 2 > 1 { height / 2 } else { 1 };

        self.rects.push(Rect::with_size(rect.x1, rect.y1, half_width, half_height));
        self.rects.push(Rect::with_size(rect.x1, rect.y1 + half_height, half_width, half_height));
        self.rects.push(Rect::with_size(rect.x1 + half_width, rect.y1, half_width, half_height));
        self.rects.push(
            Rect::with_size(rect.x1 + half_width, rect.y1 + half_height, half_width, half_height),
        );
        assert(self.rects@ =~= old(self).rects@ + spec_subrects(rect));
    }

    /// Picks a rectangle of the pool: the only one where there is one, else
    /// the one that a die with a side for each shows.
    pub fn get_random_rect(&mut self, rng: &mut RandomNumberGenerator) -> (rect: Rect)
        requires
            0 < old(self).rects@.len() < i32::MAX,
        ensures
            *final(self) == *old(self),
            old(self).rects@.contains(rect),
    {
        if self.rects.len() == 1 {
            return self.rects[0];
        }
        let idx: usize = (roll_dice(rng, 1, self.rects.len() as i32) - 1) as usize;
        self.rects[idx]
    }

    /// Cuts a candidate room out of `rect`: four rolls from the stream, for
    /// the width, the height, and the shift right and down, in this order; see
    /// [`spec_sub_rect`].
    pub fn get_random_sub_rect(&self, rect: Rect, rng: &mut RandomNumberGenerator) -> (r: Rect)
        requires
            in_reach(rect),
            rect.x1 != rect.x2,
            rect.y1 != rect.y2,
        ensures
            exists|roll_w: int, roll_h: int, roll_x: int, roll_y: int|
                {
                    &&& 1 <= roll_w <= spec_side_die(rect.x1 as int, rect.x2 as int)
                    &&& 1 <= roll_h <= spec_side_die(rect.y1 as int, rect.y2 as int)
                    &&& 1 <= roll_x <= 6
                    &&& 1 <= roll_y <= 6
                    &&& r == #[trigger] spec_sub_rect(rect, roll_w, roll_h, roll_x, roll_y)
                },
    {
        let rect_width: i32 = abs_diff(rect.x1, rect.x2);
        let rect_height: i32 = abs_diff(rect.y1, rect.y2);
        let roll_w: i32 = roll_dice(rng, 1, if rect_width < 10 { rect_width } else { 10 });
        let roll_h: i32 = roll_dice(rng, 1, if rect_height < 10 { rect_height } else { 10 });
        let roll_x: i32 = roll_dice(rng, 1, 6);
        let roll_y: i32 = roll_dice(rng, 1, 6);
        let r: Rect = sub_rect(rect, roll_w, roll_h, roll_x, roll_y);
        assert(r == spec_sub_rect(rect, roll_w as int, roll_h as int, roll_x as int, roll_y as int));
        r
    }

    /// Whether a room may be built on `rect`; see [`spec_is_possible`].
    pub fn is_possible(&self, rect: Rect, map: &Grid) -> (b: bool)
        requires
            map.wf(),
        ensures
            b == spec_is_possible(map@, rect),
    {
        let x_lo: i64 = rect.x1 as i64 - 2;
        let x_hi: i64 = rect.x2 as i64 + 2;
        let y_lo: i64 = rect.y1 as i64 - 2;
        let y_hi: i64 = rect.y2 as i64 + 2;
        if x_lo > x_hi || y_lo > y_hi {
            return true;
        }
        if x_lo < 0 || x_hi > WIDTH as i64 - 1 || y_lo < 0 || y_hi > HEIGHT as i64 - 1 {
            assert(!spec_is_possible(map@, rect)) by {
                let x = if x_lo < 0 { x_lo as int } else { x_hi as int };
                let y = if y_lo < 0 { y_lo as int } else { y_hi as int };
                let _ = spec_mapidx(x, y);
                let _ = spec_mapidx(x_lo as int, y);
                let _ = spec_mapidx(x, y_lo as int);
            }
            return false;
        }
        let mut can_build: bool = true;
        let mut y: i64 = y_lo;
        while y <= y_hi
            invariant
                map.wf(),
                x_lo == rect.x1 - 2,
                x_hi == rect.x2 + 2,
                y_lo == rect.y1 - 2,
                y_hi == rect.y2 + 2,
                0 <= x_lo <= x_hi <= WIDTH - 1,
                0 <= y_lo <= y <= y_hi + 1,
                y_hi <= HEIGHT - 1,
                can_build == forall|cx: int, cy: int|
                    x_lo <= cx <= x_hi && y_lo <= cy < y ==> map@[#[trigger] spec_mapidx(cx, cy)].0
                        == Glyph::Floor,
            decreases y_hi + 1 - y,
        {
            let mut x: i64 = x_lo;
            while x <= x_hi
                invariant
                    map.wf(),
                    0 <= x_lo <= x <= x_hi + 1,
                    x_hi <= WIDTH - 1,
                    0 <= y_lo <= y <= y_hi,
                    y_hi <= HEIGHT - 1,
                    can_build == forall|cx: int, cy: int|
                        x_lo <= cx <= x_hi && y_lo <= cy <= y && (cy < y || cx < x) ==> map@[#[trigger] spec_mapidx(
                            cx,
                            cy,
                        )].0 == Glyph::Floor,
                decreases x_hi + 1 - x,
            {
                let idx: usize = mapidx(x as i32, y as i32);
                if map.tiles[idx].0 != Glyph::Floor {
                    can_build = false;
                    assert(map@[spec_mapidx(x as int, y as int)].0 != Glyph::Floor);
                }
                x += 1;
            }
            y += 1;
        }
        can_build
    }
}

/// Whether every cell that one of the rooms covers holds a wall.
#[verifier::opaque]
pub open spec fn rooms_drawn(tiles: Seq<Tile>, rooms: Seq<Room>) -> bool {
    forall|k: int, x: int, y: int|
        0 <= k < rooms.len() && (#[trigger] rooms[k]).0.covers(x, y) ==> tiles[#[trigger] spec_mapidx(
            x,
            y,
        )].0 == Glyph::Wall
}

/// Whether `later`, pushed out by two cells on every side, both corners
/// counted in, holds no cell that `earlier` covers.
pub open spec fn spaced(earlier: Rect, later: Rect) -> bool {
    ||| earlier.x2 <= later.x1 - 2
    ||| earlier.x1 > later.x2 + 2
    ||| earlier.y2 <= later.y1 - 2
    ||| earlier.y1 > later.y2 + 2
}

/// Whether every room keeps its distance from every room that was accepted
/// before it.
#[verifier::opaque]
pub open spec fn rooms_spaced(rooms: Seq<Room>) -> bool {
    forall|a: int, b: int|
        0 <= a < rooms.len() && 0 <= b < rooms.len() && (#[trigger] rooms[a]).1 < (
        #[trigger] rooms[b]).1 ==> spaced(rooms[a].0, rooms[b].0)
}

/// A room that may be built keeps its distance from every room that is
/// drawn.
pub proof fn lemma_possible_is_spaced(tiles: Seq<Tile>, rooms: Seq<Room>, rect: Rect, k: int)
    requires
        rooms_drawn(tiles, rooms),
        spec_is_possible(tiles, rect),
        0 <= k < rooms.len(),
        rooms[k].0.x1 < rooms[k].0.x2,
        rooms[k].0.y1 < rooms[k].0.y2,
        rect.x1 <= rect.x2,
        rect.y1 <= rect.y2,
    ensures
        spaced(rooms[k].0, rect),
{
    reveal(rooms_drawn);
    let r = rooms[k].0;
    if !spaced(r, rect) {
        let x = greater(r.x1 as int, rect.x1 - 2);
        let y = greater(r.y1 as int, rect.y1 - 2);
        assert(r.covers(x, y));
        assert(tiles[spec_mapidx(x, y)].0 == Glyph::Wall);
        assert(tiles[spec_mapidx(x, y)].0 == Glyph::Floor);
    }
}

/// Rooms that keep their distance do so in any order.
pub proof fn lemma_spaced_sorted(before: Seq<Room>, after: Seq<Room>, perm: Seq<int>)
    requires
        stably_sorted(before, after, perm),
        rooms_spaced(before),
        rooms_fit(before),
    ensures
        rooms_spaced(after),
        rooms_fit(after),
{
    reveal(rooms_spaced);
    assert forall|a: int, b: int|
        0 <= a < after.len() && 0 <= b < after.len() && (#[trigger] after[a]).1 < (
        #[trigger] after[b]).1 implies spaced(after[a].0, after[b].0) by {
        assert(after[a] == before[perm[a]] && after[b] == before[perm[b]]);
    }
    assert forall|i: int| 0 <= i < after.len() implies fits_grid((#[trigger] after[i]).0) by {
        assert(after[i] == before[perm[i]]);
    }
}

/// What one attempt draws from the stream: the place in the pool of the
/// rectangle that it picks, and the four rolls that cut the candidate out of
/// it.
pub struct Attempt {
    pub pick: int,
    pub roll_w: int,
    pub roll_h: int,
    pub roll_x: int,
    pub roll_y: int,
}

/// What a row of attempts leaves: the pool, the rooms that were accepted,
/// each with the number of its attempt, and the grid with those rooms drawn.
pub struct Carved {
    pub pool: Seq<Rect>,
    pub rooms: Seq<Room>,
    pub tiles: Seq<Tile>,
}

/// The colour of a room that was accepted at the attempt with the given
/// number: `fixed` where it is given, else the colour of the number modulo
/// twelve.
pub open spec fn spec_room_color(number: int, fixed: Option<Color>) -> Color {
    match fixed {
        Some(c) => c,
        None => crate::grid::spec_iteration_color(number % 12),
    }
}

/// The candidate room of an attempt on the given pool.
pub open spec fn spec_candidate(pool: Seq<Rect>, a: Attempt) -> Rect {
    spec_sub_rect(pool[a.pick], a.roll_w, a.roll_h, a.roll_x, a.roll_y)
}

/// Whether an attempt can be drawn on the given pool: it picks a rectangle of
/// the pool, and each of its rolls is a number on its die.
pub open spec fn valid_attempt(pool: Seq<Rect>, a: Attempt) -> bool {
    &&& 0 <= a.pick < pool.len()
    &&& 1 <= a.roll_w <= spec_side_die(pool[a.pick].x1 as int, pool[a.pick].x2 as int)
    &&& 1 <= a.roll_h <= spec_side_die(pool[a.pick].y1 as int, pool[a.pick].y2 as int)
    &&& 1 <= a.roll_x <= 6
    &&& 1 <= a.roll_y <= 6
}

/// What the attempt with the number `number` leaves of `before`: where its
/// candidate may be built, the candidate is drawn and joins the rooms, and
/// the quarters of the rectangle that it was cut from join the pool; else
/// nothing changes.
pub open spec fn spec_carve_step(before: Carved, a: Attempt, number: int, fixed: Option<Color>) -> Carved {
    let room = spec_candidate(before.pool, a);
    if spec_is_possible(before.tiles, room) {
        Carved {
            pool: before.pool + spec_subrects(before.pool[a.pick]),
            rooms: before.rooms.push((room, number as usize)),
            tiles: crate::grid::spec_fill_rect(
                before.tiles,
                room,
                (Glyph::Wall, spec_room_color(number, fixed)),
            ),
        }
    } else {
        before
    }
}

/// What the first `n` attempts leave of a pool on a fresh grid.
pub open spec fn spec_carve(pool: Seq<Rect>, attempts: Seq<Attempt>, n: int, fixed: Option<Color>) -> Carved
    decreases n,
{
    if n <= 0 {
        Carved { pool, rooms: Seq::empty(), tiles: blank_tiles() }
    } else {
        spec_carve_step(spec_carve(pool, attempts, n - 1, fixed), attempts[n - 1], n - 1, fixed)
    }
}

/// Whether `attempts` is a row of [`ATTEMPTS`] attempts, each one drawn on
/// the pool that the attempts before it left, that leaves `after`.
#[verifier::opaque]
pub open spec fn carved_by(pool: Seq<Rect>, attempts: Seq<Attempt>, fixed: Option<Color>, after: Carved) -> bool {
    &&& attempts.len() == ATTEMPTS
    &&& forall|k: int|
        0 <= k < ATTEMPTS ==> valid_attempt(
            spec_carve(pool, attempts, k, fixed).pool,
            #[trigger] attempts[k],
        )
    &&& spec_carve(pool, attempts, ATTEMPTS as int, fixed) == after
}

/// The tiles after the first `n` rooms have been drawn on `tiles`, each in
/// the colour of its attempt.
pub open spec fn spec_paint_attempts(tiles: Seq<Tile>, rooms: Seq<Room>, n: int, fixed: Option<Color>) -> Seq<Tile>
    decreases n,
{
    if n <= 0 {
        tiles
    } else {
        crate::grid::spec_fill_rect(
            spec_paint_attempts(tiles, rooms, n - 1, fixed),
            rooms[n - 1].0,
            (Glyph::Wall, spec_room_color(rooms[n - 1].1 as int, fixed)),
        )
    }
}

/// Whether the frames from `base` on show the rooms one by one: each the
/// grid with one more room.
#[verifier::opaque]
pub open spec fn shows_rooms(frames: Seq<Frame>, base: int, rooms: Seq<Room>, fixed: Option<Color>) -> bool {
    forall|j: int|
        base <= j < frames.len() ==> (#[trigger] frames[j]).0@ == spec_paint_attempts(
            blank_tiles(),
            rooms,
            j - base + 1,
            fixed,
        ) && frames[j].1@ == "Add Room"@
}

/// Rooms that are shown one by one are still shown one by one after one
/// more room and its frame.
pub proof fn lemma_shows_one_more(
    frames_before: Seq<Frame>,
    frames: Seq<Frame>,
    base: int,
    rooms_before: Seq<Room>,
    rooms: Seq<Room>,
    fixed: Option<Color>,
)
    requires
        0 <= base,
        shows_rooms(frames_before, base, rooms_before, fixed),
        frames_before.len() == base + rooms_before.len(),
        rooms.len() == rooms_before.len() + 1,
        rooms.subrange(0, rooms_before.len() as int) == rooms_before,
        frames.len() == frames_before.len() + 1,
        frames.subrange(0, frames_before.len() as int) == frames_before,
        frames[frames_before.len() as int].0@ == spec_paint_attempts(
            blank_tiles(),
            rooms,
            rooms.len() as int,
            fixed,
        ),
        frames[frames_before.len() as int].1@ == "Add Room"@,
    ensures
        shows_rooms(frames, base, rooms, fixed),
{
    reveal(shows_rooms);
    assert forall|j: int| base <= j < frames.len() implies (#[trigger] frames[j]).0@
        == spec_paint_attempts(blank_tiles(), rooms, j - base + 1, fixed) && frames[j].1@
        == "Add Room"@ by {
        if j < frames_before.len() {
            assert(frames[j] == frames.subrange(0, frames_before.len() as int)[j]);
            assert forall|k: int| 0 <= k < rooms_before.len() implies rooms_before[k]
                == rooms[k] by {
                assert(rooms.subrange(0, rooms_before.len() as int)[k] == rooms[k]);
            }
            lemma_paint_prefix(blank_tiles(), rooms_before, rooms, j - base + 1, fixed);
        }
    }
}

/// The first attempts leave the same whatever attempts follow them.
pub proof fn lemma_carve_prefix(
    pool: Seq<Rect>,
    attempts: Seq<Attempt>,
    more: Seq<Attempt>,
    n: int,
    fixed: Option<Color>,
)
    requires
        n <= attempts.len() <= more.len(),
        forall|k: int| 0 <= k < attempts.len() ==> attempts[k] == more[k],
    ensures
        spec_carve(pool, attempts, n, fixed) == spec_carve(pool, more, n, fixed),
    decreases n,
{
    if n > 0 {
        lemma_carve_prefix(pool, attempts, more, n - 1, fixed);
    }
}

/// The first rooms are drawn the same whatever rooms follow them.
pub proof fn lemma_paint_prefix(
    tiles: Seq<Tile>,
    rooms: Seq<Room>,
    more: Seq<Room>,
    n: int,
    fixed: Option<Color>,
)
    requires
        n <= rooms.len() <= more.len(),
        forall|k: int| 0 <= k < rooms.len() ==> rooms[k] == more[k],
    ensures
        spec_paint_attempts(tiles, rooms, n, fixed) == spec_paint_attempts(tiles, more, n, fixed),
    decreases n,
{
    if n > 0 {
        lemma_paint_prefix(tiles, rooms, more, n - 1, fixed);
    }
}

/// A candidate that may be built leaves the pool in order and the rooms on
/// the grid, at a distance from each other, and drawn.
pub proof fn lemma_carved_in_order(
    pool: Seq<Rect>,
    rooms: Seq<Room>,
    tiles: Seq<Tile>,
    rect: Rect,
    candidate: Rect,
    number: usize,
    color: Color,
    pool_after: Seq<Rect>,
    rooms_after: Seq<Room>,
    tiles_after: Seq<Tile>,
)
    requires
        tiles.len() == CELLS,
        pool_ok(pool),
        pool_ok(spec_subrects(rect)),
        rooms_fit(rooms),
        rooms_spaced(rooms),
        rooms_drawn(tiles, rooms),
        forall|k: int| 0 <= k < rooms.len() ==> (#[trigger] rooms[k]).1 < number,
        forall|k: int| 0 <= k < rooms.len() ==> spaced((#[trigger] rooms[k]).0, candidate),
        fits_grid(candidate),
        candidate.x1 < candidate.x2,
        candidate.y1 < candidate.y2,
        pool_after == pool + spec_subrects(rect),
        rooms_after == rooms.push((candidate, number)),
        tiles_after == crate::grid::spec_fill_rect(tiles, candidate, (Glyph::Wall, color)),
    ensures
        pool_ok(pool_after),
        rooms_fit(rooms_after),
        rooms_spaced(rooms_after),
        rooms_drawn(tiles_after, rooms_after),
{
    reveal(rooms_spaced);
    reveal(rooms_drawn);
    assert forall|k: int| 0 <= k < pool_after.len() implies pool_rect(#[trigger] pool_after[k]) by {
        if k < pool.len() {
            assert(pool_after[k] == pool[k]);
        } else {
            assert(pool_after[k] == spec_subrects(rect)[k - pool.len()]);
        }
    }
    assert forall|k: int| 0 <= k < rooms_after.len() implies fits_grid(
        (#[trigger] rooms_after[k]).0,
    ) by {
        if k < rooms.len() {
            assert(rooms_after[k] == rooms[k]);
        }
    }
    assert forall|k: int, x: int, y: int|
        0 <= k < rooms_after.len() && (#[trigger] rooms_after[k]).0.covers(
            x,
            y,
        ) implies tiles_after[#[trigger] spec_mapidx(x, y)].0 == Glyph::Wall by {
        assert(fits_grid(rooms_after[k].0));
        let i = spec_mapidx(x, y);
        assert(crate::grid::cell_x(i) == x && crate::grid::cell_y(i) == y);
        if k < rooms.len() {
            assert(rooms_after[k] == rooms[k]);
            assert(tiles[spec_mapidx(x, y)].0 == Glyph::Wall);
        }
    }
    assert forall|a: int, b: int|
        0 <= a < rooms_after.len() && 0 <= b < rooms_after.len() && (#[trigger] rooms_after[a]).1
            < (#[trigger] rooms_after[b]).1 implies spaced(rooms_after[a].0, rooms_after[b].0) by {
        if b < rooms.len() {
            if a < rooms.len() {
                assert(rooms_after[a] == rooms[a]);
                assert(rooms_after[b] == rooms[b]);
            } else {
                assert(rooms_after[b] == rooms[b]);
                assert(rooms[b].1 < number);
            }
        } else {
            assert(rooms_after[a] == rooms[a]);
        }
    }
}

impl RoomBuilder {
    /// What holds of a generator between two attempts: the pool is in order,
    /// and the rooms lie on the grid, keep their distance, and are drawn.
    #[verifier::opaque]
    pub open spec fn carving(&self) -> bool {
        &&& self.map.wf()
        &&& 0 < self.rects@.len()
        &&& pool_ok(self.rects@)
        &&& rooms_fit(self.rooms@)
        &&& rooms_spaced(self.rooms@)
        &&& rooms_drawn(self.map@, self.rooms@)
        &&& forall|k: int|
            0 <= k < self.rooms@.len() ==> (#[trigger] self.rooms@[k]).0.x1 < self.rooms@[k].0.x2
                && self.rooms@[k].0.y1 < self.rooms@[k].0.y2
    }

    /// The pool, the rooms and the tiles of the generator; the seed, which no
    /// attempt changes, is left out.
    pub open spec fn carved(&self) -> Carved {
        Carved { pool: self.rects@, rooms: self.rooms@, tiles: self.map@ }
    }

    /// Makes the attempt with the given number: picks a rectangle of the
    /// pool, cuts a candidate out of it, and builds the candidate where that
    /// is possible. The result says whether the candidate was built.
    pub fn carve_once(
        &mut self,
        rng: &mut RandomNumberGenerator,
        number: usize,
        fixed: Option<Color>,
    ) -> (accepted: bool)
        requires
            old(self).carving(),
            old(self).rects@.len() < i32::MAX,
            forall|k: int| 0 <= k < old(self).rooms@.len() ==> (#[trigger] old(self).rooms@[k]).1 < number,
        ensures
            final(self).carving(),
            final(self).seed == old(self).seed,
            exists|a: Attempt|
                valid_attempt(old(self).rects@, a) && #[trigger] spec_carve_step(
                    old(self).carved(),
                    a,
                    number as int,
                    fixed,
                ) == final(self).carved(),
            accepted ==> {
                &&& final(self).rooms@.len() == old(self).rooms@.len() + 1
                &&& final(self).rects@.len() == old(self).rects@.len() + 4
                &&& final(self).rooms@.subrange(0, old(self).rooms@.len() as int)
                    == old(self).rooms@
                &&& final(self).rooms@[old(self).rooms@.len() as int].1 == number
                &&& final(self).map@ == crate::grid::spec_fill_rect(
                    old(self).map@,
                    final(self).rooms@[old(self).rooms@.len() as int].0,
                    (Glyph::Wall, spec_room_color(number as int, fixed)),
                )
            },
            !accepted ==> final(self).carved() == old(self).carved(),
            final(self).map.wf(),
    {
        reveal(RoomBuilder::carving);
        let ghost pool_before = self.rects@;
        let ghost tiles_before = self.map@;
        let ghost rooms_before = self.rooms@;
        let rect: Rect = self.get_random_rect(rng);
        let ghost pick = choose|i: int| 0 <= i < pool_before.len() && pool_before[i] == rect;
        assert(pool_rect(rect));
        let candidate: Rect = self.get_random_sub_rect(rect, rng);
        let ghost (roll_w, roll_h, roll_x, roll_y) = choose|
            roll_w: int,
            roll_h: int,
            roll_x: int,
            roll_y: int,
        |
            {
                &&& 1 <= roll_w <= spec_side_die(rect.x1 as int, rect.x2 as int)
                &&& 1 <= roll_h <= spec_side_die(rect.y1 as int, rect.y2 as int)
                &&& 1 <= roll_x <= 6
                &&& 1 <= roll_y <= 6
                &&& candidate == #[trigger] spec_sub_rect(rect, roll_w, roll_h, roll_x, roll_y)
            };
        let ghost drawn = Attempt { pick, roll_w, roll_h, roll_x, roll_y };
        assert(spec_candidate(pool_before, drawn) == candidate);
        assert(valid_attempt(pool_before, drawn));
        if self.is_possible(candidate, &self.map) {
            let color: Color = match fixed {
                Some(c) => c,
                None => iteration_color(number % 12),
            };
            proof {
                let _ = spec_mapidx(candidate.x1 - 2, candidate.y1 - 2);
                let _ = spec_mapidx(candidate.x2 + 2, candidate.y2 + 2);
                assert(fits_grid(candidate));
                assert forall|k: int| 0 <= k < rooms_before.len() implies spaced(
                    (#[trigger] rooms_before[k]).0,
                    candidate,
                ) by {
                    lemma_possible_is_spaced(tiles_before, rooms_before, candidate, k);
                }
            }
            self.map.fill_rect(&candidate, Glyph::Wall, color);
            self.rooms.push((candidate, number));
            self.add_subrects(rect);
            proof {
                lemma_subrects_pool(rect);
                lemma_carved_in_order(
                    pool_before,
                    rooms_before,
                    tiles_before,
                    rect,
                    candidate,
                    number,
                    color,
                    self.rects@,
                    self.rooms@,
                    self.map@,
                );
                assert(self.rooms@.subrange(0, rooms_before.len() as int) =~= rooms_before);
                assert(spec_carve_step(old(self).carved(), drawn, number as int, fixed)
                    == self.carved());
            }
            true
        } else {
            assert(spec_carve_step(old(self).carved(), drawn, number as int, fixed)
                == self.carved());
            false
        }
    }

    /// Tries [`ATTEMPTS`] candidate rooms on a fresh grid. Each attempt picks
    /// a rectangle of the pool and cuts a candidate out of it; a candidate
    /// that may be built is drawn and joins the rooms under the number of the
    /// attempt, and the quarters of its source rectangle join the pool. Rooms
    /// are drawn in `fixed` where it is given, else in the colour of the
    /// attempt's number modulo twelve. With `record_each`, every accepted room
    /// records a frame.
    pub fn carve_rooms(
        &mut self,
        rng: &mut RandomNumberGenerator,
        frames: &mut Vec<Frame>,
        fixed: Option<Color>,
        record_each: bool,
    )
        requires
            0 < old(self).rects@.len() <= MAX_POOL,
            pool_ok(old(self).rects@),
            frames_wf(old(frames)@),
        ensures
            final(self).map.wf(),
            final(self).seed == old(self).seed,
            exists|attempts: Seq<Attempt>| #[trigger]
                carved_by(old(self).rects@, attempts, fixed, final(self).carved()),
            record_each ==> shows_rooms(
                final(frames)@,
                old(frames)@.len() as int,
                final(self).rooms@,
                fixed,
            ),
            final(self).map@ == spec_paint_attempts(
                blank_tiles(),
                final(self).rooms@,
                final(self).rooms@.len() as int,
                fixed,
            ),
            pool_ok(final(self).rects@),
            final(self).rooms@.len() <= ATTEMPTS,
            rooms_fit(final(self).rooms@),
            rooms_spaced(final(self).rooms@),
            rooms_drawn(final(self).map@, final(self).rooms@),
            frames_wf(final(frames)@),
            final(frames)@.len() == old(frames)@.len() + (if record_each {
                final(self).rooms@.len() as int
            } else {
                0
            }),
            final(frames)@.subrange(0, old(frames)@.len() as int) == old(frames)@,
    {
        self.map = Grid::new();
        self.rooms = Vec::new();
        let ghost pool = self.rects@;
        let ghost base: int = frames@.len() as int;
        let ghost mut attempts: Seq<Attempt> = Seq::empty();
        assert(self.rooms@ =~= Seq::<Room>::empty());
        assert(self.carving()) by {
            reveal(RoomBuilder::carving);
            reveal(rooms_spaced);
            reveal(rooms_drawn);
        }
        assert(shows_rooms(frames@, base, self.rooms@, fixed)) by {
            reveal(shows_rooms);
        }
        let mut attempt: usize = 0;
        while attempt < ATTEMPTS
            invariant
                attempt <= ATTEMPTS,
                self.seed == old(self).seed,
                self.carving(),
                self.map.wf(),
                pool == old(self).rects@,
                base == old(frames)@.len(),
                self.rects@.len() <= MAX_POOL + 4 * attempt,
                attempts.len() == attempt,
                forall|k: int|
                    0 <= k < attempt ==> valid_attempt(
                        spec_carve(pool, attempts, k, fixed).pool,
                        #[trigger] attempts[k],
                    ),
                spec_carve(pool, attempts, attempt as int, fixed) == self.carved(),
                self.map@ == spec_paint_attempts(
                    blank_tiles(),
                    self.rooms@,
                    self.rooms@.len() as int,
                    fixed,
                ),
                record_each ==> shows_rooms(frames@, base, self.rooms@, fixed),
                self.rooms@.len() <= attempt,
                forall|k: int| 0 <= k < self.rooms@.len() ==> (#[trigger] self.rooms@[k]).1 < attempt,
                frames_wf(frames@),
                frames@.len() == old(frames)@.len() + (if record_each {
                    self.rooms@.len() as int
                } else {
                    0
                }),
                frames@.subrange(0, old(frames)@.len() as int) == old(frames)@,
            decreases ATTEMPTS - attempt,
        {
            let ghost tried = attempts;
            let ghost before = self.carved();
            let ghost frames_before = frames@;
            let accepted: bool = self.carve_once(rng, attempt, fixed);
            proof {
                let drawn = choose|a: Attempt|
                    valid_attempt(before.pool, a) && #[trigger] spec_carve_step(
                        before,
                        a,
                        attempt as int,
                        fixed,
                    ) == self.carved();
                attempts = attempts.push(drawn);
                assert forall|k: int| 0 <= k < attempt + 1 implies valid_attempt(
                    spec_carve(pool, attempts, k, fixed).pool,
                    #[trigger] attempts[k],
                ) by {
                    lemma_carve_prefix(pool, tried, attempts, k, fixed);
                    if k < attempt {
                        assert(attempts[k] == tried[k]);
                    }
                }
                lemma_carve_prefix(pool, tried, attempts, attempt as int, fixed);
                if accepted {
                    lemma_paint_prefix(
                        blank_tiles(),
                        before.rooms,
                        self.rooms@,
                        before.rooms.len() as int,
                        fixed,
                    );
                    assert forall|k: int| 0 <= k < self.rooms@.len() implies (
                    #[trigger] self.rooms@[k]).1 < attempt + 1 by {
                        if k < before.rooms.len() {
                            assert(self.rooms@.subrange(0, before.rooms.len() as int)[k]
                                == before.rooms[k]);
                        }
                    }
                }
            }
            if accepted && record_each {
                record(frames, &self.map, "Add Room".to_string());
                proof {
                    assert(frames@.subrange(0, old(frames)@.len() as int)
                        =~= frames_before.subrange(0, old(frames)@.len() as int));
                    lemma_shows_one_more(
                        frames_before,
                        frames@,
                        base,
                        before.rooms,
                        self.rooms@,
                        fixed,
                    );
                }
            }
            attempt += 1;
        }
        assert(carved_by(pool, attempts, fixed, self.carved())) by {
            reveal(carved_by);
        }
        assert(pool_ok(self.rects@) && rooms_fit(self.rooms@) && rooms_spaced(self.rooms@)
            && rooms_drawn(self.map@, self.rooms@)) by {
            reveal(RoomBuilder::carving);
        }
    }

    /// Draws every room in the colour of its place in the list.
    pub fn paint_by_place(&mut self)
        requires
            old(self).map.wf(),
        ensures
            final(self).map.wf(),
            final(self).rooms == old(self).rooms,
            final(self).rects == old(self).rects,
            final(self).seed == old(self).seed,
            final(self).map@ == spec_paint_by_place(
                old(self).map@,
                old(self).rooms@,
                old(self).rooms@.len() as int,
            ),
    {
        let mut k: usize = 0;
        while k < self.rooms.len()
            invariant
                k <= self.rooms.len(),
                self.map.wf(),
                self.rooms == old(self).rooms,
                self.rects == old(self).rects,
                self.seed == old(self).seed,
                self.map@ == spec_paint_by_place(old(self).map@, self.rooms@, k as int),
            decreases self.rooms.len() - k,
        {
            let rect: Rect = self.rooms[k].0;
            self.map.fill_rect(&rect, Glyph::Wall, iteration_color(k));
            k += 1;
        }
    }
}

/// The tiles after the first `n` rooms have been drawn, each in the colour of
/// its place in the list, later rooms over earlier ones.
pub open spec fn spec_paint_by_place(tiles: Seq<Tile>, rooms: Seq<Room>, n: int) -> Seq<Tile>
    decreases n,
{
    if n <= 0 {
        tiles
    } else {
        crate::grid::spec_fill_rect(
            spec_paint_by_place(tiles, rooms, n - 1),
            rooms[n - 1].0,
            (Glyph::Wall, crate::grid::spec_iteration_color(n - 1)),
        )
    }
}

/// The rectangle that the pool starts from.
pub open spec fn first_rect() -> Rect {
    Rect { x1: 2, x2: (WIDTH - 3) as i32, y1: 2, y2: (HEIGHT - 3) as i32 }
}

/// The pool that a run starts from: one rectangle and its quarters.
pub open spec fn first_pool() -> Seq<Rect> {
    seq![first_rect()] + spec_subrects(first_rect())
}

/// The tiles after the first `n` rectangles of a pool have been drawn, each
/// in the colour of its place.
pub open spec fn spec_paint_pool(tiles: Seq<Tile>, pool: Seq<Rect>, n: int) -> Seq<Tile>
    decreases n,
{
    if n <= 0 {
        tiles
    } else {
        crate::grid::spec_fill_rect(
            spec_paint_pool(tiles, pool, n - 1),
            pool[n - 1],
            (Glyph::Wall, crate::grid::spec_iteration_color(n - 1)),
        )
    }
}

/// Whether the first frames show the first pool, one rectangle more in each.
#[verifier::opaque]
pub open spec fn shows_pool(frames: Seq<Frame>) -> bool {
    forall|j: int|
        0 <= j < 5 ==> (#[trigger] frames[j]).0@ == spec_paint_pool(
            blank_tiles(),
            first_pool(),
            j + 1,
        ) && frames[j].1@ == "Subdivide Starting Room"@
}

/// Whether `frames`, `pool`, `rooms` and `tiles` are what a run leaves that
/// makes the attempts `attempts` and flips the coins `flips`; `perm` says
/// where the accepted rooms stand once they are ordered from left to right.
///
/// The run shows the first pool, then every accepted room, then the ordered
/// rooms on a grid of their own, and then the corridors one by one.
#[verifier::opaque]
pub open spec fn is_run(
    frames: Seq<Frame>,
    pool: Seq<Rect>,
    rooms: Seq<Room>,
    tiles: Seq<Tile>,
    attempts: Seq<Attempt>,
    perm: Seq<int>,
    flips: Seq<bool>,
) -> bool {
    let carved = spec_carve(first_pool(), attempts, ATTEMPTS as int, None);
    let painted = spec_paint_by_place(blank_tiles(), rooms, rooms.len() as int);
    let tile = (Glyph::Wall, PURPLE);
    let r = rooms.len() as int;
    &&& carved_by(first_pool(), attempts, None, carved)
    &&& pool == carved.pool
    &&& stably_sorted(carved.rooms, rooms, perm)
    &&& joined_by(painted, rooms, tile, flips, tiles)
    &&& frames.len() == 5 + r + greater(r, 1)
    &&& shows_pool(frames)
    &&& shows_rooms(frames.subrange(0, 5 + r), 5, carved.rooms, None)
    &&& frames[5 + r].0@ == painted
    &&& frames[5 + r].1@ == "Sort Rooms"@
    &&& shows_corridors(frames, 5 + r + 1, painted, rooms, tile, flips)
}

/// A run is determined by what it draws: two runs that make the same
/// attempts and flip the same coins leave the same pool, the same rooms and
/// the same grid, and record the same frames.
pub proof fn lemma_run_is_determined(
    first: (Seq<Frame>, Seq<Rect>, Seq<Room>, Seq<Tile>, Seq<int>),
    second: (Seq<Frame>, Seq<Rect>, Seq<Room>, Seq<Tile>, Seq<int>),
    attempts: Seq<Attempt>,
    flips: Seq<bool>,
)
    requires
        is_run(first.0, first.1, first.2, first.3, attempts, first.4, flips),
        is_run(second.0, second.1, second.2, second.3, attempts, second.4, flips),
    ensures
        first.1 == second.1,
        first.2 == second.2,
        first.3 == second.3,
        first.4 == second.4,
        first.0.len() == second.0.len(),
        forall|j: int|
            0 <= j < first.0.len() ==> (#[trigger] first.0[j]).0@ == second.0[j].0@ && first.0[j].1@
                == second.0[j].1@,
{
    reveal(is_run);
    reveal(shows_pool);
    reveal(shows_rooms);
    let carved = spec_carve(first_pool(), attempts, ATTEMPTS as int, None);
    lemma_stable_sort_unique(carved.rooms, first.2, first.4, second.2, second.4);
    let r = first.2.len() as int;
    assert forall|j: int| 0 <= j < first.0.len() implies (#[trigger] first.0[j]).0@
        == second.0[j].0@ && first.0[j].1@ == second.0[j].1@ by {
        if j < 5 {
            let _ = second.0[j];
        } else if j < 5 + r {
            assert(first.0.subrange(0, 5 + r)[j] == first.0[j]);
            assert(second.0.subrange(0, 5 + r)[j] == second.0[j]);
        } else if j > 5 + r {
            let _ = second.0[j];
        }
    }
}

/// The frames of a run, taken together: the frames of the first pool, then
/// those of the accepted rooms, then that of the ordered rooms, then those of
/// the corridors.
pub proof fn lemma_run_assembles(
    shown: Seq<Frame>,
    carved_frames: Seq<Frame>,
    sorted: Seq<Frame>,
    frames: Seq<Frame>,
    carved: Carved,
    rooms: Seq<Room>,
    tiles: Seq<Tile>,
    attempts: Seq<Attempt>,
    perm: Seq<int>,
    flips: Seq<bool>,
)
    requires
        shown.len() == 5,
        shows_pool(shown),
        carved_frames.len() == 5 + carved.rooms.len(),
        carved_frames.subrange(0, 5) == shown,
        shows_rooms(carved_frames, 5, carved.rooms, None),
        carved_by(first_pool(), attempts, None, carved),
        stably_sorted(carved.rooms, rooms, perm),
        sorted.len() == carved_frames.len() + 1,
        sorted.subrange(0, carved_frames.len() as int) == carved_frames,
        sorted[carved_frames.len() as int].0@ == spec_paint_by_place(
            blank_tiles(),
            rooms,
            rooms.len() as int,
        ),
        sorted[carved_frames.len() as int].1@ == "Sort Rooms"@,
        frames.len() == sorted.len() + greater(rooms.len() as int, 1) - 1,
        frames.subrange(0, sorted.len() as int) == sorted,
        joined_by(
            spec_paint_by_place(blank_tiles(), rooms, rooms.len() as int),
            rooms,
            (Glyph::Wall, PURPLE),
            flips,
            tiles,
        ),
        shows_corridors(
            frames,
            sorted.len() as int,
            spec_paint_by_place(blank_tiles(), rooms, rooms.len() as int),
            rooms,
            (Glyph::Wall, PURPLE),
            flips,
        ),
    ensures
        is_run(frames, carved.pool, rooms, tiles, attempts, perm, flips),
{
    reveal(shows_pool);
    let r = rooms.len() as int;
    assert forall|j: int| 0 <= j < 5 + r implies frames[j] == carved_frames[j] by {
        assert(frames.subrange(0, sorted.len() as int)[j] == sorted[j]);
        assert(sorted.subrange(0, carved_frames.len() as int)[j] == carved_frames[j]);
    }
    assert(frames.subrange(0, 5 + r) =~= carved_frames);
    assert forall|j: int| 0 <= j < 5 implies (#[trigger] frames[j]).0@ == spec_paint_pool(
        blank_tiles(),
        first_pool(),
        j + 1,
    ) && frames[j].1@ == "Subdivide Starting Room"@ by {
        assert(carved_frames.subrange(0, 5)[j] == shown[j]);
        assert(frames[j] == carved_frames[j]);
    }
    assert(frames[5 + r] == sorted[5 + r]) by {
        assert(frames.subrange(0, sorted.len() as int)[5 + r] == sorted[5 + r]);
    }
    assert(spec_carve(first_pool(), attempts, ATTEMPTS as int, None) == carved) by {
        reveal(carved_by);
    }
    reveal(is_run);
}

impl RoomBuilder {
    /// Starts the pool: one rectangle and its quarters.
    pub fn start_pool(&mut self)
        ensures
            final(self).rects@ == first_pool(),
            pool_ok(final(self).rects@),
            final(self).rects@.len() == 5,
            final(self).rooms == old(self).rooms,
            final(self).map == old(self).map,
            final(self).seed == old(self).seed,
    {
        let first: Rect = Rect::with_size(2, 2, WIDTH as i32 - 5, HEIGHT as i32 - 5);
        self.rects = Vec::new();
        self.rects.push(first);
        self.add_subrects(first);
        proof {
            assert(pool_rect(first));
            lemma_subrects_pool(first);
            assert(self.rects@ =~= first_pool());
            assert forall|k: int| 0 <= k < self.rects@.len() implies pool_rect(
                #[trigger] self.rects@[k],
            ) by {
                if k >= 1 {
                    assert(self.rects@[k] == spec_subrects(first)[k - 1]);
                }
            }
        }
    }

    /// Records the frames that show the first pool: a fresh grid on which one
    /// rectangle after the other is drawn, each in the colour of its place.
    pub fn show_pool(&self, frames: &mut Vec<Frame>)
        requires
            self.rects@ == first_pool(),
            old(frames)@.len() == 0,
        ensures
            frames_wf(final(frames)@),
            final(frames)@.len() == 5,
            shows_pool(final(frames)@),
    {
        proof {
            lemma_subrects_pool(first_rect());
        }
        let mut map: Grid = Grid::new();
        let mut i: usize = 0;
        while i < self.rects.len()
            invariant
                i <= self.rects.len(),
                self.rects@ == first_pool(),
                self.rects@.len() == 5,
                map.wf(),
                map@ == spec_paint_pool(blank_tiles(), first_pool(), i as int),
                frames_wf(frames@),
                frames@.len() == i,
                forall|j: int|
                    0 <= j < i ==> (#[trigger] frames@[j]).0@ == spec_paint_pool(
                        blank_tiles(),
                        first_pool(),
                        j + 1,
                    ) && frames@[j].1@ == "Subdivide Starting Room"@,
            decreases self.rects.len() - i,
        {
            let ghost before = frames@;
            let rect: Rect = self.rects[i];
            map.fill_rect(&rect, Glyph::Wall, iteration_color(i));
            record(frames, &map, "Subdivide Starting Room".to_string());
            proof {
                assert forall|j: int| 0 <= j < i + 1 implies (#[trigger] frames@[j]).0@
                    == spec_paint_pool(blank_tiles(), first_pool(), j + 1) && frames@[j].1@
                    == "Subdivide Starting Room"@ by {
                    if j < i {
                        assert(frames@.subrange(0, before.len() as int)[j] == before[j]);
                    }
                }
            }
            i += 1;
        }
        assert(shows_pool(frames@)) by {
            reveal(shows_pool);
        }
    }
}

impl MapGen for RoomBuilder {
    /// Nothing is prepared ahead of a run.
    fn setup(&mut self)
        ensures
            *final(self) == *old(self),
    {
    }

    /// Starts the pool with one rectangle and its quarters, carves the rooms,
    /// orders them from left to right and joins each to the one before it.
    /// One frame per rectangle of the first pool, one per accepted room, one
    /// for the ordered rooms, one per corridor.
    fn build(&mut self) -> (frames: Vec<Frame>)
        ensures
            final(self).seed == old(self).seed,
            final(self).map.wf(),
            exists|attempts: Seq<Attempt>, perm: Seq<int>, flips: Seq<bool>| #[trigger]
                is_run(
                    frames@,
                    final(self).rects@,
                    final(self).rooms@,
                    final(self).map@,
                    attempts,
                    perm,
                    flips,
                ),
            pool_ok(final(self).rects@),
            final(self).rooms@.len() <= ATTEMPTS,
            rooms_fit(final(self).rooms@),
            rooms_spaced(final(self).rooms@),
            sorted_by_x1(final(self).rooms@),
            chain_connected(final(self).map@, final(self).rooms@, final(self).rooms@.len() as int),
            frames@.len() == 5 + final(self).rooms@.len() + 1 + greater(
                final(self).rooms@.len() as int,
                1,
            ) - 1,
            frames@[frames@.len() - 1].0@ == final(self).map@,
    {
        let mut rng: RandomNumberGenerator = stream(self.seed);
        let mut frames: Vec<Frame> = Vec::new();
        self.start_pool();
        self.show_pool(&mut frames);
        let ghost shown = frames@;

        self.carve_rooms(&mut rng, &mut frames, None, true);
        let ghost carved_frames = frames@;
        let ghost carved = self.carved();
        let ghost attempts = choose|attempts: Seq<Attempt>| #[trigger]
            carved_by(first_pool(), attempts, None, carved);

        let ghost unsorted = self.rooms@;
        sort_rooms(&mut self.rooms);
        let ghost perm = choose|perm: Seq<int>| stably_sorted(unsorted, self.rooms@, perm);
        proof {
            lemma_spaced_sorted(unsorted, self.rooms@, perm);
        }
        self.map.clear_default();
        self.paint_by_place();
        let ghost painted = self.map@;
        record(&mut frames, &self.map, "Sort Rooms".to_string());
        let ghost sorted = frames@;

        connect_rooms(&self.rooms, PURPLE, &mut rng, &mut self.map, &mut frames, true);
        proof {
            let tile = (Glyph::Wall, PURPLE);
            let flips = choose|flips: Seq<bool>| #[trigger]
                joined_by(painted, self.rooms@, tile, flips, self.map@) && shows_corridors(
                    frames@,
                    sorted.len() as int,
                    painted,
                    self.rooms@,
                    tile,
                    flips,
                );
            lemma_run_assembles(
                shown,
                carved_frames,
                sorted,
                frames@,
                carved,
                self.rooms@,
                self.map@,
                attempts,
                perm,
                flips,
            );
            assert(self.rects@ == carved.pool);
            assert(is_run(
                frames@,
                self.rects@,
                self.rooms@,
                self.map@,
                attempts,
                perm,
                flips,
            ));
        }
        frames
    }
}

/// Draws a purple corridor along row `y` from column `x1` to column `x2`.
pub fn apply_horizontal_tunnel(x1: i32, x2: i32, y: i32, map: &mut Grid)
    requires
        old(map).wf(),
    ensures
        final(map).wf(),
        final(map)@ == spec_carve_horizontal(
            old(map)@,
            x1 as int,
            x2 as int,
            y as int,
            (Glyph::Wall, PURPLE),
        ),
{
    carve_horizontal(x1, x2, y, PURPLE, map);
}

/// Draws a purple corridor along column `x` from row `y1` to row `y2`.
pub fn apply_vertical_tunnel(y1: i32, y2: i32, x: i32, map: &mut Grid)
    requires
        old(map).wf(),
    ensures
        final(map).wf(),
        final(map)@ == spec_carve_vertical(
            old(map)@,
            y1 as int,
            y2 as int,
            x as int,
            (Glyph::Wall, PURPLE),
        ),
{
    carve_vertical(y1, y2, x, PURPLE, map);
}

} // verus!
