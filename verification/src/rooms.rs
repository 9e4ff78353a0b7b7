//! Rooms placed at random, kept apart, and joined by corridors from left to
//! right.

use vstd::prelude::*;
use bracket_lib::prelude::RandomNumberGenerator;
use crate::frames::{numbered_label, numbered_text, record};
use crate::graph::{connected, lemma_connected_monotone, spec_passable};
use crate::grid::{
    blank_tiles, frames_wf, iteration_color, spec_fill_rect, spec_iteration_color, spec_mapidx,
    Color, Frame, Glyph, Grid, HEIGHT, MapGen, PURPLE, Point, RED, Tile, WIDTH,
};
use crate::rect::Rect;
use crate::rng::{range, stream};
use crate::sorting::{lemma_stable_sort_unique, sort_rooms, sorted_by_x1, stably_sorted, Room};
use crate::tunnel::{
    carve_horizontal, carve_vertical, connect, greater, keeps_open, lemma_connect_connects,
    spec_carve_horizontal, spec_carve_vertical, spec_connect,
};

verus! {

/// Whether `a`, pushed out by one cell on every side, shares a point with
/// `b`. The relation is symmetric.
pub open spec fn spec_near(a: Rect, b: Rect) -> bool {
    a.x1 - 1 <= b.x2 && a.x2 + 1 >= b.x1 && a.y1 - 1 <= b.y2 && a.y2 + 1 >= b.y1
}

/// Whether `room` comes near one of `rooms`.
pub open spec fn spec_overlaps(rooms: Seq<Room>, room: Rect) -> bool {
    exists|i: int| 0 <= i < rooms.len() && spec_near((#[trigger] rooms[i]).0, room)
}

/// No two of the rooms come near each other.
pub open spec fn rooms_apart(rooms: Seq<Room>) -> bool {
    forall|i: int, j: int|
        0 <= i < rooms.len() && 0 <= j < rooms.len() && i != j ==> !spec_near(
            (#[trigger] rooms[i]).0,
            (#[trigger] rooms[j]).0,
        )
}

/// Whether both corners of the rectangle lie on the grid, the first one left
/// of and above the second or on it.
pub open spec fn fits_grid(r: Rect) -> bool {
    0 <= r.x1 <= r.x2 < WIDTH && 0 <= r.y1 <= r.y2 < HEIGHT
}

/// Every room lies on the grid.
pub open spec fn rooms_fit(rooms: Seq<Room>) -> bool {
    forall|i: int| 0 <= i < rooms.len() ==> fits_grid((#[trigger] rooms[i]).0)
}

/// The index of the cell in the middle of a room.
pub open spec fn center_idx(r: Rect) -> int {
    spec_mapidx(r.spec_center().x as int, r.spec_center().y as int)
}

/// Every room but the first is connected to the room before it, centre to
/// centre, over cells that can be walked on.
pub open spec fn chain_connected(tiles: Seq<Tile>, rooms: Seq<Room>, upto: int) -> bool {
    forall|k: int|
        1 <= k < upto ==> connected(
            spec_passable(tiles),
            center_idx(rooms[k - 1].0),
            #[trigger] center_idx(rooms[k].0),
        )
}

/// Growing a rectangle by one cell and testing it against another is the
/// same as testing whether the two come near.
pub proof fn lemma_near_is_grown_intersect(a: Rect, b: Rect)
    requires
        i32::MIN < a.x1,
        a.x2 < i32::MAX,
        i32::MIN < a.y1,
        a.y2 < i32::MAX,
    ensures
        spec_near(a, b) == a.spec_grown(1).spec_intersect(b),
        spec_near(a, b) == spec_near(b, a),
{
}

/// Of rooms that are apart, none touches another when it is pushed out by
/// one cell on every side.
pub proof fn lemma_apart_never_touch(rooms: Seq<Room>, i: int, j: int)
    requires
        rooms_apart(rooms),
        rooms_fit(rooms),
        0 <= i < rooms.len(),
        0 <= j < rooms.len(),
        i != j,
    ensures
        !rooms[i].0.spec_grown(1).spec_intersect(rooms[j].0),
        !rooms[j].0.spec_grown(1).spec_intersect(rooms[i].0),
{
    assert(fits_grid(rooms[i].0) && fits_grid(rooms[j].0));
    lemma_near_is_grown_intersect(rooms[i].0, rooms[j].0);
    lemma_near_is_grown_intersect(rooms[j].0, rooms[i].0);
}

/// Whether `room` comes near one of `rooms`.
pub fn overlaps(rooms: &Vec<Room>, room: &Rect) -> (b: bool)
    ensures
        b == spec_overlaps(rooms@, *room),
{
    let mut overlap: bool = false;
    let mut i: usize = 0;
    while i < rooms.len()
        invariant
            i <= rooms.len(),
            overlap == exists|k: int| 0 <= k < i && spec_near((#[trigger] rooms@[k]).0, *room),
        decreases rooms.len() - i,
    {
        let r: Rect = rooms[i].0;
        if r.x1 as i64 - 1 <= room.x2 as i64 && r.x2 as i64 + 1 >= room.x1 as i64 && r.y1 as i64 - 1
            <= room.y2 as i64 && r.y2 as i64 + 1 >= room.y1 as i64 {
            overlap = true;
            assert(spec_near(rooms@[i as int].0, *room));
        }
        i += 1;
    }
    overlap
}

/// A room that comes near none of a list of rooms that are apart can join
/// them.
pub proof fn lemma_apart_push(rooms: Seq<Room>, room: Room)
    requires
        rooms_apart(rooms),
        !spec_overlaps(rooms, room.0),
    ensures
        rooms_apart(rooms.push(room)),
{
    let after = rooms.push(room);
    assert forall|i: int, j: int|
        0 <= i < after.len() && 0 <= j < after.len() && i != j implies !spec_near(
        (#[trigger] after[i]).0,
        (#[trigger] after[j]).0,
    ) by {
        if i < rooms.len() && j < rooms.len() {
            assert(after[i] == rooms[i] && after[j] == rooms[j]);
        } else if i < rooms.len() {
            assert(after[i] == rooms[i]);
            assert(!spec_near(rooms[i].0, room.0));
        } else {
            assert(after[j] == rooms[j]);
            assert(!spec_near(rooms[j].0, room.0));
        }
    }
}

/// Rooms that are apart stay apart when they are put in another order.
pub proof fn lemma_apart_sorted(before: Seq<Room>, after: Seq<Room>, perm: Seq<int>)
    requires
        stably_sorted(before, after, perm),
        rooms_apart(before),
    ensures
        rooms_apart(after),
{
    assert forall|i: int, j: int|
        0 <= i < after.len() && 0 <= j < after.len() && i != j implies !spec_near(
        (#[trigger] after[i]).0,
        (#[trigger] after[j]).0,
    ) by {
        assert(after[i] == before[perm[i]] && after[j] == before[perm[j]]);
        assert(perm[i] != perm[j]) by {
            if i < j {
                assert(perm[i] != perm[j]);
            } else {
                assert(perm[j] != perm[i]);
            }
        }
    }
}

/// Rooms that lie on the grid do so in any order.
pub proof fn lemma_fit_sorted(before: Seq<Room>, after: Seq<Room>, perm: Seq<int>)
    requires
        stably_sorted(before, after, perm),
        rooms_fit(before),
    ensures
        rooms_fit(after),
{
    assert forall|i: int| 0 <= i < after.len() implies fits_grid((#[trigger] after[i]).0) by {
        assert(after[i] == before[perm[i]]);
    }
}

/// Where a candidate room may lie: its first corner from `(1, 1)` to
/// `(WIDTH - 11, HEIGHT - 11)`, its sides from 2 to 9 cells long.
pub open spec fn is_candidate(r: Rect) -> bool {
    &&& 1 <= r.x1 < WIDTH - 10
    &&& 1 <= r.y1 < HEIGHT - 10
    &&& 2 <= r.x2 - r.x1 < 10
    &&& 2 <= r.y2 - r.y1 < 10
}

/// Draws a candidate room: four numbers from the stream, for the corner's
/// column and row and for the width and height, in this order.
pub fn random_room(rng: &mut RandomNumberGenerator) -> (room: Rect)
    ensures
        is_candidate(room),
        fits_grid(room),
{
    let x: i32 = range(rng, 1, WIDTH as i32 - 10);
    let y: i32 = range(rng, 1, HEIGHT as i32 - 10);
    let w: i32 = range(rng, 2, 10);
    let h: i32 = range(rng, 2, 10);
    Rect::with_size(x, y, w, h)
}

/// Accepts `room` unless it comes near a room accepted before. An accepted
/// room is drawn in the colour of its number and joins the list; a rejected
/// one changes nothing.
pub fn add_room(map: &mut Grid, rooms: &mut Vec<Room>, room: Rect) -> (accepted: bool)
    requires
        old(map).wf(),
    ensures
        final(map).wf(),
        accepted == !spec_overlaps(old(rooms)@, room),
        accepted ==> final(rooms)@ == old(rooms)@.push((room, old(rooms)@.len() as usize))
            && final(map)@ == spec_fill_rect(
            old(map)@,
            room,
            (Glyph::Wall, spec_iteration_color(old(rooms)@.len() as int)),
        ),
        !accepted ==> final(rooms)@ == old(rooms)@ && final(map)@ == old(map)@,
{
    if overlaps(rooms, &room) {
        false
    } else {
        let number: usize = rooms.len();
        map.fill_rect(&room, Glyph::Wall, iteration_color(number));
        rooms.push((room, number));
        true
    }
}

/// The tiles after the first `n` rooms have been drawn, each in the colour of
/// its number, later rooms over earlier ones.
pub open spec fn spec_paint_rooms(tiles: Seq<Tile>, rooms: Seq<Room>, n: int) -> Seq<Tile>
    decreases n,
{
    if n <= 0 {
        tiles
    } else {
        spec_fill_rect(
            spec_paint_rooms(tiles, rooms, n - 1),
            rooms[n - 1].0,
            (Glyph::Wall, spec_iteration_color(rooms[n - 1].1 as int)),
        )
    }
}

/// Draws every room in the colour of its number, in the order of the list.
pub fn paint_rooms(map: &mut Grid, rooms: &Vec<Room>)
    requires
        old(map).wf(),
    ensures
        final(map).wf(),
        final(map)@ == spec_paint_rooms(old(map)@, rooms@, rooms@.len() as int),
{
    let mut i: usize = 0;
    while i < rooms.len()
        invariant
            i <= rooms.len(),
            map.wf(),
            map@ == spec_paint_rooms(old(map)@, rooms@, i as int),
        decreases rooms.len() - i,
    {
        let room: Room = rooms[i];
        map.fill_rect(&room.0, Glyph::Wall, iteration_color(room.1));
        i += 1;
    }
}

/// Draws a purple corridor along row `y` from column `x1` to column `x2`.
pub fn apply_horizontal_tunnel(x1: i32, x2: i32, y: i32, map: &mut Grid)
    requires
        old(map).wf(),
    ensures
        final(map).wf(),
        final(map)@ == spec_carve_horizontal(
            old(map)@,
            x1 as int,
            x2 as int,
            y as int,
            (Glyph::Wall, PURPLE),
        ),
{
    carve_horizontal(x1, x2, y, PURPLE, map);
}

/// Draws a purple corridor along column `x` from row `y1` to row `y2`.
pub fn apply_vertical_tunnel(y1: i32, y2: i32, x: i32, map: &mut Grid)
    requires
        old(map).wf(),
    ensures
        final(map).wf(),
        final(map)@ == spec_carve_vertical(
            old(map)@,
            y1 as int,
            y2 as int,
            x as int,
            (Glyph::Wall, PURPLE),
        ),
{
    carve_vertical(y1, y2, x, PURPLE, map);
}

/// The tiles after each of the first `n` rooms but the first has been joined
/// to the room before it; `flips[k]` says whether the corridor from room `k` to
/// room `k + 1` starts with its horizontal part.
pub open spec fn spec_connect_chain(
    tiles: Seq<Tile>,
    rooms: Seq<Room>,
    flips: Seq<bool>,
    tile: Tile,
    n: int,
) -> Seq<Tile>
    decreases n,
{
    if n <= 1 {
        tiles
    } else {
        spec_connect(
            spec_connect_chain(tiles, rooms, flips, tile, n - 1),
            rooms[n - 2].0.spec_center(),
            rooms[n - 1].0.spec_center(),
            flips[n - 2],
            tile,
        )
    }
}

/// The chain of corridors does not depend on flips that it does not reach.
pub proof fn lemma_connect_chain_prefix(
    tiles: Seq<Tile>,
    rooms: Seq<Room>,
    flips: Seq<bool>,
    more: Seq<bool>,
    tile: Tile,
    n: int,
)
    requires
        n - 1 <= flips.len() <= more.len(),
        forall|k: int| 0 <= k < flips.len() ==> flips[k] == more[k],
    ensures
        spec_connect_chain(tiles, rooms, flips, tile, n) == spec_connect_chain(
            tiles,
            rooms,
            more,
            tile,
            n,
        ),
    decreases n,
{
    if n > 1 {
        lemma_connect_chain_prefix(tiles, rooms, flips, more, tile, n - 1);
    }
}

/// Whether `after` is `before` with every room but the first joined to the
/// room before it, as the flips say.
pub open spec fn joined_by(
    before: Seq<Tile>,
    rooms: Seq<Room>,
    tile: Tile,
    flips: Seq<bool>,
    after: Seq<Tile>,
) -> bool {
    flips.len() + 1 == greater(rooms.len() as int, 1) && after == spec_connect_chain(
        before,
        rooms,
        flips,
        tile,
        rooms.len() as int,
    )
}

/// Whether the frames from `base` on show the corridors one by one: each the
/// grid after one more corridor, under the corridor's number.
pub open spec fn shows_corridors(
    frames: Seq<Frame>,
    base: int,
    before: Seq<Tile>,
    rooms: Seq<Room>,
    tile: Tile,
    flips: Seq<bool>,
) -> bool {
    forall|j: int|
        base <= j < frames.len() ==> (#[trigger] frames[j]).0@ == spec_connect_chain(
            before,
            rooms,
            flips,
            tile,
            j - base + 2,
        ) && frames[j].1@ == numbered_text("Corridor"@, (j - base + 1) as nat)
}

/// Joins each room but the first to the room before it, centre to centre. A
/// coin from the stream decides for each corridor whether its horizontal part
/// comes first. With `record_each`, a frame is recorded after each corridor.
pub fn connect_rooms(
    rooms: &Vec<Room>,
    color: Color,
    rng: &mut RandomNumberGenerator,
    map: &mut Grid,
    frames: &mut Vec<Frame>,
    record_each: bool,
)
    requires
        old(map).wf(),
        frames_wf(old(frames)@),
        rooms_fit(rooms@),
    ensures
        final(map).wf(),
        frames_wf(final(frames)@),
        exists|flips: Seq<bool>| #[trigger]
            joined_by(old(map)@, rooms@, (Glyph::Wall, color), flips, final(map)@) && (record_each
                ==> shows_corridors(
                final(frames)@,
                old(frames)@.len() as int,
                old(map)@,
                rooms@,
                (Glyph::Wall, color),
                flips,
            )),
        keeps_open(old(map)@, final(map)@),
        chain_connected(final(map)@, rooms@, rooms@.len() as int),
        final(frames)@.len() == old(frames)@.len() + (if record_each {
            greater(rooms@.len() as int, 1) - 1
        } else {
            0
        }),
        final(frames)@.subrange(0, old(frames)@.len() as int) == old(frames)@,
        record_each && rooms@.len() > 1 ==> final(frames)@[final(frames)@.len() - 1].0@
            == final(map)@,
{
    let ghost mut flips: Seq<bool> = Seq::empty();
    let ghost tile: Tile = (Glyph::Wall, color);
    let ghost base: int = frames@.len() as int;
    let mut i: usize = 1;
    while i < rooms.len()
        invariant
            1 <= i,
            i <= rooms.len() || (rooms.len() == 0 && i == 1),
            map.wf(),
            old(map).wf(),
            frames_wf(frames@),
            rooms_fit(rooms@),
            tile == (Glyph::Wall, color),
            base == old(frames)@.len(),
            flips.len() == i - 1,
            map@ == spec_connect_chain(old(map)@, rooms@, flips, tile, i as int),
            keeps_open(old(map)@, map@),
            chain_connected(map@, rooms@, i as int),
            frames@.len() == old(frames)@.len() + (if record_each {
                i - 1
            } else {
                0
            }),
            frames@.subrange(0, old(frames)@.len() as int) == old(frames)@,
            record_each && i > 1 ==> frames@[frames@.len() - 1].0@ == map@,
            record_each ==> shows_corridors(frames@, base, old(map)@, rooms@, tile, flips),
        decreases rooms.len() - i,
    {
        let ghost before = map@;
        let ghost frames_before = frames@;
        let ghost old_flips = flips;
        let prev: Point = rooms[i - 1].0.center();
        let next: Point = rooms[i].0.center();
        let horizontal_first: bool = range(rng, 0, 2) == 1;
        connect(prev, next, horizontal_first, color, map);
        proof {
            flips = flips.push(horizontal_first);
            lemma_connect_chain_prefix(old(map)@, rooms@, old_flips, flips, tile, i as int);
            lemma_connect_connects(before, prev, next, horizontal_first, color);
            assert forall|k: int| 1 <= k < i + 1 implies connected(
                spec_passable(map@),
                center_idx(rooms@[k - 1].0),
                #[trigger] center_idx(rooms@[k].0),
            ) by {
                if k < i {
                    lemma_connected_monotone(
                        spec_passable(before),
                        spec_passable(map@),
                        center_idx(rooms@[k - 1].0),
                        center_idx(rooms@[k].0),
                    );
                }
            }
        }
        if record_each {
            record(frames, map, numbered_label("Corridor", i));
            proof {
                assert(frames@.subrange(0, old(frames)@.len() as int) =~= frames_before.subrange(
                    0,
                    old(frames)@.len() as int,
                ));
                assert forall|j: int| base <= j < frames@.len() implies (#[trigger] frames@[j]).0@
                    == spec_connect_chain(old(map)@, rooms@, flips, tile, j - base + 2)
                    && frames@[j].1@ == numbered_text("Corridor"@, (j - base + 1) as nat) by {
                    if j < frames_before.len() {
                        assert(frames@[j] == frames_before.subrange(
                            0,
                            frames_before.len() as int,
                        )[j]);
                        assert(frames@[j] == frames_before[j]);
                        lemma_connect_chain_prefix(
                            old(map)@,
                            rooms@,
                            old_flips,
                            flips,
                            tile,
                            j - base + 2,
                        );
                    }
                }
            }
        }
        i += 1;
    }
    assert(joined_by(old(map)@, rooms@, tile, flips, map@));
}

/// What a row of candidates leaves: the rooms that were accepted, and the
/// grid with those rooms drawn.
pub struct Placed {
    pub rooms: Seq<Room>,
    pub tiles: Seq<Tile>,
}

/// What the first `n` candidates leave of `rooms` and `tiles`: each candidate
/// in its turn joins the rooms and is drawn in the colour of its number,
/// unless it comes near a room that was there before it.
pub open spec fn spec_place(rooms: Seq<Room>, tiles: Seq<Tile>, candidates: Seq<Rect>, n: int) -> Placed
    decreases n,
{
    if n <= 0 {
        Placed { rooms, tiles }
    } else {
        let before = spec_place(rooms, tiles, candidates, n - 1);
        let room = candidates[n - 1];
        if spec_overlaps(before.rooms, room) {
            before
        } else {
            Placed {
                rooms: before.rooms.push((room, before.rooms.len() as usize)),
                tiles: spec_fill_rect(
                    before.tiles,
                    room,
                    (Glyph::Wall, spec_iteration_color(before.rooms.len() as int)),
                ),
            }
        }
    }
}

/// What the frame of the `k`-th candidate shows: the grid with the new room
/// where the candidate was accepted, and else the grid as it was with the
/// candidate marked on it.
pub open spec fn spec_attempt_tiles(
    rooms: Seq<Room>,
    tiles: Seq<Tile>,
    candidates: Seq<Rect>,
    k: int,
) -> Seq<Tile> {
    let before = spec_place(rooms, tiles, candidates, k);
    if spec_overlaps(before.rooms, candidates[k]) {
        spec_fill_rect(before.tiles, candidates[k], (Glyph::Discard, RED))
    } else {
        spec_place(rooms, tiles, candidates, k + 1).tiles
    }
}

/// The title of the frame of the `k`-th candidate: the number of rooms so
/// far where the candidate was accepted.
pub open spec fn spec_attempt_title(
    rooms: Seq<Room>,
    tiles: Seq<Tile>,
    candidates: Seq<Rect>,
    k: int,
) -> Seq<char> {
    let before = spec_place(rooms, tiles, candidates, k);
    if spec_overlaps(before.rooms, candidates[k]) {
        "Discard Frame"@
    } else {
        numbered_text("Add room"@, before.rooms.len() + 1)
    }
}

/// Whether the frames from `base` on show the candidates one by one.
pub open spec fn shows_attempts(
    frames: Seq<Frame>,
    base: int,
    rooms: Seq<Room>,
    tiles: Seq<Tile>,
    candidates: Seq<Rect>,
) -> bool {
    forall|j: int|
        base <= j < frames.len() ==> (#[trigger] frames[j]).0@ == spec_attempt_tiles(
            rooms,
            tiles,
            candidates,
            j - base,
        ) && frames[j].1@ == spec_attempt_title(rooms, tiles, candidates, j - base)
}

/// Whether `candidates` is a row of `attempts` candidate rooms that leaves
/// `after`.
pub open spec fn placed_by(
    rooms: Seq<Room>,
    tiles: Seq<Tile>,
    candidates: Seq<Rect>,
    attempts: int,
    after: Placed,
) -> bool {
    &&& candidates.len() == attempts
    &&& forall|k: int| 0 <= k < attempts ==> is_candidate(#[trigger] candidates[k])
    &&& spec_place(rooms, tiles, candidates, attempts) == after
}

/// The first candidates leave the same whatever candidates follow them.
pub proof fn lemma_place_prefix(
    rooms: Seq<Room>,
    tiles: Seq<Tile>,
    candidates: Seq<Rect>,
    more: Seq<Rect>,
    n: int,
)
    requires
        n <= candidates.len() <= more.len(),
        forall|k: int| 0 <= k < candidates.len() ==> candidates[k] == more[k],
    ensures
        spec_place(rooms, tiles, candidates, n) == spec_place(rooms, tiles, more, n),
    decreases n,
{
    if n > 0 {
        lemma_place_prefix(rooms, tiles, candidates, more, n - 1);
    }
}

/// Draws `attempts` candidate rooms from the stream and accepts each one that
/// comes near no room accepted before. With `record_each`, every attempt
/// records a frame: the grid with the new room, or the grid with the rejected
/// candidate marked on it.
pub fn place_rooms(
    attempts: usize,
    rng: &mut RandomNumberGenerator,
    map: &mut Grid,
    rooms: &mut Vec<Room>,
    frames: &mut Vec<Frame>,
    record_each: bool,
)
    requires
        old(map).wf(),
        frames_wf(old(frames)@),
        rooms_apart(old(rooms)@),
        rooms_fit(old(rooms)@),
    ensures
        final(map).wf(),
        frames_wf(final(frames)@),
        exists|candidates: Seq<Rect>| #[trigger]
            placed_by(
                old(rooms)@,
                old(map)@,
                candidates,
                attempts as int,
                Placed { rooms: final(rooms)@, tiles: final(map)@ },
            ) && (record_each ==> shows_attempts(
                final(frames)@,
                old(frames)@.len() as int,
                old(rooms)@,
                old(map)@,
                candidates,
            )),
        rooms_apart(final(rooms)@),
        rooms_fit(final(rooms)@),
        old(rooms)@.len() <= final(rooms)@.len() <= old(rooms)@.len() + attempts,
        final(rooms)@.subrange(0, old(rooms)@.len() as int) == old(rooms)@,
        final(frames)@.len() == old(frames)@.len() + (if record_each {
            attempts as int
        } else {
            0
        }),
        final(frames)@.subrange(0, old(frames)@.len() as int) == old(frames)@,
{
    let ghost mut candidates: Seq<Rect> = Seq::empty();
    let ghost base: int = frames@.len() as int;
    let mut n: usize = 0;
    while n < attempts
        invariant
            n <= attempts,
            map.wf(),
            frames_wf(frames@),
            rooms_apart(rooms@),
            rooms_fit(rooms@),
            base == old(frames)@.len(),
            candidates.len() == n,
            forall|k: int| 0 <= k < n ==> is_candidate(#[trigger] candidates[k]),
            spec_place(old(rooms)@, old(map)@, candidates, n as int) == (Placed {
                rooms: rooms@,
                tiles: map@,
            }),
            record_each ==> shows_attempts(frames@, base, old(rooms)@, old(map)@, candidates),
            old(rooms)@.len() <= rooms@.len() <= old(rooms)@.len() + n,
            rooms@.subrange(0, old(rooms)@.len() as int) == old(rooms)@,
            frames@.len() == old(frames)@.len() + (if record_each {
                n as int
            } else {
                0
            }),
            frames@.subrange(0, old(frames)@.len() as int) == old(frames)@,
        decreases attempts - n,
    {
        let ghost rooms_before = rooms@;
        let ghost tiles_before = map@;
        let ghost frames_before = frames@;
        let ghost tried = candidates;
        let room: Rect = random_room(rng);
        let accepted: bool = add_room(map, rooms, room);
        proof {
            candidates = candidates.push(room);
            lemma_place_prefix(old(rooms)@, old(map)@, tried, candidates, n as int);
            if accepted {
                lemma_apart_push(rooms_before, (room, rooms_before.len() as usize));
                assert(rooms@.subrange(0, old(rooms)@.len() as int) =~= rooms_before.subrange(
                    0,
                    old(rooms)@.len() as int,
                ));
            }
        }
        if record_each {
            if accepted {
                record(frames, map, numbered_label("Add room", rooms.len()));
            } else {
                let mut discard: Grid = map.snapshot();
                discard.fill_rect(&room, Glyph::Discard, RED);
                record(frames, &discard, "Discard Frame".to_string());
            }
            proof {
                assert(frames@.subrange(0, old(frames)@.len() as int) =~= frames_before.subrange(
                    0,
                    old(frames)@.len() as int,
                ));
                assert forall|j: int| base <= j < frames@.len() implies (#[trigger] frames@[j]).0@
                    == spec_attempt_tiles(old(rooms)@, old(map)@, candidates, j - base)
                    && frames@[j].1@ == spec_attempt_title(
                    old(rooms)@,
                    old(map)@,
                    candidates,
                    j - base,
                ) by {
                    if j < frames_before.len() {
                        assert(frames@[j] == frames_before.subrange(
                            0,
                            frames_before.len() as int,
                        )[j]);
                        assert(frames@[j] == frames_before[j]);
                        lemma_place_prefix(old(rooms)@, old(map)@, tried, candidates, j - base);
                        lemma_place_prefix(old(rooms)@, old(map)@, tried, candidates, j - base + 1);
                    }
                }
            }
        }
        n += 1;
    }
    assert(placed_by(
        old(rooms)@,
        old(map)@,
        candidates,
        attempts as int,
        Placed { rooms: rooms@, tiles: map@ },
    ));
}

/// What is drawn to lay out the rooms: the candidates and the coins.
pub struct Layout {
    pub candidates: Seq<Rect>,
    pub flips: Seq<bool>,
}

/// Whether `rooms` and `tiles` are the rooms and corridors that the
/// candidates `candidates` and the coins `flips` give on a fresh grid; `perm`
/// says where the accepted rooms stand once they are ordered from left to
/// right.
#[verifier::opaque]
pub open spec fn laid_out(
    rooms: Seq<Room>,
    tiles: Seq<Tile>,
    attempts: int,
    candidates: Seq<Rect>,
    perm: Seq<int>,
    flips: Seq<bool>,
) -> bool {
    let none = Seq::<Room>::empty();
    let placed = spec_place(none, blank_tiles(), candidates, attempts);
    &&& placed_by(none, blank_tiles(), candidates, attempts, placed)
    &&& stably_sorted(placed.rooms, rooms, perm)
    &&& joined_by(
        spec_paint_rooms(blank_tiles(), rooms, rooms.len() as int),
        rooms,
        (Glyph::Wall, PURPLE),
        flips,
        tiles,
    )
}

/// Rooms and corridors are determined by what is drawn: the same candidates
/// and the same coins give the same rooms on the same grid.
pub proof fn lemma_layout_is_determined(
    first: (Seq<Room>, Seq<Tile>, Seq<int>),
    second: (Seq<Room>, Seq<Tile>, Seq<int>),
    attempts: int,
    candidates: Seq<Rect>,
    flips: Seq<bool>,
)
    requires
        laid_out(first.0, first.1, attempts, candidates, first.2, flips),
        laid_out(second.0, second.1, attempts, candidates, second.2, flips),
    ensures
        first == second,
{
    reveal(laid_out);
    let placed = spec_place(Seq::<Room>::empty(), blank_tiles(), candidates, attempts);
    lemma_stable_sort_unique(placed.rooms, first.0, first.2, second.0, second.2);
}

/// Builds rooms and corridors on a fresh grid without recording a frame:
/// `attempts` candidates, the accepted rooms ordered from left to right and
/// drawn, each joined to the one before it by a purple corridor.
pub fn rooms_and_corridors(
    attempts: usize,
    rng: &mut RandomNumberGenerator,
    map: &mut Grid,
    rooms: &mut Vec<Room>,
)
    ensures
        final(map).wf(),
        exists|candidates: Seq<Rect>, perm: Seq<int>, flips: Seq<bool>| #[trigger]
            laid_out(final(rooms)@, final(map)@, attempts as int, candidates, perm, flips),
        final(rooms)@.len() <= attempts,
        rooms_apart(final(rooms)@),
        rooms_fit(final(rooms)@),
        sorted_by_x1(final(rooms)@),
        chain_connected(final(map)@, final(rooms)@, final(rooms)@.len() as int),
{
    let mut unused: Vec<Frame> = Vec::new();
    *map = Grid::new();
    *rooms = Vec::new();
    let ghost none = Seq::<Room>::empty();
    assert(rooms@ =~= none);
    place_rooms(attempts, rng, map, rooms, &mut unused, false);
    let ghost candidates = choose|candidates: Seq<Rect>| #[trigger]
        placed_by(
            none,
            blank_tiles(),
            candidates,
            attempts as int,
            Placed { rooms: rooms@, tiles: map@ },
        );
    let ghost unsorted = rooms@;
    sort_rooms(rooms);
    let ghost perm = choose|perm: Seq<int>| stably_sorted(unsorted, rooms@, perm);
    proof {
        lemma_apart_sorted(unsorted, rooms@, perm);
        lemma_fit_sorted(unsorted, rooms@, perm);
    }
    map.clear_default();
    paint_rooms(map, rooms);
    let ghost painted = map@;
    connect_rooms(rooms, PURPLE, rng, map, &mut unused, false);
    proof {
        let flips = choose|flips: Seq<bool>| #[trigger]
            joined_by(painted, rooms@, (Glyph::Wall, PURPLE), flips, map@);
        reveal(laid_out);
        assert(laid_out(rooms@, map@, attempts as int, candidates, perm, flips));
    }
}

/// The generator of rooms and corridors.
///
/// After [`MapGen::build`], `rooms` holds the accepted rooms from left to
/// right and `map` the grid of the last frame.
pub struct RoomBuilder {
    /// The seed of the stream that a run draws from; with `None`, every run
    /// draws from a stream seeded by the system.
    pub seed: Option<u64>,
    pub rooms: Vec<Room>,
    pub map: Grid,
}

/// How many candidate rooms the generator draws.
pub const ATTEMPTS: usize = 20;

impl RoomBuilder {
    /// A generator whose every run draws from a stream seeded by the system.
    pub fn new() -> (builder: Box<Self>)
        ensures
            builder.seed is None,
            builder.rooms@.len() == 0,
            builder.map.wf(),
    {
        Box::new(RoomBuilder { seed: None, rooms: Vec::new(), map: Grid::new() })
    }

    /// A generator whose every run draws from the stream of `seed`.
    pub fn seeded(seed: u64) -> (builder: Box<Self>)
        ensures
            builder.seed == Some(seed),
            builder.rooms@.len() == 0,
            builder.map.wf(),
    {
        Box::new(RoomBuilder { seed: Some(seed), rooms: Vec::new(), map: Grid::new() })
    }
}

/// Whether `frames`, `rooms` and `tiles` are what a run leaves that draws the
/// candidates `candidates` and flips the coins `flips`; `perm` says where
/// the accepted rooms stand once they are ordered from left to right.
///
/// The run shows every candidate, then the ordered rooms on a grid of their
/// own, and then the corridors one by one.
#[verifier::opaque]
pub open spec fn is_run(
    frames: Seq<Frame>,
    rooms: Seq<Room>,
    tiles: Seq<Tile>,
    candidates: Seq<Rect>,
    perm: Seq<int>,
    flips: Seq<bool>,
) -> bool {
    let none = Seq::<Room>::empty();
    let placed = spec_place(none, blank_tiles(), candidates, ATTEMPTS as int);
    let painted = spec_paint_rooms(blank_tiles(), rooms, rooms.len() as int);
    let tile = (Glyph::Wall, PURPLE);
    &&& placed_by(none, blank_tiles(), candidates, ATTEMPTS as int, placed)
    &&& stably_sorted(placed.rooms, rooms, perm)
    &&& joined_by(painted, rooms, tile, flips, tiles)
    &&& frames.len() == ATTEMPTS + greater(rooms.len() as int, 1)
    &&& shows_attempts(frames.subrange(0, ATTEMPTS as int), 0, none, blank_tiles(), candidates)
    &&& frames[ATTEMPTS as int].0@ == painted
    &&& frames[ATTEMPTS as int].1@ == "Sort Rooms"@
    &&& shows_corridors(frames, ATTEMPTS + 1, painted, rooms, tile, flips)
}

/// A run is determined by what it draws: two runs that draw the same
/// candidates and flip the same coins leave the same rooms and the same grid,
/// and record the same frames.
pub proof fn lemma_run_is_determined(
    first: (Seq<Frame>, Seq<Room>, Seq<Tile>, Seq<int>),
    second: (Seq<Frame>, Seq<Room>, Seq<Tile>, Seq<int>),
    candidates: Seq<Rect>,
    flips: Seq<bool>,
)
    requires
        is_run(first.0, first.1, first.2, candidates, first.3, flips),
        is_run(second.0, second.1, second.2, candidates, second.3, flips),
    ensures
        first.1 == second.1,
        first.2 == second.2,
        first.3 == second.3,
        first.0.len() == second.0.len(),
        forall|j: int|
            0 <= j < first.0.len() ==> (#[trigger] first.0[j]).0@ == second.0[j].0@ && first.0[j].1@
                == second.0[j].1@,
{
    reveal(is_run);
    let none = Seq::<Room>::empty();
    let placed = spec_place(none, blank_tiles(), candidates, ATTEMPTS as int);
    lemma_stable_sort_unique(placed.rooms, first.1, first.3, second.1, second.3);
    assert forall|j: int| 0 <= j < first.0.len() implies (#[trigger] first.0[j]).0@
        == second.0[j].0@ && first.0[j].1@ == second.0[j].1@ by {
        if j < ATTEMPTS {
            assert(first.0.subrange(0, ATTEMPTS as int)[j] == first.0[j]);
            assert(second.0.subrange(0, ATTEMPTS as int)[j] == second.0[j]);
        } else if j > ATTEMPTS {
            let _ = second.0[j];
        }
    }
}

/// The frames of a run, taken together: the frames of the candidates, then
/// that of the ordered rooms, then those of the corridors.
pub proof fn lemma_run_assembles(
    attempts: Seq<Frame>,
    sorted: Seq<Frame>,
    frames: Seq<Frame>,
    placed: Placed,
    rooms: Seq<Room>,
    tiles: Seq<Tile>,
    candidates: Seq<Rect>,
    perm: Seq<int>,
    flips: Seq<bool>,
)
    requires
        attempts.len() == ATTEMPTS,
        placed_by(Seq::<Room>::empty(), blank_tiles(), candidates, ATTEMPTS as int, placed),
        shows_attempts(attempts, 0, Seq::<Room>::empty(), blank_tiles(), candidates),
        stably_sorted(placed.rooms, rooms, perm),
        sorted.len() == ATTEMPTS + 1,
        sorted.subrange(0, ATTEMPTS as int) == attempts,
        sorted[ATTEMPTS as int].0@ == spec_paint_rooms(blank_tiles(), rooms, rooms.len() as int),
        sorted[ATTEMPTS as int].1@ == "Sort Rooms"@,
        frames.len() == sorted.len() + greater(rooms.len() as int, 1) - 1,
        frames.subrange(0, sorted.len() as int) == sorted,
        joined_by(
            spec_paint_rooms(blank_tiles(), rooms, rooms.len() as int),
            rooms,
            (Glyph::Wall, PURPLE),
            flips,
            tiles,
        ),
        shows_corridors(
            frames,
            sorted.len() as int,
            spec_paint_rooms(blank_tiles(), rooms, rooms.len() as int),
            rooms,
            (Glyph::Wall, PURPLE),
            flips,
        ),
    ensures
        is_run(frames, rooms, tiles, candidates, perm, flips),
{
    assert(frames.subrange(0, ATTEMPTS as int) =~= attempts) by {
        assert forall|j: int| 0 <= j < ATTEMPTS implies frames[j] == attempts[j] by {
            assert(frames.subrange(0, sorted.len() as int)[j] == sorted[j]);
            assert(sorted.subrange(0, attempts.len() as int)[j] == attempts[j]);
        }
    }
    assert(frames[ATTEMPTS as int] == sorted[ATTEMPTS as int]) by {
        assert(frames.subrange(0, sorted.len() as int)[ATTEMPTS as int]
            == sorted[ATTEMPTS as int]);
    }
    reveal(is_run);
}

impl MapGen for RoomBuilder {
    /// Nothing is prepared ahead of a run.
    fn setup(&mut self)
        ensures
            *final(self) == *old(self),
    {
    }

    /// Places the rooms, orders them from left to right, and joins each to
    /// the one before it. One frame per candidate, one for the ordered rooms,
    /// one per corridor.
    fn build(&mut self) -> (frames: Vec<Frame>)
        ensures
            final(self).seed == old(self).seed,
            final(self).map.wf(),
            exists|candidates: Seq<Rect>, perm: Seq<int>, flips: Seq<bool>| #[trigger]
                is_run(
                    frames@,
                    final(self).rooms@,
                    final(self).map@,
                    candidates,
                    perm,
                    flips,
                ),
            final(self).rooms@.len() <= ATTEMPTS,
            rooms_apart(final(self).rooms@),
            rooms_fit(final(self).rooms@),
            sorted_by_x1(final(self).rooms@),
            chain_connected(final(self).map@, final(self).rooms@, final(self).rooms@.len() as int),
            frames@.len() == ATTEMPTS + 1 + greater(final(self).rooms@.len() as int, 1) - 1,
            frames@[frames@.len() - 1].0@ == final(self).map@,
    {
        let mut rng: RandomNumberGenerator = stream(self.seed);
        let mut frames: Vec<Frame> = Vec::with_capacity(2 * ATTEMPTS);
        self.rooms = Vec::new();
        self.map = Grid::new();
        let ghost none = Seq::<Room>::empty();
        assert(self.rooms@ =~= none);
        place_rooms(ATTEMPTS, &mut rng, &mut self.map, &mut self.rooms, &mut frames, true);
        let ghost attempts = frames@;
        let ghost placed_tiles = self.map@;
        let ghost candidates = choose|candidates: Seq<Rect>| #[trigger]
            placed_by(
                none,
                blank_tiles(),
                candidates,
                ATTEMPTS as int,
                Placed { rooms: self.rooms@, tiles: self.map@ },
            ) && shows_attempts(attempts, 0, none, blank_tiles(), candidates);

        let ghost unsorted = self.rooms@;
        sort_rooms(&mut self.rooms);
        let ghost perm = choose|perm: Seq<int>| stably_sorted(unsorted, self.rooms@, perm);
        proof {
            lemma_apart_sorted(unsorted, self.rooms@, perm);
            lemma_fit_sorted(unsorted, self.rooms@, perm);
        }
        self.map.clear_default();
        paint_rooms(&mut self.map, &self.rooms);
        let ghost painted = self.map@;
        record(&mut frames, &self.map, "Sort Rooms".to_string());
        let ghost sorted = frames@;

        connect_rooms(&self.rooms, PURPLE, &mut rng, &mut self.map, &mut frames, true);
        proof {
            let tile = (Glyph::Wall, PURPLE);
            let flips = choose|flips: Seq<bool>| #[trigger]
                joined_by(painted, self.rooms@, tile, flips, self.map@) && shows_corridors(
                    frames@,
                    sorted.len() as int,
                    painted,
                    self.rooms@,
                    tile,
                    flips,
                );
            lemma_run_assembles(
                attempts,
                sorted,
                frames@,
                Placed { rooms: unsorted, tiles: placed_tiles },
                self.rooms@,
                self.map@,
                candidates,
                perm,
                flips,
            );
        }
        frames
    }
}

} // verus!
