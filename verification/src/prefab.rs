//! Prefabs: small patterns of characters that are stamped onto the grid.

use vstd::prelude::*;
use vstd::string::StrSliceExecFns;
use bracket_lib::prelude::RandomNumberGenerator;
use crate::grid::{mapidx, spec_in_bounds, spec_mapidx, Glyph, Grid, HEIGHT, Point, Tile, WIDTH};
use crate::rect::Rect;
use crate::rng::{random_index, range};
use crate::rooms::{fits_grid, rooms_fit};
use crate::sorting::Room;

verus! {

/// Whether a character of a pattern's text counts as a cell: every character
/// does but the two that end a line.
pub open spec fn is_cell_char(c: char) -> bool {
    c != '\r' && c != '\n'
}

/// The cells of a pattern's text: its characters without the line ends.
pub open spec fn spec_cells(text: Seq<char>) -> Seq<char> {
    text.filter(|c: char| is_cell_char(c))
}

/// The cells of a pattern's text: its characters without the line ends.
pub fn pattern_cells(text: &str) -> (cells: Vec<char>)
    ensures
        cells@ == spec_cells(text@),
{
    let n: usize = text.unicode_len();
    let mut cells: Vec<char> = Vec::new();
    let mut i: usize = 0;
    assert(text@.subrange(0, 0) =~= Seq::<char>::empty());
    while i < n
        invariant
            i <= n,
            n == text@.len(),
            cells@ == spec_cells(text@.subrange(0, i as int)),
        decreases n - i,
    {
        let c: char = text.get_char(i);
        proof {
            let before = text@.subrange(0, i as int);
            let after = text@.subrange(0, i + 1);
            assert(after.drop_last() =~= before);
            assert(after.last() == c);
            reveal_with_fuel(Seq::filter, 2);
        }
        if c != '\r' && c != '\n' {
            cells.push(c);
        }
        i += 1;
    }
    assert(text@.subrange(0, n as int) =~= text@);
    cells
}

/// What the characters of a pattern stand for: pairs of a character and the
/// tile that it is stamped as. A character that the legend does not list
/// leaves the grid as it is.
pub type Legend = Vec<(char, Tile)>;

/// The tile that `c` stands for: that of the first entry that lists `c`
/// among the first `n`.
pub open spec fn spec_lookup(legend: Seq<(char, Tile)>, c: char, n: int) -> Option<Tile>
    decreases n,
{
    if n <= 0 {
        None
    } else {
        match spec_lookup(legend, c, n - 1) {
            Some(tile) => Some(tile),
            None => if legend[n - 1].0 == c {
                Some(legend[n - 1].1)
            } else {
                None
            },
        }
    }
}

/// The tile that `c` stands for, if the legend lists `c`.
pub fn lookup(legend: &Legend, c: char) -> (r: Option<Tile>)
    ensures
        r == spec_lookup(legend@, c, legend@.len() as int),
{
    let mut i: usize = 0;
    while i < legend.len()
        invariant
            i <= legend.len(),
            spec_lookup(legend@, c, i as int) is None,
        decreases legend.len() - i,
    {
        if legend[i].0 == c {
            let found: Option<Tile> = Some(legend[i].1);
            proof {
                lemma_lookup_stays(legend@, c, i + 1, legend@.len() as int);
            }
            return found;
        }
        i += 1;
    }
    None
}

/// Once an entry lists a character, later entries do not matter.
pub proof fn lemma_lookup_stays(legend: Seq<(char, Tile)>, c: char, n: int, m: int)
    requires
        0 <= n <= m,
        spec_lookup(legend, c, n) is Some,
    ensures
        spec_lookup(legend, c, m) == spec_lookup(legend, c, n),
    decreases m - n,
{
    if n < m {
        lemma_lookup_stays(legend, c, n, m - 1);
    }
}

/// How many rows of `width` cells a pattern's text holds.
pub open spec fn spec_height(text: Seq<char>, width: int) -> int {
    spec_cells(text).len() as int / width
}

/// Whether `text` holds a pattern of `width` columns: `width` is at least one
/// and at most the width of the grid, and the cells of `text` fill at least
/// one row, at most as many rows as the grid has, and no row in part.
pub open spec fn is_pattern(text: Seq<char>, width: int) -> bool {
    &&& 0 < width <= WIDTH
    &&& 0 < spec_cells(text).len() <= width * HEIGHT
    &&& spec_cells(text).len() as int % width == 0
}

/// A pattern: `width` columns by `height` rows of characters, row by row.
pub struct Prefab {
    pub width: usize,
    pub height: usize,
    pub cells: Vec<char>,
}

impl Prefab {
    /// A pattern is at least one cell and at most the grid each way, and holds
    /// a character for each of its cells.
    pub open spec fn wf(&self) -> bool {
        &&& 0 < self.width <= WIDTH
        &&& 0 < self.height <= HEIGHT
        &&& self.cells@.len() == self.width * self.height
    }

    /// The pattern of `width` columns that `text` holds, its lines from top to
    /// bottom; `None` where `width` is zero or more than the grid is wide,
    /// where the cells of `text` do not fill whole rows, and where there is no
    /// row or there are more rows than the grid has.
    pub fn parse(text: &str, width: usize) -> (r: Option<Prefab>)
        ensures
            r is Some <==> is_pattern(text@, width as int),
            r matches Some(p) ==> p.wf() && p.width == width && p.height == spec_height(
                text@,
                width as int,
            ) && p.cells@ == spec_cells(text@),
    {
        if width == 0 || width > WIDTH {
            return None;
        }
        let cells: Vec<char> = pattern_cells(text);
        let n: usize = cells.len();
        if n == 0 || n > width * HEIGHT || n % width != 0 {
            return None;
        }
        let height: usize = n / width;
        assert(width * height == n) by (nonlinear_arith)
            requires
                n % width == 0,
                height == n / width,
                width > 0,
        ;
        assert(0 < height <= HEIGHT) by (nonlinear_arith)
            requires
                width * height == n,
                0 < n <= width * HEIGHT,
                width > 0,
        ;
        Some(Prefab { width, height, cells })
    }
}

/// The tiles after a write of `tile` at `(x, y)` that is skipped outside the
/// grid.
pub open spec fn spec_put(tiles: Seq<Tile>, x: int, y: int, tile: Tile) -> Seq<Tile> {
    if spec_in_bounds(x, y) {
        tiles.update(spec_mapidx(x, y), tile)
    } else {
        tiles
    }
}

/// The tiles after the first `n` cells of the pattern, row by row, have been
/// stamped with the pattern's first cell at `(bx, by)`: a cell whose character
/// the legend lists is written as the tile that it stands for, any other cell
/// leaves the grid as it is, and so does a cell that falls outside the grid.
pub open spec fn spec_stamp(
    tiles: Seq<Tile>,
    cells: Seq<char>,
    width: int,
    legend: Seq<(char, Tile)>,
    bx: int,
    by: int,
    n: int,
) -> Seq<Tile>
    decreases n,
{
    if n <= 0 {
        tiles
    } else {
        let before = spec_stamp(tiles, cells, width, legend, bx, by, n - 1);
        match spec_lookup(legend, cells[n - 1], legend.len() as int) {
            Some(tile) => spec_put(before, bx + (n - 1) % width, by + (n - 1) / width, tile),
            None => before,
        }
    }
}

/// The tiles after the pattern that `text` holds has been stamped with its
/// first cell at `base`; where `text` holds no pattern, the tiles as they
/// are.
pub open spec fn spec_stamp_text(
    tiles: Seq<Tile>,
    text: Seq<char>,
    width: int,
    legend: Seq<(char, Tile)>,
    base: Point,
) -> Seq<Tile> {
    if is_pattern(text, width) {
        spec_stamp(
            tiles,
            spec_cells(text),
            width,
            legend,
            base.x as int,
            base.y as int,
            spec_cells(text).len() as int,
        )
    } else {
        tiles
    }
}

/// Stamps the pattern onto the grid, its first cell at `base`.
pub fn stamp(map: &mut Grid, prefab: &Prefab, legend: &Legend, base: Point)
    requires
        old(map).wf(),
        prefab.wf(),
    ensures
        final(map).wf(),
        final(map)@ == spec_stamp(
            old(map)@,
            prefab.cells@,
            prefab.width as int,
            legend@,
            base.x as int,
            base.y as int,
            prefab.cells@.len() as int,
        ),
{
    let mut y: usize = 0;
    assert(prefab.width * 0 == 0) by (nonlinear_arith);
    while y < prefab.height
        invariant
            y <= prefab.height,
            map.wf(),
            prefab.wf(),
            map@ == spec_stamp(
                old(map)@,
                prefab.cells@,
                prefab.width as int,
                legend@,
                base.x as int,
                base.y as int,
                (y * prefab.width) as int,
            ),
        decreases prefab.height - y,
    {
        let mut x: usize = 0;
        while x < prefab.width
            invariant
                x <= prefab.width,
                y < prefab.height,
                map.wf(),
                prefab.wf(),
                map@ == spec_stamp(
                    old(map)@,
                    prefab.cells@,
                    prefab.width as int,
                    legend@,
                    base.x as int,
                    base.y as int,
                    (y * prefab.width + x) as int,
                ),
            decreases prefab.width - x,
        {
            let w: usize = prefab.width;
            assert(y * w + x < w * prefab.height && (y * w + x) % (w as int) == x && (y * w + x) / (
            w as int) == y && y * w <= WIDTH * HEIGHT) by (nonlinear_arith)
                requires
                    x < w,
                    y < prefab.height,
                    0 < w <= WIDTH,
                    prefab.height <= HEIGHT,
            ;
            let k: usize = y * w + x;
            match lookup(legend, prefab.cells[k]) {
                Some(tile) => {
                    let px: i64 = base.x as i64 + x as i64;
                    let py: i64 = base.y as i64 + y as i64;
                    if 0 <= px && px < WIDTH as i64 && 0 <= py && py < HEIGHT as i64 {
                        let idx: usize = mapidx(px as i32, py as i32);
                        map.tiles.set(idx, tile);
                    }
                },
                None => {},
            }
            x += 1;
        }
        assert((y + 1) * prefab.width == y * prefab.width + prefab.width) by (nonlinear_arith);
        y += 1;
    }
    assert(prefab.height * prefab.width == prefab.width * prefab.height) by (nonlinear_arith);
}

/// Why a prefab was not placed.
#[derive(Clone, Copy, Debug, PartialEq, Eq, Structural)]
pub enum PlacementError {
    /// No attempt found a place for it.
    NotFound,
}

impl PlacementError {
    /// What went wrong, in words.
    pub fn message(&self) -> (s: String)
        ensures
            s@ == "placement not found"@,
    {
        "placement not found".to_string()
    }
}

/// Whether a prefab fits a room: the room is at least as wide as the prefab,
/// and higher.
pub open spec fn roomy(room: Rect, width: int, height: int) -> bool {
    room.x2 - room.x1 >= width && room.y2 - room.y1 > height
}

/// Where a prefab is stamped in a room: half its width to the left of the
/// room's middle and half its height above it.
pub open spec fn spec_anchor(room: Rect, width: int, height: int) -> Point {
    Point {
        x: (room.spec_center().x - width / 2) as i32,
        y: (room.spec_center().y - height / 2) as i32,
    }
}

/// A prefab that is stamped into a room that it fits falls on cells that the
/// room covers.
pub proof fn lemma_anchor_inside(room: Rect, width: int, height: int, x: int, y: int)
    requires
        0 < width <= WIDTH,
        0 < height <= HEIGHT,
        fits_grid(room),
        roomy(room, width, height),
        0 <= x < width,
        0 <= y < height,
    ensures
        room.covers(spec_anchor(room, width, height).x + x, spec_anchor(room, width, height).y + y),
{
}

/// Whether every cell under a pattern of `width` by `height` cells with its
/// first cell at `(bx, by)` lies on the grid and holds `glyph`.
pub open spec fn footprint_holds(tiles: Seq<Tile>, bx: int, by: int, width: int, height: int, glyph: Glyph) -> bool {
    forall|x: int, y: int|
        bx <= x < bx + width && by <= y < by + height ==> spec_in_bounds(x, y) && tiles[#[trigger] spec_mapidx(
            x,
            y,
        )].0 == glyph
}

/// Whether every cell under a pattern of `width` by `height` cells with its
/// first cell at `base` lies on the grid and holds `glyph`.
pub fn footprint_is(map: &Grid, base: Point, width: usize, height: usize, glyph: Glyph) -> (b: bool)
    requires
        map.wf(),
        0 < width <= WIDTH,
        0 < height <= HEIGHT,
    ensures
        b == footprint_holds(map@, base.x as int, base.y as int, width as int, height as int, glyph),
{
    if base.x < 0 || base.y < 0 || base.x as i64 + width as i64 > WIDTH as i64 || base.y as i64
        + height as i64 > HEIGHT as i64 {
        proof {
            let x = if base.x < 0 { base.x as int } else { base.x + width - 1 };
            let y = if base.y < 0 { base.y as int } else { base.y + height - 1 };
            let _ = spec_mapidx(x, y);
            let _ = spec_mapidx(base.x as int, y);
            let _ = spec_mapidx(x, base.y as int);
        }
        return false;
    }
    let mut all: bool = true;
    let mut y: usize = 0;
    while y < height
        invariant
            y <= height,
            map.wf(),
            0 <= base.x,
            0 <= base.y,
            base.x + width <= WIDTH,
            base.y + height <= HEIGHT,
            all == forall|cx: int, cy: int|
                base.x <= cx < base.x + width && base.y <= cy < base.y + y ==> map@[#[trigger] spec_mapidx(
                    cx,
                    cy,
                )].0 == glyph,
        decreases height - y,
    {
        let mut x: usize = 0;
        while x < width
            invariant
                x <= width,
                y < height,
                map.wf(),
                0 <= base.x,
                0 <= base.y,
                base.x + width <= WIDTH,
                base.y + height <= HEIGHT,
                all == forall|cx: int, cy: int|
                    base.x <= cx < base.x + width && base.y <= cy <= base.y + y && (cy < base.y + y
                        || cx < base.x + x) ==> map@[#[trigger] spec_mapidx(cx, cy)].0 == glyph,
            decreases width - x,
        {
            let idx: usize = mapidx(base.x + x as i32, base.y + y as i32);
            if map.tiles[idx].0 != glyph {
                all = false;
                assert(map@[spec_mapidx(base.x + x, base.y + y)].0 != glyph);
            }
            x += 1;
        }
        y += 1;
    }
    all
}

/// Whether `after` is `before` with the prefab stamped at `base`.
pub open spec fn stamped_at(
    before: Seq<Tile>,
    after: Seq<Tile>,
    cells: Seq<char>,
    width: int,
    legend: Seq<(char, Tile)>,
    base: Point,
) -> bool {
    after == spec_stamp(before, cells, width, legend, base.x as int, base.y as int, cells.len() as int)
}

/// Whether `picks` is a row of `attempts` rooms none of which the prefab
/// fits.
pub open spec fn picked_in_vain(rooms: Seq<Room>, width: int, height: int, picks: Seq<int>, attempts: int) -> bool {
    &&& picks.len() == attempts
    &&& forall|k: int|
        0 <= k < picks.len() ==> 0 <= #[trigger] picks[k] < rooms.len() && !roomy(
            rooms[picks[k]].0,
            width,
            height,
        )
}

/// Stamps the prefab into a room that it fits. Up to `max_attempts` times a
/// room is picked from the stream, each equally likely; the first that the
/// prefab fits takes it.
///
/// The result is the cell on which the prefab's first cell fell. Where no
/// attempt picks a room that the prefab fits, and so where there is no such
/// room, the grid stays as it is and the result is
/// [`PlacementError::NotFound`].
pub fn place_in_room(
    map: &mut Grid,
    rooms: &Vec<Room>,
    prefab: &Prefab,
    legend: &Legend,
    rng: &mut RandomNumberGenerator,
    max_attempts: usize,
) -> (r: Result<Point, PlacementError>)
    requires
        old(map).wf(),
        prefab.wf(),
        rooms_fit(rooms@),
        rooms@.len() < i32::MAX,
    ensures
        final(map).wf(),
        r matches Ok(base) ==> exists|k: int|
            0 <= k < rooms@.len() && roomy(
                (#[trigger] rooms@[k]).0,
                prefab.width as int,
                prefab.height as int,
            ) && base == spec_anchor(rooms@[k].0, prefab.width as int, prefab.height as int),
        r is Ok ==> stamped_at(
            old(map)@,
            final(map)@,
            prefab.cells@,
            prefab.width as int,
            legend@,
            r->Ok_0,
        ),
        r is Err ==> final(map)@ == old(map)@,
        r is Err ==> rooms@.len() == 0 || exists|picks: Seq<int>| #[trigger]
            picked_in_vain(rooms@, prefab.width as int, prefab.height as int, picks, max_attempts as int),
        (forall|k: int|
            0 <= k < rooms@.len() ==> !roomy(
                (#[trigger] rooms@[k]).0,
                prefab.width as int,
                prefab.height as int,
            )) ==> r is Err,
        max_attempts == 0 ==> r is Err,
{
    let ghost mut picks: Seq<int> = Seq::empty();
    let mut attempt: usize = 0;
    while attempt < max_attempts
        invariant
            attempt <= max_attempts,
            map.wf(),
            map@ == old(map)@,
            prefab.wf(),
            rooms_fit(rooms@),
            rooms@.len() < i32::MAX,
            picked_in_vain(rooms@, prefab.width as int, prefab.height as int, picks, attempt as int),
        decreases max_attempts - attempt,
    {
        match random_index(rng, rooms) {
            Some(k) => {
                let room: Rect = rooms[k].0;
                assert(fits_grid(room));
                proof {
                    picks = picks.push(k as int);
                }
                if room.width() >= prefab.width as i32 && room.height() > prefab.height as i32 {
                    let center: Point = room.center();
                    let base: Point = Point::new(
                        center.x - (prefab.width / 2) as i32,
                        center.y - (prefab.height / 2) as i32,
                    );
                    stamp(map, prefab, legend, base);
                    assert(roomy(rooms@[k as int].0, prefab.width as int, prefab.height as int));
                    return Ok(base);
                }
            },
            None => {
                return Err(PlacementError::NotFound);
            },
        }
        attempt += 1;
    }
    Err(PlacementError::NotFound)
}

/// Whether `base` is a cell on which [`place_on_walls`] tries a prefab.
pub open spec fn is_trial_base(base: Point) -> bool {
    1 <= base.x < WIDTH - 10 && 1 <= base.y < HEIGHT - 10
}

/// Whether `bases` is a row of `attempts` trial cells under none of which a
/// pattern of `width` by `height` cells falls on walls only.
pub open spec fn tried_in_vain(tiles: Seq<Tile>, width: int, height: int, bases: Seq<Point>, attempts: int) -> bool {
    &&& bases.len() == attempts
    &&& forall|k: int|
        0 <= k < bases.len() ==> is_trial_base(#[trigger] bases[k]) && !footprint_holds(
            tiles,
            bases[k].x as int,
            bases[k].y as int,
            width,
            height,
            Glyph::Wall,
        )
}

/// Stamps the prefab onto a block of walls of its own size. Up to
/// `max_attempts` times a cell is drawn from the stream, a column and then a
/// row; the first under which every cell of the pattern falls on a wall
/// takes the prefab.
///
/// The result is the cell on which the prefab's first cell fell. Where no
/// attempt finds such a block, and so where there is none, the grid stays as
/// it is and the result is [`PlacementError::NotFound`].
pub fn place_on_walls(
    map: &mut Grid,
    prefab: &Prefab,
    legend: &Legend,
    rng: &mut RandomNumberGenerator,
    max_attempts: usize,
) -> (r: Result<Point, PlacementError>)
    requires
        old(map).wf(),
        prefab.wf(),
    ensures
        final(map).wf(),
        r matches Ok(base) ==> is_trial_base(base) && footprint_holds(
            old(map)@,
            base.x as int,
            base.y as int,
            prefab.width as int,
            prefab.height as int,
            Glyph::Wall,
        ) && stamped_at(old(map)@, final(map)@, prefab.cells@, prefab.width as int, legend@, base),
        r is Err ==> final(map)@ == old(map)@,
        r is Err ==> exists|bases: Seq<Point>| #[trigger]
            tried_in_vain(
                old(map)@,
                prefab.width as int,
                prefab.height as int,
                bases,
                max_attempts as int,
            ),
        (forall|base: Point| #[trigger]
            is_trial_base(base) ==> !footprint_holds(
                old(map)@,
                base.x as int,
                base.y as int,
                prefab.width as int,
                prefab.height as int,
                Glyph::Wall,
            )) ==> r is Err,
        max_attempts == 0 ==> r is Err,
{
    let ghost mut bases: Seq<Point> = Seq::empty();
    let mut attempt: usize = 0;
    while attempt < max_attempts
        invariant
            attempt <= max_attempts,
            map.wf(),
            map@ == old(map)@,
            prefab.wf(),
            tried_in_vain(
                old(map)@,
                prefab.width as int,
                prefab.height as int,
                bases,
                attempt as int,
            ),
        decreases max_attempts - attempt,
    {
        let x: i32 = range(rng, 1, WIDTH as i32 - 10);
        let y: i32 = range(rng, 1, HEIGHT as i32 - 10);
        let base: Point = Point::new(x, y);
        if footprint_is(map, base, prefab.width, prefab.height, Glyph::Wall) {
            assert(is_trial_base(base));
            stamp(map, prefab, legend, base);
            return Ok(base);
        }
        proof {
            bases = bases.push(base);
        }
        attempt += 1;
    }
    Err(PlacementError::NotFound)
}

} // verus!
