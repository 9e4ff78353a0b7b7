//! The tile grid shared by every generator: tiles, points, addressing and
//! bounds-checked writes.

use vstd::prelude::*;
use crate::rect::Rect;

verus! {

/// Number of columns of every grid.
pub const WIDTH: usize = 80;

/// Number of rows of every grid.
pub const HEIGHT: usize = 50;

/// Number of cells of every grid.
pub const CELLS: usize = 4000;

/// The symbolic category of a tile.
#[derive(Clone, Copy, Debug, PartialEq, Eq, Structural)]
pub enum Glyph {
    /// `.`: what a fresh grid is filled with.
    Floor,
    /// `#`: what rooms, corridors and dug cells are drawn with.
    Wall,
    /// `~`
    Water,
    /// `;`
    Grass,
    /// `^` as terrain.
    Mountain,
    /// `*`
    Seed,
    /// `!`
    Discard,
    /// `@`
    Actor,
    /// `>`
    Exit,
    /// `^` as a marker.
    Danger,
    /// `$`
    Treasure,
}

impl Glyph {
    /// The character that stands for the glyph.
    pub open spec fn spec_to_char(self) -> char {
        match self {
            Glyph::Floor => '.',
            Glyph::Wall => '#',
            Glyph::Water => '~',
            Glyph::Grass => ';',
            Glyph::Mountain => '^',
            Glyph::Seed => '*',
            Glyph::Discard => '!',
            Glyph::Actor => '@',
            Glyph::Exit => '>',
            Glyph::Danger => '^',
            Glyph::Treasure => '$',
        }
    }

    /// The character that stands for the glyph.
    pub fn to_char(self) -> (c: char)
        ensures
            c == self.spec_to_char(),
    {
        match self {
            Glyph::Floor => '.',
            Glyph::Wall => '#',
            Glyph::Water => '~',
            Glyph::Grass => ';',
            Glyph::Mountain => '^',
            Glyph::Seed => '*',
            Glyph::Discard => '!',
            Glyph::Actor => '@',
            Glyph::Exit => '>',
            Glyph::Danger => '^',
            Glyph::Treasure => '$',
        }
    }
}

/// A display colour: red, green and blue, one byte each.
pub type Color = (u8, u8, u8);

pub const WHITE: Color = (255, 255, 255);
pub const BLACK: Color = (0, 0, 0);
pub const GRAY: Color = (190, 190, 190);
pub const BLUE: Color = (0, 0, 255);
pub const CYAN: Color = (0, 255, 255);
pub const DARK_GREEN: Color = (0, 100, 0);
pub const GREEN: Color = (0, 255, 0);
pub const YELLOW: Color = (255, 255, 0);
pub const GOLD: Color = (255, 215, 0);
pub const RED: Color = (255, 0, 0);
pub const MAGENTA: Color = (255, 0, 255);
pub const PURPLE: Color = (160, 32, 240);
pub const BROWN1: Color = (255, 64, 64);
pub const DARK_GRAY: Color = (169, 169, 169);
pub const DARK_BLUE: Color = (0, 0, 139);
pub const DARK_CYAN: Color = (0, 139, 139);
pub const DARK_MAGENTA: Color = (139, 0, 139);
pub const DARK_RED: Color = (139, 0, 0);

/// A cell position; `x` counts columns from the left, `y` rows from the top.
#[derive(Clone, Copy, Debug, PartialEq, Eq, Structural)]
pub struct Point {
    pub x: i32,
    pub y: i32,
}

impl Point {
    /// The point `(x, y)`.
    pub fn new(x: i32, y: i32) -> (p: Point)
        ensures
            p == (Point { x, y }),
    {
        Point { x, y }
    }
}

/// Whether `(x, y)` names a cell of the grid.
pub open spec fn spec_in_bounds(x: int, y: int) -> bool {
    0 <= x < WIDTH && 0 <= y < HEIGHT
}

/// The row-major index of the cell `(x, y)`.
pub open spec fn spec_mapidx(x: int, y: int) -> int {
    y * WIDTH + x
}

/// The row-major index of the cell `(x, y)`.
pub fn mapidx(x: i32, y: i32) -> (idx: usize)
    requires
        spec_in_bounds(x as int, y as int),
    ensures
        idx == spec_mapidx(x as int, y as int),
        idx < CELLS,
{
    (y as usize) * WIDTH + (x as usize)
}

/// The point of the cell with row-major index `idx`.
pub fn idx_point(idx: usize) -> (p: Point)
    requires
        idx < CELLS,
    ensures
        p.x == idx % WIDTH,
        p.y == idx / WIDTH,
        spec_in_bounds(p.x as int, p.y as int),
        spec_mapidx(p.x as int, p.y as int) == idx,
{
    Point { x: (idx % WIDTH) as i32, y: (idx / WIDTH) as i32 }
}

/// One cell: its glyph and its colour.
pub type Tile = (Glyph, Color);

/// The tile that a fresh grid is filled with.
pub open spec fn default_tile() -> Tile {
    (Glyph::Floor, DARK_GRAY)
}

/// The tiles of a grid on which nothing has been drawn.
pub open spec fn blank_tiles() -> Seq<Tile> {
    Seq::new(CELLS as nat, |i: int| default_tile())
}

/// A grid of `WIDTH` by `HEIGHT` tiles, stored row by row.
#[derive(Clone, Debug)]
pub struct Grid {
    pub tiles: Vec<Tile>,
}

impl Grid {
    /// A grid holds exactly `WIDTH * HEIGHT` tiles.
    pub open spec fn wf(&self) -> bool {
        self.tiles@.len() == CELLS
    }

    /// The tiles, row by row.
    pub open spec fn view(&self) -> Seq<Tile> {
        self.tiles@
    }

    /// The tile at `(x, y)`.
    pub open spec fn at(&self, x: int, y: int) -> Tile
        recommends
            spec_in_bounds(x, y),
    {
        self.tiles@[spec_mapidx(x, y)]
    }

    /// A grid whose every tile is the default tile.
    pub fn new() -> (grid: Grid)
        ensures
            grid.wf(),
            grid@ == blank_tiles(),
    {
        let mut tiles: Vec<Tile> = Vec::with_capacity(CELLS);
        let mut i: usize = 0;
        while i < CELLS
            invariant
                i <= CELLS,
                tiles@.len() == i,
                forall|k: int| 0 <= k < i ==> tiles@[k] == default_tile(),
            decreases CELLS - i,
        {
            tiles.push((Glyph::Floor, DARK_GRAY));
            i += 1;
        }
        assert(tiles@ =~= blank_tiles());
        Grid { tiles }
    }

    /// A copy of the grid that shares nothing with it.
    pub fn snapshot(&self) -> (copy: Grid)
        requires
            self.wf(),
        ensures
            copy@ == self@,
            copy.wf(),
    {
        let mut tiles: Vec<Tile> = Vec::with_capacity(CELLS);
        let mut i: usize = 0;
        while i < CELLS
            invariant
                i <= CELLS,
                self.wf(),
                tiles@.len() == i,
                forall|k: int| 0 <= k < i ==> tiles@[k] == self.tiles@[k],
            decreases CELLS - i,
        {
            tiles.push(self.tiles[i]);
            i += 1;
        }
        assert(tiles@ =~= self.tiles@);
        Grid { tiles }
    }

    /// Fills every cell with the given tile.
    pub fn clear(&mut self, tile: Glyph, color: Color)
        requires
            old(self).wf(),
        ensures
            final(self).wf(),
            forall|i: int| 0 <= i < CELLS ==> final(self)@[i] == (tile, color),
    {
        let mut i: usize = 0;
        while i < CELLS
            invariant
                i <= CELLS,
                self.wf(),
                forall|k: int| 0 <= k < i ==> self.tiles@[k] == (tile, color),
            decreases CELLS - i,
        {
            self.tiles.set(i, (tile, color));
            i += 1;
        }
    }

    /// Fills every cell with the default tile.
    pub fn clear_default(&mut self)
        requires
            old(self).wf(),
        ensures
            final(self).wf(),
            final(self)@ == blank_tiles(),
    {
        self.clear(Glyph::Floor, DARK_GRAY);
        assert(self@ =~= blank_tiles());
    }

    /// Whether `point` names a cell of the grid.
    pub fn in_bounds(&self, point: Point) -> (b: bool)
        ensures
            b == spec_in_bounds(point.x as int, point.y as int),
    {
        point.x >= 0 && point.x < WIDTH as i32 && point.y >= 0 && point.y < HEIGHT as i32
    }

    /// The index of the cell at `point`, or `None` where `point` lies outside
    /// the grid.
    pub fn try_idx(&self, point: Point) -> (r: Option<usize>)
        ensures
            r == (if spec_in_bounds(point.x as int, point.y as int) {
                Some(spec_mapidx(point.x as int, point.y as int) as usize)
            } else {
                None
            }),
            r matches Some(idx) ==> idx < CELLS,
    {
        if !self.in_bounds(point) {
            None
        } else {
            Some(mapidx(point.x, point.y))
        }
    }

    /// Writes one tile. A position outside the grid is skipped.
    pub fn set(&mut self, position: Point, glyph: Glyph, color: Color)
        requires
            old(self).wf(),
        ensures
            final(self).wf(),
            final(self)@ == spec_set(old(self)@, position, (glyph, color)),
    {
        if self.in_bounds(position) {
            let idx: usize = mapidx(position.x, position.y);
            self.tiles.set(idx, (glyph, color));
        }
    }

    /// The tile at `position`, or `None` where `position` lies outside the
    /// grid.
    pub fn get(&self, position: Point) -> (r: Option<Tile>)
        requires
            self.wf(),
        ensures
            r == (if spec_in_bounds(position.x as int, position.y as int) {
                Some(self.at(position.x as int, position.y as int))
            } else {
                None
            }),
    {
        if self.in_bounds(position) {
            let idx: usize = mapidx(position.x, position.y);
            Some(self.tiles[idx])
        } else {
            None
        }
    }
}

/// The column of the cell with index `i`.
pub open spec fn cell_x(i: int) -> int {
    i % (WIDTH as int)
}

/// The row of the cell with index `i`.
pub open spec fn cell_y(i: int) -> int {
    i / (WIDTH as int)
}

/// The tiles after every cell that `rect` covers has been set to `tile`.
pub open spec fn spec_fill_rect(tiles: Seq<Tile>, rect: Rect, tile: Tile) -> Seq<Tile> {
    Seq::new(
        tiles.len(),
        |i: int| if rect.covers(cell_x(i), cell_y(i)) { tile } else { tiles[i] },
    )
}

/// The tiles after every tile of colour `from` has been given the colour `to`.
pub open spec fn spec_recolor(tiles: Seq<Tile>, from: Color, to: Color) -> Seq<Tile> {
    Seq::new(tiles.len(), |i: int| if tiles[i].1 == from { (tiles[i].0, to) } else { tiles[i] })
}

/// The tiles after every tile of glyph `glyph` has been given the colour `to`.
pub open spec fn spec_tint(tiles: Seq<Tile>, glyph: Glyph, to: Color) -> Seq<Tile> {
    Seq::new(tiles.len(), |i: int| if tiles[i].0 == glyph { (glyph, to) } else { tiles[i] })
}

/// How many of the first `n` tiles carry `glyph`.
pub open spec fn count_glyph_upto(tiles: Seq<Tile>, glyph: Glyph, n: int) -> int
    decreases n,
{
    if n <= 0 {
        0
    } else {
        count_glyph_upto(tiles, glyph, n - 1) + if tiles[n - 1].0 == glyph { 1int } else { 0int }
    }
}

/// How many tiles carry `glyph`.
pub open spec fn spec_count_glyph(tiles: Seq<Tile>, glyph: Glyph) -> int {
    count_glyph_upto(tiles, glyph, tiles.len() as int)
}

/// `cells` lists, in ascending order, exactly the indices of the tiles that
/// carry `glyph`.
pub open spec fn lists_glyph(tiles: Seq<Tile>, glyph: Glyph, cells: Seq<usize>) -> bool {
    &&& forall|k: int| 0 <= k < cells.len() ==> (#[trigger] cells[k]) < tiles.len() && tiles[cells[k] as int].0 == glyph
    &&& forall|k1: int, k2: int| 0 <= k1 < k2 < cells.len() ==> cells[k1] < cells[k2]
    &&& forall|i: int| 0 <= i < tiles.len() && (#[trigger] tiles[i]).0 == glyph ==> cells.contains(i as usize)
}

impl Grid {
    /// Sets every cell that `rect` covers to the given tile. The part of
    /// `rect` that lies outside the grid is skipped.
    pub fn fill_rect(&mut self, rect: &Rect, glyph: Glyph, color: Color)
        requires
            old(self).wf(),
        ensures
            final(self).wf(),
            final(self)@ == spec_fill_rect(old(self)@, *rect, (glyph, color)),
    {
        let mut i: usize = 0;
        while i < CELLS
            invariant
                i <= CELLS,
                self.wf(),
                old(self).wf(),
                forall|k: int| 0 <= k < i ==> self.tiles@[k] == spec_fill_rect(old(self)@, *rect, (glyph, color))[k],
                forall|k: int| i <= k < CELLS ==> self.tiles@[k] == old(self).tiles@[k],
            decreases CELLS - i,
        {
            let p = idx_point(i);
            if rect.point_in_rect(p) {
                self.tiles.set(i, (glyph, color));
            }
            i += 1;
        }
        assert(self.tiles@ =~= spec_fill_rect(old(self)@, *rect, (glyph, color)));
    }

    /// Gives every tile of colour `from` the colour `to`.
    pub fn recolor(&mut self, from: Color, to: Color)
        requires
            old(self).wf(),
        ensures
            final(self).wf(),
            final(self)@ == spec_recolor(old(self)@, from, to),
    {
        let mut i: usize = 0;
        while i < CELLS
            invariant
                i <= CELLS,
                self.wf(),
                old(self).wf(),
                forall|k: int| 0 <= k < i ==> self.tiles@[k] == spec_recolor(old(self)@, from, to)[k],
                forall|k: int| i <= k < CELLS ==> self.tiles@[k] == old(self).tiles@[k],
            decreases CELLS - i,
        {
            let t = self.tiles[i];
            if t.1.0 == from.0 && t.1.1 == from.1 && t.1.2 == from.2 {
                self.tiles.set(i, (t.0, to));
            }
            i += 1;
        }
        assert(self.tiles@ =~= spec_recolor(old(self)@, from, to));
    }

    /// Gives every tile that carries `glyph` the colour `to`.
    pub fn tint(&mut self, glyph: Glyph, to: Color)
        requires
            old(self).wf(),
        ensures
            final(self).wf(),
            final(self)@ == spec_tint(old(self)@, glyph, to),
    {
        let mut i: usize = 0;
        while i < CELLS
            invariant
                i <= CELLS,
                self.wf(),
                old(self).wf(),
                forall|k: int| 0 <= k < i ==> self.tiles@[k] == spec_tint(old(self)@, glyph, to)[k],
                forall|k: int| i <= k < CELLS ==> self.tiles@[k] == old(self).tiles@[k],
            decreases CELLS - i,
        {
            let t = self.tiles[i];
            if t.0 == glyph {
                self.tiles.set(i, (glyph, to));
            }
            i += 1;
        }
        assert(self.tiles@ =~= spec_tint(old(self)@, glyph, to));
    }

    /// How many tiles carry `glyph`.
    pub fn count_glyph(&self, glyph: Glyph) -> (n: usize)
        requires
            self.wf(),
        ensures
            n == spec_count_glyph(self@, glyph),
            n <= CELLS,
    {
        let mut n: usize = 0;
        let mut i: usize = 0;
        while i < CELLS
            invariant
                i <= CELLS,
                self.wf(),
                n == count_glyph_upto(self@, glyph, i as int),
                n <= i,
            decreases CELLS - i,
        {
            if self.tiles[i].0 == glyph {
                n += 1;
            }
            i += 1;
        }
        n
    }

    /// The indices of the tiles that carry `glyph`, in ascending order.
    pub fn cells_with_glyph(&self, glyph: Glyph) -> (cells: Vec<usize>)
        requires
            self.wf(),
        ensures
            lists_glyph(self@, glyph, cells@),
            cells.len() == spec_count_glyph(self@, glyph),
            cells.len() <= CELLS,
    {
        let mut cells: Vec<usize> = Vec::new();
        let mut i: usize = 0;
        while i < CELLS
            invariant
                i <= CELLS,
                self.wf(),
                cells.len() == count_glyph_upto(self@, glyph, i as int),
                cells.len() <= i,
                forall|k: int| 0 <= k < cells.len() ==> (#[trigger] cells@[k]) < i && self@[cells@[k] as int].0 == glyph,
                forall|k1: int, k2: int| 0 <= k1 < k2 < cells.len() ==> cells@[k1] < cells@[k2],
                forall|j: int| 0 <= j < i && (#[trigger] self@[j]).0 == glyph ==> cells@.contains(j as usize),
            decreases CELLS - i,
        {
            if self.tiles[i].0 == glyph {
                let ghost before = cells@;
                cells.push(i);
                assert(cells@[before.len() as int] == i);
                assert forall|j: int| 0 <= j < i + 1 && (#[trigger] self@[j]).0 == glyph implies cells@.contains(j as usize) by {
                    if j < i {
                        let k = choose|k: int| 0 <= k < before.len() && before[k] == j as usize;
                        assert(cells@[k] == j as usize);
                    }
                }
            }
            i += 1;
        }
        cells
    }
}

/// The tiles after a bounds-checked write of `tile` at `position`.
pub open spec fn spec_set(tiles: Seq<Tile>, position: Point, tile: Tile) -> Seq<Tile> {
    if spec_in_bounds(position.x as int, position.y as int) {
        tiles.update(spec_mapidx(position.x as int, position.y as int), tile)
    } else {
        tiles
    }
}

/// The colour that marks the `iter`-th item of a run; every item from the
/// fourteenth on is red.
pub open spec fn spec_iteration_color(iter: int) -> Color {
    if iter == 0 {
        WHITE
    } else if iter == 1 {
        GREEN
    } else if iter == 2 {
        YELLOW
    } else if iter == 3 {
        BLUE
    } else if iter == 4 {
        MAGENTA
    } else if iter == 5 {
        CYAN
    } else if iter == 6 {
        WHITE
    } else if iter == 7 {
        DARK_GREEN
    } else if iter == 8 {
        BROWN1
    } else if iter == 9 {
        DARK_BLUE
    } else if iter == 10 {
        DARK_MAGENTA
    } else if iter == 11 {
        DARK_CYAN
    } else if iter == 12 {
        GRAY
    } else if iter == 13 {
        DARK_RED
    } else {
        RED
    }
}

/// The colour that marks the `iter`-th item of a run.
pub fn iteration_color(iter: usize) -> (c: Color)
    ensures
        c == spec_iteration_color(iter as int),
{
    match iter {
        0 => WHITE,
        1 => GREEN,
        2 => YELLOW,
        3 => BLUE,
        4 => MAGENTA,
        5 => CYAN,
        6 => WHITE,
        7 => DARK_GREEN,
        8 => BROWN1,
        9 => DARK_BLUE,
        10 => DARK_MAGENTA,
        11 => DARK_CYAN,
        12 => GRAY,
        13 => DARK_RED,
        _ => RED,
    }
}

/// A recorded state of a run: the grid as it was, and what the step was.
pub type Frame = (Grid, String);

/// Every frame of the list holds a grid of `WIDTH * HEIGHT` tiles.
pub open spec fn frames_wf(frames: Seq<Frame>) -> bool {
    forall|i: int| 0 <= i < frames.len() ==> (#[trigger] frames[i]).0.wf()
}

/// A generator: it prepares once, and then runs to completion and hands back
/// the frames that it recorded on the way.
pub trait MapGen {
    /// Prepares the generator. It may do nothing.
    fn setup(&mut self);

    /// Runs the generator and returns its frames, oldest first.
    fn build(&mut self) -> (frames: Vec<Frame>)
        ensures
            frames_wf(frames@),
    ;
}

} // verus!
