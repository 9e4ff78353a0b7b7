//! Straight corridors, and the two-segment corridor that joins two points.

use vstd::prelude::*;
use crate::graph::{
    connected, lemma_column_connected, lemma_connected_transitive, lemma_row_connected, open_cell,
    spec_passable,
};
use crate::grid::{
    cell_x, cell_y, mapidx, spec_in_bounds, spec_mapidx, CELLS, Color, Glyph, Grid, HEIGHT, Point,
    Tile, WIDTH,
};

verus! {

/// The smaller of two numbers.
pub open spec fn lesser(a: int, b: int) -> int {
    if a <= b {
        a
    } else {
        b
    }
}

/// The greater of two numbers.
pub open spec fn greater(a: int, b: int) -> int {
    if a >= b {
        a
    } else {
        b
    }
}

/// The tiles after the cells of row `y` between the columns `x1` and `x2`,
/// both counted in, have been set to `tile`.
pub open spec fn spec_carve_horizontal(tiles: Seq<Tile>, x1: int, x2: int, y: int, tile: Tile) -> Seq<
    Tile,
> {
    Seq::new(
        tiles.len(),
        |i: int|
            if cell_y(i) == y && lesser(x1, x2) <= cell_x(i) <= greater(x1, x2) {
                tile
            } else {
                tiles[i]
            },
    )
}

/// The tiles after the cells of column `x` between the rows `y1` and `y2`,
/// both counted in, have been set to `tile`.
pub open spec fn spec_carve_vertical(tiles: Seq<Tile>, y1: int, y2: int, x: int, tile: Tile) -> Seq<
    Tile,
> {
    Seq::new(
        tiles.len(),
        |i: int|
            if cell_x(i) == x && lesser(y1, y2) <= cell_y(i) <= greater(y1, y2) {
                tile
            } else {
                tiles[i]
            },
    )
}

/// The tiles after `from` and `to` have been joined by one horizontal and one
/// vertical corridor: the horizontal one first, in the row of `from`, where
/// `horizontal_first` holds; else the vertical one first, in the column of
/// `from`.
pub open spec fn spec_connect(
    tiles: Seq<Tile>,
    from: Point,
    to: Point,
    horizontal_first: bool,
    tile: Tile,
) -> Seq<Tile> {
    if horizontal_first {
        spec_carve_vertical(
            spec_carve_horizontal(tiles, from.x as int, to.x as int, from.y as int, tile),
            from.y as int,
            to.y as int,
            to.x as int,
            tile,
        )
    } else {
        spec_carve_horizontal(
            spec_carve_vertical(tiles, from.y as int, to.y as int, from.x as int, tile),
            from.x as int,
            to.x as int,
            to.y as int,
            tile,
        )
    }
}

/// Draws a corridor along row `y` from column `x1` to column `x2`, over
/// whatever was there. Cells outside the grid are skipped.
pub fn carve_horizontal(x1: i32, x2: i32, y: i32, color: Color, map: &mut Grid)
    requires
        old(map).wf(),
    ensures
        final(map).wf(),
        final(map)@ == spec_carve_horizontal(
            old(map)@,
            x1 as int,
            x2 as int,
            y as int,
            (Glyph::Wall, color),
        ),
{
    let first: i32 = if x1 <= x2 { x1 } else { x2 };
    let last: i32 = if x1 <= x2 { x2 } else { x1 };
    let lo: i32 = if first < 0 { 0 } else { first };
    let hi: i32 = if last > WIDTH as i32 - 1 { WIDTH as i32 - 1 } else { last };
    if 0 <= y && y < HEIGHT as i32 {
        let mut x: i32 = lo;
        while x <= hi
            invariant
                0 <= lo <= x,
                hi < WIDTH,
                x <= hi + 1 || x == lo,
                0 <= y < HEIGHT,
                map.wf(),
                old(map).wf(),
                forall|i: int|
                    0 <= i < CELLS ==> map@[i] == (if cell_y(i) == y && lo <= cell_x(i) < x {
                        (Glyph::Wall, color)
                    } else {
                        old(map)@[i]
                    }),
            decreases hi + 1 - x,
        {
            let idx: usize = mapidx(x, y);
            map.tiles.set(idx, (Glyph::Wall, color));
            x += 1;
        }
    }
    assert forall|i: int| 0 <= i < CELLS implies map@[i] == spec_carve_horizontal(
        old(map)@,
        x1 as int,
        x2 as int,
        y as int,
        (Glyph::Wall, color),
    )[i] by {
        assert(0 <= cell_x(i) < WIDTH && 0 <= cell_y(i) < HEIGHT);
    }
    assert(map@ =~= spec_carve_horizontal(
        old(map)@,
        x1 as int,
        x2 as int,
        y as int,
        (Glyph::Wall, color),
    ));
}

/// Draws a corridor along column `x` from row `y1` to row `y2`, over whatever
/// was there. Cells outside the grid are skipped.
pub fn carve_vertical(y1: i32, y2: i32, x: i32, color: Color, map: &mut Grid)
    requires
        old(map).wf(),
    ensures
        final(map).wf(),
        final(map)@ == spec_carve_vertical(
            old(map)@,
            y1 as int,
            y2 as int,
            x as int,
            (Glyph::Wall, color),
        ),
{
    let first: i32 = if y1 <= y2 { y1 } else { y2 };
    let last: i32 = if y1 <= y2 { y2 } else { y1 };
    let lo: i32 = if first < 0 { 0 } else { first };
    let hi: i32 = if last > HEIGHT as i32 - 1 { HEIGHT as i32 - 1 } else { last };
    if 0 <= x && x < WIDTH as i32 {
        let mut y: i32 = lo;
        while y <= hi
            invariant
                0 <= lo <= y,
                hi < HEIGHT,
                y <= hi + 1 || y == lo,
                0 <= x < WIDTH,
                map.wf(),
                old(map).wf(),
                forall|i: int|
                    0 <= i < CELLS ==> map@[i] == (if cell_x(i) == x && lo <= cell_y(i) < y {
                        (Glyph::Wall, color)
                    } else {
                        old(map)@[i]
                    }),
            decreases hi + 1 - y,
        {
            let idx: usize = mapidx(x, y);
            map.tiles.set(idx, (Glyph::Wall, color));
            y += 1;
        }
    }
    assert forall|i: int| 0 <= i < CELLS implies map@[i] == spec_carve_vertical(
        old(map)@,
        y1 as int,
        y2 as int,
        x as int,
        (Glyph::Wall, color),
    )[i] by {
        assert(0 <= cell_x(i) < WIDTH && 0 <= cell_y(i) < HEIGHT);
    }
    assert(map@ =~= spec_carve_vertical(
        old(map)@,
        y1 as int,
        y2 as int,
        x as int,
        (Glyph::Wall, color),
    ));
}

/// Joins `from` and `to` by one horizontal and one vertical corridor; see
/// [`spec_connect`] for the order.
pub fn connect(from: Point, to: Point, horizontal_first: bool, color: Color, map: &mut Grid)
    requires
        old(map).wf(),
    ensures
        final(map).wf(),
        final(map)@ == spec_connect(old(map)@, from, to, horizontal_first, (Glyph::Wall, color)),
{
    if horizontal_first {
        carve_horizontal(from.x, to.x, from.y, color, map);
        carve_vertical(from.y, to.y, to.x, color, map);
    } else {
        carve_vertical(from.y, to.y, from.x, color, map);
        carve_horizontal(from.x, to.x, to.y, color, map);
    }
}

/// Whether every tile that can be walked on in `before` can be walked on in
/// `after`.
pub open spec fn keeps_open(before: Seq<Tile>, after: Seq<Tile>) -> bool {
    forall|i: int| open_cell(spec_passable(before), i) ==> open_cell(spec_passable(after), i)
}

/// A corridor between two points of the grid connects them, and closes no
/// cell.
pub proof fn lemma_connect_connects(
    tiles: Seq<Tile>,
    from: Point,
    to: Point,
    horizontal_first: bool,
    color: Color,
)
    requires
        tiles.len() == CELLS,
        spec_in_bounds(from.x as int, from.y as int),
        spec_in_bounds(to.x as int, to.y as int),
    ensures
        connected(
            spec_passable(spec_connect(tiles, from, to, horizontal_first, (Glyph::Wall, color))),
            spec_mapidx(from.x as int, from.y as int),
            spec_mapidx(to.x as int, to.y as int),
        ),
        keeps_open(tiles, spec_connect(tiles, from, to, horizontal_first, (Glyph::Wall, color))),
{
    let tile = (Glyph::Wall, color);
    let after = spec_connect(tiles, from, to, horizontal_first, tile);
    let mask = spec_passable(after);
    let (fx, fy, tx, ty) = (from.x as int, from.y as int, to.x as int, to.y as int);
    if horizontal_first {
        assert forall|x: int| (fx <= x <= tx || tx <= x <= fx) implies open_cell(
            mask,
            #[trigger] spec_mapidx(x, fy),
        ) by {
            let i = spec_mapidx(x, fy);
            assert(cell_x(i) == x && cell_y(i) == fy);
        }
        lemma_row_connected(mask, fy, fx, tx);
        assert forall|y: int| (fy <= y <= ty || ty <= y <= fy) implies open_cell(
            mask,
            #[trigger] spec_mapidx(tx, y),
        ) by {
            let i = spec_mapidx(tx, y);
            assert(cell_x(i) == tx && cell_y(i) == y);
        }
        lemma_column_connected(mask, tx, fy, ty);
        lemma_connected_transitive(
            mask,
            spec_mapidx(fx, fy),
            spec_mapidx(tx, fy),
            spec_mapidx(tx, ty),
        );
    } else {
        assert forall|y: int| (fy <= y <= ty || ty <= y <= fy) implies open_cell(
            mask,
            #[trigger] spec_mapidx(fx, y),
        ) by {
            let i = spec_mapidx(fx, y);
            assert(cell_x(i) == fx && cell_y(i) == y);
        }
        lemma_column_connected(mask, fx, fy, ty);
        assert forall|x: int| (fx <= x <= tx || tx <= x <= fx) implies open_cell(
            mask,
            #[trigger] spec_mapidx(x, ty),
        ) by {
            let i = spec_mapidx(x, ty);
            assert(cell_x(i) == x && cell_y(i) == ty);
        }
        lemma_row_connected(mask, ty, fx, tx);
        lemma_connected_transitive(
            mask,
            spec_mapidx(fx, fy),
            spec_mapidx(fx, ty),
            spec_mapidx(tx, ty),
        );
    }
}

} // verus!
