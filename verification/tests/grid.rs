use gridgen::frames::{decimal, numbered_label, record};
use gridgen::grid::{
    idx_point, iteration_color, mapidx, Glyph, Grid, Point, BLUE, BROWN1, CELLS, CYAN, DARK_BLUE,
    DARK_CYAN, DARK_GRAY, DARK_GREEN, DARK_MAGENTA, DARK_RED, GRAY, GREEN, HEIGHT, MAGENTA, RED,
    WHITE, WIDTH, YELLOW,
};
use gridgen::rect::Rect;

#[test]
fn dimensions_are_eighty_by_fifty() {
    assert_eq!(WIDTH, 80);
    assert_eq!(HEIGHT, 50);
    assert_eq!(CELLS, WIDTH * HEIGHT);
}

#[test]
fn new_grid_is_floor_filled() {
    let grid = Grid::new();
    assert_eq!(grid.tiles.len(), CELLS);
    assert!(grid.tiles.iter().all(|t| *t == (Glyph::Floor, DARK_GRAY)));
}

#[test]
fn set_writes_row_major() {
    let mut grid = Grid::new();
    grid.set(Point::new(3, 2), Glyph::Wall, RED);
    assert_eq!(grid.tiles[2 * 80 + 3], (Glyph::Wall, RED));
    assert_eq!(grid.tiles.iter().filter(|t| t.0 == Glyph::Wall).count(), 1);
}

#[test]
fn set_skips_out_of_bounds() {
    let mut grid = Grid::new();
    grid.set(Point::new(80, 0), Glyph::Wall, RED);
    grid.set(Point::new(-1, 3), Glyph::Wall, RED);
    grid.set(Point::new(3, 50), Glyph::Wall, RED);
    grid.set(Point::new(3, -1), Glyph::Wall, RED);
    grid.set(Point::new(i32::MAX, i32::MIN), Glyph::Wall, RED);
    assert_eq!(grid.tiles.len(), CELLS);
    assert!(grid.tiles.iter().all(|t| *t == (Glyph::Floor, DARK_GRAY)));
    grid.set(Point::new(79, 49), Glyph::Wall, RED);
    assert_eq!(grid.tiles[3999], (Glyph::Wall, RED));
}

#[test]
fn get_reads_what_set_wrote() {
    let mut grid = Grid::new();
    grid.set(Point::new(10, 20), Glyph::Water, BLUE);
    assert_eq!(grid.get(Point::new(10, 20)), Some((Glyph::Water, BLUE)));
    assert_eq!(grid.get(Point::new(11, 20)), Some((Glyph::Floor, DARK_GRAY)));
    assert_eq!(grid.get(Point::new(80, 20)), None);
    assert_eq!(grid.get(Point::new(0, -1)), None);
}

#[test]
fn in_bounds_edges() {
    let grid = Grid::new();
    assert!(grid.in_bounds(Point::new(0, 0)));
    assert!(grid.in_bounds(Point::new(79, 49)));
    assert!(!grid.in_bounds(Point::new(80, 49)));
    assert!(!grid.in_bounds(Point::new(79, 50)));
    assert!(!grid.in_bounds(Point::new(-1, 0)));
    assert!(!grid.in_bounds(Point::new(0, -1)));
}

#[test]
fn try_idx_gives_index_or_none() {
    let grid = Grid::new();
    assert_eq!(grid.try_idx(Point::new(0, 0)), Some(0));
    assert_eq!(grid.try_idx(Point::new(5, 1)), Some(85));
    assert_eq!(grid.try_idx(Point::new(79, 49)), Some(3999));
    assert_eq!(grid.try_idx(Point::new(80, 0)), None);
    assert_eq!(grid.try_idx(Point::new(0, 50)), None);
    assert_eq!(grid.try_idx(Point::new(-1, -1)), None);
}

#[test]
fn mapidx_and_idx_point_are_inverse() {
    assert_eq!(mapidx(0, 0), 0);
    assert_eq!(mapidx(79, 0), 79);
    assert_eq!(mapidx(0, 1), 80);
    assert_eq!(mapidx(40, 25), 2040);
    for idx in 0..CELLS {
        let p = idx_point(idx);
        assert_eq!(mapidx(p.x, p.y), idx);
    }
}

#[test]
fn clear_fills_every_cell() {
    let mut grid = Grid::new();
    grid.clear(Glyph::Wall, GREEN);
    assert_eq!(grid.tiles.len(), CELLS);
    assert!(grid.tiles.iter().all(|t| *t == (Glyph::Wall, GREEN)));
    grid.clear_default();
    assert!(grid.tiles.iter().all(|t| *t == (Glyph::Floor, DARK_GRAY)));
}

#[test]
fn snapshot_does_not_alias() {
    let mut grid = Grid::new();
    grid.set(Point::new(1, 1), Glyph::Wall, RED);
    let copy = grid.snapshot();
    grid.set(Point::new(2, 2), Glyph::Wall, RED);
    assert_eq!(copy.tiles[81], (Glyph::Wall, RED));
    assert_eq!(copy.tiles[162], (Glyph::Floor, DARK_GRAY));
    assert_eq!(grid.tiles[162], (Glyph::Wall, RED));
}

#[test]
fn iteration_color_table() {
    let expected = [
        WHITE, GREEN, YELLOW, BLUE, MAGENTA, CYAN, WHITE, DARK_GREEN, BROWN1, DARK_BLUE,
        DARK_MAGENTA, DARK_CYAN, GRAY, DARK_RED,
    ];
    for (i, c) in expected.iter().enumerate() {
        assert_eq!(iteration_color(i), *c);
    }
    assert_eq!(iteration_color(14), RED);
    assert_eq!(iteration_color(666), RED);
    assert_eq!(iteration_color(usize::MAX), RED);
    assert_eq!(RED, (255, 0, 0));
    assert_eq!(DARK_GRAY, (169, 169, 169));
}

#[test]
fn glyph_characters() {
    assert_eq!(Glyph::Floor.to_char(), '.');
    assert_eq!(Glyph::Wall.to_char(), '#');
    assert_eq!(Glyph::Water.to_char(), '~');
    assert_eq!(Glyph::Grass.to_char(), ';');
    assert_eq!(Glyph::Mountain.to_char(), '^');
    assert_eq!(Glyph::Seed.to_char(), '*');
    assert_eq!(Glyph::Discard.to_char(), '!');
    assert_eq!(Glyph::Actor.to_char(), '@');
    assert_eq!(Glyph::Exit.to_char(), '>');
    assert_eq!(Glyph::Danger.to_char(), '^');
    assert_eq!(Glyph::Treasure.to_char(), '$');
}

#[test]
fn fill_rect_covers_half_open_range() {
    let mut grid = Grid::new();
    let rect = Rect::with_size(2, 3, 4, 2);
    grid.fill_rect(&rect, Glyph::Wall, YELLOW);
    for y in 0..50 {
        for x in 0..80 {
            let inside = (2..6).contains(&x) && (3..5).contains(&y);
            let expected = if inside { (Glyph::Wall, YELLOW) } else { (Glyph::Floor, DARK_GRAY) };
            assert_eq!(grid.tiles[mapidx(x, y)], expected);
        }
    }
}

#[test]
fn fill_rect_skips_what_lies_outside() {
    let mut grid = Grid::new();
    let rect = Rect::with_exact(-5, -5, 2, 2);
    grid.fill_rect(&rect, Glyph::Wall, YELLOW);
    assert_eq!(grid.count_glyph(Glyph::Wall), 4);
    let far = Rect::with_exact(78, 48, 200, 200);
    grid.fill_rect(&far, Glyph::Wall, YELLOW);
    assert_eq!(grid.count_glyph(Glyph::Wall), 8);
    assert_eq!(grid.tiles.len(), CELLS);
}

#[test]
fn recolor_changes_only_matching_colour() {
    let mut grid = Grid::new();
    grid.set(Point::new(1, 1), Glyph::Wall, RED);
    grid.set(Point::new(2, 1), Glyph::Wall, YELLOW);
    grid.recolor(RED, GREEN);
    assert_eq!(grid.tiles[81], (Glyph::Wall, GREEN));
    assert_eq!(grid.tiles[82], (Glyph::Wall, YELLOW));
    assert_eq!(grid.tiles[0], (Glyph::Floor, DARK_GRAY));
}

#[test]
fn tint_changes_only_matching_glyph() {
    let mut grid = Grid::new();
    grid.set(Point::new(1, 1), Glyph::Wall, RED);
    grid.set(Point::new(2, 1), Glyph::Actor, RED);
    grid.tint(Glyph::Wall, CYAN);
    assert_eq!(grid.tiles[81], (Glyph::Wall, CYAN));
    assert_eq!(grid.tiles[82], (Glyph::Actor, RED));
    assert_eq!(grid.tiles[0], (Glyph::Floor, DARK_GRAY));
}

#[test]
fn count_and_list_glyphs() {
    let mut grid = Grid::new();
    assert_eq!(grid.count_glyph(Glyph::Wall), 0);
    assert_eq!(grid.count_glyph(Glyph::Floor), CELLS);
    assert!(grid.cells_with_glyph(Glyph::Wall).is_empty());
    grid.set(Point::new(5, 0), Glyph::Wall, RED);
    grid.set(Point::new(0, 2), Glyph::Wall, RED);
    grid.set(Point::new(79, 49), Glyph::Wall, RED);
    assert_eq!(grid.count_glyph(Glyph::Wall), 3);
    assert_eq!(grid.cells_with_glyph(Glyph::Wall), vec![5, 160, 3999]);
}

#[test]
fn numbers_in_decimal() {
    for n in [0usize, 1, 9, 10, 11, 99, 100, 101, 240, 499, 1000, 65535, 4294967295] {
        assert_eq!(decimal(n), format!("{}", n));
    }
    assert_eq!(decimal(usize::MAX), format!("{}", usize::MAX));
    assert_eq!(numbered_label("Corridor", 12), "Corridor 12");
    assert_eq!(numbered_label("", 0), " 0");
    assert_eq!(numbered_label("Add room", 7), format!("Add room {}", 7));
}

#[test]
fn record_appends_a_copy() {
    let mut frames = Vec::new();
    let mut grid = Grid::new();
    record(&mut frames, &grid, "first".to_string());
    grid.set(Point::new(0, 0), Glyph::Wall, RED);
    record(&mut frames, &grid, "second".to_string());
    assert_eq!(frames.len(), 2);
    assert_eq!(frames[0].1, "first");
    assert_eq!(frames[1].1, "second");
    assert_eq!(frames[0].0.tiles[0], (Glyph::Floor, DARK_GRAY));
    assert_eq!(frames[1].0.tiles[0], (Glyph::Wall, RED));
    grid.set(Point::new(1, 0), Glyph::Wall, RED);
    assert_eq!(frames[1].0.tiles[1], (Glyph::Floor, DARK_GRAY));
}
