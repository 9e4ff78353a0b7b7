use gridgen::distance::{flood, DijkstraMap, UNREACHABLE};
use gridgen::graph::{passable_mask, walkable};
use gridgen::grid::{mapidx, Glyph, Grid, Point, CELLS, RED};
use gridgen::rect::Rect;

fn open_room(x: i32, y: i32, w: i32, h: i32) -> Grid {
    let mut grid = Grid::new();
    grid.fill_rect(&Rect::with_size(x, y, w, h), Glyph::Wall, RED);
    grid
}

#[test]
fn walkable_glyphs() {
    assert!(walkable(Glyph::Wall));
    assert!(walkable(Glyph::Actor));
    assert!(walkable(Glyph::Exit));
    assert!(!walkable(Glyph::Floor));
    assert!(!walkable(Glyph::Seed));
    assert!(!walkable(Glyph::Water));
    assert!(!walkable(Glyph::Treasure));
}

#[test]
fn passable_mask_follows_the_glyphs() {
    let mut grid = Grid::new();
    grid.set(Point::new(1, 0), Glyph::Wall, RED);
    grid.set(Point::new(2, 0), Glyph::Actor, RED);
    grid.set(Point::new(3, 0), Glyph::Water, RED);
    let mask = passable_mask(&grid);
    assert_eq!(mask.len(), CELLS);
    assert_eq!(&mask[0..5], &[false, true, true, false, false]);
}

#[test]
fn distance_along_a_corridor() {
    let grid = open_room(2, 5, 10, 1);
    let mask = passable_mask(&grid);
    let field = DijkstraMap::new(&vec![mapidx(2, 5)], &mask, 1024);
    assert_eq!(field.map.len(), CELLS);
    assert_eq!(field.max_depth, 1024);
    for x in 2..12 {
        assert_eq!(field.map[mapidx(x, 5)], (x - 2) as u32);
    }
    assert_eq!(field.map[mapidx(12, 5)], UNREACHABLE);
    assert_eq!(field.map[mapidx(2, 4)], UNREACHABLE);
}

#[test]
fn distance_is_counted_in_steps_along_edges() {
    let grid = open_room(10, 10, 5, 5);
    let mask = passable_mask(&grid);
    let field = DijkstraMap::new(&vec![mapidx(10, 10)], &mask, 1024);
    for y in 10..15 {
        for x in 10..15 {
            assert_eq!(field.map[mapidx(x, y)], (x - 10 + y - 10) as u32);
        }
    }
}

#[test]
fn distance_goes_round_what_is_closed() {
    // A ring of open cells round a closed middle: the far side is reached the
    // long way.
    let mut grid = open_room(10, 10, 3, 3);
    grid.set(Point::new(11, 11), Glyph::Floor, RED);
    grid.set(Point::new(11, 10), Glyph::Floor, RED);
    let mask = passable_mask(&grid);
    let field = DijkstraMap::new(&vec![mapidx(10, 10)], &mask, 1024);
    assert_eq!(field.map[mapidx(12, 10)], 6);
    assert_eq!(field.map[mapidx(12, 12)], 4);
    assert_eq!(field.map[mapidx(11, 11)], UNREACHABLE);
}

#[test]
fn a_closed_ring_cuts_cells_off() {
    // An open room inside, an open room outside, and a ring of closed cells
    // between them.
    let mut grid = Grid::new();
    grid.clear(Glyph::Wall, RED);
    for x in 20..=30 {
        grid.set(Point::new(x, 20), Glyph::Floor, RED);
        grid.set(Point::new(x, 30), Glyph::Floor, RED);
    }
    for y in 20..=30 {
        grid.set(Point::new(20, y), Glyph::Floor, RED);
        grid.set(Point::new(30, y), Glyph::Floor, RED);
    }
    let mask = passable_mask(&grid);
    let (dist, complete) = flood(&vec![mapidx(0, 0)], &mask, 100000);
    assert!(complete);
    for y in 21..30 {
        for x in 21..30 {
            assert_eq!(dist[mapidx(x, y)], UNREACHABLE);
        }
    }
    assert_eq!(dist[mapidx(79, 49)], 79 + 49);
    assert_eq!(dist[mapidx(31, 25)], 31 + 25);

    let (inside, _) = flood(&vec![mapidx(25, 25)], &mask, 100000);
    assert_eq!(inside[mapidx(21, 21)], 8);
    assert_eq!(inside[mapidx(0, 0)], UNREACHABLE);
}

#[test]
fn nearest_of_several_starts_counts() {
    let grid = open_room(0, 0, 20, 1);
    let mask = passable_mask(&grid);
    let field = DijkstraMap::new(&vec![mapidx(0, 0), mapidx(19, 0)], &mask, 1024);
    for x in 0..20 {
        let expected = x.min(19 - x);
        assert_eq!(field.map[mapidx(x, 0)], expected as u32);
    }
}

#[test]
fn cutoff_leaves_out_what_is_too_far() {
    let grid = open_room(0, 0, 20, 1);
    let mask = passable_mask(&grid);
    let (dist, complete) = flood(&vec![0], &mask, 5);
    assert!(!complete);
    for x in 0..5 {
        assert_eq!(dist[x], x as u32);
    }
    for x in 5..20 {
        assert_eq!(dist[x], UNREACHABLE);
    }
    let (none, _) = flood(&vec![0], &mask, 0);
    assert!(none.iter().all(|d| *d == UNREACHABLE));
    let (only_start, _) = flood(&vec![0], &mask, 1);
    assert_eq!(only_start[0], 0);
    assert_eq!(only_start[1], UNREACHABLE);
}

#[test]
fn starts_that_are_closed_or_outside_count_for_nothing() {
    let grid = open_room(5, 5, 3, 3);
    let mask = passable_mask(&grid);
    let (dist, complete) = flood(&vec![0, CELLS, usize::MAX], &mask, 1024);
    assert!(complete);
    assert!(dist.iter().all(|d| *d == UNREACHABLE));
    let (empty, complete) = flood(&Vec::new(), &mask, 1024);
    assert!(complete);
    assert!(empty.iter().all(|d| *d == UNREACHABLE));
}

#[test]
fn no_walkable_cell_at_all() {
    let mask = passable_mask(&Grid::new());
    let (dist, complete) = flood(&vec![mapidx(40, 25)], &mask, 1024);
    assert!(complete);
    assert!(dist.iter().all(|d| *d == UNREACHABLE));
}

#[test]
fn rows_do_not_wrap_round() {
    // The last cell of a row and the first of the next are not neighbours.
    let mut grid = Grid::new();
    grid.set(Point::new(79, 3), Glyph::Wall, RED);
    grid.set(Point::new(0, 4), Glyph::Wall, RED);
    let mask = passable_mask(&grid);
    let (dist, _) = flood(&vec![mapidx(79, 3)], &mask, 1024);
    assert_eq!(dist[mapidx(79, 3)], 0);
    assert_eq!(dist[mapidx(0, 4)], UNREACHABLE);
}

#[test]
fn a_winding_corridor_is_followed_to_its_end() {
    // A snake through every other row: the far end is thousands of steps away.
    let mut grid = Grid::new();
    for y in (0..50).step_by(2) {
        for x in 0..80 {
            grid.set(Point::new(x, y), Glyph::Wall, RED);
        }
    }
    for (k, y) in (1..49).step_by(2).enumerate() {
        let x = if k % 2 == 0 { 79 } else { 0 };
        grid.set(Point::new(x, y), Glyph::Wall, RED);
    }
    let mask = passable_mask(&grid);
    let (dist, complete) = flood(&vec![0], &mask, 100000);
    assert!(complete);
    assert_eq!(dist[mapidx(79, 0)], 79);
    assert_eq!(dist[mapidx(79, 2)], 81);
    assert_eq!(dist[mapidx(0, 2)], 160);
    assert_eq!(dist[mapidx(0, 48)], 24 * 81);
    assert_eq!(dist[mapidx(79, 48)], 24 * 81 + 79);
    let short = DijkstraMap::new(&vec![0], &mask, 1024);
    assert_eq!(short.map[mapidx(0, 2)], 160);
    assert_eq!(short.map[mapidx(0, 48)], UNREACHABLE);
}
