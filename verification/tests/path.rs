use gridgen::graph::passable_mask;
use gridgen::grid::{mapidx, Glyph, Grid, Point, CELLS, RED};
use gridgen::path::a_star_search;
use gridgen::rect::Rect;

fn adjacent(a: usize, b: usize) -> bool {
    let (ax, ay) = ((a % 80) as i32, (a / 80) as i32);
    let (bx, by) = ((b % 80) as i32, (b / 80) as i32);
    (ax - bx).abs() + (ay - by).abs() == 1
}

fn check_route(mask: &Vec<bool>, start: usize, end: usize, steps: &Vec<usize>) {
    let mut prev = start;
    for step in steps.iter() {
        assert!(*step < CELLS);
        assert!(mask[*step]);
        assert!(adjacent(prev, *step));
        prev = *step;
    }
    assert_eq!(prev, end);
}

#[test]
fn route_along_a_corridor() {
    let mut grid = Grid::new();
    grid.fill_rect(&Rect::with_size(2, 5, 10, 1), Glyph::Wall, RED);
    let mask = passable_mask(&grid);
    let path = a_star_search(mapidx(2, 5), mapidx(11, 5), &mask);
    assert!(path.success);
    assert_eq!(path.destination, mapidx(11, 5));
    let expected: Vec<usize> = (3..12).map(|x| mapidx(x, 5)).collect();
    assert_eq!(path.steps, expected);
}

#[test]
fn route_is_a_chain_of_neighbours() {
    let mut grid = Grid::new();
    grid.fill_rect(&Rect::with_size(5, 5, 20, 20), Glyph::Wall, RED);
    grid.fill_rect(&Rect::with_size(10, 5, 2, 15), Glyph::Floor, RED);
    let mask = passable_mask(&grid);
    let start = mapidx(5, 5);
    let end = mapidx(20, 6);
    let path = a_star_search(start, end, &mask);
    assert!(path.success);
    check_route(&mask, start, end, &path.steps);
    assert!(adjacent(start, path.steps[0]));
    assert_eq!(*path.steps.last().unwrap(), end);
    // Down 15 rows to pass the closed block, along, and up again.
    assert_eq!(path.steps.len(), 15 + 15 + 14);
}

#[test]
fn route_in_the_open_is_as_short_as_can_be() {
    let mut grid = Grid::new();
    grid.clear(Glyph::Wall, RED);
    let mask = passable_mask(&grid);
    for (sx, sy, ex, ey) in [(0, 0, 79, 49), (79, 0, 0, 49), (40, 25, 41, 25), (3, 7, 3, 30)] {
        let start = mapidx(sx, sy);
        let end = mapidx(ex, ey);
        let path = a_star_search(start, end, &mask);
        assert!(path.success);
        check_route(&mask, start, end, &path.steps);
        assert_eq!(path.steps.len() as i32, (sx - ex).abs() + (sy - ey).abs());
    }
}

#[test]
fn start_on_the_goal_is_an_empty_route() {
    let mut grid = Grid::new();
    grid.set(Point::new(4, 4), Glyph::Wall, RED);
    let mask = passable_mask(&grid);
    let path = a_star_search(mapidx(4, 4), mapidx(4, 4), &mask);
    assert!(path.success);
    assert!(path.steps.is_empty());
    assert_eq!(path.destination, mapidx(4, 4));
}

#[test]
fn no_route_across_closed_cells() {
    let mut grid = Grid::new();
    grid.fill_rect(&Rect::with_size(2, 2, 3, 3), Glyph::Wall, RED);
    grid.fill_rect(&Rect::with_size(10, 2, 3, 3), Glyph::Wall, RED);
    let mask = passable_mask(&grid);
    let path = a_star_search(mapidx(2, 2), mapidx(10, 2), &mask);
    assert!(!path.success);
    assert!(path.steps.is_empty());
    assert_eq!(path.destination, mapidx(10, 2));
}

#[test]
fn no_route_from_or_to_a_closed_cell() {
    let mut grid = Grid::new();
    grid.fill_rect(&Rect::with_size(2, 2, 3, 3), Glyph::Wall, RED);
    let mask = passable_mask(&grid);
    assert!(!a_star_search(mapidx(1, 2), mapidx(3, 3), &mask).success);
    assert!(!a_star_search(mapidx(3, 3), mapidx(1, 2), &mask).success);
    assert!(!a_star_search(mapidx(1, 2), mapidx(1, 2), &mask).success);
}

#[test]
fn no_route_outside_the_grid() {
    let mut grid = Grid::new();
    grid.clear(Glyph::Wall, RED);
    let mask = passable_mask(&grid);
    assert!(!a_star_search(CELLS, 0, &mask).success);
    assert!(!a_star_search(0, CELLS, &mask).success);
    assert!(!a_star_search(usize::MAX, usize::MAX, &mask).success);
}

#[test]
fn no_route_on_a_grid_without_open_cells() {
    let mask = passable_mask(&Grid::new());
    let path = a_star_search(mapidx(1, 1), mapidx(5, 5), &mask);
    assert!(!path.success);
    assert!(path.steps.is_empty());
}

#[test]
fn markers_can_be_walked_on() {
    let mut grid = Grid::new();
    grid.fill_rect(&Rect::with_size(2, 5, 10, 1), Glyph::Wall, RED);
    grid.set(Point::new(2, 5), Glyph::Actor, RED);
    grid.set(Point::new(11, 5), Glyph::Exit, RED);
    let mask = passable_mask(&grid);
    let path = a_star_search(mapidx(2, 5), mapidx(11, 5), &mask);
    assert!(path.success);
    assert_eq!(path.steps.len(), 9);
}

#[test]
fn among_equal_routes_the_steps_go_left_right_up_down_in_this_order() {
    let mut grid = Grid::new();
    grid.clear(Glyph::Wall, RED);
    let mask = passable_mask(&grid);
    let path = a_star_search(mapidx(0, 0), mapidx(2, 2), &mask);
    assert_eq!(path.steps, vec![mapidx(1, 0), mapidx(2, 0), mapidx(2, 1), mapidx(2, 2)]);
    let back = a_star_search(mapidx(2, 2), mapidx(0, 0), &mask);
    assert_eq!(back.steps, vec![mapidx(1, 2), mapidx(0, 2), mapidx(0, 1), mapidx(0, 0)]);
    let across = a_star_search(mapidx(0, 2), mapidx(2, 0), &mask);
    assert_eq!(across.steps, vec![mapidx(1, 2), mapidx(2, 2), mapidx(2, 1), mapidx(2, 0)]);
}
