use gridgen::combination::{combine, PREFAB, PREFAB_WIDTH};
use gridgen::distance::{flood, UNREACHABLE};
use gridgen::ending_right::{connect_cave, mark_ends};
use gridgen::graph::passable_mask;
use gridgen::grid::{
    mapidx, Glyph, Grid, MapGen, Point, CELLS, DARK_GRAY, GOLD, GRAY, GREEN, PURPLE, RED, YELLOW,
};
use gridgen::hot_rooms::{highlight, highlight_rooms, room_on_path};
use gridgen::path::a_star_search;
use gridgen::prefab::Prefab;
use gridgen::reach::{cull_unreachable, mark_path, mark_reachable, shade};
use gridgen::rect::Rect;

fn two_rooms() -> Grid {
    let mut grid = Grid::new();
    grid.fill_rect(&Rect::with_size(38, 23, 5, 5), Glyph::Wall, YELLOW);
    grid.fill_rect(&Rect::with_size(2, 2, 3, 3), Glyph::Wall, YELLOW);
    grid
}

#[test]
fn shade_fades_with_distance() {
    assert_eq!(shade(0), (0, 255, 0));
    assert_eq!(shade(1), (0, 253, 0));
    assert_eq!(shade(50), (0, 128, 0));
    assert_eq!(shade(99), (0, 3, 0));
    assert_eq!(shade(100), (0, 0, 0));
    assert_eq!(shade(1023), (0, 0, 0));
    assert_eq!(shade(u32::MAX), (0, 0, 0));
}

#[test]
fn mark_reachable_colours_walls_only() {
    let mut grid = two_rooms();
    let mask = passable_mask(&grid);
    let (dist, _) = flood(&vec![mapidx(40, 25)], &mask, 1024);
    mark_reachable(&mut grid, &dist);
    assert_eq!(grid.tiles[mapidx(40, 25)], (Glyph::Wall, (0, 255, 0)));
    assert_eq!(grid.tiles[mapidx(42, 27)], (Glyph::Wall, shade(4)));
    assert_eq!(grid.tiles[mapidx(3, 3)], (Glyph::Wall, RED));
    assert_eq!(grid.tiles[mapidx(0, 0)], (Glyph::Floor, DARK_GRAY));
    assert_eq!(grid.count_glyph(Glyph::Wall), 34);
}

#[test]
fn cull_removes_what_is_out_of_reach() {
    let mut grid = two_rooms();
    let mask = passable_mask(&grid);
    let (dist, _) = flood(&vec![mapidx(40, 25)], &mask, 1024);
    cull_unreachable(&mut grid, &dist);
    assert_eq!(grid.count_glyph(Glyph::Wall), 25);
    assert_eq!(grid.tiles[mapidx(3, 3)], (Glyph::Floor, DARK_GRAY));
    assert_eq!(grid.tiles[mapidx(40, 25)], (Glyph::Wall, YELLOW));
    assert_eq!(dist[mapidx(3, 3)], UNREACHABLE);
}

#[test]
fn connect_cave_leaves_one_piece() {
    let mut grid = two_rooms();
    grid.fill_rect(&Rect::with_size(60, 40, 4, 4), Glyph::Wall, YELLOW);
    let central = connect_cave(&mut grid).unwrap();
    assert_eq!(central, mapidx(40, 25));
    assert_eq!(grid.count_glyph(Glyph::Wall), 25);
    let mask = passable_mask(&grid);
    for cell in grid.cells_with_glyph(Glyph::Wall) {
        assert!(a_star_search(central, cell, &mask).success);
    }
    let mut empty = Grid::new();
    assert_eq!(connect_cave(&mut empty), None);
    assert_eq!(empty.count_glyph(Glyph::Floor), CELLS);
}

#[test]
fn mark_ends_draws_the_route() {
    let mut grid = Grid::new();
    grid.fill_rect(&Rect::with_size(5, 25, 70, 1), Glyph::Wall, YELLOW);
    let central = connect_cave(&mut grid).unwrap();
    let ends = mark_ends(&mut grid).unwrap();
    assert_eq!(ends.start, mapidx(5, 25));
    assert_eq!(ends.end, Some(mapidx(74, 25)));
    assert!(ends.found);
    let expected: Vec<usize> = (6..75).map(|x| mapidx(x, 25)).collect();
    assert_eq!(ends.steps, expected);
    assert_eq!(grid.tiles[mapidx(5, 25)], (Glyph::Actor, GOLD));
    assert_eq!(grid.tiles[mapidx(74, 25)], (Glyph::Exit, GOLD));
    assert_eq!(grid.tiles[mapidx(79, 25)], (Glyph::Discard, RED));
    for x in 6..74 {
        assert_eq!(grid.tiles[mapidx(x, 25)], (Glyph::Seed, PURPLE));
    }
}

#[test]
fn mark_ends_with_one_wall_or_none() {
    let mut grid = Grid::new();
    grid.set(Point::new(40, 25), Glyph::Wall, YELLOW);
    let ends = mark_ends(&mut grid).unwrap();
    assert_eq!(ends.start, mapidx(40, 25));
    assert_eq!(ends.end, None);
    assert!(!ends.found);
    assert!(ends.steps.is_empty());
    assert_eq!(grid.tiles[mapidx(40, 25)], (Glyph::Actor, GOLD));

    let mut empty = Grid::new();
    assert!(mark_ends(&mut empty).is_none());
    assert_eq!(empty.count_glyph(Glyph::Floor), CELLS);
}

#[test]
fn mark_path_skips_what_is_no_cell() {
    let mut grid = Grid::new();
    mark_path(&mut grid, &vec![3, 4, CELLS, usize::MAX, 5]);
    assert_eq!(grid.cells_with_glyph(Glyph::Seed), vec![3, 4, 5]);
    assert_eq!(grid.tiles[3], (Glyph::Seed, PURPLE));
    assert_eq!(grid.tiles.len(), CELLS);
}

#[test]
fn unreachable_build() {
    let mut builder = gridgen::unreachable::RoomBuilder::seeded(4);
    let frames = builder.build();
    let start = builder.start.unwrap();
    assert_eq!(frames.len(), 3);
    assert_eq!(frames[0].1, "Cellular Automata Map");
    assert_eq!(frames[1].1, "Central Open Point");
    assert_eq!(frames[2].1, "Mark Reachable/Unreachable");
    assert_eq!(frames[0].0.tiles[start].0, Glyph::Wall);
    assert_eq!(frames[1].0.tiles[start], (Glyph::Actor, GOLD));
    let mask = passable_mask(&frames[1].0);
    let (dist, _) = flood(&vec![start], &mask, 1024);
    let mut expected = frames[1].0.snapshot();
    mark_reachable(&mut expected, &dist);
    assert_eq!(frames[2].0.tiles, expected.tiles);
    for i in 0..CELLS {
        let tile = frames[2].0.tiles[i];
        if tile.0 == Glyph::Wall {
            let reached = a_star_search(start, i, &mask).success;
            assert_eq!(tile.1 == RED, !reached);
        }
    }
}

#[test]
fn ending_right_build() {
    for seed in 0..5 {
        let mut builder = gridgen::ending_right::RoomBuilder::seeded(seed);
        let frames = builder.build();
        assert_eq!(frames.len(), 1);
        assert_eq!(frames[0].1, " Exit by direction ");
        assert_eq!(frames[0].0.tiles, builder.map.tiles);
        let ends = builder.ends.as_ref().unwrap();
        let end = ends.end.unwrap();
        assert!(ends.found);
        assert!(!ends.steps.is_empty());
        assert_eq!(*ends.steps.last().unwrap(), end);
        assert_eq!(builder.map.tiles[ends.start], (Glyph::Actor, GOLD));
        assert_eq!(builder.map.tiles[end], (Glyph::Exit, GOLD));
        assert_eq!(builder.map.count_glyph(Glyph::Actor), 1);
        for step in ends.steps.iter().take(ends.steps.len() - 1) {
            assert_eq!(builder.map.tiles[*step], (Glyph::Seed, PURPLE));
        }
        // What is left of the cave hangs together.
        let mut mask = passable_mask(&builder.map);
        for step in ends.steps.iter() {
            mask[*step] = true;
        }
        mask[mapidx(79, 25)] = builder.map.tiles[mapidx(79, 25)].0 != Glyph::Discard
            || ends.steps.contains(&mapidx(79, 25))
            || end == mapidx(79, 25);
        for cell in builder.map.cells_with_glyph(Glyph::Wall) {
            assert!(a_star_search(ends.start, cell, &mask).success);
        }
    }
}

#[test]
fn room_on_path_counts_the_row_below() {
    let room = Rect::with_exact(10, 10, 14, 13);
    assert!(room_on_path(&room, &vec![mapidx(10, 10)]));
    assert!(room_on_path(&room, &vec![0, mapidx(13, 12)]));
    assert!(room_on_path(&room, &vec![mapidx(12, 13)]));
    assert!(!room_on_path(&room, &vec![mapidx(12, 14)]));
    assert!(!room_on_path(&room, &vec![mapidx(14, 11)]));
    assert!(!room_on_path(&room, &vec![mapidx(9, 11), mapidx(12, 9)]));
    assert!(!room_on_path(&room, &Vec::new()));
}

#[test]
fn highlight_spares_the_markers() {
    let mut grid = Grid::new();
    let room = Rect::with_size(10, 10, 3, 2);
    grid.fill_rect(&room, Glyph::Wall, GREEN);
    grid.set(Point::new(10, 10), Glyph::Actor, GOLD);
    grid.set(Point::new(11, 10), Glyph::Exit, GOLD);
    grid.set(Point::new(12, 10), Glyph::Seed, PURPLE);
    highlight(&mut grid, &room, YELLOW);
    assert_eq!(grid.tiles[mapidx(10, 10)], (Glyph::Actor, GOLD));
    assert_eq!(grid.tiles[mapidx(11, 10)], (Glyph::Exit, GOLD));
    assert_eq!(grid.tiles[mapidx(12, 10)], (Glyph::Wall, YELLOW));
    assert_eq!(grid.tiles[mapidx(10, 11)], (Glyph::Wall, YELLOW));
    assert_eq!(grid.tiles[mapidx(13, 10)], (Glyph::Floor, DARK_GRAY));
    assert_eq!(grid.count_glyph(Glyph::Wall), 4);
}

#[test]
fn highlight_rooms_by_the_route() {
    let mut grid = Grid::new();
    let rooms = vec![(Rect::with_size(2, 2, 3, 3), 0), (Rect::with_size(20, 2, 3, 3), 1)];
    highlight_rooms(&mut grid, &rooms, &vec![mapidx(3, 3)]);
    assert_eq!(grid.tiles[mapidx(2, 2)], (Glyph::Wall, YELLOW));
    assert_eq!(grid.tiles[mapidx(20, 2)], (Glyph::Wall, GRAY));
}

#[test]
fn hot_rooms_build() {
    let mut builder = gridgen::hot_rooms::RoomBuilder::seeded(12);
    let frames = builder.build();
    assert_eq!(frames.len(), 2);
    assert_eq!(frames[0].1, "Rooms with Start/End");
    assert_eq!(frames[1].1, "Important Rooms Highlighted");
    assert_eq!(frames[0].0.count_glyph(Glyph::Exit), 1);
    assert!(frames[0].0.tiles.iter().all(|t| t.0 != Glyph::Wall || t.1 == GREEN));
    assert!(!builder.steps.is_empty());
    let mut expected = frames[0].0.snapshot();
    highlight_rooms(&mut expected, &builder.rooms, &builder.steps);
    assert_eq!(frames[1].0.tiles, expected.tiles);
    let hot = builder.rooms.iter().filter(|r| room_on_path(&r.0, &builder.steps)).count();
    assert!(hot >= 1);
    for room in builder.rooms.iter() {
        let colour = if room_on_path(&room.0, &builder.steps) { YELLOW } else { GRAY };
        let c = room.0.center();
        let tile = frames[1].0.tiles[mapidx(c.x, c.y)];
        assert!(tile == (Glyph::Wall, colour) || tile.0 == Glyph::Actor || tile.0 == Glyph::Exit);
    }
}

#[test]
fn combine_takes_a_half_of_each() {
    let mut left = Grid::new();
    left.clear(Glyph::Wall, YELLOW);
    let right = Grid::new();
    let map = combine(&left, &right);
    for y in 0..50 {
        for x in 0..80 {
            let expected =
                if x < 40 { (Glyph::Wall, YELLOW) } else { (Glyph::Floor, DARK_GRAY) };
            assert_eq!(map.tiles[mapidx(x, y)], expected);
        }
    }
}

#[test]
fn combination_build() {
    let mut builder = gridgen::combination::RoomBuilder::seeded(2);
    let frames = builder.build();
    assert_eq!(frames.len(), 4);
    assert_eq!(frames[0].1, "Make some sub-division rooms");
    assert_eq!(frames[1].1, "Make a Cellular Automata Map");
    assert_eq!(frames[2].1, "Why Not Both?");
    assert_eq!(frames[3].1, "Just Add Prefab");
    assert_eq!(frames[2].0.tiles, combine(&frames[0].0, &frames[1].0).tiles);

    let prefab = Prefab::parse(PREFAB, PREFAB_WIDTH).unwrap();
    assert_eq!((prefab.width, prefab.height), (11, 50));
    for y in 0..50 {
        for x in 0..80 {
            let tile = frames[3].0.tiles[mapidx(x, y)];
            let cell = if (36..47).contains(&x) {
                prefab.cells[(y * 11 + (x - 36)) as usize]
            } else {
                ' '
            };
            match cell {
                '.' => assert_eq!(tile, (Glyph::Wall, YELLOW)),
                '#' => assert_eq!(tile, (Glyph::Floor, DARK_GRAY)),
                _ => assert_eq!(tile, frames[2].0.tiles[mapidx(x, y)]),
            }
        }
    }
    assert!(frames[0].0.tiles.iter().all(|t| *t == (Glyph::Wall, YELLOW)
        || *t == (Glyph::Floor, DARK_GRAY)));
}

#[test]
fn combination_layout_is_all_yellow() {
    let mut rng = bracket_lib::prelude::RandomNumberGenerator::seeded(2);
    let mut builder = gridgen::combination::RoomBuilder::seeded(2);
    builder.lay_out(&mut rng);
    assert!(builder.bsp.rooms.len() >= 2);
    assert_eq!(builder.bsp.rects.len(), 5 + 4 * builder.bsp.rooms.len());
    assert!(builder.bsp.map.tiles.iter().all(|t| *t == (Glyph::Wall, YELLOW)
        || *t == (Glyph::Floor, DARK_GRAY)));
    for room in builder.bsp.rooms.iter() {
        let c = room.0.center();
        assert_eq!(builder.bsp.map.tiles[mapidx(c.x, c.y)], (Glyph::Wall, YELLOW));
    }
    let frames = gridgen::combination::RoomBuilder::seeded(2).build();
    assert_eq!(frames[0].0.tiles, builder.bsp.map.tiles);
}
