use bracket_lib::prelude::RandomNumberGenerator;
use gridgen::dla::{dig, drift, drop_point, seed_cluster, stagger};
use gridgen::dla_erosion::erode;
use gridgen::rooms::rooms_and_corridors;
use gridgen::dla_symmetry::{approach, mirror};
use gridgen::drunkard::{delta, dig_again, drunk, MAX_STEPS, TARGET};
use gridgen::graph::passable_mask;
use gridgen::grid::{
    idx_point, mapidx, Glyph, Grid, MapGen, Point, CELLS, DARK_GRAY, GREEN, RED, YELLOW,
};
use gridgen::path::a_star_search;

fn touches_wall(grid: &Grid, p: Point) -> bool {
    for dy in -1..=1 {
        for dx in -1..=1 {
            if let Some(tile) = grid.get(Point::new(p.x + dx, p.y + dy)) {
                if tile.0 == Glyph::Wall {
                    return true;
                }
            }
        }
    }
    false
}

#[test]
fn delta_table() {
    assert_eq!(delta(0), Point::new(-1, 0));
    assert_eq!(delta(1), Point::new(1, 0));
    assert_eq!(delta(2), Point::new(0, -1));
    assert_eq!(delta(3), Point::new(0, 1));
    assert_eq!(delta(17), Point::new(0, 1));
}

#[test]
fn drunk_digs_a_walk_from_its_start() {
    for seed in 0..10 {
        let mut rng = RandomNumberGenerator::seeded(seed);
        let mut map = Grid::new();
        let start = Point::new(40, 25);
        drunk(&mut map, start, &mut rng);
        let dug = map.cells_with_glyph(Glyph::Wall);
        assert!(!dug.is_empty());
        assert!(dug.len() <= MAX_STEPS);
        assert!(dug.len() > 5);
        for cell in dug.iter() {
            assert_eq!(map.tiles[*cell], (Glyph::Wall, RED));
        }
        assert_eq!(map.count_glyph(Glyph::Floor) + dug.len(), CELLS);
        // What was dug hangs together, and touches the start.
        let mask = passable_mask(&map);
        for cell in dug.iter() {
            assert!(a_star_search(dug[0], *cell, &mask).success);
        }
        assert!(dug.iter().any(|c| {
            let p = idx_point(*c);
            (p.x - start.x).abs() + (p.y - start.y).abs() == 1
        }));
    }
}

#[test]
fn drunk_stops_when_it_leaves_the_grid() {
    let mut rng = RandomNumberGenerator::seeded(3);
    let mut map = Grid::new();
    drunk(&mut map, Point::new(500, 500), &mut rng);
    assert_eq!(map.count_glyph(Glyph::Wall), 0);
    let mut small = 0;
    for seed in 0..50 {
        let mut rng = RandomNumberGenerator::seeded(seed);
        let mut map = Grid::new();
        drunk(&mut map, Point::new(0, 0), &mut rng);
        if map.count_glyph(Glyph::Wall) < 3 {
            small += 1;
        }
    }
    assert!(small > 10);
}

#[test]
fn dig_again_recolours_and_digs_from_a_wall() {
    let mut rng = RandomNumberGenerator::seeded(5);
    let mut map = Grid::new();
    assert!(!dig_again(&mut map, &mut rng));
    assert_eq!(map.count_glyph(Glyph::Wall), 0);

    map.set(Point::new(40, 25), Glyph::Wall, RED);
    assert!(dig_again(&mut map, &mut rng));
    assert_eq!(map.tiles[mapidx(40, 25)].0, Glyph::Wall);
    let dug = map.cells_with_glyph(Glyph::Wall);
    assert!(dug.len() > 1);
    let mask = passable_mask(&map);
    for cell in dug.iter() {
        assert!(a_star_search(mapidx(40, 25), *cell, &mask).success);
    }
}

#[test]
fn drunkard_build_reaches_a_third() {
    let mut builder = gridgen::drunkard::RoomBuilder::seeded(1);
    let frames = builder.build();
    assert!(frames.len() >= 2);
    assert_eq!(frames[0].1, "Start Solid");
    assert_eq!(frames[1].1, "First Drunken Digger");
    assert_eq!(frames[2].1, "Drunken Digger 2");
    assert_eq!(frames[0].0.count_glyph(Glyph::Wall), 0);
    assert!(builder.map.count_glyph(Glyph::Wall) >= TARGET);
    assert!(frames[frames.len() - 2].0.count_glyph(Glyph::Wall) < TARGET);
    for k in 1..frames.len() {
        assert_eq!(frames[k].0.tiles.len(), CELLS);
        assert!(
            frames[k].0.count_glyph(Glyph::Wall) >= frames[k - 1].0.count_glyph(Glyph::Wall)
        );
    }
    let again = gridgen::drunkard::RoomBuilder::seeded(1).build();
    assert_eq!(frames.len(), again.len());
    assert_eq!(frames.last().unwrap().0.tiles, again.last().unwrap().0.tiles);
}

#[test]
fn stagger_keeps_two_cells_from_the_edges() {
    assert_eq!(stagger(Point::new(10, 10), 1), Point::new(9, 10));
    assert_eq!(stagger(Point::new(10, 10), 2), Point::new(11, 10));
    assert_eq!(stagger(Point::new(10, 10), 3), Point::new(10, 9));
    assert_eq!(stagger(Point::new(10, 10), 4), Point::new(10, 11));
    assert_eq!(stagger(Point::new(2, 10), 1), Point::new(2, 10));
    assert_eq!(stagger(Point::new(3, 10), 1), Point::new(2, 10));
    assert_eq!(stagger(Point::new(78, 10), 2), Point::new(78, 10));
    assert_eq!(stagger(Point::new(77, 10), 2), Point::new(78, 10));
    assert_eq!(stagger(Point::new(10, 2), 3), Point::new(10, 2));
    assert_eq!(stagger(Point::new(10, 48), 4), Point::new(10, 48));
    assert_eq!(stagger(Point::new(10, 47), 4), Point::new(10, 48));
}

#[test]
fn drop_points_lie_inside() {
    let mut rng = RandomNumberGenerator::seeded(7);
    let mut xs = Vec::new();
    let mut ys = Vec::new();
    for _ in 0..5000 {
        let p = drop_point(&mut rng);
        assert!((2..=78).contains(&p.x));
        assert!((2..=48).contains(&p.y));
        xs.push(p.x);
        ys.push(p.y);
    }
    assert!(xs.contains(&2) && xs.contains(&78));
    assert!(ys.contains(&2) && ys.contains(&48));
}

#[test]
fn seed_cluster_is_a_cross() {
    let mut map = Grid::new();
    seed_cluster(&mut map);
    assert_eq!(map.cells_with_glyph(Glyph::Wall), vec![
        mapidx(40, 24),
        mapidx(39, 25),
        mapidx(40, 25),
        mapidx(41, 25),
        mapidx(40, 26),
    ]);
    assert_eq!(map.tiles[mapidx(40, 25)], (Glyph::Wall, RED));
}

#[test]
fn drift_stops_on_other_ground() {
    let mut rng = RandomNumberGenerator::seeded(9);
    let mut map = Grid::new();
    seed_cluster(&mut map);
    let (end, stopped) = drift(&map, Glyph::Floor, Point::new(40, 25), &mut rng, 100);
    assert!(stopped);
    assert_eq!(end.pos, Point::new(40, 25));
    assert_eq!(end.prev, Point::new(40, 25));

    let (end, stopped) = drift(&map, Glyph::Floor, Point::new(30, 25), &mut rng, 0);
    assert!(!stopped);
    assert_eq!(end.pos, Point::new(30, 25));

    let (end, stopped) = drift(&map, Glyph::Floor, Point::new(38, 25), &mut rng, 1000000);
    assert!(stopped);
    assert_eq!(map.get(end.pos).unwrap().0, Glyph::Wall);
    assert_eq!(map.get(end.prev).unwrap().0, Glyph::Floor);
    assert_eq!((end.pos.x - end.prev.x).abs() + (end.pos.y - end.prev.y).abs(), 1);

    let (end, stopped) = drift(&map, Glyph::Floor, Point::new(-3, 7), &mut rng, 100);
    assert!(stopped);
    assert_eq!(end.pos, Point::new(-3, 7));
}

#[test]
fn dig_adds_one_wall_next_to_the_cluster() {
    let mut rng = RandomNumberGenerator::seeded(13);
    let mut map = Grid::new();
    seed_cluster(&mut map);
    for _ in 0..20 {
        let before = map.snapshot();
        dig(&mut map, &mut rng);
        let walls_before = before.count_glyph(Glyph::Wall);
        let walls = map.count_glyph(Glyph::Wall);
        assert!(walls == walls_before || walls == walls_before + 1);
        for i in 0..CELLS {
            if before.tiles[i].0 == Glyph::Floor && map.tiles[i].0 == Glyph::Wall {
                assert_eq!(map.tiles[i], (Glyph::Wall, RED));
                assert!(touches_wall(&before, idx_point(i)));
            } else if before.tiles[i].0 == Glyph::Wall {
                assert_eq!(map.tiles[i].0, Glyph::Wall);
            } else {
                assert_eq!(map.tiles[i], (Glyph::Floor, DARK_GRAY));
            }
        }
        assert!(map.tiles.iter().filter(|t| t.1 == RED).count() <= 1);
    }
}

#[test]
fn approach_walks_until_it_meets_a_wall() {
    let mut map = Grid::new();
    map.set(Point::new(5, 0), Glyph::Wall, RED);
    let path: Vec<Point> = (0..10).map(|x| Point::new(x, 0)).collect();
    let end = approach(&map, Point::new(0, 0), &path);
    assert_eq!(end.pos, Point::new(5, 0));
    assert_eq!(end.prev, Point::new(4, 0));

    let short: Vec<Point> = (0..3).map(|x| Point::new(x, 0)).collect();
    let end = approach(&map, Point::new(0, 0), &short);
    assert_eq!(end.pos, Point::new(2, 0));
    assert_eq!(end.prev, Point::new(1, 0));

    let end = approach(&map, Point::new(5, 0), &path);
    assert_eq!(end.pos, Point::new(5, 0));
    assert_eq!(end.prev, Point::new(5, 0));

    let end = approach(&map, Point::new(0, 0), &Vec::new());
    assert_eq!(end.pos, Point::new(0, 0));
}

#[test]
fn mirror_digs_on_both_sides() {
    let mut map = Grid::new();
    mirror(&mut map, Point::new(37, 10));
    assert_eq!(map.cells_with_glyph(Glyph::Wall), vec![mapidx(37, 10), mapidx(43, 10)]);
    mirror(&mut map, Point::new(45, 11));
    assert_eq!(map.tiles[mapidx(35, 11)], (Glyph::Wall, RED));
    assert_eq!(map.tiles[mapidx(45, 11)], (Glyph::Wall, RED));
    mirror(&mut map, Point::new(40, 12));
    assert_eq!(map.count_glyph(Glyph::Wall), 5);
    mirror(&mut map, Point::new(-50, 13));
    assert_eq!(map.count_glyph(Glyph::Wall), 5);
}

#[test]
fn mirrored_digging_follows_the_line_to_the_middle() {
    let mut rng = RandomNumberGenerator::seeded(17);
    let mut map = Grid::new();
    seed_cluster(&mut map);
    for _ in 0..200 {
        let before = map.snapshot();
        gridgen::dla_symmetry::dig(&mut map, &mut rng);
        let mut added = 0;
        for i in 0..CELLS {
            if before.tiles[i].0 == Glyph::Floor && map.tiles[i].0 == Glyph::Wall {
                added += 1;
                let p = idx_point(i);
                // The new wall, or its mirror image, lay next to the cluster.
                let image = Point::new(80 - p.x, p.y);
                assert!(touches_wall(&before, p) || touches_wall(&before, image));
                assert_eq!(map.tiles[mapidx(image.x, image.y)].0, Glyph::Wall);
            }
        }
        assert!(added <= 2);
    }
    assert!(map.count_glyph(Glyph::Wall) > 50);
}

#[test]
fn mirrored_build_is_symmetric() {
    let mut builder = gridgen::dla_symmetry::RoomBuilder::seeded(2);
    let frames = builder.build();
    assert_eq!(frames[0].1, "Starting Seed");
    assert_eq!(frames[1].1, "Iteration");
    assert!(builder.map.count_glyph(Glyph::Wall) >= gridgen::dla::TARGET);
    for y in 0..50 {
        for x in 1..80 {
            assert_eq!(
                builder.map.tiles[mapidx(x, y)].0,
                builder.map.tiles[mapidx(80 - x, y)].0
            );
        }
    }
    for (grid, _) in frames.iter() {
        assert_eq!(grid.tiles.len(), CELLS);
    }
}

#[test]
fn erode_adds_a_wall_at_the_rim() {
    let mut rng = RandomNumberGenerator::seeded(23);
    let mut map = Grid::new();
    let mut rooms = Vec::new();
    rooms_and_corridors(20, &mut rng, &mut map, &mut rooms);
    assert!(!rooms.is_empty());
    map.tint(Glyph::Wall, YELLOW);
    for _ in 0..50 {
        let before = map.snapshot();
        erode(&mut map, &mut rng);
        let mut added = 0;
        for i in 0..CELLS {
            if before.tiles[i].0 == Glyph::Floor && map.tiles[i].0 == Glyph::Wall {
                added += 1;
                assert_eq!(map.tiles[i], (Glyph::Wall, RED));
                let p = idx_point(i);
                let next_to_wall = [(1, 0), (-1, 0), (0, 1), (0, -1)].iter().any(|(dx, dy)| {
                    matches!(
                        before.get(Point::new(p.x + dx, p.y + dy)),
                        Some((Glyph::Wall, _))
                    )
                });
                assert!(next_to_wall);
            } else if before.tiles[i].0 == Glyph::Wall {
                assert_eq!(map.tiles[i].0, Glyph::Wall);
                assert_ne!(map.tiles[i].1, RED);
            }
        }
        assert_eq!(added, 1);
    }
    assert!(map.tiles.iter().any(|t| *t == (Glyph::Wall, GREEN)));
}

#[test]
fn erode_on_a_grid_without_walls_does_nothing() {
    let mut rng = RandomNumberGenerator::seeded(1);
    let mut map = Grid::new();
    erode(&mut map, &mut rng);
    assert_eq!(map.count_glyph(Glyph::Floor), CELLS);
}

#[test]
fn erosion_build_frames() {
    let mut builder = gridgen::dla_erosion::RoomBuilder::seeded(6);
    let frames = builder.build();
    assert_eq!(frames.len(), 501);
    assert_eq!(frames[0].1, "Start with a traditional set of rooms");
    assert_eq!(frames[1].1, "Iteration 0");
    assert_eq!(frames[500].1, "Iteration 499");
    assert!(frames[0].0.tiles.iter().all(|t| *t == (Glyph::Wall, YELLOW)
        || *t == (Glyph::Floor, DARK_GRAY)));
    let first = frames[0].0.count_glyph(Glyph::Wall);
    let last = frames[500].0.count_glyph(Glyph::Wall);
    assert_eq!(last, first + 500);
}
