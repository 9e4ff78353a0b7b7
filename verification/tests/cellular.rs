use gridgen::cellular::{
    count_neighbors, grow_cave, grow_cave_with, iterate, iterate_with, next_tile, noise_tile,
    seed_noise, RoomBuilder, GENERATIONS,
};
use gridgen::grid::{
    mapidx, Glyph, Grid, MapGen, Point, CELLS, DARK_GRAY, GREEN, RED, YELLOW,
};

const AROUND: [(i32, i32); 8] =
    [(-1, -1), (0, -1), (1, -1), (-1, 0), (1, 0), (-1, 1), (0, 1), (1, 1)];

fn with_walls_around(center: Point, walls: usize) -> Grid {
    let mut grid = Grid::new();
    for (dx, dy) in AROUND.iter().take(walls) {
        grid.set(Point::new(center.x + dx, center.y + dy), Glyph::Wall, RED);
    }
    grid
}

#[test]
fn next_tile_thresholds() {
    assert_eq!(next_tile(0, GREEN), (Glyph::Floor, DARK_GRAY));
    for walls in 1..5 {
        assert_eq!(next_tile(walls, GREEN), (Glyph::Wall, GREEN));
    }
    for walls in 5..9 {
        assert_eq!(next_tile(walls, GREEN), (Glyph::Floor, DARK_GRAY));
    }
    assert_eq!(next_tile(3, YELLOW), (Glyph::Wall, YELLOW));
}

#[test]
fn count_neighbors_counts_walls_around() {
    let center = Point::new(10, 10);
    for walls in 0..=8 {
        let grid = with_walls_around(center, walls);
        assert_eq!(count_neighbors(&grid, 10, 10), walls);
    }
}

#[test]
fn count_neighbors_leaves_the_cell_itself_out() {
    let mut grid = Grid::new();
    grid.set(Point::new(10, 10), Glyph::Wall, RED);
    assert_eq!(count_neighbors(&grid, 10, 10), 0);
    assert_eq!(count_neighbors(&grid, 11, 11), 1);
    assert_eq!(count_neighbors(&grid, 12, 12), 0);
}

#[test]
fn count_neighbors_at_the_edges() {
    let mut grid = Grid::new();
    grid.clear(Glyph::Wall, RED);
    assert_eq!(count_neighbors(&grid, 0, 0), 3);
    assert_eq!(count_neighbors(&grid, 79, 49), 3);
    assert_eq!(count_neighbors(&grid, 40, 0), 5);
    assert_eq!(count_neighbors(&grid, 40, 25), 8);
    assert_eq!(count_neighbors(&grid, 80, 25), 3);
    assert_eq!(count_neighbors(&grid, 81, 25), 0);
    assert_eq!(count_neighbors(&grid, usize::MAX, usize::MAX), 0);
}

#[test]
fn crafted_neighbourhood_follows_the_rule() {
    let center = Point::new(10, 10);
    for walls in 0..=8 {
        for start_as_wall in [false, true] {
            let mut grid = with_walls_around(center, walls);
            if start_as_wall {
                grid.set(center, Glyph::Wall, RED);
            }
            iterate(&mut grid);
            let expected = if (1..=4).contains(&walls) {
                (Glyph::Wall, GREEN)
            } else {
                (Glyph::Floor, DARK_GRAY)
            };
            assert_eq!(grid.tiles[mapidx(10, 10)], expected);
        }
    }
}

#[test]
fn iterate_reads_the_generation_before() {
    // A row of three walls: every cell is judged by the row as it was.
    let mut grid = Grid::new();
    for x in 10..13 {
        grid.set(Point::new(x, 10), Glyph::Wall, RED);
    }
    let before = grid.snapshot();
    iterate(&mut grid);
    for y in 1..49 {
        for x in 1..79 {
            let walls = count_neighbors(&before, x, y);
            assert_eq!(grid.tiles[mapidx(x as i32, y as i32)], next_tile(walls, GREEN));
        }
    }
    assert_eq!(grid.tiles[mapidx(11, 10)], (Glyph::Wall, GREEN));
    assert_eq!(grid.tiles[mapidx(11, 9)], (Glyph::Wall, GREEN));
    assert_eq!(grid.tiles[mapidx(14, 10)], (Glyph::Floor, DARK_GRAY));
}

#[test]
fn iterate_leaves_the_border_alone() {
    let mut grid = Grid::new();
    grid.clear(Glyph::Wall, RED);
    iterate_with(&mut grid, YELLOW);
    for y in 0..50 {
        for x in 0..80 {
            let tile = grid.tiles[mapidx(x, y)];
            if x == 0 || x == 79 || y == 0 || y == 49 {
                assert_eq!(tile, (Glyph::Wall, RED));
            } else {
                assert_eq!(tile, (Glyph::Floor, DARK_GRAY));
            }
        }
    }
}

#[test]
fn noise_tile_splits_at_the_percentage() {
    assert_eq!(noise_tile(0, 55, GREEN), (Glyph::Wall, GREEN));
    assert_eq!(noise_tile(54, 55, GREEN), (Glyph::Wall, GREEN));
    assert_eq!(noise_tile(55, 55, GREEN), (Glyph::Floor, DARK_GRAY));
    assert_eq!(noise_tile(99, 55, GREEN), (Glyph::Floor, DARK_GRAY));
}

#[test]
fn cave_frames_follow_each_other() {
    let mut builder = RoomBuilder::seeded(11);
    let frames = builder.build();
    assert_eq!(frames.len(), GENERATIONS + 1);
    assert_eq!(frames[0].1, "Random Noise - 55% Walls");
    assert_eq!(frames[1].1, "Iteration 1");
    assert_eq!(frames[10].1, "Iteration 10");
    for k in 1..frames.len() {
        let mut next = frames[k - 1].0.snapshot();
        iterate(&mut next);
        assert_eq!(next.tiles, frames[k].0.tiles);
        assert_eq!(frames[k].0.tiles.len(), CELLS);
    }
    assert_eq!(frames[10].0.tiles, builder.map.tiles);
}

#[test]
fn cave_noise_is_roughly_half_walls() {
    let mut builder = RoomBuilder::seeded(5);
    let frames = builder.build();
    let walls = frames[0].0.count_glyph(Glyph::Wall);
    assert!(walls > CELLS * 45 / 100);
    assert!(walls < CELLS * 65 / 100);
    assert!(frames[0].0.tiles.iter().all(|t| *t == (Glyph::Wall, GREEN)
        || *t == (Glyph::Floor, DARK_GRAY)));
}

#[test]
fn cave_is_repeatable_for_a_seed() {
    let a = RoomBuilder::seeded(9).build();
    let b = RoomBuilder::seeded(9).build();
    let c = RoomBuilder::seeded(10).build();
    for (x, y) in a.iter().zip(b.iter()) {
        assert_eq!(x.0.tiles, y.0.tiles);
        assert_eq!(x.1, y.1);
    }
    assert_ne!(a[0].0.tiles, c[0].0.tiles);
}

#[test]
fn grown_caves_are_noise_after_generations() {
    let mut rng = bracket_lib::prelude::RandomNumberGenerator::seeded(3);
    let mut cave = Grid::new();
    grow_cave_with(&mut cave, &mut rng, 4, YELLOW);
    let mut rng = bracket_lib::prelude::RandomNumberGenerator::seeded(3);
    let mut expected = Grid::new();
    seed_noise(&mut expected, &mut rng, 55, YELLOW);
    for _ in 0..4 {
        iterate_with(&mut expected, YELLOW);
    }
    assert_eq!(cave.tiles, expected.tiles);

    let mut rng = bracket_lib::prelude::RandomNumberGenerator::seeded(3);
    let mut still = Grid::new();
    grow_cave(&mut still, &mut rng, 0);
    let walls = still.count_glyph(Glyph::Wall);
    assert!(walls > CELLS * 45 / 100 && walls < CELLS * 65 / 100);
    assert!(still.tiles.iter().all(|t| *t == (Glyph::Wall, GREEN)
        || *t == (Glyph::Floor, DARK_GRAY)));
}

#[test]
fn seed_noise_with_other_shares() {
    let mut rng = bracket_lib::prelude::RandomNumberGenerator::seeded(8);
    let mut none = Grid::new();
    seed_noise(&mut none, &mut rng, 0, GREEN);
    assert_eq!(none.count_glyph(Glyph::Wall), 0);
    let mut all = Grid::new();
    seed_noise(&mut all, &mut rng, 100, GREEN);
    assert_eq!(all.count_glyph(Glyph::Wall), CELLS);
}
