use gridgen::grid::{
    idx_point, iteration_color, mapidx, Glyph, Grid, MapGen, Point, CELLS, DARK_GRAY, YELLOW,
};
use gridgen::nearest::{closest_seed, distance, nearest_cell, Metric};
use gridgen::voronoi::{
    boundary_map, membership, membership_map, paint_seeds, partition_frames, RoomBuilder, SEEDS,
};

#[test]
fn distances_by_metric() {
    let a = Point::new(1, 2);
    let b = Point::new(4, 6);
    assert_eq!(distance(Metric::Pythagoras, a, b), 25);
    assert_eq!(distance(Metric::Manhattan, a, b), 7);
    assert_eq!(distance(Metric::Chebyshev, a, b), 4);
    assert_eq!(distance(Metric::Pythagoras, b, a), 25);
    assert_eq!(distance(Metric::Manhattan, a, a), 0);
    assert_eq!(distance(Metric::Chebyshev, Point::new(0, 9), Point::new(3, 0)), 9);
}

#[test]
fn distances_at_the_ends_of_the_range() {
    let a = Point::new(i32::MIN, i32::MIN);
    let b = Point::new(i32::MAX, i32::MAX);
    let side: u128 = 4294967295;
    assert_eq!(distance(Metric::Pythagoras, a, b), 2 * side * side);
    assert_eq!(distance(Metric::Manhattan, a, b), 2 * side);
    assert_eq!(distance(Metric::Chebyshev, a, b), side);
}

#[test]
fn closest_seed_breaks_ties_by_order() {
    let seeds = vec![Point::new(0, 0), Point::new(10, 0), Point::new(0, 0)];
    assert_eq!(closest_seed(&seeds, Metric::Pythagoras, Point::new(5, 0)), 0);
    assert_eq!(closest_seed(&seeds, Metric::Pythagoras, Point::new(6, 0)), 1);
    assert_eq!(closest_seed(&seeds, Metric::Pythagoras, Point::new(0, 0)), 0);
    assert_eq!(closest_seed(&seeds, Metric::Manhattan, Point::new(5, 7)), 0);
    assert_eq!(closest_seed(&seeds, Metric::Chebyshev, Point::new(9, 9)), 0);
}

#[test]
fn metrics_disagree_where_they_should() {
    let seeds = vec![Point::new(0, 0), Point::new(6, 6)];
    let p = Point::new(7, 0);
    // 49 against 37 in a straight line; 7 against 7 along the axes.
    assert_eq!(closest_seed(&seeds, Metric::Pythagoras, p), 1);
    assert_eq!(closest_seed(&seeds, Metric::Manhattan, p), 0);
    assert_eq!(closest_seed(&seeds, Metric::Chebyshev, p), 1);
}

#[test]
fn membership_of_one_seed_is_all_zero() {
    let m = membership(&vec![Point::new(40, 25)], Metric::Pythagoras);
    assert_eq!(m.len(), CELLS);
    assert!(m.iter().all(|k| *k == 0));
}

#[test]
fn membership_is_the_nearest_seed_cell_by_cell() {
    let seeds = vec![Point::new(10, 10), Point::new(70, 40), Point::new(40, 5)];
    for metric in [Metric::Pythagoras, Metric::Manhattan, Metric::Chebyshev] {
        let m = membership(&seeds, metric);
        for i in 0..CELLS {
            let p = idx_point(i);
            let best = seeds.iter().map(|s| distance(metric, p, *s)).min().unwrap();
            assert_eq!(distance(metric, p, seeds[m[i]]), best);
            for j in 0..m[i] {
                assert!(distance(metric, p, seeds[j]) > best);
            }
        }
    }
}

#[test]
fn two_corner_seeds_switch_once_along_every_row_and_column() {
    let seeds = vec![Point::new(0, 0), Point::new(79, 49)];
    let m = membership(&seeds, Metric::Pythagoras);
    assert_eq!(m[mapidx(0, 0)], 0);
    assert_eq!(m[mapidx(79, 49)], 1);
    for y in 0..50 {
        let row: Vec<usize> = (0..80).map(|x| m[mapidx(x, y)]).collect();
        assert!(row.windows(2).all(|w| w[0] <= w[1]));
    }
    for x in 0..80 {
        let column: Vec<usize> = (0..50).map(|y| m[mapidx(x, y)]).collect();
        assert!(column.windows(2).all(|w| w[0] <= w[1]));
    }
    // Every cell belongs to the corner that is nearer; a cell as far from one
    // as from the other belongs to the first.
    for i in 0..CELLS {
        let p = idx_point(i);
        let d0 = p.x * p.x + p.y * p.y;
        let d1 = (79 - p.x) * (79 - p.x) + (49 - p.y) * (49 - p.y);
        assert_eq!(m[i], if d0 <= d1 { 0 } else { 1 });
    }
}

#[test]
fn two_corner_seeds_have_one_frontier() {
    let seeds = vec![Point::new(0, 0), Point::new(79, 49)];
    let m = membership(&seeds, Metric::Pythagoras);
    let map = boundary_map(&m);
    let frontier: Vec<usize> = map.cells_with_glyph(Glyph::Wall);
    assert!(!frontier.is_empty());
    // The frontier is one piece: every cell of it touches another, corners
    // counted in.
    for a in frontier.iter() {
        let pa = idx_point(*a);
        assert!(frontier.iter().any(|b| {
            let pb = idx_point(*b);
            a != b && (pa.x - pb.x).abs() <= 1 && (pa.y - pb.y).abs() <= 1
        }));
    }
    // It has at most two cells in any row.
    for y in 1..49 {
        let in_row = (1..79).filter(|x| map.tiles[mapidx(*x, y)].0 == Glyph::Wall).count();
        assert!(in_row <= 2);
    }
    // And each of its cells is about as far from one seed as from the other.
    for a in frontier.iter() {
        let p = idx_point(*a);
        let d0 = ((p.x * p.x + p.y * p.y) as f64).sqrt();
        let d1 = (((79 - p.x) * (79 - p.x) + (49 - p.y) * (49 - p.y)) as f64).sqrt();
        assert!((d0 - d1).abs() <= 2.0);
    }
}

#[test]
fn boundary_map_marks_changes_to_the_right_and_below() {
    let mut m = vec![0usize; CELLS];
    for y in 0..50 {
        for x in 40..80 {
            m[mapidx(x, y)] = 1;
        }
    }
    let map = boundary_map(&m);
    for y in 0..50 {
        for x in 0..80 {
            let expected = if x == 39 && y != 0 && y != 49 {
                (Glyph::Wall, YELLOW)
            } else {
                (Glyph::Floor, DARK_GRAY)
            };
            assert_eq!(map.tiles[mapidx(x, y)], expected);
        }
    }
}

#[test]
fn membership_map_colours_by_seed() {
    let mut m = vec![0usize; CELLS];
    m[5] = 3;
    m[6] = 20;
    let map = membership_map(&m);
    assert_eq!(map.tiles[0], (Glyph::Wall, iteration_color(0)));
    assert_eq!(map.tiles[5], (Glyph::Wall, iteration_color(3)));
    assert_eq!(map.tiles[6], (Glyph::Wall, iteration_color(20)));
}

#[test]
fn paint_seeds_marks_each_seed() {
    let mut map = Grid::new();
    let seeds = vec![Point::new(3, 3), Point::new(5, 9), Point::new(3, 3), Point::new(-1, 0)];
    paint_seeds(&mut map, &seeds);
    assert_eq!(map.tiles[mapidx(3, 3)], (Glyph::Seed, iteration_color(2)));
    assert_eq!(map.tiles[mapidx(5, 9)], (Glyph::Seed, iteration_color(1)));
    assert_eq!(map.count_glyph(Glyph::Seed), 2);
}

#[test]
fn partition_frames_of_given_seeds() {
    let seeds = vec![Point::new(10, 10), Point::new(60, 30)];
    let frames = partition_frames(&seeds);
    assert_eq!(frames.len(), 5);
    assert_eq!(frames[0].1, "Initial Seeds");
    assert_eq!(frames[1].1, "Closest Membership (Pythagoras)");
    assert_eq!(frames[2].1, "Closest Membership (Manhattan)");
    assert_eq!(frames[3].1, "Closest Membership (Chebyshev)");
    assert_eq!(frames[4].1, "Voronoi Boundary Walls");
    assert_eq!(frames[0].0.count_glyph(Glyph::Seed), 2);
    assert_eq!(
        frames[1].0.tiles,
        membership_map(&membership(&seeds, Metric::Pythagoras)).tiles
    );
    assert_eq!(
        frames[2].0.tiles,
        membership_map(&membership(&seeds, Metric::Manhattan)).tiles
    );
    assert_eq!(
        frames[3].0.tiles,
        membership_map(&membership(&seeds, Metric::Chebyshev)).tiles
    );
    assert_eq!(frames[4].0.tiles, boundary_map(&membership(&seeds, Metric::Pythagoras)).tiles);
}

#[test]
fn voronoi_build() {
    let mut builder = RoomBuilder::seeded(1);
    let frames = builder.build();
    assert_eq!(frames.len(), 5);
    assert_eq!(builder.seeds.len(), SEEDS);
    for s in builder.seeds.iter() {
        assert!(1 <= s.x && s.x < 79 && 1 <= s.y && s.y < 49);
    }
    assert!(builder.seeds.iter().any(|s| *s != builder.seeds[0]));
    for (grid, _) in frames.iter() {
        assert_eq!(grid.tiles.len(), CELLS);
    }
    let again = RoomBuilder::seeded(1).build();
    for (a, b) in frames.iter().zip(again.iter()) {
        assert_eq!(a.0.tiles, b.0.tiles);
    }
}

#[test]
fn nearest_cell_picks_the_lowest_index_among_equals() {
    let mut map = Grid::new();
    assert_eq!(nearest_cell(&map, Glyph::Wall, Point::new(40, 25)), None);
    map.set(Point::new(42, 25), Glyph::Wall, YELLOW);
    map.set(Point::new(38, 25), Glyph::Wall, YELLOW);
    map.set(Point::new(40, 27), Glyph::Wall, YELLOW);
    map.set(Point::new(40, 23), Glyph::Wall, YELLOW);
    map.set(Point::new(10, 10), Glyph::Wall, YELLOW);
    assert_eq!(nearest_cell(&map, Glyph::Wall, Point::new(40, 25)), Some(mapidx(40, 23)));
    assert_eq!(nearest_cell(&map, Glyph::Wall, Point::new(0, 0)), Some(mapidx(10, 10)));
    assert_eq!(nearest_cell(&map, Glyph::Wall, Point::new(41, 25)), Some(mapidx(42, 25)));
    assert_eq!(nearest_cell(&map, Glyph::Actor, Point::new(41, 25)), None);
    assert_eq!(
        nearest_cell(&map, Glyph::Wall, Point::new(i32::MAX, i32::MIN)),
        Some(mapidx(40, 23))
    );
    assert_eq!(nearest_cell(&map, Glyph::Wall, Point::new(i32::MAX, 25)), Some(mapidx(42, 25)));
}

#[test]
fn regions_lie_in_one_stretch_along_rows_and_columns() {
    let seeds = vec![
        Point::new(10, 10),
        Point::new(70, 40),
        Point::new(40, 5),
        Point::new(40, 45),
        Point::new(10, 10),
        Point::new(-30, 200),
    ];
    let m = membership(&seeds, Metric::Pythagoras);
    for y in 0..50 {
        for seed in 0..seeds.len() {
            let cells: Vec<i32> = (0..80).filter(|x| m[mapidx(*x, y)] == seed).collect();
            if let (Some(first), Some(last)) = (cells.first(), cells.last()) {
                assert_eq!(cells.len() as i32, last - first + 1);
            }
        }
    }
    for x in 0..80 {
        for seed in 0..seeds.len() {
            let cells: Vec<i32> = (0..50).filter(|y| m[mapidx(x, *y)] == seed).collect();
            if let (Some(first), Some(last)) = (cells.first(), cells.last()) {
                assert_eq!(cells.len() as i32, last - first + 1);
            }
        }
    }
    assert!(m.iter().all(|k| *k != 4));
}

#[test]
fn boundary_cells_are_nearly_as_far_from_the_seed_across() {
    let seeds = vec![Point::new(10, 10), Point::new(70, 40), Point::new(40, 5)];
    let m = membership(&seeds, Metric::Pythagoras);
    let square = |p: Point, s: Point| ((p.x - s.x) * (p.x - s.x) + (p.y - s.y) * (p.y - s.y)) as i64;
    let mut crossings = 0;
    for y in 1..49 {
        for x in 1..79 {
            let i = mapidx(x, y);
            let p = Point::new(x, y);
            let own = seeds[m[i]];
            let right = seeds[m[i + 1]];
            let below = seeds[m[i + 80]];
            let across = square(p, right) - square(p, own);
            assert!(0 <= across && across <= 2 * (right.x - own.x) as i64);
            let down = square(p, below) - square(p, own);
            assert!(0 <= down && down <= 2 * (below.y - own.y) as i64);
            if m[i] != m[i + 1] || m[i] != m[i + 80] {
                crossings += 1;
            }
        }
    }
    assert!(crossings > 0);
}
