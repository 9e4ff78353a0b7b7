use gridgen::graph::passable_mask;
use gridgen::grid::{
    iteration_color, mapidx, Glyph, Grid, MapGen, Point, CELLS, DARK_GRAY, PURPLE, RED, WHITE,
};
use gridgen::path::a_star_search;
use gridgen::rect::Rect;
use gridgen::rooms::{
    add_room, apply_horizontal_tunnel, apply_vertical_tunnel, overlaps, paint_rooms, RoomBuilder,
    ATTEMPTS,
};
use gridgen::sorting::sort_rooms;
use gridgen::tunnel::connect;

#[test]
fn overlap_needs_a_gap_of_one_cell() {
    let rooms = vec![(Rect::with_exact(10, 10, 15, 15), 0)];
    assert!(overlaps(&rooms, &Rect::with_exact(12, 12, 13, 13)));
    assert!(overlaps(&rooms, &Rect::with_exact(16, 10, 20, 15)));
    assert!(overlaps(&rooms, &Rect::with_exact(5, 16, 9, 20)));
    assert!(!overlaps(&rooms, &Rect::with_exact(17, 10, 20, 15)));
    assert!(!overlaps(&rooms, &Rect::with_exact(10, 17, 15, 20)));
    assert!(!overlaps(&Vec::new(), &Rect::with_exact(10, 10, 15, 15)));
}

#[test]
fn overlap_at_the_ends_of_the_range() {
    let rooms = vec![(Rect::with_exact(i32::MIN, i32::MIN, i32::MAX, i32::MAX), 0)];
    assert!(overlaps(&rooms, &Rect::with_exact(0, 0, 1, 1)));
}

#[test]
fn add_room_accepts_and_rejects() {
    let mut map = Grid::new();
    let mut rooms = Vec::new();
    assert!(add_room(&mut map, &mut rooms, Rect::with_size(5, 5, 3, 3)));
    assert_eq!(rooms, vec![(Rect::with_size(5, 5, 3, 3), 0)]);
    assert_eq!(map.count_glyph(Glyph::Wall), 9);
    assert_eq!(map.tiles[mapidx(5, 5)], (Glyph::Wall, WHITE));

    let before = map.snapshot();
    assert!(!add_room(&mut map, &mut rooms, Rect::with_size(7, 7, 3, 3)));
    assert_eq!(rooms.len(), 1);
    assert_eq!(map.tiles, before.tiles);

    assert!(add_room(&mut map, &mut rooms, Rect::with_size(20, 5, 2, 2)));
    assert_eq!(rooms[1], (Rect::with_size(20, 5, 2, 2), 1));
    assert_eq!(map.tiles[mapidx(20, 5)], (Glyph::Wall, iteration_color(1)));
}

#[test]
fn sort_is_by_x1_and_stable() {
    let a = (Rect::with_exact(5, 0, 6, 1), 0);
    let b = (Rect::with_exact(2, 9, 3, 10), 1);
    let c = (Rect::with_exact(5, 3, 9, 4), 2);
    let d = (Rect::with_exact(1, 1, 2, 2), 3);
    let e = (Rect::with_exact(2, 0, 8, 8), 4);
    let mut rooms = vec![a, b, c, d, e];
    sort_rooms(&mut rooms);
    assert_eq!(rooms, vec![d, b, e, a, c]);

    let mut none: Vec<(Rect, usize)> = Vec::new();
    sort_rooms(&mut none);
    assert!(none.is_empty());
    let mut one = vec![a];
    sort_rooms(&mut one);
    assert_eq!(one, vec![a]);
}

#[test]
fn paint_rooms_uses_the_room_number() {
    let mut map = Grid::new();
    let rooms = vec![(Rect::with_size(1, 1, 2, 2), 3), (Rect::with_size(10, 10, 2, 2), 0)];
    paint_rooms(&mut map, &rooms);
    assert_eq!(map.tiles[mapidx(1, 1)], (Glyph::Wall, iteration_color(3)));
    assert_eq!(map.tiles[mapidx(11, 11)], (Glyph::Wall, iteration_color(0)));
    assert_eq!(map.count_glyph(Glyph::Wall), 8);
}

#[test]
fn horizontal_tunnel_runs_both_ways() {
    let mut map = Grid::new();
    apply_horizontal_tunnel(7, 3, 4, &mut map);
    for x in 0..80 {
        let expected =
            if (3..=7).contains(&x) { (Glyph::Wall, PURPLE) } else { (Glyph::Floor, DARK_GRAY) };
        assert_eq!(map.tiles[mapidx(x, 4)], expected);
    }
    assert_eq!(map.count_glyph(Glyph::Wall), 5);
    let mut other = Grid::new();
    apply_horizontal_tunnel(3, 7, 4, &mut other);
    assert_eq!(map.tiles, other.tiles);
}

#[test]
fn vertical_tunnel_runs_both_ways() {
    let mut map = Grid::new();
    apply_vertical_tunnel(9, 6, 2, &mut map);
    for y in 0..50 {
        let expected =
            if (6..=9).contains(&y) { (Glyph::Wall, PURPLE) } else { (Glyph::Floor, DARK_GRAY) };
        assert_eq!(map.tiles[mapidx(2, y)], expected);
    }
    assert_eq!(map.count_glyph(Glyph::Wall), 4);
}

#[test]
fn tunnels_skip_what_lies_outside() {
    let mut map = Grid::new();
    apply_horizontal_tunnel(-10, 200, 0, &mut map);
    assert_eq!(map.count_glyph(Glyph::Wall), 80);
    apply_horizontal_tunnel(0, 79, 50, &mut map);
    apply_horizontal_tunnel(0, 79, -1, &mut map);
    apply_vertical_tunnel(0, 49, 80, &mut map);
    apply_vertical_tunnel(i32::MIN, i32::MAX, -1, &mut map);
    assert_eq!(map.count_glyph(Glyph::Wall), 80);
    apply_vertical_tunnel(i32::MIN, i32::MAX, 79, &mut map);
    assert_eq!(map.count_glyph(Glyph::Wall), 80 + 49);
    assert_eq!(map.tiles.len(), CELLS);
}

#[test]
fn tunnel_overwrites_what_was_there() {
    let mut map = Grid::new();
    map.set(Point::new(4, 4), Glyph::Actor, RED);
    apply_horizontal_tunnel(3, 5, 4, &mut map);
    assert_eq!(map.tiles[mapidx(4, 4)], (Glyph::Wall, PURPLE));
}

#[test]
fn connect_horizontal_first_turns_at_the_far_column() {
    let mut map = Grid::new();
    connect(Point::new(2, 2), Point::new(6, 5), true, PURPLE, &mut map);
    let mut expected = Grid::new();
    for x in 2..=6 {
        expected.set(Point::new(x, 2), Glyph::Wall, PURPLE);
    }
    for y in 2..=5 {
        expected.set(Point::new(6, y), Glyph::Wall, PURPLE);
    }
    assert_eq!(map.tiles, expected.tiles);
}

#[test]
fn connect_vertical_first_turns_at_the_far_row() {
    let mut map = Grid::new();
    connect(Point::new(2, 2), Point::new(6, 5), false, PURPLE, &mut map);
    let mut expected = Grid::new();
    for y in 2..=5 {
        expected.set(Point::new(2, y), Glyph::Wall, PURPLE);
    }
    for x in 2..=6 {
        expected.set(Point::new(x, 5), Glyph::Wall, PURPLE);
    }
    assert_eq!(map.tiles, expected.tiles);
}

#[test]
fn build_is_repeatable_for_a_seed() {
    let mut first = RoomBuilder::seeded(42);
    let mut second = RoomBuilder::seeded(42);
    let a = first.build();
    let b = second.build();
    assert_eq!(a.len(), b.len());
    for (x, y) in a.iter().zip(b.iter()) {
        assert_eq!(x.0.tiles, y.0.tiles);
        assert_eq!(x.1, y.1);
    }
    assert_eq!(first.rooms, second.rooms);
    let again = first.build();
    assert_eq!(again.len(), a.len());
    for (x, y) in a.iter().zip(again.iter()) {
        assert_eq!(x.0.tiles, y.0.tiles);
        assert_eq!(x.1, y.1);
    }
}

#[test]
fn build_depends_on_the_seed() {
    let mut layouts = Vec::new();
    for seed in 0..8 {
        let mut builder = RoomBuilder::seeded(seed);
        builder.build();
        layouts.push(builder.rooms.clone());
    }
    assert!(layouts.iter().any(|l| *l != layouts[0]));
    assert!(layouts.iter().any(|l| l.len() >= 2));
}

#[test]
fn build_frames_are_whole_grids() {
    let mut builder = RoomBuilder::seeded(7);
    let frames = builder.build();
    let corridors = builder.rooms.len().max(1) - 1;
    assert_eq!(frames.len(), ATTEMPTS + 1 + corridors);
    for (grid, _) in frames.iter() {
        assert_eq!(grid.tiles.len(), CELLS);
    }
    assert_eq!(frames.last().unwrap().0.tiles, builder.map.tiles);
}

#[test]
fn build_labels() {
    let mut builder = RoomBuilder::seeded(3);
    let frames = builder.build();
    assert_eq!(frames[0].1, "Add room 1");
    assert_eq!(frames[ATTEMPTS].1, "Sort Rooms");
    let mut accepted = 0;
    for (_, label) in frames.iter().take(ATTEMPTS) {
        if label == "Discard Frame" {
            continue;
        }
        accepted += 1;
        assert_eq!(*label, format!("Add room {}", accepted));
    }
    assert_eq!(accepted, builder.rooms.len());
    for (i, (_, label)) in frames.iter().skip(ATTEMPTS + 1).enumerate() {
        assert_eq!(*label, format!("Corridor {}", i + 1));
    }
}

#[test]
fn built_rooms_keep_apart() {
    for seed in 0..20 {
        let mut builder = RoomBuilder::seeded(seed);
        builder.build();
        let rooms = &builder.rooms;
        for i in 0..rooms.len() {
            for j in 0..rooms.len() {
                if i != j {
                    assert!(!rooms[i].0.grown(1).intersect(&rooms[j].0));
                }
            }
        }
        for pair in rooms.windows(2) {
            assert!(pair[0].0.x1 <= pair[1].0.x1);
        }
    }
}

#[test]
fn built_rooms_are_joined() {
    for seed in 0..20 {
        let mut builder = RoomBuilder::seeded(seed);
        builder.build();
        let mask = passable_mask(&builder.map);
        for pair in builder.rooms.windows(2) {
            let a = pair[0].0.center();
            let b = pair[1].0.center();
            let path = a_star_search(mapidx(a.x, a.y), mapidx(b.x, b.y), &mask);
            assert!(path.success);
        }
    }
}

#[test]
fn discard_frames_mark_the_candidate() {
    let mut found = false;
    for seed in 0..20 {
        let mut builder = RoomBuilder::seeded(seed);
        let frames = builder.build();
        for k in 1..ATTEMPTS {
            if frames[k].1 == "Discard Frame" {
                found = true;
                let marked =
                    frames[k].0.tiles.iter().filter(|t| **t == (Glyph::Discard, RED)).count();
                assert!(marked >= 4);
                for (a, b) in frames[k].0.tiles.iter().zip(frames[k - 1].0.tiles.iter()) {
                    if frames[k - 1].1 != "Discard Frame" {
                        assert!(a == b || *a == (Glyph::Discard, RED));
                    }
                }
            }
        }
    }
    assert!(found);
}

#[test]
fn seed_forty_two_gives_the_known_layout() {
    let expected = vec![
        (Rect::with_exact(7, 19, 11, 23), 9),
        (Rect::with_exact(13, 37, 21, 39), 0),
        (Rect::with_exact(20, 18, 24, 23), 12),
        (Rect::with_exact(30, 21, 36, 25), 2),
        (Rect::with_exact(33, 9, 37, 12), 11),
        (Rect::with_exact(39, 35, 43, 40), 10),
        (Rect::with_exact(41, 12, 48, 20), 7),
        (Rect::with_exact(42, 2, 49, 5), 1),
        (Rect::with_exact(50, 36, 59, 44), 5),
        (Rect::with_exact(51, 25, 59, 30), 4),
        (Rect::with_exact(51, 10, 57, 17), 6),
        (Rect::with_exact(60, 18, 64, 20), 3),
        (Rect::with_exact(63, 7, 72, 13), 8),
    ];
    for _ in 0..3 {
        let mut builder = RoomBuilder::seeded(42);
        let frames = builder.build();
        assert_eq!(builder.rooms, expected);
        assert_eq!(frames.len(), 33);
        let walls = builder.map.cells_with_glyph(Glyph::Wall);
        assert_eq!(walls.len(), 539);
        assert_eq!(walls.iter().sum::<usize>(), 972676);
    }
}

#[test]
fn unseeded_build_is_a_whole_run() {
    let mut builder = RoomBuilder::new();
    assert_eq!(builder.seed, None);
    let frames = builder.build();
    assert!(!builder.rooms.is_empty());
    assert_eq!(frames.len(), ATTEMPTS + builder.rooms.len());
    for (grid, _) in frames.iter() {
        assert_eq!(grid.tiles.len(), CELLS);
    }
}
