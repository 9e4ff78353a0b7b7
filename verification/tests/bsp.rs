use gridgen::bsp::{
    apply_horizontal_tunnel, apply_vertical_tunnel, sub_rect, RoomBuilder, ATTEMPTS,
};
use gridgen::graph::passable_mask;
use gridgen::grid::{mapidx, Glyph, Grid, MapGen, Point, CELLS, PURPLE, RED};
use gridgen::path::a_star_search;
use gridgen::rect::Rect;

#[test]
fn subrects_are_the_four_quarters() {
    let mut builder = RoomBuilder::new();
    builder.add_subrects(Rect::with_size(2, 2, 75, 45));
    assert_eq!(
        builder.rects,
        vec![
            Rect::with_exact(2, 2, 39, 24),
            Rect::with_exact(2, 24, 39, 46),
            Rect::with_exact(39, 2, 76, 24),
            Rect::with_exact(39, 24, 76, 46),
        ]
    );
}

#[test]
fn subrects_are_at_least_one_cell_each_way() {
    let mut builder = RoomBuilder::new();
    builder.rects.push(Rect::with_exact(0, 0, 9, 9));
    builder.add_subrects(Rect::with_exact(5, 5, 6, 5));
    assert_eq!(builder.rects.len(), 5);
    assert_eq!(builder.rects[0], Rect::with_exact(0, 0, 9, 9));
    assert_eq!(builder.rects[1], Rect::with_exact(5, 5, 6, 6));
    assert_eq!(builder.rects[2], Rect::with_exact(5, 6, 6, 7));
    assert_eq!(builder.rects[3], Rect::with_exact(6, 5, 7, 6));
    assert_eq!(builder.rects[4], Rect::with_exact(6, 6, 7, 7));
}

#[test]
fn subrects_of_a_flipped_rectangle() {
    let mut builder = RoomBuilder::new();
    builder.add_subrects(Rect::with_exact(10, 10, 4, 2));
    assert_eq!(builder.rects[0], Rect::with_exact(10, 10, 13, 14));
    assert_eq!(builder.rects[3], Rect::with_exact(13, 14, 16, 18));
}

#[test]
fn sub_rect_from_rolls() {
    let source = Rect::with_exact(10, 20, 40, 40);
    assert_eq!(sub_rect(source, 1, 1, 1, 1), Rect::with_exact(10, 20, 13, 23));
    assert_eq!(sub_rect(source, 2, 3, 1, 1), Rect::with_exact(10, 20, 13, 23));
    assert_eq!(sub_rect(source, 4, 5, 1, 1), Rect::with_exact(10, 20, 14, 25));
    assert_eq!(sub_rect(source, 10, 7, 6, 3), Rect::with_exact(15, 22, 25, 29));
}

#[test]
fn random_rect_of_a_pool_of_one() {
    let mut builder = RoomBuilder::new();
    builder.rects.push(Rect::with_exact(3, 3, 9, 9));
    let mut rng = bracket_lib::prelude::RandomNumberGenerator::seeded(1);
    for _ in 0..10 {
        assert_eq!(builder.get_random_rect(&mut rng), Rect::with_exact(3, 3, 9, 9));
    }
}

#[test]
fn random_rect_comes_from_the_pool() {
    let mut builder = RoomBuilder::new();
    builder.add_subrects(Rect::with_size(2, 2, 75, 45));
    let mut rng = bracket_lib::prelude::RandomNumberGenerator::seeded(1);
    let mut seen = Vec::new();
    for _ in 0..200 {
        let rect = builder.get_random_rect(&mut rng);
        assert!(builder.rects.contains(&rect));
        if !seen.contains(&rect) {
            seen.push(rect);
        }
    }
    assert_eq!(seen.len(), 4);
}

#[test]
fn random_sub_rect_stays_in_range() {
    let builder = RoomBuilder::new();
    let mut rng = bracket_lib::prelude::RandomNumberGenerator::seeded(2);
    let source = Rect::with_exact(10, 20, 40, 26);
    let mut widths = Vec::new();
    let mut heights = Vec::new();
    for _ in 0..500 {
        let r = builder.get_random_sub_rect(source, &mut rng);
        assert!((10..16).contains(&r.x1));
        assert!((20..26).contains(&r.y1));
        assert!((3..=10).contains(&(r.x2 - r.x1)));
        assert!((3..=6).contains(&(r.y2 - r.y1)));
        widths.push(r.x2 - r.x1);
        heights.push(r.y2 - r.y1);
    }
    assert!(widths.contains(&3) && widths.contains(&4) && widths.contains(&10));
    assert!(heights.contains(&3) && heights.contains(&6));
}

#[test]
fn is_possible_needs_room_and_floor() {
    let builder = RoomBuilder::new();
    let mut map = Grid::new();
    assert!(builder.is_possible(Rect::with_exact(3, 3, 8, 8), &map));
    assert!(builder.is_possible(Rect::with_exact(2, 3, 8, 8), &map));
    assert!(builder.is_possible(Rect::with_exact(3, 2, 8, 8), &map));
    assert!(builder.is_possible(Rect::with_exact(2, 2, 5, 5), &map));
    assert!(!builder.is_possible(Rect::with_exact(1, 2, 5, 5), &map));
    assert!(!builder.is_possible(Rect::with_exact(2, 1, 5, 5), &map));
    assert!(builder.is_possible(Rect::with_exact(70, 40, 76, 46), &map));
    assert!(builder.is_possible(Rect::with_exact(70, 40, 77, 46), &map));
    assert!(builder.is_possible(Rect::with_exact(70, 40, 76, 47), &map));
    assert!(builder.is_possible(Rect::with_exact(70, 40, 77, 47), &map));
    assert!(!builder.is_possible(Rect::with_exact(70, 40, 78, 47), &map));
    assert!(!builder.is_possible(Rect::with_exact(70, 40, 77, 48), &map));
    assert!(!builder.is_possible(Rect::with_exact(-100, -100, 500, 500), &map));

    map.set(Point::new(10, 10), Glyph::Wall, RED);
    assert!(!builder.is_possible(Rect::with_exact(11, 11, 15, 15), &map));
    assert!(!builder.is_possible(Rect::with_exact(12, 12, 15, 15), &map));
    assert!(builder.is_possible(Rect::with_exact(13, 12, 15, 15), &map));
    assert!(!builder.is_possible(Rect::with_exact(4, 4, 8, 8), &map));
    assert!(builder.is_possible(Rect::with_exact(4, 4, 7, 8), &map));
}

#[test]
fn is_possible_on_an_empty_range() {
    let builder = RoomBuilder::new();
    let map = Grid::new();
    assert!(builder.is_possible(Rect::with_exact(20, 20, 10, 30), &map));
}

#[test]
fn bsp_build_frames() {
    let mut builder = RoomBuilder::seeded(4);
    let frames = builder.build();
    let rooms = builder.rooms.len();
    assert!(rooms >= 2);
    assert!(rooms <= ATTEMPTS);
    assert_eq!(frames.len(), 5 + rooms + 1 + (rooms - 1));
    for (grid, _) in frames.iter() {
        assert_eq!(grid.tiles.len(), CELLS);
    }
    for k in 0..5 {
        assert_eq!(frames[k].1, "Subdivide Starting Room");
    }
    for k in 5..5 + rooms {
        assert_eq!(frames[k].1, "Add Room");
    }
    assert_eq!(frames[5 + rooms].1, "Sort Rooms");
    assert_eq!(frames[5 + rooms + 1].1, "Corridor 1");
    assert_eq!(builder.rects.len(), 5 + 4 * rooms);
    assert_eq!(frames.last().unwrap().0.tiles, builder.map.tiles);
}

#[test]
fn bsp_rooms_keep_their_distance() {
    for seed in 0..5 {
        let mut builder = RoomBuilder::seeded(seed);
        builder.build();
        let rooms = &builder.rooms;
        for a in rooms.iter() {
            assert!(a.0.x1 >= 2 && a.0.x2 <= 77 && a.0.y1 >= 2 && a.0.y2 <= 47);
            assert!(a.0.x2 - a.0.x1 >= 3 && a.0.y2 - a.0.y1 >= 3);
            for b in rooms.iter() {
                if a.1 < b.1 {
                    let apart = a.0.x2 <= b.0.x1 - 2
                        || a.0.x1 > b.0.x2 + 2
                        || a.0.y2 <= b.0.y1 - 2
                        || a.0.y1 > b.0.y2 + 2;
                    assert!(apart);
                }
            }
        }
        for pair in rooms.windows(2) {
            assert!(pair[0].0.x1 <= pair[1].0.x1);
        }
    }
}

#[test]
fn bsp_rooms_are_joined() {
    let mut builder = RoomBuilder::seeded(8);
    builder.build();
    let mask = passable_mask(&builder.map);
    for pair in builder.rooms.windows(2) {
        let a = pair[0].0.center();
        let b = pair[1].0.center();
        assert!(a_star_search(mapidx(a.x, a.y), mapidx(b.x, b.y), &mask).success);
    }
}

#[test]
fn bsp_build_is_repeatable_for_a_seed() {
    let a = RoomBuilder::seeded(21).build();
    let b = RoomBuilder::seeded(21).build();
    assert_eq!(a.len(), b.len());
    for (x, y) in a.iter().zip(b.iter()) {
        assert_eq!(x.0.tiles, y.0.tiles);
        assert_eq!(x.1, y.1);
    }
}

#[test]
fn bsp_tunnels_are_purple() {
    let mut map = Grid::new();
    apply_horizontal_tunnel(1, 3, 1, &mut map);
    apply_vertical_tunnel(1, 3, 5, &mut map);
    assert_eq!(map.tiles[mapidx(2, 1)], (Glyph::Wall, PURPLE));
    assert_eq!(map.tiles[mapidx(5, 2)], (Glyph::Wall, PURPLE));
    assert_eq!(map.count_glyph(Glyph::Wall), 6);
}

#[test]
fn pool_starts_with_one_rectangle_and_its_quarters() {
    let mut builder = RoomBuilder::new();
    builder.start_pool();
    assert_eq!(
        builder.rects,
        vec![
            Rect::with_exact(2, 2, 77, 47),
            Rect::with_exact(2, 2, 39, 24),
            Rect::with_exact(2, 24, 39, 46),
            Rect::with_exact(39, 2, 76, 24),
            Rect::with_exact(39, 24, 76, 46),
        ]
    );
    let mut frames = Vec::new();
    builder.show_pool(&mut frames);
    assert_eq!(frames.len(), 5);
    let mut expected = Grid::new();
    for (i, rect) in builder.rects.iter().enumerate() {
        expected.fill_rect(rect, Glyph::Wall, gridgen::grid::iteration_color(i));
        assert_eq!(frames[i].0.tiles, expected.tiles);
        assert_eq!(frames[i].1, "Subdivide Starting Room");
    }
}

#[test]
fn one_attempt_builds_a_room_or_changes_nothing() {
    let mut rng = bracket_lib::prelude::RandomNumberGenerator::seeded(5);
    let mut builder = RoomBuilder::new();
    builder.start_pool();
    let mut built = 0;
    for number in 0..60 {
        let rooms = builder.rooms.len();
        let pool = builder.rects.len();
        let before = builder.map.snapshot();
        if builder.carve_once(&mut rng, number, None) {
            built += 1;
            assert_eq!(builder.rooms.len(), rooms + 1);
            assert_eq!(builder.rects.len(), pool + 4);
            let (room, tag) = *builder.rooms.last().unwrap();
            assert_eq!(tag, number);
            assert!(builder.is_possible(room, &before));
            let mut expected = before.snapshot();
            expected.fill_rect(&room, Glyph::Wall, gridgen::grid::iteration_color(number % 12));
            assert_eq!(builder.map.tiles, expected.tiles);
        } else {
            assert_eq!(builder.rooms.len(), rooms);
            assert_eq!(builder.rects.len(), pool);
            assert_eq!(builder.map.tiles, before.tiles);
        }
    }
    assert!(built >= 2);
}

#[test]
fn accepted_rooms_are_shown_one_by_one() {
    let mut builder = RoomBuilder::seeded(4);
    let frames = builder.build();
    let mut by_attempt = builder.rooms.clone();
    by_attempt.sort_by_key(|r| r.1);
    let mut expected = Grid::new();
    for (k, (room, attempt)) in by_attempt.iter().enumerate() {
        expected.fill_rect(room, Glyph::Wall, gridgen::grid::iteration_color(attempt % 12));
        assert_eq!(frames[5 + k].0.tiles, expected.tiles);
    }
    let mut sorted = Grid::new();
    for (k, (room, _)) in builder.rooms.iter().enumerate() {
        sorted.fill_rect(room, Glyph::Wall, gridgen::grid::iteration_color(k));
    }
    assert_eq!(frames[5 + builder.rooms.len()].0.tiles, sorted.tiles);
}
