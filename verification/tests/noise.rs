use gridgen::double_noise::Zoom;
use gridgen::grid::{Glyph, MapGen, CELLS};
use gridgen::noise::{
    channel, check_field, field_frames, layer, layer_fields, noise_grid, sample_tile, Style, UNIT,
};

#[test]
fn channel_is_clamped_and_in_proportion() {
    assert_eq!(UNIT, 1024);
    assert_eq!(channel(-5), 0);
    assert_eq!(channel(0), 0);
    assert_eq!(channel(1), 0);
    assert_eq!(channel(5), 1);
    assert_eq!(channel(512), 127);
    assert_eq!(channel(1023), 254);
    assert_eq!(channel(1024), 255);
    assert_eq!(channel(5000), 255);
    assert_eq!(channel(i64::MAX), 255);
    assert_eq!(channel(i64::MIN), 0);
}

#[test]
fn terrain_thresholds() {
    assert_eq!(sample_tile(-1024, Style::Terrain), (Glyph::Water, (0, 0, 0)));
    assert_eq!(sample_tile(-1, Style::Terrain), (Glyph::Water, (0, 0, 191)));
    assert_eq!(sample_tile(-512, Style::Terrain), (Glyph::Water, (0, 0, 63)));
    assert_eq!(sample_tile(0, Style::Terrain), (Glyph::Grass, (0, 63, 0)));
    assert_eq!(sample_tile(511, Style::Terrain), (Glyph::Grass, (0, 191, 0)));
    assert_eq!(sample_tile(512, Style::Terrain), (Glyph::Mountain, (127, 127, 127)));
    assert_eq!(sample_tile(1024, Style::Terrain), (Glyph::Mountain, (255, 255, 255)));
    assert_eq!(sample_tile(i32::MAX, Style::Terrain), (Glyph::Mountain, (255, 255, 255)));
    assert_eq!(sample_tile(i32::MIN, Style::Terrain), (Glyph::Water, (0, 0, 0)));
}

#[test]
fn flat_water_is_all_blue() {
    assert_eq!(sample_tile(-1, Style::FlatWater), (Glyph::Water, (0, 0, 255)));
    assert_eq!(sample_tile(-1024, Style::FlatWater), (Glyph::Water, (0, 0, 255)));
    assert_eq!(sample_tile(0, Style::FlatWater), (Glyph::Grass, (0, 63, 0)));
    assert_eq!(sample_tile(600, Style::FlatWater), (Glyph::Mountain, (149, 149, 149)));
}

#[test]
fn grey_runs_from_black_to_white() {
    assert_eq!(sample_tile(-1024, Style::Grey), (Glyph::Wall, (0, 0, 0)));
    assert_eq!(sample_tile(0, Style::Grey), (Glyph::Wall, (127, 127, 127)));
    assert_eq!(sample_tile(1024, Style::Grey), (Glyph::Wall, (255, 255, 255)));
    assert_eq!(sample_tile(-1023, Style::Grey), (Glyph::Wall, (0, 0, 0)));
    assert_eq!(sample_tile(-1000, Style::Grey), (Glyph::Wall, (2, 2, 2)));
    assert_eq!(sample_tile(-2000, Style::Grey), (Glyph::Wall, (0, 0, 0)));
    assert_eq!(sample_tile(i32::MIN, Style::Grey), (Glyph::Wall, (0, 0, 0)));
    assert_eq!(sample_tile(i32::MAX, Style::Grey), (Glyph::Wall, (255, 255, 255)));
}

#[test]
fn noise_grid_is_cell_by_cell() {
    let samples: Vec<i32> = (0..CELLS as i32).map(|i| i - 2000).collect();
    let map = noise_grid(&samples, Style::Terrain);
    assert_eq!(map.tiles.len(), CELLS);
    for i in 0..CELLS {
        assert_eq!(map.tiles[i], sample_tile(samples[i], Style::Terrain));
    }
    assert_eq!(map.count_glyph(Glyph::Water), 2000);
    assert_eq!(map.count_glyph(Glyph::Grass), 512);
    assert_eq!(map.count_glyph(Glyph::Mountain), CELLS - 2512);
}

#[test]
fn layer_weighs_and_adds() {
    // At full zoom the first field counts in full, and the second is taken
    // off by a quarter.
    assert_eq!(layer(1024, 1024, 1024), 1024 - 256);
    assert_eq!(layer(400, 0, 1024), 400);
    assert_eq!(layer(0, 400, 1024), -100);
    // At a zoom of a quarter the first counts by half, the second by a
    // quarter.
    assert_eq!(layer(1024, 1024, 256), 512 + 256);
    assert_eq!(layer(-1024, 1024, 256), -512 + 256);
    // At a zoom of six tenths the first counts by six tenths, the second by
    // three twentieths.
    assert_eq!(layer(1000, 1000, 614), (1000 * 614) / 1024 + (1000 * 154) / 1024);
    // Products are rounded down.
    assert_eq!(layer(-1, 0, 1024), -1);
    assert_eq!(layer(-1, 0, 512), -1);
    assert_eq!(layer(1, 0, 512), 0);
    assert_eq!(layer(4096, -4096, 4096), 16384 + 13312);
}

#[test]
fn check_field_bounds() {
    assert!(check_field(&vec![0; CELLS]));
    assert!(check_field(&vec![4096; CELLS]));
    assert!(check_field(&vec![-4096; CELLS]));
    assert!(!check_field(&vec![4097; CELLS]));
    assert!(!check_field(&vec![0; CELLS - 1]));
    assert!(!check_field(&Vec::new()));
    let mut one_off = vec![0; CELLS];
    one_off[CELLS - 1] = -4097;
    assert!(!check_field(&one_off));
}

#[test]
fn layer_fields_is_cell_by_cell() {
    let first: Vec<i32> = (0..CELLS as i32).map(|i| (i % 2048) - 1024).collect();
    let second: Vec<i32> = (0..CELLS as i32).map(|i| 1024 - (i % 2048)).collect();
    let layered = layer_fields(&first, &second, 300);
    assert_eq!(layered.len(), CELLS);
    for i in 0..CELLS {
        assert_eq!(layered[i], layer(first[i], second[i], 300));
    }
}

#[test]
fn field_frames_one_per_field() {
    let fields = vec![vec![-5; CELLS], vec![100; CELLS], vec![900; CELLS]];
    let titles = vec!["a".to_string(), "b".to_string()];
    let frames = field_frames(&fields, &titles, Style::Terrain);
    assert_eq!(frames.len(), 3);
    assert_eq!(frames[0].1, "a");
    assert_eq!(frames[1].1, "b");
    assert_eq!(frames[2].1, "");
    assert_eq!(frames[0].0.count_glyph(Glyph::Water), CELLS);
    assert_eq!(frames[1].0.count_glyph(Glyph::Grass), CELLS);
    assert_eq!(frames[2].0.count_glyph(Glyph::Mountain), CELLS);

    let broken = vec![vec![0; CELLS], vec![0; 3]];
    assert!(field_frames(&broken, &titles, Style::Terrain).is_empty());
    assert!(field_frames(&Vec::new(), &titles, Style::Grey).is_empty());
}

#[test]
fn perlin_build_is_grey() {
    let mut builder = gridgen::perlin::RoomBuilder::with_fields(
        vec![vec![0; CELLS], vec![1024; CELLS]],
        vec!["one".to_string(), "two".to_string()],
    );
    let frames = builder.build();
    assert_eq!(frames.len(), 2);
    assert!(frames[0].0.tiles.iter().all(|t| *t == (Glyph::Wall, (127, 127, 127))));
    assert!(frames[1].0.tiles.iter().all(|t| *t == (Glyph::Wall, (255, 255, 255))));
    assert_eq!(frames[1].1, "two");
    assert_eq!(builder.map.tiles, frames[1].0.tiles);
    assert!(gridgen::perlin::RoomBuilder::new().build().is_empty());
}

#[test]
fn overworld_and_zoom_builds_are_terrain() {
    let fields = vec![vec![-1; CELLS], vec![600; CELLS]];
    let titles = vec!["Seed: 0".to_string(), "Seed: 1".to_string()];
    let frames =
        gridgen::overworld::RoomBuilder::with_fields(fields.clone(), titles.clone()).build();
    assert_eq!(frames.len(), 2);
    assert!(frames[0].0.tiles.iter().all(|t| *t == (Glyph::Water, (0, 0, 191))));
    assert!(frames[1].0.tiles.iter().all(|t| *t == (Glyph::Mountain, (149, 149, 149))));
    assert_eq!(frames[0].1, "Seed: 0");
    let zoomed = gridgen::noisezoom::RoomBuilder::with_fields(fields, titles).build();
    assert_eq!(zoomed.len(), 2);
    assert_eq!(zoomed[0].0.tiles, frames[0].0.tiles);
    assert!(gridgen::overworld::RoomBuilder::new().build().is_empty());
    assert!(gridgen::noisezoom::RoomBuilder::new().build().is_empty());
}

#[test]
fn double_noise_build_layers_each_zoom() {
    let zooms = vec![
        Zoom { first: vec![1024; CELLS], second: vec![1024; CELLS], scale: 1024 },
        Zoom { first: vec![-1024; CELLS], second: vec![1024; CELLS], scale: 256 },
    ];
    assert!(zooms[0].check());
    let mut builder = gridgen::double_noise::RoomBuilder::with_zooms(
        zooms,
        vec!["Zoomed Out".to_string(), "Scale 0.25".to_string()],
    );
    let frames = builder.build();
    assert_eq!(frames.len(), 2);
    assert_eq!(frames[0].1, "Zoomed Out");
    assert!(frames[0].0.tiles.iter().all(|t| *t == sample_tile(768, Style::FlatWater)));
    assert!(frames[1].0.tiles.iter().all(|t| *t == (Glyph::Water, (0, 0, 255))));

    let bad = vec![Zoom { first: vec![0; CELLS], second: vec![0; CELLS], scale: -1 }];
    assert!(!bad[0].check());
    assert!(gridgen::double_noise::RoomBuilder::with_zooms(bad, Vec::new()).build().is_empty());
    assert!(gridgen::double_noise::RoomBuilder::new().build().is_empty());
}
