//! Terrain from a field of noise.
//!
//! A field holds one sample per cell. A sample is a fixed-point number:
//! [`UNIT`] stands for one, so that the samples of a field of noise lie
//! between `-UNIT` and `UNIT`.

use vstd::prelude::*;
use crate::frames::{record, recorded};
use crate::grid::{frames_wf, CELLS, Frame, Glyph, Grid, Tile};

verus! {

/// The sample that stands for one.
pub const UNIT: i32 = 1024;

/// How a sample is drawn.
#[derive(Clone, Copy, Debug, PartialEq, Eq, Structural)]
pub enum Style {
    /// A wall in the grey of the sample, black at `-UNIT` and white at `UNIT`.
    Grey,
    /// Water, grass or mountain; water the bluer the shallower.
    Terrain,
    /// Water, grass or mountain; all water in full blue.
    FlatWater,
}

/// The byte of a colour channel that stands for the fixed-point number `v`:
/// nothing at zero and below, all at [`UNIT`] and above, and in between in
/// proportion, rounded down.
pub open spec fn spec_channel(v: int) -> u8 {
    if v <= 0 {
        0u8
    } else if v >= UNIT {
        255u8
    } else {
        ((v * 255) / (UNIT as int)) as u8
    }
}

/// The byte of a colour channel that stands for the fixed-point number `v`.
pub fn channel(v: i64) -> (c: u8)
    ensures
        c == spec_channel(v as int),
{
    if v <= 0 {
        0
    } else if v >= UNIT as i64 {
        255
    } else {
        ((v * 255) / (UNIT as i64)) as u8
    }
}

/// The tile of a sample.
///
/// In grey: a wall whose three channels hold the sample, moved from
/// `-UNIT..UNIT` to `0..UNIT`. As terrain: below zero, water, whose blue holds
/// the sample and three quarters, or all of it where water is flat; below a
/// half, grass, whose green holds the sample and a quarter; from a half on,
/// mountain, whose three channels hold the sample.
pub open spec fn spec_sample_tile(sample: int, style: Style) -> Tile {
    if style == Style::Grey {
        let c = spec_channel((sample + UNIT) / 2);
        (Glyph::Wall, (c, c, c))
    } else if sample < 0 {
        if style == Style::FlatWater {
            (Glyph::Water, (0u8, 0u8, 255u8))
        } else {
            (Glyph::Water, (0u8, 0u8, spec_channel(sample + 3 * UNIT / 4)))
        }
    } else if sample < UNIT / 2 {
        (Glyph::Grass, (0u8, spec_channel(sample + UNIT / 4), 0u8))
    } else {
        let c = spec_channel(sample);
        (Glyph::Mountain, (c, c, c))
    }
}

/// The tile of a sample.
pub fn sample_tile(sample: i32, style: Style) -> (tile: Tile)
    ensures
        tile == spec_sample_tile(sample as int, style),
{
    let s: i64 = sample as i64;
    match style {
        Style::Grey => {
            let half: i64 = if s + UNIT as i64 >= 0 {
                (s + UNIT as i64) / 2
            } else {
                -((-(s + UNIT as i64) + 1) / 2)
            };
            let c: u8 = channel(half);
            (Glyph::Wall, (c, c, c))
        },
        _ => {
            if sample < 0 {
                match style {
                    Style::FlatWater => (Glyph::Water, (0, 0, 255)),
                    _ => (Glyph::Water, (0, 0, channel(s + 3 * UNIT as i64 / 4))),
                }
            } else if sample < UNIT / 2 {
                (Glyph::Grass, (0, channel(s + UNIT as i64 / 4), 0))
            } else {
                let c: u8 = channel(s);
                (Glyph::Mountain, (c, c, c))
            }
        },
    }
}

/// The tiles of a field.
pub open spec fn spec_noise_tiles(samples: Seq<i32>, style: Style) -> Seq<Tile> {
    Seq::new(CELLS as nat, |i: int| spec_sample_tile(samples[i] as int, style))
}

/// The grid that shows a field.
pub fn noise_grid(samples: &Vec<i32>, style: Style) -> (map: Grid)
    requires
        samples@.len() == CELLS,
    ensures
        map.wf(),
        map@ == spec_noise_tiles(samples@, style),
{
    let mut map: Grid = Grid::new();
    let mut i: usize = 0;
    while i < CELLS
        invariant
            i <= CELLS,
            map.wf(),
            samples@.len() == CELLS,
            forall|k: int| 0 <= k < i ==> map@[k] == spec_noise_tiles(samples@, style)[k],
        decreases CELLS - i,
    {
        let ghost before = map@;
        let tile: Tile = sample_tile(samples[i], style);
        map.tiles.set(i, tile);
        assert(map@ == before.update(i as int, tile));
        i += 1;
    }
    assert(map@ =~= spec_noise_tiles(samples@, style));
    map
}

/// Records the frame that shows a field under `title`.
pub fn noise_map(samples: &Vec<i32>, style: Style, title: String, frames: &mut Vec<Frame>)
    requires
        samples@.len() == CELLS,
        frames_wf(old(frames)@),
    ensures
        frames_wf(final(frames)@),
        recorded(old(frames)@, final(frames)@, spec_noise_tiles(samples@, style), title@),
{
    let map: Grid = noise_grid(samples, style);
    record(frames, &map, title);
}

/// The weight of the first field at a zoom of `scale`: the zoom, but at
/// least a half.
pub open spec fn spec_first_weight(scale: int) -> int {
    if scale > UNIT / 2 {
        scale
    } else {
        UNIT / 2
    }
}

/// The weight of the second field at a zoom of `scale`: three quarters less
/// the zoom, but at most a quarter.
pub open spec fn spec_second_weight(scale: int) -> int {
    if 3 * UNIT / 4 - scale < UNIT / 4 {
        3 * UNIT / 4 - scale
    } else {
        UNIT / 4
    }
}

/// The quotient of `a` by [`UNIT`], rounded down.
pub open spec fn spec_scale_down(a: int) -> int {
    a / (UNIT as int)
}

/// The sample that two samples give at a zoom of `scale`: each multiplied by
/// its weight, and the two products added.
pub open spec fn spec_layer(first: int, second: int, scale: int) -> int {
    spec_scale_down(first * spec_first_weight(scale)) + spec_scale_down(
        second * spec_second_weight(scale),
    )
}

/// The bounds within which [`layer`] works: samples between `-4 * UNIT` and
/// `4 * UNIT`, a zoom between nothing and `4 * UNIT`.
pub open spec fn can_layer(first: int, second: int, scale: int) -> bool {
    &&& -4 * UNIT <= first <= 4 * UNIT
    &&& -4 * UNIT <= second <= 4 * UNIT
    &&& 0 <= scale <= 4 * UNIT
}

/// `a / UNIT`, rounded down.
fn scale_down(a: i64) -> (q: i64)
    requires
        -0x1_0000_0000 <= a <= 0x1_0000_0000,
    ensures
        q == spec_scale_down(a as int),
{
    if a >= 0 {
        a / (UNIT as i64)
    } else {
        -((-a + (UNIT as i64 - 1)) / (UNIT as i64))
    }
}

/// The sample that two samples give at a zoom of `scale`.
pub fn layer(first: i32, second: i32, scale: i32) -> (sample: i32)
    requires
        can_layer(first as int, second as int, scale as int),
    ensures
        sample == spec_layer(first as int, second as int, scale as int),
{
    let w1: i64 = if scale > UNIT / 2 { scale as i64 } else { UNIT as i64 / 2 };
    let w2: i64 = if 3 * UNIT / 4 - scale < UNIT / 4 {
        (3 * UNIT / 4 - scale) as i64
    } else {
        UNIT as i64 / 4
    };
    assert(-0x1_0000_0000 <= first * w1 <= 0x1_0000_0000) by (nonlinear_arith)
        requires
            -4096 <= first <= 4096,
            512 <= w1 <= 4096,
    ;
    assert(-0x1_0000_0000 <= second * w2 <= 0x1_0000_0000) by (nonlinear_arith)
        requires
            -4096 <= second <= 4096,
            -4096 <= w2 <= 256,
    ;
    let a: i64 = scale_down(first as i64 * w1);
    let b: i64 = scale_down(second as i64 * w2);
    assert(-0x40_0000 <= a <= 0x40_0000 && -0x40_0000 <= b <= 0x40_0000);
    (a + b) as i32
}

/// The field that two fields give at a zoom of `scale`, cell by cell.
pub open spec fn spec_layer_fields(first: Seq<i32>, second: Seq<i32>, scale: int) -> Seq<i32> {
    Seq::new(CELLS as nat, |i: int| spec_layer(first[i] as int, second[i] as int, scale) as i32)
}

/// Whether every sample of the field lies between `-4 * UNIT` and
/// `4 * UNIT`.
pub open spec fn field_ok(samples: Seq<i32>) -> bool {
    &&& samples.len() == CELLS
    &&& forall|i: int| 0 <= i < CELLS ==> -4 * UNIT <= #[trigger] samples[i] <= 4 * UNIT
}

/// Whether every sample of the field lies between `-4 * UNIT` and
/// `4 * UNIT`.
pub fn check_field(samples: &Vec<i32>) -> (ok: bool)
    ensures
        ok == field_ok(samples@),
{
    if samples.len() != CELLS {
        return false;
    }
    let mut i: usize = 0;
    while i < CELLS
        invariant
            i <= CELLS,
            samples@.len() == CELLS,
            forall|k: int| 0 <= k < i ==> -4 * UNIT <= #[trigger] samples@[k] <= 4 * UNIT,
        decreases CELLS - i,
    {
        if samples[i] < -4 * UNIT || samples[i] > 4 * UNIT {
            return false;
        }
        i += 1;
    }
    true
}

/// The field that two fields give at a zoom of `scale`, cell by cell.
pub fn layer_fields(first: &Vec<i32>, second: &Vec<i32>, scale: i32) -> (samples: Vec<i32>)
    requires
        field_ok(first@),
        field_ok(second@),
        0 <= scale <= 4 * UNIT,
    ensures
        samples@ == spec_layer_fields(first@, second@, scale as int),
        samples@.len() == CELLS,
{
    let mut samples: Vec<i32> = Vec::new();
    let mut i: usize = 0;
    while i < CELLS
        invariant
            i <= CELLS,
            field_ok(first@),
            field_ok(second@),
            0 <= scale <= 4 * UNIT,
            samples@.len() == i,
            forall|k: int|
                0 <= k < i ==> samples@[k] == spec_layer_fields(first@, second@, scale as int)[k],
        decreases CELLS - i,
    {
        samples.push(layer(first[i], second[i], scale));
        i += 1;
    }
    assert(samples@ =~= spec_layer_fields(first@, second@, scale as int));
    samples
}

/// Whether every field holds a sample for every cell.
pub open spec fn all_sized(fields: Seq<Vec<i32>>) -> bool {
    forall|k: int| 0 <= k < fields.len() ==> (#[trigger] fields[k])@.len() == CELLS
}

/// Whether every field holds a sample for every cell.
pub fn check_sizes(fields: &Vec<Vec<i32>>) -> (ok: bool)
    ensures
        ok == all_sized(fields@),
{
    let mut k: usize = 0;
    while k < fields.len()
        invariant
            k <= fields.len(),
            forall|j: int| 0 <= j < k ==> (#[trigger] fields@[j])@.len() == CELLS,
        decreases fields.len() - k,
    {
        if fields[k].len() != CELLS {
            return false;
        }
        k += 1;
    }
    true
}

/// The title of the `k`-th frame: the `k`-th of the titles, or nothing where
/// there are fewer.
pub open spec fn spec_title(titles: Seq<String>, k: int) -> Seq<char> {
    if 0 <= k < titles.len() {
        titles[k]@
    } else {
        Seq::empty()
    }
}

/// The title of the `k`-th frame.
pub fn title_of(titles: &Vec<String>, k: usize) -> (title: String)
    ensures
        title@ == spec_title(titles@, k as int),
{
    if k < titles.len() {
        titles[k].clone()
    } else {
        String::new()
    }
}

/// Whether `frames` shows the fields, one frame each and in their order,
/// under the titles.
pub open spec fn shows_fields(
    frames: Seq<Frame>,
    fields: Seq<Vec<i32>>,
    titles: Seq<String>,
    style: Style,
) -> bool {
    &&& frames.len() == fields.len()
    &&& forall|k: int|
        0 <= k < frames.len() ==> (#[trigger] frames[k]).0@ == spec_noise_tiles(fields[k]@, style)
            && frames[k].1@ == spec_title(titles, k)
}

/// The frames of a list of fields: one frame each, in their order. Where a
/// field does not hold a sample for every cell, there are no frames.
pub fn field_frames(fields: &Vec<Vec<i32>>, titles: &Vec<String>, style: Style) -> (frames: Vec<
    Frame,
>)
    ensures
        frames_wf(frames@),
        all_sized(fields@) ==> shows_fields(frames@, fields@, titles@, style),
        !all_sized(fields@) ==> frames@.len() == 0,
{
    let mut frames: Vec<Frame> = Vec::new();
    if !check_sizes(fields) {
        return frames;
    }
    let mut k: usize = 0;
    while k < fields.len()
        invariant
            k <= fields.len(),
            all_sized(fields@),
            frames_wf(frames@),
            frames@.len() == k,
            forall|j: int|
                0 <= j < k ==> (#[trigger] frames@[j]).0@ == spec_noise_tiles(fields@[j]@, style)
                    && frames@[j].1@ == spec_title(titles@, j),
        decreases fields.len() - k,
    {
        let ghost before = frames@;
        noise_map(&fields[k], style, title_of(titles, k), &mut frames);
        proof {
            assert forall|j: int| 0 <= j < k implies frames@[j] == before[j] by {
                assert(frames@.subrange(0, before.len() as int)[j] == before[j]);
            }
            assert forall|j: int| 0 <= j < k + 1 implies (#[trigger] frames@[j]).0@
                == spec_noise_tiles(fields@[j]@, style) && frames@[j].1@ == spec_title(titles@, j) by {
                if j < k {
                    assert(frames@[j] == before[j]);
                }
            }
        }
        k += 1;
    }
    frames
}

} // verus!
