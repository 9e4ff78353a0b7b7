//! Two fields of noise laid over each other and zoomed in step by step.

use vstd::prelude::*;
use crate::grid::{frames_wf, Frame, Grid, MapGen};
use crate::noise::{
    check_field, field_ok, layer_fields, noise_map, spec_layer_fields, spec_noise_tiles, spec_title,
    title_of, Style, UNIT,
};

verus! {

/// One zoom: the two fields sampled at it, and the zoom itself as a
/// fixed-point number.
pub struct Zoom {
    pub first: Vec<i32>,
    pub second: Vec<i32>,
    pub scale: i32,
}

impl Zoom {
    /// Whether the zoom can be layered: both fields hold a sample between
    /// `-4 * UNIT` and `4 * UNIT` for every cell, and the zoom lies between
    /// nothing and `4 * UNIT`.
    pub open spec fn wf(&self) -> bool {
        field_ok(self.first@) && field_ok(self.second@) && 0 <= self.scale <= 4 * UNIT
    }

    /// Whether the zoom can be layered.
    pub fn check(&self) -> (ok: bool)
        ensures
            ok == self.wf(),
    {
        check_field(&self.first) && check_field(&self.second) && 0 <= self.scale && self.scale <= 4
            * UNIT
    }
}

/// Whether every zoom can be layered.
pub open spec fn zooms_ok(zooms: Seq<Zoom>) -> bool {
    forall|k: int| 0 <= k < zooms.len() ==> (#[trigger] zooms[k]).wf()
}

/// Whether every zoom can be layered.
pub fn check_zooms(zooms: &Vec<Zoom>) -> (ok: bool)
    ensures
        ok == zooms_ok(zooms@),
{
    let mut k: usize = 0;
    while k < zooms.len()
        invariant
            k <= zooms.len(),
            forall|j: int| 0 <= j < k ==> (#[trigger] zooms@[j]).wf(),
        decreases zooms.len() - k,
    {
        if !zooms[k].check() {
            return false;
        }
        k += 1;
    }
    true
}

/// Whether `frames` shows the zooms, one frame each and in their order: the
/// two fields of a zoom layered at its scale, drawn as terrain with flat
/// water, under the title of its place.
pub open spec fn shows_zooms(frames: Seq<Frame>, zooms: Seq<Zoom>, titles: Seq<String>) -> bool {
    &&& frames.len() == zooms.len()
    &&& forall|k: int|
        0 <= k < frames.len() ==> (#[trigger] frames[k]).0@ == spec_noise_tiles(
            spec_layer_fields(zooms[k].first@, zooms[k].second@, zooms[k].scale as int),
            Style::FlatWater,
        ) && frames[k].1@ == spec_title(titles, k)
}

/// The frames of a row of zooms. Where a zoom cannot be layered, there are no
/// frames.
pub fn zoom_frames(zooms: &Vec<Zoom>, titles: &Vec<String>) -> (frames: Vec<Frame>)
    ensures
        frames_wf(frames@),
        zooms_ok(zooms@) ==> shows_zooms(frames@, zooms@, titles@),
        !zooms_ok(zooms@) ==> frames@.len() == 0,
{
    let mut frames: Vec<Frame> = Vec::new();
    if !check_zooms(zooms) {
        return frames;
    }
    let mut k: usize = 0;
    while k < zooms.len()
        invariant
            k <= zooms.len(),
            zooms_ok(zooms@),
            frames_wf(frames@),
            frames@.len() == k,
            forall|j: int|
                0 <= j < k ==> (#[trigger] frames@[j]).0@ == spec_noise_tiles(
                    spec_layer_fields(zooms@[j].first@, zooms@[j].second@, zooms@[j].scale as int),
                    Style::FlatWater,
                ) && frames@[j].1@ == spec_title(titles@, j),
        decreases zooms.len() - k,
    {
        let ghost before = frames@;
        let zoom: &Zoom = &zooms[k];
        assert(zoom.wf());
        let samples: Vec<i32> = layer_fields(&zoom.first, &zoom.second, zoom.scale);
        noise_map(&samples, Style::FlatWater, title_of(titles, k), &mut frames);
        proof {
            assert forall|j: int| 0 <= j < k implies frames@[j] == before[j] by {
                assert(frames@.subrange(0, before.len() as int)[j] == before[j]);
            }
            assert forall|j: int| 0 <= j < k + 1 implies (#[trigger] frames@[j]).0@
                == spec_noise_tiles(
                spec_layer_fields(zooms@[j].first@, zooms@[j].second@, zooms@[j].scale as int),
                Style::FlatWater,
            ) && frames@[j].1@ == spec_title(titles@, j) by {
                if j < k {
                    assert(frames@[j] == before[j]);
                }
            }
        }
        k += 1;
    }
    frames
}

/// The generator that shows two fields of noise laid over each other at a row
/// of zooms.
///
/// The fields are sampled by the caller; see [`crate::noise`] for what a
/// sample is. After [`MapGen::build`], `map` holds the grid of the last
/// frame, if there is one.
pub struct RoomBuilder {
    /// The zooms, one per frame.
    pub zooms: Vec<Zoom>,
    /// The titles of the frames.
    pub titles: Vec<String>,
    pub map: Grid,
}

impl RoomBuilder {
    /// A generator without zooms: its run has no frames.
    pub fn new() -> (builder: Box<Self>)
        ensures
            builder.zooms@.len() == 0,
            builder.map.wf(),
    {
        Box::new(RoomBuilder { zooms: Vec::new(), titles: Vec::new(), map: Grid::new() })
    }

    /// A generator that shows the given zooms under the given titles.
    pub fn with_zooms(zooms: Vec<Zoom>, titles: Vec<String>) -> (builder: Box<Self>)
        ensures
            builder.zooms == zooms,
            builder.titles == titles,
            builder.map.wf(),
    {
        Box::new(RoomBuilder { zooms, titles, map: Grid::new() })
    }
}

impl MapGen for RoomBuilder {
    /// Nothing is prepared ahead of a run.
    fn setup(&mut self)
        ensures
            *final(self) == *old(self),
    {
    }

    /// One frame per zoom; see [`shows_zooms`]. Where a zoom cannot be
    /// layered, there are no frames.
    fn build(&mut self) -> (frames: Vec<Frame>)
        ensures
            final(self).zooms == old(self).zooms,
            final(self).titles == old(self).titles,
            zooms_ok(old(self).zooms@) ==> shows_zooms(
                frames@,
                old(self).zooms@,
                old(self).titles@,
            ),
            !zooms_ok(old(self).zooms@) ==> frames@.len() == 0,
            frames@.len() > 0 ==> frames@[frames@.len() - 1].0@ == final(self).map@,
    {
        let frames: Vec<Frame> = zoom_frames(&self.zooms, &self.titles);
        if frames.len() > 0 {
            self.map = frames[frames.len() - 1].0.snapshot();
        }
        frames
    }
}

} // verus!
