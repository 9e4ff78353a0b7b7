//! Fields of noise shown as water, grass and mountain.

use vstd::prelude::*;
use crate::grid::{Frame, Grid, MapGen};
use crate::noise::{all_sized, field_frames, shows_fields, Style};

verus! {

/// The generator that shows fields of noise as terrain.
///
/// The fields are sampled by the caller; see [`crate::noise`] for what a
/// sample is. After [`MapGen::build`], `map` holds the grid of the last
/// frame, if there is one.
pub struct RoomBuilder {
    /// The fields, one per frame.
    pub fields: Vec<Vec<i32>>,
    /// The titles of the frames.
    pub titles: Vec<String>,
    pub map: Grid,
}

impl RoomBuilder {
    /// A generator without fields: its run has no frames.
    pub fn new() -> (builder: Box<Self>)
        ensures
            builder.fields@.len() == 0,
            builder.map.wf(),
    {
        Box::new(RoomBuilder { fields: Vec::new(), titles: Vec::new(), map: Grid::new() })
    }

    /// A generator that shows the given fields under the given titles.
    pub fn with_fields(fields: Vec<Vec<i32>>, titles: Vec<String>) -> (builder: Box<Self>)
        ensures
            builder.fields == fields,
            builder.titles == titles,
            builder.map.wf(),
    {
        Box::new(RoomBuilder { fields, titles, map: Grid::new() })
    }
}

impl MapGen for RoomBuilder {
    /// Nothing is prepared ahead of a run.
    fn setup(&mut self)
        ensures
            *final(self) == *old(self),
    {
    }

    /// One frame per field, each sample drawn as water, grass or mountain. Where a field
    /// does not hold a sample for every cell, there are no frames.
    fn build(&mut self) -> (frames: Vec<Frame>)
        ensures
            final(self).fields == old(self).fields,
            final(self).titles == old(self).titles,
            all_sized(old(self).fields@) ==> shows_fields(
                frames@,
                old(self).fields@,
                old(self).titles@,
                Style::Terrain,
            ),
            !all_sized(old(self).fields@) ==> frames@.len() == 0,
            frames@.len() > 0 ==> frames@[frames@.len() - 1].0@ == final(self).map@,
    {
        let frames: Vec<Frame> = field_frames(&self.fields, &self.titles, Style::Terrain);
        if frames.len() > 0 {
            self.map = frames[frames.len() - 1].0.snapshot();
        }
        frames
    }
}

} // verus!
