//! Digging by random walks.

use vstd::prelude::*;
use bracket_lib::prelude::RandomNumberGenerator;
use crate::frames::{numbered_label, numbered_text, record};
use crate::grid::{
    blank_tiles, frames_wf, idx_point, spec_count_glyph, spec_in_bounds, spec_mapidx, spec_recolor,
    CELLS, Frame, GREEN, Glyph, Grid, HEIGHT, MapGen, Point, RED, Tile, WIDTH,
};
use crate::nearest::cell_point;
use crate::rng::{random_index, range, stream};

verus! {

/// The step that a draw of `0..4` stands for: left, right, up, and down for
/// anything else.
pub open spec fn spec_delta(dir: int) -> Point {
    if dir == 0 {
        Point { x: -1i32, y: 0 }
    } else if dir == 1 {
        Point { x: 1, y: 0 }
    } else if dir == 2 {
        Point { x: 0, y: -1i32 }
    } else {
        Point { x: 0, y: 1 }
    }
}

/// A walk in progress: the tiles, where the walker stands, and whether it is
/// still on the grid.
pub struct Walk {
    pub tiles: Seq<Tile>,
    pub x: int,
    pub y: int,
    pub alive: bool,
}

/// One step of a walk: the walker moves; where it lands on the grid, the cell
/// becomes a red wall; where it leaves the grid, the walk is over.
pub open spec fn spec_walk_step(w: Walk, dir: int) -> Walk {
    if !w.alive {
        w
    } else {
        let x = w.x + spec_delta(dir).x;
        let y = w.y + spec_delta(dir).y;
        if spec_in_bounds(x, y) {
            Walk { tiles: w.tiles.update(spec_mapidx(x, y), (Glyph::Wall, RED)), x, y, alive: true }
        } else {
            Walk { tiles: w.tiles, x, y, alive: false }
        }
    }
}

/// The walk that starts at `(x, y)` on `tiles` and takes the steps `dirs`.
pub open spec fn spec_walk(tiles: Seq<Tile>, x: int, y: int, dirs: Seq<int>) -> Walk
    decreases dirs.len(),
{
    if dirs.len() == 0 {
        Walk { tiles, x, y, alive: true }
    } else {
        spec_walk_step(spec_walk(tiles, x, y, dirs.drop_last()), dirs.last())
    }
}

/// The most steps that one walk takes.
pub const MAX_STEPS: usize = 201;

/// Whether a walker from `start` over `tiles` can take the steps `dirs`:
/// every step is a draw of `0..4`, and the walk ends after [`MAX_STEPS`]
/// steps, or earlier by leaving the grid.
pub open spec fn valid_walk(tiles: Seq<Tile>, start: Point, dirs: Seq<int>) -> bool {
    &&& dirs.len() <= MAX_STEPS
    &&& forall|k: int| 0 <= k < dirs.len() ==> 0 <= #[trigger] dirs[k] < 4
    &&& dirs.len() == MAX_STEPS || !spec_walk(tiles, start.x as int, start.y as int, dirs).alive
}

/// Whether `after` is what a walk from `start` over `before` leaves.
pub open spec fn dug_by_walk(before: Seq<Tile>, start: Point, after: Seq<Tile>) -> bool {
    exists|dirs: Seq<int>|
        valid_walk(before, start, dirs) && (#[trigger] spec_walk(
            before,
            start.x as int,
            start.y as int,
            dirs,
        )).tiles == after
}

/// The step that a draw of `0..4` stands for.
pub fn delta(dir: i32) -> (d: Point)
    ensures
        d == spec_delta(dir as int),
{
    match dir {
        0 => Point::new(-1, 0),
        1 => Point::new(1, 0),
        2 => Point::new(0, -1),
        _ => Point::new(0, 1),
    }
}

/// Lets a walker dig from `start`: every step goes one cell left, right, up
/// or down as the stream decides, and the cell that it lands on becomes a red
/// wall. The walk ends after [`MAX_STEPS`] steps, or when a step leaves the
/// grid.
pub fn drunk(map: &mut Grid, start: Point, rng: &mut RandomNumberGenerator)
    requires
        old(map).wf(),
        i32::MIN < start.x < i32::MAX,
        i32::MIN < start.y < i32::MAX,
    ensures
        final(map).wf(),
        dug_by_walk(old(map)@, start, final(map)@),
{
    let mut steps: usize = 0;
    let mut pos: Point = start;
    let mut alive: bool = true;
    let ghost mut dirs: Seq<int> = Seq::empty();
    while alive && steps < MAX_STEPS
        invariant
            map.wf(),
            steps <= MAX_STEPS,
            dirs.len() == steps,
            forall|k: int| 0 <= k < dirs.len() ==> 0 <= #[trigger] dirs[k] < 4,
            i32::MIN < pos.x < i32::MAX,
            i32::MIN < pos.y < i32::MAX,
            alive ==> spec_walk(old(map)@, start.x as int, start.y as int, dirs) == (Walk {
                tiles: map@,
                x: pos.x as int,
                y: pos.y as int,
                alive: true,
            }),
            !alive ==> spec_walk(old(map)@, start.x as int, start.y as int, dirs).tiles == map@
                && !spec_walk(old(map)@, start.x as int, start.y as int, dirs).alive,
        decreases MAX_STEPS - steps, (if alive { 1int } else { 0int }),
    {
        let dir: i32 = range(rng, 0, 4);
        let d: Point = delta(dir);
        proof {
            let before = dirs;
            dirs = dirs.push(dir as int);
            assert(dirs.drop_last() =~= before);
        }
        let next: Point = Point::new(pos.x + d.x, pos.y + d.y);
        if map.in_bounds(next) {
            map.set(next, Glyph::Wall, RED);
            pos = next;
        } else {
            alive = false;
        }
        steps += 1;
    }
    assert(dug_by_walk(old(map)@, start, map@)) by {
        let w = spec_walk(old(map)@, start.x as int, start.y as int, dirs);
        assert(w.tiles == map@);
        assert(valid_walk(old(map)@, start, dirs));
    }
}

/// A third of the grid: the number of walls at which digging stops.
pub const TARGET: usize = 1333;

/// The most walks that a run starts after its first.
pub const MAX_WALKS: usize = 100000;

/// The generator of caves dug by random walks.
///
/// After [`MapGen::build`], `map` holds the grid of the last frame.
pub struct RoomBuilder {
    /// The seed of the stream that a run draws from; with `None`, every run
    /// draws from a stream seeded by the system.
    pub seed: Option<u64>,
    pub map: Grid,
}

impl RoomBuilder {
    /// A generator whose every run draws from a stream seeded by the system.
    pub fn new() -> (builder: Box<Self>)
        ensures
            builder.seed is None,
            builder.map.wf(),
    {
        Box::new(RoomBuilder { seed: None, map: Grid::new() })
    }

    /// A generator whose every run draws from the stream of `seed`.
    pub fn seeded(seed: u64) -> (builder: Box<Self>)
        ensures
            builder.seed == Some(seed),
            builder.map.wf(),
    {
        Box::new(RoomBuilder { seed: Some(seed), map: Grid::new() })
    }
}

/// What one more walk draws from the stream: the wall that it starts from,
/// and its steps.
pub struct Again {
    pub target: int,
    pub dirs: Seq<int>,
}

/// Whether one more walk can draw `a` on `before`: on a grid with walls, it
/// starts from one of them, and its steps can be taken on the recoloured
/// grid.
pub open spec fn valid_again(before: Seq<Tile>, a: Again) -> bool {
    spec_count_glyph(before, Glyph::Wall) > 0 ==> {
        &&& 0 <= a.target < CELLS
        &&& before[a.target].0 == Glyph::Wall
        &&& valid_walk(spec_recolor(before, RED, GREEN), cell_point(a.target), a.dirs)
    }
}

/// What one more walk that draws `a` leaves of `before`: the red of the walk
/// before turns green, and a walker digs from the wall that was drawn; on a
/// grid without walls nothing is dug.
pub open spec fn spec_dig_again(before: Seq<Tile>, a: Again) -> Seq<Tile> {
    let recolored = spec_recolor(before, RED, GREEN);
    if spec_count_glyph(before, Glyph::Wall) > 0 {
        spec_walk(
            recolored,
            cell_point(a.target).x as int,
            cell_point(a.target).y as int,
            a.dirs,
        ).tiles
    } else {
        recolored
    }
}

/// Whether `after` is what one more walk may leave of `before`.
#[verifier::opaque]
pub open spec fn dug_again(before: Seq<Tile>, after: Seq<Tile>) -> bool {
    exists|a: Again| valid_again(before, a) && after == #[trigger] spec_dig_again(before, a)
}

/// Starts one more walk: turns the red of the walk before to green, picks a
/// wall from the stream, each equally likely, and lets a walker dig from
/// there. On a grid without walls nothing is dug. The result says whether a
/// walker dug.
pub fn dig_again(map: &mut Grid, rng: &mut RandomNumberGenerator) -> (dug: bool)
    requires
        old(map).wf(),
    ensures
        final(map).wf(),
        dug == (spec_count_glyph(old(map)@, Glyph::Wall) > 0),
        dug_again(old(map)@, final(map)@),
{
    let open_tiles: Vec<usize> = map.cells_with_glyph(Glyph::Wall);
    map.recolor(RED, GREEN);
    let ghost recolored = map@;
    match random_index(rng, &open_tiles) {
        Some(k) => {
            let target: usize = open_tiles[k];
            let start: Point = idx_point(target);
            assert(start == cell_point(target as int));
            drunk(map, start, rng);
            proof {
                reveal(dug_again);
                let dirs = choose|dirs: Seq<int>|
                    valid_walk(recolored, start, dirs) && (#[trigger] spec_walk(
                        recolored,
                        start.x as int,
                        start.y as int,
                        dirs,
                    )).tiles == map@;
                let a = Again { target: target as int, dirs };
                assert(valid_again(old(map)@, a));
                assert(map@ == spec_dig_again(old(map)@, a));
            }
            true
        },
        None => {
            proof {
                reveal(dug_again);
                let a = Again { target: 0, dirs: Seq::empty() };
                assert(valid_again(old(map)@, a));
                assert(map@ == spec_dig_again(old(map)@, a));
            }
            false
        },
    }
}

/// The middle of the grid.
pub open spec fn spec_center() -> Point {
    Point { x: (WIDTH / 2) as i32, y: (HEIGHT / 2) as i32 }
}

/// Whether the walk that draws `walks[j]` dug the frame after the first walk
/// and `j` more, while fewer than a third of the grid was wall.
pub open spec fn dug_in_turn_at(frames: Seq<Frame>, walks: Seq<Again>, j: int) -> bool {
    &&& valid_again(frames[j + 1].0@, walks[j])
    &&& frames[j + 2].0@ == spec_dig_again(frames[j + 1].0@, walks[j])
    &&& frames[j + 2].1@ == numbered_text("Drunken Digger"@, (j + 2) as nat)
    &&& spec_count_glyph(frames[j + 1].0@, Glyph::Wall) < TARGET
}

/// Whether the first `n` walks after the first dug the frames one out of the
/// other.
pub open spec fn dug_in_turn(frames: Seq<Frame>, walks: Seq<Again>, n: int) -> bool {
    forall|j: int| 0 <= j < n ==> #[trigger] dug_in_turn_at(frames, walks, j)
}

/// Whether `frames` is what a run records whose first walk takes the steps
/// `first` and whose later walks draw `walks`: the solid grid, the first
/// walk from the middle of the grid, and then one frame per walk, until a
/// third of the grid is wall or [`MAX_WALKS`] more walks have been started.
#[verifier::opaque]
pub open spec fn is_run(frames: Seq<Frame>, first: Seq<int>, walks: Seq<Again>) -> bool {
    &&& frames.len() == walks.len() + 2
    &&& walks.len() <= MAX_WALKS
    &&& frames[0].0@ == blank_tiles()
    &&& frames[0].1@ == "Start Solid"@
    &&& valid_walk(blank_tiles(), spec_center(), first)
    &&& frames[1].0@ == spec_walk(
        blank_tiles(),
        spec_center().x as int,
        spec_center().y as int,
        first,
    ).tiles
    &&& frames[1].1@ == "First Drunken Digger"@
    &&& dug_in_turn(frames, walks, walks.len() as int)
    &&& spec_count_glyph(frames[walks.len() as int + 1].0@, Glyph::Wall) >= TARGET || walks.len()
        == MAX_WALKS
}

/// A run is determined by what it draws: two runs whose walks draw the same
/// record the same frames.
pub proof fn lemma_run_is_determined(
    one: Seq<Frame>,
    other: Seq<Frame>,
    first: Seq<int>,
    walks: Seq<Again>,
)
    requires
        is_run(one, first, walks),
        is_run(other, first, walks),
    ensures
        one.len() == other.len(),
        forall|j: int|
            0 <= j < one.len() ==> (#[trigger] one[j]).0@ == other[j].0@ && one[j].1@ == other[j].1@,
{
    reveal(is_run);
    lemma_same_walks(one, other, walks, walks.len() as int);
}

/// Two runs whose walks draw the same agree on their first frames.
proof fn lemma_same_walks(one: Seq<Frame>, other: Seq<Frame>, walks: Seq<Again>, upto: int)
    requires
        one.len() > upto + 1,
        other.len() > upto + 1,
        one[0].0@ == other[0].0@,
        one[0].1@ == other[0].1@,
        one[1].0@ == other[1].0@,
        one[1].1@ == other[1].1@,
        0 <= upto <= walks.len(),
        dug_in_turn(one, walks, upto),
        dug_in_turn(other, walks, upto),
    ensures
        forall|j: int|
            0 <= j <= upto + 1 ==> (#[trigger] one[j]).0@ == other[j].0@ && one[j].1@ == other[j].1@,
    decreases upto,
{
    if upto > 0 {
        lemma_same_walks(one, other, walks, upto - 1);
        assert(dug_in_turn_at(one, walks, upto - 1));
        assert(dug_in_turn_at(other, walks, upto - 1));
        assert(one[upto].0@ == other[upto].0@);
    }
}

impl MapGen for RoomBuilder {
    /// Nothing is prepared ahead of a run.
    fn setup(&mut self)
        ensures
            *final(self) == *old(self),
    {
    }

    /// Digs from the middle of the grid, then from walls picked at random,
    /// until a third of the grid is wall or [`MAX_WALKS`] more walks have been
    /// started. One frame for the solid grid, one per walk.
    fn build(&mut self) -> (frames: Vec<Frame>)
        ensures
            final(self).seed == old(self).seed,
            final(self).map.wf(),
            exists|first: Seq<int>, walks: Seq<Again>| #[trigger] is_run(frames@, first, walks),
            2 <= frames@.len() <= 2 + MAX_WALKS,
            frames@[frames@.len() - 1].0@ == final(self).map@,
            spec_count_glyph(final(self).map@, Glyph::Wall) >= TARGET || frames@.len() == 2
                + MAX_WALKS,
    {
        let mut rng: RandomNumberGenerator = stream(self.seed);
        let mut frames: Vec<Frame> = Vec::new();
        self.map = Grid::new();
        record(&mut frames, &self.map, "Start Solid".to_string());
        let ghost solid = frames@[0];

        drunk(&mut self.map, Point::new(WIDTH as i32 / 2, HEIGHT as i32 / 2), &mut rng);
        let ghost first_dirs = choose|dirs: Seq<int>|
            valid_walk(blank_tiles(), spec_center(), dirs) && (#[trigger] spec_walk(
                blank_tiles(),
                spec_center().x as int,
                spec_center().y as int,
                dirs,
            )).tiles == self.map@;
        record(&mut frames, &self.map, "First Drunken Digger".to_string());
        let ghost first = frames@[1];
        assert(frames@[0] == solid);
        let ghost mut walks: Seq<Again> = Seq::empty();

        let mut count: usize = 0;
        while count < MAX_WALKS && self.map.count_glyph(Glyph::Wall) < TARGET
            invariant
                count <= MAX_WALKS,
                self.seed == old(self).seed,
                self.map.wf(),
                frames_wf(frames@),
                frames@.len() == 2 + count,
                walks.len() == count,
                frames@[0] == solid,
                frames@[1] == first,
                dug_in_turn(frames@, walks, count as int),
                frames@[frames@.len() - 1].0@ == self.map@,
            decreases MAX_WALKS - count,
        {
            let ghost before = frames@;
            let ghost tiles_before = self.map@;
            let ghost walked = walks;
            dig_again(&mut self.map, &mut rng);
            record(&mut frames, &self.map, numbered_label("Drunken Digger", count + 2));
            proof {
                reveal(dug_again);
                let a = choose|a: Again|
                    valid_again(tiles_before, a) && self.map@ == #[trigger] spec_dig_again(
                        tiles_before,
                        a,
                    );
                walks = walks.push(a);
                assert forall|k: int| 0 <= k < before.len() implies frames@[k] == before[k] by {
                    assert(frames@.subrange(0, before.len() as int)[k] == before[k]);
                }
                assert forall|j: int| 0 <= j < count + 1 implies #[trigger] dug_in_turn_at(
                    frames@,
                    walks,
                    j,
                ) by {
                    assert(frames@[j + 1] == before[j + 1]);
                    if j < count {
                        assert(frames@[j + 2] == before[j + 2]);
                        assert(walks[j] == walked[j]);
                        assert(dug_in_turn_at(before, walked, j));
                    }
                }
            }
            count += 1;
        }
        proof {
            reveal(is_run);
            assert(is_run(frames@, first_dirs, walks));
        }
        frames
    }
}

} // verus!
