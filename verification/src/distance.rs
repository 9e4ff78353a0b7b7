//! Distance fields: for every cell, how many steps the shortest walk from the
//! nearest start takes.

use vstd::prelude::*;
use crate::graph::{is_walk, lemma_walk_drop_last, lemma_walk_push, open_cell, spec_adjacent};
use crate::grid::{cell_x, CELLS, WIDTH};
use crate::sorting::lemma_injective_is_onto;

verus! {

/// The distance of a cell that no walk reaches within the cutoff.
pub const UNREACHABLE: u32 = 0xffff_ffff;

/// Whether `c` is one of the starts.
pub open spec fn is_start(starts: Seq<usize>, c: int) -> bool {
    exists|s: int| 0 <= s < starts.len() && #[trigger] starts[s] == c
}

/// Whether `p` is a walk of `n` steps from a start to the cell `i`.
pub open spec fn walk_from_start(
    passable: Seq<bool>,
    starts: Seq<usize>,
    p: Seq<int>,
    i: int,
    n: int,
) -> bool {
    is_walk(passable, p) && p.len() == n + 1 && is_start(starts, p[0]) && p[n] == i
}

/// Whether some walk of exactly `n` steps leads from a start to the cell `i`.
pub open spec fn reaches(passable: Seq<bool>, starts: Seq<usize>, i: int, n: int) -> bool {
    exists|p: Seq<int>| walk_from_start(passable, starts, p, i, n)
}

/// Whether no walk of fewer than `bound` steps leads from a start to `i`.
pub open spec fn beyond(passable: Seq<bool>, starts: Seq<usize>, i: int, bound: int) -> bool {
    forall|n: int| 0 <= n < bound ==> !#[trigger] reaches(passable, starts, i, n)
}

/// Whether the shortest walk from a start to `i` takes `d` steps.
pub open spec fn shortest(passable: Seq<bool>, starts: Seq<usize>, i: int, d: int) -> bool {
    0 <= d && reaches(passable, starts, i, d) && beyond(passable, starts, i, d)
}

/// Whether `dist` is the distance field of the starts with the given cutoff:
/// a cell whose shortest walk from a start takes fewer than `max_depth` steps
/// holds that number of steps, and every other cell holds [`UNREACHABLE`].
pub open spec fn is_distance_field(
    dist: Seq<u32>,
    passable: Seq<bool>,
    starts: Seq<usize>,
    max_depth: int,
) -> bool {
    &&& dist.len() == CELLS
    &&& forall|i: int|
        0 <= i < CELLS && #[trigger] dist[i] != UNREACHABLE ==> dist[i] < max_depth && shortest(
            passable,
            starts,
            i,
            dist[i] as int,
        )
    &&& forall|i: int|
        0 <= i < CELLS && #[trigger] dist[i] == UNREACHABLE ==> beyond(
            passable,
            starts,
            i,
            max_depth,
        )
}

/// Whether no walk of any length leads from a start to a cell that `dist`
/// holds as unreachable.
pub open spec fn is_complete(dist: Seq<u32>, passable: Seq<bool>, starts: Seq<usize>) -> bool {
    forall|i: int, n: int|
        0 <= i < CELLS && dist[i] == UNREACHABLE && 0 <= n ==> !#[trigger] reaches(
            passable,
            starts,
            i,
            n,
        )
}

/// Whether `dist` is right up to `d` steps: every distance written is at most
/// `d` and is the length of the shortest walk, and no walk of `d` steps or
/// fewer reaches a cell that is still unreachable.
pub open spec fn level_done(dist: Seq<u32>, passable: Seq<bool>, starts: Seq<usize>, d: int) -> bool {
    &&& dist.len() == CELLS
    &&& forall|i: int|
        0 <= i < CELLS && #[trigger] dist[i] != UNREACHABLE ==> dist[i] <= d && shortest(
            passable,
            starts,
            i,
            dist[i] as int,
        )
    &&& forall|i: int|
        0 <= i < CELLS && #[trigger] dist[i] == UNREACHABLE ==> beyond(passable, starts, i, d + 1)
}

/// Whether one of the cells that share an edge with `i` holds the distance
/// `d`.
pub open spec fn spec_touches_level(dist: Seq<u32>, i: int, d: u32) -> bool {
    ||| (cell_x(i) != 0 && dist[i - 1] == d)
    ||| (cell_x(i) != WIDTH - 1 && dist[i + 1] == d)
    ||| (i >= WIDTH && dist[i - WIDTH] == d)
    ||| (i + WIDTH < CELLS && dist[i + WIDTH] == d)
}

/// A cell touches a level exactly when a cell next to it holds that
/// distance.
pub proof fn lemma_touches_level(dist: Seq<u32>, i: int, d: u32)
    requires
        dist.len() == CELLS,
        0 <= i < CELLS,
    ensures
        spec_touches_level(dist, i, d) <==> exists|j: int| spec_adjacent(j, i) && #[trigger] dist[j] == d,
{
    if spec_touches_level(dist, i, d) {
        if cell_x(i) != 0 && dist[i - 1] == d {
            assert(spec_adjacent(i - 1, i));
        } else if cell_x(i) != WIDTH - 1 && dist[i + 1] == d {
            assert(spec_adjacent(i + 1, i));
        } else if i >= WIDTH && dist[i - WIDTH] == d {
            assert(spec_adjacent(i - WIDTH, i));
        } else {
            assert(spec_adjacent(i + WIDTH, i));
        }
    }
    if exists|j: int| spec_adjacent(j, i) && #[trigger] dist[j] == d {
        let j = choose|j: int| spec_adjacent(j, i) && #[trigger] dist[j] == d;
        assert(j == i - 1 || j == i + 1 || j == i - WIDTH || j == i + WIDTH);
    }
}

/// A walk of no steps reaches exactly the starts that are open.
pub proof fn lemma_reaches_zero(passable: Seq<bool>, starts: Seq<usize>, i: int)
    ensures
        reaches(passable, starts, i, 0) <==> is_start(starts, i) && open_cell(passable, i),
{
    if is_start(starts, i) && open_cell(passable, i) {
        let p = seq![i];
        assert(walk_from_start(passable, starts, p, i, 0));
    }
    if reaches(passable, starts, i, 0) {
        let p = choose|p: Seq<int>| walk_from_start(passable, starts, p, i, 0);
        assert(open_cell(passable, p[0]));
    }
}

/// A walk that reaches `j` reaches the open cell `k` next to it with one more
/// step.
pub proof fn lemma_reaches_extend(passable: Seq<bool>, starts: Seq<usize>, j: int, k: int, n: int)
    requires
        0 <= n,
        reaches(passable, starts, j, n),
        spec_adjacent(j, k),
        open_cell(passable, k),
    ensures
        reaches(passable, starts, k, n + 1),
{
    let p = choose|p: Seq<int>| walk_from_start(passable, starts, p, j, n);
    lemma_walk_push(passable, p, k);
    assert(walk_from_start(passable, starts, p.push(k), k, n + 1));
}

/// A walk of `n + 1` steps to `k` comes through a cell next to `k` that it
/// reaches in `n` steps.
pub proof fn lemma_reaches_step_back(passable: Seq<bool>, starts: Seq<usize>, k: int, n: int) -> (j: int)
    requires
        0 <= n,
        reaches(passable, starts, k, n + 1),
    ensures
        spec_adjacent(j, k),
        open_cell(passable, k),
        reaches(passable, starts, j, n),
{
    let m = n + 1;
    let p = choose|p: Seq<int>| walk_from_start(passable, starts, p, k, m);
    lemma_walk_drop_last(passable, p);
    let q = p.drop_last();
    assert(q[0] == p[0]);
    assert(walk_from_start(passable, starts, q, p[n], n));
    p[n]
}

/// Whether one of the cells that share an edge with `i` holds the distance
/// `d`.
fn touches_level(dist: &Vec<u32>, i: usize, d: u32) -> (b: bool)
    requires
        dist.len() == CELLS,
        i < CELLS,
    ensures
        b == spec_touches_level(dist@, i as int, d),
{
    let x: usize = i % WIDTH;
    (x != 0 && dist[i - 1] == d) || (x != WIDTH - 1 && dist[i + 1] == d) || (i >= WIDTH && dist[i
        - WIDTH] == d) || (i + WIDTH < CELLS && dist[i + WIDTH] == d)
}

/// What one pass writes: the next distance into every open cell that is
/// still unreachable and touches the last level; nothing else changes.
pub open spec fn spec_expand(dist: Seq<u32>, passable: Seq<bool>, d: u32) -> Seq<u32> {
    Seq::new(
        dist.len(),
        |i: int|
            if dist[i] == UNREACHABLE && open_cell(passable, i) && spec_touches_level(dist, i, d) {
                (d + 1) as u32
            } else {
                dist[i]
            },
    )
}

/// A pass over a field that is right up to `d` steps makes it right up to
/// `d + 1` steps.
pub proof fn lemma_expand_done(dist: Seq<u32>, passable: Seq<bool>, starts: Seq<usize>, d: u32)
    requires
        level_done(dist, passable, starts, d as int),
        d + 1 < UNREACHABLE,
    ensures
        level_done(spec_expand(dist, passable, d), passable, starts, d + 1),
{
    let next = spec_expand(dist, passable, d);
    assert forall|i: int| 0 <= i < CELLS && #[trigger] next[i] != UNREACHABLE implies next[i] <= d
        + 1 && shortest(passable, starts, i, next[i] as int) by {
        if dist[i] == UNREACHABLE {
            lemma_touches_level(dist, i, d);
            let j = choose|j: int| spec_adjacent(j, i) && #[trigger] dist[j] == d;
            assert(shortest(passable, starts, j, dist[j] as int));
            lemma_reaches_extend(passable, starts, j, i, d as int);
            assert(beyond(passable, starts, i, d + 1));
        } else {
            assert(next[i] == dist[i]);
        }
    }
    assert forall|i: int| 0 <= i < CELLS && #[trigger] next[i] == UNREACHABLE implies beyond(
        passable,
        starts,
        i,
        d + 2,
    ) by {
        assert(dist[i] == UNREACHABLE);
        assert(beyond(passable, starts, i, d + 1));
        if reaches(passable, starts, i, d + 1) {
            let j = lemma_reaches_step_back(passable, starts, i, d as int);
            if dist[j] == UNREACHABLE {
                assert(beyond(passable, starts, j, d + 1));
                assert(!reaches(passable, starts, j, d as int));
            } else {
                let m = dist[j] as int;
                assert(shortest(passable, starts, j, m));
                if m < d {
                    lemma_reaches_extend(passable, starts, j, i, m);
                    assert(!reaches(passable, starts, i, m + 1));
                } else {
                    lemma_touches_level(dist, i, d);
                }
            }
            assert(false);
        }
        assert forall|n: int| 0 <= n < d + 2 implies !#[trigger] reaches(passable, starts, i, n) by {
            if n <= d {
                assert(!reaches(passable, starts, i, n));
            }
        }
    }
}

/// Where a pass changes nothing, no walk of any length reaches a cell that
/// is still unreachable.
pub proof fn lemma_fixed_point(
    dist: Seq<u32>,
    passable: Seq<bool>,
    starts: Seq<usize>,
    d: u32,
    n: int,
)
    requires
        level_done(dist, passable, starts, d as int),
        spec_expand(dist, passable, d) == dist,
        d + 1 < UNREACHABLE,
        0 <= n,
    ensures
        forall|i: int|
            0 <= i < CELLS && dist[i] == UNREACHABLE ==> !#[trigger] reaches(passable, starts, i, n),
    decreases n,
{
    assert forall|i: int| 0 <= i < CELLS && dist[i] == UNREACHABLE implies !#[trigger] reaches(
        passable,
        starts,
        i,
        n,
    ) by {
        assert(beyond(passable, starts, i, d + 1));
        if n > d && reaches(passable, starts, i, n) {
            lemma_fixed_point(dist, passable, starts, d, n - 1);
            let j = lemma_reaches_step_back(passable, starts, i, n - 1);
            assert(dist[j] != UNREACHABLE);
            let m = dist[j] as int;
            assert(shortest(passable, starts, j, m));
            lemma_reaches_extend(passable, starts, j, i, m);
            if m < d {
                assert(!reaches(passable, starts, i, m + 1));
            } else {
                lemma_touches_level(dist, i, d);
                assert(spec_expand(dist, passable, d)[i] == d + 1);
            }
            assert(false);
        }
    }
}

/// One pass: writes `d + 1` into every open cell that is still unreachable
/// and touches a cell at distance `d`. Says whether it wrote anything.
fn expand(dist: &mut Vec<u32>, passable: &Vec<bool>, d: u32) -> (changed: bool)
    requires
        old(dist).len() == CELLS,
        passable.len() == CELLS,
        d + 1 < UNREACHABLE,
        forall|i: int| 0 <= i < CELLS ==> old(dist)@[i] <= d || old(dist)@[i] == UNREACHABLE,
    ensures
        final(dist)@ == spec_expand(old(dist)@, passable@, d),
        changed == (final(dist)@ != old(dist)@),
        changed ==> exists|k: int| 0 <= k < CELLS && #[trigger] final(dist)@[k] == d + 1,
{
    let mut changed: bool = false;
    let mut i: usize = 0;
    while i < CELLS
        invariant
            i <= CELLS,
            dist.len() == CELLS,
            old(dist).len() == CELLS,
            passable.len() == CELLS,
            d + 1 < UNREACHABLE,
            forall|k: int| 0 <= k < CELLS ==> old(dist)@[k] <= d || old(dist)@[k] == UNREACHABLE,
            forall|k: int| 0 <= k < i ==> dist@[k] == spec_expand(old(dist)@, passable@, d)[k],
            forall|k: int| i <= k < CELLS ==> dist@[k] == old(dist)@[k],
            changed == exists|k: int| 0 <= k < i && #[trigger] dist@[k] == d + 1,
        decreases CELLS - i,
    {
        proof {
            assert forall|j: int| 0 <= j < CELLS implies (#[trigger] dist@[j] == d) == (old(
                dist,
            )@[j] == d) by {
                if j < i {
                    assert(dist@[j] == spec_expand(old(dist)@, passable@, d)[j]);
                }
            }
        }
        if dist[i] == UNREACHABLE && passable[i] && touches_level(dist, i, d) {
            dist.set(i, d + 1);
            changed = true;
            assert(dist@[i as int] == d + 1);
        } else {
            assert(dist@[i as int] != d + 1);
        }
        i += 1;
    }
    assert(dist@ =~= spec_expand(old(dist)@, passable@, d));
    proof {
        if changed {
            let k = choose|k: int| 0 <= k < CELLS && #[trigger] dist@[k] == d + 1;
            assert(old(dist)@[k] != d + 1);
        } else {
            assert forall|k: int| 0 <= k < CELLS implies dist@[k] == old(dist)@[k] by {
                assert(dist@[k] != d + 1);
            }
            assert(dist@ =~= old(dist)@);
        }
    }
    changed
}

/// A field in which every cell is unreachable.
fn blank_field() -> (dist: Vec<u32>)
    ensures
        dist.len() == CELLS,
        forall|k: int| 0 <= k < CELLS ==> dist@[k] == UNREACHABLE,
{
    let mut dist: Vec<u32> = Vec::new();
    let mut i: usize = 0;
    while i < CELLS
        invariant
            i <= CELLS,
            dist.len() == i,
            forall|k: int| 0 <= k < i ==> dist@[k] == UNREACHABLE,
        decreases CELLS - i,
    {
        dist.push(UNREACHABLE);
        i += 1;
    }
    dist
}

/// The field before any pass: zero at every start that is an open cell of the
/// grid, and unreachable elsewhere.
fn level_zero(starts: &Vec<usize>, passable: &Vec<bool>) -> (dist: Vec<u32>)
    requires
        passable.len() == CELLS,
    ensures
        level_done(dist@, passable@, starts@, 0),
{
    let mut dist: Vec<u32> = blank_field();
    let mut s: usize = 0;
    while s < starts.len()
        invariant
            s <= starts.len(),
            dist.len() == CELLS,
            passable.len() == CELLS,
            forall|k: int|
                0 <= k < CELLS ==> #[trigger] dist@[k] == (if open_cell(passable@, k) && is_start(
                    starts@.subrange(0, s as int),
                    k,
                ) {
                    0u32
                } else {
                    UNREACHABLE
                }),
        decreases starts.len() - s,
    {
        let c: usize = starts[s];
        let ghost before = starts@.subrange(0, s as int);
        let ghost after = starts@.subrange(0, s + 1);
        proof {
            assert forall|k: int| is_start(after, k) == (is_start(before, k) || k == c) by {
                if is_start(before, k) {
                    let w = choose|w: int| 0 <= w < before.len() && #[trigger] before[w] == k;
                    assert(after[w] == k);
                }
                if k == c {
                    assert(after[s as int] == k);
                }
                if is_start(after, k) {
                    let w = choose|w: int| 0 <= w < after.len() && #[trigger] after[w] == k;
                    if w < s {
                        assert(before[w] == k);
                    }
                }
            }
        }
        if c < CELLS && passable[c] {
            dist.set(c, 0);
        }
        s += 1;
    }
    proof {
        assert(starts@.subrange(0, starts@.len() as int) =~= starts@);
        assert forall|i: int| 0 <= i < CELLS && #[trigger] dist@[i] != UNREACHABLE implies dist@[i]
            <= 0 && shortest(passable@, starts@, i, dist@[i] as int) by {
            lemma_reaches_zero(passable@, starts@, i);
        }
        assert forall|i: int| 0 <= i < CELLS && #[trigger] dist@[i] == UNREACHABLE implies beyond(
            passable@,
            starts@,
            i,
            1,
        ) by {
            lemma_reaches_zero(passable@, starts@, i);
        }
    }
    dist
}

/// A walk ends on an open cell.
pub proof fn lemma_reaches_open(passable: Seq<bool>, starts: Seq<usize>, i: int, n: int)
    requires
        0 <= n,
        reaches(passable, starts, i, n),
    ensures
        open_cell(passable, i),
{
    let p = choose|p: Seq<int>| walk_from_start(passable, starts, p, i, n);
    assert(open_cell(passable, p[n]));
}

/// A cell whose shortest walk takes `m + 1` steps has a cell next to it
/// whose shortest walk takes `m` steps.
pub proof fn lemma_shortest_descends(
    dist: Seq<u32>,
    passable: Seq<bool>,
    starts: Seq<usize>,
    bound: int,
    i: int,
)
    requires
        is_distance_field(dist, passable, starts, bound),
        0 <= i < CELLS,
        dist[i] != UNREACHABLE,
        dist[i] > 0,
    ensures
        spec_touches_level(dist, i, (dist[i] - 1) as u32),
{
    let m = dist[i] as int - 1;
    assert(shortest(passable, starts, i, m + 1));
    let j = lemma_reaches_step_back(passable, starts, i, m);
    if dist[j] == UNREACHABLE {
        assert(beyond(passable, starts, j, bound));
        assert(!reaches(passable, starts, j, m));
    } else {
        let mj = dist[j] as int;
        assert(shortest(passable, starts, j, mj));
        if mj < m {
            lemma_reaches_extend(passable, starts, j, i, mj);
            assert(!reaches(passable, starts, i, mj + 1));
        }
        if mj > m {
            assert(!reaches(passable, starts, j, m));
        }
        lemma_touches_level(dist, i, m as u32);
    }
}

/// The distance that a field holds for a cell is at most the length of any
/// walk from a start to that cell that is shorter than the cutoff.
pub proof fn lemma_field_below_walks(
    dist: Seq<u32>,
    passable: Seq<bool>,
    starts: Seq<usize>,
    max_depth: int,
    p: Seq<int>,
)
    requires
        is_distance_field(dist, passable, starts, max_depth),
        is_walk(passable, p),
        is_start(starts, p[0]),
        p.len() - 1 < max_depth,
    ensures
        dist[p[p.len() - 1]] != UNREACHABLE,
        dist[p[p.len() - 1]] <= p.len() - 1,
{
    let i = p[p.len() - 1];
    let n = p.len() - 1;
    assert(open_cell(passable, p[n]));
    assert(walk_from_start(passable, starts, p, i, n));
    assert(reaches(passable, starts, i, n));
    if dist[i] == UNREACHABLE {
        assert(beyond(passable, starts, i, max_depth));
    } else {
        assert(shortest(passable, starts, i, dist[i] as int));
    }
}

/// For the distance that a field holds for a cell, there is a walk from a
/// start to that cell of exactly as many steps.
pub proof fn lemma_field_has_walk(
    dist: Seq<u32>,
    passable: Seq<bool>,
    starts: Seq<usize>,
    max_depth: int,
    i: int,
) -> (p: Seq<int>)
    requires
        is_distance_field(dist, passable, starts, max_depth),
        0 <= i < CELLS,
        dist[i] != UNREACHABLE,
    ensures
        is_walk(passable, p),
        is_start(starts, p[0]),
        p[p.len() - 1] == i,
        p.len() == dist[i] + 1,
{
    let d = dist[i] as int;
    assert(shortest(passable, starts, i, d));
    choose|p: Seq<int>| walk_from_start(passable, starts, p, i, d)
}

/// There is one distance field of given starts: two fields of the same
/// starts over the same open cells with the same cutoff are the same field.
pub proof fn lemma_field_is_one(
    first: Seq<u32>,
    second: Seq<u32>,
    passable: Seq<bool>,
    starts: Seq<usize>,
    max_depth: int,
)
    requires
        is_distance_field(first, passable, starts, max_depth),
        is_distance_field(second, passable, starts, max_depth),
    ensures
        first == second,
{
    assert forall|i: int| 0 <= i < CELLS implies first[i] == second[i] by {
        let a = first[i];
        let b = second[i];
        if a != UNREACHABLE {
            assert(shortest(passable, starts, i, a as int));
            if b == UNREACHABLE {
                assert(beyond(passable, starts, i, max_depth));
            } else {
                assert(shortest(passable, starts, i, b as int));
            }
        } else if b != UNREACHABLE {
            assert(shortest(passable, starts, i, b as int));
            assert(beyond(passable, starts, i, max_depth));
        }
    }
    assert(first =~= second);
}

/// More different cells than the grid has cannot be listed.
pub proof fn lemma_pigeonhole(cells: Seq<int>)
    requires
        forall|k: int| 0 <= k < cells.len() ==> 0 <= #[trigger] cells[k] < CELLS,
        forall|k1: int, k2: int| 0 <= k1 < k2 < cells.len() ==> cells[k1] != cells[k2],
    ensures
        cells.len() <= CELLS,
{
    if cells.len() > CELLS {
        let head = cells.subrange(0, CELLS as int);
        assert forall|k: int| 0 <= k < CELLS implies 0 <= #[trigger] head[k] < CELLS by {
            assert(head[k] == cells[k]);
        }
        assert forall|k1: int, k2: int| 0 <= k1 < k2 < CELLS implies head[k1] != head[k2] by {
            assert(head[k1] == cells[k1] && head[k2] == cells[k2]);
        }
        lemma_injective_is_onto(head, CELLS as int);
        let extra = cells[CELLS as int];
        assert(head.contains(extra));
        let k = choose|k: int| 0 <= k < CELLS && head[k] == extra;
        assert(cells[k] == cells[CELLS as int]);
        assert(false);
    }
}

/// Computes the distance field of `starts` over the open cells, pass by pass,
/// each pass one step further out, until a pass finds nothing new or the
/// cutoff is reached.
///
/// A start that is no cell of the grid, or no open one, counts for nothing.
/// The second result says that the passes ended because nothing new was
/// found: then no walk at all reaches the cells left unreachable. It always
/// holds where `max_depth` is more than `CELLS + 1`.
pub fn flood(starts: &Vec<usize>, passable: &Vec<bool>, max_depth: u32) -> (r: (Vec<u32>, bool))
    requires
        passable.len() == CELLS,
    ensures
        is_distance_field(r.0@, passable@, starts@, max_depth as int),
        r.1 ==> is_complete(r.0@, passable@, starts@),
        max_depth > CELLS + 1 ==> r.1,
{
    if max_depth == 0 {
        return (blank_field(), false);
    }
    let mut dist: Vec<u32> = level_zero(starts, passable);
    let mut complete: bool = false;
    let mut d: u32 = 0;
    let ghost mut witness: Seq<int> = Seq::empty();
    while d < max_depth - 1 && !complete
        invariant
            passable.len() == CELLS,
            d < max_depth,
            !complete ==> level_done(dist@, passable@, starts@, d as int),
            complete ==> is_complete(dist@, passable@, starts@) && is_distance_field(
                dist@,
                passable@,
                starts@,
                max_depth as int,
            ),
            witness.len() == d,
            forall|l: int| 0 <= l < d ==> 0 <= #[trigger] witness[l] < CELLS && dist@[witness[l]] == l + 1,
        decreases max_depth - d, (if complete { 0int } else { 1int }),
    {
        let ghost before = dist@;
        let changed: bool = expand(&mut dist, passable, d);
        proof {
            lemma_expand_done(before, passable@, starts@, d);
        }
        if changed {
            proof {
                let k = choose|k: int| 0 <= k < CELLS && #[trigger] dist@[k] == d + 1;
                witness = witness.push(k);
                assert forall|l: int| 0 <= l < d + 1 implies 0 <= #[trigger] witness[l] < CELLS
                    && dist@[witness[l]] == l + 1 by {
                    if l < d {
                        assert(before[witness[l]] == l + 1);
                    }
                }
            }
            d += 1;
        } else {
            complete = true;
            proof {
                assert forall|i: int, n: int|
                    0 <= i < CELLS && dist@[i] == UNREACHABLE && 0 <= n implies !#[trigger] reaches(
                    passable@,
                    starts@,
                    i,
                    n,
                ) by {
                    lemma_fixed_point(dist@, passable@, starts@, d, n);
                }
            }
        }
    }
    proof {
        if !complete {
            assert forall|k1: int, k2: int| 0 <= k1 < k2 < witness.len() implies witness[k1]
                != witness[k2] by {
                assert(dist@[witness[k1]] == k1 + 1);
                assert(dist@[witness[k2]] == k2 + 1);
            }
            lemma_pigeonhole(witness);
        }
    }
    (dist, complete)
}

/// The distance field of a set of starts.
pub struct DijkstraMap {
    /// For every cell, the number of steps of the shortest walk from a start,
    /// or [`UNREACHABLE`].
    pub map: Vec<u32>,
    /// The cutoff: distances of `max_depth` steps or more are not recorded.
    pub max_depth: u32,
}

impl DijkstraMap {
    /// The distance field of `starts` over the open cells of `passable`, up
    /// to the cutoff.
    pub fn new(starts: &Vec<usize>, passable: &Vec<bool>, max_depth: u32) -> (field: DijkstraMap)
        requires
            passable.len() == CELLS,
        ensures
            field.max_depth == max_depth,
            is_distance_field(field.map@, passable@, starts@, max_depth as int),
    {
        let (map, _) = flood(starts, passable, max_depth);
        DijkstraMap { map, max_depth }
    }
}

} // verus!
