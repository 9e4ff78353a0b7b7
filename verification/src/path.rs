//! Shortest routes between two cells.

use vstd::prelude::*;
use crate::distance::{
    beyond, flood, is_distance_field, is_start, lemma_field_is_one, lemma_reaches_open,
    lemma_reaches_zero, lemma_shortest_descends, reaches, shortest, spec_touches_level,
    walk_from_start, UNREACHABLE,
};
use crate::graph::{
    connected, is_walk, lemma_walk_push, lemma_walk_reverse, open_cell, spec_adjacent, walk_between,
};
use crate::grid::{cell_x, CELLS, WIDTH};

verus! {

/// What a search found.
pub struct NavigationPath {
    /// The cell that was searched for.
    pub destination: usize,
    /// Whether a route was found.
    pub success: bool,
    /// The cells of the route after its first, the destination last. Empty
    /// where no route was found, and where the search started on its
    /// destination.
    pub steps: Vec<usize>,
}

/// The cells of a route: where it starts, then its steps.
pub open spec fn route_cells(start: int, steps: Seq<usize>) -> Seq<int> {
    Seq::new(steps.len() + 1, |k: int| if k == 0 { start } else { steps[k - 1] as int })
}

/// Whether `steps` leads from `start` to `end`: every cell open, the first
/// step next to `start`, every later step next to the one before, the last
/// step `end`.
pub open spec fn is_route(passable: Seq<bool>, start: int, end: int, steps: Seq<usize>) -> bool {
    walk_between(passable, route_cells(start, steps), start, end)
}

/// Whether no walk from `start` to `end` has fewer steps than `steps`.
pub open spec fn is_shortest_route(passable: Seq<bool>, start: int, end: int, steps: Seq<usize>) -> bool {
    forall|p: Seq<int>| #[trigger] walk_between(passable, p, start, end) ==> steps.len() + 1 <= p.len()
}

/// The cell next to `cur` that the route goes to: the first of the cells to
/// its left, to its right, above it and below it that is one step closer to
/// the start of the field.
pub open spec fn spec_step_down(dist: Seq<u32>, cur: int) -> int {
    let d = (dist[cur] - 1) as u32;
    if cell_x(cur) != 0 && dist[cur - 1] == d {
        cur - 1
    } else if cell_x(cur) != WIDTH - 1 && dist[cur + 1] == d {
        cur + 1
    } else if cur >= WIDTH && dist[cur - WIDTH] == d {
        cur - WIDTH
    } else {
        cur + WIDTH
    }
}

/// The route from `cur` down the field to its start: step by step to the
/// cell that [`spec_step_down`] names.
pub open spec fn spec_route(dist: Seq<u32>, cur: int) -> Seq<usize>
    decreases dist[cur],
{
    if 0 <= cur < dist.len() && dist[cur] != UNREACHABLE && dist[cur] > 0 {
        let next = spec_step_down(dist, cur);
        if 0 <= next < dist.len() && dist[next] + 1 == dist[cur] {
            seq![next as usize] + spec_route(dist, next)
        } else {
            Seq::empty()
        }
    } else {
        Seq::empty()
    }
}

/// Whether `steps` is the route from `start` to `end`: the one that goes down
/// the distance field of `end`.
pub open spec fn is_the_route(passable: Seq<bool>, start: int, end: int, steps: Seq<usize>) -> bool {
    exists|dist: Seq<u32>| #[trigger]
        is_distance_field(dist, passable, seq![end as usize], UNREACHABLE as int) && steps
            == spec_route(dist, start)
}

/// There is one route from a cell to another.
pub proof fn lemma_route_is_one(
    passable: Seq<bool>,
    start: int,
    end: int,
    first: Seq<usize>,
    second: Seq<usize>,
)
    requires
        is_the_route(passable, start, end, first),
        is_the_route(passable, start, end, second),
    ensures
        first == second,
{
    let starts = seq![end as usize];
    let a = choose|dist: Seq<u32>| #[trigger]
        is_distance_field(dist, passable, starts, UNREACHABLE as int) && first == spec_route(
            dist,
            start,
        );
    let b = choose|dist: Seq<u32>| #[trigger]
        is_distance_field(dist, passable, starts, UNREACHABLE as int) && second == spec_route(
            dist,
            start,
        );
    lemma_field_is_one(a, b, passable, starts, UNREACHABLE as int);
}

/// A cell next to `cur` that is one step closer to the start of the field.
fn step_down(dist: &Vec<u32>, cur: usize) -> (next: usize)
    requires
        dist.len() == CELLS,
        cur < CELLS,
        dist@[cur as int] != UNREACHABLE,
        dist@[cur as int] > 0,
        spec_touches_level(dist@, cur as int, (dist@[cur as int] - 1) as u32),
    ensures
        next < CELLS,
        next == spec_step_down(dist@, cur as int),
        spec_adjacent(cur as int, next as int),
        dist@[next as int] == dist@[cur as int] - 1,
{
    let d: u32 = dist[cur] - 1;
    let x: usize = cur % WIDTH;
    if x != 0 && dist[cur - 1] == d {
        cur - 1
    } else if x != WIDTH - 1 && dist[cur + 1] == d {
        cur + 1
    } else if cur >= WIDTH && dist[cur - WIDTH] == d {
        cur - WIDTH
    } else {
        cur + WIDTH
    }
}

/// Searches a shortest route from `start` to `end` over the open cells,
/// moving from a cell to one that shares an edge with it.
///
/// The search succeeds exactly where some walk leads from `start` to `end`;
/// both must then be open cells of the grid. Where several routes are as
/// short, the result is the one that [`spec_route`] names.
pub fn a_star_search(start: usize, end: usize, passable: &Vec<bool>) -> (path: NavigationPath)
    requires
        passable.len() == CELLS,
    ensures
        path.destination == end,
        path.success == connected(passable@, start as int, end as int),
        path.success ==> is_route(passable@, start as int, end as int, path.steps@),
        path.success ==> is_shortest_route(passable@, start as int, end as int, path.steps@),
        path.success ==> is_the_route(passable@, start as int, end as int, path.steps@),
        !path.success ==> path.steps@.len() == 0,
{
    let mut starts: Vec<usize> = Vec::new();
    starts.push(end);
    let (dist, complete) = flood(&starts, passable, UNREACHABLE);
    assert(complete);
    assert(starts@[0] == end);
    assert(starts@ =~= seq![end]);
    if start >= CELLS || dist[start] == UNREACHABLE {
        proof {
            if connected(passable@, start as int, end as int) {
                let p = choose|p: Seq<int>| walk_between(passable@, p, start as int, end as int);
                lemma_walk_reverse(passable@, p);
                assert(open_cell(passable@, p[0]));
                assert(is_start(starts@, end as int));
                assert(walk_from_start(passable@, starts@, p.reverse(), start as int, p.len() - 1));
                assert(reaches(passable@, starts@, start as int, p.len() - 1));
            }
        }
        return NavigationPath { destination: end, success: false, steps: Vec::new() };
    }
    let total: u32 = dist[start];
    let mut steps: Vec<usize> = Vec::new();
    let mut cur: usize = start;
    proof {
        assert(shortest(passable@, starts@, start as int, total as int));
        lemma_reaches_open(passable@, starts@, start as int, total as int);
        assert(route_cells(start as int, steps@) =~= seq![start as int]);
        assert(steps@ + spec_route(dist@, cur as int) =~= spec_route(dist@, start as int));
    }
    while dist[cur] > 0
        invariant
            passable.len() == CELLS,
            dist.len() == CELLS,
            is_distance_field(dist@, passable@, starts@, UNREACHABLE as int),
            cur < CELLS,
            start < CELLS,
            dist@[cur as int] != UNREACHABLE,
            dist@[start as int] == total,
            is_walk(passable@, route_cells(start as int, steps@)),
            route_cells(start as int, steps@)[steps@.len() as int] == cur,
            steps@.len() + dist@[cur as int] == total,
            steps@ + spec_route(dist@, cur as int) == spec_route(dist@, start as int),
        decreases dist@[cur as int],
    {
        proof {
            lemma_shortest_descends(dist@, passable@, starts@, UNREACHABLE as int, cur as int);
        }
        let next: usize = step_down(&dist, cur);
        proof {
            assert(shortest(passable@, starts@, next as int, dist@[next as int] as int));
            lemma_reaches_open(passable@, starts@, next as int, dist@[next as int] as int);
            lemma_walk_push(passable@, route_cells(start as int, steps@), next as int);
            assert(route_cells(start as int, steps@.push(next)) =~= route_cells(
                start as int,
                steps@,
            ).push(next as int));
            assert(spec_route(dist@, cur as int) == seq![next] + spec_route(dist@, next as int));
            assert(steps@.push(next) + spec_route(dist@, next as int) =~= steps@ + spec_route(
                dist@,
                cur as int,
            ));
        }
        steps.push(next);
        cur = next;
    }
    proof {
        assert(shortest(passable@, starts@, cur as int, 0));
        lemma_reaches_zero(passable@, starts@, cur as int);
        assert(cur == end);
        assert(walk_between(passable@, route_cells(start as int, steps@), start as int, end as int));
        assert forall|p: Seq<int>| #[trigger]
            walk_between(passable@, p, start as int, end as int) implies steps@.len() + 1
            <= p.len() by {
            lemma_walk_reverse(passable@, p);
            assert(is_start(starts@, end as int));
            assert(walk_from_start(passable@, starts@, p.reverse(), start as int, p.len() - 1));
            assert(reaches(passable@, starts@, start as int, p.len() - 1));
            assert(beyond(passable@, starts@, start as int, total as int));
        }
        assert(spec_route(dist@, cur as int) =~= Seq::<usize>::empty());
        assert(steps@ =~= spec_route(dist@, start as int));
        assert(seq![(end as int) as usize] =~= seq![end]);
        assert(is_distance_field(
            dist@,
            passable@,
            seq![(end as int) as usize],
            UNREACHABLE as int,
        ));
        assert(is_the_route(passable@, start as int, end as int, steps@));
    }
    NavigationPath { destination: end, success: true, steps }
}

/// A route is a chain: every step is next to the one before it, the first
/// next to the start, and the last is the end.
pub proof fn lemma_route_is_chain(passable: Seq<bool>, start: int, end: int, steps: Seq<usize>)
    requires
        is_route(passable, start, end, steps),
    ensures
        steps.len() == 0 ==> start == end,
        steps.len() > 0 ==> spec_adjacent(start, steps[0] as int) && steps[steps.len() - 1] == end,
        forall|k: int| 0 <= k < steps.len() ==> open_cell(passable, #[trigger] steps[k] as int),
        forall|k: int|
            1 <= k < steps.len() ==> spec_adjacent(steps[k - 1] as int, #[trigger] steps[k] as int),
{
    let p = route_cells(start, steps);
    if steps.len() > 0 {
        assert(crate::graph::step_ok(p, 0));
        assert(p[1] == steps[0]);
    }
    assert forall|k: int| 0 <= k < steps.len() implies open_cell(passable, #[trigger] steps[k] as int) by {
        assert(open_cell(passable, p[k + 1]));
    }
    assert forall|k: int| 1 <= k < steps.len() implies spec_adjacent(
        steps[k - 1] as int,
        #[trigger] steps[k] as int,
    ) by {
        assert(crate::graph::step_ok(p, k));
        assert(p[k] == steps[k - 1]);
        assert(p[k + 1] == steps[k]);
    }
}

} // verus!
