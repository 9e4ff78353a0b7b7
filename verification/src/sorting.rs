//! Ordering rooms from left to right.

use vstd::prelude::*;
use crate::rect::Rect;

verus! {

/// A room: its rectangle, and a number that tells when it was accepted: of
/// two rooms, the one with the lower number was accepted first.
pub type Room = (Rect, usize);

/// `after` holds the rooms of `before` in ascending order of `x1`, rooms with
/// the same `x1` in the order that they had in `before`; `perm[k]` is the
/// place in `before` of the room that stands at `k` in `after`.
pub open spec fn stably_sorted(before: Seq<Room>, after: Seq<Room>, perm: Seq<int>) -> bool {
    &&& after.len() == before.len()
    &&& perm.len() == before.len()
    &&& forall|k: int|
        0 <= k < perm.len() ==> 0 <= #[trigger] perm[k] < before.len() && after[k] == before[perm[k]]
    &&& forall|k1: int, k2: int| 0 <= k1 < k2 < perm.len() ==> perm[k1] != perm[k2]
    &&& forall|k1: int, k2: int| 0 <= k1 < k2 < after.len() ==> after[k1].0.x1 <= after[k2].0.x1
    &&& forall|k1: int, k2: int|
        0 <= k1 < k2 < after.len() && after[k1].0.x1 == after[k2].0.x1 ==> perm[k1] < perm[k2]
}

/// Whether the rooms stand in ascending order of `x1`.
pub open spec fn sorted_by_x1(rooms: Seq<Room>) -> bool {
    forall|k1: int, k2: int| 0 <= k1 < k2 < rooms.len() ==> rooms[k1].0.x1 <= rooms[k2].0.x1
}

/// Sorts the rooms by ascending `x1`. Rooms with the same `x1` keep their
/// order.
pub fn sort_rooms(rooms: &mut Vec<Room>)
    ensures
        exists|perm: Seq<int>| stably_sorted(old(rooms)@, final(rooms)@, perm),
        sorted_by_x1(final(rooms)@),
{
    let n: usize = rooms.len();
    let ghost mut perm: Seq<int> = Seq::new(n as nat, |k: int| k);
    let mut i: usize = 0;
    while i < n
        invariant
            i <= n,
            rooms.len() == n,
            old(rooms).len() == n,
            perm.len() == n,
            forall|k: int| 0 <= k < n ==> 0 <= #[trigger] perm[k] < n && rooms@[k] == old(rooms)@[perm[k]],
            forall|k1: int, k2: int| 0 <= k1 < k2 < n ==> perm[k1] != perm[k2],
            forall|k: int| i <= k < n ==> perm[k] == k,
            forall|k: int| 0 <= k < i ==> perm[k] < i,
            forall|k1: int, k2: int| 0 <= k1 < k2 < i ==> rooms@[k1].0.x1 <= rooms@[k2].0.x1,
            forall|k1: int, k2: int|
                0 <= k1 < k2 < i && rooms@[k1].0.x1 == rooms@[k2].0.x1 ==> perm[k1] < perm[k2],
        decreases n - i,
    {
        let mut j: usize = i;
        while j > 0 && rooms[j - 1].0.x1 > rooms[j].0.x1
            invariant
                j <= i < n,
                rooms.len() == n,
                old(rooms).len() == n,
                perm.len() == n,
                forall|k: int|
                    0 <= k < n ==> 0 <= #[trigger] perm[k] < n && rooms@[k] == old(rooms)@[perm[k]],
                forall|k1: int, k2: int| 0 <= k1 < k2 < n ==> perm[k1] != perm[k2],
                forall|k: int| i < k < n ==> perm[k] == k,
                perm[j as int] == i,
                forall|k: int| 0 <= k <= i && k != j ==> perm[k] < i,
                forall|k: int| j < k <= i ==> rooms@[k].0.x1 > rooms@[j as int].0.x1,
                forall|k1: int, k2: int|
                    0 <= k1 < k2 <= i && k1 != j && k2 != j ==> rooms@[k1].0.x1 <= rooms@[k2].0.x1,
                forall|k1: int, k2: int|
                    0 <= k1 < k2 <= i && k1 != j && k2 != j && rooms@[k1].0.x1 == rooms@[k2].0.x1
                        ==> perm[k1] < perm[k2],
            decreases j,
        {
            let left: Room = rooms[j - 1];
            let right: Room = rooms[j];
            rooms.set(j - 1, right);
            rooms.set(j, left);
            proof {
                let a = perm[j - 1];
                let b = perm[j as int];
                perm = perm.update(j - 1, b).update(j as int, a);
            }
            j -= 1;
        }
        i += 1;
    }
    assert(stably_sorted(old(rooms)@, rooms@, perm));
}

/// A sorted list holds the rooms that went in, each as often as before.
pub proof fn lemma_sorted_same_rooms(before: Seq<Room>, after: Seq<Room>, perm: Seq<int>)
    requires
        stably_sorted(before, after, perm),
    ensures
        forall|k: int| 0 <= k < after.len() ==> before.contains(#[trigger] after[k]),
        forall|i: int| 0 <= i < before.len() ==> after.contains(#[trigger] before[i]),
{
    assert forall|k: int| 0 <= k < after.len() implies before.contains(#[trigger] after[k]) by {
        assert(before[perm[k]] == after[k]);
    }
    lemma_injective_is_onto(perm, before.len() as int);
    assert forall|i: int| 0 <= i < before.len() implies after.contains(#[trigger] before[i]) by {
        assert(perm.contains(i));
        let k = choose|k: int| 0 <= k < perm.len() && perm[k] == i;
        assert(after[k] == before[i]);
    }
}

/// There is only one way to sort a list stably: two sorted lists of the same
/// rooms are the same list.
pub proof fn lemma_stable_sort_unique(
    before: Seq<Room>,
    first: Seq<Room>,
    first_perm: Seq<int>,
    second: Seq<Room>,
    second_perm: Seq<int>,
)
    requires
        stably_sorted(before, first, first_perm),
        stably_sorted(before, second, second_perm),
    ensures
        first == second,
        first_perm == second_perm,
{
    let n = before.len() as int;
    lemma_same_places(before, first, first_perm, second, second_perm, n);
    assert(first_perm =~= second_perm);
    assert forall|k: int| 0 <= k < n implies first[k] == second[k] by {
        assert(first[k] == before[first_perm[k]]);
        assert(second[k] == before[second_perm[k]]);
    }
    assert(first =~= second);
}

/// Two stable sorts of the same rooms agree on the first `upto` places.
proof fn lemma_same_places(
    before: Seq<Room>,
    first: Seq<Room>,
    first_perm: Seq<int>,
    second: Seq<Room>,
    second_perm: Seq<int>,
    upto: int,
)
    requires
        stably_sorted(before, first, first_perm),
        stably_sorted(before, second, second_perm),
        0 <= upto <= before.len(),
    ensures
        forall|k: int| 0 <= k < upto ==> first_perm[k] == second_perm[k],
    decreases upto,
{
    if upto > 0 {
        lemma_same_places(before, first, first_perm, second, second_perm, upto - 1);
        let n = before.len() as int;
        let k = upto - 1;
        let a = first_perm[k];
        let b = second_perm[k];
        if a != b {
            lemma_injective_is_onto(first_perm, n);
            lemma_injective_is_onto(second_perm, n);
            assert(second_perm.contains(a));
            let m = choose|m: int| 0 <= m < n && second_perm[m] == a;
            assert(first_perm.contains(b));
            let l = choose|l: int| 0 <= l < n && first_perm[l] == b;
            // Neither can stand before the place `k`: there the two agree.
            if m < k {
                assert(first_perm[m] == second_perm[m]);
                assert(first_perm[m] != first_perm[k]);
            }
            if l < k {
                assert(first_perm[l] == second_perm[l]);
                assert(second_perm[l] != second_perm[k]);
            }
            assert(m > k && l > k);
            assert(second[k] == before[b] && second[m] == before[a]);
            assert(first[k] == before[a] && first[l] == before[b]);
            assert(second[k].0.x1 <= second[m].0.x1);
            assert(first[k].0.x1 <= first[l].0.x1);
            assert(second_perm[k] < second_perm[m]);
            assert(first_perm[k] < first_perm[l]);
            assert(false);
        }
    }
}

/// A list of `n` different numbers below `n` holds every number below `n`.
pub proof fn lemma_injective_is_onto(perm: Seq<int>, n: int)
    requires
        perm.len() == n,
        forall|k: int| 0 <= k < n ==> 0 <= #[trigger] perm[k] < n,
        forall|k1: int, k2: int| 0 <= k1 < k2 < n ==> perm[k1] != perm[k2],
    ensures
        forall|i: int| 0 <= i < n ==> #[trigger] perm.contains(i),
    decreases n,
{
    if n > 0 {
        // Move the place that holds n - 1, if any, to the end, and drop it.
        let last = perm[n - 1];
        if exists|k: int| 0 <= k < n && perm[k] == n - 1 {
            let at = choose|k: int| 0 <= k < n && perm[k] == n - 1;
            let rest = perm.update(at, last).drop_last();
            assert forall|k: int| 0 <= k < n - 1 implies 0 <= #[trigger] rest[k] < n - 1 by {
                if k == at {
                    assert(rest[k] == last);
                    assert(perm[n - 1] != perm[at]);
                } else {
                    assert(rest[k] == perm[k]);
                    assert(perm[k] != perm[at]);
                }
            }
            assert forall|k1: int, k2: int| 0 <= k1 < k2 < n - 1 implies rest[k1] != rest[k2] by {
                let v1 = if k1 == at { n - 1 } else { k1 };
                let v2 = if k2 == at { n - 1 } else { k2 };
                assert(rest[k1] == perm[v1]);
                assert(rest[k2] == perm[v2]);
                assert(v1 != v2);
            }
            lemma_injective_is_onto(rest, n - 1);
            assert forall|i: int| 0 <= i < n implies #[trigger] perm.contains(i) by {
                if i == n - 1 {
                    assert(perm[at] == i);
                } else {
                    assert(rest.contains(i));
                    let k = choose|k: int| 0 <= k < n - 1 && rest[k] == i;
                    if k == at {
                        assert(perm[n - 1] == i);
                    } else {
                        assert(perm[k] == i);
                    }
                }
            }
        } else {
            // n numbers below n - 1, all different: impossible.
            let rest = perm.drop_last();
            assert forall|k: int| 0 <= k < n - 1 implies 0 <= #[trigger] rest[k] < n - 1 by {
                assert(rest[k] == perm[k]);
            }
            assert forall|k1: int, k2: int| 0 <= k1 < k2 < n - 1 implies rest[k1] != rest[k2] by {
                assert(rest[k1] == perm[k1]);
                assert(rest[k2] == perm[k2]);
            }
            lemma_injective_is_onto(rest, n - 1);
            if n - 1 > 0 {
                assert(0 <= last < n - 1);
                assert(rest.contains(last));
                let k = choose|k: int| 0 <= k < n - 1 && rest[k] == last;
                assert(perm[k] == perm[n - 1]);
                assert(false);
            } else {
                assert(0 <= perm[0] < 1);
                assert(perm[0] == n - 1);
                assert(false);
            }
        }
    }
}

} // verus!
