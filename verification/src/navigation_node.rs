//! Search nodes.
//!
//! Nodes live in an arena owned by one search: each node holds its
//! location, the arena index of its parent, its generation (the
//! hop-count from the root) and its two costs.  Unraveling a node walks
//! the parent links and returns the ordered trajectory.

use vstd::prelude::*;

use crate::arith::sat_add;
use crate::point::Point;

verus! {

/// One element of the search arena.
#[derive(Clone, Copy, Debug, PartialEq, Eq, Structural)]
pub struct Node {
    /// The balloon state this node stands for.
    pub location: Point,
    /// The arena index of the parent; the root has none.
    pub previous: Option<usize>,
    /// Hop-count from the root.
    pub generation: usize,
    /// Heuristic cost in micro-cost units.
    pub heuristic_cost: i64,
    /// Accumulated movement cost in micro-cost units.
    pub movement_cost: i64,
}

impl Node {
    /// Total cost: heuristic plus movement, saturating.
    pub fn cost(&self) -> (r: i64)
        ensures
            r == crate::arith::clamp_spec(
                self.heuristic_cost + self.movement_cost,
                i64::MIN as int,
                i64::MAX as int,
            ),
    {
        sat_add(self.heuristic_cost, self.movement_cost)
    }

    /// The root node of a search.
    pub fn from_point(point: Point) -> (r: Node)
        ensures
            r.location == point,
            r.previous is None,
            r.generation == 0,
            r.heuristic_cost == i64::MAX,
            r.movement_cost == 0,
    {
        Node {
            location: point,
            previous: None,
            generation: 0,
            heuristic_cost: i64::MAX,
            movement_cost: 0,
        }
    }
}

/// The arena invariant: parents come earlier, a child's generation is
/// its parent's plus one, time strictly increases along parent links,
/// and the root generation is zero.
pub open spec fn arena_wf(arena: Seq<Node>) -> bool {
    forall|i: int|
        0 <= i < arena.len() ==> match (#[trigger] arena[i]).previous {
            Some(p) => p < i && arena[p as int].generation + 1 == arena[i].generation
                && arena[p as int].location.time < arena[i].location.time,
            None => arena[i].generation == 0,
        }
}

/// The arena index reached by walking `k` parent links up from `i`.
pub open spec fn ancestor_spec(arena: Seq<Node>, i: int, k: int) -> int
    decreases k,
{
    if k <= 0 {
        i
    } else {
        match arena[i].previous {
            Some(p) => ancestor_spec(arena, p as int, k - 1),
            None => i,
        }
    }
}

/// Walking up one more link reaches the parent of the `k`-th ancestor,
/// whose generation drops by one at each step.
pub proof fn lemma_ancestor_step(arena: Seq<Node>, i: int, k: int)
    requires
        arena_wf(arena),
        0 <= i < arena.len(),
        0 <= k <= arena[i].generation,
    ensures
        0 <= ancestor_spec(arena, i, k) < arena.len(),
        ancestor_spec(arena, i, k) <= i,
        arena[ancestor_spec(arena, i, k)].generation == arena[i].generation - k,
        k < arena[i].generation ==> arena[ancestor_spec(arena, i, k)].previous is Some,
        k > 0 ==> (arena[ancestor_spec(arena, i, k - 1)].previous matches Some(p) && p as int
            == ancestor_spec(arena, i, k)),
        k > 0 ==> arena[ancestor_spec(arena, i, k)].location.time
            < arena[ancestor_spec(arena, i, k - 1)].location.time,
    decreases k,
{
    if k > 0 {
        match arena[i].previous {
            Some(p) => {
                lemma_ancestor_step(arena, p as int, k - 1);
                if k == 1 {
                }
            },
            None => {
                assert(arena[i].generation == 0);
            },
        }
    }
}

/// Times never increase walking up the parent links.
pub proof fn lemma_ancestor_time(arena: Seq<Node>, i: int, k: int)
    requires
        arena_wf(arena),
        0 <= i < arena.len(),
        0 <= k <= arena[i].generation,
    ensures
        arena[ancestor_spec(arena, i, k)].location.time <= arena[i].location.time,
    decreases k,
{
    if k > 0 {
        lemma_ancestor_step(arena, i, k);
        lemma_ancestor_time(arena, i, k - 1);
    }
}

/// Walks the parent links of a node and returns the trajectory in
/// order: the root first, the node itself last, exactly one point per
/// generation, with strictly increasing times.
pub fn unravel(arena: &Vec<Node>, idx: usize) -> (r: Vec<Point>)
    requires
        arena_wf(arena@),
        idx < arena@.len(),
    ensures
        r@.len() == arena@[idx as int].generation + 1,
        forall|j: int|
            0 <= j < r@.len() ==> r@[j] == arena@[ancestor_spec(
                arena@,
                idx as int,
                arena@[idx as int].generation - j,
            )].location,
        r@[r@.len() - 1] == arena@[idx as int].location,
        r@[0] == arena@[ancestor_spec(arena@, idx as int, arena@[idx as int].generation as int)].location,
        forall|j: int| 0 <= j < r@.len() - 1 ==> r@[j].time < #[trigger] r@[j + 1].time,
{
    let gen = arena[idx].generation;
    let mut rev: Vec<Point> = Vec::new();
    rev.push(arena[idx].location);
    let mut cur = idx;
    let mut k: usize = 0;
    proof {
        lemma_ancestor_step(arena@, idx as int, 0);
    }
    while k < gen
        invariant
            arena_wf(arena@),
            idx < arena@.len(),
            gen == arena@[idx as int].generation,
            k <= gen,
            cur < arena@.len(),
            cur as int == ancestor_spec(arena@, idx as int, k as int),
            rev@.len() == k + 1,
            forall|j: int|
                0 <= j < rev@.len() ==> rev@[j] == arena@[ancestor_spec(
                    arena@,
                    idx as int,
                    j,
                )].location,
        decreases gen - k,
    {
        proof {
            lemma_ancestor_step(arena@, idx as int, k as int);
            lemma_ancestor_step(arena@, idx as int, k as int + 1);
        }
        let p = match arena[cur].previous {
            Some(p) => p,
            None => {
                proof {
                    assert(false);
                }
                0
            },
        };
        cur = p;
        rev.push(arena[cur].location);
        k = k + 1;
    }
    let n = rev.len();
    let mut out: Vec<Point> = Vec::new();
    let mut j: usize = 0;
    while j < n
        invariant
            n == rev@.len(),
            j <= n,
            out@.len() == j,
            forall|q: int| 0 <= q < j ==> out@[q] == rev@[n - 1 - q],
        decreases n - j,
    {
        out.push(rev[n - 1 - j]);
        j = j + 1;
    }
    proof {
        assert forall|j2: int| 0 <= j2 < out@.len() implies out@[j2] == arena@[ancestor_spec(
            arena@,
            idx as int,
            arena@[idx as int].generation - j2,
        )].location by {
            assert(out@[j2] == rev@[gen as int - j2]);
        }
        assert forall|j2: int| 0 <= j2 < out@.len() - 1 implies out@[j2].time
            < #[trigger] out@[j2 + 1].time by {
            let k2 = gen as int - j2;
            lemma_ancestor_step(arena@, idx as int, k2);
            assert(out@[j2] == arena@[ancestor_spec(arena@, idx as int, k2)].location);
            assert(out@[j2 + 1] == arena@[ancestor_spec(arena@, idx as int, k2 - 1)].location);
        }
        assert(out@[out@.len() - 1] == arena@[ancestor_spec(arena@, idx as int, 0)].location);
    }
    out
}

} // verus!
