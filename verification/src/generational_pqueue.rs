//! The generational priority queue: one pool of candidate nodes per
//! generation, plus a per-generation bias cost that may change at any
//! time.  Dequeue takes, over the non-empty generations, the entry of
//! least biased cost, the lowest generation and then the earliest
//! entry winning ties.

use vstd::prelude::*;

use crate::arith::sat_add;

verus! {

/// The default stagnation bias, in micro-cost units (0.1).
pub const DEFAULT_STAGNATION_COST: i64 = 100_000;

/// One queue entry: a cost and the arena index of its node.
#[derive(Clone, Copy, Debug, PartialEq, Eq, Structural)]
pub struct QueueEntry {
    /// Total node cost in micro-cost units.
    pub cost: i64,
    /// Arena index of the node.
    pub node: usize,
}

/// Generations of entry pools with their bias costs.
pub struct GenerationalPQueue {
    /// Per-generation bias costs, in micro-cost units.
    pub costs: Vec<i64>,
    /// Per-generation entry pools.
    pub generations: Vec<Vec<QueueEntry>>,
}

/// Saturating addition at the `i64` range, as a specification value.
pub open spec fn sat_add_spec(a: int, b: int) -> int {
    crate::arith::clamp_spec(a + b, i64::MIN as int, i64::MAX as int)
}

/// The earliest index of a least-cost entry, scanning from `i` with
/// `best` the best so far.
pub open spec fn min_idx_scan_spec(s: Seq<QueueEntry>, i: int, best: int) -> int
    decreases s.len() - i,
{
    if i < 0 || i >= s.len() {
        best
    } else if 0 <= best < s.len() && s[i].cost >= s[best].cost {
        min_idx_scan_spec(s, i + 1, best)
    } else {
        min_idx_scan_spec(s, i + 1, i)
    }
}

/// The earliest index of a least-cost entry.
pub open spec fn min_idx_spec(s: Seq<QueueEntry>) -> int {
    min_idx_scan_spec(s, 1, 0)
}

proof fn lemma_min_idx_scan(s: Seq<QueueEntry>, i: int, best: int)
    requires
        1 <= i <= s.len(),
        0 <= best < i,
        forall|j: int| 0 <= j < i ==> s[best].cost <= (#[trigger] s[j]).cost,
        forall|j: int| 0 <= j < best ==> (#[trigger] s[j]).cost > s[best].cost,
    ensures
        ({
            let r = min_idx_scan_spec(s, i, best);
            &&& 0 <= r < s.len()
            &&& forall|j: int| 0 <= j < s.len() ==> s[r].cost <= (#[trigger] s[j]).cost
            &&& forall|j: int| 0 <= j < r ==> (#[trigger] s[j]).cost > s[r].cost
        }),
    decreases s.len() - i,
{
    if i < s.len() {
        if s[i].cost >= s[best].cost {
            lemma_min_idx_scan(s, i + 1, best);
        } else {
            lemma_min_idx_scan(s, i + 1, i);
        }
    }
}

/// The least-cost index of a non-empty pool: its properties.
pub proof fn lemma_min_idx(s: Seq<QueueEntry>)
    requires
        s.len() > 0,
    ensures
        0 <= min_idx_spec(s) < s.len(),
        forall|j: int| 0 <= j < s.len() ==> s[min_idx_spec(s)].cost <= (#[trigger] s[j]).cost,
        forall|j: int| 0 <= j < min_idx_spec(s) ==> (#[trigger] s[j]).cost > s[min_idx_spec(s)].cost,
{
    lemma_min_idx_scan(s, 1, 0);
}

impl GenerationalPQueue {
    /// The entry pools, generation by generation.
    pub open spec fn pools(self) -> Seq<Seq<QueueEntry>> {
        self.generations@.map_values(|v: Vec<QueueEntry>| v@)
    }

    /// The bias costs.
    pub open spec fn biases(self) -> Seq<i64> {
        self.costs@
    }

    /// Both vectors always have one slot per known generation.
    pub open spec fn wf(self) -> bool {
        self.costs@.len() == self.generations@.len()
    }

    /// No generation holds an entry.
    pub open spec fn is_empty_spec(self) -> bool {
        forall|g: int| 0 <= g < self.pools().len() ==> (#[trigger] self.pools()[g]).len() == 0
    }

    /// An empty queue.
    pub fn new() -> (r: GenerationalPQueue)
        ensures
            r.wf(),
            r.pools().len() == 0,
    {
        GenerationalPQueue { costs: Vec::new(), generations: Vec::new() }
    }

    /// Grows the vectors so that `generation` is a valid slot, filling
    /// new bias slots with the default stagnation cost.
    fn allocate_at_least(&mut self, generation: usize)
        requires
            old(self).wf(),
        ensures
            final(self).wf(),
            final(self).pools().len() > generation,
            final(self).pools().len() >= old(self).pools().len(),
            forall|g: int|
                0 <= g < old(self).pools().len() ==> final(self).pools()[g] == old(self).pools()[g]
                    && final(self).biases()[g] == old(self).biases()[g],
            forall|g: int|
                old(self).pools().len() <= g < final(self).pools().len() ==> (#[trigger] final(self).pools()[g]).len() == 0 && final(self).biases()[g] == DEFAULT_STAGNATION_COST,
    {
        while self.generations.len() <= generation
            invariant
                self.wf(),
                self.pools().len() >= old(self).pools().len(),
                forall|g: int|
                    0 <= g < old(self).pools().len() ==> self.pools()[g] == old(self).pools()[g]
                        && self.biases()[g] == old(self).biases()[g],
                forall|g: int|
                    old(self).pools().len() <= g < self.pools().len() ==> (#[trigger] self.pools()[g]).len()
                        == 0 && self.biases()[g] == DEFAULT_STAGNATION_COST,
            decreases generation + 1 - self.generations.len(),
        {
            let ghost pre = *self;
            let fresh: Vec<QueueEntry> = Vec::new();
            self.costs.push(DEFAULT_STAGNATION_COST);
            self.generations.push(fresh);
            proof {
                assert(self.costs@ == pre.costs@.push(DEFAULT_STAGNATION_COST));
                assert(self.generations@ == pre.generations@.push(fresh));
                assert forall|g: int|
                    0 <= g < self.biases().len() implies self.biases()[g] == (if g
                    < pre.biases().len() {
                    pre.biases()[g]
                } else {
                    DEFAULT_STAGNATION_COST
                }) by {}
                assert forall|g: int|
                    0 <= g < old(self).pools().len() implies self.pools()[g] == old(self).pools()[g] by {
                    assert(self.generations@[g] == pre.generations@[g]);
                }
                assert forall|g: int|
                    old(self).pools().len() <= g < self.pools().len() implies (#[trigger] self.pools()[g]).len()
                    == 0 && self.biases()[g] == DEFAULT_STAGNATION_COST by {
                    if g < pre.pools().len() {
                        assert(pre.pools()[g].len() == 0);
                        assert(self.generations@[g] == pre.generations@[g]);
                    } else {
                        assert(self.generations@[g] == fresh);
                    }
                }
            }
        }
    }

    /// Adds a node's entry to its generation's pool.
    pub fn enqueue(&mut self, generation: usize, cost: i64, node: usize)
        requires
            old(self).wf(),
        ensures
            final(self).wf(),
            final(self).pools().len() > generation,
            final(self).pools().len() >= old(self).pools().len(),
            final(self).pools()[generation as int] == (if generation < old(self).pools().len() {
                old(self).pools()[generation as int]
            } else {
                Seq::<QueueEntry>::empty()
            }).push(QueueEntry { cost, node }),
            forall|g: int|
                0 <= g < old(self).pools().len() && g != generation ==> final(self).pools()[g]
                    == old(self).pools()[g] && final(self).biases()[g] == old(self).biases()[g],
            forall|g: int|
                old(self).pools().len() <= g < final(self).pools().len() && g != generation ==> (
                #[trigger] final(self).pools()[g]).len() == 0,
    {
        self.allocate_at_least(generation);
        let ghost mid = *self;
        let entry = QueueEntry { cost, node };
        let mut slot = self.generations.remove(generation);
        slot.push(entry);
        self.generations.insert(generation, slot);
        proof {
            assert(self.generations@ =~= mid.generations@.update(generation as int, slot));
            assert forall|g: int|
                0 <= g < self.pools().len() && g != generation implies self.pools()[g]
                == mid.pools()[g] by {
                assert(self.generations@[g] == mid.generations@[g]);
            }
            assert(slot@ == mid.pools()[generation as int].push(entry));
            assert(self.pools()[generation as int] == slot@);
            assert forall|g: int|
                old(self).pools().len() <= g < self.pools().len() && g != generation implies (
            #[trigger] self.pools()[g]).len() == 0 by {
                assert(self.generations@[g] == mid.generations@[g]);
                assert(mid.pools()[g].len() == 0);
            }
            if generation >= old(self).pools().len() {
                assert(mid.pools()[generation as int].len() == 0);
                assert(mid.pools()[generation as int] =~= Seq::<QueueEntry>::empty());
            }
        }
    }

    /// Updates a generation's bias cost.
    pub fn set_cost(&mut self, generation: usize, cost: i64)
        requires
            old(self).wf(),
        ensures
            final(self).wf(),
            final(self).pools().len() > generation,
            final(self).pools().len() >= old(self).pools().len(),
            final(self).biases()[generation as int] == cost,
            forall|g: int|
                0 <= g < old(self).pools().len() && g != generation ==> final(self).biases()[g]
                    == old(self).biases()[g],
            forall|g: int|
                0 <= g < final(self).pools().len() ==> final(self).pools()[g] == (if g < old(self).pools().len() {
                    old(self).pools()[g]
                } else {
                    Seq::<QueueEntry>::empty()
                }),
    {
        self.allocate_at_least(generation);
        let ghost mid = *self;
        self.costs[generation] = cost;
        proof {
            assert forall|g: int| 0 <= g < self.pools().len() implies self.pools()[g] == (if g
                < old(self).pools().len() {
                old(self).pools()[g]
            } else {
                Seq::<QueueEntry>::empty()
            }) by {
                assert(self.generations@[g] == mid.generations@[g]);
                if g >= old(self).pools().len() {
                    assert(mid.pools()[g].len() == 0);
                    assert(mid.pools()[g] =~= Seq::<QueueEntry>::empty());
                }
            }
        }
    }

    /// The earliest least-cost entry of one pool.
    fn min_idx(entries: &Vec<QueueEntry>) -> (r: usize)
        requires
            entries@.len() > 0,
        ensures
            r == min_idx_spec(entries@),
            r < entries@.len(),
    {
        let mut best: usize = 0;
        let mut i: usize = 1;
        while i < entries.len()
            invariant
                entries@.len() > 0,
                best < i <= entries@.len(),
                min_idx_spec(entries@) == min_idx_scan_spec(entries@, i as int, best as int),
            decreases entries@.len() - i,
        {
            if entries[i].cost < entries[best].cost {
                best = i;
            }
            i = i + 1;
        }
        best
    }

    /// Pops the best entry: over the non-empty generations, the least
    /// entry cost plus generation bias, the lowest generation and then
    /// the earliest entry winning ties.  Returns the generation and the
    /// entry.
    pub fn dequeue(&mut self) -> (r: Option<(usize, QueueEntry)>)
        requires
            old(self).wf(),
        ensures
            final(self).wf(),
            final(self).biases() == old(self).biases(),
            match r {
                None => old(self).is_empty_spec() && final(self).pools() == old(self).pools(),
                Some((g, e)) => {
                    let pool = old(self).pools()[g as int];
                    let mi = min_idx_spec(pool);
                    &&& (g as int) < old(self).pools().len()
                    &&& pool.len() > 0
                    &&& 0 <= mi < pool.len()
                    &&& e == pool[mi]
                    &&& final(self).pools() == old(self).pools().update(g as int, pool.remove(mi))
                    &&& forall|g2: int, j: int|
                        0 <= g2 < old(self).pools().len() && 0 <= j < old(self).pools()[g2].len()
                            ==> sat_add_spec(e.cost as int, old(self).biases()[g as int] as int)
                            <= sat_add_spec(
                            (#[trigger] old(self).pools()[g2][j]).cost as int,
                            old(self).biases()[g2] as int,
                        )
                    &&& forall|g2: int|
                        0 <= g2 < g && (#[trigger] old(self).pools()[g2]).len() > 0
                            ==> sat_add_spec(
                            old(self).pools()[g2][min_idx_spec(old(self).pools()[g2])].cost as int,
                            old(self).biases()[g2] as int,
                        ) > sat_add_spec(e.cost as int, old(self).biases()[g as int] as int)
                },
            },
    {
        let mut best_generation: usize = 0;
        let mut found = false;
        let mut best_cost: i64 = 0;
        let n = self.generations.len();
        let mut g: usize = 0;
        while g < n
            invariant
                self.wf(),
                *self == *old(self),
                n == self.generations@.len(),
                g <= n,
                !found ==> forall|g2: int|
                    0 <= g2 < g ==> (#[trigger] self.pools()[g2]).len() == 0,
                found ==> {
                    &&& (best_generation as int) < g
                    &&& self.pools()[best_generation as int].len() > 0
                    &&& best_cost == sat_add_spec(
                        self.pools()[best_generation as int][min_idx_spec(
                            self.pools()[best_generation as int],
                        )].cost as int,
                        self.biases()[best_generation as int] as int,
                    )
                    &&& forall|g2: int, j: int|
                        0 <= g2 < g && 0 <= j < self.pools()[g2].len() ==> best_cost as int
                            <= sat_add_spec(
                            (#[trigger] self.pools()[g2][j]).cost as int,
                            self.biases()[g2] as int,
                        )
                    &&& forall|g2: int|
                        0 <= g2 < best_generation && (#[trigger] self.pools()[g2]).len() > 0
                            ==> sat_add_spec(
                            self.pools()[g2][min_idx_spec(self.pools()[g2])].cost as int,
                            self.biases()[g2] as int,
                        ) > best_cost as int
                },
            decreases n - g,
        {
            if self.generations[g].len() > 0 {
                let mi = Self::min_idx(&self.generations[g]);
                proof {
                    lemma_min_idx(self.pools()[g as int]);
                }
                let cost = sat_add(self.generations[g][mi].cost, self.costs[g]);
                if !found || cost < best_cost {
                    proof {
                        if found {
                            assert forall|g2: int|
                                0 <= g2 < g && (#[trigger] self.pools()[g2]).len() > 0 implies
                                sat_add_spec(
                                self.pools()[g2][min_idx_spec(self.pools()[g2])].cost as int,
                                self.biases()[g2] as int,
                            ) > cost as int by {
                                lemma_min_idx(self.pools()[g2]);
                            }
                        }
                    }
                    best_cost = cost;
                    best_generation = g;
                    found = true;
                }
            }
            g = g + 1;
        }
        if !found {
            return None;
        }
        let ghost pre = *self;
        let mi = Self::min_idx(&self.generations[best_generation]);
        proof {
            lemma_min_idx(pre.pools()[best_generation as int]);
        }
        let mut slot = self.generations.remove(best_generation);
        let entry = slot.remove(mi);
        self.generations.insert(best_generation, slot);
        proof {
            assert(self.generations@ =~= pre.generations@.update(best_generation as int, slot));
            assert(self.pools() =~= pre.pools().update(
                best_generation as int,
                pre.pools()[best_generation as int].remove(min_idx_spec(
                    pre.pools()[best_generation as int],
                )),
            )) by {
                assert forall|g2: int| 0 <= g2 < self.pools().len() implies self.pools()[g2]
                    == pre.pools().update(
                    best_generation as int,
                    pre.pools()[best_generation as int].remove(min_idx_spec(
                        pre.pools()[best_generation as int],
                    )),
                )[g2] by {
                    if g2 != best_generation {
                        assert(self.generations@[g2] == pre.generations@[g2]);
                    }
                }
            }
        }
        Some((best_generation, entry))
    }
}

} // verus!
