//! Guided navigation: a time-boxed, generational best-first search for
//! an altitude schedule that steers the balloon toward a destination or
//! the farthest downrange longitude.

use vstd::prelude::*;

use crate::arith::{clamp_spec, div_tz, div_tz_spec, isqrt, sat_add};
use crate::clock::now_unix;
use crate::dataset::Dataset;
use crate::dataset_reader::DataSetReader;
use crate::errors::PredictorError;
use crate::generational_pqueue::{GenerationalPQueue, QueueEntry, DEFAULT_STAGNATION_COST};
use crate::navigation_node::{ancestor_spec, arena_wf, unravel, Node};
use crate::point::{Point, TIME_LIMIT};
use crate::predictor::{
    float_fails_spec, predict, Prediction, PredictionProfile, PredictorParams, DURATION_LIMIT,
};

verus! {

/// The heuristic weight of the navigator.
pub const HEURISTIC_WEIGHT: i64 = 30;

/// The stagnation multiplier in micro-cost units (0.01).
pub const STAGNATION_MULTIPLIER: i64 = 10_000;

/// The altitude ceiling of a candidate, in millimeters (20,000 m).
pub const ALTITUDE_CEILING: i64 = 20_000_000;

/// The hard cap on search iterations, a safety net beside the
/// wall-clock deadline.
pub const ITERATION_LIMIT: u64 = 10_000_000;

/// What the search steers toward.
pub enum GuidanceType {
    /// Maximize downrange longitude.
    Distance,
    /// Approach a destination point.
    Destination(Point),
}

/// All parameters of a navigation search.
pub struct GuidanceParams {
    pub launch: Point,
    /// Wall-clock budget in seconds.
    pub timeout: i64,
    /// Total simulated duration bound, in seconds.
    pub duration: i64,
    /// Simulated seconds per expansion.
    pub time_increment: i64,
    /// Number of candidate altitudes either side of the float path.
    pub altitude_variance: u32,
    /// Altitude step between candidates, in millimeters.
    pub altitude_increment: u32,
    /// Also run the naive float baseline over the elapsed time.
    pub compare_with_naive: bool,
    pub guidance_type: GuidanceType,
}

/// Counters of one finished search.
pub struct GuidanceMetadata {
    pub nodes_checked: usize,
    /// The generation of the returned node.
    pub generation: usize,
    pub max_generation_reached: usize,
}

/// The result of a navigation search.
pub struct Guidance {
    pub metadata: GuidanceMetadata,
    pub positions: Vec<Point>,
    pub naive: Option<Vec<Point>>,
}

/// The score of a node's location: higher is better.  Toward a
/// destination it is the negated squared coordinate gap; for distance
/// it unrolls the longitude across the antimeridian.
pub open spec fn score_spec(t: GuidanceType, p: Point) -> int {
    match t {
        GuidanceType::Destination(d) => {
            let dlon = p.longitude - d.longitude;
            let dlat = p.latitude - d.latitude;
            clamp_spec(-(dlon * dlon + dlat * dlat), i64::MIN as int, i64::MAX as int)
        },
        GuidanceType::Distance => {
            if p.longitude < -140_000_000 {
                p.longitude + 540_000_000
            } else {
                p.longitude + 180_000_000
            }
        },
    }
}

/// A destination, when there is one, is a well-formed point.
pub open spec fn guidance_type_wf(t: GuidanceType) -> bool {
    match t {
        GuidanceType::Destination(d) => d.wf(),
        GuidanceType::Distance => true,
    }
}

/// The score of a location.
pub fn score(t: &GuidanceType, p: &Point) -> (r: i64)
    requires
        p.wf(),
        guidance_type_wf(*t),
    ensures
        r == score_spec(*t, *p),
{
    match t {
        GuidanceType::Destination(d) => {
            let dlon: i128 = (p.longitude as i128) - (d.longitude as i128);
            let dlat: i128 = (p.latitude as i128) - (d.latitude as i128);
            proof {
                assert(dlon * dlon >= 0 && dlon * dlon <= 0x1_0000_0000_0000_0000_0000_0000)
                    by (nonlinear_arith)
                    requires
                        -0x1_0000_0000_0000 <= dlon <= 0x1_0000_0000_0000,
                ;
                assert(dlat * dlat >= 0 && dlat * dlat <= 0x1_0000_0000_0000_0000_0000_0000)
                    by (nonlinear_arith)
                    requires
                        -0x1_0000_0000_0000 <= dlat <= 0x1_0000_0000_0000,
                ;
            }
            let s: i128 = -(dlon * dlon + dlat * dlat);
            if s < (i64::MIN as i128) {
                i64::MIN
            } else {
                s as i64
            }
        },
        GuidanceType::Distance => {
            if p.longitude < -140_000_000 {
                p.longitude + 540_000_000
            } else {
                p.longitude + 180_000_000
            }
        },
    }
}

/// The Distance heuristic: the westward longitude change over one
/// expansion, unrolled across the antimeridian, weighted and divided by
/// the time increment.
pub open spec fn distance_heuristic_spec(from: Point, to: Point, ti: int) -> int {
    let diff = if from.longitude > 0 && to.longitude < 0 {
        from.longitude - (to.longitude + 360_000_000)
    } else if from.longitude < 0 && to.longitude > 0 {
        (from.longitude + 360_000_000) - to.longitude
    } else {
        from.longitude - to.longitude
    };
    div_tz_spec(diff * HEURISTIC_WEIGHT, ti)
}

/// The heuristic of a child reached at `q` from a node at `from`: the
/// weighted distance to the destination, or the weighted westward
/// longitude change per expansion.
pub open spec fn heuristic_spec(t: GuidanceType, from: Point, q: Point, ti: int) -> int {
    match t {
        GuidanceType::Destination(d) => crate::point::dist_spec(q, d) * (HEURISTIC_WEIGHT as int)
            * 1_000_000,
        GuidanceType::Distance => distance_heuristic_spec(from, q, ti),
    }
}

fn heuristic(t: &GuidanceType, from: &Point, q: &Point, ti: i64) -> (r: i64)
    requires
        from.wf(),
        q.wf(),
        guidance_type_wf(*t),
        1 <= ti,
    ensures
        r == heuristic_spec(*t, *from, *q, ti as int),
{
    match t {
        GuidanceType::Destination(d) => {
            let dm = q.distance_to(d);
            proof {
                assert(dm as int * HEURISTIC_WEIGHT * 1_000_000 <= 20_016_000 * 30 * 1_000_000)
                    by (nonlinear_arith)
                    requires
                        0 <= dm <= 20_016_000,
                        (HEURISTIC_WEIGHT as int) == 30,
                ;
            }
            dm * HEURISTIC_WEIGHT * 1_000_000
        },
        GuidanceType::Distance => {
            let diff = if from.longitude > 0 && q.longitude < 0 {
                from.longitude - (q.longitude + 360_000_000)
            } else if from.longitude < 0 && q.longitude > 0 {
                (from.longitude + 360_000_000) - q.longitude
            } else {
                from.longitude - q.longitude
            };
            div_tz(diff * HEURISTIC_WEIGHT, ti)
        },
    }
}

/// The location of one expansion candidate: the float endpoint with
/// its altitude moved by `k` increments (saturating) at the same time.
pub open spec fn candidate_point_spec(q: Point, k: int, inc: int) -> Point {
    Point {
        latitude: q.latitude,
        longitude: q.longitude,
        altitude: crate::arith::clamp_spec(
            q.altitude + k * inc,
            i64::MIN as int,
            i64::MAX as int,
        ) as i64,
        time: q.time,
    }
}

/// Whether a candidate's altitude is admissible: at or above the
/// ground and at or below the ceiling.
pub open spec fn candidate_kept_spec(q: Point, k: int, inc: int) -> bool {
    0 <= candidate_point_spec(q, k, inc).altitude <= ALTITUDE_CEILING
}

/// `q` ends a complete wind-following hop of one time increment from
/// `a`.
#[verifier::opaque]
pub open spec fn float_endpoint_spec(datasets: Seq<Dataset>, a: Point, ti: int, q: Point) -> bool {
    exists|s: Seq<Point>|
        #[trigger] crate::predictor::float_positions_ok(datasets, a, ti, s) && q == s.last()
}

/// Two consecutive trajectory points are connected by one expansion:
/// a float hop of the time increment, then one candidate altitude
/// within the variance, kept inside `[0, ceiling]`.
#[verifier::opaque]
pub open spec fn pair_connected_spec(
    datasets: Seq<Dataset>,
    a: Point,
    b: Point,
    ti: int,
    var: int,
    inc: int,
) -> bool {
    exists|q: Point, k: int|
        {
            &&& float_endpoint_spec(datasets, a, ti, q)
            &&& -var <= k <= var
            &&& b == #[trigger] candidate_point_spec(q, k, inc)
            &&& 0 <= b.altitude <= ALTITUDE_CEILING
        }
}

/// The movement cost of a child at altitude `alt`: the parent's cost
/// plus the square root of the altitude gap, weighted by one tenth
/// (in micro-cost units over millimeters).
pub open spec fn movement_cost_spec(parent: Node, alt: int) -> int {
    let gap = if parent.location.altitude >= alt {
        parent.location.altitude - alt
    } else {
        alt - parent.location.altitude
    };
    crate::generational_pqueue::sat_add_spec(
        parent.movement_cost as int,
        crate::arith::sqrt_floor_spec(gap * 1000) * 100,
    )
}

/// The child node of expansion candidate `k`.
#[verifier::opaque]
pub open spec fn candidate_spec(
    t: GuidanceType,
    node: Node,
    parent_idx: int,
    q: Point,
    k: int,
    inc: int,
    ti: int,
) -> Node {
    let loc = candidate_point_spec(q, k, inc);
    Node {
        location: loc,
        previous: Some(parent_idx as usize),
        generation: (node.generation + 1) as usize,
        heuristic_cost: heuristic_spec(t, node.location, loc, ti) as i64,
        movement_cost: movement_cost_spec(node, loc.altitude as int) as i64,
    }
}

/// The children created by the candidates below `k`, in order.
#[verifier::opaque]
pub open spec fn children_upto_spec(
    t: GuidanceType,
    node: Node,
    parent_idx: int,
    q: Point,
    inc: int,
    ti: int,
    lo: int,
    k: int,
) -> Seq<Node>
    decreases k - lo,
{
    if k <= lo {
        Seq::empty()
    } else {
        children_upto_spec(t, node, parent_idx, q, inc, ti, lo, k - 1) + (if candidate_kept_spec(
            q,
            k - 1,
            inc,
        ) {
            seq![candidate_spec(t, node, parent_idx, q, k - 1, inc, ti)]
        } else {
            Seq::empty()
        })
    }
}

/// All children of one expansion: the kept candidates from `-var` to
/// `var`, in order.
pub open spec fn children_spec(
    t: GuidanceType,
    node: Node,
    parent_idx: int,
    q: Point,
    var: int,
    inc: int,
    ti: int,
) -> Seq<Node> {
    children_upto_spec(t, node, parent_idx, q, inc, ti, -var, var + 1)
}

/// The queue entries of freshly created children whose first arena
/// index is `base_idx`.
#[verifier::opaque]
pub open spec fn child_entries_spec(children: Seq<Node>, base_idx: int) -> Seq<QueueEntry> {
    Seq::new(
        children.len(),
        |j: int|
            QueueEntry {
                cost: crate::generational_pqueue::sat_add_spec(
                    children[j].heuristic_cost as int,
                    children[j].movement_cost as int,
                ) as i64,
                node: (base_idx + j) as usize,
            },
    )
}

/// The duration of the naive baseline: the elapsed time of the found
/// trajectory, capped at the duration limit.
pub open spec fn naive_span_spec(positions: Seq<Point>, launch: Point) -> int {
    let span = positions.last().time - launch.time;
    if span > DURATION_LIMIT {
        DURATION_LIMIT as int
    } else {
        span
    }
}

/// The arena of one search: rooted at the launch node, every later
/// node reached from its parent by one expansion, with times that stay
/// inside the budget of the duration bound.
pub open spec fn search_arena_ok(
    arena: Seq<Node>,
    launch: Point,
    datasets: Seq<Dataset>,
    ti: int,
    duration: int,
    var: int,
    inc: int,
) -> bool {
    &&& arena.len() >= 1
    &&& arena[0].location == launch
    &&& arena[0].generation == 0
    &&& arena_wf(arena)
    &&& forall|i: int|
        1 <= i < arena.len() ==> ((#[trigger] arena[i]).previous matches Some(p)
            && pair_connected_spec(
            datasets,
            arena[p as int].location,
            arena[i].location,
            ti,
            var,
            inc,
        ))
    &&& forall|i: int|
        0 <= i < arena.len() ==> (#[trigger] arena[i]).generation <= i && arena[i].location.wf()
            && arena[i].generation <= duration / ti + 1 && arena[i].location.time <= launch.time
            + arena[i].generation * (ti + 60)
}

/// Everything P-navigation promises of a returned trajectory.
pub open spec fn guidance_positions_ok(positions: Seq<Point>, launch: Point, generation: int) -> bool {
    &&& positions.len() == generation + 1
    &&& positions[0] == launch
    &&& forall|j: int| 0 <= j < positions.len() - 1 ==> positions[j].time < #[trigger] positions[j + 1].time
}

/// The whole expansion budget of a search stays within a small slice of
/// the time bound.
proof fn lemma_time_budget(gen: int, t: int, d: int)
    requires
        1 <= t,
        0 <= d,
        0 <= gen <= d / t + 1,
    ensures
        gen * (t + 60) <= d + t + 60 * d + 60,
{
    vstd::arithmetic::div_mod::lemma_fundamental_div_mod(d, t);
    vstd::arithmetic::div_mod::lemma_div_pos_is_pos(d, t);
    vstd::arithmetic::div_mod::lemma_div_is_ordered_by_denominator(d, 1, t);
    vstd::arithmetic::div_mod::lemma_div_basics(d);
    assert(gen * (t + 60) <= (d / t + 1) * (t + 60)) by (nonlinear_arith)
        requires
            0 <= gen <= d / t + 1,
            t + 60 > 0,
    ;
    assert((d / t + 1) * (t + 60) == (t * (d / t) + t) + (60 * (d / t) + 60)) by (nonlinear_arith);
    assert(t * (d / t) <= d);
    assert(60 * (d / t) <= 60 * d) by (nonlinear_arith)
        requires
            0 <= d / t <= d,
    ;
}

/// A node still to expand may step once more within the budget.
proof fn lemma_gen_step(gen: int, t: int, d: int)
    requires
        1 <= t,
        0 <= d,
        0 <= gen,
        gen * t < d,
    ensures
        gen + 1 <= d / t + 1,
        gen <= d,
{
    vstd::arithmetic::div_mod::lemma_div_by_multiple(gen, t);
    vstd::arithmetic::div_mod::lemma_div_is_ordered(gen * t, d, t);
    assert(gen * t >= gen * 1) by (nonlinear_arith)
        requires
            t >= 1,
            gen >= 0,
    ;
}

/// Appending a well-formed child below its parent keeps the arena
/// well-formed.
proof fn lemma_arena_push(
    arena0: Seq<Node>,
    child: Node,
    launch: Point,
    datasets: Seq<Dataset>,
    ti: int,
    duration: int,
    var: int,
    inc: int,
)
    requires
        search_arena_ok(arena0, launch, datasets, ti, duration, var, inc),
        child.previous matches Some(p) && (p as int) < arena0.len() && arena0[p as int].generation
            + 1 == child.generation && arena0[p as int].location.time < child.location.time
            && pair_connected_spec(
            datasets,
            arena0[p as int].location,
            child.location,
            ti,
            var,
            inc,
        ),
        child.location.wf(),
        child.generation <= duration / ti + 1,
        child.generation <= arena0.len(),
        child.location.time <= launch.time + child.generation * (ti + 60),
    ensures
        search_arena_ok(arena0.push(child), launch, datasets, ti, duration, var, inc),
{
    let a = arena0.push(child);
    assert forall|i: int| 0 <= i < a.len() implies match (#[trigger] a[i]).previous {
        Some(p) => p < i && a[p as int].generation + 1 == a[i].generation
            && a[p as int].location.time < a[i].location.time,
        None => a[i].generation == 0,
    } by {
        if i < a.len() - 1 {
            assert(a[i] == arena0[i]);
            match arena0[i].previous {
                Some(p) => {
                    assert(a[p as int] == arena0[p as int]);
                },
                None => {},
            }
        } else {
            assert(a[i] == child);
            match child.previous {
                Some(p) => {
                    assert(a[p as int] == arena0[p as int]);
                },
                None => {},
            }
        }
    }
    assert forall|i: int| 1 <= i < a.len() implies ((#[trigger] a[i]).previous matches Some(p)
        && pair_connected_spec(datasets, a[p as int].location, a[i].location, ti, var, inc)) by {
        if i < a.len() - 1 {
            assert(a[i] == arena0[i]);
            match arena0[i].previous {
                Some(p) => {
                    assert(a[p as int] == arena0[p as int]);
                },
                None => {},
            }
        } else {
            assert(a[i] == child);
            match child.previous {
                Some(p) => {
                    assert(a[p as int] == arena0[p as int]);
                },
                None => {},
            }
        }
    }
    assert forall|i: int| 0 <= i < a.len() implies {
        &&& (#[trigger] a[i]).generation <= i
        &&& a[i].location.wf()
        &&& a[i].generation <= duration / ti + 1
        &&& a[i].location.time <= launch.time + a[i].generation * (ti + 60)
    } by {
        if i < a.len() - 1 {
            assert(a[i] == arena0[i]);
        } else {
            assert(a[i] == child);
        }
    }
}

/// The entries of one more child extend the entry sequence by one.
proof fn lemma_entries_push(children: Seq<Node>, child: Node, base: int)
    ensures
        child_entries_spec(children.push(child), base) =~= child_entries_spec(
            children,
            base,
        ).push(
            (QueueEntry {
                cost: crate::generational_pqueue::sat_add_spec(
                    child.heuristic_cost as int,
                    child.movement_cost as int,
                ) as i64,
                node: (base + children.len()) as usize,
            }),
        ),
{
    reveal(child_entries_spec);
    let lhs = child_entries_spec(children.push(child), base);
    let rhs = child_entries_spec(children, base).push(
        QueueEntry {
            cost: crate::generational_pqueue::sat_add_spec(
                child.heuristic_cost as int,
                child.movement_cost as int,
            ) as i64,
            node: (base + children.len()) as usize,
        },
    );
    assert forall|j2: int| 0 <= j2 < lhs.len() implies lhs[j2] == rhs[j2] by {
        if j2 < children.len() {
            assert(children.push(child)[j2] == children[j2]);
        } else {
            assert(children.push(child)[j2] == child);
        }
    }
}

/// Expands one node: one float hop of the time increment, then one
/// child per admissible candidate altitude, appended to the arena in
/// candidate order and enqueued at the next generation.  On a failed
/// wind lookup nothing changes and the failure is reported.
#[verifier::rlimit(100)]
#[verifier::spinoff_prover]
fn expand(
    reader: &mut DataSetReader,
    arena: &mut Vec<Node>,
    queue: &mut GenerationalPQueue,
    idx: usize,
    params: &GuidanceParams,
) -> (r: Result<(), PredictorError>)
    requires
        old(reader).wf(),
        params.launch.wf(),
        guidance_type_wf(params.guidance_type),
        params.launch.time + 2 * crate::predictor::TIME_SLACK <= TIME_LIMIT,
        0 <= params.duration <= DURATION_LIMIT,
        1 <= params.time_increment <= DURATION_LIMIT,
        params.altitude_variance <= 1000,
        params.altitude_increment <= 1_000_000_000,
        search_arena_ok(
            old(arena)@,
            params.launch,
            old(reader).datasets@,
            params.time_increment as int,
            params.duration as int,
            params.altitude_variance as int,
            params.altitude_increment as int,
        ),
        old(queue).wf(),
        forall|g: int, j: int|
            0 <= g < old(queue).pools().len() && 0 <= j < old(queue).pools()[g].len() ==> (
            #[trigger] old(queue).pools()[g][j]).node < old(arena)@.len(),
        idx < old(arena)@.len(),
        old(arena)@[idx as int].generation * (params.time_increment as int) < params.duration,
    ensures
        final(reader).wf(),
        final(reader).datasets == old(reader).datasets,
        final(queue).wf(),
        search_arena_ok(
            final(arena)@,
            params.launch,
            old(reader).datasets@,
            params.time_increment as int,
            params.duration as int,
            params.altitude_variance as int,
            params.altitude_increment as int,
        ),
        final(arena)@.len() >= old(arena)@.len(),
        final(arena)@.take(old(arena)@.len() as int) == old(arena)@,
        forall|g: int, j: int|
            0 <= g < final(queue).pools().len() && 0 <= j < final(queue).pools()[g].len() ==> (
            #[trigger] final(queue).pools()[g][j]).node < final(arena)@.len(),
        match r {
            Ok(_) => exists|q: Point|
                {
                    &&& #[trigger] float_endpoint_spec(
                        old(reader).datasets@,
                        old(arena)@[idx as int].location,
                        params.time_increment as int,
                        q,
                    )
                    &&& final(arena)@ == old(arena)@ + children_spec(
                        params.guidance_type,
                        old(arena)@[idx as int],
                        idx as int,
                        q,
                        params.altitude_variance as int,
                        params.altitude_increment as int,
                        params.time_increment as int,
                    )
                    &&& ({
                        let kids = children_spec(
                            params.guidance_type,
                            old(arena)@[idx as int],
                            idx as int,
                            q,
                            params.altitude_variance as int,
                            params.altitude_increment as int,
                            params.time_increment as int,
                        );
                        let g1 = old(arena)@[idx as int].generation as int + 1;
                        &&& (kids.len() > 0 ==> final(queue).pools().len() > g1 && final(queue).pools()[g1] == (if g1 < old(queue).pools().len() {
                            old(queue).pools()[g1]
                        } else {
                            Seq::<QueueEntry>::empty()
                        }) + child_entries_spec(kids, old(arena)@.len() as int))
                        &&& (kids.len() == 0 ==> final(queue).pools() == old(queue).pools())
                        &&& (forall|g2: int|
                            0 <= g2 < old(queue).pools().len() && g2 != g1 ==> final(queue).pools()[g2] == old(queue).pools()[g2])
                        &&& (forall|g2: int|
                            old(queue).pools().len() <= g2 < final(queue).pools().len() && g2 != g1
                                ==> (#[trigger] final(queue).pools()[g2]).len() == 0)
                    })
                },
            Err(e) => e == PredictorError::NoData && float_fails_spec(
                old(reader).datasets@,
                old(arena)@[idx as int].location,
                params.time_increment as int,
            ) && *final(arena) == *old(arena) && *final(queue) == *old(queue),
        },
{
    let ghost datasets = reader.datasets@;
    let ti = params.time_increment;
    let node = arena[idx];
    proof {
        lemma_gen_step(node.generation as int, ti as int, params.duration as int);
        lemma_time_budget(node.generation as int, ti as int, params.duration as int);
        assert(node.location.time + crate::predictor::TIME_SLACK <= TIME_LIMIT);
    }
    let fr = predict(
        reader,
        PredictorParams {
            launch: node.location,
            profile: PredictionProfile::ValBal,
            burst_altitude: 0,
            ascent_rate: 0,
            descent_rate: 0,
            duration: ti,
        },
    );
    let fp = match fr {
        Ok(p) => match p {
            Prediction::ValBal(fp) => fp,
            _ => {
                proof {
                    assert(false);
                }
                return Err(PredictorError::NoData);
            },
        },
        Err(_) => {
            return Err(PredictorError::NoData);
        },
    };
    if fp.positions.len() == 0 {
        proof {
            assert(false);
        }
        return Err(PredictorError::NoData);
    }
    let q = fp.positions[fp.positions.len() - 1];
    proof {
        let ps = fp.positions@;
        let last = ps.len() - 1;
        assert(crate::predictor::integ_step_spec(
            datasets,
            crate::predictor::chain_prev(node.location, ps, last),
            0,
        ) == Ok::<Point, PredictorError>(ps[last]));
        assert(q.time <= node.location.time + ti + 60);
        lemma_time_budget(node.generation as int + 1, ti as int, params.duration as int);
        assert(node.generation * (ti as int + 60) + (ti as int + 60) == (node.generation + 1) * (
        ti as int + 60)) by (nonlinear_arith);
        assert(float_endpoint_spec(datasets, node.location, ti as int, q)) by {
            reveal(float_endpoint_spec);
            assert(crate::predictor::float_positions_ok(
                datasets,
                node.location,
                ti as int,
                fp.positions@,
            ));
        }
    }
    let var = params.altitude_variance as i64;
    let inc = params.altitude_increment as i64;
    let base_len = arena.len();
    let mut k: i64 = -var;
    proof {
        reveal(children_upto_spec);
        assert(children_upto_spec(
            params.guidance_type,
            node,
            idx as int,
            q,
            inc as int,
            ti as int,
            -(var as int),
            -(var as int),
        ) =~= Seq::<Node>::empty());
        assert(arena@ =~= arena@ + Seq::<Node>::empty());
    }
    while k <= var
        invariant
            params.launch.wf(),
            guidance_type_wf(params.guidance_type),
            0 <= params.duration <= DURATION_LIMIT,
            1 <= ti <= DURATION_LIMIT,
            ti == params.time_increment,
            -1001 <= k <= var + 1,
            -var <= k,
            0 <= var <= 1000,
            var == params.altitude_variance as int,
            0 <= inc <= 1_000_000_000,
            inc == params.altitude_increment as int,
            search_arena_ok(
                arena@,
                params.launch,
                datasets,
                ti as int,
                params.duration as int,
                var as int,
                inc as int,
            ),
            arena@.len() >= old(arena)@.len(),
            base_len == old(arena)@.len(),
            arena@.take(old(arena)@.len() as int) == old(arena)@,
            idx < old(arena)@.len(),
            arena@[idx as int] == node,
            node == old(arena)@[idx as int],
            node.generation as int + 1 <= params.duration as int / ti as int + 1,
            node.generation < usize::MAX,
            q.wf(),
            q.time > node.location.time,
            q.time <= params.launch.time + (node.generation as int + 1) * (ti as int + 60),
            float_endpoint_spec(datasets, node.location, ti as int, q),
            arena@ == old(arena)@ + children_upto_spec(
                params.guidance_type,
                node,
                idx as int,
                q,
                inc as int,
                ti as int,
                -(var as int),
                k as int,
            ),
        decreases var + 1 - k,
    {
        proof {
            assert(-1_100_000_000_000 <= k * inc <= 1_100_000_000_000) by (nonlinear_arith)
                requires
                    -1001 <= k <= 1001,
                    0 <= inc <= 1_000_000_000,
            ;
        }
        let ghost kids_pre = children_upto_spec(
            params.guidance_type,
            node,
            idx as int,
            q,
            inc as int,
            ti as int,
            -(var as int),
            k as int,
        );
        let ghost kids_post = children_upto_spec(
            params.guidance_type,
            node,
            idx as int,
            q,
            inc as int,
            ti as int,
            -(var as int),
            k as int + 1,
        );
        let altitude = sat_add(q.altitude, k * inc);
        if altitude >= 0 && altitude <= ALTITUDE_CEILING {
            let child_location = Point {
                latitude: q.latitude,
                longitude: q.longitude,
                altitude,
                time: q.time,
            };
            proof {
                assert(child_location == candidate_point_spec(q, k as int, inc as int));
                assert(candidate_kept_spec(q, k as int, inc as int));
            }
            let h = heuristic(&params.guidance_type, &node.location, &child_location, ti);
            let dalt = if node.location.altitude >= altitude {
                node.location.altitude - altitude
            } else {
                altitude - node.location.altitude
            };
            let ghost pre_arena = arena@;
            let m = (isqrt((dalt as u64) * 1000) as i64) * 100;
            let movement = sat_add(node.movement_cost, m);
            let child = Node {
                location: child_location,
                previous: Some(idx),
                generation: node.generation + 1,
                heuristic_cost: h,
                movement_cost: movement,
            };
            proof {
                reveal(candidate_spec);
                reveal(children_upto_spec);
                assert(child == candidate_spec(
                    params.guidance_type,
                    node,
                    idx as int,
                    q,
                    k as int,
                    inc as int,
                    ti as int,
                ));
                assert(kids_post =~= kids_pre + seq![child]);
                assert(pair_connected_spec(
                    datasets,
                    node.location,
                    child.location,
                    ti as int,
                    var as int,
                    inc as int,
                )) by {
                    reveal(pair_connected_spec);
                    assert(child.location == candidate_point_spec(q, k as int, inc as int));
                }
                lemma_arena_push(
                    pre_arena,
                    child,
                    params.launch,
                    datasets,
                    ti as int,
                    params.duration as int,
                    var as int,
                    inc as int,
                );
            }
            arena.push(child);
            proof {
                assert(arena@ == pre_arena.push(child));
                assert(arena@ =~= old(arena)@ + kids_post);
                assert(arena@.take(old(arena)@.len() as int) =~= pre_arena.take(
                    old(arena)@.len() as int,
                ));
            }
        } else {
            proof {
                reveal(children_upto_spec);
                assert(!candidate_kept_spec(q, k as int, inc as int));
                assert(kids_post =~= kids_pre);
            }
        }
        k = k + 1;
    }
    let ghost kids = children_spec(
        params.guidance_type,
        node,
        idx as int,
        q,
        var as int,
        inc as int,
        ti as int,
    );
    proof {
        assert(arena@ == old(arena)@ + kids);
        assert(arena@.len() == base_len + kids.len());
    }
    let ghost entries = child_entries_spec(kids, old(arena)@.len() as int);
    let ghost g1 = node.generation as int + 1;
    let ghost base: Seq<QueueEntry> = if g1 < old(queue).pools().len() {
        old(queue).pools()[g1]
    } else {
        Seq::<QueueEntry>::empty()
    };
    let n_after = arena.len();
    let total_children = n_after - base_len;
    let mut i: usize = 0;
    proof {
        reveal(child_entries_spec);
        assert(entries.take(0int) =~= Seq::<QueueEntry>::empty());
    }
    while i < total_children
        invariant
            queue.wf(),
            queue.pools().len() >= old(queue).pools().len(),
            i <= total_children,
            n_after == arena@.len(),
            base_len + total_children == n_after,
            total_children == kids.len(),
            entries == child_entries_spec(kids, old(arena)@.len() as int),
            base_len == old(arena)@.len(),
            g1 == node.generation as int + 1,
            node.generation < usize::MAX,
            base == (if g1 < old(queue).pools().len() {
                old(queue).pools()[g1]
            } else {
                Seq::<QueueEntry>::empty()
            }),
            arena@ == old(arena)@ + kids,
            arena@.len() == base_len + kids.len(),
            forall|g2: int, j: int|
                0 <= g2 < old(queue).pools().len() && 0 <= j < old(queue).pools()[g2].len() ==> (
                #[trigger] old(queue).pools()[g2][j]).node < old(arena)@.len(),
            forall|g2: int, j: int|
                0 <= g2 < queue.pools().len() && 0 <= j < queue.pools()[g2].len() ==> (
                #[trigger] queue.pools()[g2][j]).node < arena@.len(),
            i > 0 ==> queue.pools().len() > g1 && queue.pools()[g1] == base + entries.take(
                i as int,
            ),
            i == 0 ==> queue.pools() == old(queue).pools(),
            forall|g2: int|
                0 <= g2 < old(queue).pools().len() && g2 != g1 ==> queue.pools()[g2] == old(
                    queue,
                ).pools()[g2],
            forall|g2: int|
                old(queue).pools().len() <= g2 < queue.pools().len() && g2 != g1 ==> (
                #[trigger] queue.pools()[g2]).len() == 0,
        decreases total_children - i,
    {
        let child_idx = base_len + i;
        let child = arena[child_idx];
        let c = child.cost();
        let ghost pre_queue = *queue;
        proof {
            assert(child == kids[i as int]);
        }
        queue.enqueue(node.generation + 1, c, child_idx);
        proof {
            reveal(child_entries_spec);
            assert forall|g2: int|
                0 <= g2 < old(queue).pools().len() && g2 != g1 implies queue.pools()[g2] == old(
                queue,
            ).pools()[g2] by {
                assert(g2 < pre_queue.pools().len());
                assert(pre_queue.pools()[g2] == old(queue).pools()[g2]);
            }
            let entry = QueueEntry { cost: c, node: child_idx };
            assert(entry == entries[i as int]);
            assert(entries.take(i as int + 1) =~= entries.take(i as int).push(entry));
            if i == 0 {
                assert(queue.pools()[g1] =~= base + entries.take(1int));
            } else {
                assert(pre_queue.pools()[g1] == base + entries.take(i as int));
                assert(queue.pools()[g1] =~= base + entries.take(i as int + 1));
            }
            assert(queue.pools()[g1] == base + entries.take(i as int + 1));
        }
        i = i + 1;
    }
    proof {
        assert(entries.take(kids.len() as int) =~= entries);
        if kids.len() > 0 {
            assert(queue.pools()[g1] == base + entries);
        }
    }
    Ok(())
}

/// A time-boxed generational best-first search from the launch.  The
/// returned trajectory starts at the launch, has exactly one point per
/// generation of the best node, strictly increasing times, and each
/// consecutive pair connected by one expansion.  A search that has
/// found a best node returns it even when a later expansion fails;
/// only a failure before anything was examined is an error.
#[verifier::rlimit(100)]
#[verifier::spinoff_prover]
pub fn search(reader: &mut DataSetReader, params: &GuidanceParams) -> (r: Result<
    Guidance,
    PredictorError,
>)
    requires
        old(reader).wf(),
        params.launch.wf(),
        guidance_type_wf(params.guidance_type),
        params.launch.time + 2 * crate::predictor::TIME_SLACK <= TIME_LIMIT,
        0 <= params.timeout <= 1_000_000_000,
        0 <= params.duration <= DURATION_LIMIT,
        1 <= params.time_increment <= DURATION_LIMIT,
        params.altitude_variance <= 1000,
        params.altitude_increment <= 1_000_000_000,
    ensures
        final(reader).wf(),
        final(reader).datasets == old(reader).datasets,
        match r {
            Ok(g) => {
                &&& guidance_positions_ok(
                    g.positions@,
                    params.launch,
                    g.metadata.generation as int,
                )
                &&& (g.naive is Some <==> params.compare_with_naive)
                &&& (forall|j: int|
                    0 <= j < g.positions@.len() - 1 ==> pair_connected_spec(
                        old(reader).datasets@,
                        g.positions@[j],
                        #[trigger] g.positions@[j + 1],
                        params.time_increment as int,
                        params.altitude_variance as int,
                        params.altitude_increment as int,
                    ))
                &&& (g.naive matches Some(ps) ==> crate::predictor::float_positions_ok(
                    old(reader).datasets@,
                    params.launch,
                    naive_span_spec(g.positions@, params.launch),
                    ps@,
                ))
            },
            Err(e) => e == PredictorError::NoData && (params.compare_with_naive
                || float_fails_spec(
                old(reader).datasets@,
                params.launch,
                params.time_increment as int,
            )),
        },
        (params.duration == 0 && !params.compare_with_naive) ==> r is Ok,
{
    let ghost datasets = reader.datasets@;
    let ti = params.time_increment;
    let deadline = sat_add(now_unix(), params.timeout);
    let mut arena: Vec<Node> = Vec::new();
    arena.push(Node::from_point(params.launch));
    let mut queue = GenerationalPQueue::new();
    queue.enqueue(0, i64::MAX, 0);
    let mut best: usize = 0;
    let mut best_set = false;
    let mut best_score: i64 = 0;
    let mut next_gen: usize = 0;
    let mut stagnation: i64 = 0;
    let mut checked: usize = 0;
    let mut max_generation: usize = 0;
    let mut steps_left: u64 = ITERATION_LIMIT;
    while steps_left > 0
        invariant
            reader.wf(),
            reader.datasets == old(reader).datasets,
            reader.datasets@ == datasets,
            params.launch.wf(),
            guidance_type_wf(params.guidance_type),
            params.launch.time + 2 * crate::predictor::TIME_SLACK <= TIME_LIMIT,
            0 <= params.duration <= DURATION_LIMIT,
            1 <= ti <= DURATION_LIMIT,
            ti == params.time_increment,
            params.altitude_variance <= 1000,
            params.altitude_increment <= 1_000_000_000,
            search_arena_ok(
                arena@,
                params.launch,
                datasets,
                ti as int,
                params.duration as int,
                params.altitude_variance as int,
                params.altitude_increment as int,
            ),
            queue.wf(),
            forall|g: int, j: int|
                0 <= g < queue.pools().len() && 0 <= j < queue.pools()[g].len() ==> (
                #[trigger] queue.pools()[g][j]).node < arena@.len(),
            !best_set ==> forall|g: int, j: int|
                0 <= g < queue.pools().len() && 0 <= j < queue.pools()[g].len() ==> (
                #[trigger] queue.pools()[g][j]).node == 0,
            best < arena@.len(),
            0 <= stagnation <= 10_000_000,
            next_gen <= usize::MAX,
        decreases steps_left,
    {
        steps_left = steps_left - 1;
        let ghost pre_pools = queue.pools();
        let popped = match queue.dequeue() {
            Some(p) => p,
            None => {
                break;
            },
        };
        let (popped_gen, entry) = popped;
        let idx = entry.node;
        proof {
            if !best_set {
                assert(entry.node == 0);
                assert forall|g2: int, j2: int|
                    0 <= g2 < queue.pools().len() && 0 <= j2 < queue.pools()[g2].len() implies (
                #[trigger] queue.pools()[g2][j2]).node == 0 by {
                    if g2 == popped_gen {
                        assert(queue.pools()[g2][j2] == pre_pools[g2].remove(
                            crate::generational_pqueue::min_idx_spec(pre_pools[g2]),
                        )[j2]);
                    } else {
                        assert(queue.pools()[g2] == pre_pools[g2]);
                    }
                }
            }
        }
        if now_unix() > deadline {
            break;
        }
        let node = arena[idx];
        if node.generation > max_generation {
            max_generation = node.generation;
        }
        if node.generation < usize::MAX && node.generation + 1 > next_gen {
            next_gen = node.generation + 1;
            stagnation = 0;
        } else {
            if stagnation < 10_000_000 {
                stagnation = stagnation + 1;
            }
        }
        if next_gen <= 1 {
            queue.set_cost(next_gen, 0);
        } else {
            proof {
                assert(STAGNATION_MULTIPLIER * stagnation <= 10_000 * 10_000_000)
                    by (nonlinear_arith)
                    requires
                        0 <= stagnation <= 10_000_000,
                        (STAGNATION_MULTIPLIER as int) == 10_000,
                ;
                assert(STAGNATION_MULTIPLIER * stagnation >= 0) by (nonlinear_arith)
                    requires
                        stagnation >= 0,
                        (STAGNATION_MULTIPLIER as int) == 10_000,
                ;
            }
            queue.set_cost(next_gen, DEFAULT_STAGNATION_COST - STAGNATION_MULTIPLIER * stagnation);
        }
        proof {
            assert((node.generation as int) * (ti as int) <= 0xFFFF_FFFF_FFFF_FFFF
                * 1_000_000_000) by (nonlinear_arith)
                requires
                    0 <= node.generation as int <= 0xFFFF_FFFF_FFFF_FFFF,
                    0 <= ti as int <= 1_000_000_000,
            ;
        }
        let expands: bool = ((node.generation as u128) * (ti as u128)) < (params.duration as u128);
        if expands {
            proof {
                assert((node.generation as int) * (ti as int) < params.duration as int);
            }
            let ghost pre_len = arena@.len();
            match expand(reader, &mut arena, &mut queue, idx, params) {
                Ok(_) => {},
                Err(e) => {
                    if best_set {
                        break;
                    } else {
                        proof {
                            assert(idx == 0);
                            assert(arena@[0].location == params.launch);
                        }
                        return Err(e);
                    }
                },
            }
            proof {
                assert(arena@[best as int] == arena@.take(pre_len as int)[best as int]);
                assert(arena@[idx as int] == arena@.take(pre_len as int)[idx as int]);
            }
        }
        let s = score(&params.guidance_type, &node.location);
        if !best_set || s > best_score {
            best = idx;
            best_score = s;
            best_set = true;
        }
        if checked < usize::MAX {
            checked = checked + 1;
        }
    }
    let final_generation = arena[best].generation;
    let positions = unravel(&arena, best);
    proof {
        let gen = arena@[best as int].generation as int;
        let anc0 = ancestor_spec(arena@, best as int, gen);
        crate::navigation_node::lemma_ancestor_step(arena@, best as int, gen);
        if anc0 != 0 {
            assert(arena@[anc0].previous is Some);
            assert(false);
        }
        assert(positions@[0] == params.launch);
        assert forall|j: int| 0 <= j < positions@.len() - 1 implies pair_connected_spec(
            datasets,
            positions@[j],
            #[trigger] positions@[j + 1],
            ti as int,
            params.altitude_variance as int,
            params.altitude_increment as int,
        ) by {
            let k2 = gen - j;
            assert(0 < k2 <= gen);
            crate::navigation_node::lemma_ancestor_step(arena@, best as int, k2);
            crate::navigation_node::lemma_ancestor_step(arena@, best as int, k2 - 1);
            let parent = ancestor_spec(arena@, best as int, k2);
            let child = ancestor_spec(arena@, best as int, k2 - 1);
            assert(arena@[child].previous matches Some(p) && p as int == parent);
            assert(arena@[child].generation == gen - (k2 - 1));
            if child == 0 {
                assert(arena@[0].generation == 0);
                assert(false);
            }
            assert(positions@[j] == arena@[parent].location);
            assert(positions@[j + 1] == arena@[child].location);
            assert(pair_connected_spec(
                datasets,
                arena@[parent].location,
                arena@[child].location,
                ti as int,
                params.altitude_variance as int,
                params.altitude_increment as int,
            ));
        }
    }
    let naive: Option<Vec<Point>> = if params.compare_with_naive {
        let first = positions[0];
        let last = positions[positions.len() - 1];
        proof {
            crate::navigation_node::lemma_ancestor_time(
                arena@,
                best as int,
                arena@[best as int].generation as int,
            );
            assert(last.time >= first.time);
        }
        let span = last.time - first.time;
        let capped = if span > DURATION_LIMIT {
            DURATION_LIMIT
        } else if span < 0 {
            0
        } else {
            span
        };
        proof {
            assert(capped == naive_span_spec(positions@, params.launch));
        }
        let nr = predict(
            reader,
            PredictorParams {
                launch: params.launch,
                profile: PredictionProfile::ValBal,
                burst_altitude: 0,
                ascent_rate: 0,
                descent_rate: 0,
                duration: capped,
            },
        );
        match nr {
            Ok(p) => match p {
                Prediction::ValBal(fp) => Some(fp.positions),
                _ => {
                    proof {
                        assert(false);
                    }
                    return Err(PredictorError::NoData);
                },
            },
            Err(_) => {
                return Err(PredictorError::NoData);
            },
        }
    } else {
        None
    };
    Ok(
        Guidance {
            metadata: GuidanceMetadata {
                nodes_checked: checked,
                generation: final_generation,
                max_generation_reached: max_generation,
            },
            positions,
            naive,
        },
    )
}

/// Runs the search and, when asked, the naive float baseline from the
/// launch over the elapsed time of the found trajectory.
pub fn guidance(reader: &mut DataSetReader, params: GuidanceParams) -> (r: Result<
    Guidance,
    PredictorError,
>)
    requires
        old(reader).wf(),
        params.launch.wf(),
        guidance_type_wf(params.guidance_type),
        params.launch.time + 2 * crate::predictor::TIME_SLACK <= TIME_LIMIT,
        0 <= params.timeout <= 1_000_000_000,
        0 <= params.duration <= DURATION_LIMIT,
        1 <= params.time_increment <= DURATION_LIMIT,
        params.altitude_variance <= 1000,
        params.altitude_increment <= 1_000_000_000,
    ensures
        final(reader).wf(),
        final(reader).datasets == old(reader).datasets,
        match r {
            Ok(g) => {
                &&& guidance_positions_ok(
                    g.positions@,
                    params.launch,
                    g.metadata.generation as int,
                )
                &&& (g.naive is Some <==> params.compare_with_naive)
                &&& (forall|j: int|
                    0 <= j < g.positions@.len() - 1 ==> pair_connected_spec(
                        old(reader).datasets@,
                        g.positions@[j],
                        #[trigger] g.positions@[j + 1],
                        params.time_increment as int,
                        params.altitude_variance as int,
                        params.altitude_increment as int,
                    ))
                &&& (g.naive matches Some(ps) ==> crate::predictor::float_positions_ok(
                    old(reader).datasets@,
                    params.launch,
                    naive_span_spec(g.positions@, params.launch),
                    ps@,
                ))
            },
            Err(e) => e == PredictorError::NoData && (params.compare_with_naive
                || float_fails_spec(
                old(reader).datasets@,
                params.launch,
                params.time_increment as int,
            )),
        },
        (params.duration == 0 && !params.compare_with_naive) ==> r is Ok,
{
    search(reader, &params)
}

} // verus!
