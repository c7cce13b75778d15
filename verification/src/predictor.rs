//! The fixed-step trajectory integrator: standard ascent/burst/descent
//! profiles and wind-following float profiles over a catalog's wind
//! field.

use vstd::prelude::*;

use crate::dataset::Dataset;
use crate::dataset_reader::{reader_atmo_spec, DataSetReader};
use crate::errors::PredictorError;
use crate::point::{add_spec, Atmospheroid, Point, Velocity, INTEGRAL_DURATION, TIME_LIMIT};

verus! {

/// Bound on the control rates the integrator accepts, in mm/s.
pub const RATE_LIMIT: i64 = 100_000_000;

/// Bound on the burst altitude, in millimeters.
pub const BURST_LIMIT: i64 = 10_000_000_000;

/// Bound on a float duration, in seconds.
pub const DURATION_LIMIT: i64 = 1_000_000_000;

/// Head room kept below the time bound so that no trajectory can run
/// past it.
pub const TIME_SLACK: i64 = 500_000_000_000;

/// The profile of a prediction.
pub enum PredictionProfile {
    Standard,
    Float,
    ValBal,
}

/// All parameters a prediction may take.
pub struct PredictorParams {
    pub launch: Point,
    pub profile: PredictionProfile,
    /// Burst altitude in millimeters (standard profile).
    pub burst_altitude: i64,
    /// Ascent rate in mm/s (standard profile).
    pub ascent_rate: i64,
    /// Descent rate in mm/s (standard profile).
    pub descent_rate: i64,
    /// Duration in seconds (float profile).
    pub duration: i64,
}

/// An ascent, its burst point, and a descent.
pub struct StandardPrediction {
    pub ascent: Vec<Point>,
    pub burst: Point,
    pub descent: Vec<Point>,
}

/// A wind-following trajectory.
pub struct FloatPrediction {
    pub positions: Vec<Point>,
}

/// The result of a prediction.
pub enum Prediction {
    Standard(StandardPrediction),
    Float(FloatPrediction),
    ValBal(FloatPrediction),
}

/// The velocity of one integration step: the wind plus a vertical
/// control rate.
pub open spec fn step_velocity_spec(a: Atmospheroid, rate: int) -> Velocity {
    Velocity {
        north: a.velocity.north,
        east: a.velocity.east,
        vertical: (a.velocity.vertical + rate) as i64,
    }
}

/// One integration step at a point: look the wind up, add the control
/// rate, advance one step; a failed lookup is the integrator's `NoData`.
pub open spec fn integ_step_spec(datasets: Seq<Dataset>, p: Point, rate: int) -> Result<
    Point,
    PredictorError,
> {
    match reader_atmo_spec(datasets, p) {
        Ok(a) => Ok(add_spec(p, step_velocity_spec(a, rate), INTEGRAL_DURATION as int)),
        Err(_) => Err(PredictorError::NoData),
    }
}

/// The point a chain element follows.
pub open spec fn chain_prev(launch: Point, s: Seq<Point>, i: int) -> Point {
    if i == 0 {
        launch
    } else {
        s[i - 1]
    }
}

/// A trajectory is a chain: every point is one integration step from
/// its predecessor.
pub open spec fn chain_ok(datasets: Seq<Dataset>, launch: Point, rate: int, s: Seq<Point>) -> bool {
    forall|i: int|
        0 <= i < s.len() ==> #[trigger] integ_step_spec(datasets, chain_prev(launch, s, i), rate)
            == Ok::<Point, PredictorError>(s[i])
}

/// Extending a chain by one successful step keeps it a chain.
proof fn lemma_chain_push(
    datasets: Seq<Dataset>,
    launch: Point,
    rate: int,
    s: Seq<Point>,
    next: Point,
)
    requires
        chain_ok(datasets, launch, rate, s),
        integ_step_spec(
            datasets,
            if s.len() == 0 {
                launch
            } else {
                s.last()
            },
            rate,
        ) == Ok::<Point, PredictorError>(next),
    ensures
        chain_ok(datasets, launch, rate, s.push(next)),
{
    let t = s.push(next);
    assert forall|i: int|
        0 <= i < t.len() implies #[trigger] integ_step_spec(datasets, chain_prev(launch, t, i), rate)
        == Ok::<Point, PredictorError>(t[i]) by {
        if i < t.len() - 1 {
            assert(t[i] == s[i]);
            assert(chain_prev(launch, t, i) == chain_prev(launch, s, i));
        } else {
            assert(t[i] == next);
            assert(chain_prev(launch, t, i) == (if s.len() == 0 {
                launch
            } else {
                s.last()
            }));
        }
    }
}

/// The last point of a chain, or the launch when the chain is empty.
pub open spec fn chain_end(launch: Point, s: Seq<Point>) -> Point {
    if s.len() == 0 {
        launch
    } else {
        s.last()
    }
}

/// A float chain from `launch` runs into a failed wind lookup before
/// the duration is covered.
pub open spec fn float_fails_spec(datasets: Seq<Dataset>, launch: Point, duration: int) -> bool {
    exists|s: Seq<Point>|
        {
            &&& #[trigger] chain_ok(datasets, launch, 0, s)
            &&& (forall|i: int|
                0 <= i < s.len() ==> chain_prev(launch, s, i).time < launch.time + duration)
            &&& chain_end(launch, s).time < launch.time + duration
            &&& integ_step_spec(datasets, chain_end(launch, s), 0) is Err
        }
}

/// A finished ascent: a chain that stays below the burst altitude and
/// whose end reaches it, empty exactly when the launch already has.
pub open spec fn ascent_done_spec(
    datasets: Seq<Dataset>,
    launch: Point,
    rate: int,
    burst: int,
    s: Seq<Point>,
) -> bool {
    &&& chain_ok(datasets, launch, rate, s)
    &&& (forall|i: int| 0 <= i < s.len() ==> chain_prev(launch, s, i).altitude < burst)
    &&& (s.len() == 0 <==> launch.altitude >= burst)
    &&& chain_end(launch, s).altitude >= burst
}

/// A standard trajectory runs into a failed wind lookup: either during
/// the ascent, or during the descent after a finished ascent.
pub open spec fn standard_fails_spec(
    datasets: Seq<Dataset>,
    launch: Point,
    burst_alt: int,
    arate: int,
    drate: int,
) -> bool {
    ||| exists|s: Seq<Point>|
        {
            &&& #[trigger] chain_ok(datasets, launch, arate, s)
            &&& (forall|i: int| 0 <= i < s.len() ==> chain_prev(launch, s, i).altitude < burst_alt)
            &&& chain_end(launch, s).altitude < burst_alt
            &&& integ_step_spec(datasets, chain_end(launch, s), arate) is Err
        }
    ||| exists|s: Seq<Point>, t: Seq<Point>|
        {
            &&& ascent_done_spec(datasets, launch, arate, burst_alt, s)
            &&& #[trigger] chain_ok(datasets, chain_end(launch, s), -drate, t)
            &&& (forall|i: int|
                0 <= i < t.len() ==> chain_prev(chain_end(launch, s), t, i).altitude > 0)
            &&& chain_end(chain_end(launch, s), t).altitude > 0
            &&& integ_step_spec(datasets, chain_end(chain_end(launch, s), t), -drate) is Err
        }
}

/// What a standard prediction promises.
pub open spec fn standard_result_ok(
    datasets: Seq<Dataset>,
    launch: Point,
    burst_alt: int,
    arate: int,
    drate: int,
    r: Result<Prediction, PredictorError>,
) -> bool {
    match r {
        Ok(p) => match p {
            Prediction::Standard(sp) => {
                &&& arate > 0 && drate > 0
                &&& ascent_done_spec(datasets, launch, arate, burst_alt, sp.ascent@)
                &&& sp.burst == chain_end(launch, sp.ascent@)
                &&& sp.burst.altitude >= burst_alt
                &&& chain_ok(datasets, sp.burst, -drate, sp.descent@)
                &&& (forall|i: int|
                    0 <= i < sp.descent@.len() ==> chain_prev(sp.burst, sp.descent@, i).altitude
                        > 0)
                &&& (sp.descent@.len() == 0 <==> sp.burst.altitude <= 0)
                &&& (sp.descent@.len() > 0 ==> sp.descent@.last().altitude <= 0)
            },
            _ => false,
        },
        Err(e) => {
            ||| (e == PredictorError::InvalidParams && (arate <= 0 || drate <= 0))
            ||| (e == PredictorError::NoData && arate > 0 && drate > 0 && standard_fails_spec(
                datasets,
                launch,
                burst_alt,
                arate,
                drate,
            ))
        },
    }
}

/// A complete wind-following trajectory over a positive duration: a
/// chain of well-formed points whose every step starts before the end
/// time and whose last point reaches it.
pub open spec fn float_positions_ok(
    datasets: Seq<Dataset>,
    launch: Point,
    duration: int,
    ps: Seq<Point>,
) -> bool {
    &&& chain_ok(datasets, launch, 0, ps)
    &&& (forall|i: int| 0 <= i < ps.len() ==> (#[trigger] ps[i]).wf())
    &&& (forall|i: int|
        0 <= i < ps.len() ==> chain_prev(launch, ps, i).time < launch.time + duration)
    &&& ps.len() > 0
    &&& ps.last().time >= launch.time + duration
}

/// What a float prediction promises.  The float profile keeps the
/// launch altitude: the stored winds carry no vertical component.  A
/// duration of zero or less yields no trajectory at all, which is the
/// `NoData` error.
pub open spec fn float_result_ok(
    datasets: Seq<Dataset>,
    launch: Point,
    duration: int,
    r: Result<Prediction, PredictorError>,
) -> bool {
    match r {
        Ok(p) => match p {
            Prediction::ValBal(fp) => duration > 0 && float_positions_ok(
                datasets,
                launch,
                duration,
                fp.positions@,
            ),
            _ => false,
        },
        Err(e) => e == PredictorError::NoData && (duration <= 0 || float_fails_spec(
            datasets,
            launch,
            duration,
        )),
    }
}

/// Runs the profile the parameters ask for.
pub fn predict(reader: &mut DataSetReader, params: PredictorParams) -> (r: Result<
    Prediction,
    PredictorError,
>)
    requires
        old(reader).wf(),
        params.launch.wf(),
        params.launch.time + TIME_SLACK <= TIME_LIMIT,
        0 <= params.burst_altitude <= BURST_LIMIT,
        -RATE_LIMIT <= params.ascent_rate <= RATE_LIMIT,
        -RATE_LIMIT <= params.descent_rate <= RATE_LIMIT,
        -DURATION_LIMIT <= params.duration <= DURATION_LIMIT,
    ensures
        final(reader).wf(),
        final(reader).datasets == old(reader).datasets,
        match params.profile {
            PredictionProfile::Standard => standard_result_ok(
                old(reader).datasets@,
                params.launch,
                params.burst_altitude as int,
                params.ascent_rate as int,
                params.descent_rate as int,
                r,
            ),
            _ => float_result_ok(
                old(reader).datasets@,
                params.launch,
                params.duration as int,
                r,
            ),
        },
        (params.profile is Standard && params.ascent_rate > 0 && params.descent_rate > 0
            && params.launch.altitude >= params.burst_altitude && params.launch.altitude <= 0)
            ==> r is Ok,
{
    match params.profile {
        PredictionProfile::Standard => standard_predict(
            reader,
            params.launch,
            params.burst_altitude,
            params.ascent_rate,
            params.descent_rate,
        ),
        PredictionProfile::Float => float_predict(reader, params.launch, params.duration),
        PredictionProfile::ValBal => float_predict(reader, params.launch, params.duration),
    }
}

/// One executable integration step.
fn integ_step(reader: &mut DataSetReader, current: &Point, rate: i64) -> (r: Result<
    Point,
    PredictorError,
>)
    requires
        old(reader).wf(),
        current.wf(),
        current.time + INTEGRAL_DURATION <= TIME_LIMIT,
        -RATE_LIMIT <= rate <= RATE_LIMIT,
    ensures
        final(reader).wf(),
        final(reader).datasets == old(reader).datasets,
        r == integ_step_spec(old(reader).datasets@, *current, rate as int),
        match r {
            Ok(q) => q.wf() && q.time == current.time + INTEGRAL_DURATION && (
            reader_atmo_spec(old(reader).datasets@, *current) matches Ok(a) && a.velocity.vertical
                == 0 && a.bounded(8_000_000_000) && q == add_spec(
                *current,
                step_velocity_spec(a, rate as int),
                INTEGRAL_DURATION as int,
            )),
            Err(e) => e == PredictorError::NoData,
        },
{
    match reader.atmospheroid_at(current) {
        Ok(a) => {
            let control = Velocity { north: 0, east: 0, vertical: rate };
            let velocity = a.velocity.plus(&control);
            Ok(current.add_with_duration(&velocity, INTEGRAL_DURATION))
        },
        Err(_) => Err(PredictorError::NoData),
    }
}

/// The standard profile: ascend at the ascent rate until the burst
/// altitude, then descend at the descent rate until the ground.
#[verifier::rlimit(100)]
#[verifier::spinoff_prover]
fn standard_predict(reader: &mut DataSetReader, launch: Point, burst_altitude: i64, ascent_rate: i64, descent_rate: i64) -> (r: Result<
    Prediction,
    PredictorError,
>)
    requires
        old(reader).wf(),
        launch.wf(),
        launch.time + TIME_SLACK <= TIME_LIMIT,
        0 <= burst_altitude <= BURST_LIMIT,
        -RATE_LIMIT <= ascent_rate <= RATE_LIMIT,
        -RATE_LIMIT <= descent_rate <= RATE_LIMIT,
    ensures
        final(reader).wf(),
        final(reader).datasets == old(reader).datasets,
        standard_result_ok(
            old(reader).datasets@,
            launch,
            burst_altitude as int,
            ascent_rate as int,
            descent_rate as int,
            r,
        ),
        (ascent_rate > 0 && descent_rate > 0 && launch.altitude >= burst_altitude
            && launch.altitude <= 0) ==> r is Ok,
{
    if ascent_rate <= 0 || descent_rate <= 0 {
        return Err(PredictorError::InvalidParams);
    }
    let ghost datasets = reader.datasets@;
    let mut current = launch;
    let mut ascent: Vec<Point> = Vec::new();
    let ghost mut k: int = 0;
    while current.altitude < burst_altitude
        invariant
            reader.wf(),
            reader.datasets == old(reader).datasets,
            reader.datasets@ == datasets,
            launch.wf(),
            launch.time + TIME_SLACK <= TIME_LIMIT,
            0 <= burst_altitude <= BURST_LIMIT,
            0 < ascent_rate <= RATE_LIMIT,
            0 < descent_rate <= RATE_LIMIT,
            current.wf(),
            k >= 0,
            k > 0 ==> launch.altitude < burst_altitude,
            k > 0 ==> current.altitude < burst_altitude + 60 * (ascent_rate as int),
            ascent@.len() == k,
            current.time == launch.time + 60 * k,
            60 * (ascent_rate as int) * k == current.altitude - launch.altitude,
            chain_ok(datasets, launch, ascent_rate as int, ascent@),
            forall|i: int|
                0 <= i < ascent@.len() ==> chain_prev(launch, ascent@, i).altitude
                    < burst_altitude,
            current == (if k == 0 {
                launch
            } else {
                ascent@.last()
            }),
        decreases BURST_LIMIT + 60 * RATE_LIMIT - current.altitude,
    {
        proof {
            assert(60 * k <= 60 * (ascent_rate as int) * k) by (nonlinear_arith)
                requires
                    k >= 0,
                    ascent_rate >= 1,
            ;
            assert(current.time + 60 <= TIME_LIMIT);
        }
        let next = match integ_step(reader, &current, ascent_rate) {
            Ok(q) => q,
            Err(_) => {
                proof {
                    assert(chain_end(launch, ascent@) == current);
                    assert(standard_fails_spec(
                        datasets,
                        launch,
                        burst_altitude as int,
                        ascent_rate as int,
                        descent_rate as int,
                    )) by {
                        assert(chain_ok(datasets, launch, ascent_rate as int, ascent@));
                    }
                }
                return Err(PredictorError::NoData);
            },
        };
        proof {
            assert(60 * (ascent_rate as int) * (k + 1) == 60 * (ascent_rate as int) * k + 60 * (
            ascent_rate as int)) by (nonlinear_arith);
            assert(next.altitude == current.altitude + 60 * (ascent_rate as int)) by {
                assert(reader_atmo_spec(datasets, current) matches Ok(a) ==> a.velocity.vertical
                    == 0);
            }
        }
        proof {
            lemma_chain_push(datasets, launch, ascent_rate as int, ascent@, next);
        }
        let ghost pre = ascent@;
        let ghost at_head = current;
        current = next;
        ascent.push(current);
        proof {
            k = k + 1;
            assert forall|i: int|
                0 <= i < ascent@.len() implies chain_prev(launch, ascent@, i).altitude
                < burst_altitude by {
                if i < ascent@.len() - 1 {
                    assert(chain_prev(launch, ascent@, i) == chain_prev(launch, pre, i));
                } else {
                    assert(chain_prev(launch, ascent@, i) == at_head);
                }
            }
        }
    }
    proof {
        assert(60 * k <= 60 * (ascent_rate as int) * k) by (nonlinear_arith)
            requires
                k >= 0,
                ascent_rate >= 1,
        ;
    }
    let burst = current;
    let mut descent: Vec<Point> = Vec::new();
    let ghost mut k2: int = 0;
    while current.altitude > 0
        invariant
            reader.wf(),
            reader.datasets == old(reader).datasets,
            reader.datasets@ == datasets,
            burst.wf(),
            burst.time <= TIME_LIMIT - TIME_SLACK + 120_000_000_000,
            0 < descent_rate <= RATE_LIMIT,
            0 < ascent_rate <= RATE_LIMIT,
            launch.wf(),
            launch.altitude >= burst_altitude <==> ascent@.len() == 0,
            burst == (if ascent@.len() == 0 {
                launch
            } else {
                ascent@.last()
            }),
            burst.altitude >= burst_altitude,
            chain_ok(datasets, launch, ascent_rate as int, ascent@),
            forall|i: int|
                0 <= i < ascent@.len() ==> chain_prev(launch, ascent@, i).altitude
                    < burst_altitude,
            current.wf(),
            k2 >= 0,
            k2 > 0 ==> burst.altitude > 0,
            descent@.len() == k2,
            current.time == burst.time + 60 * k2,
            60 * (descent_rate as int) * k2 == burst.altitude - current.altitude,
            chain_ok(datasets, burst, -(descent_rate as int), descent@),
            forall|i: int|
                0 <= i < descent@.len() ==> chain_prev(burst, descent@, i).altitude > 0,
            current == (if k2 == 0 {
                burst
            } else {
                descent@.last()
            }),
        decreases current.altitude + crate::point::ALT_LIMIT + 60 * RATE_LIMIT,
    {
        proof {
            assert(60 * k2 <= 60 * (descent_rate as int) * k2) by (nonlinear_arith)
                requires
                    k2 >= 0,
                    descent_rate >= 1,
            ;
            assert(current.time + 60 <= TIME_LIMIT);
        }
        let next = match integ_step(reader, &current, -descent_rate) {
            Ok(q) => q,
            Err(_) => {
                proof {
                    assert(ascent_done_spec(
                        datasets,
                        launch,
                        ascent_rate as int,
                        burst_altitude as int,
                        ascent@,
                    ));
                    assert(chain_end(launch, ascent@) == burst);
                    assert(chain_end(burst, descent@) == current);
                    assert(standard_fails_spec(
                        datasets,
                        launch,
                        burst_altitude as int,
                        ascent_rate as int,
                        descent_rate as int,
                    )) by {
                        assert(chain_ok(
                            datasets,
                            chain_end(launch, ascent@),
                            -(descent_rate as int),
                            descent@,
                        ));
                    }
                }
                return Err(PredictorError::NoData);
            },
        };
        proof {
            assert(60 * (descent_rate as int) * (k2 + 1) == 60 * (descent_rate as int) * k2 + 60
                * (descent_rate as int)) by (nonlinear_arith);
            assert(next.altitude == current.altitude - 60 * (descent_rate as int)) by {
                assert(reader_atmo_spec(datasets, current) matches Ok(a) ==> a.velocity.vertical
                    == 0);
            }
        }
        proof {
            lemma_chain_push(datasets, burst, -(descent_rate as int), descent@, next);
        }
        let ghost pre = descent@;
        let ghost at_head = current;
        current = next;
        descent.push(current);
        proof {
            k2 = k2 + 1;
            assert forall|i: int|
                0 <= i < descent@.len() implies chain_prev(burst, descent@, i).altitude > 0 by {
                if i < descent@.len() - 1 {
                    assert(chain_prev(burst, descent@, i) == chain_prev(burst, pre, i));
                } else {
                    assert(chain_prev(burst, descent@, i) == at_head);
                }
            }
        }
    }
    Ok(Prediction::Standard(StandardPrediction { ascent, burst, descent }))
}

/// The float profile: follow the wind at the launch altitude for the
/// duration.
#[verifier::rlimit(100)]
#[verifier::spinoff_prover]
fn float_predict(reader: &mut DataSetReader, launch: Point, duration: i64) -> (r: Result<
    Prediction,
    PredictorError,
>)
    requires
        old(reader).wf(),
        launch.wf(),
        launch.time + TIME_SLACK <= TIME_LIMIT,
        -DURATION_LIMIT <= duration <= DURATION_LIMIT,
    ensures
        final(reader).wf(),
        final(reader).datasets == old(reader).datasets,
        float_result_ok(old(reader).datasets@, launch, duration as int, r),
{
    if duration <= 0 {
        return Err(PredictorError::NoData);
    }
    let ghost datasets = reader.datasets@;
    let mut current = launch;
    let mut positions: Vec<Point> = Vec::new();
    let end_time = launch.time + duration;
    while current.time < end_time
        invariant
            reader.wf(),
            reader.datasets == old(reader).datasets,
            reader.datasets@ == datasets,
            launch.wf(),
            launch.time + TIME_SLACK <= TIME_LIMIT,
            end_time == launch.time + duration,
            -DURATION_LIMIT <= duration <= DURATION_LIMIT,
            current.wf(),
            positions@.len() > 0 ==> current.time <= end_time + 60,
            current.time >= launch.time,
            chain_ok(datasets, launch, 0, positions@),
            forall|i: int| 0 <= i < positions@.len() ==> (#[trigger] positions@[i]).wf(),
            forall|i: int|
                0 <= i < positions@.len() ==> chain_prev(launch, positions@, i).time < launch.time
                    + duration,
            current == (if positions@.len() == 0 {
                launch
            } else {
                positions@.last()
            }),
            positions@.len() == 0 ==> current == launch,
            positions@.len() > 0 ==> duration > 0,
        decreases end_time - current.time + 60,
    {
        let next = match integ_step(reader, &current, 0) {
            Ok(q) => q,
            Err(_) => {
                proof {
                    assert(chain_end(launch, positions@) == current);
                    assert(float_fails_spec(datasets, launch, duration as int)) by {
                        assert(chain_ok(datasets, launch, 0, positions@));
                    }
                }
                return Err(PredictorError::NoData);
            },
        };
        proof {
            lemma_chain_push(datasets, launch, 0, positions@, next);
        }
        let ghost pre = positions@;
        let ghost at_head = current;
        current = next;
        positions.push(current);
        proof {
            assert forall|i: int|
                0 <= i < positions@.len() implies chain_prev(launch, positions@, i).time
                < launch.time + duration by {
                if i < positions@.len() - 1 {
                    assert(chain_prev(launch, positions@, i) == chain_prev(launch, pre, i));
                } else {
                    assert(chain_prev(launch, positions@, i) == at_head);
                }
            }
        }
    }
    proof {
        if positions@.len() == 0 {
            assert(current == launch);
            assert(false);
        }
    }
    Ok(Prediction::ValBal(FloatPrediction { positions }))
}

} // verus!
