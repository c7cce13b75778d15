//! Positions, velocities and atmospheric samples.
//!
//! A `Point` is a position-time tuple: latitude and longitude in
//! microdegrees (longitude wrapped into `[-180, 180)` degrees), altitude
//! in millimeters, time in Unix seconds.  A `Velocity` is in millimeters
//! per second.  An `Atmospheroid` is the state of the atmosphere at a
//! point: wind velocity and temperature in millidegrees.

use vstd::prelude::*;

use crate::arith::{clamp_i64, clamp_spec, div_tz, div_tz_spec, emod, is_isqrt, isqrt};
use crate::trig::{asin_ppm, cos_fold, cos_fold_spec, cos_ppm_spec, sin_ppm_spec};

verus! {

/// The integration step of the fixed-step integrator, in seconds.
pub const INTEGRAL_DURATION: i64 = 60;

/// Earth radius in meters.
pub const EARTH_RADIUS: i64 = 6_371_000;

/// Millimeters of meridian arc per microdegree, in thousandths:
/// `EARTH_RADIUS * pi / 180` meters per degree gives 111.195 mm per
/// microdegree.
pub const MM_E3_PER_UDEG: i64 = 111_195;

/// Meters of great-circle arc per microdegree of *half* central angle,
/// in hundred-thousandths: twice 0.111195 m.
pub const M_E5_PER_HALF_UDEG: i64 = 22_239;

/// Saturation bound for latitudes, in microdegrees.
pub const LAT_LIMIT: i64 = 1_000_000_000;

/// Saturation bound for altitudes, in millimeters.
pub const ALT_LIMIT: i64 = 100_000_000_000;

/// Bound on well-formed times, in seconds.
pub const TIME_LIMIT: i64 = 4_000_000_000_000;

/// Bound on well-formed velocity components, in mm/s.
pub const VEL_LIMIT: i64 = 10_000_000_000;

/// Longest accepted integration step, in seconds.
pub const DT_MAX: i64 = 86_400;

/// A position-time tuple.
#[derive(Clone, Copy, Debug, PartialEq, Eq, Structural)]
pub struct Point {
    /// Latitude in microdegrees.
    pub latitude: i64,
    /// Longitude in microdegrees, in `[-180_000_000, 180_000_000)`.
    pub longitude: i64,
    /// Altitude in millimeters.
    pub altitude: i64,
    /// Unix time in seconds.
    pub time: i64,
}

/// Velocity in millimeters per second.
#[derive(Clone, Copy, Debug, PartialEq, Eq, Structural)]
pub struct Velocity {
    pub north: i64,
    pub east: i64,
    pub vertical: i64,
}

/// Atmospheric condition at a point.
#[derive(Clone, Copy, Debug, PartialEq, Eq, Structural)]
pub struct Atmospheroid {
    /// Temperature in millidegrees.
    pub temperature: i64,
    pub velocity: Velocity,
}

impl Point {
    /// The ranges every point handled by the predictor stays within.
    pub open spec fn wf(self) -> bool {
        &&& -LAT_LIMIT <= self.latitude <= LAT_LIMIT
        &&& -180_000_000 <= self.longitude < 180_000_000
        &&& -ALT_LIMIT <= self.altitude <= ALT_LIMIT
        &&& -TIME_LIMIT <= self.time <= TIME_LIMIT
    }
}

impl Velocity {
    /// Bounds on a velocity the integrator accepts.
    pub open spec fn wf(self) -> bool {
        &&& -VEL_LIMIT <= self.north <= VEL_LIMIT
        &&& -VEL_LIMIT <= self.east <= VEL_LIMIT
        &&& -VEL_LIMIT <= self.vertical <= VEL_LIMIT
    }

    /// Componentwise sum.
    pub fn plus(&self, other: &Velocity) -> (r: Velocity)
        requires
            -20_000_000_000 <= self.north + other.north <= 20_000_000_000,
            -20_000_000_000 <= self.east + other.east <= 20_000_000_000,
            -20_000_000_000 <= self.vertical + other.vertical <= 20_000_000_000,
        ensures
            r.north == self.north + other.north,
            r.east == self.east + other.east,
            r.vertical == self.vertical + other.vertical,
    {
        Velocity {
            north: self.north + other.north,
            east: self.east + other.east,
            vertical: self.vertical + other.vertical,
        }
    }
}

/// Componentwise scaling of an atmosphere by a weight in ppm,
/// truncated toward zero.
pub open spec fn atmo_scale_spec(a: Atmospheroid, f: int) -> Atmospheroid {
    Atmospheroid {
        temperature: div_tz_spec(a.temperature * f, 1_000_000) as i64,
        velocity: Velocity {
            north: div_tz_spec(a.velocity.north * f, 1_000_000) as i64,
            east: div_tz_spec(a.velocity.east * f, 1_000_000) as i64,
            vertical: div_tz_spec(a.velocity.vertical * f, 1_000_000) as i64,
        },
    }
}

/// Componentwise sum of two atmospheres.
pub open spec fn atmo_plus_spec(a: Atmospheroid, b: Atmospheroid) -> Atmospheroid {
    Atmospheroid {
        temperature: (a.temperature + b.temperature) as i64,
        velocity: Velocity {
            north: (a.velocity.north + b.velocity.north) as i64,
            east: (a.velocity.east + b.velocity.east) as i64,
            vertical: (a.velocity.vertical + b.velocity.vertical) as i64,
        },
    }
}

impl Atmospheroid {
    /// All four components within `[-m, m]`.
    pub open spec fn bounded(self, m: int) -> bool {
        &&& -m <= self.temperature <= m
        &&& -m <= self.velocity.north <= m
        &&& -m <= self.velocity.east <= m
        &&& -m <= self.velocity.vertical <= m
    }

    /// Piecewise multiplication by an interpolation weight in ppm.
    pub fn scaled_ppm(&self, f: i64) -> (r: Atmospheroid)
        requires
            0 <= f <= 1_000_000,
            self.bounded(100_000_000_000),
        ensures
            r == atmo_scale_spec(*self, f as int),
            forall|m: int|
                0 <= m <= 100_000_000_000 && #[trigger] self.bounded(m) ==> r.bounded(m),
    {
        proof {
            lemma_abs_mul(self.temperature as int, f as int, 100_000_000_000, 1_000_000);
            lemma_abs_mul(self.velocity.north as int, f as int, 100_000_000_000, 1_000_000);
            lemma_abs_mul(self.velocity.east as int, f as int, 100_000_000_000, 1_000_000);
            lemma_abs_mul(self.velocity.vertical as int, f as int, 100_000_000_000, 1_000_000);
            assert forall|m: int|
                0 <= m <= 100_000_000_000 && #[trigger] self.bounded(m) implies atmo_scale_spec(
                *self,
                f as int,
            ).bounded(m) by {
                lemma_abs_mul(self.temperature as int, f as int, m, 1_000_000);
                lemma_abs_mul(self.velocity.north as int, f as int, m, 1_000_000);
                lemma_abs_mul(self.velocity.east as int, f as int, m, 1_000_000);
                lemma_abs_mul(self.velocity.vertical as int, f as int, m, 1_000_000);
                crate::arith::lemma_div_tz_bound(self.temperature as int * f, 1_000_000, m);
                crate::arith::lemma_div_tz_bound(self.velocity.north as int * f, 1_000_000, m);
                crate::arith::lemma_div_tz_bound(self.velocity.east as int * f, 1_000_000, m);
                crate::arith::lemma_div_tz_bound(self.velocity.vertical as int * f, 1_000_000, m);
            }
        }
        Atmospheroid {
            temperature: div_tz(self.temperature * f, 1_000_000),
            velocity: Velocity {
                north: div_tz(self.velocity.north * f, 1_000_000),
                east: div_tz(self.velocity.east * f, 1_000_000),
                vertical: div_tz(self.velocity.vertical * f, 1_000_000),
            },
        }
    }

    /// Componentwise sum, for assembling an interpolation.
    pub fn plus(&self, other: &Atmospheroid) -> (r: Atmospheroid)
        requires
            self.bounded(2_000_000_000_000_000_000),
            other.bounded(2_000_000_000_000_000_000),
        ensures
            r == atmo_plus_spec(*self, *other),
    {
        Atmospheroid {
            temperature: self.temperature + other.temperature,
            velocity: Velocity {
                north: self.velocity.north + other.velocity.north,
                east: self.velocity.east + other.velocity.east,
                vertical: self.velocity.vertical + other.velocity.vertical,
            },
        }
    }
}

/// Circularly wraps a longitude into `[-180, 180)` degrees.
pub open spec fn bound_spec(x: int) -> int {
    (x + 180_000_000) % 360_000_000 - 180_000_000
}

/// Circularly wraps a longitude into `[-180, 180)` degrees.
pub fn bound(x: i64) -> (r: i64)
    requires
        x <= i64::MAX - 180_000_000,
    ensures
        r == bound_spec(x as int),
        -180_000_000 <= r < 180_000_000,
{
    emod(x + 180_000_000, 360_000_000) - 180_000_000
}

/// The wrap is periodic: shifting a longitude by whole turns does not
/// change it.
pub proof fn lemma_bound_periodic(x: int, k: int)
    ensures
        bound_spec(x + 360_000_000 * k) == bound_spec(x),
{
    vstd::arithmetic::div_mod::lemma_mod_multiples_vanish(k, x + 180_000_000, 360_000_000);
    assert(x + 360_000_000 * k + 180_000_000 == 360_000_000 * k + (x + 180_000_000));
}

/// Latitude after one integration step, before saturation.
#[verifier::opaque]
pub open spec fn lat_delta_spec(v: Velocity, dt: int) -> int {
    div_tz_spec(v.north * dt * 1000, MM_E3_PER_UDEG as int)
}

/// Longitude change of one integration step: the eastward arc divided by
/// the cosine of the latitude.  A vanishing cosine is replaced by one
/// millionth, the smallest representable value, to keep the step finite.
#[verifier::opaque]
pub open spec fn lon_delta_spec(p: Point, v: Velocity, dt: int) -> int {
    let base = div_tz_spec(v.east * dt * 1000, MM_E3_PER_UDEG as int);
    let c = cos_fold_spec(p.latitude as int);
    if c == 0 {
        base * 1_000_000
    } else if c > 0 {
        div_tz_spec(base * 1_000_000, c)
    } else {
        -div_tz_spec(base * 1_000_000, -c)
    }
}

/// The point one integration step ahead: latitude and altitude move by
/// the scaled velocity and saturate, the longitude wraps, the time
/// advances by exactly `dt`.
pub open spec fn add_spec(p: Point, v: Velocity, dt: int) -> Point {
    Point {
        latitude: clamp_spec(
            p.latitude + lat_delta_spec(v, dt),
            -LAT_LIMIT as int,
            LAT_LIMIT as int,
        ) as i64,
        longitude: bound_spec(p.longitude + lon_delta_spec(p, v, dt)) as i64,
        altitude: clamp_spec(
            p.altitude + v.vertical * dt,
            -ALT_LIMIT as int,
            ALT_LIMIT as int,
        ) as i64,
        time: (p.time + dt) as i64,
    }
}

impl Point {
    /// One explicit integration step of `dt` seconds: the geodetic
    /// position update of the fixed-step integrator.  Latitude and
    /// altitude saturate at far-out-of-range bounds; time advances by
    /// exactly `dt`.
    pub fn add_with_duration(self, velocity: &Velocity, dt: i64) -> (r: Point)
        requires
            self.wf(),
            velocity.wf(),
            1 <= dt <= DT_MAX,
            self.time + dt <= TIME_LIMIT,
        ensures
            r == add_spec(self, *velocity, dt as int),
            r.time == self.time + dt,
            r.latitude == clamp_spec(
                self.latitude + lat_delta_spec(*velocity, dt as int),
                -LAT_LIMIT as int,
                LAT_LIMIT as int,
            ),
            r.longitude == bound_spec(self.longitude + lon_delta_spec(self, *velocity, dt as int)),
            r.altitude == clamp_spec(
                self.altitude + velocity.vertical * dt,
                -ALT_LIMIT as int,
                ALT_LIMIT as int,
            ),
            r.wf(),
    {
        proof {
            reveal(lat_delta_spec);
            reveal(lon_delta_spec);
            lemma_abs_mul(velocity.north as int, dt as int, VEL_LIMIT as int, DT_MAX as int);
            lemma_abs_mul(velocity.east as int, dt as int, VEL_LIMIT as int, DT_MAX as int);
            lemma_abs_mul(velocity.vertical as int, dt as int, VEL_LIMIT as int, DT_MAX as int);
        }
        let north_mm = velocity.north * dt * 1000;
        let east_mm = velocity.east * dt * 1000;
        let dlat = div_tz(north_mm, MM_E3_PER_UDEG);
        proof {
            lemma_div_tz_abs(north_mm as int, MM_E3_PER_UDEG as int);
            lemma_div_tz_abs(east_mm as int, MM_E3_PER_UDEG as int);
        }
        let base = div_tz(east_mm, MM_E3_PER_UDEG);
        let c = cos_fold(self.latitude);
        let dlon: i64 = if c == 0 {
            base * 1_000_000
        } else if c > 0 {
            proof {
                lemma_div_tz_abs(base as int * 1_000_000, c as int);
            }
            div_tz(base * 1_000_000, c)
        } else {
            proof {
                lemma_div_tz_abs(base as int * 1_000_000, -c as int);
            }
            -div_tz(base * 1_000_000, -c)
        };
        Point {
            latitude: clamp_i64(self.latitude + dlat, -LAT_LIMIT, LAT_LIMIT),
            longitude: bound(self.longitude + dlon),
            altitude: clamp_i64(self.altitude + velocity.vertical * dt, -ALT_LIMIT, ALT_LIMIT),
            time: self.time + dt,
        }
    }
}

/// Haversine of an angle in `[0, 180]` degrees, in ppm.
pub open spec fn hav_ppm_spec(theta: int) -> int
    recommends
        0 <= theta <= 180_000_000,
{
    (1_000_000 - cos_ppm_spec(theta)) / 2
}

/// Fold an angle difference into `[0, 180]` degrees by evenness and
/// periodicity.
pub open spec fn fold_angle_spec(d: int) -> int {
    let m = (if d < 0 {
        -d
    } else {
        d
    }) % 360_000_000;
    if m > 180_000_000 {
        360_000_000 - m
    } else {
        m
    }
}

/// The haversine combination
/// `hav(dlat) + cos(lat1) cos(lat2) hav(dlon)`, at the scale of one
/// trillion, clamped into `[0, 10^12]`.
pub open spec fn hav_combined_spec(p1: Point, p2: Point) -> int {
    let h1 = hav_ppm_spec(fold_angle_spec(p1.latitude - p2.latitude));
    let h2 = hav_ppm_spec(fold_angle_spec(p1.longitude - p2.longitude));
    let c = div_tz_spec(
        cos_fold_spec(p1.latitude as int) * cos_fold_spec(p2.latitude as int),
        1_000_000,
    );
    clamp_spec(h1 * 1_000_000 + c * h2, 0, 1_000_000_000_000)
}

/// What `distance_to` returns: `2 R asin(sqrt(h))` evaluated in fixed
/// point — the haversine combination, its integer square root, the
/// bisection arcsine, and the arc scale.  A value, so symmetry and the
/// zero distance of coinciding points are provable of it.
#[verifier::opaque]
pub open spec fn dist_spec(p1: Point, p2: Point) -> int {
    let h = hav_combined_spec(p1, p2);
    let s = crate::arith::sqrt_floor_spec(h);
    let half = crate::trig::asin_ppm_spec(s);
    half * (M_E5_PER_HALF_UDEG as int) / 100_000
}

/// The distance does not depend on the order of its two points.
pub proof fn lemma_distance_symmetric(p1: Point, p2: Point)
    ensures
        dist_spec(p1, p2) == dist_spec(p2, p1),
{
    reveal(dist_spec);
    assert(fold_angle_spec(p1.latitude - p2.latitude) == fold_angle_spec(
        p2.latitude - p1.latitude,
    ));
    assert(fold_angle_spec(p1.longitude - p2.longitude) == fold_angle_spec(
        p2.longitude - p1.longitude,
    ));
    assert(cos_fold_spec(p1.latitude as int) * cos_fold_spec(p2.latitude as int) == cos_fold_spec(
        p2.latitude as int,
    ) * cos_fold_spec(p1.latitude as int)) by (nonlinear_arith);
    assert(hav_combined_spec(p1, p2) == hav_combined_spec(p2, p1));
}

/// Two points at the same coordinates are at distance zero, whatever
/// their altitudes and times.
pub proof fn lemma_distance_zero_on_equal(p1: Point, p2: Point)
    requires
        p1.latitude == p2.latitude,
        p1.longitude == p2.longitude,
    ensures
        dist_spec(p1, p2) == 0,
{
    reveal(dist_spec);
    crate::trig::lemma_sin_end_points();
    assert(fold_angle_spec(0) == 0) by {
        assert(0int % 360_000_000 == 0);
    }
    assert(hav_ppm_spec(0) == 0);
    let c = div_tz_spec(
        cos_fold_spec(p1.latitude as int) * cos_fold_spec(p2.latitude as int),
        1_000_000,
    );
    assert(0 * 1_000_000 == 0) by (nonlinear_arith);
    assert(c * 0 == 0) by (nonlinear_arith);
    assert(hav_combined_spec(p1, p2) == 0);
    assert(0 * 0 <= 0 && 0 < (0 + 1) * (0 + 1)) by (nonlinear_arith);
    crate::arith::lemma_sqrt_floor(0, 0);
    assert(crate::trig::asin_ppm_spec(0) == 0);
    assert(0 * (M_E5_PER_HALF_UDEG as int) == 0) by (nonlinear_arith);
    vstd::arithmetic::div_mod::lemma_div_by_multiple(0, 100_000);
}

fn fold_angle(d: i64) -> (r: i64)
    requires
        -4_000_000_000 <= d <= 4_000_000_000,
    ensures
        r == fold_angle_spec(d as int),
        0 <= r <= 180_000_000,
{
    let m = emod(if d < 0 { -d } else { d }, 360_000_000);
    if m > 180_000_000 {
        360_000_000 - m
    } else {
        m
    }
}

fn hav_ppm(theta: i64) -> (r: i64)
    requires
        0 <= theta <= 180_000_000,
    ensures
        r == hav_ppm_spec(theta as int),
        0 <= r <= 1_000_000,
{
    let c = crate::trig::cos_ppm(theta);
    (1_000_000 - c) / 2
}

impl Point {
    /// The great-circle distance to another point, in meters, by the
    /// haversine formula evaluated in fixed point.
    pub fn distance_to(&self, other: &Point) -> (r: i64)
        requires
            self.wf(),
            other.wf(),
        ensures
            r == dist_spec(*self, *other),
            0 <= r <= 20_016_000,
    {
        proof {
            reveal(dist_spec);
        }
        let h1 = hav_ppm(fold_angle(self.latitude - other.latitude));
        let h2 = hav_ppm(fold_angle(self.longitude - other.longitude));
        let c1 = cos_fold(self.latitude);
        let c2 = cos_fold(other.latitude);
        proof {
            lemma_abs_mul(c1 as int, c2 as int + 1_000_000, 1_000_000, 2_000_000);
            assert(-1_000_000_000_000 <= c1 as int * c2 as int <= 1_000_000_000_000)
                by (nonlinear_arith)
                requires
                    -1_000_000 <= c1 as int <= 1_000_000,
                    -1_000_000 <= c2 as int <= 1_000_000,
            ;
            crate::arith::lemma_div_tz_bound(c1 as int * c2 as int, 1_000_000, 1_000_000);
        }
        let c = div_tz(c1 * c2, 1_000_000);
        proof {
            assert(-1_000_000_000_000 <= c as int * h2 as int <= 1_000_000_000_000)
                by (nonlinear_arith)
                requires
                    -1_000_000 <= c as int <= 1_000_000,
                    0 <= h2 as int <= 1_000_000,
            ;
        }
        let h = clamp_i64(h1 * 1_000_000 + c * h2, 0, 1_000_000_000_000);
        let s_u = isqrt(h as u64);
        proof {
            assert(s_u as int <= 1_000_000) by (nonlinear_arith)
                requires
                    s_u as int * s_u as int <= 1_000_000_000_000,
                    s_u as int >= 0,
            ;
        }
        let s = s_u as i64;
        let half = asin_ppm(s);
        let r = ((half as u64) * (M_E5_PER_HALF_UDEG as u64) / 100_000) as i64;
        proof {
            assert(half as int * (M_E5_PER_HALF_UDEG as int) <= 90_000_000 * 22_239)
                by (nonlinear_arith)
                requires
                    0 <= half as int,
                    (half as int) < 90_000_000,
                    (M_E5_PER_HALF_UDEG as int) == 22_239,
            ;
            vstd::arithmetic::div_mod::lemma_div_is_ordered(
                half as int * (M_E5_PER_HALF_UDEG as int),
                90_000_000 as int * 22_239,
                100_000,
            );
            vstd::arithmetic::div_mod::lemma_div_pos_is_pos(
                half as int * (M_E5_PER_HALF_UDEG as int),
                100_000,
            );
        }
        r
    }
}

proof fn lemma_abs_mul(a: int, b: int, am: int, bm: int)
    requires
        -am <= a <= am,
        0 <= b <= bm,
        0 <= am,
    ensures
        -(am * bm) <= a * b <= am * bm,
{
    assert(-(am * bm) <= a * b <= am * bm) by (nonlinear_arith)
        requires
            -am <= a <= am,
            0 <= b <= bm,
            0 <= am,
    ;
}

proof fn lemma_div_tz_abs(x: int, d: int)
    requires
        d >= 1,
    ensures
        -div_tz_spec(if x >= 0 { x } else { -x }, d) <= div_tz_spec(x, d) <= div_tz_spec(
            if x >= 0 {
                x
            } else {
                -x
            },
            d,
        ),
        div_tz_spec(if x >= 0 { x } else { -x }, d) <= if x >= 0 {
            x
        } else {
            -x
        },
{
    let m = if x >= 0 { x } else { -x };
    vstd::arithmetic::div_mod::lemma_div_pos_is_pos(m, d);
    vstd::arithmetic::div_mod::lemma_div_is_ordered_by_denominator(m, 1, d);
    vstd::arithmetic::div_mod::lemma_div_basics(m);
}

} // verus!
