//! Alignment of a point onto the forecast grid.
//!
//! A point maps to the eight aligned corners that surround it
//! (north/south latitude, east/west longitude, and the bracketing
//! pressure levels) together with six interpolation weights in parts
//! per million.  Pressure is derived from altitude by a piecewise
//! linear barometric model that is exact, at every tabulated level, for
//! `1013.25 (1 - alt / 44330)^5.255` hPa.  Aligned longitudes carry the
//! `+180` shift into `[0, 360)` degrees; aligned latitudes are clamped
//! to `[-90, 90]`.

use vstd::prelude::*;

use crate::arith::{
    clamp_i64, clamp_spec, div_ceil, div_ceil_spec, div_floor, lemma_ceil_floor,
};
use crate::point::Point;

verus! {

/// The grid resolution: half a degree, in microdegrees.
pub const GRID: i64 = 500_000;

/// The pressure of the isobaric surface at index `i` of the fixed
/// ordered set of levels, in hPa.
#[verifier::opaque]
pub open spec fn level_value_spec(i: int) -> int {
    if i == 0 {
        2
    } else    if i == 1 {
        3
    } else    if i == 2 {
        5
    } else    if i == 3 {
        7
    } else    if i == 4 {
        10
    } else    if i == 5 {
        20
    } else    if i == 6 {
        30
    } else    if i == 7 {
        50
    } else    if i == 8 {
        70
    } else    if i == 9 {
        80
    } else    if i == 10 {
        100
    } else    if i == 11 {
        150
    } else    if i == 12 {
        200
    } else    if i == 13 {
        250
    } else    if i == 14 {
        300
    } else    if i == 15 {
        350
    } else    if i == 16 {
        400
    } else    if i == 17 {
        450
    } else    if i == 18 {
        500
    } else    if i == 19 {
        550
    } else    if i == 20 {
        600
    } else    if i == 21 {
        650
    } else    if i == 22 {
        700
    } else    if i == 23 {
        750
    } else    if i == 24 {
        800
    } else    if i == 25 {
        850
    } else    if i == 26 {
        900
    } else    if i == 27 {
        925
    } else    if i == 28 {
        950
    } else    if i == 29 {
        975
    } else {
        1000
    }
}

/// The index of a pressure level within the fixed ordered set, or -1.
#[verifier::opaque]
pub open spec fn level_index_spec(v: int) -> int {
    if v == 2 {
        0
    } else    if v == 3 {
        1
    } else    if v == 5 {
        2
    } else    if v == 7 {
        3
    } else    if v == 10 {
        4
    } else    if v == 20 {
        5
    } else    if v == 30 {
        6
    } else    if v == 50 {
        7
    } else    if v == 70 {
        8
    } else    if v == 80 {
        9
    } else    if v == 100 {
        10
    } else    if v == 150 {
        11
    } else    if v == 200 {
        12
    } else    if v == 250 {
        13
    } else    if v == 300 {
        14
    } else    if v == 350 {
        15
    } else    if v == 400 {
        16
    } else    if v == 450 {
        17
    } else    if v == 500 {
        18
    } else    if v == 550 {
        19
    } else    if v == 600 {
        20
    } else    if v == 650 {
        21
    } else    if v == 700 {
        22
    } else    if v == 750 {
        23
    } else    if v == 800 {
        24
    } else    if v == 850 {
        25
    } else    if v == 900 {
        26
    } else    if v == 925 {
        27
    } else    if v == 950 {
        28
    } else    if v == 975 {
        29
    } else    if v == 1000 {
        30
    } else {
        -1
    }
}

/// Whether `v` is one of the enumerated pressure levels.
pub open spec fn is_level(v: int) -> bool {
    level_index_spec(v) >= 0
}

/// The altitude, in millimeters, at which the barometric formula gives
/// exactly the pressure of level `i`.
#[verifier::opaque]
pub open spec fn level_alt_spec(i: int) -> int {
    if i == 0 {
        30777809
    } else    if i == 1 {
        29690751
    } else    if i == 2 {
        28196244
    } else    if i == 3 {
        27129427
    } else    if i == 4 {
        25921433
    } else    if i == 5 {
        23325881
    } else    if i == 6 {
        21641084
    } else    if i == 7 {
        19324793
    } else    if i == 8 {
        17671367
    } else    if i == 9 {
        16985282
    } else    if i == 10 {
        15799135
    } else    if i == 11 {
        13510597
    } else    if i == 12 {
        11776370
    } else    if i == 13 {
        10364273
    } else    if i == 14 {
        9165155
    } else    if i == 15 {
        8118348
    } else    if i == 16 {
        7186407
    } else    if i == 17 {
        6344488
    } else    if i == 18 {
        5575209
    } else    if i == 19 {
        4865898
    } else    if i == 20 {
        4207019
    } else    if i == 21 {
        3591198
    } else    if i == 22 {
        3012615
    } else    if i == 23 {
        2466582
    } else    if i == 24 {
        1949273
    } else    if i == 25 {
        1457514
    } else    if i == 26 {
        988646
    } else    if i == 27 {
        762079
    } else    if i == 28 {
        540417
    } else    if i == 29 {
        323429
    } else {
        110901
    }
}

/// The pressure of the isobaric surface at index `i`, in hPa.
pub fn level_value(i: usize) -> (r: i32)
    requires
        i < 31,
    ensures
        r as int == level_value_spec(i as int),
{
    proof {
        reveal(level_value_spec);
    }
    match i {
        0 => 2,
        1 => 3,
        2 => 5,
        3 => 7,
        4 => 10,
        5 => 20,
        6 => 30,
        7 => 50,
        8 => 70,
        9 => 80,
        10 => 100,
        11 => 150,
        12 => 200,
        13 => 250,
        14 => 300,
        15 => 350,
        16 => 400,
        17 => 450,
        18 => 500,
        19 => 550,
        20 => 600,
        21 => 650,
        22 => 700,
        23 => 750,
        24 => 800,
        25 => 850,
        26 => 900,
        27 => 925,
        28 => 950,
        29 => 975,
        30 => 1000,
        _ => 2,
    }
}

/// The index of a pressure level, or -1 when it is not one.
pub fn level_index(v: i32) -> (r: i32)
    ensures
        r as int == level_index_spec(v as int),
{
    proof {
        reveal(level_index_spec);
    }
    match v {
        2 => 0,
        3 => 1,
        5 => 2,
        7 => 3,
        10 => 4,
        20 => 5,
        30 => 6,
        50 => 7,
        70 => 8,
        80 => 9,
        100 => 10,
        150 => 11,
        200 => 12,
        250 => 13,
        300 => 14,
        350 => 15,
        400 => 16,
        450 => 17,
        500 => 18,
        550 => 19,
        600 => 20,
        650 => 21,
        700 => 22,
        750 => 23,
        800 => 24,
        850 => 25,
        900 => 26,
        925 => 27,
        950 => 28,
        975 => 29,
        1000 => 30,
        _ => -1,
    }
}

/// The altitude anchor of level `i`, in millimeters.
pub fn level_alt(i: usize) -> (r: i64)
    requires
        i < 31,
    ensures
        r as int == level_alt_spec(i as int),
{
    proof {
        reveal(level_alt_spec);
    }
    match i {
        0 => 30777809,
        1 => 29690751,
        2 => 28196244,
        3 => 27129427,
        4 => 25921433,
        5 => 23325881,
        6 => 21641084,
        7 => 19324793,
        8 => 17671367,
        9 => 16985282,
        10 => 15799135,
        11 => 13510597,
        12 => 11776370,
        13 => 10364273,
        14 => 9165155,
        15 => 8118348,
        16 => 7186407,
        17 => 6344488,
        18 => 5575209,
        19 => 4865898,
        20 => 4207019,
        21 => 3591198,
        22 => 3012615,
        23 => 2466582,
        24 => 1949273,
        25 => 1457514,
        26 => 988646,
        27 => 762079,
        28 => 540417,
        29 => 323429,
        30 => 110901,
        _ => 30_777_809,
    }
}

/// The level values are strictly increasing and the altitude anchors
/// strictly decreasing along the index.
pub proof fn lemma_levels_monotone()
    ensures
        forall|i: int, j: int|
            0 <= i < j < 31 ==> #[trigger] level_value_spec(i) < #[trigger] level_value_spec(j) && level_alt_spec(i)
                > level_alt_spec(j),
        forall|i: int| 0 <= i < 31 ==> 2 <= #[trigger] level_value_spec(i) <= 1000,
        forall|i: int| 0 <= i < 31 ==> 110_901 <= #[trigger] level_alt_spec(i) <= 30_777_809,
        forall|i: int| 0 <= i < 31 ==> #[trigger] level_index_spec(level_value_spec(i)) == i,
        level_value_spec(0) == 2,
        level_value_spec(30) == 1000,
        level_alt_spec(0) == 30_777_809,
        level_alt_spec(30) == 110_901,
{
    reveal(level_value_spec);
    reveal(level_index_spec);
    reveal(level_alt_spec);
    assert forall|i: int, j: int| 0 <= i < j < 31 implies level_value_spec(i) < level_value_spec(
        j,
    ) && level_alt_spec(i) > level_alt_spec(j) by {
        lemma_levels_chain(i, j);
    }
}

proof fn lemma_levels_chain(i: int, j: int)
    requires
        0 <= i < j < 31,
    ensures
        level_value_spec(i) < level_value_spec(j),
        level_alt_spec(i) > level_alt_spec(j),
    decreases j - i,
{
    reveal(level_value_spec);
    reveal(level_alt_spec);
    if j == i + 1 {
    } else {
        lemma_levels_chain(i, j - 1);
    }
}

/// The linear pressure interpolation within the bracket at index `i`,
/// in centi-hPa.
pub open spec fn pressure_interp_spec(alt: int, i: int) -> int
    recommends
        0 <= i <= 29,
{
    level_value_spec(i) * 100 + (level_alt_spec(i) - alt) * ((level_value_spec(i + 1)
        - level_value_spec(i)) * 100) / (level_alt_spec(i) - level_alt_spec(i + 1))
}

/// Scan for the altitude bracket, downward from level index `i`.
pub open spec fn pressure_scan_spec(alt: int, i: int) -> int
    recommends
        0 <= i <= 29,
        alt > 110_901,
    decreases 29 - i,
{
    if i >= 29 || alt >= level_alt_spec(i + 1) {
        pressure_interp_spec(alt, i)
    } else {
        pressure_scan_spec(alt, i + 1)
    }
}

/// Pressure at an altitude, in centi-hPa, clamped to the tabulated
/// range `[2, 1000]` hPa.
pub open spec fn pressure_centi_spec(alt: int) -> int {
    if alt >= 30_777_809 {
        200
    } else if alt <= 110_901 {
        100_000
    } else {
        pressure_scan_spec(alt, 0)
    }
}

fn pressure_scan(alt: i64, i: usize) -> (r: i64)
    requires
        0 <= i <= 29,
        110_901 < alt,
        (alt as int) < level_alt_spec(i as int),
    ensures
        r == pressure_scan_spec(alt as int, i as int),
        200 <= r <= 100_000,
        level_value_spec(i as int) * 100 <= r,
    decreases 29 - i,
{
    proof {
        lemma_levels_monotone();
    }
    if i >= 29 || alt >= level_alt(i + 1) {
        let lv = level_value(i) as i64;
        let lv_next = level_value(i + 1) as i64;
        let anchor = level_alt(i);
        let anchor_next = level_alt(i + 1);
        let gap = anchor - anchor_next;
        let num = anchor - alt;
        proof {
            assert(0 < num <= gap);
            assert(0 < lv_next - lv <= 998);
            assert(num * ((lv_next - lv) * 100) <= gap * ((lv_next - lv) * 100)) by (nonlinear_arith)
                requires
                    0 < num <= gap,
                    0 < (lv_next - lv) * 100,
            ;
            assert(num * ((lv_next - lv) * 100) >= 0) by (nonlinear_arith)
                requires
                    num >= 0,
                    (lv_next - lv) * 100 >= 0,
            ;
            assert(num * ((lv_next - lv) * 100) <= 30_777_809 * 99_800) by (nonlinear_arith)
                requires
                    0 <= num <= 30_777_809,
                    0 <= (lv_next - lv) * 100 <= 99_800,
            ;
            vstd::arithmetic::div_mod::lemma_div_is_ordered(
                num * ((lv_next - lv) * 100),
                gap * ((lv_next - lv) * 100),
                gap as int,
            );
            vstd::arithmetic::div_mod::lemma_div_by_multiple((lv_next - lv) * 100, gap as int);
            assert(gap * ((lv_next - lv) * 100) == ((lv_next - lv) * 100) * gap)
                by (nonlinear_arith);
            vstd::arithmetic::div_mod::lemma_div_pos_is_pos(num * ((lv_next - lv) * 100), gap as int);
        }
        lv * 100 + (num * ((lv_next - lv) * 100)) / gap
    } else {
        pressure_scan(alt, i + 1)
    }
}

/// Pressure at an altitude, in centi-hPa.
pub fn pressure_centi(alt: i64) -> (r: i64)
    requires
        -crate::point::ALT_LIMIT <= alt <= crate::point::ALT_LIMIT,
    ensures
        r == pressure_centi_spec(alt as int),
        200 <= r <= 100_000,
{
    if alt >= 30_777_809 {
        200
    } else if alt <= 110_901 {
        100_000
    } else {
        proof {
            reveal(level_alt_spec);
        }
        pressure_scan(alt, 0)
    }
}

/// The absolute gap between a pressure in centi-hPa and level `i`.
pub open spec fn level_diff_spec(pc: int, i: int) -> int {
    let d = pc - level_value_spec(i) * 100;
    if d < 0 {
        -d
    } else {
        d
    }
}

/// The scan for the level nearest to `pc`, keeping the earliest on ties.
pub open spec fn nearest_scan_spec(pc: int, i: int, best: int) -> int
    recommends
        1 <= i <= 31,
        0 <= best < i,
    decreases 31 - i,
{
    if i >= 31 {
        best
    } else if level_diff_spec(pc, i) < level_diff_spec(pc, best) {
        nearest_scan_spec(pc, i + 1, i)
    } else {
        nearest_scan_spec(pc, i + 1, best)
    }
}

/// The index of the level whose pressure is closest to `pc`, the lowest
/// level winning ties.
pub open spec fn nearest_level_spec(pc: int) -> int {
    nearest_scan_spec(pc, 1, 0)
}

fn nearest_scan(pc: i64, i: usize, best: usize) -> (r: usize)
    requires
        200 <= pc <= 100_000,
        1 <= i <= 31,
        best < i,
        forall|j: int| 0 <= j < i ==> level_diff_spec(pc as int, best as int) <= level_diff_spec(pc as int, j),
        forall|j: int| 0 <= j < best ==> level_diff_spec(pc as int, j) > level_diff_spec(pc as int, best as int),
    ensures
        r == nearest_scan_spec(pc as int, i as int, best as int),
        r < 31,
        forall|j: int| 0 <= j < 31 ==> level_diff_spec(pc as int, r as int) <= level_diff_spec(pc as int, j),
        forall|j: int| 0 <= j < r ==> level_diff_spec(pc as int, j) > level_diff_spec(pc as int, r as int),
    decreases 31 - i,
{
    if i >= 31 {
        best
    } else {
        let db = level_diff(pc, best);
        let di = level_diff(pc, i);
        if di < db {
            nearest_scan(pc, i + 1, i)
        } else {
            nearest_scan(pc, i + 1, best)
        }
    }
}

fn level_diff(pc: i64, i: usize) -> (r: i64)
    requires
        200 <= pc <= 100_000,
        i < 31,
    ensures
        r == level_diff_spec(pc as int, i as int),
{
    let d = pc - (level_value(i) as i64) * 100;
    if d < 0 {
        -d
    } else {
        d
    }
}

/// The index of the level nearest in pressure to `pc`.
pub fn nearest_level(pc: i64) -> (r: usize)
    requires
        200 <= pc <= 100_000,
    ensures
        r == nearest_level_spec(pc as int),
        r < 31,
        forall|j: int| 0 <= j < 31 ==> level_diff_spec(pc as int, r as int) <= level_diff_spec(pc as int, j),
        forall|j: int| 0 <= j < r ==> level_diff_spec(pc as int, j) > level_diff_spec(pc as int, r as int),
{
    nearest_scan(pc, 1, 0)
}

/// A point aligned to the grid resolution: latitude in `[-90, 90]`
/// degrees, longitude shifted into `[0, 360)` degrees, both multiples
/// of half a degree, and one of the enumerated pressure levels.
#[derive(Clone, Copy, Debug, PartialEq, Eq, Structural)]
pub struct AlignedPoint {
    /// Latitude in microdegrees, clamped to `[-90, 90]` degrees.
    pub latitude: i64,
    /// Longitude in microdegrees, shifted into `[0, 360)` degrees.
    pub longitude: i64,
    /// Pressure level in hPa.
    pub level: i32,
}

impl AlignedPoint {
    /// The invariant of every aligned corner.
    pub open spec fn wf(self) -> bool {
        &&& -90_000_000 <= self.latitude <= 90_000_000
        &&& (self.latitude as int) % (GRID as int) == 0
        &&& 0 <= self.longitude < 360_000_000
        &&& (self.longitude as int) % (GRID as int) == 0
        &&& is_level(self.level as int)
    }
}

/// The eight corners surrounding a point and the interpolation weights.
pub struct Alignment {
    pub ne_down: AlignedPoint,
    pub ne_up: AlignedPoint,
    pub nw_down: AlignedPoint,
    pub nw_up: AlignedPoint,
    pub se_down: AlignedPoint,
    pub se_up: AlignedPoint,
    pub sw_down: AlignedPoint,
    pub sw_up: AlignedPoint,
    /// Weights in parts per million.
    pub percent_north: i64,
    pub percent_south: i64,
    pub percent_east: i64,
    pub percent_west: i64,
    pub percent_down: i64,
    pub percent_up: i64,
}

/// A rounded grid coordinate turned into a clamped corner latitude.
pub open spec fn align_lat_spec(c: int) -> int {
    clamp_spec(c * (GRID as int), -90_000_000, 90_000_000)
}

/// A rounded grid coordinate turned into a shifted corner longitude.
pub open spec fn align_lon_spec(c: int) -> int
    recommends
        -360 <= c <= 360,
{
    let v = c * (GRID as int) + 180_000_000;
    if v >= 360_000_000 {
        v - 360_000_000
    } else {
        v
    }
}

/// The index of the bracketing level of lower pressure ("down").
pub open spec fn level_down_index_spec(pc: int) -> int {
    let bi = nearest_level_spec(pc);
    if pc <= 200 || pc >= 100_000 {
        bi
    } else if level_value_spec(bi) > pc / 100 {
        bi - 1
    } else {
        bi
    }
}

/// The index of the bracketing level of higher pressure ("up").
pub open spec fn level_up_index_spec(pc: int) -> int {
    let bi = nearest_level_spec(pc);
    if pc <= 200 || pc >= 100_000 {
        bi
    } else if level_value_spec(bi) > pc / 100 {
        bi
    } else {
        bi + 1
    }
}

/// The vertical weight: how far the pressure sits from the "down"
/// level, as a fraction of the bracket, or one on a degenerate bracket.
pub open spec fn percent_down_spec(pc: int) -> int {
    let di = level_down_index_spec(pc);
    let ui = level_up_index_spec(pc);
    if di == ui {
        1_000_000
    } else {
        clamp_spec(
            level_diff_spec(pc, di) * 1_000_000 / ((level_value_spec(ui) - level_value_spec(di))
                * 100),
            0,
            1_000_000,
        )
    }
}

/// The northern weight: the gap between the rounded grid coordinates,
/// with a query on a grid line counted fully north.  Off a grid line
/// the gap is one, so this weight is one for every latitude and the
/// horizontal interpolation degenerates to the north-east corner; the
/// formula is kept as the grid's prescribed weighting.
pub open spec fn percent_north_spec(lat: int) -> int {
    let c = div_ceil_spec(lat, GRID as int);
    let f = lat / (GRID as int);
    if c == f {
        1_000_000
    } else {
        (c - f) * 1_000_000
    }
}

/// The eastern weight, built like the northern one.
pub open spec fn percent_east_spec(lon: int) -> int {
    let c = div_ceil_spec(lon, GRID as int);
    let f = lon / (GRID as int);
    if c == f {
        1_000_000
    } else {
        (c - f) * 1_000_000
    }
}

/// The corner of a point in a given direction.
pub open spec fn aligned_corner_spec(p: Point, north: bool, east: bool, up: bool) -> AlignedPoint {
    let pc = pressure_centi_spec(p.altitude as int);
    let li = if up {
        level_up_index_spec(pc)
    } else {
        level_down_index_spec(pc)
    };
    let lat_c = if north {
        div_ceil_spec(p.latitude as int, GRID as int)
    } else {
        p.latitude as int / (GRID as int)
    };
    let lon_c = if east {
        div_ceil_spec(p.longitude as int, GRID as int)
    } else {
        p.longitude as int / (GRID as int)
    };
    AlignedPoint {
        latitude: align_lat_spec(lat_c) as i64,
        longitude: align_lon_spec(lon_c) as i64,
        level: level_value_spec(li) as i32,
    }
}

/// What `align` returns, corner by corner and weight by weight.
pub open spec fn is_alignment_of(p: Point, a: Alignment) -> bool {
    let pc = pressure_centi_spec(p.altitude as int);
    &&& a.ne_down == aligned_corner_spec(p, true, true, false)
    &&& a.ne_up == aligned_corner_spec(p, true, true, true)
    &&& a.nw_down == aligned_corner_spec(p, true, false, false)
    &&& a.nw_up == aligned_corner_spec(p, true, false, true)
    &&& a.se_down == aligned_corner_spec(p, false, true, false)
    &&& a.se_up == aligned_corner_spec(p, false, true, true)
    &&& a.sw_down == aligned_corner_spec(p, false, false, false)
    &&& a.sw_up == aligned_corner_spec(p, false, false, true)
    &&& a.percent_north == percent_north_spec(p.latitude as int)
    &&& a.percent_south == 1_000_000 - percent_north_spec(p.latitude as int)
    &&& a.percent_east == percent_east_spec(p.longitude as int)
    &&& a.percent_west == 1_000_000 - percent_east_spec(p.longitude as int)
    &&& a.percent_down == percent_down_spec(pc)
    &&& a.percent_up == 1_000_000 - percent_down_spec(pc)
}

fn align_lat(c: i64) -> (r: i64)
    requires
        -3000 <= c <= 3000,
    ensures
        r == align_lat_spec(c as int),
        -90_000_000 <= r <= 90_000_000,
        r % GRID == 0,
{
    proof {
        vstd::arithmetic::div_mod::lemma_mod_multiples_basic(c as int, GRID as int);
        vstd::arithmetic::div_mod::lemma_mod_multiples_basic(180, GRID as int);
        vstd::arithmetic::div_mod::lemma_mod_multiples_basic(-180, GRID as int);
    }
    clamp_i64(c * GRID, -90_000_000, 90_000_000)
}

fn align_lon(c: i64) -> (r: i64)
    requires
        -360 <= c <= 360,
    ensures
        r == align_lon_spec(c as int),
        0 <= r < 360_000_000,
        r % GRID == 0,
{
    let v = c * GRID + 180_000_000;
    proof {
        vstd::arithmetic::div_mod::lemma_mod_multiples_basic(c as int + 360, GRID as int);
        vstd::arithmetic::div_mod::lemma_mod_multiples_basic(c as int + 360 - 720, GRID as int);
        assert((c as int + 360) * (GRID as int) == c as int * (GRID as int) + 180_000_000)
            by (nonlinear_arith)
            requires
                (GRID as int) == 500_000,
        ;
        assert((c as int + 360 - 720) * (GRID as int) == c as int * (GRID as int) + 180_000_000
            - 360_000_000) by (nonlinear_arith)
            requires
                (GRID as int) == 500_000,
        ;
    }
    if v >= 360_000_000 {
        v - 360_000_000
    } else {
        v
    }
}

impl Point {
    /// The eight surrounding aligned corners with their interpolation
    /// weights.  The three weight pairs each sum to one, and each weight
    /// lies in `[0, 1]`.
    pub fn align(&self) -> (r: Alignment)
        requires
            self.wf(),
        ensures
            is_alignment_of(*self, r),
            r.ne_down.wf() && r.ne_up.wf() && r.nw_down.wf() && r.nw_up.wf(),
            r.se_down.wf() && r.se_up.wf() && r.sw_down.wf() && r.sw_up.wf(),
            r.percent_north + r.percent_south == 1_000_000,
            r.percent_east + r.percent_west == 1_000_000,
            r.percent_down + r.percent_up == 1_000_000,
            0 <= r.percent_north <= 1_000_000,
            0 <= r.percent_south <= 1_000_000,
            0 <= r.percent_east <= 1_000_000,
            0 <= r.percent_west <= 1_000_000,
            0 <= r.percent_down <= 1_000_000,
            0 <= r.percent_up <= 1_000_000,
    {
        proof {
            lemma_levels_monotone();
        }
        let pc = pressure_centi(self.altitude);
        let bi = nearest_level(pc);
        let p_int = ((pc as u64) / 100) as i64;
        let (di, ui): (usize, usize) = if pc <= 200 || pc >= 100_000 {
            (bi, bi)
        } else if (level_value(bi) as i64) > p_int {
            proof {
                if bi == 0 {
                    reveal(level_value_spec);
                    assert(level_value_spec(0) == 2);
                    assert(pc as int / 100 >= 2);
                }
            }
            (bi - 1, bi)
        } else {
            proof {
                if bi == 30 {
                    reveal(level_value_spec);
                    assert(level_value_spec(30) == 1000);
                    assert(pc as int / 100 <= 999);
                }
            }
            (bi, bi + 1)
        };
        let percent_down: i64 = if di == ui {
            1_000_000
        } else {
            let diff = level_diff(pc, di);
            let span = ((level_value(ui) as i64) - (level_value(di) as i64)) * 100;
            proof {
                assert(diff * 1_000_000 <= 100_000 * 1_000_000) by (nonlinear_arith)
                    requires
                        0 <= diff <= 100_000,
                ;
                vstd::arithmetic::div_mod::lemma_div_pos_is_pos(diff * 1_000_000, span as int);
            }
            clamp_i64(((diff * 1_000_000) as u64 / (span as u64)) as i64, 0, 1_000_000)
        };
        let lat_c = div_ceil(self.latitude, GRID);
        let lat_f = div_floor(self.latitude, GRID);
        let lon_c = div_ceil(self.longitude, GRID);
        let lon_f = div_floor(self.longitude, GRID);
        proof {
            lemma_ceil_floor(self.latitude as int, GRID as int);
            lemma_ceil_floor(self.longitude as int, GRID as int);
        }
        let percent_north: i64 = if lat_c == lat_f {
            1_000_000
        } else {
            (lat_c - lat_f) * 1_000_000
        };
        let percent_east: i64 = if lon_c == lon_f {
            1_000_000
        } else {
            (lon_c - lon_f) * 1_000_000
        };
        let lat_n = align_lat(lat_c);
        let lat_s = align_lat(lat_f);
        let lon_e = align_lon(lon_c);
        let lon_w = align_lon(lon_f);
        let lv_d = level_value(di);
        let lv_u = level_value(ui);
        Alignment {
            ne_down: AlignedPoint { latitude: lat_n, longitude: lon_e, level: lv_d },
            ne_up: AlignedPoint { latitude: lat_n, longitude: lon_e, level: lv_u },
            nw_down: AlignedPoint { latitude: lat_n, longitude: lon_w, level: lv_d },
            nw_up: AlignedPoint { latitude: lat_n, longitude: lon_w, level: lv_u },
            se_down: AlignedPoint { latitude: lat_s, longitude: lon_e, level: lv_d },
            se_up: AlignedPoint { latitude: lat_s, longitude: lon_e, level: lv_u },
            sw_down: AlignedPoint { latitude: lat_s, longitude: lon_w, level: lv_d },
            sw_up: AlignedPoint { latitude: lat_s, longitude: lon_w, level: lv_u },
            percent_north,
            percent_south: 1_000_000 - percent_north,
            percent_east,
            percent_west: 1_000_000 - percent_east,
            percent_down,
            percent_up: 1_000_000 - percent_down,
        }
    }
}

/// The lower edge, in whole degrees, of the 25-degree grid cell that
/// holds a coordinate.
pub open spec fn cell_of_spec(x: int) -> int {
    (x / 25_000_000) * 25
}

/// The 32-bit cache key of an aligned corner under a dataset id:
/// five bits of level index, five of dataset id, ten of latitude index
/// and ten of longitude index.
pub open spec fn cache_key_spec(level: int, lat: int, lon: int, id: int) -> int {
    level_index_spec(level) + 32 * (id % 32) + 1024 * ((lat + 90_000_000) / (GRID as int)) + 1_048_576
        * (lon / (GRID as int))
}

/// The level index of a valid level lies in `[0, 30]`, and distinct
/// valid levels have distinct indices.
pub proof fn lemma_level_index_range(v: int)
    requires
        is_level(v),
    ensures
        0 <= level_index_spec(v) <= 30,
        level_value_spec(level_index_spec(v)) == v,
{
    reveal(level_value_spec);
    reveal(level_index_spec);
}

impl AlignedPoint {
    /// The cache key of this corner under a dataset id.
    pub fn key(&self, dataset_id: u32) -> (r: u32)
        requires
            self.wf(),
        ensures
            r == cache_key_spec(
                self.level as int,
                self.latitude as int,
                self.longitude as int,
                dataset_id as int,
            ),
    {
        AlignedPoint::cache_key(self.level, self.latitude, self.longitude, dataset_id)
    }

    /// Packs a corner into its 32-bit cache key.
    pub fn cache_key(level: i32, latitude: i64, longitude: i64, dataset_id: u32) -> (r: u32)
        requires
            is_level(level as int),
            -90_000_000 <= latitude <= 90_000_000,
            (latitude as int) % (GRID as int) == 0,
            0 <= longitude < 360_000_000,
            (longitude as int) % (GRID as int) == 0,
        ensures
            r == cache_key_spec(level as int, latitude as int, longitude as int, dataset_id as int),
    {
        let li = level_index(level);
        proof {
            lemma_level_index_range(level as int);
        }
        let lat_idx = (((latitude + 90_000_000) as u64) / 500_000) as u32;
        let lon_idx = ((longitude as u64) / 500_000) as u32;
        (li as u32) + (dataset_id % 32) * 32 + lat_idx * 1024 + lon_idx * 1_048_576
    }
}

/// A latitude index determines the aligned latitude it came from, and
/// likewise for longitudes.
proof fn lemma_grid_reconstruct(x: int, lo: int)
    requires
        x % (GRID as int) == 0,
        lo % (GRID as int) == 0,
    ensures
        ((x + lo) / (GRID as int)) * (GRID as int) == x + lo,
{
    let g = GRID as int;
    vstd::arithmetic::div_mod::lemma_add_mod_noop(x, lo, g);
    vstd::arithmetic::div_mod::lemma_fundamental_div_mod(x + lo, g);
    assert(g * ((x + lo) / g) == ((x + lo) / g) * g) by (nonlinear_arith);
}

/// The dataset id packed into a cache key.
pub open spec fn key_dataset_id_spec(k: int) -> int {
    (k % 1024) / 32
}

/// A key built for a dataset id below 32 carries that id, and lies in
/// the 32-bit range.
pub proof fn lemma_key_id(c: AlignedPoint, id: int)
    requires
        c.wf(),
        0 <= id < 32,
    ensures
        key_dataset_id_spec(cache_key_spec(c.level as int, c.latitude as int, c.longitude as int, id))
            == id,
        0 <= cache_key_spec(c.level as int, c.latitude as int, c.longitude as int, id)
            < 0x1_0000_0000,
{
    lemma_level_index_range(c.level as int);
    vstd::arithmetic::div_mod::lemma_small_mod(id as nat, 32);
    lemma_key_parts(c, id);
    assert(0 <= (c.latitude as int + 90_000_000) / (GRID as int) <= 360) by {
        vstd::arithmetic::div_mod::lemma_div_pos_is_pos(c.latitude as int + 90_000_000, GRID as int);
        vstd::arithmetic::div_mod::lemma_div_is_ordered(
            c.latitude as int + 90_000_000,
            180_000_000,
            GRID as int,
        );
    }
    assert(0 <= (c.longitude as int) / (GRID as int) <= 719) by {
        vstd::arithmetic::div_mod::lemma_div_pos_is_pos(c.longitude as int, GRID as int);
        vstd::arithmetic::div_mod::lemma_div_is_ordered(c.longitude as int, 359_500_000, GRID as int);
    }
}

/// Two corners and dataset ids below 32 share a cache key exactly when
/// level, latitude, longitude and id all agree.
pub proof fn lemma_cache_key_injective(c1: AlignedPoint, id1: int, c2: AlignedPoint, id2: int)
    requires
        c1.wf(),
        c2.wf(),
        0 <= id1 < 32,
        0 <= id2 < 32,
    ensures
        cache_key_spec(c1.level as int, c1.latitude as int, c1.longitude as int, id1)
            == cache_key_spec(c2.level as int, c2.latitude as int, c2.longitude as int, id2)
            <==> (c1.level == c2.level && c1.latitude == c2.latitude && c1.longitude == c2.longitude
            && id1 == id2),
{
    let g = GRID as int;
    lemma_level_index_range(c1.level as int);
    lemma_level_index_range(c2.level as int);
    vstd::arithmetic::div_mod::lemma_small_mod(id1 as nat, 32);
    vstd::arithmetic::div_mod::lemma_small_mod(id2 as nat, 32);
    lemma_key_parts(c1, id1);
    lemma_key_parts(c2, id2);
    if cache_key_spec(c1.level as int, c1.latitude as int, c1.longitude as int, id1)
        == cache_key_spec(c2.level as int, c2.latitude as int, c2.longitude as int, id2) {
        lemma_grid_reconstruct(c1.latitude as int, 90_000_000);
        lemma_grid_reconstruct(c2.latitude as int, 90_000_000);
        lemma_grid_reconstruct(c1.longitude as int, 0);
        lemma_grid_reconstruct(c2.longitude as int, 0);
        assert(c1.level == c2.level);
    }
}

/// Each field of a key is recovered by division and remainder.
proof fn lemma_key_parts(c: AlignedPoint, id: int)
    requires
        c.wf(),
        0 <= id < 32,
    ensures
        ({
            let key = cache_key_spec(c.level as int, c.latitude as int, c.longitude as int, id);
            let li = level_index_spec(c.level as int);
            let lat_idx = (c.latitude as int + 90_000_000) / (GRID as int);
            let lon_idx = (c.longitude as int) / (GRID as int);
            &&& key % 1024 == li + 32 * id
            &&& key / 1024 == lat_idx + 1024 * lon_idx
            &&& (li + 32 * id) % 32 == li
            &&& (li + 32 * id) / 32 == id
            &&& (lat_idx + 1024 * lon_idx) % 1024 == lat_idx
            &&& (lat_idx + 1024 * lon_idx) / 1024 == lon_idx
        }),
{
    let g = GRID as int;
    let key = cache_key_spec(c.level as int, c.latitude as int, c.longitude as int, id);
    let li = level_index_spec(c.level as int);
    let lat_idx = (c.latitude as int + 90_000_000) / g;
    let lon_idx = (c.longitude as int) / g;
    lemma_level_index_range(c.level as int);
    vstd::arithmetic::div_mod::lemma_small_mod(id as nat, 32);
    assert(0 <= lat_idx <= 360 && lat_idx * g <= c.latitude as int + 90_000_000) by {
        vstd::arithmetic::div_mod::lemma_div_pos_is_pos(c.latitude as int + 90_000_000, g);
        vstd::arithmetic::div_mod::lemma_div_is_ordered(c.latitude as int + 90_000_000, 180_000_000, g);
        lemma_grid_reconstruct(c.latitude as int, 90_000_000);
    }
    assert(0 <= lon_idx <= 719) by {
        vstd::arithmetic::div_mod::lemma_div_pos_is_pos(c.longitude as int, g);
        vstd::arithmetic::div_mod::lemma_div_is_ordered(c.longitude as int, 359_500_000, g);
    }
    assert(1024 * (lat_idx + 1024 * lon_idx) == 1024 * lat_idx + 1_048_576 * lon_idx)
        by (nonlinear_arith);
    vstd::arithmetic::div_mod::lemma_fundamental_div_mod_converse(
        key,
        1024,
        lat_idx + 1024 * lon_idx,
        li + 32 * id,
    );
    assert(32 * id == id * 32) by (nonlinear_arith);
    vstd::arithmetic::div_mod::lemma_fundamental_div_mod_converse(li + 32 * id, 32, id, li);
    assert(1024 * lon_idx == lon_idx * 1024) by (nonlinear_arith);
    vstd::arithmetic::div_mod::lemma_fundamental_div_mod_converse(
        lat_idx + 1024 * lon_idx,
        1024,
        lon_idx,
        lat_idx,
    );
}

} // verus!
