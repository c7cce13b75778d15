//! Geometry, wrapping, alignment and cache-key behaviour on concrete
//! values.

use predictor::align::{level_index, level_value, pressure_centi, AlignedPoint};
use predictor::grib::bits_to_fx;
use predictor::point::{bound, Point, Velocity};
use predictor::trig::{cos_ppm, sin_ppm};

fn pt(lat: i64, lon: i64, alt: i64, time: i64) -> Point {
    Point { latitude: lat, longitude: lon, altitude: alt, time }
}

#[test]
fn add_advances_time_exactly() {
    let p = pt(37_000_000, -122_000_000, 1_000_000, 1_500_000_000);
    let v = Velocity { north: 5_000, east: -3_000, vertical: 2_000 };
    let q = p.add_with_duration(&v, 60);
    assert_eq!(q.time, 1_500_000_060);
    let r = q.add_with_duration(&v, 600);
    assert_eq!(r.time, 1_500_000_660);
}

#[test]
fn add_moves_north_and_up() {
    let p = pt(0, 0, 0, 1_500_000_000);
    let v = Velocity { north: 5_000, east: 0, vertical: 5_000 };
    let q = p.add_with_duration(&v, 60);
    // 5 m/s for 60 s is 300 m north: about 2698 microdegrees.
    assert_eq!(q.altitude, 300_000);
    assert!(q.latitude > 2_600 && q.latitude < 2_800);
    assert_eq!(q.longitude, 0);
}

#[test]
fn bound_wraps_into_range() {
    assert_eq!(bound(-200_000_000), 160_000_000);
    assert_eq!(bound(190_000_000), -170_000_000);
    assert_eq!(bound(180_000_000), -180_000_000);
    assert_eq!(bound(-180_000_000), -180_000_000);
    assert_eq!(bound(0), 0);
}

#[test]
fn bound_is_periodic() {
    for &x in &[0i64, 1, -1, 123_456_789, -98_765_432, 179_999_999] {
        assert_eq!(bound(x + 360_000_000), bound(x));
        assert_eq!(bound(x - 360_000_000), bound(x));
        assert_eq!(bound(x + 5 * 360_000_000), bound(x));
    }
}

#[test]
fn trig_exact_points() {
    assert_eq!(sin_ppm(0), 0);
    assert_eq!(sin_ppm(30_000_000), 500_000);
    assert_eq!(sin_ppm(90_000_000), 1_000_000);
    assert_eq!(sin_ppm(180_000_000), 0);
    assert_eq!(cos_ppm(0), 1_000_000);
    assert_eq!(cos_ppm(90_000_000), 0);
    assert_eq!(cos_ppm(180_000_000), -1_000_000);
}

#[test]
fn distance_quarter_meridian() {
    // Pole to equator along a meridian is about 10,008 km.
    let a = pt(0, 0, 0, 0);
    let b = pt(90_000_000, 0, 0, 0);
    let d = a.distance_to(&b);
    assert!(d > 9_950_000 && d < 10_060_000, "distance {}", d);
}

#[test]
fn distance_small_arc() {
    // One degree of longitude at the equator is about 111.2 km; the
    // rational sine approximation runs about two percent low on small
    // arcs.
    let a = pt(0, 0, 0, 0);
    let b = pt(0, 1_000_000, 0, 0);
    let d = a.distance_to(&b);
    assert!(d > 108_500 && d < 112_500, "distance {}", d);
}

#[test]
fn distance_is_symmetric_and_zero_on_equal_points() {
    let a = pt(37_300_000, -122_200_000, 5_000_000, 10);
    let b = pt(-12_000_000, 44_500_000, 0, 20);
    assert_eq!(a.distance_to(&b), b.distance_to(&a));
    // Coinciding coordinates are at distance zero, whatever the
    // altitudes and times.
    let c = pt(37_300_000, -122_200_000, 9_000_000, 999);
    assert_eq!(a.distance_to(&c), 0);
    assert_eq!(a.distance_to(&a), 0);
}

#[test]
fn align_weights_sum_to_one() {
    let p = pt(37_300_000, -122_200_000, 5_000_000, 0);
    let a = p.align();
    assert_eq!(a.percent_north + a.percent_south, 1_000_000);
    assert_eq!(a.percent_east + a.percent_west, 1_000_000);
    assert_eq!(a.percent_down + a.percent_up, 1_000_000);
    for w in [
        a.percent_north,
        a.percent_south,
        a.percent_east,
        a.percent_west,
        a.percent_down,
        a.percent_up,
    ] {
        assert!((0..=1_000_000).contains(&w));
    }
}

#[test]
fn align_corner_coordinates() {
    let p = pt(37_300_000, -122_200_000, 0, 0);
    let a = p.align();
    assert_eq!(a.ne_down.latitude, 37_500_000);
    assert_eq!(a.sw_down.latitude, 37_000_000);
    // -122.2 shifted by +180 gives 57.8; the corners sit at 58.0 and 57.5.
    assert_eq!(a.ne_down.longitude, 58_000_000);
    assert_eq!(a.sw_down.longitude, 57_500_000);
    // At ground level both bracketing levels collapse to 1000 hPa.
    assert_eq!(a.ne_down.level, 1000);
    assert_eq!(a.ne_up.level, 1000);
}

#[test]
fn cache_key_equal_iff_fields_equal() {
    let c1 = AlignedPoint { latitude: 37_000_000, longitude: 238_000_000, level: 500 };
    let c2 = AlignedPoint { latitude: 37_000_000, longitude: 238_000_000, level: 500 };
    let c3 = AlignedPoint { latitude: 37_500_000, longitude: 238_000_000, level: 500 };
    let c4 = AlignedPoint { latitude: 37_000_000, longitude: 238_500_000, level: 500 };
    let c5 = AlignedPoint { latitude: 37_000_000, longitude: 238_000_000, level: 550 };
    assert_eq!(c1.key(3), c2.key(3));
    assert_ne!(c1.key(3), c2.key(4));
    assert_ne!(c1.key(3), c3.key(3));
    assert_ne!(c1.key(3), c4.key(3));
    assert_ne!(c1.key(3), c5.key(3));
}

#[test]
fn pressure_at_anchors() {
    assert_eq!(pressure_centi(110_901), 100_000);
    assert_eq!(pressure_centi(0), 100_000);
    assert_eq!(pressure_centi(30_777_809), 200);
    assert_eq!(pressure_centi(5_575_209), 50_000);
    let mid = pressure_centi(3_000_000);
    assert!(mid > 50_000 && mid < 100_000);
}

#[test]
fn level_tables_are_inverse() {
    for i in 0..31usize {
        let v = level_value(i);
        assert_eq!(level_index(v), i as i32);
    }
    assert_eq!(level_index(123), -1);
}

#[test]
fn float_decoding_is_exact_on_representable_values() {
    assert_eq!(bits_to_fx(5.0f32.to_bits(), 1_000, 1_000_000_000), 5_000);
    assert_eq!(bits_to_fx((-3.0f32).to_bits(), 1_000, 1_000_000_000), -3_000);
    assert_eq!(bits_to_fx(37.0f32.to_bits(), 1_000_000, 1_000_000_000_000), 37_000_000);
    assert_eq!(bits_to_fx(238.0f32.to_bits(), 1_000_000, 1_000_000_000_000), 238_000_000);
    assert_eq!(bits_to_fx(0.0f32.to_bits(), 1_000_000, 1_000_000_000_000), 0);
    assert_eq!(bits_to_fx(0.5f32.to_bits(), 1_000_000, 1_000_000_000_000), 500_000);
    assert_eq!(bits_to_fx(f32::INFINITY.to_bits(), 1_000, 10), 10);
    assert_eq!(bits_to_fx(f32::NEG_INFINITY.to_bits(), 1_000, 10), -10);
}
