//! End-to-end trajectories: the standard integrator, the navigator,
//! the generational queue and the Monte-Carlo footprint.

use predictor::dataset_reader::DataSetReader;
use predictor::errors::PredictorError;
use predictor::footprint::{calculate_footprint, rng_from_seed, FootprintParams};
use predictor::generational_pqueue::GenerationalPQueue;
use predictor::grib::TileKey;
use predictor::guidance::{guidance, GuidanceParams, GuidanceType};
use predictor::point::Point;
use predictor::predictor::{predict, Prediction, PredictionProfile, PredictorParams};

fn record(lat: f32, lon: f32, u: f32, v: f32, temp: f32) -> Vec<u8> {
    let mut out = Vec::new();
    for x in [lat, lon, u, v, temp] {
        out.extend_from_slice(&x.to_be_bytes());
    }
    out
}

const LEVELS: [i32; 31] = [
    2, 3, 5, 7, 10, 20, 30, 50, 70, 80, 100, 150, 200, 250, 300, 350, 400, 450, 500, 550, 600,
    650, 700, 750, 800, 850, 900, 925, 950, 975, 1000,
];

/// A catalog whose single dataset has zero wind at (lat 0, shifted lon
/// 180) on every level.
fn zero_wind_reader() -> DataSetReader {
    let mut reader = DataSetReader::new(vec!["gfs_4_20170916_0000_003".to_string()]);
    for level in LEVELS {
        reader.datasets[0].add_tile(
            TileKey { level, lat_cell: 0, lon_cell: 175 },
            record(0.0, 180.0, 0.0, 0.0, 250.0),
        );
    }
    reader
}

#[test]
fn standard_prediction_reaches_burst_and_ground() {
    let mut reader = zero_wind_reader();
    let r = predict(
        &mut reader,
        PredictorParams {
            launch: Point { latitude: 0, longitude: 0, altitude: 0, time: 1_505_530_800 },
            profile: PredictionProfile::Standard,
            burst_altitude: 30_000_000,
            ascent_rate: 5_000,
            descent_rate: 5_000,
            duration: 0,
        },
    )
    .unwrap();
    match r {
        Prediction::Standard(sp) => {
            // 30000 m at 5 m/s and 60 s steps: exactly 100 steps each way.
            assert_eq!(sp.ascent.len(), 100);
            assert_eq!(sp.burst.altitude, 30_000_000);
            assert_eq!(sp.descent.len(), 100);
            assert!(sp.descent.last().unwrap().altitude <= 0);
            assert_eq!(sp.burst.time, 1_505_530_800 + 100 * 60);
        },
        _ => panic!("expected a standard prediction"),
    }
}

#[test]
fn standard_prediction_rejects_bad_rates() {
    let mut reader = zero_wind_reader();
    let r = predict(
        &mut reader,
        PredictorParams {
            launch: Point { latitude: 0, longitude: 0, altitude: 0, time: 1_505_530_800 },
            profile: PredictionProfile::Standard,
            burst_altitude: 30_000_000,
            ascent_rate: 0,
            descent_rate: 5_000,
            duration: 0,
        },
    );
    match r {
        Err(e) => assert_eq!(e, PredictorError::InvalidParams),
        Ok(_) => panic!("accepted non-positive ascent rate"),
    }
}

#[test]
fn standard_prediction_without_data_is_no_data() {
    let mut reader = DataSetReader::new(vec!["gfs_4_20170916_0000_003".to_string()]);
    let r = predict(
        &mut reader,
        PredictorParams {
            launch: Point { latitude: 0, longitude: 0, altitude: 0, time: 1_505_530_800 },
            profile: PredictionProfile::Standard,
            burst_altitude: 30_000_000,
            ascent_rate: 5_000,
            descent_rate: 5_000,
            duration: 0,
        },
    );
    match r {
        Err(e) => assert_eq!(e, PredictorError::NoData),
        Ok(_) => panic!("predicted without data"),
    }
}

#[test]
fn float_prediction_keeps_altitude_and_covers_duration() {
    let mut reader = zero_wind_reader();
    let r = predict(
        &mut reader,
        PredictorParams {
            launch: Point {
                latitude: 0,
                longitude: 0,
                altitude: 12_000_000,
                time: 1_505_530_800,
            },
            profile: PredictionProfile::Float,
            burst_altitude: 0,
            ascent_rate: 0,
            descent_rate: 0,
            duration: 600,
        },
    )
    .unwrap();
    match r {
        Prediction::ValBal(fp) => {
            assert_eq!(fp.positions.len(), 10);
            let last = fp.positions.last().unwrap();
            assert_eq!(last.altitude, 12_000_000);
            assert_eq!(last.time, 1_505_530_800 + 600);
        },
        _ => panic!("expected a float prediction"),
    }
}

#[test]
fn float_prediction_of_zero_duration_is_no_data() {
    let mut reader = zero_wind_reader();
    let r = predict(
        &mut reader,
        PredictorParams {
            launch: Point { latitude: 0, longitude: 0, altitude: 0, time: 1_505_530_800 },
            profile: PredictionProfile::Float,
            burst_altitude: 0,
            ascent_rate: 0,
            descent_rate: 0,
            duration: 0,
        },
    );
    match r {
        Err(e) => assert_eq!(e, PredictorError::NoData),
        Ok(_) => panic!("a zero-length float must produce no trajectory"),
    }
}

#[test]
fn generational_queue_orders_by_biased_cost() {
    let mut q = GenerationalPQueue::new();
    q.enqueue(0, 5, 100);
    q.enqueue(1, 2, 101);
    q.enqueue(2, 10, 102);
    for g in 0..3 {
        q.set_cost(g, 0);
    }
    let order: Vec<i64> = (0..3).map(|_| q.dequeue().unwrap().1.cost).collect();
    assert_eq!(order, vec![2, 5, 10]);
    assert!(q.dequeue().is_none());

    q.enqueue(0, 5, 100);
    q.enqueue(1, 2, 101);
    q.enqueue(2, 10, 102);
    for g in 0..3 {
        q.set_cost(g, 0);
    }
    q.set_cost(1, 100);
    let order2: Vec<i64> = (0..3).map(|_| q.dequeue().unwrap().1.cost).collect();
    assert_eq!(order2, vec![5, 10, 2]);
}

#[test]
fn generational_queue_ties_go_to_lowest_generation() {
    let mut q = GenerationalPQueue::new();
    q.enqueue(0, 7, 1);
    q.enqueue(1, 7, 2);
    q.set_cost(0, 0);
    q.set_cost(1, 0);
    let (g, e) = q.dequeue().unwrap();
    assert_eq!((g, e.node), (0, 1));
}

/// A catalog with a uniform eastward wind of 10 m/s at latitude 30 over
/// shifted longitudes 50..100 degrees, on the two lowest levels.
fn east_wind_reader() -> DataSetReader {
    let mut reader = DataSetReader::new(vec!["gfs_4_20170916_0000_003".to_string()]);
    for level in [975, 1000] {
        for cell in [50i64, 75] {
            let mut bytes = Vec::new();
            for j in 0..50 {
                let lon = cell as f32 + 0.5 * j as f32;
                bytes.extend_from_slice(&record(30.0, lon, 10.0, 0.0, 250.0));
            }
            reader.datasets[0].add_tile(
                TileKey { level, lat_cell: 25, lon_cell: cell },
                bytes,
            );
        }
    }
    reader
}

#[test]
fn navigation_toward_destination_closes_the_distance() {
    let mut reader = east_wind_reader();
    let launch = Point {
        latitude: 30_000_000,
        longitude: -120_000_000,
        altitude: 0,
        time: 1_505_530_800,
    };
    let destination = Point {
        latitude: 30_000_000,
        longitude: -100_000_000,
        altitude: 0,
        time: 1_505_530_800,
    };
    let g = guidance(
        &mut reader,
        GuidanceParams {
            launch,
            timeout: 1_000_000,
            duration: 300_000,
            time_increment: 600,
            altitude_variance: 0,
            altitude_increment: 0,
            compare_with_naive: false,
            guidance_type: GuidanceType::Destination(destination),
        },
    )
    .unwrap();
    let positions = &g.positions;
    assert!(positions.len() > 2, "trajectory length {}", positions.len());
    assert_eq!(positions[0], launch);
    assert_eq!(positions.len(), g.metadata.generation + 1);
    for w in positions.windows(2) {
        assert!(w[0].time < w[1].time);
        let before = w[0].distance_to(&destination);
        let after = w[1].distance_to(&destination);
        assert!(after <= before, "distance grew from {} to {}", before, after);
    }
    let first = positions[0].distance_to(&destination);
    let last = positions[positions.len() - 1].distance_to(&destination);
    assert!(last < first);
    assert!(last < 1_000_000, "came within {} m", last);
}

#[test]
fn navigation_keeps_best_when_data_runs_out() {
    // With a duration long enough to fly off the tiled area, a later
    // expansion fails; the search still returns its best-so-far.
    let mut reader = east_wind_reader();
    let launch = Point {
        latitude: 30_000_000,
        longitude: -120_000_000,
        altitude: 0,
        time: 1_505_530_800,
    };
    let destination = Point {
        latitude: 30_000_000,
        longitude: -100_000_000,
        altitude: 0,
        time: 1_505_530_800,
    };
    let g = guidance(
        &mut reader,
        GuidanceParams {
            launch,
            timeout: 1_000_000,
            duration: 600_000,
            time_increment: 600,
            altitude_variance: 0,
            altitude_increment: 0,
            compare_with_naive: false,
            guidance_type: GuidanceType::Destination(destination),
        },
    )
    .unwrap();
    assert!(g.positions.len() > 2);
    assert_eq!(g.positions[0], launch);
    let last = g.positions.last().unwrap().distance_to(&destination);
    assert!(last < 1_000_000, "came within {} m", last);
}

#[test]
fn footprint_is_deterministic_and_complete() {
    fn params() -> FootprintParams {
        FootprintParams {
            launch: Point { latitude: 0, longitude: 0, altitude: 0, time: 1_505_530_800 },
            burst_altitude_mean: 30_000_000,
            burst_altitude_std_dev: 1_000_000,
            ascent_rate_mean: 5_000,
            ascent_rate_std_dev: 100,
            descent_rate_mean: 5_000,
            descent_rate_std_dev: 100,
            trials: 100,
        }
    }
    let mut reader = zero_wind_reader();
    let mut rng = rng_from_seed(42);
    let fp1 = calculate_footprint(&mut reader, params(), &mut rng).unwrap();
    assert_eq!(fp1.positions.len(), 100);
    let mut reader2 = zero_wind_reader();
    let mut rng2 = rng_from_seed(42);
    let fp2 = calculate_footprint(&mut reader2, params(), &mut rng2).unwrap();
    assert_eq!(fp1.positions, fp2.positions);
}
