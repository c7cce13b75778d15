//! The library's outward surface: free functions, error messages and
//! decoder edge cases.

use predictor::dataset_reader::{velocity_at, DataSetReader};
use predictor::errors::PredictorError;
use predictor::grib::{bits_to_fx, TileKey};
use predictor::point::Point;

fn record(lat: f32, lon: f32, u: f32, v: f32, temp: f32) -> Vec<u8> {
    let mut out = Vec::new();
    for x in [lat, lon, u, v, temp] {
        out.extend_from_slice(&x.to_be_bytes());
    }
    out
}

#[test]
fn velocity_at_reports_the_wind() {
    let mut reader = DataSetReader::new(vec!["gfs_4_20170916_0000_003".to_string()]);
    for level in [975, 1000] {
        reader.datasets[0].add_tile(
            TileKey { level, lat_cell: 0, lon_cell: 175 },
            record(0.0, 180.0, 4.0, -2.0, 250.0),
        );
    }
    let p = Point { latitude: 0, longitude: 0, altitude: 0, time: 1_505_530_800 };
    let v = velocity_at(&mut reader, &p).unwrap();
    assert_eq!(v.east, 4_000);
    assert_eq!(v.north, 2_000);
    assert_eq!(v.vertical, 0);
}

#[test]
fn error_messages_are_distinct() {
    let kinds = [
        PredictorError::InvalidParams,
        PredictorError::NoDatasets,
        PredictorError::NotFound,
        PredictorError::Corrupt,
        PredictorError::Io,
        PredictorError::NoData,
    ];
    for (i, a) in kinds.iter().enumerate() {
        assert!(!a.message().is_empty());
        for b in kinds.iter().skip(i + 1) {
            assert_ne!(a.message(), b.message());
        }
    }
}

#[test]
fn decoder_truncates_toward_zero_and_handles_small_values() {
    // 1.5e-3 at scale 1000 truncates to 1.
    assert_eq!(bits_to_fx(0.0015f32.to_bits(), 1_000, 1_000_000_000), 1);
    assert_eq!(bits_to_fx((-0.0015f32).to_bits(), 1_000, 1_000_000_000), -1);
    // Values below the scale's resolution decode to zero.
    assert_eq!(bits_to_fx(1e-30f32.to_bits(), 1_000, 1_000_000_000), 0);
    // A subnormal float decodes to zero at any practical scale.
    assert_eq!(bits_to_fx(1, 1_000_000, 1_000_000_000_000), 0);
    // Huge values saturate.
    assert_eq!(bits_to_fx(3.0e38f32.to_bits(), 1_000, 1_000_000_000), 1_000_000_000);
}
