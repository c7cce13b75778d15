//! Dataset parsing, tile decoding through the catalog, selection and
//! cache transparency on concrete values.

use predictor::align::AlignedPoint;
use predictor::cache::cache_new;
use predictor::dataset::Dataset;
use predictor::dataset_reader::{get_datasets, DataSetReader};
use predictor::errors::PredictorError;
use predictor::grib::TileKey;
use predictor::point::Point;

fn record(lat: f32, lon: f32, u: f32, v: f32, temp: f32) -> Vec<u8> {
    let mut out = Vec::new();
    for x in [lat, lon, u, v, temp] {
        out.extend_from_slice(&x.to_be_bytes());
    }
    out
}

#[test]
fn dataset_name_parses_to_times() {
    // 2017-09-16 00:00 UTC is 1505520000; the offset adds three hours.
    let ds = Dataset::new("data/gfs_4_20170916_0000_003".to_string(), 0).unwrap();
    assert_eq!(ds.name, "gfs_4_20170916_0000_003");
    assert_eq!(ds.created_at, 1_505_520_000);
    assert_eq!(ds.time, 1_505_530_800);
    let ds2 = Dataset::new("gfs_4_20170916_1800_000".to_string(), 1).unwrap();
    assert_eq!(ds2.created_at, 1_505_584_800);
    assert_eq!(ds2.time, 1_505_584_800);
    // A leap day parses; 2000-02-29 00:00 UTC is 951782400.
    let ds3 = Dataset::new("gfs_4_20000229_0600_012".to_string(), 2).unwrap();
    assert_eq!(ds3.created_at, 951_804_000);
    assert_eq!(ds3.time, 951_847_200);
}

#[test]
fn dataset_name_rejects_malformed() {
    for bad in [
        "gfs_4_20170916_0000",
        "gfs_4_20170916_0000_003.tmp",
        "gfs_3_20170916_0000_003",
        "gfsx4_20170916_0000_003",
        "gfs_4_2017091a_0000_003",
        "gfs_4_20170916_0300_003",
        "gfs_4_20171316_0000_003",
        "gfs_4_20170932_0000_003",
        "gfs_4_20010229_0000_003",
        "",
    ] {
        match Dataset::new(bad.to_string(), 0) {
            Err(e) => assert_eq!(e, PredictorError::InvalidParams, "{}", bad),
            Ok(_) => panic!("accepted malformed name {}", bad),
        }
    }
}

#[test]
fn tile_round_trip_decode() {
    let mut ds = Dataset::new("gfs_4_20170916_0000_003".to_string(), 0).unwrap();
    let bytes = record(37.0, 238.0, 5.0, -3.0, 250.0);
    ds.add_tile(TileKey { level: 500, lat_cell: 25, lon_cell: 225 }, bytes);
    let mut cache = cache_new(1000);
    let corner = AlignedPoint { latitude: 37_000_000, longitude: 238_000_000, level: 500 };
    let atmo = ds.atmospheroid_at_aligned(&corner, &mut cache).unwrap();
    assert_eq!(atmo.velocity.east, 5_000);
    assert_eq!(atmo.velocity.north, 3_000);
    assert_eq!(atmo.velocity.vertical, 0);
    assert_eq!(atmo.temperature, 250_000);
    // A second lookup is served from the cache and answers identically.
    let again = ds.atmospheroid_at_aligned(&corner, &mut cache).unwrap();
    assert_eq!(atmo, again);
}

#[test]
fn last_matching_record_wins() {
    let mut ds = Dataset::new("gfs_4_20170916_0000_003".to_string(), 0).unwrap();
    let mut bytes = record(37.0, 238.0, 5.0, -3.0, 250.0);
    bytes.extend_from_slice(&record(37.0, 238.0, 7.0, -4.0, 251.0));
    ds.add_tile(TileKey { level: 500, lat_cell: 25, lon_cell: 225 }, bytes);
    let mut cache = cache_new(1000);
    let corner = AlignedPoint { latitude: 37_000_000, longitude: 238_000_000, level: 500 };
    let atmo = ds.atmospheroid_at_aligned(&corner, &mut cache).unwrap();
    assert_eq!(atmo.velocity.east, 7_000);
    assert_eq!(atmo.velocity.north, 4_000);
}

#[test]
fn corner_errors_by_kind() {
    let mut ds = Dataset::new("gfs_4_20170916_0000_003".to_string(), 0).unwrap();
    // An empty tile: the corner is missing from its file.
    ds.add_tile(TileKey { level: 500, lat_cell: 25, lon_cell: 225 }, Vec::new());
    // A truncated tile: not a whole number of records.
    ds.add_tile(TileKey { level: 550, lat_cell: 25, lon_cell: 225 }, vec![0u8; 19]);
    let mut cache = cache_new(1000);
    let missing = AlignedPoint { latitude: 37_000_000, longitude: 238_000_000, level: 500 };
    assert_eq!(
        ds.atmospheroid_at_aligned(&missing, &mut cache).unwrap_err(),
        PredictorError::NotFound
    );
    let corrupt = AlignedPoint { latitude: 37_000_000, longitude: 238_000_000, level: 550 };
    assert_eq!(
        ds.atmospheroid_at_aligned(&corrupt, &mut cache).unwrap_err(),
        PredictorError::Corrupt
    );
    let unfetched = AlignedPoint { latitude: 37_000_000, longitude: 238_000_000, level: 600 };
    assert_eq!(
        ds.atmospheroid_at_aligned(&unfetched, &mut cache).unwrap_err(),
        PredictorError::Io
    );
}

#[test]
fn interpolation_degenerates_on_grid_point() {
    // Altitude 5575209 mm sits exactly on the 500 hPa anchor; the corner
    // set collapses to (37.0, 238.0) at levels 500 and 550.  Identical
    // values at every corner come back exactly.
    let mut ds = Dataset::new("gfs_4_20170916_0000_003".to_string(), 0).unwrap();
    ds.add_tile(
        TileKey { level: 500, lat_cell: 25, lon_cell: 225 },
        record(37.0, 238.0, 5.0, -3.0, 250.0),
    );
    ds.add_tile(
        TileKey { level: 550, lat_cell: 25, lon_cell: 225 },
        record(37.0, 238.0, 5.0, -3.0, 250.0),
    );
    let mut cache = cache_new(1000);
    let p = Point {
        latitude: 37_000_000,
        longitude: 58_000_000,
        altitude: 5_575_209,
        time: 1_505_530_800,
    };
    let atmo = ds.atmospheroid_at(&p, &mut cache).unwrap();
    assert_eq!(atmo.velocity.east, 5_000);
    assert_eq!(atmo.velocity.north, 3_000);
    assert_eq!(atmo.temperature, 250_000);
}

#[test]
fn catalog_keeps_conforming_names_in_order() {
    let reader = DataSetReader::new(vec![
        "root/gfs_4_20170916_0000_003".to_string(),
        "root/notes.txt".to_string(),
        "root/gfs_4_20170916_0600_003".to_string(),
    ]);
    let names = get_datasets(&reader).unwrap();
    assert_eq!(names.len(), 2);
    assert_eq!(names[0], "gfs_4_20170916_0000_003");
    assert_eq!(names[1], "gfs_4_20170916_0600_003");
}

#[test]
fn selection_prefers_nearest_then_lowest_id() {
    let reader = DataSetReader::new(vec![
        "gfs_4_20170916_0000_000".to_string(),
        "gfs_4_20170916_0600_000".to_string(),
    ]);
    // Valid times 1505520000 and 1505541600; their midpoint ties.
    assert_eq!(reader.select_dataset(1_505_530_800), 0);
    assert_eq!(reader.select_dataset(1_505_520_001), 0);
    assert_eq!(reader.select_dataset(1_505_541_599), 1);
    // Determinism: the same query twice gives the same dataset.
    assert_eq!(
        reader.select_dataset(1_505_530_800),
        reader.select_dataset(1_505_530_800)
    );
}

#[test]
fn empty_catalog_reports_no_datasets() {
    let mut reader = DataSetReader::new(Vec::new());
    let p = Point { latitude: 0, longitude: 0, altitude: 0, time: 0 };
    assert_eq!(
        reader.atmospheroid_at(&p).unwrap_err(),
        PredictorError::NoDatasets
    );
}

fn zero_wind_reader() -> DataSetReader {
    let mut reader = DataSetReader::new(vec!["gfs_4_20170916_0000_003".to_string()]);
    let levels = [
        2, 3, 5, 7, 10, 20, 30, 50, 70, 80, 100, 150, 200, 250, 300, 350, 400, 450, 500, 550,
        600, 650, 700, 750, 800, 850, 900, 925, 950, 975, 1000,
    ];
    for level in levels {
        reader.datasets[0].add_tile(
            TileKey { level, lat_cell: 0, lon_cell: 175 },
            record(0.0, 180.0, 0.0, 0.0, 250.0),
        );
    }
    reader
}

#[test]
fn cache_is_transparent_across_query_sequences() {
    // The same queries against a fresh catalog and against one whose
    // cache is already warm return identical values.
    let mut warm = zero_wind_reader();
    let mut cold = zero_wind_reader();
    let queries = [
        Point { latitude: 0, longitude: 0, altitude: 0, time: 1_505_530_800 },
        Point { latitude: 0, longitude: 0, altitude: 8_000_000, time: 1_505_530_800 },
        Point { latitude: 0, longitude: 0, altitude: 15_000_000, time: 1_505_530_800 },
    ];
    // Warm the first catalog.
    for q in &queries {
        warm.atmospheroid_at(q).unwrap();
    }
    for q in &queries {
        let a = warm.atmospheroid_at(q).unwrap();
        let b = cold.atmospheroid_at(q).unwrap();
        assert_eq!(a, b);
    }
}
