use geohash_depth::config::{Config, ConfigError};
use geohash_depth::report::{average, named_region, summarize};
use geohash_depth::rows::{handle_geometry, process_row_group, Row};
use geohash_depth::stats::{compare_keys, KeyOrder, StatsAggregator};

fn encode(lat: f64, lon: f64, depth: usize) -> String {
    geohash::encode(geohash::Coord { x: lon, y: lat }, depth).expect("coordinate in range")
}

fn snapshot_of(stats: &StatsAggregator) -> Vec<(String, u64)> {
    stats.snapshot()
}

#[test]
fn encoder_boundary_cases() {
    assert_eq!(encode(42.6, -5.6, 5), "ezs42");
    assert_eq!(encode(42.6, -5.6, 4), "ezs4");
    assert_eq!(encode(42.6, -5.6, 1), "e");
    assert_eq!(encode(0.0, -180.0, 5), "80000");
    assert_eq!(encode(-90.0, 180.0, 5), "00000");
    assert_eq!(encode(90.0, 180.0, 5), "00000");
    assert_eq!(encode(-90.0, 0.0, 5), "h0000");
    assert_eq!(encode(0.0, -5.6, 5), "ebh00");
    assert_eq!(encode(-89.99, 179.99, 5), "pbpbp");
    assert_eq!(encode(89.99, 179.99, 5), "zzzzz");
}

#[test]
fn two_identical_points_share_a_bucket() {
    let h = encode(42.6, -5.6, 5);
    let rows = vec![Row::Point(h.clone()), Row::Point(h)];
    let mut stats = StatsAggregator::new();
    let tally = process_row_group(&rows, &mut stats);
    assert_eq!(tally.filed, 2);
    assert_eq!(tally.skipped, 0);
    assert_eq!(snapshot_of(&stats), vec![("e/z/s/4/2".to_string(), 2)]);
    assert_eq!(stats.total(), 2);
}

#[test]
fn polygon_from_south_west_to_north_east_is_all() {
    let row = Row::Polygon("2bcde".to_string(), "u1234".to_string());
    assert_eq!(handle_geometry(&row), Some("All".to_string()));
    let row = Row::Polygon("7zzzz".to_string(), "x0000".to_string());
    assert_eq!(handle_geometry(&row), Some("All".to_string()));
}

#[test]
fn line_string_uses_its_bounding_box() {
    let row = Row::LineString("ezs42".to_string(), "ezs4b".to_string());
    assert_eq!(handle_geometry(&row), Some("e/z/s/4".to_string()));
}

#[test]
fn skipped_rows_leave_no_keys() {
    let rows = vec![
        Row::Null,
        Row::DecodeFailed,
        Row::InvalidCoordinate,
        Row::Unsupported,
        Row::Point("ezs42".to_string()),
        Row::Point(String::new()),
        Row::Polygon("a0000".to_string(), "u0000".to_string()),
        Row::Null,
    ];
    let mut stats = StatsAggregator::new();
    let tally = process_row_group(&rows, &mut stats);
    assert_eq!(tally.filed, 1);
    assert_eq!(tally.skipped, 7);
    assert_eq!(tally.filed + tally.skipped, rows.len() as u64);
    assert_eq!(snapshot_of(&stats), vec![("e/z/s/4/2".to_string(), 1)]);
}

#[test]
fn empty_row_group_changes_nothing() {
    let mut stats = StatsAggregator::new();
    let tally = process_row_group(&Vec::new(), &mut stats);
    assert_eq!((tally.filed, tally.skipped), (0, 0));
    assert!(snapshot_of(&stats).is_empty());
    assert_eq!(stats.total(), 0);
}

#[test]
fn counts_accumulate_across_row_groups_in_path_order() {
    let mut stats = StatsAggregator::new();
    let first = vec![
        Row::Point("ezs42".to_string()),
        Row::Polygon("2zzzz".to_string(), "uzzzz".to_string()),
        Row::Point("b".to_string()),
    ];
    let second = vec![
        Row::Polygon("21234".to_string(), "35678".to_string()),
        Row::Point("EZS42".to_string()),
        Row::Polygon("2zzzz".to_string(), "uzzzz".to_string()),
    ];
    process_row_group(&first, &mut stats);
    process_row_group(&second, &mut stats);
    assert_eq!(
        snapshot_of(&stats),
        vec![
            ("All".to_string(), 2),
            ("SW".to_string(), 1),
            ("b".to_string(), 1),
            ("e/z/s/4/2".to_string(), 2),
        ]
    );
    assert_eq!(stats.total(), 6);
}

#[test]
fn increment_adds_then_counts() {
    let mut stats = StatsAggregator::new();
    stats.increment("b".to_string());
    stats.increment("a".to_string());
    stats.increment("b".to_string());
    stats.increment("ab".to_string());
    assert_eq!(
        stats.snapshot(),
        vec![("a".to_string(), 1), ("ab".to_string(), 1), ("b".to_string(), 2)]
    );
}

#[test]
fn keys_compare_lexicographically() {
    assert_eq!(compare_keys("a", "b"), KeyOrder::Less);
    assert_eq!(compare_keys("ab", "a"), KeyOrder::Greater);
    assert_eq!(compare_keys("", ""), KeyOrder::Equal);
    assert_eq!(compare_keys("", "x"), KeyOrder::Less);
    assert_eq!(compare_keys("Z", "a"), KeyOrder::Less);
    assert_eq!(compare_keys("e/z", "e/z"), KeyOrder::Equal);
}

#[test]
fn summary_splits_named_regions_from_cells() {
    let entries = vec![
        ("All".to_string(), 5u64),
        ("NE".to_string(), 3),
        ("e".to_string(), 10),
        ("e/z/s".to_string(), 4),
        ("t".to_string(), 1),
    ];
    let s = summarize(&entries);
    assert_eq!(s.total, 23);
    assert_eq!(s.named_total, 8);
    assert_eq!(s.named_buckets, 2);
    assert_eq!(s.cell_total, 15);
    assert_eq!(s.cell_buckets, 3);
    assert_eq!(average(s.total, 5), Some(4));
    assert_eq!(average(s.named_total, s.named_buckets), Some(4));
    assert_eq!(average(0, 0), None);
    assert!(named_region("Global"));
    assert!(named_region("SW"));
    assert!(!named_region("e"));
    assert!(!named_region("all"));
}

#[test]
fn summary_of_large_counts() {
    let entries = vec![("a".to_string(), u64::MAX), ("b".to_string(), u64::MAX)];
    let s = summarize(&entries);
    assert_eq!(s.total, 2 * (u64::MAX as u128));
}

fn args(list: &[&str]) -> Vec<String> {
    list.iter().map(|s| s.to_string()).collect()
}

#[test]
fn config_reads_file_and_depth() {
    let c = Config::build(&args(&["prog", "data.parquet", "5"])).expect("valid");
    assert_eq!(c.file, "data.parquet");
    assert_eq!(c.depth, 5);
    let c = Config::build(&args(&["prog", "f", "+12"])).expect("valid");
    assert_eq!(c.depth, 12);
}

#[test]
fn config_needs_three_arguments() {
    assert_eq!(Config::build(&args(&["prog", "f"])).err(), Some(ConfigError::NotEnoughArguments));
    assert_eq!(Config::build(&args(&[])).err(), Some(ConfigError::NotEnoughArguments));
}

#[test]
fn config_rejects_bad_depth() {
    for d in ["x", "", "0", "-3", "5 ", "99999999999"] {
        assert_eq!(Config::build(&args(&["prog", "f", d])).err(), Some(ConfigError::BadDepth));
    }
}
