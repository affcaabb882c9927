use flamegraph::{
    decimals_for_unit, default_time_format, track_stats_label, truncate_to_chars, PerfettoDataSource,
    PerfettoQueryBuilder, TimeFormatConfig, TimeUnit,
};

#[test]
fn test_perfetto_sql_builder_generates_lod_grouping() {
    // Same inputs as a (0.0 s, 10.0 s) window on a 1000 px canvas over a
    // trace starting at 1_000_000_000 ns, converted to nanoseconds.
    let (start_sec, end_sec, width, min_ts): (f64, f64, f32, i64) = (0.0, 10.0, 1000.0, 1_000_000_000);
    let start_ns = min_ts + (start_sec * 1e9) as i64;
    let end_ns = min_ts + (end_sec * 1e9) as i64;
    let ns_per_pixel = (((end_sec - start_sec).max(1e-6) * 1e9) / width.max(1.0) as f64) as i64;
    let sql = PerfettoQueryBuilder::build_lod_sql_ns(start_ns, end_ns, ns_per_pixel, "main");
    assert!(sql.contains("FROM slice"));
    assert!(sql.contains("GROUP BY track_id, depth"));
    assert!(sql.contains("name LIKE '%main%'"));
}

#[test]
fn lod_sql_is_exact() {
    let sql = PerfettoQueryBuilder::build_lod_sql_ns(1_000_000_000, 11_000_000_000, 10_000_000, "main");
    assert_eq!(
        sql,
        "SELECT \ntrack_id, depth, MIN(ts) AS min_ts, MAX(ts + dur) AS max_ts, name, \n\
         CASE WHEN name LIKE '%main%' THEN 1 ELSE 0 END AS matched \nFROM slice \n\
         WHERE ts + dur >= 1000000000 AND ts <= 11000000000 \n\
         GROUP BY track_id, depth, ((ts - 1000000000) / 10000000) \n\
         ORDER BY track_id, depth, min_ts;"
    );
}

#[test]
fn lod_sql_matches_everything_without_search() {
    let sql = PerfettoQueryBuilder::build_lod_sql_ns(0, 5, 0, "");
    assert!(sql.contains("CASE WHEN 1 THEN 1 ELSE 0 END"));
    // buckets are at least one nanosecond wide
    assert!(sql.contains("((ts - 0) / 1)"));
}

#[test]
fn lod_sql_doubles_single_quotes() {
    let sql = PerfettoQueryBuilder::build_lod_sql_ns(0, 1, 1, "it's");
    assert!(sql.contains("name LIKE '%it''s%'"));
}

#[test]
fn lod_sql_prints_negative_and_extreme_timestamps() {
    let sql = PerfettoQueryBuilder::build_lod_sql_ns(i64::MIN, -42, i64::MAX, "");
    assert!(sql.contains("WHERE ts + dur >= -9223372036854775808 AND ts <= -42 \n"));
    assert!(sql.contains("/ 9223372036854775807)"));
}

#[test]
fn perfetto_data_source_track_metadata() {
    let source = PerfettoDataSource::new(vec!["Main Thread".to_string(), "Worker 1".to_string()], vec![5, 3], 1_000_000_000);
    assert_eq!(source.track_count(), 2);
    let info = source.track_info(0);
    assert_eq!(info.name, "Main Thread");
    assert_eq!(info.max_depth, 5);
    let infos = source.track_infos();
    assert_eq!(infos.len(), 2);
    assert_eq!(infos[1].name, "Worker 1");
    assert_eq!(infos[1].max_depth, 3);
    assert_eq!(source.min_ts_ns(), 1_000_000_000);
}

#[test]
fn perfetto_missing_metadata_falls_back() {
    let source = PerfettoDataSource::new(vec!["A".to_string(), "B".to_string()], vec![7], 0);
    assert_eq!(source.track_info(1).max_depth, 1);
    let missing = source.track_info(9);
    assert_eq!(missing.name, "");
    assert_eq!(missing.max_depth, 1);
}

#[test]
fn truncate_keeps_short_names() {
    assert_eq!(truncate_to_chars("abc", 5), "abc");
}

#[test]
fn truncate_adds_an_ellipsis_to_long_names() {
    assert_eq!(truncate_to_chars("abcdefgh", 4), "abc…");
    assert_eq!(truncate_to_chars("äöüßéè", 3), "äö…");
}

#[test]
fn truncate_at_exact_length_drops_the_last_char() {
    assert_eq!(truncate_to_chars("abcd", 4), "abc");
}

#[test]
fn truncate_to_zero_chars() {
    assert_eq!(truncate_to_chars("abcd", 0), "…");
    assert_eq!(truncate_to_chars("", 0), "");
}

#[test]
fn track_stats_label_counts_rows() {
    assert_eq!(track_stats_label(12, 3), " · 12 frames · 4 rows");
    assert_eq!(track_stats_label(0, 0), " · 0 frames · 1 rows");
}

#[test]
fn time_unit_suffixes() {
    assert_eq!(TimeUnit::Ns.suffix(), "ns");
    assert_eq!(TimeUnit::Us.suffix(), "µs");
    assert_eq!(TimeUnit::Ms.suffix(), "ms");
    assert_eq!(TimeUnit::S.suffix(), "s");
    assert_eq!(TimeUnit::Min.suffix(), "min");
}

#[test]
fn default_format_is_two_decimals_down_to_ns() {
    let c = TimeFormatConfig::default();
    assert_eq!(c.decimals, 2);
    assert_eq!(c.min_unit, TimeUnit::Ns);
    assert_eq!(default_time_format(), c);
}

#[test]
fn floor_unit_prints_whole_numbers() {
    let c = TimeFormatConfig { decimals: 3, min_unit: TimeUnit::Ns };
    assert_eq!(decimals_for_unit(TimeUnit::Ns, &c), 0);
    assert_eq!(decimals_for_unit(TimeUnit::Ms, &c), 3);
    let c = TimeFormatConfig { decimals: 2, min_unit: TimeUnit::Us };
    assert_eq!(decimals_for_unit(TimeUnit::Us, &c), 0);
    assert_eq!(decimals_for_unit(TimeUnit::Ns, &c), 2);
}
