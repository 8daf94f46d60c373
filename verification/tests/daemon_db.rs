use sightingdb::daemon::attribute::{timestamp_from_clock, Attribute, MAX_TIMESTAMP, MIN_TIMESTAMP};
use sightingdb::daemon::db::Database;
use sightingdb::daemon::stats::hour_of;
use chrono::NaiveDateTime;

#[test]
fn missing_path_is_an_error() {
    let mut db = Database::new();
    assert_eq!(
        db.get_attr("p", "v", true, 0),
        "{\"error\":\"Path not found\",\"path\":\"p\",\"value\":\"v\"}"
    );
}

#[test]
fn missing_value_is_an_error() {
    let mut db = Database::new();
    db.write("p", "v", 7200, false);
    assert_eq!(
        db.get_attr("p", "w", false, 0),
        "{\"error\":\"Value not found\",\"path\":\"p\",\"value\":\"w\"}"
    );
}

#[test]
fn write_then_count() {
    let mut db = Database::new();
    assert!(db.write("p", "v", 7200, true));
    assert_eq!(db.get_count("p", "v"), 1);
    assert!(db.write("p", "v", 7300, true));
    assert_eq!(db.get_count("p", "v"), 2);
    assert_eq!(db.get_count("p", "other"), 0);
}

#[test]
fn consensus_counts_paths_holding_the_value() {
    let mut db = Database::new();
    db.write("my/namespace", "127.0.0.1", 100, true);
    assert_eq!(db.get_count("_all", "127.0.0.1"), 1);
    db.write("another/namespace", "127.0.0.1", 100, true);
    assert_eq!(db.get_count("_all", "127.0.0.1"), 2);
    db.write("another/namespace", "127.0.0.1", 100, true);
    assert_eq!(db.get_count("_all", "127.0.0.1"), 2);
    assert_eq!(db.get_count("another/namespace", "127.0.0.1"), 2);
}

#[test]
fn no_consensus_without_the_flag() {
    let mut db = Database::new();
    db.write("p", "v", 100, false);
    db.write("q", "w", 100, true);
    assert_eq!(db.get_count("_all", "v"), 0);
    assert_eq!(db.get_count("_all", "w"), 1);
}

#[test]
fn consensus_written_to_all_itself_counts_twice() {
    let mut db = Database::new();
    db.write("_all", "v", 100, true);
    assert_eq!(db.get_count("_all", "v"), 2);
}

#[test]
fn attribute_json_with_and_without_stats() {
    let mut db = Database::new();
    db.write("p", "v", 7200, false);
    assert_eq!(
        db.get_attr("p", "v", true, 5),
        "{\"value\":\"v\",\"first_seen\":7200,\"last_seen\":7200,\"count\":1,\"tag\":\"\",\"ttl\":0,\"stats\":{\"7200\":1},\"consensus\":5}"
    );
    assert_eq!(
        db.get_attr("p", "v", false, 5),
        "{\"value\":\"v\",\"first_seen\":7200,\"last_seen\":7200,\"count\":1,\"tag\":\"\",\"ttl\":0,\"consensus\":5}"
    );
}

#[test]
fn dated_writes_bracket_first_and_last_seen() {
    let mut db = Database::new();
    db.write("p", "v", 5000, false);
    db.write("p", "v", 3000, false);
    db.write("p", "v", 9000, false);
    assert_eq!(
        db.get_attr("p", "v", true, 0),
        "{\"value\":\"v\",\"first_seen\":3000,\"last_seen\":9000,\"count\":3,\"tag\":\"\",\"ttl\":0,\"stats\":{\"0\":1,\"3600\":1,\"7200\":1},\"consensus\":0}"
    );
}

#[test]
fn stats_are_listed_by_increasing_hour() {
    let mut db = Database::new();
    db.write("p", "v", 90000, false);
    db.write("p", "v", 10, false);
    db.write("p", "v", 90001, false);
    assert_eq!(
        db.get_attr("p", "v", true, 0),
        "{\"value\":\"v\",\"first_seen\":10,\"last_seen\":90001,\"count\":3,\"tag\":\"\",\"ttl\":0,\"stats\":{\"0\":1,\"90000\":2},\"consensus\":0}"
    );
}

#[test]
fn live_write_sets_both_times() {
    let mut db = Database::new();
    db.write("p", "v", 0, false);
    let j = db.get_attr("p", "v", true, 0);
    assert!(j.contains("\"count\":1"));
    assert!(!j.contains("\"first_seen\":0,"));
    assert!(!j.contains("\"last_seen\":0,"));
}

#[test]
fn special_characters_are_escaped() {
    let mut db = Database::new();
    let value = "a\"b\\c\nd\u{1}e\u{7f}é";
    db.write("p", value, 3600, false);
    let j = db.get_attr("p", value, false, 0);
    let expected_value = serde_json::to_string(value).unwrap();
    assert!(j.starts_with(&format!("{{\"value\":{},", expected_value)));
    assert_eq!(expected_value, "\"a\\\"b\\\\c\\nd\\u0001e\u{7f}é\"");
}

#[test]
fn db_path_can_be_set() {
    let mut db = Database::new();
    db.set_db_path(String::from("/var/lib/sdb"));
    db.write("p", "v", 100, false);
    assert_eq!(db.get_count("p", "v"), 1);
}

#[test]
fn hour_slot_is_the_hour_holding_the_time() {
    assert_eq!(hour_of(7199), 3600);
    assert_eq!(hour_of(7200), 7200);
    assert_eq!(hour_of(0), 0);
    assert_eq!(hour_of(3599), 0);
    assert_eq!(hour_of(-1), -3600);
    assert_eq!(hour_of(-3600), -3600);
    assert_eq!(hour_of(-3601), -7200);
    for t in [-90001i64, -7201, -1, 0, 1, 3600, 86399, 1566624658] {
        assert_eq!(hour_of(t), t.div_euclid(3600) * 3600);
    }
}

#[test]
fn timestamp_limits_are_chrono_limits() {
    assert!(NaiveDateTime::from_timestamp_opt(MAX_TIMESTAMP, 0).is_some());
    assert!(NaiveDateTime::from_timestamp_opt(MAX_TIMESTAMP + 1, 0).is_none());
    assert!(NaiveDateTime::from_timestamp_opt(MIN_TIMESTAMP, 0).is_some());
    assert!(NaiveDateTime::from_timestamp_opt(MIN_TIMESTAMP - 1, 0).is_none());
}

#[test]
fn attribute_lifecycle() {
    let mut a = Attribute::new("x");
    assert_eq!(a.count(), 0);
    assert_eq!(
        a.to_json(),
        "{\"value\":\"x\",\"first_seen\":0,\"last_seen\":0,\"count\":0,\"tag\":\"\",\"ttl\":0,\"stats\":{},\"consensus\":0}"
    );
    a.incr_from_timestamp(-3601);
    a.make_stats(10);
    a.make_stats_from_timestamp(20);
    a.set_consensus(3);
    assert_eq!(a.count(), 1);
    assert_eq!(
        a.to_json(),
        "{\"value\":\"x\",\"first_seen\":-3601,\"last_seen\":0,\"count\":1,\"tag\":\"\",\"ttl\":0,\"stats\":{\"-7200\":1,\"0\":2},\"consensus\":3}"
    );
}

#[test]
fn attribute_incr_reads_the_clock() {
    let mut a = Attribute::new("x");
    assert!(a.incr());
    assert_eq!(a.count, 1);
    assert!(a.first_seen > 1_500_000_000);
    assert!(a.last_seen >= a.first_seen);
    assert_eq!(a.stats.get(&hour_of(a.last_seen)), Some(&1));
    let first = a.first_seen;
    assert!(a.incr());
    assert_eq!(a.first_seen, first);
    assert_eq!(a.count, 2);
}

#[test]
fn large_counts_and_negative_times_in_json() {
    let mut a = Attribute::new("x");
    a.count = u128::MAX;
    a.ttl = 7;
    a.first_seen = i64::MIN;
    a.last_seen = i64::MAX;
    let j = a.to_json();
    assert!(j.contains(&format!("\"count\":{}", u128::MAX)));
    assert!(j.contains(&format!("\"first_seen\":{}", i64::MIN)));
    assert!(j.contains(&format!("\"last_seen\":{}", i64::MAX)));
    assert!(j.contains("\"ttl\":7"));
}

#[test]
fn hourly_statistics_add_up_to_the_count() {
    let mut a = Attribute::new("x");
    for t in [10i64, 3599, 3600, 86400, 86401, 10] {
        a.incr_from_timestamp(t);
    }
    a.incr();
    assert_eq!(a.stats.values().sum::<u128>(), a.count);
    assert_eq!(a.count, 7);
    assert_eq!(a.stats.get(&0), Some(&3));
    assert_eq!(a.stats.get(&86400), Some(&2));
}

#[test]
fn dated_sightings_give_extremes_and_hourly_counts() {
    let mut a = Attribute::new("v");
    let times = [7300i64, 100, 7250, 90000, 3600, 7201];
    for t in times {
        a.incr_from_timestamp(t);
    }
    assert_eq!(a.count, 6);
    assert_eq!(a.first_seen, 100);
    assert_eq!(a.last_seen, 90000);
    assert_eq!(a.stats.len(), 4);
    assert_eq!(a.stats.get(&0), Some(&1));
    assert_eq!(a.stats.get(&3600), Some(&1));
    assert_eq!(a.stats.get(&7200), Some(&3));
    assert_eq!(a.stats.get(&90000), Some(&1));
    assert!(a.stats.keys().all(|h| h % 3600 == 0));
    assert_eq!(a.value, "v");
    assert_eq!(a.tags, "");
    assert_eq!(a.ttl, 0);
    assert_eq!(a.consensus, 0);
}

#[test]
fn sighting_before_the_epoch_counts_in_its_own_hour() {
    let mut a = Attribute::new("v");
    a.incr_from_timestamp(-1);
    assert_eq!(a.stats.get(&-3600), Some(&1));
    assert_eq!(a.stats.get(&0), None);
}

#[test]
fn attribute_debug_text() {
    let mut a = Attribute::new("127.0.0.1");
    a.incr_from_timestamp(1566624658);
    a.tags = "a\"b".to_string();
    a.ttl = 3;
    assert_eq!(
        a.debug_string(),
        "Attribute { value: 127.0.0.1, first_seen: 2019-08-24T05:30:58Z, last_seen: 2019-08-24T05:30:58Z, count: 1, tags: \"a\\\"b\", ttl: 3}"
    );
    let fresh = Attribute::new("x");
    assert_eq!(
        fresh.debug_string(),
        "Attribute { value: x, first_seen: 1970-01-01T00:00:00Z, last_seen: 1970-01-01T00:00:00Z, count: 0, tags: \"\", ttl: 0}"
    );
}

#[test]
fn debug_text_only_for_attributes_with_a_time_to_live() {
    let mut db = Database::new();
    db.write("p", "v", 1566624658, false);
    assert_eq!(db.debug_text("p", "v"), None);
    assert_eq!(db.debug_text("p", "w"), None);
    assert_eq!(db.debug_text("q", "v"), None);
}

#[test]
fn reading_again_answers_the_same() {
    let mut db = Database::new();
    db.write("p", "v", 7200, false);
    let first = db.get_attr("p", "v", true, 4);
    let second = db.get_attr("p", "v", true, 4);
    assert_eq!(first, second);
    assert!(first.ends_with("\"consensus\":4}"));
    assert_eq!(db.get_count("p", "v"), 1);
}

#[test]
fn clock_seconds_within_chrono_range() {
    assert_eq!(timestamp_from_clock(None), None);
    assert_eq!(timestamp_from_clock(Some(0)), Some(0));
    assert_eq!(timestamp_from_clock(Some(1566624658)), Some(1566624658));
    assert_eq!(timestamp_from_clock(Some(MAX_TIMESTAMP as u64)), Some(MAX_TIMESTAMP));
    assert_eq!(timestamp_from_clock(Some(MAX_TIMESTAMP as u64 + 1)), None);
    assert_eq!(timestamp_from_clock(Some(u64::MAX)), None);
}

#[test]
fn dated_writes_in_either_order() {
    let mut d1 = Database::new();
    let mut d2 = Database::new();
    d1.write("p", "v", 90000, false);
    d1.write("p", "v", 100, false);
    d2.write("p", "v", 100, false);
    d2.write("p", "v", 90000, false);
    assert_eq!(d1.get_attr("p", "v", true, 0), d2.get_attr("p", "v", true, 0));
    assert!(d1.get_attr("p", "v", true, 0).contains("\"first_seen\":100,\"last_seen\":90000,\"count\":2,"));
}
