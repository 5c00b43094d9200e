use watching_log_parser::cache_db::{epoch_seconds, Cache};
use watching_log_parser::codec::{decode, encode};
use watching_log_parser::datatype::{ElapsedTime, LogStamp, Metadata};
use watching_log_parser::parser::Parser;

fn strings(v: &[&str]) -> Vec<String> {
    v.iter().map(|s| s.to_string()).collect()
}

fn sample_record() -> Metadata {
    Metadata {
        index: 7,
        id: 0xdead_beef_0123_4567,
        name: "Some Show".to_string(),
        b_finished: true,
        episode: Some(12),
        time_at_episode: Some(ElapsedTime { hour: 1, minute: 2, second: 3 }),
        season: Some(2),
        logged_time: Some(LogStamp { year: 2024, month: 3, day: 9, hour: 21, minute: 5 }),
        note: Some("rewatch".to_string()),
        raw_line: "Some Show ep12 1:02:03".to_string(),
        reg_pattern_matched: "^(?P<name>.+) ep(?P<episode>\\d+)".to_string(),
        finished_reg_pattern_matched: Some("finished$".to_string()),
    }
}

#[test]
fn payload_round_trip() {
    let m = sample_record();
    let payload = encode(&m);
    let back = decode(payload.as_str(), 7).expect("a framed record reads back");
    assert_eq!(back, m);
}

#[test]
fn payload_round_trip_with_absent_fields() {
    let mut m = sample_record();
    m.episode = None;
    m.time_at_episode = None;
    m.season = None;
    m.logged_time = None;
    m.note = None;
    m.finished_reg_pattern_matched = None;
    m.b_finished = false;
    let payload = encode(&m);
    let back = decode(payload.as_str(), 7).expect("a framed record reads back");
    assert_eq!(back, m);
}

#[test]
fn damaged_payload_reads_as_nothing() {
    let m = sample_record();
    let payload = encode(&m);
    let mut truncated = payload.clone();
    truncated.pop();
    assert_eq!(decode(truncated.as_str(), 0), None);
    let trailing = format!("{}x", payload);
    assert_eq!(decode(trailing.as_str(), 0), None);
    assert_eq!(decode("zzzz", 0), None);
}

#[test]
fn decode_assigns_the_given_position() {
    let m = sample_record();
    let payload = encode(&m);
    let back = decode(payload.as_str(), 42).unwrap();
    assert_eq!(back.index, 42);
}

#[test]
fn timestamp_column_is_unix_epoch_seconds() {
    let origin = LogStamp { year: 1970, month: 1, day: 1, hour: 0, minute: 0 };
    assert_eq!(epoch_seconds(&origin), 0);
    let before = LogStamp { year: 1969, month: 12, day: 31, hour: 23, minute: 59 };
    assert_eq!(epoch_seconds(&before), -60);
    let leap_day = LogStamp { year: 2024, month: 2, day: 29, hour: 0, minute: 0 };
    assert_eq!(epoch_seconds(&leap_day), 1_709_164_800);
    let logged = LogStamp { year: 2024, month: 3, day: 9, hour: 21, minute: 5 };
    assert_eq!(epoch_seconds(&logged), 1_710_018_300);
}

#[test]
fn unopenable_store_reports_storage_error() {
    assert!(Cache::new("/this/path/does/not/exist/cache.db").is_err());
}

#[test]
fn cache_store_and_query() {
    let cache = Cache::new(":memory:").expect("in-memory store opens");
    let m = sample_record();
    cache.add_or_update_cache(&m).expect("write succeeds");
    // Upsert under the same key must not fail.
    cache.add_or_update_cache(&m).expect("second write succeeds");
    let back = cache.query_cache(m.id).expect("stored record is found");
    assert_eq!(back.id, m.id);
    assert_eq!(back.name, m.name);
    assert_eq!(back.episode, m.episode);
    assert_eq!(cache.query_cache(m.id ^ 1), None);
}

#[test]
fn second_run_is_served_from_cache() {
    let cache = Cache::new(":memory:").expect("in-memory store opens");
    let mut parser = Parser::new(
        strings(&["^(?P<name>.+) ep(?P<episode>\\d+)"]),
        strings(&["finished$"]),
        Some(cache),
        2,
        1,
    );
    let lines = strings(&["Show A ep1", "Show B ep2 finished", "Show A ep2"]);
    let (first, first_hits) = parser.parse_metadata_with_stats(&lines);
    assert_eq!(first_hits, 0);
    assert_eq!(first.len(), 3);
    let (second, second_hits) = parser.parse_metadata_with_stats(&lines);
    assert_eq!(second_hits, 3);
    assert_eq!(first, second);
}

#[test]
fn changing_one_pattern_invalidates_cached_keys() {
    let cache = Cache::new(":memory:").expect("in-memory store opens");
    let mut parser = Parser::new(
        strings(&["^(?P<name>.+) ep(?P<episode>\\d+)"]),
        strings(&["finished$"]),
        Some(cache),
        1,
        1,
    );
    let lines = strings(&["Show A ep1", "Show B ep2"]);
    let (_, hits0) = parser.parse_metadata_with_stats(&lines);
    assert_eq!(hits0, 0);
    // Changing a single pattern string changes every line's key.
    parser.finished_reg_pattern_list[0] = "done$".to_string();
    let (_, hits1) = parser.parse_metadata_with_stats(&lines);
    assert_eq!(hits1, 0);
    // Restoring the original set addresses the original entries again.
    parser.finished_reg_pattern_list[0] = "finished$".to_string();
    let (_, hits2) = parser.parse_metadata_with_stats(&lines);
    assert_eq!(hits2, 2);
}
