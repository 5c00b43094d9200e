use watching_log_parser::datatype::Metadata;
use watching_log_parser::logger::{logger_init, LogLevel};
use watching_log_parser::parser::Parser;
use watching_log_parser::stats::{Mode, Stats};

fn strings(v: &[&str]) -> Vec<String> {
    v.iter().map(|s| s.to_string()).collect()
}

fn parsed(lines: &[&str]) -> Stats {
    let mut parser = Parser::new(
        strings(&["^(?P<name>.+?)(?: S(?P<season>\\d+))? ep(?P<episode>\\d+)"]),
        strings(&["finished$"]),
        None,
        1,
        1,
    );
    let records = parser.try_parse_metadata(&strings(lines)).unwrap();
    Stats::new(records)
}

#[test]
fn groups_by_title_and_season() {
    let stats = parsed(&[
        "Show A ep1",
        "Show A ep2 finished",
        "Show B S2 ep1",
        "Show B S3 ep1",
    ]);
    let all = stats.stats_all();
    assert_eq!(all.len(), 3);
    assert_eq!(all[0].name, "Show A");
    assert_eq!(all[0].season, None);
    assert!(all[0].b_finished);
    assert_eq!(all[1].name, "Show B");
    assert_eq!(all[1].season, Some(2));
    assert!(!all[1].b_finished);
    assert_eq!(all[2].season, Some(3));
}

#[test]
fn unfinished_groups_only() {
    let stats = parsed(&["Show A ep1 finished", "Show B ep1", "Show C ep1"]);
    let unfinished = stats.stats_unfinished();
    let names: Vec<&str> = unfinished.iter().map(|g| g.name.as_str()).collect();
    assert_eq!(names, vec!["Show B", "Show C"]);
}

#[test]
fn query_is_case_insensitive() {
    let stats = parsed(&["My Show ep1", "Other ep1"]);
    let found = stats.query_by_name("MY");
    assert_eq!(found.len(), 1);
    assert_eq!(found[0].name, "My Show");
    assert_eq!(stats.query_by_name("missing").len(), 0);
}

#[test]
fn mode_selects_the_view() {
    let stats = parsed(&["Show A ep1 finished", "Show B ep1"]);
    assert_eq!(stats.select(Mode::All, "").len(), 2);
    let unfinished = stats.select(Mode::UnFinished, "");
    assert_eq!(unfinished.len(), 1);
    assert_eq!(unfinished[0].name, "Show B");
    let queried = stats.select(Mode::Query, "show b");
    assert_eq!(queried.len(), 1);
    assert_eq!(queried[0].name, "Show B");
}

fn bare_record(index: u32, name: &str) -> Metadata {
    Metadata {
        index,
        id: index as u64,
        name: name.to_string(),
        b_finished: false,
        episode: None,
        time_at_episode: None,
        season: None,
        logged_time: None,
        note: None,
        raw_line: name.to_string(),
        reg_pattern_matched: String::new(),
        finished_reg_pattern_matched: None,
    }
}

#[test]
fn unsorted_records_are_sorted_before_grouping() {
    let records = vec![bare_record(2, "Show B"), bare_record(0, "Show A"), bare_record(1, "Show B")];
    let stats = Stats::new(records);
    let all = stats.stats_all();
    assert_eq!(all.len(), 2);
    // After the sort by position, "Show A" (position 0) appears first.
    assert_eq!(all[0].name, "Show A");
    assert_eq!(all[1].name, "Show B");
}

#[test]
fn log_levels_gate_emission() {
    let logger = logger_init(LogLevel::Warn);
    assert!(logger.should_log(LogLevel::Error));
    assert!(logger.should_log(LogLevel::Warn));
    assert!(!logger.should_log(LogLevel::Info));
    assert!(!logger.should_log(LogLevel::Debug));
}
