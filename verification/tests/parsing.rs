use watching_log_parser::datatype::{ElapsedTime, LogStamp};
use watching_log_parser::parser::{Parser, ParserError};
use watching_log_parser::parse_number;
use watching_log_parser::temporal::parse_time;

fn strings(v: &[&str]) -> Vec<String> {
    v.iter().map(|s| s.to_string()).collect()
}

#[test]
fn scenario_episode_line() {
    let mut parser = Parser::new(
        strings(&["^(?P<name>.+) ep(?P<episode>\\d+)"]),
        strings(&["finished$"]),
        None,
        1,
        1,
    );
    let lines = strings(&["Show X ep12 finished"]);
    let records = parser.try_parse_metadata(&lines).unwrap();
    assert_eq!(records.len(), 1);
    assert_eq!(records[0].name, "Show X");
    assert_eq!(records[0].episode, Some(12));
    assert!(records[0].b_finished);
    assert_eq!(
        records[0].finished_reg_pattern_matched,
        Some("finished$".to_string())
    );
}

#[test]
fn elapsed_time_tokens() {
    assert_eq!(
        parse_time("1:02:03"),
        Some(ElapsedTime { hour: 1, minute: 2, second: 3 })
    );
    assert_eq!(
        parse_time("02:03"),
        Some(ElapsedTime { hour: 0, minute: 2, second: 3 })
    );
    assert_eq!(parse_time("1:2:3:4"), None);
    assert_eq!(parse_time("99:99"), None);
    assert_eq!(parse_time("25:00:00"), None);
}

#[test]
fn cjk_numeral_season() {
    assert_eq!(parse_number("三"), Some(3));
    assert_eq!(parse_number("十二"), Some(12));
}

#[test]
fn decimal_numerals() {
    assert_eq!(parse_number("0"), Some(0));
    assert_eq!(parse_number("012"), Some(12));
    assert_eq!(parse_number("+12"), Some(12));
    assert_eq!(parse_number("65535"), Some(65535));
    assert_eq!(parse_number(""), None);
    assert_eq!(parse_number("12a"), None);
}

#[test]
fn first_matching_pattern_is_credited() {
    let mut parser = Parser::new(
        strings(&["^(?P<name>A.*)$", "^(?P<name>.*)$"]),
        strings(&[]),
        None,
        1,
        1,
    );
    let lines = strings(&["ABC"]);
    let records = parser.try_parse_metadata(&lines).unwrap();
    assert_eq!(records.len(), 1);
    assert_eq!(records[0].reg_pattern_matched, "^(?P<name>A.*)$");
}

#[test]
fn unbound_name_group_skips_to_next_pattern() {
    let mut parser = Parser::new(
        strings(&["^X(?P<name>Y)?", "^(?P<name>X)$"]),
        strings(&[]),
        None,
        1,
        1,
    );
    let lines = strings(&["X"]);
    let records = parser.try_parse_metadata(&lines).unwrap();
    assert_eq!(records.len(), 1);
    assert_eq!(records[0].name, "X");
    assert_eq!(records[0].reg_pattern_matched, "^(?P<name>X)$");
}

#[test]
fn first_finished_pattern_is_recorded() {
    let mut parser = Parser::new(
        strings(&["^(?P<name>.+)$"]),
        strings(&["zzz", "ab", "b"]),
        None,
        1,
        1,
    );
    let lines = strings(&["xaby"]);
    let records = parser.try_parse_metadata(&lines).unwrap();
    assert_eq!(records.len(), 1);
    assert!(records[0].b_finished);
    assert_eq!(
        records[0].finished_reg_pattern_matched,
        Some("ab".to_string())
    );
}

#[test]
fn no_finished_pattern_matches() {
    let mut parser = Parser::new(
        strings(&["^(?P<name>.+)$"]),
        strings(&["zzz"]),
        None,
        1,
        1,
    );
    let lines = strings(&["xaby"]);
    let records = parser.try_parse_metadata(&lines).unwrap();
    assert_eq!(records.len(), 1);
    assert!(!records[0].b_finished);
    assert_eq!(records[0].finished_reg_pattern_matched, None);
}

#[test]
fn logged_time_fixed_layout() {
    let mut parser = Parser::new(
        strings(&["^(?P<name>.+?) (?P<logged_time>\\d{4}-\\d{2}-\\d{2} \\d{2}:\\d{2})$"]),
        strings(&[]),
        None,
        1,
        1,
    );
    let lines = strings(&["Show 2024-01-02 03:04"]);
    let records = parser.try_parse_metadata(&lines).unwrap();
    assert_eq!(records.len(), 1);
    assert_eq!(
        records[0].logged_time,
        Some(LogStamp { year: 2024, month: 1, day: 2, hour: 3, minute: 4 })
    );
}

#[test]
fn malformed_logged_time_is_absent() {
    let mut parser = Parser::new(
        strings(&["^(?P<name>.+?) t=(?P<logged_time>.+)$"]),
        strings(&[]),
        None,
        1,
        1,
    );
    let lines = strings(&["Show t=2024/01/02 03:04"]);
    let records = parser.try_parse_metadata(&lines).unwrap();
    assert_eq!(records.len(), 1);
    assert_eq!(records[0].logged_time, None);
}

#[test]
fn invalid_pattern_is_a_configuration_error() {
    let mut parser = Parser::new(strings(&["("]), strings(&[]), None, 1, 1);
    let lines = strings(&["anything"]);
    assert_eq!(
        parser.try_parse_metadata(&lines),
        Err(ParserError::InvalidPattern)
    );
    let mut parser2 = Parser::new(strings(&["^(?P<name>.+)$"]), strings(&["("]), None, 1, 1);
    assert_eq!(
        parser2.try_parse_metadata(&lines),
        Err(ParserError::InvalidPattern)
    );
}

#[test]
fn unmatched_lines_drop_without_reordering() {
    let mut parser = Parser::new(
        strings(&["^(?P<name>keep.*)$"]),
        strings(&[]),
        None,
        2,
        1,
    );
    let lines = strings(&["keep one", "drop", "keep two", "drop", "keep three"]);
    let records = parser.try_parse_metadata(&lines).unwrap();
    let names: Vec<&str> = records.iter().map(|r| r.name.as_str()).collect();
    assert_eq!(names, vec!["keep one", "keep two", "keep three"]);
    let indices: Vec<u32> = records.iter().map(|r| r.index).collect();
    assert_eq!(indices, vec![0, 2, 4]);
}
