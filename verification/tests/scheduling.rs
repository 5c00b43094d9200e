use watching_log_parser::parser::{MatchCallback, Parser};
use watching_log_parser::parser_task_manager::{ParserTask, ParserTaskManager};

fn strings(v: &[&str]) -> Vec<String> {
    v.iter().map(|s| s.to_string()).collect()
}

fn task(i: u32, line: &str) -> ParserTask<MatchCallback> {
    ParserTask {
        index: i,
        hash_value: 0,
        line: line.to_string(),
        reg_pattern_list: strings(&["^(?P<name>.+)$"]),
        finished_reg_pattern_list: strings(&[]),
        callback: MatchCallback,
    }
}

#[test]
fn thread_count_formula() {
    // ceil(10 / 3) = 4, clamped by the thread bound 4.
    let mut manager: ParserTaskManager<MatchCallback> = ParserTaskManager::new(4, 3);
    for i in 0..10u32 {
        manager.add_task(task(i, "line"));
    }
    assert_eq!(manager.get_task_count(), 10);
    assert_eq!(manager.get_thread_count(), 4);
}

#[test]
fn thread_count_clamps() {
    let mut manager: ParserTaskManager<MatchCallback> = ParserTaskManager::new(2, 1);
    // An empty batch is still clamped below at one worker.
    assert_eq!(manager.get_thread_count(), 1);
    for i in 0..10u32 {
        manager.add_task(task(i, "line"));
    }
    // ceil(10 / 1) = 10, clamped by the thread bound 2.
    assert_eq!(manager.get_thread_count(), 2);
}

#[test]
fn zero_tuning_parameters_are_raised_to_one() {
    let mut manager: ParserTaskManager<MatchCallback> = ParserTaskManager::new(0, 0);
    for i in 0..5u32 {
        manager.add_task(task(i, "line"));
    }
    assert_eq!(manager.get_thread_count(), 1);
}

#[test]
fn run_aligns_results_with_tasks() {
    let mut manager: ParserTaskManager<MatchCallback> = ParserTaskManager::new(3, 1);
    for i in 0..7u32 {
        manager.add_task(task(i, &format!("line {}", i)));
    }
    let results = manager.run().unwrap();
    assert_eq!(results.len(), 7);
    for (i, r) in results.iter().enumerate() {
        let m = r.as_ref().unwrap();
        assert_eq!(m.index as usize, i);
        assert_eq!(m.name, format!("line {}", i));
    }
}

#[test]
fn batch_of_ten_lines_keeps_length_and_order() {
    let mut parser = Parser::new(strings(&["^(?P<name>.+)$"]), strings(&[]), None, 4, 3);
    let lines: Vec<String> = (0..10).map(|i| format!("entry {}", i)).collect();
    let records = parser.try_parse_metadata(&lines).unwrap();
    assert_eq!(records.len(), lines.len());
    for (i, r) in records.iter().enumerate() {
        assert_eq!(r.index as usize, i);
        assert_eq!(r.raw_line, lines[i]);
    }
}
