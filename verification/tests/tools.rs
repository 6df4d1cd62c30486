use std::collections::HashMap;
use resync::info::LineInfo;
use resync::parsers::types::{LineSpan, SymbolSpan};
use resync::tools::{check_control, get_latest_line, symbol_print_ranges, unix_time_diff};

fn lines(start: usize, end: usize) -> SymbolSpan {
    SymbolSpan { start: LineSpan { line: start, character: 0 }, end: LineSpan { line: end, character: 0 } }
}

fn blame(times: &[(usize, u64)]) -> HashMap<usize, LineInfo> {
    let mut map = HashMap::new();
    for (line, time) in times {
        map.insert(*line, LineInfo { time: *time, commit: format!("c{}", line) });
    }
    map
}

#[test]
fn latest_line_is_first_of_the_newest() {
    let map = blame(&[(0, 5), (1, 9), (2, 9), (3, 1)]);
    assert_eq!(get_latest_line(&map, &lines(1, 4)), 1);
    assert_eq!(get_latest_line(&map, &lines(3, 4)), 2);
    assert_eq!(get_latest_line(&map, &lines(4, 4)), 3);
}

#[test]
fn latest_line_without_times_is_zero() {
    let map = blame(&[(0, 0), (1, 0), (2, 0)]);
    assert_eq!(get_latest_line(&map, &lines(2, 3)), 0);
}

fn blame_by(commits: &[(usize, &str)]) -> HashMap<usize, LineInfo> {
    let mut map = HashMap::new();
    for (line, commit) in commits {
        map.insert(*line, LineInfo { time: *line as u64, commit: commit.to_string() });
    }
    map
}

#[test]
fn control_needs_more_than_forty_percent() {
    let map = blame_by(&[(0, "a"), (1, "a"), (2, "b"), (3, "c"), (4, "d")]);
    assert!(!check_control(&map, &lines(1, 5)));
    let map = blame_by(&[(0, "a"), (1, "a"), (2, "a"), (3, "c"), (4, "d")]);
    assert!(check_control(&map, &lines(1, 5)));
}

#[test]
fn control_counts_every_line() {
    let map = blame_by(&[(0, "a"), (1, "b"), (2, "b")]);
    assert!(check_control(&map, &lines(1, 3)));
    assert!(check_control(&map, &lines(1, 1)));
    let map = blame_by(&[(0, "a"), (1, "b"), (2, "c")]);
    assert!(!check_control(&map, &lines(1, 3)));
    assert!(!check_control(&map, &lines(3, 2)));
}

#[test]
fn time_diff_units() {
    assert_eq!(unix_time_diff(100, 100), "0 seconds ago");
    assert_eq!(unix_time_diff(59, 0), "0 seconds ago");
    assert_eq!(unix_time_diff(60, 0), "1 minutes ago");
    assert_eq!(unix_time_diff(3599, 0), "59 minutes ago");
    assert_eq!(unix_time_diff(3600, 0), "1 hours ago");
    assert_eq!(unix_time_diff(2 * 86400 + 7, 0), "2 days ago");
    assert_eq!(unix_time_diff(2592000, 0), "1 months ago");
    assert_eq!(unix_time_diff(3 * 31536000 + 5, 0), "3 years ago");
    assert_eq!(unix_time_diff(10 + 123 * 31536000, 10), "123 years ago");
}

#[test]
fn print_ranges() {
    assert_eq!(symbol_print_ranges(&lines(10, 20), &lines(7, 9)), ((10, 13), (7, 9)));
    assert_eq!(symbol_print_ranges(&lines(10, 12), &lines(7, 9)), ((10, 12), (7, 9)));
    assert_eq!(symbol_print_ranges(&lines(10, 13), &lines(1, 1)), ((10, 13), (1, 1)));
}
