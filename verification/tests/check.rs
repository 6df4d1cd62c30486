use std::collections::HashMap;
use aho_corasick::AhoCorasick;
use resync::check::{
    check_pair, file_patterns, find_out_of_sync, plan_check, should_check, sync_info, wants_file,
    CheckPlan, OutOfSync,
};
use resync::info::LineInfo;
use resync::parsers::javascript::parser::JsParser;
use resync::parsers::rust::parser::RsParser;
use resync::parsers::types::{LineSpan, SourceFile, SymbolSpan};
use resync::parsers::SelectedParser;

fn lines(start: usize, end: usize) -> SymbolSpan {
    SymbolSpan { start: LineSpan { line: start, character: 0 }, end: LineSpan { line: end, character: 0 } }
}

fn file(path: &str, name: Option<&str>, extension: Option<&str>) -> SourceFile {
    SourceFile {
        path: path.to_string(),
        name: name.map(|n| n.to_string()),
        extension: extension.map(|e| e.to_string()),
    }
}

fn blame(entries: &[(usize, u64, &str)]) -> HashMap<usize, LineInfo> {
    let mut map = HashMap::new();
    for (line, time, commit) in entries {
        map.insert(*line, LineInfo { time: *time, commit: commit.to_string() });
    }
    map
}

#[test]
fn check_when_edited_after_last_check() {
    assert!(should_check(5, None));
    assert!(!should_check(0, None));
    assert!(!should_check(5, Some(5)));
    assert!(should_check(6, Some(5)));
    assert!(!should_check(4, Some(5)));
}

#[test]
fn patterns_start_with_defaults() {
    let patterns = file_patterns(&vec!["build".to_string()]);
    assert_eq!(patterns, vec![".git", ".swp", "node_modules", "target", "build"]);
    assert_eq!(file_patterns(&vec![]).len(), 4);
}

#[test]
fn files_that_are_looked_at() {
    let ac = AhoCorasick::new(&[".git", ".swp", "node_modules"]).unwrap();
    assert!(wants_file(&ac, &file("src/main.rs", Some("main.rs"), Some("rs"))));
    assert!(!wants_file(&ac, &file("node_modules/a.js", Some("a.js"), Some("js"))));
    assert!(!wants_file(&ac, &file("README", Some("README"), None)));
}

#[test]
fn plans() {
    let patterns = file_patterns(&vec![]);
    let rs = file("src/lib.rs", Some("lib.rs"), Some("rs"));
    assert_eq!(plan_check(&rs, &patterns, 10, Some(5)), CheckPlan::Analyze(SelectedParser::Rs(RsParser)));
    assert_eq!(plan_check(&rs, &patterns, 10, Some(10)), CheckPlan::UseCached);
    assert_eq!(plan_check(&rs, &patterns, 10, None), CheckPlan::Analyze(SelectedParser::Rs(RsParser)));
    let ts = file("web/a.ts", Some("a.ts"), Some("ts"));
    assert_eq!(
        plan_check(&ts, &patterns, 1, None),
        CheckPlan::Analyze(SelectedParser::Js(JsParser { ts: true }))
    );
    assert_eq!(plan_check(&file("target/x.rs", Some("x.rs"), Some("rs")), &patterns, 10, None), CheckPlan::Skip);
    assert_eq!(plan_check(&file("a.py", Some("a.py"), Some("py")), &patterns, 10, None), CheckPlan::Skip);
}

fn sample_blame() -> HashMap<usize, LineInfo> {
    blame(&[(0, 10, "c0"), (1, 10, "c1"), (2, 20, "f2"), (3, 30, "f3"), (4, 40, "f4"), (5, 50, "f5")])
}

#[test]
fn out_of_sync_when_code_is_newer() {
    let map = sample_blame();
    let found = check_pair(&map, &lines(1, 2), &lines(3, 6)).expect("out of sync");
    assert_eq!(found.comment, lines(1, 2));
    assert_eq!(found.function, lines(3, 6));
    assert_eq!(found.comment_time, 10);
    assert_eq!(found.commit, "c0");
}

#[test]
fn in_sync_when_comment_is_newer() {
    let map = sample_blame();
    assert!(check_pair(&map, &lines(5, 6), &lines(1, 2)).is_none());
}

#[test]
fn in_sync_when_one_commit_controls() {
    let map = blame(&[(0, 10, "c"), (1, 50, "f"), (2, 50, "f"), (3, 20, "g")]);
    assert!(check_pair(&map, &lines(1, 1), &lines(2, 4)).is_none());
}

#[test]
fn out_of_sync_pairs_in_order() {
    let map = sample_blame();
    let pairs = vec![(lines(1, 2), lines(3, 6)), (lines(5, 6), lines(1, 2)), (lines(1, 1), lines(3, 6))];
    let found: Vec<(SymbolSpan, String)> =
        find_out_of_sync(&map, &pairs).into_iter().map(|o| (o.comment, o.commit)).collect();
    assert_eq!(found, vec![(lines(1, 2), "c0".to_string()), (lines(1, 1), "c0".to_string())]);
}

#[test]
fn sync_info_of_out_of_sync() {
    let item = OutOfSync { comment: lines(1, 2), function: lines(3, 6), comment_time: 10, commit: "c0".to_string() };
    let info = sync_info(&item, 10 + 3600, 7);
    assert_eq!(info.time_diff, "1 hours ago");
    assert_eq!(info.commit_diff, 7);
    assert_eq!(info.function, lines(3, 6));
    assert_eq!(info.comment, lines(1, 2));
}
