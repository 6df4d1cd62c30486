use resync::config::Config;
use resync::formatters::porcelain::PorcelainFormatter;
use resync::formatters::single_line::SingleLineFormatter;
use resync::formatters::terminal::TerminalFormatter;
use resync::formatters::{get_formatter, Formatter, SelectedFormatter};
use resync::parsers::types::{LineSpan, SourceFile, SymbolSpan};
use resync::snapshots::CaptureStatus;

fn span(sl: usize, sc: usize, el: usize, ec: usize) -> SymbolSpan {
    SymbolSpan { start: LineSpan { line: sl, character: sc }, end: LineSpan { line: el, character: ec } }
}

fn source() -> SourceFile {
    SourceFile { path: "src/a.rs".to_string(), name: Some("a.rs".to_string()), extension: Some("rs".to_string()) }
}

#[test]
fn single_line_report() {
    let text = SingleLineFormatter.output(&span(10, 4, 12, 1), &span(4, 1, 6, 2), &source(), "rs", &"2 days ago".to_string(), &3);
    assert_eq!(text, "2 days ago\t3\tsrc/a.rs\ta.rs\t4\t6");
}

#[test]
fn porcelain_report() {
    let text = PorcelainFormatter.output(&span(10, 4, 12, 1), &span(4, 1, 6, 2), &source(), "rs", &"2 days ago".to_string(), &30);
    assert_eq!(text, "2 days ago\n30\nsrc/a.rs\na.rs\n4\n6");
}

#[test]
fn terminal_report() {
    let text = TerminalFormatter.output(&span(10, 4, 12, 1), &span(4, 1, 6, 2), &source(), "rs", &"1 hours ago".to_string(), &0);
    assert_eq!(text, "1 hours ago\n0 commits since update\nsrc/a.rs:9:4");
}

#[test]
fn formatter_choice() {
    assert_eq!(get_formatter(&true), SelectedFormatter::SingleLine(SingleLineFormatter));
    assert_eq!(get_formatter(&false), SelectedFormatter::Terminal(TerminalFormatter));
    let config = Config::new(true);
    assert!(config.porcelain);
    assert_eq!(config.get_formatter(&false), SelectedFormatter::Terminal(TerminalFormatter));
    let text = get_formatter(&true).output(&span(2, 0, 3, 0), &span(1, 0, 1, 5), &source(), "rs", &"5 years ago".to_string(), &12);
    assert_eq!(text, "5 years ago\t12\tsrc/a.rs\ta.rs\t1\t1");
}

#[test]
fn capture_status_text() {
    let status = CaptureStatus {
        dura_branch: "resync/abc".to_string(),
        commit_hash: "def".to_string(),
        base_hash: "abc".to_string(),
    };
    assert_eq!(status.describe(), "resync: resync/abc, commit_hash: def, base: abc");
}
