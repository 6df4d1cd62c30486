use resync::parsers::javascript::comment_parser::{
    get_docstring, get_inline, parse_comments, parse_docstring, parse_inline, TextSpan,
};
use resync::parsers::types::{LineSpan, SymbolSpan};

fn span(sl: usize, sc: usize, el: usize, ec: usize) -> SymbolSpan {
    SymbolSpan { start: LineSpan { line: sl, character: sc }, end: LineSpan { line: el, character: ec } }
}

#[test]
fn docstring_on_one_line() {
    let comments = parse_docstring("/** hi */\nfn a() {}\n");
    assert_eq!(comments, vec![span(1, 3, 1, 10)]);
}

#[test]
fn docstring_over_lines() {
    let comments = parse_docstring("x\n/*\n a\n*/ y");
    assert_eq!(comments, vec![span(2, 3, 4, 3)]);
}

#[test]
fn docstrings_in_order() {
    let comments = parse_docstring("/* a */ b /* c\n*/");
    assert_eq!(comments, vec![span(1, 3, 1, 8), span(1, 13, 2, 3)]);
}

#[test]
fn unclosed_docstring_is_not_found() {
    assert_eq!(parse_docstring("/*/ never closed"), vec![]);
    assert!(get_docstring(TextSpan::new("no comment here")).is_err());
}

#[test]
fn docstring_column_counts_bytes() {
    let comments = parse_docstring("\u{e9}/* x */");
    assert_eq!(comments, vec![span(1, 5, 1, 10)]);
}

#[test]
fn inline_run_of_lines() {
    let comments = parse_inline("fn f() {\n    // a\n    // b\n}");
    assert_eq!(comments, vec![span(2, 7, 3, 7)]);
}

#[test]
fn inline_scan_stops_after_first_run() {
    let comments = parse_inline("// one\n// two\nlet y;\n// three\n");
    assert_eq!(comments, vec![span(1, 3, 2, 3)]);
}

#[test]
fn inline_leaves_empty_rest() {
    let (rest, comment) = get_inline(TextSpan::new("// one\nx")).expect("line comment");
    assert_eq!(comment, span(1, 3, 1, 3));
    assert_eq!(rest.fragment(), "");
}

#[test]
fn comments_block_then_line() {
    let comments = parse_comments("// first\n/* second */\n");
    assert_eq!(comments, vec![span(2, 3, 2, 13), span(1, 3, 1, 3)]);
}

#[test]
fn no_comments() {
    assert_eq!(parse_comments(""), vec![]);
    assert_eq!(parse_comments("let a = 1;"), vec![]);
}
