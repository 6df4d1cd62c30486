use resync::parsers::javascript::parser::{match_symbols, JsParser};
use resync::parsers::javascript::visitor::{to_line_span, to_symbol_span, JsVisitor};
use resync::parsers::types::{LineSpan, SymbolSpan};

fn span(sl: usize, sc: usize, el: usize, ec: usize) -> SymbolSpan {
    SymbolSpan { start: LineSpan { line: sl, character: sc }, end: LineSpan { line: el, character: ec } }
}

#[test]
fn line_span_of_offsets() {
    assert_eq!(to_line_span("ab\ncd", 3, true), LineSpan { line: 2, character: 0 });
    assert_eq!(to_line_span("ab\ncd", 3, false), LineSpan { line: 1, character: 0 });
    assert_eq!(to_line_span("ab\ncd", 1, true), LineSpan { line: 1, character: 1 });
    assert_eq!(to_line_span("ab\ncd", 0, false), LineSpan { line: 0, character: 0 });
}

#[test]
fn line_span_past_the_end() {
    assert_eq!(to_line_span("ab\ncd", 10, true), LineSpan { line: 2, character: 2 });
    assert_eq!(to_line_span("", 3, false), LineSpan { line: 0, character: 0 });
}

#[test]
fn symbol_span_of_offsets() {
    assert_eq!(to_symbol_span("ab\ncd", 1, 4), span(1, 1, 2, 1));
    assert_eq!(to_symbol_span("f() {}\n", 0, 6), span(1, 0, 1, 6));
}

#[test]
fn visitor_records_symbols() {
    let mut visitor = JsVisitor::new("x\ny");
    visitor.record(2, 3);
    visitor.record(0, 1);
    assert_eq!(visitor.symbols, vec![span(2, 0, 2, 1), span(1, 0, 1, 1)]);
}

#[test]
fn symbols_pair_with_comment_above() {
    let comments = vec![span(1, 3, 1, 8), span(4, 3, 5, 3)];
    let symbols = vec![span(2, 0, 2, 10), span(3, 0, 3, 4), span(6, 0, 9, 1), span(2, 4, 2, 8)];
    let matched = match_symbols(&comments, &symbols);
    assert_eq!(
        matched,
        vec![
            (span(1, 3, 1, 8), span(2, 0, 2, 10)),
            (span(1, 3, 1, 8), span(2, 4, 2, 8)),
            (span(4, 3, 5, 3), span(6, 0, 9, 1)),
        ]
    );
}

#[test]
fn pair_comments_of_text() {
    let parser = JsParser { ts: false };
    let text = "/* c */\nconst a = 1;\n";
    let symbols = vec![span(2, 0, 2, 12), span(3, 0, 3, 0)];
    let matched = parser.pair_comments(text, &symbols);
    assert_eq!(matched, vec![(span(1, 3, 1, 8), span(2, 0, 2, 12))]);
}

#[test]
fn nothing_to_pair() {
    assert_eq!(match_symbols(&vec![], &vec![span(2, 0, 2, 1)]), vec![]);
    assert_eq!(match_symbols(&vec![span(1, 0, 1, 1)], &vec![]), vec![]);
}

#[test]
fn recorded_symbols_pair_with_lines_from_one() {
    let text = "// adds\nfunction add(a, b) {\n  return a + b;\n}\n";
    let mut visitor = JsVisitor::new(text);
    visitor.record(8, 46);
    assert_eq!(visitor.symbols, vec![span(2, 0, 4, 1)]);
    let matched = JsParser { ts: false }.pair_comments(text, &visitor.symbols);
    assert_eq!(matched.len(), 1);
    let (comment, symbol) = matched[0];
    assert_eq!(symbol, span(2, 0, 4, 1));
    assert!(comment.start.line >= 1 && comment.end.line >= 1);
    assert_eq!(comment.end.line + 1, symbol.start.line);
}
