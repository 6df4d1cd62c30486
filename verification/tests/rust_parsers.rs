use resync::parsers::rust::tools::{get_comment_range, Attribute, ItemSyntax, LineColumn};
use resync::parsers::rust::visitor::RsVisitor;
use resync::parsers::rust::{FnSyntax, ImplSyntax, RsParser, TopItem};
use resync::parsers::types::{LineSpan, SymbolSpan};

fn at(line: usize, column: usize) -> LineColumn {
    LineColumn { line, column }
}

fn attr(ident: Option<&str>, start: LineColumn, end: LineColumn) -> Attribute {
    Attribute { ident: ident.map(|i| i.to_string()), start, end }
}

fn span(sl: usize, sc: usize, el: usize, ec: usize) -> SymbolSpan {
    SymbolSpan { start: LineSpan { line: sl, character: sc }, end: LineSpan { line: el, character: ec } }
}

#[test]
fn comment_range_of_doc_attributes() {
    let attrs = vec![
        attr(Some("derive"), at(1, 2), at(1, 8)),
        attr(Some("doc"), at(2, 0), at(2, 3)),
        attr(Some("doc"), at(3, 0), at(3, 3)),
    ];
    assert_eq!(get_comment_range(&attrs), Some(span(2, 0, 3, 3)));
}

#[test]
fn comment_range_keeps_first_of_equal_lines() {
    let attrs = vec![
        attr(Some("doc"), at(4, 1), at(4, 5)),
        attr(Some("doc"), at(4, 7), at(4, 9)),
        attr(None, at(1, 0), at(9, 0)),
    ];
    assert_eq!(get_comment_range(&attrs), Some(span(4, 1, 4, 5)));
}

#[test]
fn no_comment_range_without_doc() {
    assert_eq!(get_comment_range(&vec![]), None);
    assert_eq!(get_comment_range(&vec![attr(Some("test"), at(1, 0), at(1, 4))]), None);
    assert_eq!(get_comment_range(&vec![attr(Some("docs"), at(1, 0), at(1, 4))]), None);
}

#[test]
fn visitor_pairs_documented_items() {
    let mut visitor = RsVisitor::new();
    let documented = ItemSyntax {
        attrs: Some(vec![attr(Some("doc"), at(2, 0), at(2, 3))]),
        start: at(2, 0),
        end: at(5, 1),
    };
    let plain = ItemSyntax { attrs: Some(vec![attr(Some("inline"), at(7, 2), at(7, 8))]), start: at(7, 0), end: at(9, 1) };
    let without_attrs = ItemSyntax { attrs: None, start: at(11, 0), end: at(11, 9) };
    visitor.visit_item(&documented);
    visitor.visit_item(&plain);
    visitor.visit_impl_item(&without_attrs);
    visitor.visit_impl_item(&documented);
    assert_eq!(visitor.symbols, vec![(span(2, 0, 2, 3), span(3, 0, 5, 1)), (span(2, 0, 2, 3), span(3, 0, 5, 1))]);
}

#[test]
fn top_level_functions_and_impls() {
    let parser = RsParser;
    let items = vec![
        TopItem::Fn(FnSyntax {
            attrs: vec![attr(Some("inline"), at(1, 2), at(1, 8)), attr(Some("doc"), at(2, 0), at(2, 3))],
            block_start: at(3, 10),
            block_end: at(5, 1),
        }),
        TopItem::Fn(FnSyntax { attrs: vec![], block_start: at(7, 10), block_end: at(8, 1) }),
        TopItem::Other,
        TopItem::Impl(ImplSyntax {
            attrs: vec![attr(Some("doc"), at(10, 0), at(10, 3))],
            start: at(11, 0),
            end: at(20, 1),
            methods: vec![
                FnSyntax { attrs: vec![attr(Some("doc"), at(12, 4), at(12, 7))], block_start: at(13, 20), block_end: at(15, 5) },
                FnSyntax { attrs: vec![], block_start: at(16, 20), block_end: at(18, 5) },
            ],
        }),
        TopItem::Impl(ImplSyntax { attrs: vec![], start: at(22, 0), end: at(24, 1), methods: vec![] }),
    ];
    assert_eq!(
        parser.parse_items(&items),
        vec![
            (span(1, 2, 2, 3), span(3, 10, 5, 1)),
            (span(10, 0, 10, 3), span(11, 0, 20, 1)),
            (span(12, 4, 12, 7), span(13, 20, 15, 5)),
        ]
    );
}

#[test]
fn first_attribute_counts_in_top_level_comments() {
    let parser = RsParser;
    let items = vec![TopItem::Fn(FnSyntax {
        attrs: vec![attr(Some("test"), at(3, 0), at(3, 7))],
        block_start: at(4, 12),
        block_end: at(6, 1),
    })];
    assert_eq!(parser.parse_items(&items), vec![(span(3, 0, 3, 7), span(4, 12, 6, 1))]);
}
