//! What the Rust scanners read of a syntax tree, and how they find the
//! doc comment of an item.
use vstd::prelude::*;
use crate::parsers::types::{LineSpan, SymbolSpan};
use crate::scan::str_eq;

verus! {

/// A place in a source file: a line (from 1) and a column (from 0).
#[derive(Debug, Clone, Copy, PartialEq, Eq, Structural)]
pub struct LineColumn {
    pub line: usize,
    pub column: usize,
}

/// An attribute of an item: the identifier its path consists of, when the
/// path is a single identifier, and where that identifier stands.
#[derive(Debug, Clone)]
pub struct Attribute {
    pub ident: Option<String>,
    pub start: LineColumn,
    pub end: LineColumn,
}

/// An item or an item of an `impl`: its attributes, when it is a kind of
/// item that has them, and where it starts and ends.
#[derive(Debug, Clone)]
pub struct ItemSyntax {
    pub attrs: Option<Vec<Attribute>>,
    pub start: LineColumn,
    pub end: LineColumn,
}

/// A doc comment is an attribute whose path is the identifier `doc`.
pub open spec fn is_doc(a: Attribute) -> bool {
    a.ident matches Some(s) && s@ == seq!['d', 'o', 'c']
}

/// Attribute `k` counts for the range: a doc attribute, or the first
/// attribute when `with_first` holds.
pub open spec fn counts(attrs: Seq<Attribute>, k: int, with_first: bool) -> bool {
    (with_first && k == 0) || is_doc(attrs[k])
}

/// Among the attributes of `[0, n)` that count, `j` is the first of those
/// that start on the smallest line.
pub open spec fn first_min_start(attrs: Seq<Attribute>, n: int, j: int, with_first: bool) -> bool {
    &&& 0 <= j < n
    &&& counts(attrs, j, with_first)
    &&& forall|k: int| 0 <= k < n && counts(attrs, k, with_first) ==> attrs[j].start.line <= attrs[k].start.line
    &&& forall|k: int| 0 <= k < j && counts(attrs, k, with_first) ==> attrs[j].start.line < attrs[k].start.line
}

/// Among the attributes of `[0, n)` that count, `j` is the first of those
/// that end on the largest line.
pub open spec fn first_max_end(attrs: Seq<Attribute>, n: int, j: int, with_first: bool) -> bool {
    &&& 0 <= j < n
    &&& counts(attrs, j, with_first)
    &&& forall|k: int| 0 <= k < n && counts(attrs, k, with_first) ==> attrs[k].end.line <= attrs[j].end.line
    &&& forall|k: int| 0 <= k < j && counts(attrs, k, with_first) ==> attrs[k].end.line < attrs[j].end.line
}

pub open spec fn to_line_span(p: LineColumn) -> LineSpan {
    LineSpan { line: p.line, character: p.column }
}

/// The range from the start of the first attribute that counts and starts
/// on the smallest line, to the end of the first one that ends on the
/// largest line; none when no attribute counts.
pub open spec fn comment_range_spec(attrs: Seq<Attribute>, with_first: bool, r: Option<SymbolSpan>) -> bool {
    let n = attrs.len() as int;
    if exists|k: int| 0 <= k < n && #[trigger] counts(attrs, k, with_first) {
        r matches Some(span) && (exists|j: int| #[trigger] first_min_start(attrs, n, j, with_first)
            && span.start == to_line_span(attrs[j].start)) && (exists|j: int| #[trigger] first_max_end(attrs, n, j, with_first)
            && span.end == to_line_span(attrs[j].end))
    } else {
        r is None
    }
}

/// Whether attribute `a` is a doc comment.
pub fn attr_is_doc(a: &Attribute) -> (r: bool)
    ensures
        r == is_doc(*a),
{
    proof {
        reveal_strlit("doc");
        assert("doc"@ =~= seq!['d', 'o', 'c']);
    }
    match &a.ident {
        Some(ident) => str_eq(ident.as_str(), "doc"),
        None => false,
    }
}

/// Scans the attributes for the range that the counting ones cover; the
/// first attribute counts when `with_first` holds.
pub fn scan_comment_range(attrs: &Vec<Attribute>, with_first: bool) -> (r: Option<SymbolSpan>)
    ensures
        comment_range_spec(attrs@, with_first, r),
{
    let n = attrs.len();
    let mut start: Option<LineColumn> = None;
    let mut end: Option<LineColumn> = None;
    let ghost mut js: int = 0;
    let ghost mut je: int = 0;
    let mut i: usize = 0;
    while i < n
        invariant
            n == attrs@.len(),
            i <= n,
            start is None <==> !exists|k: int| 0 <= k < i && #[trigger] counts(attrs@, k, with_first),
            end is None <==> start is None,
            start is Some ==> first_min_start(attrs@, i as int, js, with_first) && start->0 == attrs@[js].start,
            end is Some ==> first_max_end(attrs@, i as int, je, with_first) && end->0 == attrs@[je].end,
        decreases n - i,
    {
        let attr = &attrs[i];
        let counted = (with_first && i == 0) || attr_is_doc(attr);
        if counted {
            match start {
                Some(start_val) => {
                    if attr.start.line < start_val.line {
                        start = Some(attr.start);
                        proof { js = i as int; }
                    }
                },
                None => {
                    start = Some(attr.start);
                    proof { js = i as int; }
                },
            }
            match end {
                Some(end_val) => {
                    if attr.end.line > end_val.line {
                        end = Some(attr.end);
                        proof { je = i as int; }
                    }
                },
                None => {
                    end = Some(attr.end);
                    proof { je = i as int; }
                },
            }
        }
        proof {
            assert(counts(attrs@, i as int, with_first) == counted);
        }
        i = i + 1;
    }
    match (start, end) {
        (Some(s), Some(e)) => {
            let r = Some(
                SymbolSpan {
                    start: LineSpan { line: s.line, character: s.column },
                    end: LineSpan { line: e.line, character: e.column },
                },
            );
            proof {
                let k = choose|k: int| 0 <= k < n && #[trigger] counts(attrs@, k, with_first);
                assert(first_min_start(attrs@, n as int, js, with_first));
                assert(first_max_end(attrs@, n as int, je, with_first));
            }
            r
        },
        _ => None,
    }
}

/// Gets the range of a comment, and returns none if there is no comment in
/// the attributes: from the start of the first doc attribute that starts on
/// the smallest line to the end of the first one that ends on the largest.
pub fn get_comment_range(attrs: &Vec<Attribute>) -> (r: Option<SymbolSpan>)
    ensures
        comment_range_spec(attrs@, false, r),
{
    if attrs.len() <= 0 {
        return None;
    }
    scan_comment_range(attrs, false)
}

} // verus!
