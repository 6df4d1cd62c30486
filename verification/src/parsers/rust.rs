//! A scanner for the documented functions and `impl` blocks at the top
//! level of a Rust file.
use vstd::prelude::*;
use crate::parsers::types::{LineSpan, SymbolSpan};
use crate::parsers::rust::tools::{comment_range_spec, scan_comment_range, Attribute, LineColumn};

pub mod parser;
pub mod tools;
pub mod visitor;

verus! {

/// Pairs the comments of top-level functions and `impl` blocks with them.
#[derive(Debug, Clone, Copy, PartialEq, Eq, Structural)]
pub struct RsParser;

/// A function: its attributes, and where its body starts and ends.
#[derive(Debug, Clone)]
pub struct FnSyntax {
    pub attrs: Vec<Attribute>,
    pub block_start: LineColumn,
    pub block_end: LineColumn,
}

/// An `impl` block: its attributes, where it starts and ends, and its
/// methods in order.
#[derive(Debug, Clone)]
pub struct ImplSyntax {
    pub attrs: Vec<Attribute>,
    pub start: LineColumn,
    pub end: LineColumn,
    pub methods: Vec<FnSyntax>,
}

/// An item at the top level of a file.
#[derive(Debug, Clone)]
pub enum TopItem {
    Fn(FnSyntax),
    Impl(ImplSyntax),
    Other,
}

/// The path of the first attribute is a single identifier.
pub open spec fn first_is_ident(attrs: Seq<Attribute>) -> bool {
    attrs.len() > 0 ==> attrs[0].ident is Some
}

pub open spec fn fn_well_formed(f: FnSyntax) -> bool {
    first_is_ident(f.attrs@)
}

pub open spec fn impl_well_formed(i: ImplSyntax) -> bool {
    &&& first_is_ident(i.attrs@)
    &&& forall|k: int| 0 <= k < i.methods@.len() ==> #[trigger] fn_well_formed(i.methods@[k])
}

pub open spec fn item_well_formed(item: TopItem) -> bool {
    match item {
        TopItem::Fn(f) => fn_well_formed(f),
        TopItem::Impl(i) => impl_well_formed(i),
        TopItem::Other => true,
    }
}

pub open spec fn span_of(start: LineColumn, end: LineColumn) -> SymbolSpan {
    SymbolSpan {
        start: LineSpan { line: start.line, character: start.column },
        end: LineSpan { line: end.line, character: end.column },
    }
}

/// The comment of attributes that are not empty: from the first attribute
/// and the doc attributes, the first that starts on the smallest line and
/// the first that ends on the largest.
fn get_comment_range(attrs: &Vec<Attribute>) -> (r: Option<SymbolSpan>)
    requires
        first_is_ident(attrs@),
    ensures
        attrs@.len() == 0 ==> r is None,
        attrs@.len() > 0 ==> comment_range_spec(attrs@, true, r) && r is Some,
{
    if attrs.len() <= 0 {
        return None;
    }
    assert(crate::parsers::rust::tools::counts(attrs@, 0, true));
    scan_comment_range(attrs, true)
}

/// A function with attributes, and its body.
pub open spec fn fun_pair_ok(f: FnSyntax, r: Option<(SymbolSpan, SymbolSpan)>) -> bool {
    if f.attrs@.len() == 0 {
        r is None
    } else {
        r matches Some((comment, function)) && comment_range_spec(f.attrs@, true, Some(comment))
            && function == span_of(f.block_start, f.block_end)
    }
}

fn parse_fun(expr: &FnSyntax) -> (r: Option<(SymbolSpan, SymbolSpan)>)
    requires
        fn_well_formed(*expr),
    ensures
        fun_pair_ok(*expr, r),
{
    if expr.attrs.len() <= 0 {
        return None;
    }
    let comment = match get_comment_range(&expr.attrs) {
        Some(comment) => comment,
        None => {
            return None;
        },
    };
    let function = SymbolSpan {
        start: LineSpan { line: expr.block_start.line, character: expr.block_start.column },
        end: LineSpan { line: expr.block_end.line, character: expr.block_end.column },
    };
    Some((comment, function))
}

/// The pairs of the methods `[0, n)`: each method with attributes, with its
/// body.
pub open spec fn methods_pairs_ok(methods: Seq<FnSyntax>, pairs: Seq<(SymbolSpan, SymbolSpan)>) -> bool
    decreases methods.len(),
{
    if methods.len() == 0 {
        pairs.len() == 0
    } else {
        let last = methods.last();
        if last.attrs@.len() == 0 {
            methods_pairs_ok(methods.drop_last(), pairs)
        } else {
            pairs.len() > 0 && fun_pair_ok(last, Some(pairs.last())) && methods_pairs_ok(
                methods.drop_last(),
                pairs.drop_last(),
            )
        }
    }
}

/// The pairs of an `impl` block: the block itself with its comment, when it
/// has attributes, then those of its methods.
pub open spec fn impl_pairs_ok(i: ImplSyntax, pairs: Seq<(SymbolSpan, SymbolSpan)>) -> bool {
    if i.attrs@.len() == 0 {
        methods_pairs_ok(i.methods@, pairs)
    } else {
        &&& pairs.len() > 0
        &&& comment_range_spec(i.attrs@, true, Some(pairs[0].0))
        &&& pairs[0].1 == span_of(i.start, i.end)
        &&& methods_pairs_ok(i.methods@, pairs.drop_first())
    }
}

fn parse_impl(expr: &ImplSyntax) -> (vec: Vec<(SymbolSpan, SymbolSpan)>)
    requires
        impl_well_formed(*expr),
    ensures
        impl_pairs_ok(*expr, vec@),
{
    let mut vec: Vec<(SymbolSpan, SymbolSpan)> = Vec::new();
    if expr.attrs.len() > 0 {
        match get_comment_range(&expr.attrs) {
            Some(comment) => {
                let function = SymbolSpan {
                    start: LineSpan { line: expr.start.line, character: expr.start.column },
                    end: LineSpan { line: expr.end.line, character: expr.end.column },
                };
                vec.push((comment, function));
            },
            None => {},
        }
    }
    let ghost head = vec@;
    let mut i: usize = 0;
    while i < expr.methods.len()
        invariant
            impl_well_formed(*expr),
            i <= expr.methods@.len(),
            head.len() <= vec@.len(),
            vec@.take(head.len() as int) == head,
            methods_pairs_ok(expr.methods@.take(i as int), vec@.skip(head.len() as int)),
        decreases expr.methods@.len() - i,
    {
        let method = &expr.methods[i];
        proof {
            assert(fn_well_formed(expr.methods@[i as int]));
            assert(expr.methods@.take(i + 1).drop_last() =~= expr.methods@.take(i as int));
            assert(expr.methods@.take(i + 1).last() == expr.methods@[i as int]);
        }
        let ghost before = vec@;
        match parse_fun(method) {
            Some(symbol) => {
                vec.push(symbol);
                proof {
                    assert(vec@.skip(head.len() as int).drop_last() =~= before.skip(head.len() as int));
                    assert(vec@.take(head.len() as int) =~= before.take(head.len() as int));
                }
            },
            None => {},
        }
        i = i + 1;
    }
    proof {
        assert(expr.methods@.take(expr.methods@.len() as int) =~= expr.methods@);
        if head.len() > 0 {
            assert(vec@.drop_first() =~= vec@.skip(1));
            assert(vec@[0] == head[0]);
        } else {
            assert(vec@.skip(0) =~= vec@);
        }
    }
    vec
}

/// The pairs of the items `[0, n)`, in order.
pub open spec fn items_pairs_ok(items: Seq<TopItem>, pairs: Seq<(SymbolSpan, SymbolSpan)>) -> bool
    decreases items.len(),
{
    if items.len() == 0 {
        pairs.len() == 0
    } else {
        exists|k: int| 0 <= k <= pairs.len() && items_pairs_ok(items.drop_last(), pairs.take(k)) && match items.last() {
            TopItem::Fn(f) => if f.attrs@.len() == 0 {
                k == pairs.len()
            } else {
                k + 1 == pairs.len() && fun_pair_ok(f, Some(pairs.last()))
            },
            TopItem::Impl(i) => impl_pairs_ok(i, pairs.skip(k)),
            TopItem::Other => k == pairs.len(),
        }
    }
}

impl RsParser {
    /// The documented functions and `impl` blocks (and methods) among the
    /// items of a file, with their comments, in order.
    pub fn parse_items(&self, items: &Vec<TopItem>) -> (vec: Vec<(SymbolSpan, SymbolSpan)>)
        requires
            forall|k: int| 0 <= k < items@.len() ==> #[trigger] item_well_formed(items@[k]),
        ensures
            items_pairs_ok(items@, vec@),
    {
        let mut vec: Vec<(SymbolSpan, SymbolSpan)> = Vec::new();
        let mut i: usize = 0;
        while i < items.len()
            invariant
                forall|k: int| 0 <= k < items@.len() ==> #[trigger] item_well_formed(items@[k]),
                i <= items@.len(),
                items_pairs_ok(items@.take(i as int), vec@),
            decreases items@.len() - i,
        {
            let item = &items[i];
            let ghost before = vec@;
            proof {
                assert(item_well_formed(items@[i as int]));
                assert(items@.take(i + 1).drop_last() =~= items@.take(i as int));
                assert(items@.take(i + 1).last() == items@[i as int]);
            }
            match item {
                TopItem::Fn(expr) => {
                    match parse_fun(expr) {
                        Some(symbol) => {
                            vec.push(symbol);
                        },
                        None => {},
                    }
                },
                TopItem::Impl(expr) => {
                    let mut symbols = parse_impl(expr);
                    let ghost added = symbols@;
                    vec.append(&mut symbols);
                    proof {
                        assert(vec@.skip(before.len() as int) =~= added);
                    }
                },
                TopItem::Other => {},
            }
            proof {
                assert(vec@.take(before.len() as int) =~= before);
                assert(items_pairs_ok(items@.take(i + 1), vec@));
            }
            i = i + 1;
        }
        proof {
            assert(items@.take(items@.len() as int) =~= items@);
        }
        vec
    }
}

/// One of the pairs runs from the comment of `attrs` to `code`.
pub open spec fn paired_with(pairs: Seq<(SymbolSpan, SymbolSpan)>, code: SymbolSpan, attrs: Seq<Attribute>) -> bool {
    exists|q: int| 0 <= q < pairs.len() && #[trigger] pairs[q].1 == code && comment_range_spec(attrs, true, Some(pairs[q].0))
}

/// Each method with attributes is paired with its body.
pub open spec fn methods_paired(methods: Seq<FnSyntax>, pairs: Seq<(SymbolSpan, SymbolSpan)>) -> bool {
    forall|b: int| 0 <= b < methods.len() && #[trigger] methods[b].attrs@.len() > 0
        ==> paired_with(pairs, span_of(methods[b].block_start, methods[b].block_end), methods[b].attrs@)
}

/// A documented item is paired with its code: a function with its body, an
/// `impl` block with its extent, and each documented method of an `impl`
/// block with its body.
pub open spec fn item_paired(item: TopItem, pairs: Seq<(SymbolSpan, SymbolSpan)>) -> bool {
    match item {
        TopItem::Fn(f) => f.attrs@.len() > 0 ==> paired_with(pairs, span_of(f.block_start, f.block_end), f.attrs@),
        TopItem::Impl(i) => {
            &&& i.attrs@.len() > 0 ==> paired_with(pairs, span_of(i.start, i.end), i.attrs@)
            &&& methods_paired(i.methods@, pairs)
        },
        TopItem::Other => true,
    }
}

/// What is paired in a run of the pairs is paired in all of them.
proof fn lemma_paired_window(pairs: Seq<(SymbolSpan, SymbolSpan)>, off: int, sub: Seq<(SymbolSpan, SymbolSpan)>)
    requires
        0 <= off,
        off + sub.len() <= pairs.len(),
        forall|q: int| 0 <= q < sub.len() ==> #[trigger] sub[q] == pairs[off + q],
    ensures
        forall|code: SymbolSpan, attrs: Seq<Attribute>| #[trigger] paired_with(sub, code, attrs) ==> paired_with(pairs, code, attrs),
{
    assert forall|code: SymbolSpan, attrs: Seq<Attribute>| #[trigger] paired_with(sub, code, attrs) implies paired_with(pairs, code, attrs) by {
        let q = choose|q: int| 0 <= q < sub.len() && #[trigger] sub[q].1 == code && comment_range_spec(attrs, true, Some(sub[q].0));
        assert(pairs[off + q] == sub[q]);
    }
}

proof fn lemma_methods_paired(methods: Seq<FnSyntax>, pairs: Seq<(SymbolSpan, SymbolSpan)>)
    requires
        methods_pairs_ok(methods, pairs),
    ensures
        methods_paired(methods, pairs),
    decreases methods.len(),
{
    if methods.len() > 0 {
        let last = methods.last();
        let init = methods.drop_last();
        if last.attrs@.len() == 0 {
            lemma_methods_paired(init, pairs);
            assert forall|b: int| 0 <= b < methods.len() && #[trigger] methods[b].attrs@.len() > 0 implies paired_with(
                pairs, span_of(methods[b].block_start, methods[b].block_end), methods[b].attrs@) by {
                assert(methods[b] == init[b]);
                assert(init[b].attrs@.len() > 0);
            }
        } else {
            let rest = pairs.drop_last();
            lemma_methods_paired(init, rest);
            lemma_paired_window(pairs, 0, rest);
            assert forall|b: int| 0 <= b < methods.len() && #[trigger] methods[b].attrs@.len() > 0 implies paired_with(
                pairs, span_of(methods[b].block_start, methods[b].block_end), methods[b].attrs@) by {
                if b == methods.len() - 1 {
                    let q = pairs.len() - 1;
                    assert(pairs[q] == pairs.last());
                } else {
                    assert(methods[b] == init[b]);
                    assert(init[b].attrs@.len() > 0);
                    assert(paired_with(rest, span_of(init[b].block_start, init[b].block_end), init[b].attrs@));
                }
            }
        }
    }
}

/// Every documented item is paired with its code, whatever the items around
/// it: a function with attributes with its body; an `impl` block with
/// attributes with its whole extent; and each method with attributes of any
/// `impl` block, with or without attributes of its own, with its body. Each
/// pair's comment is the range of that item's comment.
pub proof fn law_documented_items_paired(items: Seq<TopItem>, pairs: Seq<(SymbolSpan, SymbolSpan)>)
    requires
        items_pairs_ok(items, pairs),
    ensures
        forall|a: int| 0 <= a < items.len() ==> item_paired(#[trigger] items[a], pairs),
    decreases items.len(),
{
    if items.len() > 0 {
        let init = items.drop_last();
        let k = choose|k: int| 0 <= k <= pairs.len() && items_pairs_ok(init, pairs.take(k)) && match items.last() {
            TopItem::Fn(f) => if f.attrs@.len() == 0 {
                k == pairs.len()
            } else {
                k + 1 == pairs.len() && fun_pair_ok(f, Some(pairs.last()))
            },
            TopItem::Impl(i) => impl_pairs_ok(i, pairs.skip(k)),
            TopItem::Other => k == pairs.len(),
        };
        let head = pairs.take(k);
        let tail = pairs.skip(k);
        law_documented_items_paired(init, head);
        lemma_paired_window(pairs, 0, head);
        lemma_paired_window(pairs, k, tail);
        let n = items.len() - 1;
        match items.last() {
            TopItem::Impl(i) => {
                if i.attrs@.len() == 0 {
                    lemma_methods_paired(i.methods@, tail);
                } else {
                    lemma_methods_paired(i.methods@, tail.drop_first());
                    lemma_paired_window(pairs, k + 1, tail.drop_first());
                    assert(pairs[k] == tail[0]);
                }
            },
            TopItem::Fn(f) => {
                if f.attrs@.len() > 0 {
                    assert(pairs[pairs.len() - 1] == pairs.last());
                }
            },
            TopItem::Other => {},
        }
        assert forall|a: int| 0 <= a < items.len() implies item_paired(#[trigger] items[a], pairs) by {
            if a < n {
                assert(items[a] == init[a]);
                assert(item_paired(init[a], head));
                match items[a] {
                    TopItem::Impl(i) => {
                        assert forall|b: int| 0 <= b < i.methods@.len() && #[trigger] i.methods@[b].attrs@.len() > 0
                            implies paired_with(pairs, span_of(i.methods@[b].block_start, i.methods@[b].block_end), i.methods@[b].attrs@) by {
                            assert(paired_with(head, span_of(i.methods@[b].block_start, i.methods@[b].block_end), i.methods@[b].attrs@));
                        }
                    },
                    _ => {},
                }
            } else {
                assert(items[a] == items.last());
                match items[a] {
                    TopItem::Impl(i) => {
                        assert forall|b: int| 0 <= b < i.methods@.len() && #[trigger] i.methods@[b].attrs@.len() > 0
                            implies paired_with(pairs, span_of(i.methods@[b].block_start, i.methods@[b].block_end), i.methods@[b].attrs@) by {
                            if i.attrs@.len() == 0 {
                                assert(paired_with(tail, span_of(i.methods@[b].block_start, i.methods@[b].block_end), i.methods@[b].attrs@));
                            } else {
                                assert(paired_with(tail.drop_first(), span_of(i.methods@[b].block_start, i.methods@[b].block_end), i.methods@[b].attrs@));
                            }
                        }
                    },
                    _ => {},
                }
            }
        }
    }
}

} // verus!
