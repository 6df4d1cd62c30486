//! Collects each documented item of a Rust file with its doc comment.
use vstd::prelude::*;
use crate::parsers::types::{LineSpan, SymbolSpan};
use crate::parsers::rust::tools::{comment_range_spec, get_comment_range, ItemSyntax};

verus! {

/// Keeps track of all the code + comment pairs.
pub struct RsVisitor {
    pub symbols: Vec<(SymbolSpan, SymbolSpan)>,
}

/// The lines of an item's attributes fit below `usize::MAX`.
pub open spec fn attr_lines_fit(node: ItemSyntax) -> bool {
    node.attrs matches Some(attrs) ==> forall|k: int| 0 <= k < attrs@.len() ==> #[trigger] attrs@[k].end.line < usize::MAX
}

/// What visiting `node` adds: nothing when it has no doc comment; else the
/// comment, with the code from the line after the comment to the end of the
/// item.
pub open spec fn item_pair(node: ItemSyntax, comment: Option<SymbolSpan>) -> Seq<(SymbolSpan, SymbolSpan)> {
    match comment {
        Some(c) => seq![(c, SymbolSpan {
            start: LineSpan { line: (c.end.line + 1) as usize, character: node.start.column },
            end: LineSpan { line: node.end.line, character: node.end.column },
        })],
        None => Seq::empty(),
    }
}

/// The code of a documented item starts on the line right below its doc
/// comment, in the item's first column, and ends where the item ends.
pub proof fn law_item_below_comment(node: ItemSyntax, c: SymbolSpan)
    requires
        c.end.line < usize::MAX,
    ensures
        item_pair(node, Some(c)).len() == 1,
        item_pair(node, Some(c))[0].0 == c,
        item_pair(node, Some(c))[0].1.start.line == c.end.line + 1,
        item_pair(node, Some(c))[0].1.start.character == node.start.column,
        item_pair(node, Some(c))[0].1.end == (LineSpan { line: node.end.line, character: node.end.column }),
{
}

impl RsVisitor {
    pub fn new() -> (v: Self)
        ensures
            v.symbols@ == Seq::<(SymbolSpan, SymbolSpan)>::empty(),
    {
        RsVisitor { symbols: Vec::new() }
    }

    fn record(&mut self, node: &ItemSyntax)
        requires
            attr_lines_fit(*node),
        ensures
            node.attrs is None ==> final(self).symbols@ == old(self).symbols@,
            node.attrs matches Some(attrs) ==> exists|c: Option<SymbolSpan>| comment_range_spec(attrs@, false, c)
                && final(self).symbols@ == old(self).symbols@ + item_pair(*node, c),
    {
        let attrs = match &node.attrs {
            Some(attrs) => attrs,
            None => {
                return;
            },
        };
        let comment = match get_comment_range(attrs) {
            Some(comment) => comment,
            None => {
                assert(old(self).symbols@ + item_pair(*node, None) =~= old(self).symbols@);
                return;
            },
        };
        proof {
            let j = choose|j: int| #[trigger] crate::parsers::rust::tools::first_max_end(attrs@, attrs@.len() as int, j, false)
                && comment.end == crate::parsers::rust::tools::to_line_span(attrs@[j].end);
            assert(attrs@[j].end.line < usize::MAX);
        }
        let function = SymbolSpan {
            start: LineSpan { line: comment.end.line + 1, character: node.start.column },
            end: LineSpan { line: node.end.line, character: node.end.column },
        };
        self.symbols.push((comment, function));
        assert(self.symbols@ =~= old(self).symbols@ + item_pair(*node, Some(comment)));
    }

    /// Records an item of a file or module that has a doc comment.
    pub fn visit_item(&mut self, node: &ItemSyntax)
        requires
            attr_lines_fit(*node),
        ensures
            node.attrs is None ==> final(self).symbols@ == old(self).symbols@,
            node.attrs matches Some(attrs) ==> exists|c: Option<SymbolSpan>| comment_range_spec(attrs@, false, c)
                && final(self).symbols@ == old(self).symbols@ + item_pair(*node, c),
    {
        self.record(node)
    }

    /// Records an item of an `impl` that has a doc comment.
    pub fn visit_impl_item(&mut self, node: &ItemSyntax)
        requires
            attr_lines_fit(*node),
        ensures
            node.attrs is None ==> final(self).symbols@ == old(self).symbols@,
            node.attrs matches Some(attrs) ==> exists|c: Option<SymbolSpan>| comment_range_spec(attrs@, false, c)
                && final(self).symbols@ == old(self).symbols@ + item_pair(*node, c),
    {
        self.record(node)
    }
}

} // verus!
