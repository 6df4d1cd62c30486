//! Pairs each comment of a JavaScript or TypeScript source with the symbols
//! that start on the line right below it.
use vstd::prelude::*;
use crate::parsers::types::SymbolSpan;
use crate::parsers::javascript::comment_parser::{docstrings, inlines, law_docstrings_ordered, law_inlines_lines, parse_comments};

verus! {

/// A parser for JavaScript (`ts` false) or TypeScript (`ts` true) sources.
#[derive(Debug, Clone, Copy, PartialEq, Eq, Structural)]
pub struct JsParser {
    pub ts: bool,
}

/// A symbol belongs to a comment when it starts on the line after the one
/// where the comment ends.
pub open spec fn belongs_to(comment: SymbolSpan, symbol: SymbolSpan) -> bool {
    symbol.start.line - 1 == comment.end.line
}

/// The pairs of `comment` with each symbol that belongs to it, in the order
/// of `symbols`.
pub open spec fn pairs_for(comment: SymbolSpan, symbols: Seq<SymbolSpan>) -> Seq<(SymbolSpan, SymbolSpan)>
    decreases symbols.len(),
{
    if symbols.len() == 0 {
        Seq::empty()
    } else {
        pairs_for(comment, symbols.drop_last()) + if belongs_to(comment, symbols.last()) {
            seq![(comment, symbols.last())]
        } else {
            Seq::empty()
        }
    }
}

/// For each comment in turn, its pairs.
pub open spec fn pairs_all(comments: Seq<SymbolSpan>, symbols: Seq<SymbolSpan>) -> Seq<(SymbolSpan, SymbolSpan)>
    decreases comments.len(),
{
    if comments.len() == 0 {
        Seq::empty()
    } else {
        pairs_all(comments.drop_last(), symbols) + pairs_for(comments.last(), symbols)
    }
}

pub open spec fn all_start_on_a_line(symbols: Seq<SymbolSpan>) -> bool {
    forall|i: int| 0 <= i < symbols.len() ==> symbols[i].start.line >= 1
}

/// Each pair is made of one of the comments and one of the symbols, and the
/// symbol starts on the line right below the end of the comment.
pub proof fn lemma_pairs_for(comment: SymbolSpan, symbols: Seq<SymbolSpan>)
    ensures
        forall|k: int| 0 <= k < pairs_for(comment, symbols).len() ==> {
            let (c, s) = #[trigger] pairs_for(comment, symbols)[k];
            &&& c == comment
            &&& symbols.contains(s)
            &&& belongs_to(c, s)
        },
    decreases symbols.len(),
{
    if symbols.len() > 0 {
        lemma_pairs_for(comment, symbols.drop_last());
        let p = pairs_for(comment, symbols);
        let q = pairs_for(comment, symbols.drop_last());
        assert forall|k: int| 0 <= k < p.len() implies {
            let (c, s) = #[trigger] p[k];
            &&& c == comment
            &&& symbols.contains(s)
            &&& belongs_to(c, s)
        } by {
            if k < q.len() {
                let s = q[k].1;
                let j = choose|j: int| 0 <= j < symbols.drop_last().len() && symbols.drop_last()[j] == s;
                assert(symbols[j] == s);
            } else {
                assert(symbols[symbols.len() - 1] == symbols.last());
            }
        }
    }
}

/// A comment is paired only with symbols below it: every pair joins one of
/// the comments to one of the symbols, one that starts on the line right
/// below the comment's last line.
pub proof fn law_pairs_below_comment(comments: Seq<SymbolSpan>, symbols: Seq<SymbolSpan>)
    ensures
        forall|k: int| 0 <= k < pairs_all(comments, symbols).len() ==> {
            let (c, s) = #[trigger] pairs_all(comments, symbols)[k];
            &&& comments.contains(c)
            &&& symbols.contains(s)
            &&& belongs_to(c, s)
        },
    decreases comments.len(),
{
    if comments.len() > 0 {
        law_pairs_below_comment(comments.drop_last(), symbols);
        lemma_pairs_for(comments.last(), symbols);
        let p = pairs_all(comments, symbols);
        let q = pairs_all(comments.drop_last(), symbols);
        let r = pairs_for(comments.last(), symbols);
        assert forall|k: int| 0 <= k < p.len() implies {
            let (c, s) = #[trigger] p[k];
            &&& comments.contains(c)
            &&& symbols.contains(s)
            &&& belongs_to(c, s)
        } by {
            if k < q.len() {
                assert(p[k] == q[k]);
                let c = q[k].0;
                let j = choose|j: int| 0 <= j < comments.drop_last().len() && comments.drop_last()[j] == c;
                assert(comments[j] == c);
            } else {
                assert(p[k] == r[k - q.len()]);
                assert(comments[comments.len() - 1] == comments.last());
            }
        }
    }
}

/// The comments of a text: its block comments, then its line comments.
pub open spec fn comments_of(t: Seq<char>) -> Seq<SymbolSpan> {
    docstrings(t, 0, t.len() as int) + inlines(t, 0, t.len() as int)
}

/// Locations come out with lines that count from 1: when the symbols' lines
/// do, so do the lines of every comment and symbol of every pair.
pub proof fn law_pairs_one_indexed(t: Seq<char>, symbols: Seq<SymbolSpan>)
    requires
        4 * t.len() < usize::MAX,
        forall|i: int| 0 <= i < symbols.len() ==> #[trigger] symbols[i].start.line >= 1 && symbols[i].end.line >= 1,
    ensures
        forall|k: int| 0 <= k < pairs_all(comments_of(t), symbols).len() ==> {
            let (c, s) = #[trigger] pairs_all(comments_of(t), symbols)[k];
            &&& c.start.line >= 1
            &&& c.end.line >= 1
            &&& s.start.line >= 1
            &&& s.end.line >= 1
        },
{
    let n = t.len() as int;
    let d = docstrings(t, 0, n);
    let l = inlines(t, 0, n);
    let cs = comments_of(t);
    law_docstrings_ordered(t, 0, n);
    law_inlines_lines(t, 0, n);
    law_pairs_below_comment(cs, symbols);
    assert forall|k: int| 0 <= k < pairs_all(cs, symbols).len() implies {
        let (c, s) = #[trigger] pairs_all(cs, symbols)[k];
        &&& c.start.line >= 1
        &&& c.end.line >= 1
        &&& s.start.line >= 1
        &&& s.end.line >= 1
    } by {
        let (c, s) = pairs_all(cs, symbols)[k];
        let i = choose|i: int| 0 <= i < cs.len() && cs[i] == c;
        let j = choose|j: int| 0 <= j < symbols.len() && symbols[j] == s;
        assert(symbols[j].start.line >= 1);
        if i < d.len() {
            assert(cs[i] == d[i]);
            assert(1 <= d[i].start.line <= d[i].end.line);
        } else {
            assert(cs[i] == l[i - d.len()]);
            assert(1 <= l[i - d.len()].start.line <= l[i - d.len()].end.line);
        }
    }
}

/// Pairs each comment with every symbol that starts on the next line.
pub fn match_symbols(comments: &Vec<SymbolSpan>, symbols: &Vec<SymbolSpan>) -> (matched: Vec<(SymbolSpan, SymbolSpan)>)
    requires
        all_start_on_a_line(symbols@),
    ensures
        matched@ == pairs_all(comments@, symbols@),
{
    let mut matched: Vec<(SymbolSpan, SymbolSpan)> = Vec::new();
    let mut i: usize = 0;
    while i < comments.len()
        invariant
            all_start_on_a_line(symbols@),
            i <= comments.len(),
            matched@ == pairs_all(comments@.take(i as int), symbols@),
        decreases comments.len() - i,
    {
        let comment = comments[i];
        let ghost before = matched@;
        let mut j: usize = 0;
        while j < symbols.len()
            invariant
                all_start_on_a_line(symbols@),
                i < comments.len(),
                comment == comments@[i as int],
                j <= symbols.len(),
                matched@ == before + pairs_for(comment, symbols@.take(j as int)),
            decreases symbols.len() - j,
        {
            let symbol = symbols[j];
            proof {
                assert(symbols@.take(j + 1).drop_last() =~= symbols@.take(j as int));
            }
            if symbol.start.line - 1 == comment.end.line {
                matched.push((comment, symbol));
            }
            proof {
                assert(matched@ =~= before + pairs_for(comment, symbols@.take(j + 1)));
            }
            j += 1;
        }
        proof {
            assert(symbols@.take(symbols.len() as int) =~= symbols@);
            assert(comments@.take(i + 1).drop_last() =~= comments@.take(i as int));
            assert(matched@ =~= pairs_all(comments@.take(i + 1), symbols@));
        }
        i += 1;
    }
    proof {
        assert(comments@.take(comments.len() as int) =~= comments@);
    }
    matched
}

impl JsParser {
    /// The comments of `text`, each paired with the symbols that start on
    /// the line right below it; `symbols` are the module's symbols.
    pub fn pair_comments(&self, text: &str, symbols: &Vec<SymbolSpan>) -> (matched: Vec<(SymbolSpan, SymbolSpan)>)
        requires
            4 * text@.len() < usize::MAX,
            all_start_on_a_line(symbols@),
        ensures
            matched@ == pairs_all(comments_of(text@), symbols@),
    {
        let comments = parse_comments(text);
        match_symbols(&comments, symbols)
    }
}

} // verus!
