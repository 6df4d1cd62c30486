//! Turns the offsets of the declarations, expressions and class members of a
//! JavaScript module into line spans.
use vstd::prelude::*;
use crate::parsers::types::{LineSpan, SymbolSpan};

verus! {

/// Number of characters between the last `'\n'` before index `i` (or the
/// start of the text) and index `i`.
pub open spec fn chars_since_newline(t: Seq<char>, i: int) -> nat
    decreases i,
{
    if i <= 0 {
        0
    } else if t[i - 1] == '\n' {
        0
    } else {
        chars_since_newline(t, i - 1) + 1
    }
}

/// Number of `'\n'` among the first `i` characters of `t`.
pub open spec fn newlines_before(t: Seq<char>, i: int) -> nat
    decreases i,
{
    if i <= 0 {
        0
    } else if t[i - 1] == '\n' {
        newlines_before(t, i - 1) + 1
    } else {
        newlines_before(t, i - 1)
    }
}

/// The place of character `offset` of `t`, or of the end of `t` where the
/// offset lies past it. Lines count from 1 when `start` is set and from 0
/// otherwise; characters count from 0.
pub open spec fn line_span_spec(t: Seq<char>, offset: int, start: bool) -> LineSpan {
    let k = if offset < t.len() { offset } else { t.len() as int };
    LineSpan {
        line: (newlines_before(t, k) + if start { 1int } else { 0int }) as usize,
        character: chars_since_newline(t, k) as usize,
    }
}

/// The span of a symbol from offset `start` to offset `end`, its lines
/// counted from 1.
pub open spec fn symbol_span_spec(t: Seq<char>, start: u32, end: u32) -> SymbolSpan {
    SymbolSpan {
        start: line_span_spec(t, start as int, true),
        end: line_span_spec(t, end as int, true),
    }
}

proof fn lemma_newlines_mono(t: Seq<char>, a: int, b: int)
    requires
        a <= b,
    ensures
        newlines_before(t, a) <= newlines_before(t, b),
    decreases b - a,
{
    if a < b {
        lemma_newlines_mono(t, a, b - 1);
    }
}

proof fn lemma_counts_bound(t: Seq<char>, i: int)
    requires
        0 <= i,
    ensures
        newlines_before(t, i) <= i,
        chars_since_newline(t, i) <= i,
    decreases i,
{
    if i > 0 {
        lemma_counts_bound(t, i - 1);
    }
}

/// Collects the spans of the symbols of a module, as lines of its text.
pub struct JsVisitor<'a> {
    pub symbols: Vec<SymbolSpan>,
    pub text: &'a str,
}

impl<'a> JsVisitor<'a> {
    pub fn new(text: &'a str) -> (v: Self)
        ensures
            v.symbols@ == Seq::<SymbolSpan>::empty(),
            v.text == text,
    {
        JsVisitor { symbols: Vec::new(), text: text }
    }

    /// Records the symbol that runs from offset `lo` to offset `hi`.
    pub fn record(&mut self, lo: u32, hi: u32)
        requires
            old(self).text@.len() < usize::MAX,
        ensures
            final(self).text == old(self).text,
            final(self).symbols@ == old(self).symbols@.push(
                symbol_span_spec(old(self).text@, lo, hi),
            ),
    {
        let symbol = to_symbol_span(self.text, lo, hi);
        self.symbols.push(symbol);
    }
}

/// The lines and characters where a symbol from offset `start` to offset
/// `end` begins and ends; lines count from 1, and a symbol never ends on a
/// line before the one it starts on.
pub fn to_symbol_span(text: &str, start: u32, end: u32) -> (r: SymbolSpan)
    requires
        text@.len() < usize::MAX,
    ensures
        r == symbol_span_spec(text@, start, end),
        r.start.line >= 1,
        r.end.line >= 1,
        start <= end ==> r.start.line <= r.end.line,
{
    proof {
        let t = text@;
        let a = if start < t.len() { start as int } else { t.len() as int };
        let b = if end < t.len() { end as int } else { t.len() as int };
        lemma_counts_bound(t, a);
        lemma_counts_bound(t, b);
        if start <= end {
            lemma_newlines_mono(t, a, b);
        }
    }
    SymbolSpan {
        start: to_line_span(text, start as usize, true),
        end: to_line_span(text, end as usize, true),
    }
}

/// The line and character of character `offset` of `text`.
pub fn to_line_span(text: &str, offset: usize, start: bool) -> (r: LineSpan)
    requires
        text@.len() < usize::MAX,
    ensures
        r == line_span_spec(text@, offset as int, start),
{
    let n = text.unicode_len();
    let mut char_idx: usize = 0;
    let mut line_idx: usize = 0;
    if start == true {
        line_idx += 1;
    }
    let ghost base: int = if start { 1 } else { 0 };
    let mut idx: usize = 0;
    while idx < n
        invariant
            n == text@.len(),
            n < usize::MAX,
            idx <= n,
            idx <= offset || offset >= n,
            line_idx == newlines_before(text@, idx as int) + base,
            char_idx == chars_since_newline(text@, idx as int),
            base == if start { 1int } else { 0int },
        decreases n - idx,
    {
        proof { lemma_counts_bound(text@, idx as int); }
        if idx == offset {
            return LineSpan { character: char_idx, line: line_idx };
        }
        let c = text.get_char(idx);
        char_idx += 1;
        if c == '\n' {
            char_idx = 0;
            line_idx += 1;
        }
        idx += 1;
    }
    LineSpan { character: char_idx, line: line_idx }
}

} // verus!
