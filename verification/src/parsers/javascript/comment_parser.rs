//! Finds the block (`/* ... */`) and line (`// ...`) comments of a
//! JavaScript or TypeScript source text.
use vstd::prelude::*;
use crate::parsers::types::{LineSpan, SymbolSpan};
use crate::scan::{
    find, multispace0, multispace_end, multispace_pred, position, skip_past, tag, tag_at, take_until, PResult, lemma_find_some, lemma_run_end,
};
use crate::span::{column_at, line_at, lemma_position_order, lemma_count_newlines_bound, lemma_count_newlines_mono, lemma_bytes_since_newline_bound, LocatedSpan};

verus! {

/// A window into a source text.
pub type TextSpan<'a> = LocatedSpan<'a>;

/// The line and byte column of character index `i` of `t`.
pub open spec fn line_span_at(t: Seq<char>, i: int) -> LineSpan {
    LineSpan { line: line_at(t, i) as usize, character: column_at(t, i) as usize }
}

/// The comment that runs from index `a` to index `e` of `t`.
pub open spec fn comment_symbol(t: Seq<char>, a: int, e: int) -> SymbolSpan {
    SymbolSpan { start: line_span_at(t, a), end: line_span_at(t, e) }
}

/// Just past the first `/*` at or after `i`.
pub open spec fn start_spec(t: Seq<char>, i: int, hi: int) -> Option<int> {
    match find(t, i, hi, seq!['/', '*']) {
        Some(k) => Some(k + 2),
        None => None,
    }
}

/// The first `*/` at or after `i`.
pub open spec fn body_spec(t: Seq<char>, i: int, hi: int) -> Option<int> {
    find(t, i, hi, seq!['*', '/'])
}

/// The first block comment at or after `i`: just past its `/*`, and just
/// past its `*/`.
pub open spec fn docstring_at(t: Seq<char>, i: int, hi: int) -> Option<(int, int)> {
    match start_spec(t, i, hi) {
        Some(a) => match body_spec(t, a, hi) {
            Some(b) => Some((a, b + 2)),
            None => None,
        },
        None => None,
    }
}

/// All block comments from `i` on, in order.
pub open spec fn docstrings(t: Seq<char>, i: int, hi: int) -> Seq<SymbolSpan>
    decreases hi - i,
{
    match docstring_at(t, i, hi) {
        Some((a, e)) => if i < e <= hi {
            seq![comment_symbol(t, a, e)] + docstrings(t, e, hi)
        } else {
            Seq::empty()
        },
        None => Seq::empty(),
    }
}

/// Just past the first `//` at or after `i`.
pub open spec fn inline_start_spec(t: Seq<char>, i: int, hi: int) -> Option<int> {
    match find(t, i, hi, seq!['/', '/']) {
        Some(k) => Some(k + 2),
        None => None,
    }
}

/// The next line of a `//` comment: after the end of the current line and
/// any blank space, a `//`; just past it.
pub open spec fn body_line_spec(t: Seq<char>, i: int, hi: int) -> Option<int> {
    match find(t, i, hi, seq!['\n']) {
        Some(k) => {
            let m = multispace_end(t, k + 1, hi);
            if tag_at(t, m, hi, seq!['/', '/']) {
                Some(m + 2)
            } else {
                None
            }
        },
        None => None,
    }
}

/// Where a run of `//` lines that goes on from `i` stops.
pub open spec fn inline_end_spec(t: Seq<char>, i: int, hi: int) -> int
    decreases hi - i,
{
    match body_line_spec(t, i, hi) {
        Some(p) => if i < p <= hi {
            inline_end_spec(t, p, hi)
        } else {
            i
        },
        None => i,
    }
}

/// The first line comment at or after `i`: just past its first `//`, and
/// just past the `//` of its last line.
pub open spec fn inline_at(t: Seq<char>, i: int, hi: int) -> Option<(int, int)> {
    match inline_start_spec(t, i, hi) {
        Some(a) => Some((a, inline_end_spec(t, a, hi))),
        None => None,
    }
}

/// The line comments found from `[i, hi)` on. Each one leaves an empty
/// span behind it, where the search goes on.
pub open spec fn inlines(t: Seq<char>, i: int, hi: int) -> Seq<SymbolSpan>
    decreases hi - i,
{
    match inline_at(t, i, hi) {
        Some((a, e)) => if i < hi && i <= e <= hi {
            seq![comment_symbol(t, a, e)] + inlines(t, e, e)
        } else {
            Seq::empty()
        },
        None => Seq::empty(),
    }
}

pub proof fn lemma_docstring_at(t: Seq<char>, i: int, hi: int)
    requires
        docstring_at(t, i, hi) is Some,
    ensures
        ({
            let (a, e) = docstring_at(t, i, hi)->0;
            &&& i + 2 <= a
            &&& a + 2 <= e <= hi <= t.len()
        }),
{
    let k = find(t, i, hi, seq!['/', '*'])->0;
    lemma_find_some(t, i, hi, seq!['/', '*']);
    lemma_find_some(t, k + 2, hi, seq!['*', '/']);
}

pub proof fn lemma_body_line(t: Seq<char>, i: int, hi: int)
    requires
        body_line_spec(t, i, hi) is Some,
    ensures
        i < body_line_spec(t, i, hi)->0 <= hi,
{
    let k = find(t, i, hi, seq!['\n'])->0;
    lemma_find_some(t, i, hi, seq!['\n']);
    lemma_run_end(t, k + 1, hi, multispace_pred());
}

pub proof fn lemma_inline_end(t: Seq<char>, i: int, hi: int)
    requires
        0 <= i <= hi,
    ensures
        i <= inline_end_spec(t, i, hi) <= hi,
    decreases hi - i,
{
    match body_line_spec(t, i, hi) {
        Some(p) => if i < p <= hi {
            lemma_inline_end(t, p, hi);
        },
        None => {},
    }
}

proof fn lemma_line_span_fits(t: Seq<char>, i: int)
    requires
        0 <= i <= t.len(),
        4 * t.len() < usize::MAX,
    ensures
        line_at(t, i) < usize::MAX,
        column_at(t, i) < usize::MAX,
{
    lemma_count_newlines_bound(t, i);
    lemma_bytes_since_newline_bound(t, i);
}

/// A comment found from `[a, e)` starts on a line no later than the one it
/// ends on, and both lines count from 1.
pub proof fn lemma_comment_symbol(t: Seq<char>, a: int, e: int)
    requires
        0 <= a <= e <= t.len(),
        4 * t.len() < usize::MAX,
    ensures
        comment_symbol(t, a, e).start.line == line_at(t, a),
        comment_symbol(t, a, e).end.line == line_at(t, e),
        1 <= comment_symbol(t, a, e).start.line <= comment_symbol(t, a, e).end.line,
{
    lemma_line_span_fits(t, a);
    lemma_line_span_fits(t, e);
    lemma_count_newlines_mono(t, a, e);
}

/// Block comments are reported with lines that count from 1, each starting
/// no later than it ends, in the order they appear: each one ends before the
/// next one starts, on an earlier line or earlier on the same line.
pub proof fn law_docstrings_ordered(t: Seq<char>, i: int, hi: int)
    requires
        0 <= i <= hi <= t.len(),
        4 * t.len() < usize::MAX,
    ensures
        ({
            let s = docstrings(t, i, hi);
            &&& forall|k: int| 0 <= k < s.len() ==> line_at(t, i) <= #[trigger] s[k].start.line
            &&& forall|k: int| 0 <= k < s.len() ==> 1 <= #[trigger] s[k].start.line <= s[k].end.line
            &&& forall|k: int| 0 <= k < s.len() - 1 ==> #[trigger] s[k].end.line <= s[k + 1].start.line
            &&& forall|k: int| 0 <= k < s.len() - 1 ==> #[trigger] s[k].end.line < s[k + 1].start.line
                || (s[k].end.line == s[k + 1].start.line && s[k].end.character < s[k + 1].start.character)
        }),
    decreases hi - i,
{
    match docstring_at(t, i, hi) {
        Some((a, e)) => if i < e <= hi {
            lemma_docstring_at(t, i, hi);
            law_docstrings_ordered(t, e, hi);
            lemma_comment_symbol(t, a, e);
            lemma_count_newlines_mono(t, i, a);
            lemma_count_newlines_mono(t, a, e);
            let s = docstrings(t, i, hi);
            let r = docstrings(t, e, hi);
            assert(s == seq![comment_symbol(t, a, e)] + r);
            if r.len() > 0 {
                lemma_docstring_at(t, e, hi);
                let (a2, e2) = docstring_at(t, e, hi)->0;
                assert(e < e2 <= hi);
                assert(r[0] == comment_symbol(t, a2, e2));
                lemma_position_order(t, e, a2);
                lemma_line_span_fits(t, e);
                lemma_line_span_fits(t, a2);
            }
            assert forall|k: int| 0 <= k < s.len() - 1 implies #[trigger] s[k].end.line < s[k + 1].start.line
                || (s[k].end.line == s[k + 1].start.line && s[k].end.character < s[k + 1].start.character) by {
                if k > 0 {
                    assert(s[k] == r[k - 1]);
                    assert(s[k + 1] == r[k]);
                } else {
                    assert(s[1] == r[0]);
                }
            }
            assert forall|k: int| 0 <= k < s.len() - 1 implies #[trigger] s[k].end.line <= s[k + 1].start.line by {
                if k > 0 {
                    assert(s[k] == r[k - 1]);
                    assert(s[k + 1] == r[k]);
                } else if r.len() > 0 {
                    assert(s[1] == r[0]);
                }
            }
            assert forall|k: int| 0 <= k < s.len() implies line_at(t, i) <= #[trigger] s[k].start.line by {
                if k > 0 {
                    assert(s[k] == r[k - 1]);
                    lemma_count_newlines_mono(t, i, e);
                }
            }
            assert forall|k: int| 0 <= k < s.len() implies 1 <= #[trigger] s[k].start.line <= s[k].end.line by {
                if k > 0 {
                    assert(s[k] == r[k - 1]);
                }
            }
        },
        None => {},
    }
}

/// Line comments are reported with lines that count from 1, each starting
/// no later than it ends.
pub proof fn law_inlines_lines(t: Seq<char>, i: int, hi: int)
    requires
        0 <= i <= hi <= t.len(),
        4 * t.len() < usize::MAX,
    ensures
        forall|k: int| 0 <= k < inlines(t, i, hi).len() ==> 1 <= #[trigger] inlines(t, i, hi)[k].start.line
            <= inlines(t, i, hi)[k].end.line,
    decreases hi - i,
{
    match inline_at(t, i, hi) {
        Some((a, e)) => if i < hi && i <= e <= hi {
            let k0 = find(t, i, hi, seq!['/', '/'])->0;
            lemma_find_some(t, i, hi, seq!['/', '/']);
            lemma_inline_end(t, a, hi);
            law_inlines_lines(t, e, e);
            lemma_comment_symbol(t, a, e);
            let s = inlines(t, i, hi);
            let r = inlines(t, e, e);
            assert(s == seq![comment_symbol(t, a, e)] + r);
            assert forall|k: int| 0 <= k < s.len() implies 1 <= #[trigger] s[k].start.line <= s[k].end.line by {
                if k > 0 {
                    assert(s[k] == r[k - 1]);
                }
            }
        },
        None => {},
    }
}

fn line_span_of(pos: &TextSpan) -> (r: LineSpan)
    ensures
        r == line_span_at(pos.text_view(), pos.lo()),
{
    proof {
        use_type_invariant(pos);
        LocatedSpan::lemma_bounded(*pos);
        lemma_line_span_fits(pos.text_view(), pos.lo());
    }
    LineSpan { line: pos.location_line(), character: pos.get_column() }
}

/// Skips past the next `/*`.
fn start<'a>(input: TextSpan<'a>) -> (r: PResult<'a, TextSpan<'a>>)
    ensures
        ({
            let t = input.text_view();
            match r {
                Ok((rest, pos)) => start_spec(t, input.lo(), input.hi()) == Some(rest.lo())
                    && rest.is_at(t, rest.lo(), input.hi()) && pos.is_at(t, rest.lo(), rest.lo()),
                Err(_) => start_spec(t, input.lo(), input.hi()) is None,
            }
        }),
{
    proof {
        reveal_strlit("/*");
        assert("/*"@ =~= seq!['/', '*']);
    }
    let (input, _) = skip_past(input, "/*")?;
    let (input, pos) = position(input);
    Ok((input, pos))
}

/// Goes up to the next `*/`.
pub fn body<'a>(input: TextSpan<'a>) -> (r: PResult<'a, TextSpan<'a>>)
    ensures
        ({
            let t = input.text_view();
            match r {
                Ok((rest, pos)) => body_spec(t, input.lo(), input.hi()) == Some(rest.lo())
                    && rest.is_at(t, rest.lo(), input.hi()) && pos.is_at(t, rest.lo(), rest.lo()),
                Err(_) => body_spec(t, input.lo(), input.hi()) is None,
            }
        }),
{
    proof {
        reveal_strlit("*/");
        assert("*/"@ =~= seq!['*', '/']);
    }
    let (input, _) = take_until(input, "*/")?;
    let (input, pos) = position(input);
    Ok((input, pos))
}

/// Skips a `*/` that the input starts with.
pub fn end<'a>(input: TextSpan<'a>) -> (r: PResult<'a, TextSpan<'a>>)
    ensures
        ({
            let t = input.text_view();
            match r {
                Ok((rest, pos)) => tag_at(t, input.lo(), input.hi(), seq!['*', '/'])
                    && rest.is_at(t, input.lo() + 2, input.hi()) && pos.is_at(
                    t,
                    input.lo() + 2,
                    input.lo() + 2,
                ),
                Err(_) => !tag_at(t, input.lo(), input.hi(), seq!['*', '/']),
            }
        }),
{
    proof {
        reveal_strlit("*/");
        assert("*/"@ =~= seq!['*', '/']);
    }
    let (input, _) = tag(input, "*/")?;
    let (input, pos) = position(input);
    Ok((input, pos))
}

/// The next block comment, from just past its `/*` to just past its `*/`.
pub fn get_docstring<'a>(input: TextSpan<'a>) -> (r: PResult<'a, SymbolSpan>)
    ensures
        ({
            let t = input.text_view();
            match r {
                Ok((rest, symbol)) => {
                    let (a, e) = docstring_at(t, input.lo(), input.hi())->0;
                    &&& docstring_at(t, input.lo(), input.hi()) is Some
                    &&& rest.is_at(t, e, input.hi())
                    &&& symbol == comment_symbol(t, a, e)
                },
                Err(_) => docstring_at(t, input.lo(), input.hi()) is None,
            }
        }),
{
    proof { reveal_strlit("*/"); }
    let (input, start_pos) = start(input)?;
    let ghost t = input.text_view();
    let ghost a = input.lo();
    let (input, _) = body(input)?;
    proof {
        lemma_find_some(t, a, input.hi(), seq!['*', '/']);
    }
    let (input, end_pos) = end(input)?;
    let symbol = SymbolSpan { start: line_span_of(&start_pos), end: line_span_of(&end_pos) };
    Ok((input, symbol))
}

/// Skips past the next `//`.
pub fn get_inline_start<'a>(input: TextSpan<'a>) -> (r: PResult<'a, TextSpan<'a>>)
    ensures
        ({
            let t = input.text_view();
            match r {
                Ok((rest, pos)) => inline_start_spec(t, input.lo(), input.hi()) == Some(rest.lo())
                    && rest.is_at(t, rest.lo(), input.hi()) && pos.is_at(t, rest.lo(), rest.lo()),
                Err(_) => inline_start_spec(t, input.lo(), input.hi()) is None,
            }
        }),
{
    proof {
        reveal_strlit("//");
        assert("//"@ =~= seq!['/', '/']);
    }
    let (input, _) = skip_past(input, "//")?;
    let (input, pos) = position(input);
    Ok((input, pos))
}

/// Moves to the `//` of the next line, if that line holds nothing before it
/// but blank space.
pub fn get_body<'a>(input: TextSpan<'a>) -> (r: PResult<'a, TextSpan<'a>>)
    ensures
        ({
            let t = input.text_view();
            match r {
                Ok((rest, pos)) => body_line_spec(t, input.lo(), input.hi()) == Some(rest.lo())
                    && rest.is_at(t, rest.lo(), input.hi()) && pos.is_at(t, rest.lo(), rest.lo()),
                Err(_) => body_line_spec(t, input.lo(), input.hi()) is None,
            }
        }),
{
    proof {
        reveal_strlit("\n");
        reveal_strlit("//");
        assert("\n"@ =~= seq!['\n']);
        assert("//"@ =~= seq!['/', '/']);
    }
    let (input, _) = skip_past(input, "\n")?;
    let (input, _) = multispace0(input);
    let (input, _) = tag(input, "//")?;
    let (input, pos) = position(input);
    Ok((input, pos))
}

/// Follows a run of `//` lines to the `//` of the last one. What is left is
/// the empty span there.
pub fn get_inline_end<'a>(input: TextSpan<'a>) -> (r: PResult<'a, TextSpan<'a>>)
    ensures
        ({
            let t = input.text_view();
            let e = inline_end_spec(t, input.lo(), input.hi());
            match r {
                Ok((rest, pos)) => rest.is_at(t, e, e) && pos.is_at(t, e, e),
                Err(_) => false,
            }
        }),
{
    let ghost t = input.text_view();
    let ghost hi = input.hi();
    let (input, start_pos) = position(input);
    let mut last = start_pos;
    let mut cur = input;
    loop
        invariant
            cur.text_view() == t,
            cur.hi() == hi,
            last.is_at(t, cur.lo(), cur.lo()),
            inline_end_spec(t, input.lo(), hi) == inline_end_spec(t, cur.lo(), hi),
        ensures
            last.is_at(t, inline_end_spec(t, input.lo(), hi), inline_end_spec(t, input.lo(), hi)),
        decreases hi - cur.lo(),
    {
        proof {
            use_type_invariant(&cur);
            LocatedSpan::lemma_bounded(cur);
        }
        match get_body(cur) {
            Ok((i, pos)) => {
                proof {
                    lemma_body_line(t, cur.lo(), hi);
                }
                cur = i;
                last = pos;
            },
            Err(_) => {
                break;
            },
        }
    }
    let (input, end_pos) = position(last);
    Ok((input, end_pos))
}

/// The next line comment: from just past its first `//` to just past the
/// `//` of its last line.
pub fn get_inline<'a>(input: TextSpan<'a>) -> (r: PResult<'a, SymbolSpan>)
    ensures
        ({
            let t = input.text_view();
            match r {
                Ok((rest, symbol)) => {
                    let (a, e) = inline_at(t, input.lo(), input.hi())->0;
                    &&& inline_at(t, input.lo(), input.hi()) is Some
                    &&& rest.is_at(t, e, e)
                    &&& symbol == comment_symbol(t, a, e)
                },
                Err(_) => inline_at(t, input.lo(), input.hi()) is None,
            }
        }),
{
    let (input, start_pos) = get_inline_start(input)?;
    let (input, end_pos) = get_inline_end(input)?;
    let symbol = SymbolSpan { start: line_span_of(&start_pos), end: line_span_of(&end_pos) };
    Ok((input, symbol))
}

/// The block comments of `text`, then its line comments.
pub fn parse_comments(text: &str) -> (comments: Vec<SymbolSpan>)
    requires
        4 * text@.len() < usize::MAX,
    ensures
        comments@ == docstrings(text@, 0, text@.len() as int) + inlines(
            text@,
            0,
            text@.len() as int,
        ),
{
    let mut comments: Vec<SymbolSpan> = Vec::new();
    let mut docs = parse_docstring(text);
    comments.append(&mut docs);
    let mut lines = parse_inline(text);
    comments.append(&mut lines);
    comments
}

/// Every block comment of `text`, in order.
pub fn parse_docstring(text: &str) -> (comments: Vec<SymbolSpan>)
    requires
        4 * text@.len() < usize::MAX,
    ensures
        comments@ == docstrings(text@, 0, text@.len() as int),
{
    let mut input = TextSpan::new(text);
    let ghost t = text@;
    let ghost hi = t.len() as int;
    let mut comments: Vec<SymbolSpan> = Vec::new();
    loop
        invariant
            input.text_view() == t,
            input.hi() == hi,
            0 <= input.lo() <= hi,
            comments@ + docstrings(t, input.lo(), hi) == docstrings(t, 0, hi),
        ensures
            comments@ == docstrings(t, 0, hi),
        decreases hi - input.lo(),
    {
        match get_docstring(input) {
            Ok((i, comment)) => {
                proof {
                    lemma_docstring_at(t, input.lo(), hi);
                    assert(docstrings(t, input.lo(), hi) == seq![comment] + docstrings(
                        t,
                        i.lo(),
                        hi,
                    ));
                    assert(comments@.push(comment) + docstrings(t, i.lo(), hi) =~= comments@
                        + docstrings(t, input.lo(), hi));
                }
                input = i;
                comments.push(comment);
            },
            Err(_) => {
                assert(comments@ + docstrings(t, input.lo(), hi) =~= comments@);
                break;
            },
        }
    }
    comments
}

/// The line comments of `text`, as the scan finds them.
pub fn parse_inline(text: &str) -> (comments: Vec<SymbolSpan>)
    requires
        4 * text@.len() < usize::MAX,
    ensures
        comments@ == inlines(text@, 0, text@.len() as int),
{
    let mut input = TextSpan::new(text);
    let ghost t = text@;
    let mut comments: Vec<SymbolSpan> = Vec::new();
    loop
        invariant
            input.text_view() == t,
            0 <= input.lo() <= input.hi() <= t.len(),
            comments@ + inlines(t, input.lo(), input.hi()) == inlines(t, 0, t.len() as int),
        ensures
            comments@ == inlines(t, 0, t.len() as int),
        decreases input.hi() - input.lo(),
    {
        proof {
            use_type_invariant(&input);
            LocatedSpan::lemma_bounded(input);
        }
        match get_inline(input) {
            Ok((i, comment)) => {
                proof {
                    let a = inline_start_spec(t, input.lo(), input.hi())->0;
                    lemma_find_some(t, input.lo(), input.hi(), seq!['/', '/']);
                    lemma_inline_end(t, a, input.hi());
                    assert(inlines(t, input.lo(), input.hi()) == seq![comment] + inlines(
                        t,
                        i.lo(),
                        i.hi(),
                    ));
                    assert(comments@.push(comment) + inlines(t, i.lo(), i.hi()) =~= comments@
                        + inlines(t, input.lo(), input.hi()));
                }
                input = i;
                comments.push(comment);
            },
            Err(_) => {
                assert(comments@ + inlines(t, input.lo(), input.hi()) =~= comments@);
                break;
            },
        }
    }
    comments
}

} // verus!
