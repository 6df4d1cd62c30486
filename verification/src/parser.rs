//! A scanner for block comments and the functions right below them, in
//! sources written like JavaScript.
//!
//! It finds ranges only. It recognises functions written as
//! `myFun2() {}`, `(public/private/static/return type) myFun2() {}`,
//! `const myFun2 = () => {}` and `const myFun2 = arg => {}`.
use vstd::prelude::*;
use crate::scan::{
    brace_after, close_pos, fun_close, find, joined_lines, join_lines, past_lines, position, rest, skip_lines,
    skip_past, skip_then_brace, take_until, lemma_brace_after, lemma_close_pos, lemma_find_some, lemma_joined_lines_len,
    lemma_past_lines, ParseError, PResult,
};
use crate::span::LocatedSpan;

verus! {

pub type Span<'a> = LocatedSpan<'a>;

pub enum CommentType {
    WithParams,
    /// Just a multi line comment.
    Normal,
}

pub enum FunctionType {
    Arrow,
    Normal,
    Empty,
}

/// Where a symbol starts and where it ends.
#[derive(Debug, Clone, Copy)]
pub struct SymbolPosition<'a> {
    pub start: Span<'a>,
    pub end: Span<'a>,
}

/// Whether a comment is followed by a function, or stands free.
#[derive(Debug, Clone, Copy, PartialEq, Eq, Structural)]
pub enum FunType {
    Docstring,
    Free,
}

/// A comment and the function it documents.
pub struct SymbolRange<'a> {
    pub comment: SymbolPosition<'a>,
    pub function: SymbolPosition<'a>,
}

/// The range of a function.
pub struct JsFunction<'a> {
    pub start: Span<'a>,
    pub end: Span<'a>,
}

/// Where the parts of a comment and its symbol were found: the `/*` at
/// `comment_start`, the `*/` at `comment_end`, the symbol from `fun_start`
/// to `fun_end`, and the scan goes on at `rest`.
pub struct FunSpans {
    pub comment_start: int,
    pub comment_end: int,
    pub fun_start: int,
    pub fun_end: int,
    pub rest: int,
}

/// The `/*` and the `*/` of the first block comment from `i`.
pub open spec fn comment_bounds(t: Seq<char>, i: int, hi: int) -> Option<(int, int)> {
    match find(t, i, hi, seq!['/', '*']) {
        Some(k1) => match find(t, k1 + 2, hi, seq!['*', '/']) {
            Some(k2) => Some((k1, k2)),
            None => None,
        },
        None => None,
    }
}

/// The text right below a comment opens a function when it holds `=>` then
/// blank space then `{`, or `)` then blank space then `{`, or is just `{`.
pub open spec fn symbol_type_spec(s: Seq<char>) -> FunType {
    if brace_after(s, 0, s.len() as int, seq!['=', '>']) is Some || brace_after(
        s,
        0,
        s.len() as int,
        seq![')'],
    ) is Some || s == seq!['{'] {
        FunType::Docstring
    } else {
        FunType::Free
    }
}

/// Where `get_symbol_type` leaves its input.
pub open spec fn symbol_type_rest(s: Seq<char>) -> int {
    match brace_after(s, 0, s.len() as int, seq!['=', '>']) {
        Some(e) => e,
        None => match brace_after(s, 0, s.len() as int, seq![')']) {
            Some(e) => e,
            None => s.len() as int,
        },
    }
}

/// Just past the `{` after the first `=>`, or else after the first `)`, or
/// else just past the next newline.
pub open spec fn symbol_start_spec(t: Seq<char>, i: int, hi: int) -> Option<int> {
    match brace_after(t, i, hi, seq!['=', '>']) {
        Some(e) => Some(e),
        None => match brace_after(t, i, hi, seq![')']) {
            Some(e) => Some(e),
            None => match find(t, i, hi, seq!['\n']) {
                Some(k) => Some(k + 1),
                None => None,
            },
        },
    }
}

/// Just past the `{` after the first `=>`, or else after the first `)`, or
/// else the end of the input.
pub open spec fn fun_and_comment_spec(t: Seq<char>, i: int, hi: int) -> int {
    match brace_after(t, i, hi, seq!['=', '>']) {
        Some(e) => e,
        None => match brace_after(t, i, hi, seq![')']) {
            Some(e) => e,
            None => hi,
        },
    }
}

/// The first block comment from `i` and the code below it. When one of the
/// next two lines opens a function, the code runs from just inside its `{`
/// to the `}` that closes it; otherwise it is the two lines after the comment's line.
pub open spec fn get_fun_spec(t: Seq<char>, i: int, hi: int) -> Option<FunSpans> {
    match comment_bounds(t, i, hi) {
        Some((k1, k2)) => {
            let c = k2 + 2;
            if symbol_type_spec(joined_lines(t, c, hi, 2)) == FunType::Docstring {
                match symbol_start_spec(t, c, hi) {
                    Some(p) => match close_pos(t, p, hi, 1) {
                        Some(e) => Some(
                            FunSpans {
                                comment_start: k1,
                                comment_end: k2,
                                fun_start: p,
                                fun_end: e - 1,
                                rest: e,
                            },
                        ),
                        None => None,
                    },
                    None => None,
                }
            } else {
                match find(t, c, hi, seq!['\n']) {
                    Some(n) => match past_lines(t, n, hi, 2) {
                        Some(e) => Some(
                            FunSpans {
                                comment_start: k1,
                                comment_end: k2,
                                fun_start: n,
                                fun_end: e,
                                rest: e,
                            },
                        ),
                        None => None,
                    },
                    None => None,
                }
            }
        },
        None => None,
    }
}

/// The positions found agree with `m`: the comment's `/*` and `*/`, and the
/// two ends of the code as empty spans.
pub open spec fn positions_match(
    p: (SymbolPosition, SymbolPosition),
    t: Seq<char>,
    m: FunSpans,
) -> bool {
    &&& p.0.start.is_at(t, m.comment_start, m.comment_start + 2)
    &&& p.0.end.is_at(t, m.comment_end, m.comment_end + 2)
    &&& p.1.start.is_at(t, m.fun_start, m.fun_start)
    &&& p.1.end.is_at(t, m.fun_end, m.fun_end)
}

/// Every comment with its code, from `i` on, until the scan fails.
pub open spec fn all_funs_spec(t: Seq<char>, i: int, hi: int) -> Seq<FunSpans>
    decreases hi - i,
{
    match get_fun_spec(t, i, hi) {
        Some(m) => if i < m.rest <= hi {
            seq![m] + all_funs_spec(t, m.rest, hi)
        } else {
            Seq::empty()
        },
        None => Seq::empty(),
    }
}

pub proof fn lemma_get_fun_spec(t: Seq<char>, i: int, hi: int)
    requires
        get_fun_spec(t, i, hi) is Some,
        0 <= i,
    ensures
        i < get_fun_spec(t, i, hi)->0.rest <= hi,
{
    let k1 = find(t, i, hi, seq!['/', '*'])->0;
    lemma_find_some(t, i, hi, seq!['/', '*']);
    let k2 = find(t, k1 + 2, hi, seq!['*', '/'])->0;
    lemma_find_some(t, k1 + 2, hi, seq!['*', '/']);
    let c = k2 + 2;
    if symbol_type_spec(joined_lines(t, c, hi, 2)) == FunType::Docstring {
        let p = symbol_start_spec(t, c, hi)->0;
        if brace_after(t, c, hi, seq!['=', '>']) is Some {
            lemma_brace_after(t, c, hi, seq!['=', '>']);
        } else if brace_after(t, c, hi, seq![')']) is Some {
            lemma_brace_after(t, c, hi, seq![')']);
        } else {
            lemma_find_some(t, c, hi, seq!['\n']);
        }
        lemma_close_pos(t, p, hi, 1);
    } else {
        let n = find(t, c, hi, seq!['\n'])->0;
        lemma_find_some(t, c, hi, seq!['\n']);
        lemma_past_lines(t, n, hi, 2);
    }
}

/// Says whether the code right below a comment opens a function: `text`
/// holds the lines right below the comment, joined.
pub fn get_symbol_type<'a>(input: &'a str) -> (r: Result<(&'a str, FunType), ParseError>)
    requires
        4 * input@.len() < usize::MAX,
    ensures
        r matches Ok((rest, fun_type)) && fun_type == symbol_type_spec(input@) && rest@
            == input@.subrange(symbol_type_rest(input@), input@.len() as int),
{
    proof {
        reveal_strlit("=>");
        assert("=>"@ =~= seq!['=', '>']);
        reveal_strlit(")");
        assert(")"@ =~= seq![')']);
        reveal_strlit("{");
        assert("{"@ =~= seq!['{']);
    }
    let span = Span::new(input);
    let (rest_span, fun) = match skip_then_brace(span, "=>") {
        Ok(x) => x,
        Err(_) => match skip_then_brace(span, ")") {
            Ok(x) => x,
            Err(_) => rest(span),
        },
    };
    let fragment = fun.fragment();
    let fun_type = if fragment.unicode_len() == 1 && fragment.get_char(0) == '{' {
        FunType::Docstring
    } else {
        FunType::Free
    };
    proof {
        let t = input@;
        let n = t.len() as int;
        if brace_after(t, 0, n, seq!['=', '>']) is Some || brace_after(t, 0, n, seq![')']) is Some {
            let e = fun.hi();
            assert(fun.is_at(t, e - 1, e));
            let k = if brace_after(t, 0, n, seq!['=', '>']) is Some {
                find(t, 0, n, seq!['=', '>'])->0 + 2
            } else {
                find(t, 0, n, seq![')'])->0 + 1
            };
            assert(t.subrange(e - 1, e)[0] == t[e - 1]);
            assert(fragment@ =~= seq!['{']);
        } else {
            assert(fun.is_at(t, 0, n));
            assert(t.subrange(0, n) =~= t);
            if fun_type == FunType::Docstring {
                assert(fragment@ =~= seq!['{']);
            }
        }
    }
    Ok((rest_span.fragment(), fun_type))
}

/// Just inside the body of the function that follows: past the `{` after
/// `=>` or after `)`, or else just past the end of the line.
pub fn get_symbol_start<'a>(input: Span<'a>) -> (r: PResult<'a, Span<'a>>)
    ensures
        ({
            let t = input.text_view();
            match r {
                Ok((rest, pos)) => {
                    let e = symbol_start_spec(t, input.lo(), input.hi())->0;
                    &&& symbol_start_spec(t, input.lo(), input.hi()) is Some
                    &&& rest.is_at(t, e, input.hi())
                    &&& pos.is_at(t, e, e)
                },
                Err(_) => symbol_start_spec(t, input.lo(), input.hi()) is None,
            }
        }),
{
    proof {
        reveal_strlit("=>");
        assert("=>"@ =~= seq!['=', '>']);
        reveal_strlit(")");
        assert(")"@ =~= seq![')']);
        reveal_strlit("\n");
        assert("\n"@ =~= seq!['\n']);
    }
    let (input, _) = match skip_then_brace(input, "=>") {
        Ok(x) => x,
        Err(_) => match skip_then_brace(input, ")") {
            Ok(x) => x,
            Err(_) => skip_past(input, "\n")?,
        },
    };
    let (input, pos) = position(input);
    Ok((input, pos))
}

/// Just inside the body of a function: past the `{` after `=>` or after
/// `)`; at the end of the input when there is none.
pub fn get_fun_and_comment<'a>(input: Span<'a>) -> (r: PResult<'a, Span<'a>>)
    ensures
        ({
            let t = input.text_view();
            let e = fun_and_comment_spec(t, input.lo(), input.hi());
            match r {
                Ok((rest, pos)) => rest.is_at(t, e, input.hi()) && pos.is_at(t, e, e),
                Err(_) => false,
            }
        }),
{
    proof {
        reveal_strlit("=>");
        assert("=>"@ =~= seq!['=', '>']);
        reveal_strlit(")");
        assert(")"@ =~= seq![')']);
    }
    let (input, _) = match skip_then_brace(input, "=>") {
        Ok(x) => x,
        Err(_) => match skip_then_brace(input, ")") {
            Ok(x) => x,
            Err(_) => rest(input),
        },
    };
    let (input, pos) = position(input);
    Ok((input, pos))
}

/// The end of a function, from just inside its body: an empty span at the
/// `}` that closes the body, braces nested inside it counted; the scan goes
/// on past it.
pub fn get_fun_close<'a>(input: Span<'a>) -> (r: PResult<'a, Span<'a>>)
    ensures
        ({
            let t = input.text_view();
            match r {
                Ok((rest, pos)) => {
                    let e = close_pos(t, input.lo(), input.hi(), 1)->0;
                    &&& close_pos(t, input.lo(), input.hi(), 1) is Some
                    &&& rest.is_at(t, e, input.hi())
                    &&& pos.is_at(t, e - 1, e - 1)
                },
                Err(_) => close_pos(t, input.lo(), input.hi(), 1) is None,
            }
        }),
{
    fun_close(input)
}

/// The next block comment and the code right below it.
pub fn get_fun<'a>(input: Span<'a>) -> (r: PResult<'a, (SymbolPosition<'a>, SymbolPosition<'a>)>)
    ensures
        ({
            let t = input.text_view();
            match r {
                Ok((rest, p)) => {
                    let m = get_fun_spec(t, input.lo(), input.hi())->0;
                    &&& get_fun_spec(t, input.lo(), input.hi()) is Some
                    &&& rest.is_at(t, m.rest, input.hi())
                    &&& positions_match(p, t, m)
                },
                Err(_) => get_fun_spec(t, input.lo(), input.hi()) is None,
            }
        }),
{
    proof {
        reveal_strlit("/*");
        assert("/*"@ =~= seq!['/', '*']);
        reveal_strlit("*/");
        assert("*/"@ =~= seq!['*', '/']);
        reveal_strlit("\n");
        assert("\n"@ =~= seq!['\n']);
    }
    let ghost t = input.text_view();
    let ghost hi = input.hi();
    let (input, comment_start) = skip_past(input, "/*")?;
    let (input, comment_end) = skip_past(input, "*/")?;
    proof {
        use_type_invariant(&input);
        LocatedSpan::lemma_bounded(input);
        lemma_joined_lines_len(t, input.lo(), hi, 2);
    }
    let new_lines = join_lines(input, 2);
    let fun_type = match get_symbol_type(new_lines.as_str()) {
        Ok((_, fun_type)) => fun_type,
        Err(_) => FunType::Free,
    };
    let (input, (fun_start, fun_end)) = match fun_type {
        FunType::Docstring => {
            let (input, fun_start) = get_symbol_start(input)?;
            let (input, fun_end) = get_fun_close(input)?;
            (input, (fun_start, fun_end))
        },
        FunType::Free => {
            let (input, _) = take_until(input, "\n")?;
            let (input, code_start) = position(input);
            let (input, _) = skip_lines(input, 2)?;
            let (input, code_end) = position(input);
            (input, (code_start, code_end))
        },
    };
    let comment_position = SymbolPosition { start: comment_start, end: comment_end };
    let function_position = SymbolPosition { start: fun_start, end: fun_end };
    Ok((input, (comment_position, function_position)))
}

/// The range of the next comment and of the code it describes.
pub fn get_fun_range<'a>(input: Span<'a>) -> (r: PResult<'a, (SymbolPosition<'a>, SymbolPosition<'a>)>)
    ensures
        ({
            let t = input.text_view();
            match r {
                Ok((rest, p)) => {
                    let m = get_fun_spec(t, input.lo(), input.hi())->0;
                    &&& get_fun_spec(t, input.lo(), input.hi()) is Some
                    &&& rest.is_at(t, m.rest, input.hi())
                    &&& positions_match(p, t, m)
                },
                Err(_) => get_fun_spec(t, input.lo(), input.hi()) is None,
            }
        }),
{
    let (input, (comment_position, function_position)) = get_fun(input)?;
    Ok((input, (comment_position, function_position)))
}

/// Tells whether a function has a comment right above it.
pub fn contains_comment() {
}

/// Every comment of the input with the code it describes, in order. The
/// input holds at least one.
pub fn get_all_functions<'a>(file_input: Span<'a>) -> (all_funs: Vec<(SymbolPosition<'a>, SymbolPosition<'a>)>)
    requires
        get_fun_spec(file_input.text_view(), file_input.lo(), file_input.hi()) is Some,
    ensures
        ({
            let t = file_input.text_view();
            let s = all_funs_spec(t, file_input.lo(), file_input.hi());
            &&& all_funs@.len() == s.len()
            &&& forall|k: int| 0 <= k < s.len() ==> positions_match(#[trigger] all_funs@[k], t, s[k])
        }),
{
    let ghost t = file_input.text_view();
    let ghost hi = file_input.hi();
    let mut all_funs: Vec<(SymbolPosition<'a>, SymbolPosition<'a>)> = Vec::new();
    let mut input = file_input;
    proof {
        use_type_invariant(&file_input);
        LocatedSpan::lemma_bounded(file_input);
    }
    loop
        invariant
            t == file_input.text_view(),
            hi == file_input.hi(),
            input.text_view() == t,
            input.hi() == hi,
            0 <= input.lo(),
            ({
                let s = all_funs_spec(t, file_input.lo(), hi);
                let r = all_funs_spec(t, input.lo(), hi);
                &&& s.len() == all_funs@.len() + r.len()
                &&& forall|k: int| 0 <= k < all_funs@.len() ==> positions_match(#[trigger] all_funs@[k], t, s[k])
                &&& forall|k: int| 0 <= k < r.len() ==> s[all_funs@.len() + k] == #[trigger] r[k]
            }),
        ensures
            ({
                let s = all_funs_spec(t, file_input.lo(), hi);
                &&& all_funs@.len() == s.len()
                &&& forall|k: int| 0 <= k < s.len() ==> positions_match(#[trigger] all_funs@[k], t, s[k])
            }),
        decreases hi - input.lo(),
    {
        proof {
            use_type_invariant(&input);
            LocatedSpan::lemma_bounded(input);
        }
        match get_fun_range(input) {
            Ok((i, fun)) => {
                proof {
                    lemma_get_fun_spec(t, input.lo(), hi);
                    let s = all_funs_spec(t, file_input.lo(), hi);
                    let r = all_funs_spec(t, input.lo(), hi);
                    let r2 = all_funs_spec(t, i.lo(), hi);
                    assert(r == seq![get_fun_spec(t, input.lo(), hi)->0] + r2);
                    assert(s[all_funs@.len() as int] == r[0]);
                    assert forall|k: int| 0 <= k < r2.len() implies s[all_funs@.len() + 1 + k] == #[trigger] r2[k] by {
                        assert(r[k + 1] == r2[k]);
                        assert(s[all_funs@.len() + (k + 1)] == r[k + 1]);
                    }
                }
                input = i;
                all_funs.push(fun);
            },
            Err(_) => {
                break;
            },
        }
    }
    all_funs
}


/// The code found for a comment comes after it: the comment's `/*` comes
/// before its `*/`, and the code starts after the `*/` and ends no earlier
/// than it starts.
pub proof fn law_symbol_after_comment(t: Seq<char>, i: int, hi: int)
    requires
        get_fun_spec(t, i, hi) is Some,
        0 <= i,
    ensures
        ({
            let m = get_fun_spec(t, i, hi)->0;
            &&& i <= m.comment_start
            &&& m.comment_start + 2 <= m.comment_end
            &&& m.comment_end + 2 <= m.fun_start <= m.fun_end < m.rest <= hi
                || m.comment_end + 2 <= m.fun_start <= m.fun_end == m.rest <= hi
        }),
{
    lemma_get_fun_spec(t, i, hi);
    let k1 = find(t, i, hi, seq!['/', '*'])->0;
    lemma_find_some(t, i, hi, seq!['/', '*']);
    let k2 = find(t, k1 + 2, hi, seq!['*', '/'])->0;
    lemma_find_some(t, k1 + 2, hi, seq!['*', '/']);
    let c = k2 + 2;
    let m = get_fun_spec(t, i, hi)->0;
    if m.rest == m.fun_end {
        let n = find(t, c, hi, seq!['\n'])->0;
        lemma_find_some(t, c, hi, seq!['\n']);
        lemma_past_lines(t, n, hi, 2);
    } else {
        lemma_close_pos(t, m.fun_start, hi, 1);
        if brace_after(t, c, hi, seq!['=', '>']) is Some {
            lemma_brace_after(t, c, hi, seq!['=', '>']);
        } else if brace_after(t, c, hi, seq![')']) is Some {
            lemma_brace_after(t, c, hi, seq![')']);
        } else {
            lemma_find_some(t, c, hi, seq!['\n']);
        }
    }
}

} // verus!
