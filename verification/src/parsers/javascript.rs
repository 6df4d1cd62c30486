//! A scanner for block comments and the functions right below them in
//! JavaScript sources; and the parser that pairs comments with symbols.
//!
//! It finds ranges only. It recognises functions written as
//! `myFun2() {}`, `(public/private/static/return type) myFun2() {}`,
//! `const myFun2 = () => {}` and `const myFun2 = arg => {}`.
use vstd::prelude::*;
use crate::parser::{comment_bounds, symbol_type_rest, FunSpans};
use crate::scan::{
    brace_after, close_pos, fun_close, find, joined_lines, join_lines, past_lines, position, rest, skip_lines,
    skip_past, skip_then_brace, str_eq, take_until, lemma_brace_after, lemma_close_pos, lemma_find_some,
    lemma_joined_lines_len, lemma_past_lines, ParseError, PResult,
};
use crate::span::LocatedSpan;
use crate::types::{CommentType, Span, SymbolPosition};

pub mod comment_parser;
pub mod parser;
pub mod visitor;

verus! {

/// The kind of function a comment is followed by.
#[derive(Debug, Clone, Copy, PartialEq, Eq, Structural)]
pub enum FunType {
    Normal,
    Arrow,
    Empty,
}

/// The text right below a comment opens an arrow function (`=>` then blank
/// space then `{`) or a normal one (`)` then blank space then `{`); a text
/// that is just the word `arrow` or `normal` counts as that kind too.
pub open spec fn symbol_type_spec(s: Seq<char>) -> (FunType, CommentType) {
    let n = s.len() as int;
    if brace_after(s, 0, n, seq!['=', '>']) is Some {
        (FunType::Arrow, CommentType::Docstring)
    } else if brace_after(s, 0, n, seq![')']) is Some {
        (FunType::Normal, CommentType::Docstring)
    } else if s == seq!['a', 'r', 'r', 'o', 'w'] {
        (FunType::Arrow, CommentType::Docstring)
    } else if s == seq!['n', 'o', 'r', 'm', 'a', 'l'] {
        (FunType::Normal, CommentType::Docstring)
    } else {
        (FunType::Empty, CommentType::Free)
    }
}

/// Just past the `{` that opens a function of the given kind.
pub open spec fn symbol_start_spec(t: Seq<char>, i: int, hi: int, fun_type: FunType) -> Option<int> {
    match fun_type {
        FunType::Arrow => brace_after(t, i, hi, seq!['=', '>']),
        _ => brace_after(t, i, hi, seq![')']),
    }
}

/// The first block comment from `i` and the code below it. When one of the
/// next four lines opens a function, the code runs from just inside its `{`
/// to the `}` that closes it; otherwise it is the two lines after the comment's line.
pub open spec fn get_fun_spec(t: Seq<char>, i: int, hi: int) -> Option<FunSpans> {
    match comment_bounds(t, i, hi) {
        Some((k1, k2)) => {
            let c = k2 + 2;
            let (fun_type, comment_type) = symbol_type_spec(joined_lines(t, c, hi, 4));
            if comment_type == CommentType::Docstring {
                match symbol_start_spec(t, c, hi, fun_type) {
                    Some(p) => match close_pos(t, p, hi, 1) {
                        Some(e) => Some(
                            FunSpans {
                                comment_start: k1,
                                comment_end: k2,
                                fun_start: p,
                                fun_end: e - 1,
                                rest: e,
                            },
                        ),
                        None => None,
                    },
                    None => None,
                }
            } else {
                match find(t, c, hi, seq!['\n']) {
                    Some(n) => match past_lines(t, n, hi, 2) {
                        Some(e) => Some(
                            FunSpans {
                                comment_start: k1,
                                comment_end: k2,
                                fun_start: n,
                                fun_end: e,
                                rest: e,
                            },
                        ),
                        None => None,
                    },
                    None => None,
                }
            }
        },
        None => None,
    }
}

pub open spec fn positions_match(
    p: (SymbolPosition, SymbolPosition),
    t: Seq<char>,
    m: FunSpans,
) -> bool {
    &&& p.0.start.is_at(t, m.comment_start, m.comment_start + 2)
    &&& p.0.end.is_at(t, m.comment_end, m.comment_end + 2)
    &&& p.1.start.is_at(t, m.fun_start, m.fun_start)
    &&& p.1.end.is_at(t, m.fun_end, m.fun_end)
}

/// Every comment with its code, from `i` on, until the scan fails.
pub open spec fn all_funs_spec(t: Seq<char>, i: int, hi: int) -> Seq<FunSpans>
    decreases hi - i,
{
    match get_fun_spec(t, i, hi) {
        Some(m) => if i < m.rest <= hi {
            seq![m] + all_funs_spec(t, m.rest, hi)
        } else {
            Seq::empty()
        },
        None => Seq::empty(),
    }
}

pub proof fn lemma_get_fun_spec(t: Seq<char>, i: int, hi: int)
    requires
        get_fun_spec(t, i, hi) is Some,
        0 <= i,
    ensures
        i < get_fun_spec(t, i, hi)->0.rest <= hi,
{
    let k1 = find(t, i, hi, seq!['/', '*'])->0;
    lemma_find_some(t, i, hi, seq!['/', '*']);
    let k2 = find(t, k1 + 2, hi, seq!['*', '/'])->0;
    lemma_find_some(t, k1 + 2, hi, seq!['*', '/']);
    let c = k2 + 2;
    let (fun_type, comment_type) = symbol_type_spec(joined_lines(t, c, hi, 4));
    if comment_type == CommentType::Docstring {
        let p = symbol_start_spec(t, c, hi, fun_type)->0;
        match fun_type {
            FunType::Arrow => lemma_brace_after(t, c, hi, seq!['=', '>']),
            _ => lemma_brace_after(t, c, hi, seq![')']),
        }
        lemma_close_pos(t, p, hi, 1);
    } else {
        let n = find(t, c, hi, seq!['\n'])->0;
        lemma_find_some(t, c, hi, seq!['\n']);
        lemma_past_lines(t, n, hi, 2);
    }
}

/// The next block comment and the code right below it.
pub fn get_fun<'a>(input: Span<'a>) -> (r: PResult<'a, (SymbolPosition<'a>, SymbolPosition<'a>)>)
    ensures
        ({
            let t = input.text_view();
            match r {
                Ok((rest, p)) => {
                    let m = get_fun_spec(t, input.lo(), input.hi())->0;
                    &&& get_fun_spec(t, input.lo(), input.hi()) is Some
                    &&& rest.is_at(t, m.rest, input.hi())
                    &&& positions_match(p, t, m)
                },
                Err(_) => get_fun_spec(t, input.lo(), input.hi()) is None,
            }
        }),
{
    proof {
        reveal_strlit("/*");
        assert("/*"@ =~= seq!['/', '*']);
        reveal_strlit("*/");
        assert("*/"@ =~= seq!['*', '/']);
        reveal_strlit("\n");
        assert("\n"@ =~= seq!['\n']);
    }
    let ghost t = input.text_view();
    let ghost hi = input.hi();
    let (input, comment_start) = skip_past(input, "/*")?;
    let (input, comment_end) = skip_past(input, "*/")?;
    proof {
        use_type_invariant(&input);
        LocatedSpan::lemma_bounded(input);
        lemma_joined_lines_len(t, input.lo(), hi, 4);
    }
    let new_lines = join_lines(input, 4);
    let (fun_type, comment_type) = match get_symbol_type(new_lines.as_str()) {
        Ok((_, types)) => types,
        Err(_) => (FunType::Empty, CommentType::Free),
    };
    let (input, (fun_start, fun_end)) = match comment_type {
        CommentType::Docstring => {
            let (input, fun_start) = get_symbol_start(input, fun_type)?;
            let (input, fun_end) = get_fun_close(input)?;
            (input, (fun_start, fun_end))
        },
        CommentType::Free => {
            let (input, _) = take_until(input, "\n")?;
            let (input, code_start) = position(input);
            let (input, _) = skip_lines(input, 2)?;
            let (input, code_end) = position(input);
            (input, (code_start, code_end))
        },
    };
    let comment_position = SymbolPosition { start: comment_start, end: comment_end };
    let function_position = SymbolPosition { start: fun_start, end: fun_end };
    Ok((input, (comment_position, function_position)))
}

/// Just inside the body of a function of the given kind.
pub fn get_symbol_start<'a>(input: Span<'a>, fun_type: FunType) -> (r: PResult<'a, Span<'a>>)
    requires
        fun_type != FunType::Empty,
    ensures
        ({
            let t = input.text_view();
            match r {
                Ok((rest, pos)) => {
                    let e = symbol_start_spec(t, input.lo(), input.hi(), fun_type)->0;
                    &&& symbol_start_spec(t, input.lo(), input.hi(), fun_type) is Some
                    &&& rest.is_at(t, e, input.hi())
                    &&& pos.is_at(t, e, e)
                },
                Err(_) => symbol_start_spec(t, input.lo(), input.hi(), fun_type) is None,
            }
        }),
{
    proof {
        reveal_strlit("=>");
        assert("=>"@ =~= seq!['=', '>']);
        reveal_strlit(")");
        assert(")"@ =~= seq![')']);
    }
    match fun_type {
        FunType::Arrow => {
            let (input, _) = skip_then_brace(input, "=>")?;
            let (input, pos) = position(input);
            Ok((input, pos))
        },
        _ => {
            let (input, _) = skip_then_brace(input, ")")?;
            let (input, pos) = position(input);
            Ok((input, pos))
        },
    }
}

/// Says what kind of function, if any, the lines right below a comment
/// open: `input` holds those lines, joined.
pub fn get_symbol_type<'a>(input: &'a str) -> (r: Result<(&'a str, (FunType, CommentType)), ParseError>)
    requires
        4 * input@.len() < usize::MAX,
    ensures
        r matches Ok((rest, types)) && types == symbol_type_spec(input@) && rest@
            == input@.subrange(symbol_type_rest(input@), input@.len() as int),
{
    proof {
        reveal_strlit("=>");
        assert("=>"@ =~= seq!['=', '>']);
        reveal_strlit(")");
        assert(")"@ =~= seq![')']);
        reveal_strlit("arrow");
        assert("arrow"@ =~= seq!['a', 'r', 'r', 'o', 'w']);
        reveal_strlit("normal");
        assert("normal"@ =~= seq!['n', 'o', 'r', 'm', 'a', 'l']);
    }
    let span = Span::new(input);
    let (rest_span, fun): (Span, &str) = match skip_then_brace(span, "=>") {
        Ok((r, _)) => (r, "arrow"),
        Err(_) => match skip_then_brace(span, ")") {
            Ok((r, _)) => (r, "normal"),
            Err(_) => {
                let (r, all) = rest(span);
                proof {
                    assert(input@.subrange(0, input@.len() as int) =~= input@);
                }
                (r, all.fragment())
            },
        },
    };
    let types = if str_eq(fun, "arrow") {
        (FunType::Arrow, CommentType::Docstring)
    } else if str_eq(fun, "normal") {
        (FunType::Normal, CommentType::Docstring)
    } else {
        (FunType::Empty, CommentType::Free)
    };
    Ok((rest_span.fragment(), types))
}

/// Just inside the body of a function: past the `{` after `=>` or after
/// `)`; at the end of the input when there is none.
pub fn get_fun_and_comment<'a>(input: Span<'a>) -> (r: PResult<'a, Span<'a>>)
    ensures
        ({
            let t = input.text_view();
            let e = crate::parser::fun_and_comment_spec(t, input.lo(), input.hi());
            match r {
                Ok((rest, pos)) => rest.is_at(t, e, input.hi()) && pos.is_at(t, e, e),
                Err(_) => false,
            }
        }),
{
    crate::parser::get_fun_and_comment(input)
}

/// The end of a function, from just inside its body: an empty span at the
/// `}` that closes the body, braces nested inside it counted; the scan goes
/// on past it.
pub fn get_fun_close<'a>(input: Span<'a>) -> (r: PResult<'a, Span<'a>>)
    ensures
        ({
            let t = input.text_view();
            match r {
                Ok((rest, pos)) => {
                    let e = close_pos(t, input.lo(), input.hi(), 1)->0;
                    &&& close_pos(t, input.lo(), input.hi(), 1) is Some
                    &&& rest.is_at(t, e, input.hi())
                    &&& pos.is_at(t, e - 1, e - 1)
                },
                Err(_) => close_pos(t, input.lo(), input.hi(), 1) is None,
            }
        }),
{
    fun_close(input)
}

/// The range of the next comment and of the code it describes.
pub fn get_fun_range<'a>(input: Span<'a>) -> (r: PResult<'a, (SymbolPosition<'a>, SymbolPosition<'a>)>)
    ensures
        ({
            let t = input.text_view();
            match r {
                Ok((rest, p)) => {
                    let m = get_fun_spec(t, input.lo(), input.hi())->0;
                    &&& get_fun_spec(t, input.lo(), input.hi()) is Some
                    &&& rest.is_at(t, m.rest, input.hi())
                    &&& positions_match(p, t, m)
                },
                Err(_) => get_fun_spec(t, input.lo(), input.hi()) is None,
            }
        }),
{
    let (input, (comment_position, function_position)) = get_fun(input)?;
    Ok((input, (comment_position, function_position)))
}

/// Every comment of the input with the code it describes, in order.
pub fn get_all_functions<'a>(file_input: Span<'a>) -> (all_funs: Vec<(SymbolPosition<'a>, SymbolPosition<'a>)>)
    ensures
        ({
            let t = file_input.text_view();
            let s = all_funs_spec(t, file_input.lo(), file_input.hi());
            &&& all_funs@.len() == s.len()
            &&& forall|k: int| 0 <= k < s.len() ==> positions_match(#[trigger] all_funs@[k], t, s[k])
        }),
{
    let ghost t = file_input.text_view();
    let ghost hi = file_input.hi();
    let mut all_funs: Vec<(SymbolPosition<'a>, SymbolPosition<'a>)> = Vec::new();
    let mut input = file_input;
    proof {
        use_type_invariant(&file_input);
        LocatedSpan::lemma_bounded(file_input);
    }
    loop
        invariant
            t == file_input.text_view(),
            hi == file_input.hi(),
            input.text_view() == t,
            input.hi() == hi,
            0 <= input.lo(),
            ({
                let s = all_funs_spec(t, file_input.lo(), hi);
                let r = all_funs_spec(t, input.lo(), hi);
                &&& s.len() == all_funs@.len() + r.len()
                &&& forall|k: int| 0 <= k < all_funs@.len() ==> positions_match(#[trigger] all_funs@[k], t, s[k])
                &&& forall|k: int| 0 <= k < r.len() ==> s[all_funs@.len() + k] == #[trigger] r[k]
            }),
        ensures
            ({
                let s = all_funs_spec(t, file_input.lo(), hi);
                &&& all_funs@.len() == s.len()
                &&& forall|k: int| 0 <= k < s.len() ==> positions_match(#[trigger] all_funs@[k], t, s[k])
            }),
        decreases hi - input.lo(),
    {
        proof {
            use_type_invariant(&input);
            LocatedSpan::lemma_bounded(input);
        }
        match get_fun_range(input) {
            Ok((i, fun)) => {
                proof {
                    lemma_get_fun_spec(t, input.lo(), hi);
                    let s = all_funs_spec(t, file_input.lo(), hi);
                    let r = all_funs_spec(t, input.lo(), hi);
                    let r2 = all_funs_spec(t, i.lo(), hi);
                    assert(r == seq![get_fun_spec(t, input.lo(), hi)->0] + r2);
                    assert(s[all_funs@.len() as int] == r[0]);
                    assert forall|k: int| 0 <= k < r2.len() implies s[all_funs@.len() + 1 + k] == #[trigger] r2[k] by {
                        assert(r[k + 1] == r2[k]);
                        assert(s[all_funs@.len() + (k + 1)] == r[k + 1]);
                    }
                }
                input = i;
                all_funs.push(fun);
            },
            Err(_) => {
                break;
            },
        }
    }
    all_funs
}


/// The code found for a comment comes after it: the comment's `/*` comes
/// before its `*/`, and the code starts after the `*/` and ends no earlier
/// than it starts.
pub proof fn law_symbol_after_comment(t: Seq<char>, i: int, hi: int)
    requires
        get_fun_spec(t, i, hi) is Some,
        0 <= i,
    ensures
        ({
            let m = get_fun_spec(t, i, hi)->0;
            &&& i <= m.comment_start
            &&& m.comment_start + 2 <= m.comment_end
            &&& m.comment_end + 2 <= m.fun_start <= m.fun_end < m.rest <= hi
                || m.comment_end + 2 <= m.fun_start <= m.fun_end == m.rest <= hi
        }),
{
    lemma_get_fun_spec(t, i, hi);
    let k1 = find(t, i, hi, seq!['/', '*'])->0;
    lemma_find_some(t, i, hi, seq!['/', '*']);
    let k2 = find(t, k1 + 2, hi, seq!['*', '/'])->0;
    lemma_find_some(t, k1 + 2, hi, seq!['*', '/']);
    let c = k2 + 2;
    let m = get_fun_spec(t, i, hi)->0;
    if m.rest == m.fun_end {
        let n = find(t, c, hi, seq!['\n'])->0;
        lemma_find_some(t, c, hi, seq!['\n']);
        lemma_past_lines(t, n, hi, 2);
    } else {
        lemma_close_pos(t, m.fun_start, hi, 1);
        let (fun_type, comment_type) = symbol_type_spec(joined_lines(t, c, hi, 4));
        match fun_type {
            FunType::Arrow => lemma_brace_after(t, c, hi, seq!['=', '>']),
            _ => lemma_brace_after(t, c, hi, seq![')']),
        }
    }
}

} // verus!
