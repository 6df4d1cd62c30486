//! A scanner for block comments and the functions right below them in
//! TypeScript sources, and the pieces of TypeScript syntax it reads.
use vstd::prelude::*;
use crate::parser::{comment_bounds, FunSpans};
use crate::scan::{
    alphanumeric1, ascii_alnum_end, ascii_alnum_pred, alnum_end, alnum_pred, brace_after,
    brace_after_paren, close_pos, ident_end, take_while_identifier, fun_close, find, joined_lines, join_lines, past_lines, position, rest,
    skip_lines, skip_past, skip_paren_to_brace, skip_then_brace, str_eq, tag, tag_at,
    take_chars, take_until, take_while1_alphanumeric, take_while1_whitespace,
    take_while_whitespace, ws_end, ws_pred, lemma_brace_after, lemma_brace_after_paren,
    is_whitespace_char, lemma_close_pos, lemma_find_first, lemma_find_some, lemma_joined_lines_len,
    lemma_past_lines, lemma_run_end, lemma_run_end_at, ParseError, PResult,
};
use crate::span::LocatedSpan;
use crate::types::{CommentType, Span, SymbolPosition};

verus! {

/// Pairs block comments of a TypeScript source with the code below them.
#[derive(Debug, Clone, Copy)]
pub struct TsParser;

/// The kind of function a comment is followed by.
#[derive(Debug, Clone, Copy, PartialEq, Eq, Structural)]
pub enum FunType {
    Normal,
    Arrow,
    Empty,
}

/// A body that starts at `i` with `{`: just past the `}` that closes it.
pub open spec fn body_spec(t: Seq<char>, i: int, hi: int) -> Option<int> {
    if tag_at(t, i, hi, seq!['{']) {
        close_pos(t, i + 1, hi, 1)
    } else {
        None
    }
}

/// `: type`: where the type's name starts and ends, and where the blank
/// space after it ends.
pub open spec fn type_spec(t: Seq<char>, i: int, hi: int) -> Option<(int, int, int)> {
    if tag_at(t, i, hi, seq![':']) {
        let w = ws_end(t, i + 1, hi);
        let a = alnum_end(t, w, hi);
        if a > w {
            Some((w, a, ws_end(t, a, hi)))
        } else {
            None
        }
    } else {
        None
    }
}

/// `(params)`: where the `)` is.
pub open spec fn params_spec(t: Seq<char>, i: int, hi: int) -> Option<int> {
    if tag_at(t, i, hi, seq!['(']) {
        find(t, i + 1, hi, seq![')'])
    } else {
        None
    }
}

/// `=>`, blank space, then a body or a word: where that body or word starts
/// and just past where it ends.
pub open spec fn arrow_spec(t: Seq<char>, i: int, hi: int) -> Option<(int, int)> {
    if tag_at(t, i, hi, seq!['=', '>']) {
        let w = ws_end(t, i + 2, hi);
        match body_spec(t, w, hi) {
            Some(e) => Some((w + 1, e)),
            None => {
                let a = ascii_alnum_end(t, w, hi);
                if a > w {
                    Some((w, a))
                } else {
                    None
                }
            },
        }
    } else {
        None
    }
}

/// Where the parts of a function written `function name (params) : type { .. }`
/// lie; the name may be left out.
pub struct NormalFunction {
    pub params_open: int,
    pub params_close: int,
    pub body_start: int,
    pub body_end: int,
}

pub open spec fn normal_function_spec(t: Seq<char>, i: int, hi: int) -> Option<NormalFunction> {
    let word = seq!['f', 'u', 'n', 'c', 't', 'i', 'o', 'n'];
    if tag_at(t, i, hi, word) {
        let w = ws_end(t, i + 8, hi);
        if w > i + 8 {
            let p = ws_end(t, ident_end(t, w, hi), hi);
            match params_spec(t, p, hi) {
                Some(k) => {
                    let w2 = ws_end(t, k + 1, hi);
                    let g = match type_spec(t, w2, hi) {
                        Some((_, _, g)) => g,
                        None => w2,
                    };
                    match body_spec(t, g, hi) {
                        Some(e) => Some(
                            NormalFunction { params_open: p, params_close: k, body_start: g + 1, body_end: e },
                        ),
                        None => None,
                    }
                },
                None => None,
            }
        } else {
            None
        }
    } else {
        None
    }
}

/// The text right below a comment opens an arrow function (`=>` then blank
/// space then `{`) or a normal one (`)` and later `{`); a text that is just
/// the word `arrow` or `normal` counts as that kind too.
pub open spec fn symbol_type_spec(s: Seq<char>) -> (FunType, CommentType) {
    let n = s.len() as int;
    if brace_after(s, 0, n, seq!['=', '>']) is Some {
        (FunType::Arrow, CommentType::Docstring)
    } else if brace_after_paren(s, 0, n) is Some {
        (FunType::Normal, CommentType::Docstring)
    } else if s == seq!['a', 'r', 'r', 'o', 'w'] {
        (FunType::Arrow, CommentType::Docstring)
    } else if s == seq!['n', 'o', 'r', 'm', 'a', 'l'] {
        (FunType::Normal, CommentType::Docstring)
    } else {
        (FunType::Empty, CommentType::Free)
    }
}

/// Where `get_symbol_type` leaves its input.
pub open spec fn symbol_type_rest(s: Seq<char>) -> int {
    let n = s.len() as int;
    match brace_after(s, 0, n, seq!['=', '>']) {
        Some(e) => e,
        None => match brace_after_paren(s, 0, n) {
            Some(e) => e,
            None => n,
        },
    }
}

/// Just past the `{` that opens a function of the given kind.
pub open spec fn symbol_start_spec(t: Seq<char>, i: int, hi: int, fun_type: FunType) -> Option<int> {
    match fun_type {
        FunType::Arrow => brace_after(t, i, hi, seq!['=', '>']),
        _ => brace_after_paren(t, i, hi),
    }
}

/// The first block comment from `i` and the code below it. When one of the
/// next eight lines opens a function, the code runs from just inside its
/// `{` to the `}` that closes it; otherwise it is the two lines after the comment's
/// line.
pub open spec fn symbol_pair_spec(t: Seq<char>, i: int, hi: int) -> Option<FunSpans> {
    match comment_bounds(t, i, hi) {
        Some((k1, k2)) => {
            let c = k2 + 2;
            let (fun_type, comment_type) = symbol_type_spec(joined_lines(t, c, hi, 8));
            if comment_type == CommentType::Docstring {
                match symbol_start_spec(t, c, hi, fun_type) {
                    Some(p) => match close_pos(t, p, hi, 1) {
                        Some(e) => Some(
                            FunSpans {
                                comment_start: k1,
                                comment_end: k2,
                                fun_start: p,
                                fun_end: e - 1,
                                rest: e,
                            },
                        ),
                        None => None,
                    },
                    None => None,
                }
            } else {
                match find(t, c, hi, seq!['\n']) {
                    Some(n) => match past_lines(t, n, hi, 2) {
                        Some(e) => Some(
                            FunSpans {
                                comment_start: k1,
                                comment_end: k2,
                                fun_start: n,
                                fun_end: e,
                                rest: e,
                            },
                        ),
                        None => None,
                    },
                    None => None,
                }
            }
        },
        None => None,
    }
}

pub open spec fn positions_match(
    p: (SymbolPosition, SymbolPosition),
    t: Seq<char>,
    m: FunSpans,
) -> bool {
    &&& p.0.start.is_at(t, m.comment_start, m.comment_start + 2)
    &&& p.0.end.is_at(t, m.comment_end, m.comment_end + 2)
    &&& p.1.start.is_at(t, m.fun_start, m.fun_start)
    &&& p.1.end.is_at(t, m.fun_end, m.fun_end)
}

/// Every comment with its code, from `i` on, until the scan fails.
pub open spec fn symbol_pairs_spec(t: Seq<char>, i: int, hi: int) -> Seq<FunSpans>
    decreases hi - i,
{
    match symbol_pair_spec(t, i, hi) {
        Some(m) => if i < m.rest <= hi {
            seq![m] + symbol_pairs_spec(t, m.rest, hi)
        } else {
            Seq::empty()
        },
        None => Seq::empty(),
    }
}

pub proof fn lemma_symbol_pair_spec(t: Seq<char>, i: int, hi: int)
    requires
        symbol_pair_spec(t, i, hi) is Some,
        0 <= i,
    ensures
        i < symbol_pair_spec(t, i, hi)->0.rest <= hi,
{
    let k1 = find(t, i, hi, seq!['/', '*'])->0;
    lemma_find_some(t, i, hi, seq!['/', '*']);
    let k2 = find(t, k1 + 2, hi, seq!['*', '/'])->0;
    lemma_find_some(t, k1 + 2, hi, seq!['*', '/']);
    let c = k2 + 2;
    let (fun_type, comment_type) = symbol_type_spec(joined_lines(t, c, hi, 8));
    if comment_type == CommentType::Docstring {
        let p = symbol_start_spec(t, c, hi, fun_type)->0;
        match fun_type {
            FunType::Arrow => lemma_brace_after(t, c, hi, seq!['=', '>']),
            _ => lemma_brace_after_paren(t, c, hi),
        }
        lemma_close_pos(t, p, hi, 1);
    } else {
        let n = find(t, c, hi, seq!['\n'])->0;
        lemma_find_some(t, c, hi, seq!['\n']);
        lemma_past_lines(t, n, hi, 2);
    }
}

impl TsParser {
    /// Every block comment of the input with the code below it, in order.
    pub fn parse<'a>(&self, file_input: Span<'a>) -> (all_funs: Vec<(SymbolPosition<'a>, SymbolPosition<'a>)>)
        ensures
            ({
                let t = file_input.text_view();
                let s = symbol_pairs_spec(t, file_input.lo(), file_input.hi());
                &&& all_funs@.len() == s.len()
                &&& forall|k: int| 0 <= k < s.len() ==> positions_match(#[trigger] all_funs@[k], t, s[k])
            }),
    {
        let ghost t = file_input.text_view();
        let ghost hi = file_input.hi();
        let mut all_funs: Vec<(SymbolPosition<'a>, SymbolPosition<'a>)> = Vec::new();
        let mut input = file_input;
        proof {
            use_type_invariant(&file_input);
            LocatedSpan::lemma_bounded(file_input);
        }
        loop
            invariant
                t == file_input.text_view(),
                hi == file_input.hi(),
                input.text_view() == t,
                input.hi() == hi,
                0 <= input.lo(),
                ({
                    let s = symbol_pairs_spec(t, file_input.lo(), hi);
                    let r = symbol_pairs_spec(t, input.lo(), hi);
                    &&& s.len() == all_funs@.len() + r.len()
                    &&& forall|k: int| 0 <= k < all_funs@.len() ==> positions_match(#[trigger] all_funs@[k], t, s[k])
                    &&& forall|k: int| 0 <= k < r.len() ==> s[all_funs@.len() + k] == #[trigger] r[k]
                }),
            ensures
                ({
                    let s = symbol_pairs_spec(t, file_input.lo(), hi);
                    &&& all_funs@.len() == s.len()
                    &&& forall|k: int| 0 <= k < s.len() ==> positions_match(#[trigger] all_funs@[k], t, s[k])
                }),
            decreases hi - input.lo(),
        {
            proof {
                use_type_invariant(&input);
                LocatedSpan::lemma_bounded(input);
            }
            match get_symbol_pair(input) {
                Ok((i, fun)) => {
                    proof {
                        lemma_symbol_pair_spec(t, input.lo(), hi);
                        let s = symbol_pairs_spec(t, file_input.lo(), hi);
                        let r = symbol_pairs_spec(t, input.lo(), hi);
                        let r2 = symbol_pairs_spec(t, i.lo(), hi);
                        assert(r == seq![symbol_pair_spec(t, input.lo(), hi)->0] + r2);
                        assert(s[all_funs@.len() as int] == r[0]);
                        assert forall|k: int| 0 <= k < r2.len() implies s[all_funs@.len() + 1 + k] == #[trigger] r2[k] by {
                            assert(r[k + 1] == r2[k]);
                            assert(s[all_funs@.len() + (k + 1)] == r[k + 1]);
                        }
                    }
                    input = i;
                    all_funs.push(fun);
                },
                Err(_) => {
                    break;
                },
            }
        }
        all_funs
    }
}

/// A block comment that the input starts with: its `/*`, the position
/// after it, its body, its `*/`, and the position after that.
pub fn multi_line_comment<'a>(input: Span<'a>) -> (r: PResult<'a, (Span<'a>, Span<'a>, Span<'a>, Span<'a>, Span<'a>)>)
    ensures
        ({
            let t = input.text_view();
            let lo = input.lo();
            let hi = input.hi();
            match r {
                Ok((rest, (start, start_pos, body, end, end_pos))) => {
                    let b = find(t, lo + 2, hi, seq!['*', '/'])->0;
                    &&& tag_at(t, lo, hi, seq!['/', '*'])
                    &&& find(t, lo + 2, hi, seq!['*', '/']) is Some
                    &&& start.is_at(t, lo, lo + 2)
                    &&& start_pos.is_at(t, lo + 2, lo + 2)
                    &&& body.is_at(t, lo + 2, b)
                    &&& end.is_at(t, b, b + 2)
                    &&& end_pos.is_at(t, b + 2, b + 2)
                    &&& rest.is_at(t, b + 2, hi)
                },
                Err(_) => !tag_at(t, lo, hi, seq!['/', '*']) || find(t, lo + 2, hi, seq!['*', '/']) is None,
            }
        }),
{
    proof {
        reveal_strlit("/*");
        assert("/*"@ =~= seq!['/', '*']);
        reveal_strlit("*/");
        assert("*/"@ =~= seq!['*', '/']);
    }
    let ghost t = input.text_view();
    let ghost hi = input.hi();
    let (input, start) = tag(input, "/*")?;
    let (input, start_pos) = position(input);
    let (input, body) = take_until(input, "*/")?;
    proof {
        lemma_find_some(t, start_pos.lo(), hi, seq!['*', '/']);
    }
    let (input, end) = tag(input, "*/")?;
    let (input, end_pos) = position(input);
    Ok((input, (start, start_pos, body, end, end_pos)))
}

/// `=>`, blank space, then either a body in braces or a word. For a body,
/// the positions just inside its `{` and just past its `}`; for a word, the
/// positions where it starts and just past it.
pub fn arrow_function<'a>(input: Span<'a>) -> (r: PResult<'a, (Span<'a>, (Span<'a>, Span<'a>))>)
    ensures
        ({
            let t = input.text_view();
            let lo = input.lo();
            let hi = input.hi();
            match r {
                Ok((rest, (opening, (start, end)))) => {
                    let (a, e) = arrow_spec(t, lo, hi)->0;
                    &&& arrow_spec(t, lo, hi) is Some
                    &&& opening.is_at(t, lo, lo + 2)
                    &&& start.is_at(t, a, a)
                    &&& end.is_at(t, e, e)
                    &&& rest.is_at(t, e, hi)
                },
                Err(_) => arrow_spec(t, lo, hi) is None,
            }
        }),
{
    proof {
        reveal_strlit("=>");
        assert("=>"@ =~= seq!['=', '>']);
    }
    let (input, opening) = tag(input, "=>")?;
    let (input, _) = take_while_whitespace(input);
    match match_body(input) {
        Ok((input, body)) => Ok((input, (opening, body))),
        Err(_) => {
            let (input2, statement) = match_statement(input)?;
            let (_, statement_start) = position(statement);
            let (input2, statement_end) = position(input2);
            Ok((input2, (opening, (statement_start, statement_end))))
        },
    }
}

/// `function`, blank space, `(params)`, blank space, an optional `: type`,
/// and a body in braces. It gives back the word `function`, the `(`, what
/// is between the parentheses, the `)`, and the positions just inside the
/// body's `{` and just past its `}`.
pub fn normal_function<'a>(input: Span<'a>) -> (r: PResult<'a, (Span<'a>, Span<'a>, Span<'a>, Span<'a>, Span<'a>, Span<'a>)>)
    ensures
        ({
            let t = input.text_view();
            let lo = input.lo();
            let hi = input.hi();
            match r {
                Ok((rest, (declaration, param_start, param_body, param_end, body_start, body_end))) => {
                    let f = normal_function_spec(t, lo, hi)->0;
                    &&& normal_function_spec(t, lo, hi) is Some
                    &&& declaration.is_at(t, lo, lo + 8)
                    &&& param_start.is_at(t, f.params_open, f.params_open + 1)
                    &&& param_body.is_at(t, f.params_open + 1, f.params_close)
                    &&& param_end.is_at(t, f.params_close, f.params_close + 1)
                    &&& body_start.is_at(t, f.body_start, f.body_start)
                    &&& body_end.is_at(t, f.body_end, f.body_end)
                    &&& rest.is_at(t, f.body_end, hi)
                },
                Err(_) => normal_function_spec(t, lo, hi) is None,
            }
        }),
{
    proof {
        reveal_strlit("function");
        assert("function"@ =~= seq!['f', 'u', 'n', 'c', 't', 'i', 'o', 'n']);
    }
    let (input, declaration) = tag(input, "function")?;
    let (input, _) = take_while1_whitespace(input)?;
    let (input, _name) = take_while_identifier(input);
    let (input, _) = take_while_whitespace(input);
    let (input, (param_start, param_body, param_end)) = get_params(input)?;
    let (input, _) = take_while_whitespace(input);
    let input = match get_type(input) {
        Ok((input, _element_type)) => input,
        Err(_) => input,
    };
    let (input, (body_start, body_end)) = match_body(input)?;
    Ok((input, (declaration, param_start, param_body, param_end, body_start, body_end)))
}

/// `:`, blank space, a name, blank space; gives back the name.
pub fn get_type<'a>(input: Span<'a>) -> (r: PResult<'a, Span<'a>>)
    ensures
        ({
            let t = input.text_view();
            match r {
                Ok((rest, element_type)) => {
                    let (w, a, g) = type_spec(t, input.lo(), input.hi())->0;
                    &&& type_spec(t, input.lo(), input.hi()) is Some
                    &&& element_type.is_at(t, w, a)
                    &&& rest.is_at(t, g, input.hi())
                },
                Err(_) => type_spec(t, input.lo(), input.hi()) is None,
            }
        }),
{
    proof {
        reveal_strlit(":");
        assert(":"@ =~= seq![':']);
    }
    let (input, _type_specifier) = tag(input, ":")?;
    let (input, _) = take_while_whitespace(input);
    let (input, element_type) = take_while1_alphanumeric(input)?;
    let (input, _) = take_while_whitespace(input);
    Ok((input, element_type))
}

/// `(`, anything up to the first `)`, and that `)`.
pub fn get_params<'a>(input: Span<'a>) -> (r: PResult<'a, (Span<'a>, Span<'a>, Span<'a>)>)
    ensures
        ({
            let t = input.text_view();
            let lo = input.lo();
            match r {
                Ok((rest, (open, body, close))) => {
                    let k = params_spec(t, lo, input.hi())->0;
                    &&& params_spec(t, lo, input.hi()) is Some
                    &&& open.is_at(t, lo, lo + 1)
                    &&& body.is_at(t, lo + 1, k)
                    &&& close.is_at(t, k, k + 1)
                    &&& rest.is_at(t, k + 1, input.hi())
                },
                Err(_) => params_spec(t, lo, input.hi()) is None,
            }
        }),
{
    proof {
        reveal_strlit("(");
        assert("("@ =~= seq!['(']);
        reveal_strlit(")");
        assert(")"@ =~= seq![')']);
    }
    let ghost t = input.text_view();
    let ghost hi = input.hi();
    let (input, open) = tag(input, "(")?;
    let ghost after_open = input.lo();
    let (input, body) = take_until(input, ")")?;
    proof {
        lemma_find_some(t, after_open, hi, seq![')']);
    }
    let (input, close) = tag(input, ")")?;
    Ok((input, (open, body, close)))
}

/// One or more ASCII letters or digits.
pub fn match_statement<'a>(input: Span<'a>) -> (r: PResult<'a, Span<'a>>)
    ensures
        ({
            let t = input.text_view();
            let e = ascii_alnum_end(t, input.lo(), input.hi());
            match r {
                Ok((rest, m)) => e > input.lo() && rest.is_at(t, e, input.hi()) && m.is_at(
                    t,
                    input.lo(),
                    e,
                ),
                Err(_) => e == input.lo(),
            }
        }),
{
    alphanumeric1(input)
}

/// A body in braces that the input starts with: the positions just inside
/// its `{` and just past the `}` that closes it, braces nested inside it
/// counted.
pub fn match_body<'a>(input: Span<'a>) -> (r: PResult<'a, (Span<'a>, Span<'a>)>)
    ensures
        ({
            let t = input.text_view();
            let lo = input.lo();
            match r {
                Ok((rest, (start, end))) => {
                    let e = body_spec(t, lo, input.hi())->0;
                    &&& body_spec(t, lo, input.hi()) is Some
                    &&& start.is_at(t, lo + 1, lo + 1)
                    &&& end.is_at(t, e, e)
                    &&& rest.is_at(t, e, input.hi())
                },
                Err(_) => body_spec(t, lo, input.hi()) is None,
            }
        }),
{
    let ghost t = input.text_view();
    let ghost hi = input.hi();
    let ghost lo = input.lo();
    let (after_open, _start) = match_body_start(input)?;
    let (after_open, start_pos) = position(after_open);
    let mut start_braces: usize = 1;
    let mut end_braces: usize = 0;
    let mut cur = after_open;
    proof {
        use_type_invariant(&after_open);
        LocatedSpan::lemma_bounded(after_open);
    }
    loop
        invariant
            t == input.text_view(),
            hi == input.hi(),
            lo == input.lo(),
            4 * t.len() < usize::MAX,
            hi <= t.len(),
            start_pos.is_at(t, lo + 1, lo + 1),
            tag_at(t, lo, hi, seq!['{']),
            cur.text_view() == t,
            cur.hi() == hi,
            lo + 1 <= cur.lo() <= hi,
            end_braces <= start_braces,
            start_braces - end_braces >= 1,
            start_braces <= cur.lo() - lo,
            close_pos(t, lo + 1, hi, 1) == close_pos(t, cur.lo(), hi, start_braces - end_braces),
        decreases hi - cur.lo(),
    {
        let ghost depth = start_braces - end_braces;
        let ghost i = cur.lo();
        let (next, piece) = match match_body_start(cur) {
            Ok(x) => x,
            Err(_) => match match_body_end(cur) {
                Ok(x) => x,
                Err(_) => match take_chars(cur, 1) {
                    Ok(x) => x,
                    Err(e) => {
                        return Err(e);
                    },
                },
            },
        };
        proof {
            assert(t.subrange(i, i + 1)[0] == t[i]);
        }
        let c = piece.char_at(piece.offset());
        if c == '{' {
            start_braces = start_braces + 1;
        } else if c == '}' {
            end_braces = end_braces + 1;
        }
        if start_braces <= end_braces {
            let (rest_input, pos) = position(next);
            return Ok((rest_input, (start_pos, pos)));
        }
        cur = next;
    }
}

/// A `}` that the input starts with.
pub fn match_body_end<'a>(input: Span<'a>) -> (r: PResult<'a, Span<'a>>)
    ensures
        ({
            let t = input.text_view();
            match r {
                Ok((rest, m)) => tag_at(t, input.lo(), input.hi(), seq!['}']) && m.is_at(
                    t,
                    input.lo(),
                    input.lo() + 1,
                ) && rest.is_at(t, input.lo() + 1, input.hi()),
                Err(_) => !tag_at(t, input.lo(), input.hi(), seq!['}']),
            }
        }),
{
    proof {
        reveal_strlit("}");
        assert("}"@ =~= seq!['}']);
    }
    tag(input, "}")
}

/// A `{` that the input starts with.
pub fn match_body_start<'a>(input: Span<'a>) -> (r: PResult<'a, Span<'a>>)
    ensures
        ({
            let t = input.text_view();
            match r {
                Ok((rest, m)) => tag_at(t, input.lo(), input.hi(), seq!['{']) && m.is_at(
                    t,
                    input.lo(),
                    input.lo() + 1,
                ) && rest.is_at(t, input.lo() + 1, input.hi()),
                Err(_) => !tag_at(t, input.lo(), input.hi(), seq!['{']),
            }
        }),
{
    proof {
        reveal_strlit("{");
        assert("{"@ =~= seq!['{']);
    }
    tag(input, "{")
}

/// The next block comment and the code right below it.
pub fn get_symbol_pair<'a>(input: Span<'a>) -> (r: PResult<'a, (SymbolPosition<'a>, SymbolPosition<'a>)>)
    ensures
        ({
            let t = input.text_view();
            match r {
                Ok((rest, p)) => {
                    let m = symbol_pair_spec(t, input.lo(), input.hi())->0;
                    &&& symbol_pair_spec(t, input.lo(), input.hi()) is Some
                    &&& rest.is_at(t, m.rest, input.hi())
                    &&& positions_match(p, t, m)
                },
                Err(_) => symbol_pair_spec(t, input.lo(), input.hi()) is None,
            }
        }),
{
    proof {
        reveal_strlit("/*");
        assert("/*"@ =~= seq!['/', '*']);
        reveal_strlit("*/");
        assert("*/"@ =~= seq!['*', '/']);
        reveal_strlit("\n");
        assert("\n"@ =~= seq!['\n']);
    }
    let ghost t = input.text_view();
    let ghost hi = input.hi();
    let (input, comment_start) = skip_past(input, "/*")?;
    let (input, comment_end) = skip_past(input, "*/")?;
    proof {
        use_type_invariant(&input);
        LocatedSpan::lemma_bounded(input);
        lemma_joined_lines_len(t, input.lo(), hi, 8);
    }
    let new_lines = join_lines(input, 8);
    let (fun_type, comment_type) = match get_symbol_type(new_lines.as_str()) {
        Ok((_, types)) => types,
        Err(_) => (FunType::Empty, CommentType::Free),
    };
    let (input, (fun_start, fun_end)) = match comment_type {
        CommentType::Docstring => {
            let (input, fun_start) = get_symbol_start(input, fun_type)?;
            let (input, fun_end) = get_fun_close(input)?;
            (input, (fun_start, fun_end))
        },
        CommentType::Free => {
            let (input, _) = take_until(input, "\n")?;
            let (input, code_start) = position(input);
            let (input, _) = skip_lines(input, 2)?;
            let (input, code_end) = position(input);
            (input, (code_start, code_end))
        },
    };
    let comment_position = SymbolPosition { start: comment_start, end: comment_end };
    let function_position = SymbolPosition { start: fun_start, end: fun_end };
    Ok((input, (comment_position, function_position)))
}

/// Just inside the body of a function of the given kind.
pub fn get_symbol_start<'a>(input: Span<'a>, fun_type: FunType) -> (r: PResult<'a, Span<'a>>)
    requires
        fun_type != FunType::Empty,
    ensures
        ({
            let t = input.text_view();
            match r {
                Ok((rest, pos)) => {
                    let e = symbol_start_spec(t, input.lo(), input.hi(), fun_type)->0;
                    &&& symbol_start_spec(t, input.lo(), input.hi(), fun_type) is Some
                    &&& rest.is_at(t, e, input.hi())
                    &&& pos.is_at(t, e, e)
                },
                Err(_) => symbol_start_spec(t, input.lo(), input.hi(), fun_type) is None,
            }
        }),
{
    proof {
        reveal_strlit("=>");
        assert("=>"@ =~= seq!['=', '>']);
    }
    match fun_type {
        FunType::Arrow => {
            let (input, _) = skip_then_brace(input, "=>")?;
            let (input, pos) = position(input);
            Ok((input, pos))
        },
        _ => {
            let (input, _) = skip_paren_to_brace(input)?;
            let (input, pos) = position(input);
            Ok((input, pos))
        },
    }
}

/// Says what kind of function, if any, the lines right below a comment
/// open: `input` holds those lines, joined.
pub fn get_symbol_type<'a>(input: &'a str) -> (r: Result<(&'a str, (FunType, CommentType)), ParseError>)
    requires
        4 * input@.len() < usize::MAX,
    ensures
        r matches Ok((rest, types)) && types == symbol_type_spec(input@) && rest@
            == input@.subrange(symbol_type_rest(input@), input@.len() as int),
{
    proof {
        reveal_strlit("=>");
        assert("=>"@ =~= seq!['=', '>']);
        reveal_strlit("arrow");
        assert("arrow"@ =~= seq!['a', 'r', 'r', 'o', 'w']);
        reveal_strlit("normal");
        assert("normal"@ =~= seq!['n', 'o', 'r', 'm', 'a', 'l']);
    }
    let span = Span::new(input);
    let (rest_span, fun): (Span, &str) = match skip_then_brace(span, "=>") {
        Ok((r, _)) => (r, "arrow"),
        Err(_) => match skip_paren_to_brace(span) {
            Ok((r, _)) => (r, "normal"),
            Err(_) => {
                let (r, all) = rest(span);
                proof {
                    assert(input@.subrange(0, input@.len() as int) =~= input@);
                }
                (r, all.fragment())
            },
        },
    };
    let types = if str_eq(fun, "arrow") {
        (FunType::Arrow, CommentType::Docstring)
    } else if str_eq(fun, "normal") {
        (FunType::Normal, CommentType::Docstring)
    } else {
        (FunType::Empty, CommentType::Free)
    };
    Ok((rest_span.fragment(), types))
}

/// The end of a function, from just inside its body: an empty span at the
/// `}` that closes the body, braces nested inside it counted; the scan goes
/// on past it.
pub fn get_fun_close<'a>(input: Span<'a>) -> (r: PResult<'a, Span<'a>>)
    ensures
        ({
            let t = input.text_view();
            match r {
                Ok((rest, pos)) => {
                    let e = close_pos(t, input.lo(), input.hi(), 1)->0;
                    &&& close_pos(t, input.lo(), input.hi(), 1) is Some
                    &&& rest.is_at(t, e, input.hi())
                    &&& pos.is_at(t, e - 1, e - 1)
                },
                Err(_) => close_pos(t, input.lo(), input.hi(), 1) is None,
            }
        }),
{
    fun_close(input)
}


/// The code found for a comment comes after it: the comment's `/*` comes
/// before its `*/`, and the code starts after the `*/` and ends no earlier
/// than it starts.
pub proof fn law_symbol_after_comment(t: Seq<char>, i: int, hi: int)
    requires
        symbol_pair_spec(t, i, hi) is Some,
        0 <= i,
    ensures
        ({
            let m = symbol_pair_spec(t, i, hi)->0;
            &&& i <= m.comment_start
            &&& m.comment_start + 2 <= m.comment_end
            &&& m.comment_end + 2 <= m.fun_start <= m.fun_end < m.rest <= hi
                || m.comment_end + 2 <= m.fun_start <= m.fun_end == m.rest <= hi
        }),
{
    lemma_symbol_pair_spec(t, i, hi);
    let k1 = find(t, i, hi, seq!['/', '*'])->0;
    lemma_find_some(t, i, hi, seq!['/', '*']);
    let k2 = find(t, k1 + 2, hi, seq!['*', '/'])->0;
    lemma_find_some(t, k1 + 2, hi, seq!['*', '/']);
    let c = k2 + 2;
    let m = symbol_pair_spec(t, i, hi)->0;
    if m.rest == m.fun_end {
        let n = find(t, c, hi, seq!['\n'])->0;
        lemma_find_some(t, c, hi, seq!['\n']);
        lemma_past_lines(t, n, hi, 2);
    } else {
        lemma_close_pos(t, m.fun_start, hi, 1);
        let (fun_type, comment_type) = symbol_type_spec(joined_lines(t, c, hi, 8));
        match fun_type {
            FunType::Arrow => lemma_brace_after(t, c, hi, seq!['=', '>']),
            _ => lemma_brace_after_paren(t, c, hi),
        }
    }
}


/// The comments are found in the order they appear: each one starts after
/// the one before it, and none before where the scan began.
pub proof fn law_comments_increase(t: Seq<char>, i: int, hi: int)
    requires
        0 <= i,
    ensures
        ({
            let s = symbol_pairs_spec(t, i, hi);
            &&& forall|k: int| 0 <= k < s.len() ==> i <= #[trigger] s[k].comment_start
            &&& forall|k: int| 0 <= k < s.len() - 1 ==> #[trigger] s[k].comment_start < s[k + 1].comment_start
        }),
    decreases hi - i,
{
    match symbol_pair_spec(t, i, hi) {
        Some(m) => if i < m.rest <= hi {
            law_symbol_after_comment(t, i, hi);
            law_comments_increase(t, m.rest, hi);
            let s = symbol_pairs_spec(t, i, hi);
            let r = symbol_pairs_spec(t, m.rest, hi);
            assert(s == seq![m] + r);
            assert forall|k: int| 0 <= k < s.len() implies i <= #[trigger] s[k].comment_start by {
                if k > 0 {
                    assert(s[k] == r[k - 1]);
                }
            }
            assert forall|k: int| 0 <= k < s.len() - 1 implies #[trigger] s[k].comment_start < s[k + 1].comment_start by {
                assert(s[k + 1] == r[k]);
                if k > 0 {
                    assert(s[k] == r[k - 1]);
                }
            }
        },
        None => {},
    }
}

/// An arrow function's body starts just past the `{` that follows the
/// first `=>` after blank space: when the first `=>` from `i` is at `k` and
/// only blank space stands between it and a `{` at `w`, the code of an arrow
/// function starts at `w + 1`.
pub proof fn law_arrow_body_start(t: Seq<char>, i: int, hi: int, k: int, w: int)
    requires
        0 <= i <= k,
        k + 2 <= w < hi <= t.len(),
        t[k] == '=' && t[k + 1] == '>',
        forall|j: int| i <= j < k ==> !(t[j] == '=' && #[trigger] t[j + 1] == '>'),
        forall|j: int| k + 2 <= j < w ==> is_whitespace_char(#[trigger] t[j]),
        t[w] == '{',
    ensures
        symbol_start_spec(t, i, hi, FunType::Arrow) == Some(w + 1),
{
    let p = seq!['=', '>'];
    assert(t.subrange(k, k + 2) =~= p);
    assert forall|j: int| i <= j < k implies !tag_at(t, j, hi, p) by {
        if tag_at(t, j, hi, p) {
            assert(t.subrange(j, j + 2)[0] == t[j]);
            assert(t.subrange(j, j + 2)[1] == t[j + 1]);
        }
    }
    lemma_find_first(t, i, hi, p, k);
    lemma_run_end_at(t, k + 2, hi, ws_pred(), w);
    assert(t.subrange(w, w + 1) =~= seq!['{']);
}

/// A normal function's body starts just past the first `{` after the first
/// `)`: when the first `)` from `i` is at `k` and the first `{` after it at
/// `w`, the code of a normal function starts at `w + 1`.
pub proof fn law_normal_body_start(t: Seq<char>, i: int, hi: int, k: int, w: int)
    requires
        0 <= i <= k < w < hi <= t.len(),
        t[k] == ')',
        forall|j: int| i <= j < k ==> #[trigger] t[j] != ')',
        t[w] == '{',
        forall|j: int| k < j < w ==> #[trigger] t[j] != '{',
    ensures
        symbol_start_spec(t, i, hi, FunType::Normal) == Some(w + 1),
{
    assert(t.subrange(k, k + 1) =~= seq![')']);
    assert forall|j: int| i <= j < k implies !tag_at(t, j, hi, seq![')']) by {
        assert(t.subrange(j, j + 1)[0] == t[j]);
    }
    lemma_find_first(t, i, hi, seq![')'], k);
    assert(t.subrange(w, w + 1) =~= seq!['{']);
    assert forall|j: int| k + 1 <= j < w implies !tag_at(t, j, hi, seq!['{']) by {
        assert(t.subrange(j, j + 1)[0] == t[j]);
    }
    lemma_find_first(t, k + 1, hi, seq!['{'], w);
}

/// A comment above a function is paired with that function: when the lines
/// below the comment open a function whose body starts at `p` and whose
/// braces close just before `e`, the pair runs from the comment to the body,
/// which ends at a `}`, and the scan goes on past it.
pub proof fn law_documented_function_found(t: Seq<char>, i: int, hi: int, k1: int, k2: int, p: int, e: int)
    requires
        comment_bounds(t, i, hi) == Some((k1, k2)),
        symbol_type_spec(joined_lines(t, k2 + 2, hi, 8)).1 == CommentType::Docstring,
        symbol_start_spec(t, k2 + 2, hi, symbol_type_spec(joined_lines(t, k2 + 2, hi, 8)).0) == Some(p),
        close_pos(t, p, hi, 1) == Some(e),
        hi <= t.len(),
    ensures
        symbol_pair_spec(t, i, hi) == Some(FunSpans { comment_start: k1, comment_end: k2, fun_start: p, fun_end: e - 1, rest: e }),
        t[e - 1] == '}',
        p < e <= hi,
{
    lemma_close_pos(t, p, hi, 1);
}

/// How a character changes the number of open braces.
pub open spec fn brace_delta(c: char) -> int {
    if c == '{' {
        1
    } else if c == '}' {
        -1
    } else {
        0
    }
}

/// Braces opened minus braces closed in `[a, b)`.
pub open spec fn depth(t: Seq<char>, a: int, b: int) -> int
    decreases b - a,
{
    if b <= a {
        0
    } else {
        depth(t, a, b - 1) + brace_delta(t[b - 1])
    }
}

proof fn lemma_depth_peel(t: Seq<char>, a: int, b: int)
    requires
        a < b,
    ensures
        depth(t, a, b) == brace_delta(t[a]) + depth(t, a + 1, b),
    decreases b - a,
{
    assert(depth(t, a, a) == 0);
    assert(depth(t, a + 1, a + 1) == 0);
    if b - 1 > a {
        lemma_depth_peel(t, a, b - 1);
        assert(depth(t, a + 1, b) == depth(t, a + 1, b - 1) + brace_delta(t[b - 1]));
    }
}

/// Scanning from `i` with `d` braces open stops just past the first `}`
/// that leaves none open; before it, some stay open all along.
pub proof fn law_close_pos_balances(t: Seq<char>, i: int, hi: int, d: int)
    requires
        d >= 1,
        0 <= i,
        hi <= t.len(),
        close_pos(t, i, hi, d) is Some,
    ensures
        ({
            let e = close_pos(t, i, hi, d)->0;
            &&& i < e <= hi
            &&& t[e - 1] == '}'
            &&& d + depth(t, i, e) == 0
            &&& forall|j: int| i <= j < e ==> d + #[trigger] depth(t, i, j) > 0
        }),
    decreases hi - i,
{
    let dd = d + brace_delta(t[i]);
    if dd <= 0 {
        assert(depth(t, i, i) == 0);
        assert(depth(t, i, i + 1) == brace_delta(t[i]));
        assert forall|j: int| i <= j < i + 1 implies d + #[trigger] depth(t, i, j) > 0 by {
            assert(j == i);
        }
    } else {
        law_close_pos_balances(t, i + 1, hi, dd);
        let e = close_pos(t, i, hi, d)->0;
        lemma_depth_peel(t, i, e);
        assert forall|j: int| i <= j < e implies d + #[trigger] depth(t, i, j) > 0 by {
            if j > i {
                lemma_depth_peel(t, i, j);
                assert(dd + depth(t, i + 1, j) > 0);
            }
        }
    }
}

/// A body in braces ends at the `}` that closes its `{`: counting from
/// just inside the `{`, the braces first balance just past that `}`.
pub proof fn law_body_balances(t: Seq<char>, lo: int, hi: int)
    requires
        0 <= lo,
        hi <= t.len(),
        body_spec(t, lo, hi) is Some,
    ensures
        ({
            let e = body_spec(t, lo, hi)->0;
            &&& t[lo] == '{'
            &&& lo + 1 < e <= hi
            &&& t[e - 1] == '}'
            &&& 1 + depth(t, lo + 1, e) == 0
            &&& forall|j: int| lo + 1 <= j < e ==> 1 + #[trigger] depth(t, lo + 1, j) > 0
        }),
{
    assert(t.subrange(lo, lo + 1)[0] == t[lo]);
    law_close_pos_balances(t, lo + 1, hi, 1);
}

} // verus!
