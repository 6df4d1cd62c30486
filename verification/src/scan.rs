//! The scanning steps that the comment and symbol grammars are built from.
//!
//! Each step looks at a span and either fails or splits it into the part it
//! matched and the part that is left. Positions are character indices into
//! the span's text; a step never looks past the end of its span.
use vstd::prelude::*;
use crate::span::LocatedSpan;

verus! {

/// A step did not match.
#[derive(Debug, Clone, Copy, PartialEq, Eq)]
pub struct ParseError;

/// What a step gives back: the rest of the input and what it matched.
pub type PResult<'a, O> = Result<(LocatedSpan<'a>, O), ParseError>;

/// The Unicode `White_Space` property of a character: tab, line feed,
/// vertical tab, form feed, carriage return, space, next line, no-break
/// space, and the Ogham, typographic, line, paragraph and ideographic spaces.
pub open spec fn is_whitespace_char(c: char) -> bool {
    let n = c as u32;
    ||| 0x9 <= n <= 0xD
    ||| n == 0x20
    ||| n == 0x85
    ||| n == 0xA0
    ||| n == 0x1680
    ||| 0x2000 <= n <= 0x200A
    ||| n == 0x2028
    ||| n == 0x2029
    ||| n == 0x202F
    ||| n == 0x205F
    ||| n == 0x3000
}

/// The Unicode alphabetic-or-numeric property of a character beyond ASCII.
pub uninterp spec fn is_non_ascii_alphanumeric(c: char) -> bool;

/// The Unicode alphabetic-or-numeric property of a character: among ASCII
/// characters, the letters and digits.
pub open spec fn is_alphanumeric_char(c: char) -> bool {
    if (c as u32) < 0x80 {
        is_ascii_alnum(c)
    } else {
        is_non_ascii_alphanumeric(c)
    }
}

/// `char::is_whitespace`: whether the character has the Unicode
/// `White_Space` property.
#[verifier::external_body]
pub(crate) fn char_is_whitespace(c: char) -> (r: bool)
    ensures
        r == is_whitespace_char(c),
{
    c.is_whitespace()
}

/// `char::is_alphanumeric`: whether the character is alphabetic or numeric
/// in the Unicode sense. Among ASCII characters that is the letters and
/// digits; beyond ASCII the contract names the property.
#[verifier::external_body]
pub(crate) fn char_is_alphanumeric(c: char) -> (r: bool)
    ensures
        r == is_alphanumeric_char(c),
        (c as u32) >= 0x80 ==> r == is_non_ascii_alphanumeric(c),
{
    c.is_alphanumeric()
}

/// The characters that `multispace0` skips.
pub open spec fn is_multispace(c: char) -> bool {
    c == ' ' || c == '\t' || c == '\r' || c == '\n'
}

/// An ASCII letter or digit.
pub open spec fn is_ascii_alnum(c: char) -> bool {
    ('a' <= c && c <= 'z') || ('A' <= c && c <= 'Z') || ('0' <= c && c <= '9')
}

fn multispace_char(c: char) -> (r: bool)
    ensures
        r == is_multispace(c),
{
    c == ' ' || c == '\t' || c == '\r' || c == '\n'
}

fn ascii_alnum_char(c: char) -> (r: bool)
    ensures
        r == is_ascii_alnum(c),
{
    ('a' <= c && c <= 'z') || ('A' <= c && c <= 'Z') || ('0' <= c && c <= '9')
}

/// `p` occurs in `t` at index `i` and ends no later than `hi`.
pub open spec fn tag_at(t: Seq<char>, i: int, hi: int, p: Seq<char>) -> bool {
    &&& 0 <= i
    &&& i + p.len() <= hi
    &&& hi <= t.len()
    &&& t.subrange(i, i + p.len()) == p
}

/// The first index `k >= i` at which `p` occurs in `t` and ends by `hi`.
pub open spec fn find(t: Seq<char>, i: int, hi: int, p: Seq<char>) -> Option<int>
    decreases hi + 1 - i,
{
    if i < 0 || i + p.len() > hi || hi > t.len() {
        None
    } else if tag_at(t, i, hi, p) {
        Some(i)
    } else {
        find(t, i + 1, hi, p)
    }
}

/// The end of the longest run from `i` (up to `hi`) of characters satisfying `f`.
pub open spec fn run_end(t: Seq<char>, i: int, hi: int, f: spec_fn(char) -> bool) -> int
    decreases hi - i,
{
    if i >= hi {
        i
    } else if f(t[i]) {
        run_end(t, i + 1, hi, f)
    } else {
        i
    }
}

pub open spec fn ws_pred() -> spec_fn(char) -> bool {
    |c: char| is_whitespace_char(c)
}

pub open spec fn ws_end(t: Seq<char>, i: int, hi: int) -> int {
    run_end(t, i, hi, ws_pred())
}

pub open spec fn alnum_pred() -> spec_fn(char) -> bool {
    |c: char| is_alphanumeric_char(c)
}

pub open spec fn alnum_end(t: Seq<char>, i: int, hi: int) -> int {
    run_end(t, i, hi, alnum_pred())
}

/// A character that can stand in a name: a letter or digit, `_` or `$`.
pub open spec fn is_ident_char(c: char) -> bool {
    is_alphanumeric_char(c) || c == '_' || c == '$'
}

pub open spec fn ident_pred() -> spec_fn(char) -> bool {
    |c: char| is_ident_char(c)
}

pub open spec fn ident_end(t: Seq<char>, i: int, hi: int) -> int {
    run_end(t, i, hi, ident_pred())
}

pub open spec fn multispace_pred() -> spec_fn(char) -> bool {
    |c: char| is_multispace(c)
}

pub open spec fn multispace_end(t: Seq<char>, i: int, hi: int) -> int {
    run_end(t, i, hi, multispace_pred())
}

pub open spec fn ascii_alnum_pred() -> spec_fn(char) -> bool {
    |c: char| is_ascii_alnum(c)
}

pub open spec fn ascii_alnum_end(t: Seq<char>, i: int, hi: int) -> int {
    run_end(t, i, hi, ascii_alnum_pred())
}

pub proof fn lemma_find_some(t: Seq<char>, i: int, hi: int, p: Seq<char>)
    requires
        find(t, i, hi, p) is Some,
    ensures
        i <= find(t, i, hi, p)->0,
        tag_at(t, find(t, i, hi, p)->0, hi, p),
        forall|j: int| i <= j < find(t, i, hi, p)->0 ==> !tag_at(t, j, hi, p),
    decreases hi + 1 - i,
{
    if !tag_at(t, i, hi, p) {
        lemma_find_some(t, i + 1, hi, p);
    }
}

pub proof fn lemma_find_none(t: Seq<char>, i: int, j: int, hi: int, p: Seq<char>)
    requires
        find(t, i, hi, p) is None,
        0 <= i <= j,
    ensures
        find(t, j, hi, p) is None,
    decreases j - i,
{
    if i < j {
        if i < 0 || i + p.len() > hi || hi > t.len() {
        } else {
            lemma_find_none(t, i + 1, j, hi, p);
        }
    }
}

/// `find` gives the first place from `i` where `p` occurs.
pub proof fn lemma_find_first(t: Seq<char>, i: int, hi: int, p: Seq<char>, k: int)
    requires
        0 <= i <= k,
        tag_at(t, k, hi, p),
        forall|j: int| i <= j < k ==> !tag_at(t, j, hi, p),
    ensures
        find(t, i, hi, p) == Some(k),
    decreases k - i,
{
    if i < k {
        lemma_find_first(t, i + 1, hi, p, k);
    }
}

/// A run stops at the first character that does not belong to it.
pub proof fn lemma_run_end_at(t: Seq<char>, i: int, hi: int, f: spec_fn(char) -> bool, w: int)
    requires
        i <= w < hi,
        forall|j: int| i <= j < w ==> f(t[j]),
        !f(t[w]),
    ensures
        run_end(t, i, hi, f) == w,
    decreases w - i,
{
    if i < w {
        lemma_run_end_at(t, i + 1, hi, f, w);
    }
}

pub proof fn lemma_run_end(t: Seq<char>, i: int, hi: int, f: spec_fn(char) -> bool)
    requires
        i <= hi <= t.len(),
    ensures
        i <= run_end(t, i, hi, f) <= hi,
        forall|j: int| i <= j < run_end(t, i, hi, f) ==> f(t[j]),
        run_end(t, i, hi, f) < hi ==> !f(t[run_end(t, i, hi, f)]),
    decreases hi - i,
{
    if i < hi && f(t[i]) {
        lemma_run_end(t, i + 1, hi, f);
    }
}

/// Whether `p` occurs at index `i` of the input's text, ending by `hi`.
fn matches_at(input: &LocatedSpan, i: usize, hi: usize, p: &str, plen: usize) -> (r: bool)
    requires
        plen == p@.len(),
        input.bounded(),
        hi <= input.text_view().len(),
    ensures
        r == tag_at(input.text_view(), i as int, hi as int, p@),
{
    if i > hi || plen > hi - i {
        return false;
    }
    let ghost t = input.text_view();
    let mut j: usize = 0;
    while j < plen
        invariant
            i + plen <= hi <= t.len(),
            t == input.text_view(),
            plen == p@.len(),
            j <= plen,
            forall|k: int| 0 <= k < j ==> t[i + k] == p@[k],
        decreases plen - j,
    {
        if input.char_at(i + j) != p.get_char(j) {
            assert(t.subrange(i as int, i + plen)[j as int] != p@[j as int]);
            return false;
        }
        j = j + 1;
    }
    assert(t.subrange(i as int, i + plen) =~= p@);
    true
}

/// `tag`: the input starts with `p`.
pub fn tag<'a>(input: LocatedSpan<'a>, p: &str) -> (r: PResult<'a, LocatedSpan<'a>>)
    ensures
        ({
            let t = input.text_view();
            match r {
                Ok((rest, m)) => {
                    &&& tag_at(t, input.lo(), input.hi(), p@)
                    &&& m.is_at(t, input.lo(), input.lo() + p@.len())
                    &&& rest.is_at(t, input.lo() + p@.len(), input.hi())
                },
                Err(_) => !tag_at(t, input.lo(), input.hi(), p@),
            }
        }),
{
    let lo = input.offset();
    let hi = input.limit();
    let plen = p.unicode_len();
    if matches_at(&input, lo, hi, p, plen) {
        Ok((input.slice(lo + plen, hi), input.slice(lo, lo + plen)))
    } else {
        Err(ParseError)
    }
}

/// `take_until`: everything before the first occurrence of `p`.
pub fn take_until<'a>(input: LocatedSpan<'a>, p: &str) -> (r: PResult<'a, LocatedSpan<'a>>)
    ensures
        ({
            let t = input.text_view();
            match r {
                Ok((rest, m)) => {
                    &&& find(t, input.lo(), input.hi(), p@) == Some(rest.lo())
                    &&& m.is_at(t, input.lo(), rest.lo())
                    &&& rest.is_at(t, rest.lo(), input.hi())
                },
                Err(_) => find(t, input.lo(), input.hi(), p@) is None,
            }
        }),
{
    let lo = input.offset();
    let hi = input.limit();
    let plen = p.unicode_len();
    let ghost t = input.text_view();
    let mut i: usize = lo;
    loop
        invariant
            input.bounded(),
            t == input.text_view(),
            lo == input.lo(),
            hi == input.hi(),
            plen == p@.len(),
            lo <= i <= hi,
            find(t, lo as int, hi as int, p@) == find(t, i as int, hi as int, p@),
        decreases hi - i,
    {
        if matches_at(&input, i, hi, p, plen) {
            return Ok((input.slice(i, hi), input.slice(lo, i)));
        }
        if i == hi {
            assert(find(t, i + 1, hi as int, p@) is None);
            return Err(ParseError);
        }
        i = i + 1;
    }
}

/// Splits off the characters from the input's start up to `end`.
fn split_at_index<'a>(input: LocatedSpan<'a>, end: usize) -> (r: (LocatedSpan<'a>, LocatedSpan<'a>))
    requires
        input.lo() <= end <= input.hi(),
    ensures
        r.0.is_at(input.text_view(), end as int, input.hi()),
        r.1.is_at(input.text_view(), input.lo(), end as int),
{
    let lo = input.offset();
    let hi = input.limit();
    (input.slice(end, hi), input.slice(lo, end))
}

/// `take_while(char::is_whitespace)`.
pub fn take_while_whitespace<'a>(input: LocatedSpan<'a>) -> (r: (LocatedSpan<'a>, LocatedSpan<'a>))
    ensures
        ({
            let t = input.text_view();
            let e = ws_end(t, input.lo(), input.hi());
            &&& r.0.is_at(t, e, input.hi())
            &&& r.1.is_at(t, input.lo(), e)
        }),
{
    let lo = input.offset();
    let hi = input.limit();
    let ghost t = input.text_view();
    let mut i: usize = lo;
    while i < hi && char_is_whitespace(input.char_at(i))
        invariant
            input.bounded(),
            t == input.text_view(),
            lo == input.lo(),
            hi == input.hi(),
            lo <= i <= hi,
            ws_end(t, lo as int, hi as int) == ws_end(t, i as int, hi as int),
        decreases hi - i,
    {
        i = i + 1;
    }
    split_at_index(input, i)
}

fn ident_char(c: char) -> (r: bool)
    ensures
        r == is_ident_char(c),
{
    char_is_alphanumeric(c) || c == '_' || c == '$'
}

/// The characters of a name (letters, digits, `_` and `$`); possibly none.
pub fn take_while_identifier<'a>(input: LocatedSpan<'a>) -> (r: (LocatedSpan<'a>, LocatedSpan<'a>))
    ensures
        ({
            let t = input.text_view();
            let e = ident_end(t, input.lo(), input.hi());
            &&& r.0.is_at(t, e, input.hi())
            &&& r.1.is_at(t, input.lo(), e)
        }),
{
    let lo = input.offset();
    let hi = input.limit();
    let ghost t = input.text_view();
    let mut i: usize = lo;
    while i < hi && ident_char(input.char_at(i))
        invariant
            input.bounded(),
            t == input.text_view(),
            lo == input.lo(),
            hi == input.hi(),
            lo <= i <= hi,
            ident_end(t, lo as int, hi as int) == ident_end(t, i as int, hi as int),
        decreases hi - i,
    {
        i = i + 1;
    }
    split_at_index(input, i)
}

/// `take_while1(char::is_whitespace)`: at least one whitespace character.
pub fn take_while1_whitespace<'a>(input: LocatedSpan<'a>) -> (r: PResult<'a, LocatedSpan<'a>>)
    ensures
        ({
            let t = input.text_view();
            let e = ws_end(t, input.lo(), input.hi());
            match r {
                Ok((rest, m)) => e > input.lo() && rest.is_at(t, e, input.hi()) && m.is_at(
                    t,
                    input.lo(),
                    e,
                ),
                Err(_) => e == input.lo(),
            }
        }),
{
    let (rest, m) = take_while_whitespace(input);
    proof {
        use_type_invariant(&input);
        LocatedSpan::lemma_bounded(input);
        lemma_run_end(input.text_view(), input.lo(), input.hi(), ws_pred());
    }
    if rest.offset() == input.offset() {
        Err(ParseError)
    } else {
        Ok((rest, m))
    }
}

/// `take_while1(char::is_alphanumeric)`: at least one letter or digit.
pub fn take_while1_alphanumeric<'a>(input: LocatedSpan<'a>) -> (r: PResult<'a, LocatedSpan<'a>>)
    ensures
        ({
            let t = input.text_view();
            let e = alnum_end(t, input.lo(), input.hi());
            match r {
                Ok((rest, m)) => e > input.lo() && rest.is_at(t, e, input.hi()) && m.is_at(
                    t,
                    input.lo(),
                    e,
                ),
                Err(_) => e == input.lo(),
            }
        }),
{
    let lo = input.offset();
    let hi = input.limit();
    let ghost t = input.text_view();
    let mut i: usize = lo;
    while i < hi && char_is_alphanumeric(input.char_at(i))
        invariant
            input.bounded(),
            t == input.text_view(),
            lo == input.lo(),
            hi == input.hi(),
            lo <= i <= hi,
            alnum_end(t, lo as int, hi as int) == alnum_end(t, i as int, hi as int),
        decreases hi - i,
    {
        i = i + 1;
    }
    proof { lemma_run_end(t, lo as int, hi as int, alnum_pred()); }
    if i == lo {
        Err(ParseError)
    } else {
        Ok(split_at_index(input, i))
    }
}

/// `multispace0`: spaces, tabs, carriage returns and newlines.
pub fn multispace0<'a>(input: LocatedSpan<'a>) -> (r: (LocatedSpan<'a>, LocatedSpan<'a>))
    ensures
        ({
            let t = input.text_view();
            let e = multispace_end(t, input.lo(), input.hi());
            &&& r.0.is_at(t, e, input.hi())
            &&& r.1.is_at(t, input.lo(), e)
        }),
{
    let lo = input.offset();
    let hi = input.limit();
    let ghost t = input.text_view();
    let mut i: usize = lo;
    while i < hi && multispace_char(input.char_at(i))
        invariant
            input.bounded(),
            t == input.text_view(),
            lo == input.lo(),
            hi == input.hi(),
            lo <= i <= hi,
            multispace_end(t, lo as int, hi as int) == multispace_end(t, i as int, hi as int),
        decreases hi - i,
    {
        i = i + 1;
    }
    split_at_index(input, i)
}

/// `alphanumeric1`: at least one ASCII letter or digit.
pub fn alphanumeric1<'a>(input: LocatedSpan<'a>) -> (r: PResult<'a, LocatedSpan<'a>>)
    ensures
        ({
            let t = input.text_view();
            let e = ascii_alnum_end(t, input.lo(), input.hi());
            match r {
                Ok((rest, m)) => e > input.lo() && rest.is_at(t, e, input.hi()) && m.is_at(
                    t,
                    input.lo(),
                    e,
                ),
                Err(_) => e == input.lo(),
            }
        }),
{
    let lo = input.offset();
    let hi = input.limit();
    let ghost t = input.text_view();
    let mut i: usize = lo;
    while i < hi && ascii_alnum_char(input.char_at(i))
        invariant
            input.bounded(),
            t == input.text_view(),
            lo == input.lo(),
            hi == input.hi(),
            lo <= i <= hi,
            ascii_alnum_end(t, lo as int, hi as int) == ascii_alnum_end(t, i as int, hi as int),
        decreases hi - i,
    {
        i = i + 1;
    }
    proof { lemma_run_end(t, lo as int, hi as int, ascii_alnum_pred()); }
    if i == lo {
        Err(ParseError)
    } else {
        Ok(split_at_index(input, i))
    }
}

/// `take(n)`: exactly `n` characters.
pub fn take_chars<'a>(input: LocatedSpan<'a>, n: usize) -> (r: PResult<'a, LocatedSpan<'a>>)
    ensures
        ({
            let t = input.text_view();
            match r {
                Ok((rest, m)) => {
                    &&& input.lo() + n <= input.hi()
                    &&& rest.is_at(t, input.lo() + n, input.hi())
                    &&& m.is_at(t, input.lo(), input.lo() + n)
                },
                Err(_) => input.lo() + n > input.hi(),
            }
        }),
{
    let lo = input.offset();
    let hi = input.limit();
    if n <= hi - lo {
        Ok(split_at_index(input, lo + n))
    } else {
        Err(ParseError)
    }
}

/// `position`: an empty span where the input starts; the input is kept.
pub fn position<'a>(input: LocatedSpan<'a>) -> (r: (LocatedSpan<'a>, LocatedSpan<'a>))
    ensures
        r.0.is_at(input.text_view(), input.lo(), input.hi()),
        r.1.is_at(input.text_view(), input.lo(), input.lo()),
{
    let lo = input.offset();
    let hi = input.limit();
    (input.slice(lo, hi), input.slice(lo, lo))
}

/// `rest`: all of the input; nothing is left.
pub fn rest<'a>(input: LocatedSpan<'a>) -> (r: (LocatedSpan<'a>, LocatedSpan<'a>))
    ensures
        r.0.is_at(input.text_view(), input.hi(), input.hi()),
        r.1.is_at(input.text_view(), input.lo(), input.hi()),
{
    let lo = input.offset();
    let hi = input.limit();
    (input.slice(hi, hi), input.slice(lo, hi))
}

/// `preceded(take_until(p), tag(p))`: skips past the first occurrence of `p`,
/// and gives that occurrence back.
pub fn skip_past<'a>(input: LocatedSpan<'a>, p: &str) -> (r: PResult<'a, LocatedSpan<'a>>)
    ensures
        ({
            let t = input.text_view();
            match r {
                Ok((rest, m)) => {
                    let k = find(t, input.lo(), input.hi(), p@)->0;
                    &&& find(t, input.lo(), input.hi(), p@) is Some
                    &&& m.is_at(t, k, k + p@.len())
                    &&& rest.is_at(t, k + p@.len(), input.hi())
                },
                Err(_) => find(t, input.lo(), input.hi(), p@) is None,
            }
        }),
{
    let ghost t = input.text_view();
    let (rest, _) = take_until(input, p)?;
    proof {
        lemma_find_some(t, input.lo(), input.hi(), p@);
    }
    tag(rest, p)
}

/// After the first `p` from `i`: blank space, then `{`; just past the `{`.
pub open spec fn brace_after(t: Seq<char>, i: int, hi: int, p: Seq<char>) -> Option<int> {
    match find(t, i, hi, p) {
        Some(k) => {
            let w = ws_end(t, k + p.len(), hi);
            if tag_at(t, w, hi, seq!['{']) {
                Some(w + 1)
            } else {
                None
            }
        },
        None => None,
    }
}

/// After the first `)` from `i`, the first `{`; just past it.
pub open spec fn brace_after_paren(t: Seq<char>, i: int, hi: int) -> Option<int> {
    match find(t, i, hi, seq![')']) {
        Some(k) => match find(t, k + 1, hi, seq!['{']) {
            Some(m) => Some(m + 1),
            None => None,
        },
        None => None,
    }
}

/// The first `n` lines from `i` that end in a newline, joined without their
/// newlines.
pub open spec fn joined_lines(t: Seq<char>, i: int, hi: int, n: nat) -> Seq<char>
    decreases n,
{
    if n == 0 {
        Seq::empty()
    } else {
        match find(t, i, hi, seq!['\n']) {
            Some(k) => t.subrange(i, k) + joined_lines(t, k + 1, hi, (n - 1) as nat),
            None => Seq::empty(),
        }
    }
}

/// Just past the `n`-th newline from `i`.
pub open spec fn past_lines(t: Seq<char>, i: int, hi: int, n: nat) -> Option<int>
    decreases n,
{
    if n == 0 {
        Some(i)
    } else {
        match find(t, i, hi, seq!['\n']) {
            Some(k) => past_lines(t, k + 1, hi, (n - 1) as nat),
            None => None,
        }
    }
}

pub proof fn lemma_brace_after(t: Seq<char>, i: int, hi: int, p: Seq<char>)
    requires
        brace_after(t, i, hi, p) is Some,
    ensures
        i < brace_after(t, i, hi, p)->0 <= hi,
{
    let k = find(t, i, hi, p)->0;
    lemma_find_some(t, i, hi, p);
    lemma_run_end(t, k + p.len(), hi, ws_pred());
}

pub proof fn lemma_brace_after_paren(t: Seq<char>, i: int, hi: int)
    requires
        brace_after_paren(t, i, hi) is Some,
    ensures
        i < brace_after_paren(t, i, hi)->0 <= hi,
{
    let k = find(t, i, hi, seq![')'])->0;
    lemma_find_some(t, i, hi, seq![')']);
    lemma_find_some(t, k + 1, hi, seq!['{']);
}

pub proof fn lemma_past_lines(t: Seq<char>, i: int, hi: int, n: nat)
    requires
        past_lines(t, i, hi, n) is Some,
        0 <= i,
    ensures
        i <= past_lines(t, i, hi, n)->0,
        n > 0 ==> i < past_lines(t, i, hi, n)->0 <= hi,
    decreases n,
{
    if n > 0 {
        let k = find(t, i, hi, seq!['\n'])->0;
        lemma_find_some(t, i, hi, seq!['\n']);
        lemma_past_lines(t, k + 1, hi, (n - 1) as nat);
    }
}

pub proof fn lemma_joined_lines_len(t: Seq<char>, i: int, hi: int, n: nat)
    requires
        0 <= i <= hi <= t.len(),
    ensures
        joined_lines(t, i, hi, n).len() <= hi - i,
    decreases n,
{
    if n > 0 {
        match find(t, i, hi, seq!['\n']) {
            Some(k) => {
                lemma_find_some(t, i, hi, seq!['\n']);
                lemma_joined_lines_len(t, k + 1, hi, (n - 1) as nat);
            },
            None => {},
        }
    }
}

/// `preceded(take_until(p), tag(p))`, then blank space, then `{`; gives
/// back the `{`.
pub fn skip_then_brace<'a>(input: LocatedSpan<'a>, p: &str) -> (r: PResult<'a, LocatedSpan<'a>>)
    ensures
        ({
            let t = input.text_view();
            match r {
                Ok((rest, brace)) => {
                    let e = brace_after(t, input.lo(), input.hi(), p@)->0;
                    &&& brace_after(t, input.lo(), input.hi(), p@) is Some
                    &&& rest.is_at(t, e, input.hi())
                    &&& brace.is_at(t, e - 1, e)
                },
                Err(_) => brace_after(t, input.lo(), input.hi(), p@) is None,
            }
        }),
{
    proof {
        reveal_strlit("{");
        assert("{"@ =~= seq!['{']);
    }
    let (input2, _) = skip_past(input, p)?;
    let (input3, _) = take_while_whitespace(input2);
    tag(input3, "{")
}

/// `)`, then anything up to the first `{`, then that `{`; gives back the `{`.
pub fn skip_paren_to_brace<'a>(input: LocatedSpan<'a>) -> (r: PResult<'a, LocatedSpan<'a>>)
    ensures
        ({
            let t = input.text_view();
            match r {
                Ok((rest, brace)) => {
                    let e = brace_after_paren(t, input.lo(), input.hi())->0;
                    &&& brace_after_paren(t, input.lo(), input.hi()) is Some
                    &&& rest.is_at(t, e, input.hi())
                    &&& brace.is_at(t, e - 1, e)
                },
                Err(_) => brace_after_paren(t, input.lo(), input.hi()) is None,
            }
        }),
{
    proof {
        reveal_strlit("{");
        assert("{"@ =~= seq!['{']);
        reveal_strlit(")");
        assert(")"@ =~= seq![')']);
    }
    let (input2, _) = skip_past(input, ")")?;
    skip_past(input2, "{")
}

/// `fold_many_m_n(0, n, terminated(take_until("\n"), tag("\n")), ..)`: the
/// first `n` complete lines, joined without their newlines. What is left of
/// the input is not given back.
pub fn join_lines(input: LocatedSpan, n: usize) -> (r: String)
    ensures
        r@ == joined_lines(input.text_view(), input.lo(), input.hi(), n as nat),
{
    proof {
        reveal_strlit("\n");
        assert("\n"@ =~= seq!['\n']);
    }
    let ghost t = input.text_view();
    let ghost hi = input.hi();
    let mut joined = String::new();
    let mut cur = input;
    let mut count: usize = 0;
    loop
        invariant
            "\n"@ == seq!['\n'],
            cur.text_view() == t,
            cur.hi() == hi,
            count <= n,
            joined@ + joined_lines(t, cur.lo(), hi, (n - count) as nat) == joined_lines(
                t,
                input.lo(),
                hi,
                n as nat,
            ),
        ensures
            joined@ == joined_lines(t, input.lo(), hi, n as nat),
        decreases n - count,
    {
        if count == n {
            assert(joined@ + joined_lines(t, cur.lo(), hi, 0) =~= joined@);
            break;
        }
        match take_until(cur, "\n") {
            Ok((rest, line)) => {
                proof {
                    lemma_find_some(t, cur.lo(), hi, seq!['\n']);
                }
                let (rest2, _) = match tag(rest, "\n") {
                    Ok(x) => x,
                    Err(_) => {
                        assert(false);
                        break;
                    },
                };
                let frag = line.fragment();
                let ghost prev = joined@;
                joined.append(frag);
                proof {
                    assert(joined_lines(t, cur.lo(), hi, (n - count) as nat) == t.subrange(
                        cur.lo(),
                        rest.lo(),
                    ) + joined_lines(t, rest2.lo(), hi, (n - count - 1) as nat));
                    assert(joined@ + joined_lines(t, rest2.lo(), hi, (n - count - 1) as nat)
                        =~= prev + joined_lines(t, cur.lo(), hi, (n - count) as nat));
                }
                cur = rest2;
                count = count + 1;
            },
            Err(_) => {
                assert(joined@ + joined_lines(t, cur.lo(), hi, (n - count) as nat) =~= joined@);
                break;
            },
        }
    }
    joined
}

/// `count(preceded(take_until("\n"), tag("\n")), n)`: past `n` newlines.
pub fn skip_lines<'a>(input: LocatedSpan<'a>, n: usize) -> (r: PResult<'a, ()>)
    ensures
        ({
            let t = input.text_view();
            match r {
                Ok((rest, _)) => past_lines(t, input.lo(), input.hi(), n as nat) is Some
                    && rest.is_at(t, past_lines(t, input.lo(), input.hi(), n as nat)->0, input.hi()),
                Err(_) => past_lines(t, input.lo(), input.hi(), n as nat) is None,
            }
        }),
{
    proof {
        reveal_strlit("\n");
        assert("\n"@ =~= seq!['\n']);
    }
    let ghost t = input.text_view();
    let ghost hi = input.hi();
    let mut cur = input;
    let mut count: usize = 0;
    while count < n
        invariant
            "\n"@ == seq!['\n'],
            t == input.text_view(),
            hi == input.hi(),
            cur.text_view() == t,
            cur.hi() == hi,
            count <= n,
            past_lines(t, input.lo(), hi, n as nat) == past_lines(t, cur.lo(), hi, (n - count) as nat),
        decreases n - count,
    {
        match skip_past(cur, "\n") {
            Ok((rest, _)) => {
                cur = rest;
                count = count + 1;
            },
            Err(e) => {
                assert(past_lines(t, cur.lo(), hi, (n - count) as nat) is None);
                return Err(e);
            },
        }
    }
    Ok((cur, ()))
}

/// Scanning a body from index `i` with `depth` braces open: just past the
/// character that closes the last one.
pub open spec fn close_pos(t: Seq<char>, i: int, hi: int, depth: int) -> Option<int>
    decreases hi - i,
{
    if i >= hi {
        None
    } else {
        let d = depth + if t[i] == '{' {
            1int
        } else if t[i] == '}' {
            -1int
        } else {
            0int
        };
        if d <= 0 {
            Some(i + 1)
        } else {
            close_pos(t, i + 1, hi, d)
        }
    }
}

pub proof fn lemma_close_pos(t: Seq<char>, i: int, hi: int, depth: int)
    requires
        close_pos(t, i, hi, depth) is Some,
        depth >= 1,
        hi <= t.len(),
    ensures
        i < close_pos(t, i, hi, depth)->0 <= hi,
        t[close_pos(t, i, hi, depth)->0 - 1] == '}',
    decreases hi - i,
{
    if i < hi {
        let d = depth + if t[i] == '{' {
            1int
        } else if t[i] == '}' {
            -1int
        } else {
            0int
        };
        if d > 0 {
            lemma_close_pos(t, i + 1, hi, d);
        }
    }
}

/// The end of a function body, from just inside its `{`: the `}` that closes
/// that `{`, braces nested inside the body counted. It gives back an empty
/// span at that `}`, and the scan goes on past it.
pub fn fun_close<'a>(input: LocatedSpan<'a>) -> (r: PResult<'a, LocatedSpan<'a>>)
    ensures
        ({
            let t = input.text_view();
            match r {
                Ok((rest, pos)) => {
                    let e = close_pos(t, input.lo(), input.hi(), 1)->0;
                    &&& close_pos(t, input.lo(), input.hi(), 1) is Some
                    &&& rest.is_at(t, e, input.hi())
                    &&& pos.is_at(t, e - 1, e - 1)
                },
                Err(_) => close_pos(t, input.lo(), input.hi(), 1) is None,
            }
        }),
{
    let ghost t = input.text_view();
    let ghost lo = input.lo();
    let ghost hi = input.hi();
    let start = input.offset();
    let end = input.limit();
    let mut depth: usize = 1;
    let mut i: usize = start;
    while i < end
        invariant
            input.bounded(),
            t == input.text_view(),
            lo == start,
            hi == end,
            lo == input.lo(),
            hi == input.hi(),
            end <= t.len(),
            4 * t.len() < usize::MAX,
            start <= i <= end,
            1 <= depth <= i - start + 1,
            close_pos(t, lo, hi, 1) == close_pos(t, i as int, hi, depth as int),
        decreases end - i,
    {
        let c = input.char_at(i);
        if c == '{' {
            depth = depth + 1;
        } else if c == '}' {
            depth = depth - 1;
            if depth == 0 {
                assert(close_pos(t, i as int, hi, 1) == Some(i + 1));
                return Ok((input.slice(i + 1, end), input.slice(i, i)));
            }
        }
        i = i + 1;
    }
    Err(ParseError)
}

/// Whether two strings hold the same characters.
pub fn str_eq(a: &str, b: &str) -> (r: bool)
    ensures
        r == (a@ == b@),
{
    let n = a.unicode_len();
    if n != b.unicode_len() {
        return false;
    }
    let mut i: usize = 0;
    while i < n
        invariant
            n == a@.len(),
            n == b@.len(),
            i <= n,
            forall|j: int| 0 <= j < i ==> a@[j] == b@[j],
        decreases n - i,
    {
        if a.get_char(i) != b.get_char(i) {
            return false;
        }
        i = i + 1;
    }
    assert(a@ =~= b@);
    true
}

} // verus!
