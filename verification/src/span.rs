//! A located span: a window into a text, addressed by character indices,
//! that knows the line and the byte column where it starts.
use vstd::prelude::*;

verus! {

/// Number of bytes that the UTF-8 encoding of `c` takes.
pub open spec fn utf8_width(c: char) -> int {
    if (c as u32) < 0x80 {
        1
    } else if (c as u32) < 0x800 {
        2
    } else if (c as u32) < 0x10000 {
        3
    } else {
        4
    }
}

/// Number of `'\n'` among the first `i` characters of `t`.
pub open spec fn count_newlines(t: Seq<char>, i: int) -> nat
    decreases i,
{
    if i <= 0 {
        0
    } else if t[i - 1] == '\n' {
        count_newlines(t, i - 1) + 1
    } else {
        count_newlines(t, i - 1)
    }
}

/// The 1-based line on which character index `i` of `t` lies.
pub open spec fn line_at(t: Seq<char>, i: int) -> nat {
    count_newlines(t, i) + 1
}

/// Number of bytes between the last `'\n'` before index `i` (or the start
/// of the text) and index `i`.
pub open spec fn bytes_since_newline(t: Seq<char>, i: int) -> nat
    decreases i,
{
    if i <= 0 {
        0
    } else if t[i - 1] == '\n' {
        0
    } else {
        (bytes_since_newline(t, i - 1) + utf8_width(t[i - 1])) as nat
    }
}

/// The 1-based byte column of character index `i` of `t`.
pub open spec fn column_at(t: Seq<char>, i: int) -> nat {
    bytes_since_newline(t, i) + 1
}

pub proof fn lemma_count_newlines_bound(t: Seq<char>, i: int)
    requires
        0 <= i,
    ensures
        count_newlines(t, i) <= i,
    decreases i,
{
    if i > 0 {
        lemma_count_newlines_bound(t, i - 1);
    }
}

pub proof fn lemma_bytes_since_newline_bound(t: Seq<char>, i: int)
    requires
        0 <= i,
    ensures
        bytes_since_newline(t, i) <= 4 * i,
    decreases i,
{
    if i > 0 {
        lemma_bytes_since_newline_bound(t, i - 1);
    }
}

pub proof fn lemma_count_newlines_mono(t: Seq<char>, a: int, b: int)
    requires
        0 <= a <= b,
    ensures
        count_newlines(t, a) <= count_newlines(t, b),
    decreases b - a,
{
    if a < b {
        lemma_count_newlines_mono(t, a, b - 1);
    }
}

/// A later character index lies on a later line, or on the same line at a
/// later column.
pub proof fn lemma_position_order(t: Seq<char>, x: int, y: int)
    requires
        0 <= x < y <= t.len(),
    ensures
        line_at(t, x) < line_at(t, y) || (line_at(t, x) == line_at(t, y) && column_at(t, x) < column_at(t, y)),
    decreases y - x,
{
    if y > x + 1 {
        lemma_position_order(t, x, y - 1);
    }
    if t[y - 1] != '\n' {
        assert(utf8_width(t[y - 1]) >= 1);
    }
}

/// A window `[lo, hi)` into a text, with character indices.
#[derive(Clone, Copy, Debug)]
pub struct LocatedSpan<'a> {
    text: &'a str,
    start: usize,
    end: usize,
}

impl<'a> LocatedSpan<'a> {
    #[verifier::type_invariant]
    pub closed spec fn inv(self) -> bool {
        &&& self.start <= self.end
        &&& self.end <= self.text@.len()
        &&& 4 * self.text@.len() < usize::MAX
    }

    /// The whole text the span points into.
    pub closed spec fn text_view(self) -> Seq<char> {
        self.text@
    }

    /// Character index of the first character of the span.
    pub closed spec fn lo(self) -> int {
        self.start as int
    }

    /// Character index just past the span.
    pub closed spec fn hi(self) -> int {
        self.end as int
    }

    /// The characters the span covers.
    pub open spec fn frag(self) -> Seq<char> {
        self.text_view().subrange(self.lo(), self.hi())
    }

    pub open spec fn is_at(self, t: Seq<char>, lo: int, hi: int) -> bool {
        &&& self.text_view() == t
        &&& self.lo() == lo
        &&& self.hi() == hi
    }

    /// What every span satisfies.
    pub open spec fn bounded(self) -> bool {
        &&& 0 <= self.lo() <= self.hi() <= self.text_view().len()
        &&& 4 * self.text_view().len() < usize::MAX
    }

    pub proof fn lemma_bounded(s: Self)
        requires
            s.inv(),
        ensures
            s.bounded(),
    {
    }

    /// A span over the whole of `text`.
    pub fn new(text: &'a str) -> (s: Self)
        requires
            4 * text@.len() < usize::MAX,
        ensures
            s.is_at(text@, 0, text@.len() as int),
    {
        let n = text.unicode_len();
        LocatedSpan { text, start: 0, end: n }
    }

    /// A span over the same text, `[lo, hi)`.
    pub fn slice(&self, lo: usize, hi: usize) -> (s: Self)
        requires
            lo <= hi <= self.text_view().len(),
        ensures
            s.is_at(self.text_view(), lo as int, hi as int),
    {
        proof { use_type_invariant(self); }
        LocatedSpan { text: self.text, start: lo, end: hi }
    }

    pub fn offset(&self) -> (r: usize)
        ensures
            r == self.lo(),
            self.bounded(),
    {
        proof { use_type_invariant(self); }
        self.start
    }

    pub fn limit(&self) -> (r: usize)
        ensures
            r == self.hi(),
            self.bounded(),
    {
        proof { use_type_invariant(self); }
        self.end
    }

    /// The character at index `i` of the whole text.
    pub fn char_at(&self, i: usize) -> (c: char)
        requires
            i < self.text_view().len(),
        ensures
            c == self.text_view()[i as int],
    {
        self.text.get_char(i)
    }

    /// The text the span covers.
    pub fn fragment(&self) -> (r: &'a str)
        ensures
            r@ == self.frag(),
    {
        proof { use_type_invariant(self); }
        self.text.substring_char(self.start, self.end)
    }

    /// The 1-based line where the span starts.
    pub fn location_line(&self) -> (r: usize)
        ensures
            r == line_at(self.text_view(), self.lo()),
    {
        proof { use_type_invariant(self); }
        let mut count: usize = 0;
        let mut i: usize = 0;
        while i < self.start
            invariant
                i <= self.start <= self.text@.len(),
                4 * self.text@.len() < usize::MAX,
                count == count_newlines(self.text@, i as int),
            decreases self.start - i,
        {
            proof { lemma_count_newlines_bound(self.text@, i as int); }
            if self.text.get_char(i) == '\n' {
                count = count + 1;
            }
            i = i + 1;
        }
        proof { lemma_count_newlines_bound(self.text@, i as int); }
        count + 1
    }

    /// The 1-based byte column where the span starts.
    pub fn get_column(&self) -> (r: usize)
        ensures
            r == column_at(self.text_view(), self.lo()),
    {
        proof { use_type_invariant(self); }
        let mut i: usize = self.start;
        let mut bytes: usize = 0;
        while i > 0 && self.text.get_char(i - 1) != '\n'
            invariant
                i <= self.start <= self.text@.len(),
                4 * self.text@.len() < usize::MAX,
                bytes_since_newline(self.text@, self.start as int) == bytes
                    + bytes_since_newline(self.text@, i as int),
            decreases i,
        {
            proof { lemma_bytes_since_newline_bound(self.text@, self.start as int); }
            let c = self.text.get_char(i - 1);
            let w: usize = if (c as u32) < 0x80 {
                1
            } else if (c as u32) < 0x800 {
                2
            } else if (c as u32) < 0x10000 {
                3
            } else {
                4
            };
            bytes = bytes + w;
            i = i - 1;
        }
        proof { lemma_bytes_since_newline_bound(self.text@, self.start as int); }
        bytes + 1
    }
}

} // verus!
