//! Reading blame information over the lines of a symbol, and telling how
//! long ago something happened.
use vstd::prelude::*;
use std::collections::HashMap;
use crate::info::LineInfo;
use crate::parsers::types::SymbolSpan;
use crate::text::{decimal, decimal_string};
use crate::scan::str_eq;

verus! {

broadcast use vstd::std_specs::hash::group_hash_axioms;

/// Every line from `lo` to `hi` (both included) has blame information.
pub open spec fn covers(m: Map<usize, LineInfo>, lo: int, hi: int) -> bool {
    forall|l: usize| lo <= l <= hi ==> #[trigger] m.contains_key(l)
}

/// `r` is the line of `[lo, hi]` changed last, the first one among those
/// changed at that time; or 0 when no line of the range has a time after 0.
pub open spec fn is_latest_line(m: Map<usize, LineInfo>, lo: int, hi: int, r: int) -> bool {
    if forall|l: usize| lo <= l <= hi ==> (#[trigger] m[l]).time == 0 {
        r == 0
    } else {
        &&& lo <= r <= hi
        &&& forall|l: usize| lo <= l <= hi ==> (#[trigger] m[l]).time <= m[r as usize].time
        &&& forall|l: usize| lo <= l < r ==> (#[trigger] m[l]).time < m[r as usize].time
    }
}

/// The line of the symbol (blame lines count from 0, symbol lines from 1)
/// that was changed last.
pub fn get_latest_line(blame_info: &HashMap<usize, LineInfo>, symbol: &SymbolSpan) -> (latest: usize)
    requires
        symbol.start.line >= 1,
        symbol.end.line >= 1,
        covers(blame_info@, symbol.start.line - 1, symbol.end.line - 1),
    ensures
        is_latest_line(blame_info@, symbol.start.line - 1, symbol.end.line - 1, latest as int),
{
    let start = symbol.start.line - 1;
    let end = symbol.end.line - 1;
    let ghost m = blame_info@;
    let mut latest: usize = 0;
    let mut time: u64 = 0;
    let mut line = start;
    while line <= end
        invariant
            m == blame_info@,
            start <= line,
            line <= end + 1 || start > end,
            start > end ==> line == start,
            end < usize::MAX,
            covers(m, start as int, end as int),
            forall|l: usize| start <= l < line ==> (#[trigger] m[l]).time <= time,
            time == 0 ==> latest == 0,
            time > 0 ==> {
                &&& start <= latest < line
                &&& m[latest].time == time
                &&& forall|l: usize| start <= l < latest ==> (#[trigger] m[l]).time < time
            },
        decreases end + 1 - line,
    {
        assert(m.contains_key(line));
        let line_info = blame_info.get(&line).unwrap();
        if line_info.time > time {
            latest = line;
            time = line_info.time;
        }
        line = line + 1;
    }
    proof {
        if time == 0 {
            assert forall|l: usize| start <= l <= end implies (#[trigger] m[l]).time == 0 by {
                assert(m[l].time <= time);
            }
        } else {
            assert(start <= latest <= end);
            assert(m[latest].time != 0);
        }
    }
    latest
}

/// How many of the lines `[lo, k)` were last changed by commit `c`.
pub open spec fn count_commit(m: Map<usize, LineInfo>, lo: int, k: int, c: Seq<char>) -> nat
    decreases k - lo,
{
    if k <= lo {
        0
    } else if m[(k - 1) as usize].commit@ == c {
        count_commit(m, lo, k - 1, c) + 1
    } else {
        count_commit(m, lo, k - 1, c)
    }
}

/// One commit made more than 40% of the lines `[lo, hi)`.
pub open spec fn one_commit_controls(m: Map<usize, LineInfo>, lo: int, hi: int) -> bool {
    exists|l: usize| lo <= l < hi && 5 * count_commit(m, lo, hi, (#[trigger] m[l]).commit@) > 2 * (hi - lo)
}

/// The blame line (counted from 0) of a symbol's first line (counted from 1).
pub open spec fn first_key(symbol: SymbolSpan) -> int {
    if symbol.start.line == 0 {
        0
    } else {
        symbol.start.line - 1
    }
}

proof fn lemma_count_commit_bound(m: Map<usize, LineInfo>, lo: int, k: int, c: Seq<char>)
    requires
        lo <= k,
    ensures
        count_commit(m, lo, k, c) <= k - lo,
    decreases k - lo,
{
    if k > lo {
        lemma_count_commit_bound(m, lo, k - 1, c);
    }
}

/// Checks if one commit makes up more than 40 percent of the lines of a
/// symbol, from its first line to its last.
///
/// Eg: if commit aaaa doesn't make up more than 40% of a function, it returns false.
pub fn check_control(blame_info: &HashMap<usize, LineInfo>, symbol: &SymbolSpan) -> (r: bool)
    requires
        covers(blame_info@, first_key(*symbol), symbol.end.line - 1),
    ensures
        r == one_commit_controls(blame_info@, first_key(*symbol), symbol.end.line as int),
{
    let ghost m = blame_info@;
    let lo: usize = if symbol.start.line == 0 {
        0
    } else {
        symbol.start.line - 1
    };
    let hi: usize = symbol.end.line;
    if lo >= hi {
        return false;
    }
    let total: usize = hi - lo;
    let mut l: usize = lo;
    while l < hi
        invariant
            m == blame_info@,
            lo == first_key(*symbol),
            hi == symbol.end.line,
            lo < hi,
            lo <= l <= hi,
            total == hi - lo,
            covers(m, lo as int, hi - 1),
            forall|j: usize| lo <= j < l ==> 5 * count_commit(m, lo as int, hi as int, (#[trigger] m[j]).commit@)
                <= 2 * (hi - lo),
        decreases hi - l,
    {
        assert(m.contains_key(l));
        let c = &blame_info.get(&l).unwrap().commit;
        let mut count: usize = 0;
        let mut k: usize = lo;
        while k < hi
            invariant
                m == blame_info@,
                lo < hi,
                lo <= k <= hi,
                covers(m, lo as int, hi - 1),
                count == count_commit(m, lo as int, k as int, c@),
            decreases hi - k,
        {
            proof { lemma_count_commit_bound(m, lo as int, k as int, c@); }
            assert(m.contains_key(k));
            let d = &blame_info.get(&k).unwrap().commit;
            if str_eq(d.as_str(), c.as_str()) {
                count = count + 1;
            }
            k = k + 1;
        }
        if (count as u128) * 5 > (total as u128) * 2 {
            assert(5 * count_commit(m, lo as int, hi as int, m[l].commit@) > 2 * (hi - lo));
            return true;
        }
        l = l + 1;
    }
    false
}

/// Seconds in a minute, an hour, a day, a month of 30 days and a year of
/// 365 days.
pub open spec fn time_diff_spec(elapsed: nat) -> Seq<char> {
    if elapsed < 60 {
        decimal(elapsed / 1000) + " seconds ago"@
    } else if elapsed < 3600 {
        decimal(elapsed / 60) + " minutes ago"@
    } else if elapsed < 86400 {
        decimal(elapsed / 3600) + " hours ago"@
    } else if elapsed < 2592000 {
        decimal(elapsed / 86400) + " days ago"@
    } else if elapsed < 31536000 {
        decimal(elapsed / 2592000) + " months ago"@
    } else {
        decimal(elapsed / 31536000) + " years ago"@
    }
}

/// Seconds in each unit a time is told in: a minute, an hour, a day, a
/// month of 30 days and a year of 365 days.
pub open spec fn unit_seconds(k: int) -> nat {
    if k == 0 {
        60
    } else if k == 1 {
        3600
    } else if k == 2 {
        86400
    } else if k == 3 {
        2592000
    } else {
        31536000
    }
}

/// The words after the number, for each unit.
pub open spec fn unit_words(k: int) -> Seq<char> {
    if k == 0 {
        " minutes ago"@
    } else if k == 1 {
        " hours ago"@
    } else if k == 2 {
        " days ago"@
    } else if k == 3 {
        " months ago"@
    } else {
        " years ago"@
    }
}

/// A time of a minute or more is told in the largest unit that does not
/// exceed it, as the number of whole units, at least 1; a shorter time is
/// told as 0 seconds.
pub proof fn law_time_diff_largest_unit(elapsed: nat)
    ensures
        elapsed >= 60 ==> exists|k: int|
            0 <= k < 5 && #[trigger] unit_seconds(k) <= elapsed && (k == 4 || elapsed < unit_seconds(k + 1))
                && elapsed / unit_seconds(k) >= 1
                && time_diff_spec(elapsed) == decimal(elapsed / unit_seconds(k)) + unit_words(k),
        elapsed < 60 ==> time_diff_spec(elapsed) == decimal(0) + " seconds ago"@,
{
    if elapsed >= 60 {
        let k: int = if elapsed < 3600 {
            0
        } else if elapsed < 86400 {
            1
        } else if elapsed < 2592000 {
            2
        } else if elapsed < 31536000 {
            3
        } else {
            4
        };
        assert(unit_seconds(k) <= elapsed);
        assert(elapsed / unit_seconds(k) >= 1) by (nonlinear_arith)
            requires
                unit_seconds(k) <= elapsed,
                unit_seconds(k) > 0,
        ;
    } else {
        assert(elapsed / 1000 == 0);
    }
}

/// How long before `current` the time `prev` was, both in seconds, in the
/// largest unit that fits.
pub fn unix_time_diff(current: u128, prev: u128) -> (r: String)
    requires
        current >= prev,
    ensures
        r@ == time_diff_spec((current - prev) as nat),
{
    let elapsed = current - prev;

    let s_per_min: u128 = 60;
    let s_per_hour: u128 = s_per_min * 60;
    let s_per_day: u128 = s_per_hour * 24;
    let s_per_month: u128 = s_per_day * 30;
    let s_per_year: u128 = s_per_day * 365;

    if elapsed < s_per_min {
        let mut r = decimal_string(elapsed / 1000);
        r.append(" seconds ago");
        r
    } else if elapsed < s_per_hour {
        let mut r = decimal_string(elapsed / s_per_min);
        r.append(" minutes ago");
        r
    } else if elapsed < s_per_day {
        let mut r = decimal_string(elapsed / s_per_hour);
        r.append(" hours ago");
        r
    } else if elapsed < s_per_month {
        let mut r = decimal_string(elapsed / s_per_day);
        r.append(" days ago");
        r
    } else if elapsed < s_per_year {
        let mut r = decimal_string(elapsed / s_per_month);
        r.append(" months ago");
        r
    } else {
        let mut r = decimal_string(elapsed / s_per_year);
        r.append(" years ago");
        r
    }
}

/// The lines of a symbol to show: its first line and at most three more,
/// and every line of its comment.
pub fn symbol_print_ranges(function: &SymbolSpan, comment: &SymbolSpan) -> (r: ((usize, usize), (usize, usize)))
    requires
        function.start.line + 3 <= usize::MAX,
    ensures
        r.0.0 == function.start.line,
        r.0.1 == if function.start.line + 3 >= function.end.line {
            function.end.line as int
        } else {
            function.start.line + 3
        },
        r.1 == (comment.start.line, comment.end.line),
{
    let function_start = function.start.line;
    let function_end = function.end.line;

    let comment_start = comment.start.line;
    let comment_end = comment.end.line;

    let new_function_end = if function_start + 3 >= function_end {
        function_end
    } else {
        function_start + 3
    };
    ((function_start, new_function_end), (comment_start, comment_end))
}

} // verus!
