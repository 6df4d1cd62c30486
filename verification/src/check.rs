//! The decisions of a check: which files to look at, when a stored result
//! can be used, and which comments are out of sync with their code.
use vstd::prelude::*;
use std::collections::HashMap;
use vstd::utf8::encode_utf8;
use aho_corasick::AhoCorasick;
use crate::ignore::{ac_is_match, ac_patterns, matches_any};
use crate::info::LineInfo;
use crate::parsers::{get_parser, is_ignored, parser_choice, parser_for, SelectedParser};
use crate::parsers::types::{SourceFile, SymbolSpan};
use crate::tools::{
    check_control, covers, first_key, get_latest_line, is_latest_line, one_commit_controls, time_diff_spec,
    unix_time_diff,
};

verus! {

broadcast use vstd::std_specs::hash::group_hash_axioms;

/// All the flags resync saves for an out of sync comment.
#[derive(Debug, Clone)]
pub struct SyncInfo {
    pub time_diff: String,
    pub commit_diff: usize,
    pub function: SymbolSpan,
    pub comment: SymbolSpan,
}

/// A comment that changed before its code did: the time and commit of the
/// last change of the comment.
#[derive(Debug, Clone)]
pub struct OutOfSync {
    pub comment: SymbolSpan,
    pub function: SymbolSpan,
    pub comment_time: u64,
    pub commit: String,
}

/// What to do with a file.
#[derive(Debug, Clone, Copy, PartialEq, Eq, Structural)]
pub enum CheckPlan {
    /// Leave it alone.
    Skip,
    /// It has not changed since its last check: report what was stored.
    UseCached,
    /// Check it again with this parser.
    Analyze(SelectedParser),
}

/// The patterns that are always ignored, then the given ones.
pub open spec fn default_patterns() -> Seq<Seq<char>> {
    seq![".git"@, ".swp"@, "node_modules"@, "target"@]
}

/// The patterns to ignore: `.git`, `.swp`, `node_modules` and `target`,
/// then `ignore_files`.
pub fn file_patterns(ignore_files: &Vec<String>) -> (patterns: Vec<String>)
    ensures
        patterns@.len() == 4 + ignore_files@.len(),
        forall|k: int| 0 <= k < 4 ==> #[trigger] patterns@[k]@ == default_patterns()[k],
        forall|k: int| 0 <= k < ignore_files@.len() ==> #[trigger] patterns@[4 + k] == ignore_files@[k],
{
    let mut patterns: Vec<String> = Vec::new();
    patterns.push(String::from_str(".git"));
    patterns.push(String::from_str(".swp"));
    patterns.push(String::from_str("node_modules"));
    patterns.push(String::from_str("target"));
    let mut i: usize = 0;
    while i < ignore_files.len()
        invariant
            i <= ignore_files@.len(),
            patterns@.len() == 4 + i,
            forall|k: int| 0 <= k < 4 ==> #[trigger] patterns@[k]@ == default_patterns()[k],
            forall|k: int| 0 <= k < i ==> #[trigger] patterns@[4 + k] == ignore_files@[k],
        decreases ignore_files@.len() - i,
    {
        patterns.push(ignore_files[i].clone());
        i = i + 1;
    }
    patterns
}

/// A file needs a check when it was edited after it was last checked (or
/// it never was).
pub fn should_check(last_edit: u128, last_checked: Option<u128>) -> (r: bool)
    ensures
        r == (last_edit > match last_checked {
            Some(t) => t,
            None => 0,
        }),
{
    let last_checked = match last_checked {
        Some(time) => time,
        None => 0,
    };
    if last_edit > last_checked {
        return true;
    }
    return false;
}

/// A file is looked at when none of the automaton's patterns occurs in its
/// path and it has an extension.
pub fn wants_file(ac: &AhoCorasick, file: &SourceFile) -> (r: bool)
    ensures
        r == (!matches_any(encode_utf8(file.path@), ac_patterns(*ac)) && file.extension is Some),
{
    if ac_is_match(ac, file.path.as_str()) {
        return false;
    }
    file.extension.is_some()
}

/// What to do with a file that is looked at: nothing when no parser takes
/// it; else use what was stored when it has not changed since, or check it.
pub fn plan_check(
    file: &SourceFile,
    patterns: &Vec<String>,
    last_edit: u128,
    last_checked: Option<u128>,
) -> (plan: CheckPlan)
    ensures
        plan == match parser_choice(*file, patterns@) {
            None => CheckPlan::Skip,
            Some(p) => if last_edit > match last_checked {
                Some(t) => t,
                None => 0,
            } {
                CheckPlan::Analyze(p)
            } else {
                CheckPlan::UseCached
            },
        },
        is_ignored(*file, patterns@) || file.extension is None ==> plan == CheckPlan::Skip,
        plan matches CheckPlan::Analyze(p) ==> (file.extension matches Some(ext) && Some(p) == parser_for(ext@))
            && last_edit > match last_checked {
            Some(t) => t,
            None => 0,
        },
        plan == CheckPlan::UseCached ==> (file.extension matches Some(ext) && parser_for(ext@) is Some)
            && last_edit <= match last_checked {
            Some(t) => t,
            None => 0,
        },
{
    let parser = match get_parser(file, patterns) {
        Some(parser) => parser,
        None => {
            return CheckPlan::Skip;
        },
    };
    if !should_check(last_edit, last_checked) {
        return CheckPlan::UseCached;
    }
    CheckPlan::Analyze(parser)
}

/// The line of `[lo, hi]` that was changed last (see `is_latest_line`).
pub open spec fn latest(m: Map<usize, LineInfo>, lo: int, hi: int) -> int {
    choose|r: int| is_latest_line(m, lo, hi, r)
}

pub proof fn lemma_latest_unique(m: Map<usize, LineInfo>, lo: int, hi: int, r1: int, r2: int)
    requires
        is_latest_line(m, lo, hi, r1),
        is_latest_line(m, lo, hi, r2),
        0 <= lo,
        hi < usize::MAX,
    ensures
        r1 == r2,
{
    if !(forall|l: usize| lo <= l <= hi ==> (#[trigger] m[l]).time == 0) {
        let a = r1 as usize;
        let b = r2 as usize;
        assert(a as int == r1);
        assert(b as int == r2);
        assert(m[a].time <= m[b].time);
        assert(m[b].time <= m[a].time);
        if r1 < r2 {
            assert(m[a].time < m[b].time);
        } else if r2 < r1 {
            assert(m[b].time < m[a].time);
        }
    }
}

/// The blame information covers what checking the pair reads: the lines of
/// the comment and of the code, and the lines the code's and the comment's
/// latest lines point to.
pub open spec fn pair_covered(m: Map<usize, LineInfo>, comment: SymbolSpan, function: SymbolSpan) -> bool {
    &&& comment.start.line >= 1
    &&& comment.end.line >= 1
    &&& function.start.line >= 1
    &&& function.end.line >= 1
    &&& covers(m, comment.start.line - 1, comment.end.line - 1)
    &&& covers(m, function.start.line - 1, function.end.line - 1)
    &&& m.contains_key(latest(m, comment.start.line - 1, comment.end.line - 1) as usize)
    &&& m.contains_key(latest(m, function.start.line - 1, function.end.line - 1) as usize)
}

/// A pair is out of sync when its code changed after its comment, and no
/// single commit accounts for more than 40% of the code.
pub open spec fn out_of_sync_spec(m: Map<usize, LineInfo>, comment: SymbolSpan, function: SymbolSpan) -> Option<OutOfSync> {
    let comment_info = m[latest(m, comment.start.line - 1, comment.end.line - 1) as usize];
    let function_info = m[latest(m, function.start.line - 1, function.end.line - 1) as usize];
    if function_info.time <= comment_info.time {
        None
    } else if one_commit_controls(m, first_key(function), function.end.line as int) {
        None
    } else {
        Some(OutOfSync { comment, function, comment_time: comment_info.time, commit: comment_info.commit })
    }
}

/// The out of sync pairs among `pairs`, in order.
pub open spec fn all_out_of_sync(m: Map<usize, LineInfo>, pairs: Seq<(SymbolSpan, SymbolSpan)>) -> Seq<OutOfSync>
    decreases pairs.len(),
{
    if pairs.len() == 0 {
        Seq::empty()
    } else {
        all_out_of_sync(m, pairs.drop_last()) + match out_of_sync_spec(m, pairs.last().0, pairs.last().1) {
            Some(o) => seq![o],
            None => Seq::empty(),
        }
    }
}

/// A pair is judged by the lines changed last: with `rc` the line of the
/// comment and `rf` the line of the code changed last (see
/// `is_latest_line`), the pair is out of sync exactly when `rf` changed
/// after `rc` and no single commit made more than 40% of the code; nothing
/// else keeps it from being reported, and it is reported with the time and
/// commit of `rc`.
pub proof fn law_stale_when_code_newer(
    m: Map<usize, LineInfo>,
    comment: SymbolSpan,
    function: SymbolSpan,
    rc: int,
    rf: int,
)
    requires
        pair_covered(m, comment, function),
        is_latest_line(m, comment.start.line - 1, comment.end.line - 1, rc),
        is_latest_line(m, function.start.line - 1, function.end.line - 1, rf),
    ensures
        (out_of_sync_spec(m, comment, function) is Some) <==> (m[rc as usize].time < m[rf as usize].time
            && !one_commit_controls(m, first_key(function), function.end.line as int)),
        out_of_sync_spec(m, comment, function) matches Some(o) ==> {
            &&& o.comment == comment
            &&& o.function == function
            &&& o.comment_time == m[rc as usize].time
            &&& o.commit == m[rc as usize].commit
        },
{
    let lc = latest(m, comment.start.line - 1, comment.end.line - 1);
    let lf = latest(m, function.start.line - 1, function.end.line - 1);
    lemma_latest_unique(m, comment.start.line - 1, comment.end.line - 1, rc, lc);
    lemma_latest_unique(m, function.start.line - 1, function.end.line - 1, rf, lf);
}

/// A comment is reported exactly when its code changed after it: every
/// reported comment comes from one of the pairs, carries the time of its own
/// last change, which is earlier than the last change of its code, and no
/// single commit accounts for more than 40% of that code; and every
/// pair for which this holds is reported.
pub proof fn law_reported_iff_stale(m: Map<usize, LineInfo>, pairs: Seq<(SymbolSpan, SymbolSpan)>)
    ensures
        forall|k: int| 0 <= k < all_out_of_sync(m, pairs).len() ==> {
            let o = #[trigger] all_out_of_sync(m, pairs)[k];
            let c = o.comment;
            let f = o.function;
            &&& pairs.contains((c, f))
            &&& o.comment_time == m[latest(m, c.start.line - 1, c.end.line - 1) as usize].time
            &&& o.comment_time < m[latest(m, f.start.line - 1, f.end.line - 1) as usize].time
            &&& !one_commit_controls(m, first_key(f), f.end.line as int)
        },
        forall|j: int| 0 <= j < pairs.len() && #[trigger] out_of_sync_spec(m, pairs[j].0, pairs[j].1) is Some
            ==> all_out_of_sync(m, pairs).contains(out_of_sync_spec(m, pairs[j].0, pairs[j].1)->0),
    decreases pairs.len(),
{
    if pairs.len() > 0 {
        let init = pairs.drop_last();
        law_reported_iff_stale(m, init);
        let all = all_out_of_sync(m, pairs);
        let before = all_out_of_sync(m, init);
        let last = out_of_sync_spec(m, pairs.last().0, pairs.last().1);
        assert forall|k: int| 0 <= k < all.len() implies {
            let o = #[trigger] all[k];
            let c = o.comment;
            let f = o.function;
            &&& pairs.contains((c, f))
            &&& o.comment_time == m[latest(m, c.start.line - 1, c.end.line - 1) as usize].time
            &&& o.comment_time < m[latest(m, f.start.line - 1, f.end.line - 1) as usize].time
            &&& !one_commit_controls(m, first_key(f), f.end.line as int)
        } by {
            if k < before.len() {
                assert(all[k] == before[k]);
                let o = before[k];
                let i = choose|i: int| 0 <= i < init.len() && init[i] == (o.comment, o.function);
                assert(pairs[i] == init[i]);
            } else {
                assert(all[k] == last->0);
                assert(pairs[pairs.len() - 1] == pairs.last());
            }
        }
        assert forall|j: int| 0 <= j < pairs.len() && #[trigger] out_of_sync_spec(m, pairs[j].0, pairs[j].1) is Some
            implies all.contains(out_of_sync_spec(m, pairs[j].0, pairs[j].1)->0) by {
            let o = out_of_sync_spec(m, pairs[j].0, pairs[j].1)->0;
            if j < init.len() {
                assert(pairs[j] == init[j]);
                assert(out_of_sync_spec(m, init[j].0, init[j].1) is Some);
                let i = choose|i: int| 0 <= i < before.len() && before[i] == o;
                assert(all[i] == before[i]);
            } else {
                assert(pairs[j] == pairs.last());
                assert(all[before.len() as int] == o);
            }
        }
    }
}

/// Whether the pair is out of sync, and if so, with the comment's last
/// change.
pub fn check_pair(blame_info: &HashMap<usize, LineInfo>, comment: &SymbolSpan, function: &SymbolSpan) -> (r: Option<OutOfSync>)
    requires
        pair_covered(blame_info@, *comment, *function),
    ensures
        r == out_of_sync_spec(blame_info@, *comment, *function),
{
    let ghost m = blame_info@;
    let comment_idx = get_latest_line(blame_info, comment);
    let fun_idx = get_latest_line(blame_info, function);
    proof {
        lemma_latest_unique(m, comment.start.line - 1, comment.end.line - 1, comment_idx as int,
            latest(m, comment.start.line - 1, comment.end.line - 1));
        lemma_latest_unique(m, function.start.line - 1, function.end.line - 1, fun_idx as int,
            latest(m, function.start.line - 1, function.end.line - 1));
    }
    let comment_info = blame_info.get(&comment_idx).unwrap();
    let function_info = blame_info.get(&fun_idx).unwrap();

    // the comment has been edited before, or at the same time as the function has
    if function_info.time <= comment_info.time {
        return None;
    }
    // helps show less false positives by only showing functions which have a lot of different commits
    if check_control(blame_info, function) {
        return None;
    }
    Some(
        OutOfSync {
            comment: *comment,
            function: *function,
            comment_time: comment_info.time,
            commit: comment_info.commit.clone(),
        },
    )
}

/// The pairs whose comment is out of sync with their code, in order.
pub fn find_out_of_sync(blame_info: &HashMap<usize, LineInfo>, pairs: &Vec<(SymbolSpan, SymbolSpan)>) -> (found: Vec<OutOfSync>)
    requires
        forall|k: int| 0 <= k < pairs@.len() ==> pair_covered(blame_info@, #[trigger] pairs@[k].0, pairs@[k].1),
    ensures
        found@ == all_out_of_sync(blame_info@, pairs@),
{
    let mut found: Vec<OutOfSync> = Vec::new();
    let mut i: usize = 0;
    while i < pairs.len()
        invariant
            forall|k: int| 0 <= k < pairs@.len() ==> pair_covered(blame_info@, #[trigger] pairs@[k].0, pairs@[k].1),
            i <= pairs@.len(),
            found@ == all_out_of_sync(blame_info@, pairs@.take(i as int)),
        decreases pairs@.len() - i,
    {
        let (comment, function) = pairs[i];
        proof {
            assert(pair_covered(blame_info@, pairs@[i as int].0, pairs@[i as int].1));
            assert(pairs@.take(i + 1).drop_last() =~= pairs@.take(i as int));
            assert(pairs@.take(i + 1).last() == pairs@[i as int]);
        }
        match check_pair(blame_info, &comment, &function) {
            Some(o) => {
                found.push(o);
            },
            None => {},
        }
        proof {
            assert(found@ =~= all_out_of_sync(blame_info@, pairs@.take(i + 1)));
        }
        i = i + 1;
    }
    proof {
        assert(pairs@.take(pairs@.len() as int) =~= pairs@);
    }
    found
}

/// What is stored and reported of an out of sync comment, `now` being the
/// time of the check and `commit_diff` the number of commits since the
/// comment's last change.
pub fn sync_info(item: &OutOfSync, now: u128, commit_diff: usize) -> (info: SyncInfo)
    requires
        now >= item.comment_time,
    ensures
        info.time_diff@ == time_diff_spec((now - item.comment_time) as nat),
        info.commit_diff == commit_diff,
        info.function == item.function,
        info.comment == item.comment,
{
    let time_diff = unix_time_diff(now, item.comment_time as u128);
    SyncInfo { function: item.function, comment: item.comment, commit_diff, time_diff }
}

} // verus!
