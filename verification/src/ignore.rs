//! Telling which paths to leave alone: a path is ignored when one of the
//! patterns occurs in it.
use vstd::prelude::*;
use vstd::utf8::encode_utf8;
use aho_corasick::{AhoCorasick, BuildError};

verus! {

/// `aho_corasick::AhoCorasick`, an automaton that looks for patterns; Verus
/// sees nothing inside it.
#[verifier::external_type_specification]
#[verifier::external_body]
pub struct ExAhoCorasick(AhoCorasick);

/// `aho_corasick::BuildError`, why an automaton could not be built.
#[verifier::external_type_specification]
#[verifier::external_body]
pub struct ExBuildError(BuildError);

/// The patterns an automaton was built from, as bytes.
pub uninterp spec fn ac_patterns(ac: AhoCorasick) -> Seq<Seq<u8>>;

/// The bytes of each string, in order.
pub open spec fn pattern_bytes(patterns: Seq<String>) -> Seq<Seq<u8>> {
    patterns.map_values(|p: String| encode_utf8(p@))
}

/// `p` occurs somewhere in `h`.
pub open spec fn occurs_in(h: Seq<u8>, p: Seq<u8>) -> bool {
    exists|i: int| 0 <= i && i + p.len() <= h.len() && #[trigger] h.subrange(i, i + p.len()) == p
}

/// One of the patterns occurs somewhere in `h`.
pub open spec fn matches_any(h: Seq<u8>, patterns: Seq<Seq<u8>>) -> bool {
    exists|k: int| 0 <= k < patterns.len() && occurs_in(h, #[trigger] patterns[k])
}

/// Whether an automaton can be built for these patterns. Building fails only
/// when the patterns are too many or too long for the automaton's pattern and
/// state identifiers, which depends on the patterns alone.
pub uninterp spec fn ac_builds(patterns: Seq<Seq<u8>>) -> bool;

/// `AhoCorasick::new`: an automaton that looks for any of `patterns`, with
/// the standard match semantics. Whether building succeeds is named, not
/// stated: the source fails it only when identifiers for the patterns or the
/// automaton's states would overflow.
#[verifier::external_body]
pub(crate) fn ac_new(patterns: &Vec<String>) -> (r: Result<AhoCorasick, BuildError>)
    ensures
        r is Ok <==> ac_builds(pattern_bytes(patterns@)),
        r matches Ok(ac) ==> ac_patterns(ac) == pattern_bytes(patterns@),
{
    AhoCorasick::new(patterns)
}

/// `AhoCorasick::is_match`: whether one of the automaton's patterns occurs
/// anywhere in the UTF-8 bytes of `haystack`.
#[verifier::external_body]
pub(crate) fn ac_is_match(ac: &AhoCorasick, haystack: &str) -> (r: bool)
    ensures
        r == matches_any(encode_utf8(haystack@), ac_patterns(*ac)),
{
    ac.is_match(haystack)
}

} // verus!
