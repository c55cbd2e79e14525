//! What holds of every result of the byte matchers.

use crate::matcher::{
    accepted, lemma_scan_sound, on_char_boundary, plain_matches, scan, BruteForceMatcher, MatchView, Matcher,
    QuickSearchMatcher, TbmMatcher,
};
use crate::matcher_fjs::FjsMatcher;
use crate::matcher_regex::{kept_groups, kept_matches, regex_spans, span_fits, RegexMatcher};
use vstd::prelude::*;
use vstd::utf8::{decode_utf8, valid_utf8};

verus! {

// ---------------------------------------------------------------------------------------------------------------------
// Properties of a list of matches
// ---------------------------------------------------------------------------------------------------------------------

/// Every match of `ms` lies in `src`, covers an occurrence of `pat` byte for
/// byte, and begins on a character boundary.
pub open spec fn matches_exact(src: Seq<u8>, pat: Seq<u8>, ms: Seq<MatchView>) -> bool {
    forall|i: int|
        0 <= i < ms.len() ==> {
            &&& 0 <= (#[trigger] ms[i]).beg < ms[i].end <= src.len()
            &&& src.subrange(ms[i].beg, ms[i].end) == pat
            &&& on_char_boundary(src, ms[i].beg)
        }
}

/// The matches of `ms` begin at strictly increasing positions.
pub open spec fn matches_ascend(ms: Seq<MatchView>) -> bool {
    forall|i: int, j: int| 0 <= i < j < ms.len() ==> (#[trigger] ms[i]).beg < (#[trigger] ms[j]).beg
}

/// No match of `ms` begins before an earlier one has ended.
pub open spec fn matches_apart(ms: Seq<MatchView>) -> bool {
    forall|i: int, j: int| 0 <= i < j < ms.len() ==> (#[trigger] ms[i]).end <= (#[trigger] ms[j]).beg
}

// ---------------------------------------------------------------------------------------------------------------------
// One scan
// ---------------------------------------------------------------------------------------------------------------------

/// A scan leaves out no accepted occurrence but one that begins inside a
/// match it reports.
pub proof fn lemma_scan_complete(src: Seq<u8>, pat: Seq<u8>, from: int, to: int, q: int)
    requires
        0 <= from <= q < to,
        accepted(src, pat, q),
        pat.len() > 0,
    ensures
        exists|i: int|
            0 <= i < scan(src, pat, from, to).len() && (#[trigger] scan(src, pat, from, to)[i]) <= q < scan(
                src,
                pat,
                from,
                to,
            )[i] + pat.len(),
    decreases to - from,
{
    let found = scan(src, pat, from, to);
    if accepted(src, pat, from) {
        if q < from + pat.len() {
            assert(found[0] == from);
        } else {
            lemma_scan_complete(src, pat, from + pat.len(), to, q);
            let rest = scan(src, pat, from + pat.len(), to);
            let i = choose|i: int| 0 <= i < rest.len() && (#[trigger] rest[i]) <= q < rest[i] + pat.len();
            assert(found[i + 1] == rest[i]);
        }
    } else {
        lemma_scan_complete(src, pat, from + 1, to, q);
    }
}

// ---------------------------------------------------------------------------------------------------------------------
// What the matchers return
// ---------------------------------------------------------------------------------------------------------------------

/// Accepted starts give exact matches.
proof fn lemma_plain_exact(src: Seq<u8>, pat: Seq<u8>, starts: Seq<int>)
    requires
        forall|i: int| 0 <= i < starts.len() ==> accepted(src, pat, #[trigger] starts[i]),
        starts.len() > 0 ==> pat.len() > 0,
    ensures
        matches_exact(src, pat, plain_matches(starts, pat.len() as int)),
{
    let ms = plain_matches(starts, pat.len() as int);
    assert forall|i: int| 0 <= i < ms.len() implies 0 <= (#[trigger] ms[i]).beg < ms[i].end <= src.len()
        && src.subrange(ms[i].beg, ms[i].end) == pat && on_char_boundary(src, ms[i].beg) by {
        assert(accepted(src, pat, starts[i]));
    }
}

/// What one scan of the whole source reports covers the pattern byte for
/// byte and begins on a character boundary; the matches come in source order
/// and none reaches into the next.
proof fn lemma_scan_matches(src: Seq<u8>, pat: Seq<u8>)
    ensures
        matches_exact(src, pat, plain_matches(scan(src, pat, 0, src.len() as int), pat.len() as int)),
        matches_ascend(plain_matches(scan(src, pat, 0, src.len() as int), pat.len() as int)),
        matches_apart(plain_matches(scan(src, pat, 0, src.len() as int), pat.len() as int)),
{
    let starts = scan(src, pat, 0, src.len() as int);
    lemma_scan_sound(src, pat, 0, src.len() as int);
    lemma_plain_exact(src, pat, starts);
    let ms = plain_matches(starts, pat.len() as int);
    assert forall|i: int, j: int| 0 <= i < j < ms.len() implies (#[trigger] ms[i]).end <= (#[trigger] ms[j]).beg
        && ms[i].beg < ms[j].beg by {
        assert(starts[i] + pat.len() <= starts[j]);
    }
}

/// Whatever the brute-force matcher returns covers the pattern byte for byte
/// and begins on a character boundary; the matches come in source order and
/// none reaches into the next.
pub proof fn law_brute_force_matches(matcher: BruteForceMatcher, src: Seq<u8>, pat: Seq<u8>)
    ensures
        matches_exact(src, pat, matcher.found(src, pat)),
        matches_ascend(matcher.found(src, pat)),
        matches_apart(matcher.found(src, pat)),
{
    lemma_scan_matches(src, pat);
}

/// Whatever the Quick-Search matcher returns covers the pattern byte for byte
/// and begins on a character boundary; the matches come in source order and
/// none reaches into the next, in however many chunks the source is searched.
pub proof fn law_quick_search_matches(matcher: QuickSearchMatcher, src: Seq<u8>, pat: Seq<u8>)
    requires
        matcher.valid(),
    ensures
        matches_exact(src, pat, matcher.found(src, pat)),
        matches_ascend(matcher.found(src, pat)),
        matches_apart(matcher.found(src, pat)),
{
    lemma_scan_matches(src, pat);
}

/// Whatever the tuned Boyer-Moore matcher returns covers the pattern byte for
/// byte and begins on a character boundary; the matches come in source order
/// and none reaches into the next, in however many chunks the source is
/// searched.
pub proof fn law_tbm_matches(matcher: TbmMatcher, src: Seq<u8>, pat: Seq<u8>)
    requires
        matcher.valid(),
    ensures
        matches_exact(src, pat, matcher.found(src, pat)),
        matches_ascend(matcher.found(src, pat)),
        matches_apart(matcher.found(src, pat)),
{
    lemma_scan_matches(src, pat);
}

/// Whatever the matcher of Franek, Jennings and Smyth returns covers the
/// pattern byte for byte and begins on a character boundary; the matches come
/// in source order and none reaches into the next, in however many chunks the
/// source is searched.
pub proof fn law_fjs_matches(matcher: FjsMatcher, src: Seq<u8>, pat: Seq<u8>)
    requires
        matcher.valid(),
    ensures
        matches_exact(src, pat, matcher.found(src, pat)),
        matches_ascend(matcher.found(src, pat)),
        matches_apart(matcher.found(src, pat)),
{
    lemma_scan_matches(src, pat);
}

/// Brute force, Quick-Search, tuned Boyer-Moore and the matcher of Franek,
/// Jennings and Smyth return the same matches for every source and every
/// pattern, whatever the tunables of the three that search in chunks.
pub proof fn law_byte_matchers_agree(
    bf: BruteForceMatcher,
    qs: QuickSearchMatcher,
    tbm: TbmMatcher,
    fjs: FjsMatcher,
    src: Seq<u8>,
    pat: Seq<u8>,
)
    requires
        qs.valid(),
        tbm.valid(),
        fjs.valid(),
    ensures
        qs.found(src, pat) == bf.found(src, pat),
        tbm.found(src, pat) == bf.found(src, pat),
        fjs.found(src, pat) == bf.found(src, pat),
{
}

// ---------------------------------------------------------------------------------------------------------------------
// The regex matcher
// ---------------------------------------------------------------------------------------------------------------------

/// Every match of `ms` is not empty and lies in a source of `len` bytes,
/// at or behind `floor`.
pub open spec fn matches_inside(ms: Seq<MatchView>, floor: int, len: int) -> bool {
    forall|i: int| 0 <= i < ms.len() ==> floor <= (#[trigger] ms[i]).beg < ms[i].end <= len
}

/// Every group of every match of `ms` is not empty and lies inside its
/// match.
pub open spec fn groups_inside(ms: Seq<MatchView>) -> bool {
    forall|i: int, k: int|
        0 <= i < ms.len() && 0 <= k < ms[i].groups.len() ==> {
            &&& ms[i].beg <= (#[trigger] ms[i].groups[k]).0 < ms[i].groups[k].1 <= ms[i].end
        }
}

/// The groups that are kept of a row lie inside the match.
proof fn lemma_kept_groups_inside(row: Seq<Option<(usize, usize)>>, from: int, beg: int, end: int)
    ensures
        forall|k: int|
            0 <= k < kept_groups(row, from, beg, end).len() ==> beg <= (#[trigger] kept_groups(
                row,
                from,
                beg,
                end,
            )[k]).0 < kept_groups(row, from, beg, end)[k].1 <= end,
    decreases row.len() - from,
{
    if from < 1 || from >= row.len() {
    } else {
        lemma_kept_groups_inside(row, from + 1, beg, end);
        let rest = kept_groups(row, from + 1, beg, end);
        let all = kept_groups(row, from, beg, end);
        assert forall|k: int| 0 <= k < all.len() implies beg <= (#[trigger] all[k]).0 < all[k].1 <= end by {
            if all.len() != rest.len() {
                if k > 0 {
                    assert(all[k] == rest[k - 1]);
                }
            }
        }
    }
}

/// Every match of `ms` begins on a character boundary of `src`.
pub open spec fn matches_on_boundaries(src: Seq<u8>, ms: Seq<MatchView>) -> bool {
    forall|i: int| 0 <= i < ms.len() ==> on_char_boundary(src, (#[trigger] ms[i]).beg)
}

/// The matches that are made of the rows lie in the source, begin on
/// character boundaries, ascend, and none reaches into the next; their groups
/// lie inside them.
proof fn lemma_kept_matches_apart(all: Seq<Seq<Option<(usize, usize)>>>, from: int, floor: int, src: Seq<u8>)
    requires
        0 <= from,
    ensures
        matches_inside(kept_matches(all, from, floor, src), floor, src.len() as int),
        matches_on_boundaries(src, kept_matches(all, from, floor, src)),
        matches_ascend(kept_matches(all, from, floor, src)),
        matches_apart(kept_matches(all, from, floor, src)),
        groups_inside(kept_matches(all, from, floor, src)),
    decreases all.len() - from,
{
    let len = src.len() as int;
    let ms = kept_matches(all, from, floor, src);
    if from >= all.len() {
    } else {
        let row = all[from];
        if row.len() > 0 && row[0] is Some && span_fits(row[0]->0, floor, len) && on_char_boundary(
            src,
            (row[0]->0).0 as int,
        ) {
            let span = row[0]->0;
            let rest = kept_matches(all, from + 1, span.1 as int, src);
            lemma_kept_matches_apart(all, from + 1, span.1 as int, src);
            lemma_kept_groups_inside(row, 1, span.0 as int, span.1 as int);
            assert forall|i: int| 0 <= i < ms.len() implies floor <= (#[trigger] ms[i]).beg < ms[i].end <= len
                && on_char_boundary(src, ms[i].beg) by {
                if i > 0 {
                    assert(ms[i] == rest[i - 1]);
                }
            }
            assert forall|i: int, j: int| 0 <= i < j < ms.len() implies (#[trigger] ms[i]).end <= (#[trigger] ms[j]).beg
                && ms[i].beg < ms[j].beg by {
                assert(ms[j] == rest[j - 1]);
                if i > 0 {
                    assert(ms[i] == rest[i - 1]);
                }
            }
            assert forall|i: int, k: int| 0 <= i < ms.len() && 0 <= k < ms[i].groups.len() implies ms[i].beg <= (
            #[trigger] ms[i].groups[k]).0 < ms[i].groups[k].1 <= ms[i].end by {
                if i > 0 {
                    assert(ms[i] == rest[i - 1]);
                }
            }
        } else {
            lemma_kept_matches_apart(all, from + 1, floor, src);
        }
    }
}

/// Whatever the regex matcher returns is not empty, lies in the source and
/// begins on a character boundary; the matches come in source order and none
/// reaches into the next, and the groups of a match lie inside it. Nothing is
/// found where the pattern or the source is not UTF-8.
pub proof fn law_regex_matches(matcher: RegexMatcher, src: Seq<u8>, pat: Seq<u8>)
    ensures
        matches_inside(matcher.found(src, pat), 0, src.len() as int),
        matches_on_boundaries(src, matcher.found(src, pat)),
        matches_ascend(matcher.found(src, pat)),
        matches_apart(matcher.found(src, pat)),
        groups_inside(matcher.found(src, pat)),
        !valid_utf8(src) || !valid_utf8(pat) ==> matcher.found(src, pat).len() == 0,
{
    if valid_utf8(pat) && valid_utf8(src) {
        match regex_spans(decode_utf8(pat), decode_utf8(src)) {
            Some(all) => {
                lemma_kept_matches_apart(all, 0, 0, src);
            },
            None => {},
        }
    }
}

} // verus!
