//! The regular-expression matcher: the search itself is the regex crate's,
//! what is made of its spans is decided here.

use crate::matcher::{on_char_boundary, views_of, Match, MatchView, Matcher, MatcherUtil};
use regex::Regex;
use vstd::prelude::*;
use vstd::string::StringSliceAdditionalSpecFns;
use vstd::utf8::{decode_utf8, valid_utf8};

verus! {

broadcast use vstd::utf8::encode_utf8_decode_utf8;

/// The spans of the groups of one regex match: the whole match first, then
/// the capture groups in the order of their opening parentheses, each `None`
/// where the group took no part.
pub type GroupSpans = Vec<Option<(usize, usize)>>;

/// What the regex crate reports for the pattern `pat` on the text `src`:
/// `None` where `pat` does not compile, else the group spans of the successive
/// matches.
pub uninterp spec fn regex_spans(pat: Seq<char>, src: Seq<char>) -> Option<Seq<Seq<Option<(usize, usize)>>>>;

/// The rows of `all` as sequences.
pub open spec fn rows_of(all: Seq<GroupSpans>) -> Seq<Seq<Option<(usize, usize)>>> {
    all.map_values(|row: GroupSpans| row@)
}

/// `core::str::Utf8Error`, the error of a failed decoding, carried and never
/// looked into.
#[verifier::external_type_specification]
#[verifier::external_body]
pub struct ExUtf8Error(core::str::Utf8Error);

/// `core::str::from_utf8` accepts exactly the byte strings that are valid
/// UTF-8, and hands back the same bytes as text.
pub assume_specification[ core::str::from_utf8 ](v: &[u8]) -> (r: Result<&str, core::str::Utf8Error>)
    ensures
        r is Ok <==> valid_utf8(v@),
        r matches Ok(s) ==> s.spec_bytes() == v@,
;

/// Compiles `pat` with `Regex::new` and walks `Regex::captures_iter` over
/// `src`, copying out the offsets of every group of every match
/// (`Captures::iter`, `Match::start`, `Match::end`). The result is the regex
/// crate's and is named, not described.
#[verifier::external_body]
fn regex_captures(pat: &str, src: &str) -> (r: Option<Vec<GroupSpans>>)
    ensures
        match r {
            Some(all) => regex_spans(pat@, src@) == Some(rows_of(all@)),
            None => regex_spans(pat@, src@) is None,
        },
{
    let re = match Regex::new(pat) {
        Ok(re) => re,
        Err(_) => return None,
    };
    Some(re.captures_iter(src).map(|c| c.iter().map(|g| g.map(|m| (m.start(), m.end()))).collect()).collect())
}

// ---------------------------------------------------------------------------------------------------------------------
// From spans to matches
// ---------------------------------------------------------------------------------------------------------------------

/// The span is not empty, begins at or behind `floor` and ends in a buffer
/// of `len` bytes.
pub open spec fn span_fits(span: (usize, usize), floor: int, len: int) -> bool {
    floor <= span.0 < span.1 <= len
}

/// The capture groups of `row`, from `from` on, that took part in the match
/// `[beg, end)` with a span that is not empty and lies inside it.
pub open spec fn kept_groups(row: Seq<Option<(usize, usize)>>, from: int, beg: int, end: int) -> Seq<(int, int)>
    decreases row.len() - from,
{
    if from < 1 || from >= row.len() {
        Seq::empty()
    } else {
        let rest = kept_groups(row, from + 1, beg, end);
        match row[from] {
            Some(span) => if span_fits(span, beg, end) {
                seq![(span.0 as int, span.1 as int)] + rest
            } else {
                rest
            },
            None => rest,
        }
    }
}

/// The matches made of the rows of `all` from `from` on: a row gives a match
/// where its first span is not empty, lies in `src`, begins at or behind
/// `floor`, the end of the match before it, and begins on a character
/// boundary.
pub open spec fn kept_matches(all: Seq<Seq<Option<(usize, usize)>>>, from: int, floor: int, src: Seq<u8>) -> Seq<
    MatchView,
>
    decreases all.len() - from,
{
    if from < 0 || from >= all.len() {
        Seq::empty()
    } else {
        let row = all[from];
        if row.len() > 0 && row[0] is Some && span_fits(row[0]->0, floor, src.len() as int) && on_char_boundary(
            src,
            (row[0]->0).0 as int,
        ) {
            let span = row[0]->0;
            seq![
                MatchView {
                    beg: span.0 as int,
                    end: span.1 as int,
                    groups: kept_groups(row, 1, span.0 as int, span.1 as int),
                },
            ] + kept_matches(all, from + 1, span.1 as int, src)
        } else {
            kept_matches(all, from + 1, floor, src)
        }
    }
}

/// The search with a regular expression.
pub struct RegexMatcher;

impl RegexMatcher {
    pub fn new() -> (matcher: Self) {
        RegexMatcher
    }

    /// Makes the capture groups of one row into sub-matches.
    fn groups_of(row: &GroupSpans, beg: usize, end: usize) -> (groups: Vec<Match>)
        ensures
            groups@.map_values(|g: Match| g.span()) == kept_groups(row@, 1, beg as int, end as int),
    {
        let mut groups: Vec<Match> = Vec::new();
        let mut j: usize = row.len();
        assert(groups@.map_values(|g: Match| g.span()) =~= kept_groups(row@, j as int, beg as int, end as int));
        while j > 1
            invariant
                j <= row@.len() || j == 1 || j == 0,
                j == 0 ==> row@.len() == 0,
                groups@.map_values(|g: Match| g.span()) == kept_groups(
                    row@,
                    (if j == 0 { 1int } else { j as int }),
                    beg as int,
                    end as int,
                ),
            decreases j,
        {
            j -= 1;
            let ghost before = groups@;
            match row[j] {
                Some((gb, ge)) => {
                    if beg <= gb && gb < ge && ge <= end {
                        groups.insert(0, Match { beg: gb, end: ge, sub_match: Vec::new() });
                        assert(groups@.map_values(|g: Match| g.span()) =~= seq![(gb as int, ge as int)]
                            + before.map_values(|g: Match| g.span()));
                    }
                },
                None => {},
            }
        }
        groups
    }

    /// Makes matches of the group spans that the regex crate reported for
    /// `src`.
    pub fn matches_of(all: &Vec<GroupSpans>, src: &[u8]) -> (ret: Vec<Match>)
        ensures
            views_of(ret@) == kept_matches(rows_of(all@), 0, 0, src@),
    {
        let mut ret: Vec<Match> = Vec::new();
        let mut floor: usize = 0;
        let mut i: usize = 0;
        assert(views_of(ret@) =~= Seq::<MatchView>::empty());
        while i < all.len()
            invariant
                i <= all@.len(),
                kept_matches(rows_of(all@), 0, 0, src@) == views_of(ret@) + kept_matches(
                    rows_of(all@),
                    i as int,
                    floor as int,
                    src@,
                ),
            decreases all@.len() - i,
        {
            let row: &GroupSpans = &all[i];
            assert(rows_of(all@)[i as int] == row@);
            let ghost before = views_of(ret@);
            if row.len() > 0 {
                match row[0] {
                    Some((beg, end)) => {
                        if floor <= beg && beg < end && end <= src.len() && MatcherUtil::check_char_boundary(
                            src,
                            beg,
                        ) {
                            let groups: Vec<Match> = RegexMatcher::groups_of(row, beg, end);
                            let m: Match = Match { beg, end, sub_match: groups };
                            let ghost next = kept_matches(rows_of(all@), i + 1, end as int, src@);
                            ret.push(m);
                            assert(views_of(ret@) =~= before.push(m@));
                            assert(before + (seq![m@] + next) =~= before.push(m@) + next);
                            floor = end;
                        }
                    },
                    None => {},
                }
            }
            i += 1;
        }
        assert(views_of(ret@) + Seq::<MatchView>::empty() =~= views_of(ret@));
        ret
    }
}

impl Matcher for RegexMatcher {
    open spec fn valid(&self) -> bool {
        true
    }

    /// Nothing where the pattern or the source is not UTF-8 or the pattern
    /// does not compile; else the matches made of what the regex crate
    /// reports.
    open spec fn found(&self, src: Seq<u8>, pat: Seq<u8>) -> Seq<MatchView> {
        if valid_utf8(pat) && valid_utf8(src) {
            match regex_spans(decode_utf8(pat), decode_utf8(src)) {
                Some(all) => kept_matches(all, 0, 0, src),
                None => Seq::empty(),
            }
        } else {
            Seq::empty()
        }
    }

    fn search(&self, src: &[u8], pat: &[u8]) -> (ret: Vec<Match>) {
        let none: Vec<Match> = Vec::new();
        assert(views_of(none@) =~= Seq::<MatchView>::empty());
        let pat_str: &str = match core::str::from_utf8(pat) {
            Ok(x) => x,
            Err(_) => return none,
        };
        let src_str: &str = match core::str::from_utf8(src) {
            Ok(x) => x,
            Err(_) => return none,
        };
        match regex_captures(pat_str, src_str) {
            Some(all) => RegexMatcher::matches_of(&all, src),
            None => none,
        }
    }
}

} // verus!
