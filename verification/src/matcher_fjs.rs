//! The matcher of Franek, Jennings and Smyth: the window moves on by the
//! byte behind it, as in Quick-Search, until its last byte fits, and by the
//! borders of the pattern, as in Knuth-Morris-Pratt, once a part of it has
//! been found.

use crate::matcher::{
    lemma_plain_matches_push, lemma_qs_shift_safe, lemma_scan_skip, nothing_found,
    occurs_at, plain_matches, push_match, qs_shift, qs_table, scan, search_exact_fit, search_in_chunks, views_of,
    Match, MatchView, Matcher, MatcherUtil,
};
use vstd::prelude::*;

verus! {

// ---------------------------------------------------------------------------------------------------------------------
// Borders
// ---------------------------------------------------------------------------------------------------------------------

/// The first `b` bytes of `pat` are also the last `b` of its first `j`
/// bytes, and `b` is less than `j`.
pub open spec fn is_border(pat: Seq<u8>, j: int, b: int) -> bool {
    &&& 0 <= b < j <= pat.len()
    &&& forall|k: int| 0 <= k < b ==> #[trigger] pat[k] == pat[j - b + k]
}

/// A border of the first `j` bytes that is followed by another byte than
/// they are; at the end of the pattern every border counts.
pub open spec fn is_strong_border(pat: Seq<u8>, j: int, b: int) -> bool {
    is_border(pat, j, b) && (j == pat.len() || pat[b] != pat[j])
}

/// `b` is the longest border of the first `j` bytes, or -1 where there is
/// none.
pub open spec fn is_longest_border(pat: Seq<u8>, j: int, b: int) -> bool {
    &&& -1 <= b
    &&& b >= 0 ==> is_border(pat, j, b)
    &&& forall|c: int| b < c ==> !#[trigger] is_border(pat, j, c)
}

/// `b` is the longest strong border of the first `j` bytes, or -1 where
/// there is none: where to go on when the byte behind the first `j` does not
/// fit.
pub open spec fn is_link(pat: Seq<u8>, j: int, b: int) -> bool {
    &&& -1 <= b
    &&& b >= 0 ==> is_strong_border(pat, j, b)
    &&& forall|c: int| b < c ==> !#[trigger] is_strong_border(pat, j, c)
}

/// The table holds the link of every length up to that of the pattern, each
/// raised by one.
pub open spec fn links_fit(pat: Seq<u8>, links: Seq<usize>) -> bool {
    &&& links.len() == pat.len() + 1
    &&& forall|j: int| 0 <= j <= pat.len() ==> is_link(pat, j, (#[trigger] links[j]) - 1)
}

/// A shorter border of a text is a border of a longer border of it.
proof fn lemma_border_down(pat: Seq<u8>, i: int, j: int, b: int)
    requires
        is_border(pat, i, j),
        is_border(pat, i, b),
        b < j,
    ensures
        is_border(pat, j, b),
{
    assert forall|k: int| 0 <= k < b implies #[trigger] pat[k] == pat[j - b + k] by {
        assert(pat[k] == pat[i - b + k]);
        assert(pat[j - b + k] == pat[i - j + (j - b + k)]);
    }
}

/// A border of a border of a text is a border of the text.
proof fn lemma_border_up(pat: Seq<u8>, i: int, j: int, b: int)
    requires
        is_border(pat, i, j),
        is_border(pat, j, b),
    ensures
        is_border(pat, i, b),
{
    assert forall|k: int| 0 <= k < b implies #[trigger] pat[k] == pat[i - b + k] by {
        assert(pat[k] == pat[j - b + k]);
        assert(pat[j - b + k] == pat[i - j + (j - b + k)]);
    }
}

/// A border grows by one where the bytes behind its two ends are the same.
proof fn lemma_border_grow(pat: Seq<u8>, i: int, j: int)
    requires
        0 <= i < pat.len(),
        j == -1 || is_border(pat, i, j),
        j >= 0 ==> pat[j] == pat[i],
    ensures
        is_border(pat, i + 1, j + 1),
{
    assert forall|k: int| 0 <= k < j + 1 implies #[trigger] pat[k] == pat[i + 1 - (j + 1) + k] by {
        if k < j {
            assert(pat[k] == pat[i - j + k]);
        }
    }
}

/// A border without its last byte is a border of the text without its last
/// byte.
proof fn lemma_border_shrink(pat: Seq<u8>, i: int, c: int)
    requires
        0 <= i,
        1 <= c,
        is_border(pat, i + 1, c),
    ensures
        is_border(pat, i, c - 1),
        pat[c - 1] == pat[i],
{
    assert forall|k: int| 0 <= k < c - 1 implies #[trigger] pat[k] == pat[i - (c - 1) + k] by {
        assert(pat[k] == pat[i + 1 - c + k]);
    }
    assert(pat[c - 1] == pat[i + 1 - c + (c - 1)]);
}

/// Where the byte at `i` does not follow the border `j`, the longest border
/// that it can follow is the link of `j`, or a border of that.
proof fn lemma_follow_link(pat: Seq<u8>, i: int, j: int, b: int)
    requires
        0 <= i < pat.len(),
        is_border(pat, i, j),
        pat[i] != pat[j],
        is_link(pat, j, b),
        forall|c: int| j < c && #[trigger] is_border(pat, i, c) ==> pat[c] != pat[i],
    ensures
        b == -1 || is_border(pat, i, b),
        forall|c: int| b < c && #[trigger] is_border(pat, i, c) ==> pat[c] != pat[i],
{
    if b >= 0 {
        lemma_border_up(pat, i, j, b);
    }
    assert forall|c: int| b < c && #[trigger] is_border(pat, i, c) implies pat[c] != pat[i] by {
        if c < j {
            lemma_border_down(pat, i, j, c);
            if pat[c] == pat[i] {
                assert(is_strong_border(pat, j, c));
            }
        }
    }
}

/// The longest border of the text with one more byte.
proof fn lemma_next_longest(pat: Seq<u8>, i: int, j: int)
    requires
        0 <= i < pat.len(),
        j == -1 || is_border(pat, i, j),
        j >= 0 ==> pat[j] == pat[i],
        forall|c: int| j < c && #[trigger] is_border(pat, i, c) ==> pat[c] != pat[i],
    ensures
        is_longest_border(pat, i + 1, j + 1),
{
    lemma_border_grow(pat, i, j);
    assert forall|c: int| j + 1 < c implies !#[trigger] is_border(pat, i + 1, c) by {
        if is_border(pat, i + 1, c) {
            lemma_border_shrink(pat, i, c);
            assert(is_border(pat, i, c - 1));
        }
    }
}

/// The link of a length whose longest border is followed by the same byte
/// as the length itself is the link of that border.
proof fn lemma_link_of_border(pat: Seq<u8>, i: int, j: int, b: int)
    requires
        0 <= j < i < pat.len(),
        is_longest_border(pat, i, j),
        pat[i] == pat[j],
        is_link(pat, j, b),
    ensures
        is_link(pat, i, b),
{
    if b >= 0 {
        lemma_border_up(pat, i, j, b);
    }
    assert forall|c: int| b < c implies !#[trigger] is_strong_border(pat, i, c) by {
        if is_strong_border(pat, i, c) {
            if c < j {
                lemma_border_down(pat, i, j, c);
                assert(is_strong_border(pat, j, c));
            }
        }
    }
}

/// Builds the table of links of `pat`.
pub fn links_of(pat: &[u8]) -> (links: Vec<usize>)
    requires
        pat@.len() < usize::MAX,
    ensures
        links_fit(pat@, links@),
{
    let pat_len: usize = pat.len();
    let mut links: Vec<usize> = Vec::new();
    links.push(0);
    assert(!exists|c: int| is_border(pat@, 0, c));
    let mut i: usize = 0;
    // One more than the longest border of the first `i` bytes.
    let mut reach: usize = 0;
    while i < pat_len
        invariant
            i <= pat_len == pat@.len() < usize::MAX,
            reach <= i,
            links@.len() == i + 1,
            forall|k: int| 0 <= k <= i ==> is_link(pat@, k, (#[trigger] links@[k]) - 1),
            forall|k: int| 0 <= k <= i ==> (#[trigger] links@[k]) <= k,
            is_longest_border(pat@, i as int, reach - 1),
        decreases pat_len - i,
    {
        while reach > 0 && pat[i] != pat[reach - 1]
            invariant
                i < pat_len == pat@.len(),
                reach <= i,
                links@.len() == i + 1,
                forall|k: int| 0 <= k <= i ==> is_link(pat@, k, (#[trigger] links@[k]) - 1),
                forall|k: int| 0 <= k <= i ==> (#[trigger] links@[k]) <= k,
                reach == 0 || is_border(pat@, i as int, reach - 1),
                forall|c: int| reach - 1 < c && #[trigger] is_border(pat@, i as int, c) ==> pat@[c] != pat@[i as int],
            decreases reach,
        {
            proof {
                lemma_follow_link(pat@, i as int, reach - 1, links@[reach - 1] - 1);
            }
            reach = links[reach - 1];
        }
        proof {
            lemma_next_longest(pat@, i as int, reach - 1);
        }
        i += 1;
        reach += 1;
        let border: usize = reach - 1;
        if i < pat_len && pat[i] == pat[border] {
            proof {
                lemma_link_of_border(pat@, i as int, border as int, links@[border as int] - 1);
            }
            links.push(links[border]);
        } else {
            assert(is_strong_border(pat@, i as int, border as int));
            links.push(reach);
        }
    }
    links
}

// ---------------------------------------------------------------------------------------------------------------------
// Moving the window
// ---------------------------------------------------------------------------------------------------------------------

/// Where the first `j` bytes of the pattern stand at `w` and the next one
/// does not, the pattern stands at no position from `w` up to where the link
/// of `j` puts the window, and there the first bytes of the pattern stand as
/// far as the link says.
proof fn lemma_link_shift_safe(src: Seq<u8>, pat: Seq<u8>, w: int, j: int, b: int)
    requires
        0 <= w,
        0 <= j < pat.len(),
        w + pat.len() <= src.len(),
        forall|k: int| 0 <= k < j ==> src[w + k] == #[trigger] pat[k],
        src[w + j] != pat[j],
        is_link(pat, j, b),
    ensures
        b < j,
        forall|p: int| w <= p < w + j - b ==> !occurs_at(src, pat, p),
        forall|k: int| 0 <= k < b ==> src[w + j - b + k] == #[trigger] pat[k],
{
    let m = pat.len() as int;
    assert forall|p: int| w <= p < w + j - b implies !occurs_at(src, pat, p) by {
        if occurs_at(src, pat, p) {
            let t = p - w;
            let c = j - t;
            assert(src.subrange(p, p + m)[c] == pat[c]);
            if t == 0 {
            } else {
                assert forall|k: int| 0 <= k < c implies #[trigger] pat[k] == pat[j - c + k] by {
                    assert(src.subrange(p, p + m)[k] == pat[k]);
                    assert(src[w + (t + k)] == pat[t + k]);
                }
                assert(is_strong_border(pat, j, c));
            }
        }
    }
    assert forall|k: int| 0 <= k < b implies src[w + j - b + k] == #[trigger] pat[k] by {
        assert(pat[k] == pat[j - b + k]);
        assert(src[w + (j - b + k)] == pat[j - b + k]);
    }
}

/// Where the pattern stands at `w`, it stands at no position behind `w`
/// before where the link of its whole length puts the window, and there the
/// first bytes of the pattern stand as far as the link says.
proof fn lemma_full_shift_safe(src: Seq<u8>, pat: Seq<u8>, w: int, b: int)
    requires
        0 < pat.len(),
        occurs_at(src, pat, w),
        is_link(pat, pat.len() as int, b),
    ensures
        0 <= b < pat.len(),
        forall|p: int| w < p < w + pat.len() - b ==> !occurs_at(src, pat, p),
        forall|k: int| 0 <= k < b ==> src[w + pat.len() - b + k] == #[trigger] pat[k],
{
    let m = pat.len() as int;
    assert(is_strong_border(pat, m, 0));
    assert forall|p: int| w < p < w + m - b implies !occurs_at(src, pat, p) by {
        if occurs_at(src, pat, p) {
            let t = p - w;
            let c = m - t;
            assert forall|k: int| 0 <= k < c implies #[trigger] pat[k] == pat[m - c + k] by {
                assert(src.subrange(p, p + m)[k] == pat[k]);
                assert(src.subrange(w, w + m)[t + k] == pat[t + k]);
            }
            assert(is_strong_border(pat, m, c));
        }
    }
    assert forall|k: int| 0 <= k < b implies src[w + m - b + k] == #[trigger] pat[k] by {
        assert(pat[k] == pat[m - b + k]);
        assert(src.subrange(w, w + m)[m - b + k] == pat[m - b + k]);
    }
}

// ---------------------------------------------------------------------------------------------------------------------
// FjsMatcher
// ---------------------------------------------------------------------------------------------------------------------

/// The matcher of Franek, Jennings and Smyth, run on the chunks of a large
/// source side by side.
pub struct FjsMatcher {
    pub max_threads: usize,
    pub size_per_thread: usize,
}

impl FjsMatcher {
    /// A matcher for up to four chunks of one megabyte or more.
    pub fn new() -> (matcher: Self)
        ensures
            matcher.max_threads == 4,
            matcher.size_per_thread == 1024 * 1024,
    {
        FjsMatcher { max_threads: 4, size_per_thread: 1024 * 1024 }
    }

    /// Scans the windows that begin from `beg` up to, not including, `end`.
    /// `betap` holds the links of the pattern, `delta` its Quick-Search
    /// shifts.
    pub fn search_sub(src: &[u8], pat: &[u8], betap: &Vec<usize>, delta: &[usize; 256], beg: usize, end: usize) -> (ret:
        Vec<Match>)
        requires
            0 < pat@.len(),
            beg <= end <= src@.len(),
            links_fit(pat@, betap@),
            forall|c: u8| #[trigger] delta@[c as int] == qs_shift(pat@, c),
        ensures
            views_of(ret@) == plain_matches(scan(src@, pat@, beg as int, end as int), pat@.len() as int),
    {
        let src_len: usize = src.len();
        let pat_len: usize = pat.len();
        let mp: usize = pat_len - 1;
        let mut ret: Vec<Match> = Vec::new();
        let ghost mut starts: Seq<int> = Seq::empty();
        assert(views_of(ret@) =~= plain_matches(starts, pat_len as int));

        // The window begins at `w`, and its first `j` bytes are known to fit.
        let mut w: usize = beg;
        let mut j: usize = 0;
        while w < end
            invariant
                0 < pat_len == pat@.len(),
                mp == pat_len - 1,
                src_len == src@.len(),
                end <= src_len,
                w <= src_len,
                j < pat_len,
                forall|k: int| 0 <= k < j ==> src@[w + k] == #[trigger] pat@[k],
                links_fit(pat@, betap@),
                forall|c: u8| #[trigger] delta@[c as int] == qs_shift(pat@, c),
                scan(src@, pat@, beg as int, end as int) == starts + scan(src@, pat@, w as int, end as int),
                views_of(ret@) == plain_matches(starts, pat_len as int),
            ensures
                scan(src@, pat@, beg as int, end as int) == starts,
                views_of(ret@) == plain_matches(starts, pat_len as int),
            decreases src_len - w,
        {
            if src_len - w < pat_len {
                break;
            }
            let mut last_fits: bool = false;
            if j == 0 {
                if src[w + mp] != pat[mp] {
                    assert(!occurs_at(src@, pat@, w as int)) by {
                        if occurs_at(src@, pat@, w as int) {
                            assert(src@.subrange(w as int, w + pat_len)[mp as int] == pat@[mp as int]);
                        }
                    }
                    if src_len - w <= pat_len {
                        assert(scan(src@, pat@, w + 1, end as int) =~= Seq::<int>::empty());
                        break;
                    }
                    let next: u8 = src[w + pat_len];
                    proof {
                        lemma_qs_shift_safe(src@, pat@, w as int);
                        lemma_scan_skip(src@, pat@, w as int, qs_shift(pat@, next), end as int);
                    }
                    w += delta[next as usize];
                    continue;
                }
                last_fits = true;
            }
            let limit: usize = if last_fits {
                mp
            } else {
                pat_len
            };
            while j < limit && src[w + j] == pat[j]
                invariant
                    j <= limit <= pat_len == pat@.len(),
                    w + pat_len <= src_len == src@.len(),
                    forall|k: int| 0 <= k < j ==> src@[w + k] == #[trigger] pat@[k],
                decreases limit - j,
            {
                j += 1;
            }
            if j == limit {
                // The pattern stands at `w`.
                assert(occurs_at(src@, pat@, w as int)) by {
                    assert forall|k: int| 0 <= k < pat_len implies src@[w + k] == #[trigger] pat@[k] by {}
                    assert(src@.subrange(w as int, w + pat_len) =~= pat@);
                }
                if MatcherUtil::check_char_boundary(src, w) {
                    push_match(&mut ret, w, pat_len);
                    proof {
                        lemma_plain_matches_push(starts, w as int, pat_len as int);
                        assert(starts + (seq![w as int] + scan(src@, pat@, w + pat_len, end as int))
                            =~= starts.push(w as int) + scan(src@, pat@, w + pat_len, end as int));
                        starts = starts.push(w as int);
                    }
                    w += pat_len;
                    j = 0;
                } else {
                    proof {
                        lemma_full_shift_safe(src@, pat@, w as int, betap@[pat_len as int] - 1);
                    }
                    let kept: usize = betap[pat_len] - 1;
                    proof {
                        lemma_scan_skip(src@, pat@, w as int, pat_len - kept, end as int);
                    }
                    w += pat_len - kept;
                    j = kept;
                }
            } else {
                // The byte behind the first `j` does not fit.
                let link: usize = betap[j];
                proof {
                    lemma_link_shift_safe(src@, pat@, w as int, j as int, link - 1);
                    lemma_scan_skip(src@, pat@, w as int, j - (link - 1), end as int);
                }
                if link == 0 {
                    w += j + 1;
                    j = 0;
                } else {
                    w += j - (link - 1);
                    j = link - 1;
                }
            }
        }

        ret
    }
}

impl Matcher for FjsMatcher {
    /// There is room for a chunk, and for a worker.
    open spec fn valid(&self) -> bool {
        self.max_threads >= 1 && self.size_per_thread >= 1
    }

    /// What one scan of the whole source reports, however many chunks the
    /// source is searched in.
    open spec fn found(&self, src: Seq<u8>, pat: Seq<u8>) -> Seq<MatchView> {
        plain_matches(scan(src, pat, 0, src.len() as int), pat.len() as int)
    }

    fn search(&self, src: &[u8], pat: &[u8]) -> (ret: Vec<Match>) {
        let src_len: usize = src.len();
        let pat_len: usize = pat.len();

        if pat_len == 0 || pat_len > src_len {
            return nothing_found(src, pat);
        }
        if pat_len == src_len {
            return search_exact_fit(src, pat);
        }

        let betap: Vec<usize> = links_of(pat);
        let delta: [usize; 256] = qs_table(pat);
        let job = |beg: usize, end: usize| -> (part: Vec<Match>)
            requires
                beg <= end <= src@.len(),
            ensures
                views_of(part@) == plain_matches(scan(src@, pat@, beg as int, end as int), pat@.len() as int),
            { FjsMatcher::search_sub(src, pat, &betap, &delta, beg, end) };
        search_in_chunks(src, pat, self.size_per_thread, self.max_threads, &job)
    }
}

} // verus!
