//! Substring search over raw bytes.
//!
//! A pattern occurrence counts as a match only where it begins on a character
//! boundary, judged by a width table that covers UTF-8, EUC-JP and Shift-JIS.

use scoped_threadpool::Pool;
use vstd::prelude::*;

verus! {

// ---------------------------------------------------------------------------------------------------------------------
// Match
// ---------------------------------------------------------------------------------------------------------------------

/// A closed-open byte interval `[beg, end)` of a source buffer, with the
/// intervals of the capture groups that took part in it.
#[derive(Debug)]
pub struct Match {
    pub beg: usize,
    pub end: usize,
    pub sub_match: Vec<Match>,
}

/// What a `Match` stands for: its interval and the intervals of its groups.
pub struct MatchView {
    pub beg: int,
    pub end: int,
    pub groups: Seq<(int, int)>,
}

impl Match {
    /// The interval alone.
    pub open spec fn span(&self) -> (int, int) {
        (self.beg as int, self.end as int)
    }
}

impl View for Match {
    type V = MatchView;

    open spec fn view(&self) -> MatchView {
        MatchView {
            beg: self.beg as int,
            end: self.end as int,
            groups: self.sub_match@.map_values(|g: Match| g.span()),
        }
    }
}

impl Clone for Match {
    fn clone(&self) -> (r: Match)
        ensures
            r@ == self@,
        decreases self,
    {
        let mut groups: Vec<Match> = Vec::new();
        let mut i: usize = 0;
        while i < self.sub_match.len()
            invariant
                i <= self.sub_match@.len(),
                groups@.len() == i,
                forall|k: int| 0 <= k < i ==> (#[trigger] groups@[k]).span() == self.sub_match@[k].span(),
            decreases self.sub_match@.len() - i,
        {
            let g: Match = self.sub_match[i].clone();
            groups.push(g);
            i += 1;
        }
        assert(groups@.map_values(|g: Match| g.span()) =~= self.sub_match@.map_values(|g: Match| g.span()));
        Match { beg: self.beg, end: self.end, sub_match: groups }
    }
}

/// The match without groups that covers `pat_len` bytes from `beg`.
pub open spec fn plain_match(beg: int, pat_len: int) -> MatchView {
    MatchView { beg, end: beg + pat_len, groups: Seq::empty() }
}

/// The matches without groups that begin at `starts`, in the same order.
pub open spec fn plain_matches(starts: Seq<int>, pat_len: int) -> Seq<MatchView> {
    starts.map_values(|beg: int| plain_match(beg, pat_len))
}

/// The views of `ms`, one for one.
pub open spec fn views_of(ms: Seq<Match>) -> Seq<MatchView> {
    ms.map_values(|m: Match| m@)
}

// ---------------------------------------------------------------------------------------------------------------------
// Matcher
// ---------------------------------------------------------------------------------------------------------------------

/// A way of finding a pattern in a source buffer.
pub trait Matcher {
    /// The settings are usable.
    spec fn valid(&self) -> bool;

    /// The matches of `pat` in `src`, in the order in which they are returned.
    spec fn found(&self, src: Seq<u8>, pat: Seq<u8>) -> Seq<MatchView>;

    /// Finds `pat` in `src`.
    fn search(&self, src: &[u8], pat: &[u8]) -> (ret: Vec<Match>)
        requires
            self.valid(),
        ensures
            views_of(ret@) == self.found(src@, pat@),
    ;
}

// ---------------------------------------------------------------------------------------------------------------------
// Character boundaries
// ---------------------------------------------------------------------------------------------------------------------

/// The byte at `pos`, or the last byte of `src` where `pos` lies behind it.
pub open spec fn byte_or_last(src: Seq<u8>, pos: int) -> u8
    recommends
        0 <= pos,
        src.len() > 0,
{
    if pos >= src.len() {
        src[src.len() - 1]
    } else {
        src[pos]
    }
}

/// A UTF-8 continuation byte.
pub open spec fn is_trail(b: u8) -> bool {
    0x80 <= b <= 0xbf
}

/// The width in bytes of the character whose leading byte stands at `pos`.
/// The rows are tried from the top; the first that fits decides.
pub open spec fn char_width(src: Seq<u8>, pos: int) -> int
    recommends
        0 <= pos < src.len(),
{
    let b0 = src[pos];
    let b1 = byte_or_last(src, pos + 1);
    let b2 = byte_or_last(src, pos + 2);
    let b3 = byte_or_last(src, pos + 3);
    if b0 <= 0x7f {
        1  // ASCII
    } else if 0xc2 <= b0 <= 0xdf && is_trail(b1) {
        2  // UTF-8
    } else if 0xe0 <= b0 <= 0xef && is_trail(b1) && is_trail(b2) {
        3  // UTF-8
    } else if 0xf0 <= b0 <= 0xf7 && is_trail(b1) && is_trail(b2) && is_trail(b3) {
        4  // UTF-8
    } else if b0 == 0x8e && 0xa1 <= b1 <= 0xdf {
        2  // EUC-JP
    } else if 0xa1 <= b0 <= 0xfe && 0xa1 <= b1 <= 0xfe {
        2  // EUC-JP
    } else if (0x81 <= b0 <= 0x9f || 0xe0 <= b0 <= 0xef) && 0x40 <= b1 <= 0xfc {
        2  // Shift-JIS
    } else {
        1
    }
}

/// Where the walk towards `pos` starts: the nearest byte before `pos` that is
/// at most 0x7f, or the start of the buffer where there is none.
pub open spec fn walk_start(src: Seq<u8>, pos: int) -> int
    recommends
        0 <= pos <= src.len(),
    decreases pos,
{
    if pos <= 1 {
        0
    } else if src[pos - 1] <= 0x7f {
        pos - 1
    } else {
        walk_start(src, pos - 1)
    }
}

/// The first position at or behind `to` that a walk from `from` lands on,
/// stepping over one character at a time.
pub open spec fn walk_end(src: Seq<u8>, from: int, to: int) -> int
    decreases to - from,
{
    if from >= to {
        from
    } else {
        let next = from + char_width(src, from);
        if next >= to {
            next
        } else {
            walk_end(src, next, to)
        }
    }
}

/// `pos` is a character boundary of `src`: the walk lands exactly on it.
pub open spec fn on_char_boundary(src: Seq<u8>, pos: int) -> bool
    recommends
        0 <= pos <= src.len(),
{
    walk_end(src, walk_start(src, pos), pos) == pos
}

/// The character-boundary rules, shared by the byte matchers.
pub struct MatcherUtil;

impl MatcherUtil {
    /// Decides whether `pos` is a character boundary of `src`.
    pub fn check_char_boundary(src: &[u8], pos: usize) -> (ok: bool)
        requires
            pos <= src@.len(),
        ensures
            ok == on_char_boundary(src@, pos as int),
    {
        let mut pos_ascii: usize = if pos == 0 { 0 } else { pos - 1 };
        while pos_ascii > 0
            invariant_except_break
                pos_ascii < pos || pos_ascii == 0,
                pos <= src@.len(),
                walk_start(src@, pos as int) == walk_start(src@, pos_ascii + 1),
            ensures
                pos_ascii == walk_start(src@, pos as int),
                pos_ascii <= pos <= src@.len(),
            decreases pos_ascii,
        {
            if src[pos_ascii] <= 0x7f {
                break;
            }
            pos_ascii -= 1;
        }

        let mut check_pos: usize = pos_ascii;
        while check_pos < pos
            invariant
                check_pos <= pos <= src@.len(),
                pos_ascii == walk_start(src@, pos as int),
                walk_end(src@, pos_ascii as int, pos as int) == walk_end(src@, check_pos as int, pos as int),
            decreases pos - check_pos,
        {
            let char_width: usize = MatcherUtil::check_char_width(src, check_pos);
            if char_width >= pos - check_pos {
                return char_width == pos - check_pos;
            }
            check_pos += char_width;
        }

        check_pos == pos
    }

    /// Reads the width of the character that begins at `pos` off the table.
    pub fn check_char_width(src: &[u8], pos: usize) -> (width: usize)
        requires
            pos < src@.len(),
        ensures
            width == char_width(src@, pos as int),
            1 <= width <= 4,
    {
        let src_len: usize = src.len();
        let last: usize = src_len - 1;
        let b0: u8 = src[pos];
        let b1: u8 = if 1 >= src_len - pos { src[last] } else { src[pos + 1] };
        let b2: u8 = if 2 >= src_len - pos { src[last] } else { src[pos + 2] };
        let b3: u8 = if 3 >= src_len - pos { src[last] } else { src[pos + 3] };
        let t1: bool = 0x80 <= b1 && b1 <= 0xbf;
        let t2: bool = 0x80 <= b2 && b2 <= 0xbf;
        let t3: bool = 0x80 <= b3 && b3 <= 0xbf;
        if b0 <= 0x7f {
            1
        } else if 0xc2 <= b0 && b0 <= 0xdf && t1 {
            2
        } else if 0xe0 <= b0 && b0 <= 0xef && t1 && t2 {
            3
        } else if 0xf0 <= b0 && b0 <= 0xf7 && t1 && t2 && t3 {
            4
        } else if b0 == 0x8e && 0xa1 <= b1 && b1 <= 0xdf {
            2
        } else if 0xa1 <= b0 && b0 <= 0xfe && 0xa1 <= b1 && b1 <= 0xfe {
            2
        } else if (0x81 <= b0 && b0 <= 0x9f || 0xe0 <= b0 && b0 <= 0xef) && 0x40 <= b1 && b1 <= 0xfc {
            2
        } else {
            1
        }
    }
}

// ---------------------------------------------------------------------------------------------------------------------
// Occurrences
// ---------------------------------------------------------------------------------------------------------------------

/// `pat` stands in `src` at `i`, byte for byte.
pub open spec fn occurs_at(src: Seq<u8>, pat: Seq<u8>, i: int) -> bool {
    &&& 0 <= i
    &&& i + pat.len() <= src.len()
    &&& src.subrange(i, i + pat.len()) == pat
}

/// `pat` stands in `src` at `i`, and `i` is a character boundary.
pub open spec fn accepted(src: Seq<u8>, pat: Seq<u8>, i: int) -> bool {
    occurs_at(src, pat, i) && on_char_boundary(src, i)
}

/// The starts of the matches that a scan from `from` reports while its
/// position is below `to`: at an accepted occurrence it reports the position
/// and goes on behind the occurrence, elsewhere it goes on one byte further.
/// An empty pattern is found nowhere.
pub open spec fn scan(src: Seq<u8>, pat: Seq<u8>, from: int, to: int) -> Seq<int>
    decreases
        (if to > from {
            to - from
        } else {
            0
        }),
{
    if pat.len() == 0 || from < 0 || from >= to || from + pat.len() > src.len() {
        Seq::empty()
    } else if accepted(src, pat, from) {
        seq![from] + scan(src, pat, from + pat.len(), to)
    } else {
        scan(src, pat, from + 1, to)
    }
}

/// Compares the window of `src` at `pos` with `pat`.
pub fn pattern_at(src: &[u8], pat: &[u8], pos: usize) -> (same: bool)
    requires
        pos + pat@.len() <= src@.len(),
    ensures
        same == occurs_at(src@, pat@, pos as int),
{
    let src_len: usize = src.len();
    let pat_len: usize = pat.len();
    let mut j: usize = 0;
    while j < pat_len
        invariant
            j <= pat_len == pat@.len(),
            pos + pat_len <= src_len == src@.len(),
            forall|k: int| 0 <= k < j ==> src@[pos + k] == pat@[k],
        decreases pat_len - j,
    {
        if src[pos + j] != pat[j] {
            assert(src@.subrange(pos as int, pos + pat_len)[j as int] != pat@[j as int]);
            return false;
        }
        j += 1;
    }
    assert(src@.subrange(pos as int, pos + pat_len) =~= pat@);
    true
}

/// Appends the match of `pat_len` bytes at `beg` to `ret`.
pub(crate) fn push_match(ret: &mut Vec<Match>, beg: usize, pat_len: usize)
    requires
        beg + pat_len <= usize::MAX,
    ensures
        views_of(final(ret)@) == views_of(old(ret)@).push(plain_match(beg as int, pat_len as int)),
{
    let m: Match = Match { beg, end: beg + pat_len, sub_match: Vec::new() };
    assert(m@.groups =~= Seq::empty());
    ret.push(m);
    assert(views_of(ret@) =~= views_of(old(ret)@).push(plain_match(beg as int, pat_len as int)));
}

// ---------------------------------------------------------------------------------------------------------------------
// BruteForceMatcher
// ---------------------------------------------------------------------------------------------------------------------

/// The plain scan, one comparison at every position: what the other byte
/// matchers are measured against.
pub struct BruteForceMatcher;

impl BruteForceMatcher {
    pub fn new() -> (matcher: Self) {
        BruteForceMatcher
    }
}

impl Matcher for BruteForceMatcher {
    open spec fn valid(&self) -> bool {
        true
    }

    open spec fn found(&self, src: Seq<u8>, pat: Seq<u8>) -> Seq<MatchView> {
        plain_matches(scan(src, pat, 0, src.len() as int), pat.len() as int)
    }

    fn search(&self, src: &[u8], pat: &[u8]) -> (ret: Vec<Match>) {
        let src_len: usize = src.len();
        let pat_len: usize = pat.len();
        let mut ret: Vec<Match> = Vec::new();
        let ghost mut starts: Seq<int> = Seq::empty();
        assert(views_of(ret@) =~= plain_matches(starts, pat_len as int));

        if pat_len == 0 || pat_len > src_len {
            return ret;
        }
        let last: usize = src_len - pat_len;

        let mut i: usize = 0;
        while i <= last
            invariant
                0 < pat_len == pat@.len(),
                src_len == src@.len(),
                last == src_len - pat_len,
                scan(src@, pat@, 0, src_len as int) == starts + scan(src@, pat@, i as int, src_len as int),
                views_of(ret@) == plain_matches(starts, pat_len as int),
            decreases src_len - i,
        {
            if pattern_at(src, pat, i) && MatcherUtil::check_char_boundary(src, i) {
                push_match(&mut ret, i, pat_len);
                proof {
                    lemma_plain_matches_push(starts, i as int, pat_len as int);
                    assert(starts + (seq![i as int] + scan(src@, pat@, i + pat_len, src_len as int))
                        =~= starts.push(i as int) + scan(src@, pat@, i + pat_len, src_len as int));
                    starts = starts.push(i as int);
                }
                if pat_len > last - i {
                    return ret;
                }
                i += pat_len;
            } else {
                i += 1;
            }
        }

        ret
    }
}

/// One more start gives one more match.
pub(crate) proof fn lemma_plain_matches_push(starts: Seq<int>, beg: int, pat_len: int)
    ensures
        plain_matches(starts.push(beg), pat_len) == plain_matches(starts, pat_len).push(plain_match(beg, pat_len)),
{
    assert(plain_matches(starts.push(beg), pat_len) =~= plain_matches(starts, pat_len).push(
        plain_match(beg, pat_len),
    ));
}

// ---------------------------------------------------------------------------------------------------------------------
// Shift tables
// ---------------------------------------------------------------------------------------------------------------------

/// The last index at which `c` stands in `pat`, or -1 where it does not occur.
pub open spec fn last_index(pat: Seq<u8>, c: u8) -> int
    decreases pat.len(),
{
    if pat.len() == 0 {
        -1
    } else if pat.last() == c {
        pat.len() - 1
    } else {
        last_index(pat.drop_last(), c)
    }
}

/// How far Quick-Search moves on when the byte behind the window is `c`.
pub open spec fn qs_shift(pat: Seq<u8>, c: u8) -> int {
    pat.len() - last_index(pat, c)
}

/// How far Boyer-Moore moves on when the byte under the window's end is `c`.
pub open spec fn bm_shift(pat: Seq<u8>, c: u8) -> int {
    pat.len() - 1 - last_index(pat, c)
}

/// The distance from the last byte of `pat` back to the byte equal to it
/// that stands nearest before it, or the length of `pat` where there is none.
pub open spec fn md2_shift(pat: Seq<u8>) -> int
    recommends
        pat.len() > 0,
{
    bm_shift(pat.drop_last(), pat.last()) + 1
}

/// `last_index` names the last occurrence.
pub proof fn lemma_last_index(pat: Seq<u8>, c: u8)
    ensures
        -1 <= last_index(pat, c) < pat.len(),
        last_index(pat, c) >= 0 ==> pat[last_index(pat, c)] == c,
        forall|j: int| last_index(pat, c) < j < pat.len() ==> pat[j] != c,
    decreases pat.len(),
{
    if pat.len() > 0 && pat.last() != c {
        lemma_last_index(pat.drop_last(), c);
        assert forall|j: int| last_index(pat, c) < j < pat.len() implies pat[j] != c by {
            if j < pat.len() - 1 {
                assert(pat.drop_last()[j] == pat[j]);
            }
        }
    }
}

/// Builds the Quick-Search table of `pat`.
pub fn qs_table(pat: &[u8]) -> (table: [usize; 256])
    requires
        pat@.len() < usize::MAX,
    ensures
        forall|c: u8| #[trigger] table@[c as int] == qs_shift(pat@, c),
{
    let pat_len: usize = pat.len();
    let mut table: [usize; 256] = [pat_len + 1;256];
    let mut i: usize = 0;
    assert(pat@.take(0) =~= Seq::<u8>::empty());
    while i < pat_len
        invariant
            i <= pat_len == pat@.len(),
            pat_len < usize::MAX,
            forall|c: u8| #[trigger] table@[c as int] == pat_len - last_index(pat@.take(i as int), c),
        decreases pat_len - i,
    {
        proof {
            assert(pat@.take(i + 1).drop_last() =~= pat@.take(i as int));
        }
        table[pat[i] as usize] = pat_len - i;
        i += 1;
    }
    assert(pat@.take(pat_len as int) =~= pat@);
    table
}

/// Builds the Boyer-Moore table of `pat`.
pub fn bm_table(pat: &[u8]) -> (table: [usize; 256])
    requires
        pat@.len() > 0,
    ensures
        forall|c: u8| #[trigger] table@[c as int] == bm_shift(pat@, c),
{
    let pat_len: usize = pat.len();
    let mut table: [usize; 256] = [pat_len;256];
    let mut i: usize = 0;
    assert(pat@.take(0) =~= Seq::<u8>::empty());
    while i < pat_len
        invariant
            i <= pat_len == pat@.len(),
            forall|c: u8| #[trigger] table@[c as int] == pat_len - 1 - last_index(pat@.take(i as int), c),
        decreases pat_len - i,
    {
        proof {
            assert(pat@.take(i + 1).drop_last() =~= pat@.take(i as int));
        }
        table[pat[i] as usize] = pat_len - 1 - i;
        i += 1;
    }
    assert(pat@.take(pat_len as int) =~= pat@);
    table
}

// ---------------------------------------------------------------------------------------------------------------------
// Skipping
// ---------------------------------------------------------------------------------------------------------------------

/// A scan may jump over positions at which nothing is accepted.
pub proof fn lemma_scan_skip(src: Seq<u8>, pat: Seq<u8>, from: int, by: int, to: int)
    requires
        0 <= from,
        0 <= by,
        forall|j: int| from <= j < from + by ==> !accepted(src, pat, j),
    ensures
        scan(src, pat, from, to) == scan(src, pat, from + by, to),
    decreases by,
{
    if by > 0 {
        lemma_scan_skip(src, pat, from + 1, by - 1, to);
    }
}

/// The Quick-Search shift jumps over no occurrence.
pub(crate) proof fn lemma_qs_shift_safe(src: Seq<u8>, pat: Seq<u8>, i: int)
    requires
        0 <= i,
        0 < pat.len(),
        i + pat.len() < src.len(),
    ensures
        1 <= qs_shift(pat, src[i + pat.len()]) <= pat.len() + 1,
        forall|j: int| i < j < i + qs_shift(pat, src[i + pat.len()]) ==> !occurs_at(src, pat, j),
{
    let m = pat.len() as int;
    let c = src[i + m];
    lemma_last_index(pat, c);
    assert forall|j: int| i < j < i + qs_shift(pat, c) implies !occurs_at(src, pat, j) by {
        if occurs_at(src, pat, j) {
            let d = j - i;
            assert(src.subrange(j, j + m)[m - d] == pat[m - d]);
        }
    }
}

// ---------------------------------------------------------------------------------------------------------------------
// Chunks
// ---------------------------------------------------------------------------------------------------------------------

/// Into how many chunks a source of `len` bytes is split: one for every
/// `size` bytes, the last of them possibly shorter, but no more than `max`.
pub open spec fn chunk_count(len: int, size: int, max: int) -> int
    recommends
        size > 0,
{
    let wanted = len / size + (if len % size == 0 {
        0int
    } else {
        1int
    });
    if wanted < max {
        wanted
    } else {
        max
    }
}

/// Where chunk `k` of `count` begins, and chunk `k - 1` ends.
pub open spec fn chunk_edge(len: int, count: int, k: int) -> int
    recommends
        count > 0,
{
    (len * k) / count
}

/// The edges of the chunks lie in the source, in order.
pub proof fn lemma_chunk_edges(len: int, count: int, k: int)
    requires
        0 <= len,
        0 <= k < count,
    ensures
        0 <= chunk_edge(len, count, k) <= chunk_edge(len, count, k + 1) <= len,
        chunk_edge(len, count, 0) == 0,
        chunk_edge(len, count, count) == len,
{
    assert(0 <= (len * k) / count <= (len * (k + 1)) / count <= len) by (nonlinear_arith)
        requires
            0 <= len,
            0 <= k < count,
    ;
    assert((len * 0) / count == 0) by (nonlinear_arith)
        requires
            0 < count,
    ;
    assert((len * count) / count == len) by (nonlinear_arith)
        requires
            0 < count,
    ;
}

/// Computes `chunk_count`.
fn count_chunks(len: usize, size: usize, max: usize) -> (count: usize)
    requires
        size > 0,
    ensures
        count == chunk_count(len as int, size as int, max as int),
{
    let full: usize = len / size;
    if len % size == 0 {
        if full < max {
            full
        } else {
            max
        }
    } else {
        assert(full < usize::MAX) by (nonlinear_arith)
            requires
                full == len as int / size as int,
                len as int % size as int != 0,
                size > 0,
                len <= usize::MAX,
        ;
        if full + 1 < max {
            full + 1
        } else {
            max
        }
    }
}

/// Computes `chunk_edge`.
fn edge(len: usize, count: usize, k: usize) -> (at: usize)
    requires
        0 <= k <= count,
        0 < count,
    ensures
        at == chunk_edge(len as int, count as int, k as int),
{
    proof {
        if k < count {
            lemma_chunk_edges(len as int, count as int, k as int);
        } else {
            lemma_chunk_edges(len as int, count as int, k - 1);
        }
        assert(0 <= len * k <= u128::MAX) by (nonlinear_arith)
            requires
                0 <= len <= 0xffff_ffff_ffff_ffff,
                0 <= k <= 0xffff_ffff_ffff_ffff,
        ;
    }
    let wide: u128 = len as u128 * k as u128 / count as u128;
    wide as usize
}

/// The chunks lie in a source of `len` bytes one behind the other, from
/// its start to its end.
pub open spec fn chunks_cover(bounds: Seq<(usize, usize)>, len: int) -> bool {
    &&& bounds.len() > 0
    &&& bounds[0].0 == 0
    &&& bounds[bounds.len() - 1].1 == len
    &&& forall|k: int| 0 <= k < bounds.len() ==> (#[trigger] bounds[k]).0 <= bounds[k].1 <= len
    &&& forall|k: int, next: int|
        0 <= k && next == k + 1 && next < bounds.len() ==> (#[trigger] bounds[k]).1 == (#[trigger] bounds[next]).0
}

/// Lists the bounds of all `count` chunks of a source of `len` bytes.
fn chunk_bounds(len: usize, count: usize) -> (bounds: Vec<(usize, usize)>)
    requires
        0 < count,
    ensures
        bounds@.len() == count,
        forall|k: int|
            0 <= k < count ==> (#[trigger] bounds@[k]).0 == chunk_edge(len as int, count as int, k)
                && bounds@[k].1 == chunk_edge(len as int, count as int, k + 1),
        chunks_cover(bounds@, len as int),
{
    let mut bounds: Vec<(usize, usize)> = Vec::new();
    let mut k: usize = 0;
    while k < count
        invariant
            k <= count,
            0 < count,
            bounds@.len() == k,
            forall|j: int|
                0 <= j < k ==> (#[trigger] bounds@[j]).0 == chunk_edge(len as int, count as int, j)
                    && bounds@[j].1 == chunk_edge(len as int, count as int, j + 1),
        decreases count - k,
    {
        let beg: usize = edge(len, count, k);
        let end: usize = edge(len, count, k + 1);
        bounds.push((beg, end));
        k += 1;
    }
    proof {
        lemma_chunk_edges(len as int, count as int, 0);
        assert forall|j: int| 0 <= j < bounds@.len() implies (#[trigger] bounds@[j]).0 <= bounds@[j].1 <= len by {
            lemma_chunk_edges(len as int, count as int, j);
        }
    }
    bounds
}

/// Runs `job` on every pair of `bounds`, on a scoped pool of `threads`
/// workers (`Pool::new`, `Pool::scoped` and `Scope::execute` of
/// scoped_threadpool), and hands back what each run returned, in the order
/// of `bounds`. The pool joins its workers before it lets go of the scope, so
/// every run has ended when this returns; nothing is claimed of a result but
/// that `job` may return it for its pair.
#[verifier::external_body]
fn run_on_pool<F>(threads: u32, bounds: &Vec<(usize, usize)>, job: &F) -> (parts: Vec<Vec<Match>>)
    where F: Fn(usize, usize) -> Vec<Match> + Sync
    requires
        threads >= 1,
        forall|k: int| 0 <= k < bounds@.len() ==> call_requires(job, ((#[trigger] bounds@[k]).0, bounds@[k].1)),
    ensures
        parts@.len() == bounds@.len(),
        forall|k: int|
            0 <= k < bounds@.len() ==> call_ensures(job, (bounds@[k].0, bounds@[k].1), #[trigger] parts@[k]),
{
    let mut parts: Vec<Vec<Match>> = bounds.iter().map(|_| Vec::new()).collect();
    let mut pool = Pool::new(threads);
    pool.scoped(|scope| {
        for (slot, b) in parts.iter_mut().zip(bounds.iter()) {
            scope.execute(move || *slot = job(b.0, b.1));
        }
    });
    parts
}

/// With up to `u32::MAX` workers, as many workers as there are chunks.
fn pool_size(count: usize) -> (threads: u32)
    requires
        count >= 1,
    ensures
        threads >= 1,
        threads == count || threads == u32::MAX && count > u32::MAX,
{
    if count > u32::MAX as usize {
        u32::MAX
    } else {
        count as u32
    }
}

/// There are at most as many chunks as bytes, and one at least where there
/// is a byte.
proof fn lemma_chunk_count_range(len: int, size: int, max: int)
    requires
        0 <= len,
        1 <= size,
        1 <= max,
    ensures
        0 <= chunk_count(len, size, max) <= len,
        chunk_count(len, size, max) <= max,
        len > 0 ==> chunk_count(len, size, max) >= 1,
{
    assert(0 <= len / size <= len && (len % size != 0 ==> len / size + 1 <= len) && (len > 0 && len % size == 0
        ==> len / size >= 1)) by (nonlinear_arith)
        requires
            0 <= len,
            1 <= size,
    ;
}

/// Where a scan goes on when it has left the range below `to`: behind the
/// last match that it reported there, where that match reaches over `to`,
/// else at `to`. A scan that began behind `to` goes on where it began.
pub open spec fn scan_resume(src: Seq<u8>, pat: Seq<u8>, from: int, to: int) -> int {
    let found = scan(src, pat, from, to);
    if found.len() > 0 && found.last() + pat.len() > to {
        found.last() + pat.len()
    } else if from > to {
        from
    } else {
        to
    }
}

/// A scan up to `to` is a scan up to `mid`, followed by a scan from where
/// that one goes on.
pub proof fn lemma_scan_split(src: Seq<u8>, pat: Seq<u8>, from: int, mid: int, to: int)
    requires
        0 <= from,
        mid <= to,
    ensures
        scan(src, pat, from, to) == scan(src, pat, from, mid) + scan(src, pat, scan_resume(src, pat, from, mid), to),
    decreases
        (if mid > from {
            mid - from
        } else {
            0
        }),
{
    let found = scan(src, pat, from, mid);
    if pat.len() == 0 {
        assert(scan(src, pat, from, to) =~= Seq::<int>::empty());
        assert(scan(src, pat, scan_resume(src, pat, from, mid), to) =~= Seq::<int>::empty());
        assert(found =~= Seq::<int>::empty());
    } else if from >= mid {
        assert(found =~= Seq::<int>::empty());
        assert(scan(src, pat, from, to) =~= found + scan(src, pat, from, to));
    } else if from + pat.len() > src.len() {
        assert(found =~= Seq::<int>::empty());
        assert(scan(src, pat, from, to) =~= Seq::<int>::empty());
        assert(scan(src, pat, mid, to) =~= Seq::<int>::empty());
    } else if accepted(src, pat, from) {
        let next = from + pat.len();
        let rest = scan(src, pat, next, mid);
        lemma_scan_split(src, pat, next, mid, to);
        assert(found == seq![from] + rest);
        if rest.len() > 0 {
            assert(found.last() == rest.last());
            assert(next < mid);
        } else {
            assert(found.last() == from);
        }
        assert(scan_resume(src, pat, from, mid) == scan_resume(src, pat, next, mid));
        assert(seq![from] + (rest + scan(src, pat, scan_resume(src, pat, next, mid), to)) =~= (seq![from] + rest)
            + scan(src, pat, scan_resume(src, pat, next, mid), to));
    } else {
        lemma_scan_split(src, pat, from + 1, mid, to);
        assert(found == scan(src, pat, from + 1, mid));
        assert(scan_resume(src, pat, from, mid) == scan_resume(src, pat, from + 1, mid));
    }
}

/// A scan that reports nothing before `later` reports the same from
/// `later` on as from its beginning.
pub proof fn lemma_scan_from_later(src: Seq<u8>, pat: Seq<u8>, from: int, later: int, to: int)
    requires
        0 <= from <= later,
        scan(src, pat, from, to).len() == 0 || scan(src, pat, from, to)[0] >= later,
    ensures
        scan(src, pat, later, to) == scan(src, pat, from, to),
    decreases later - from,
{
    if pat.len() == 0 || from >= to || from + pat.len() > src.len() {
        assert(scan(src, pat, from, to) =~= Seq::<int>::empty());
        assert(scan(src, pat, later, to) =~= Seq::<int>::empty());
    } else if from == later {
    } else if accepted(src, pat, from) {
        assert(scan(src, pat, from, to)[0] == from);
    } else {
        lemma_scan_from_later(src, pat, from + 1, later, to);
    }
}

/// A scan reports accepted occurrences only, each within its range, and each
/// at or behind the end of the one before.
pub proof fn lemma_scan_sound(src: Seq<u8>, pat: Seq<u8>, from: int, to: int)
    ensures
        forall|i: int|
            0 <= i < scan(src, pat, from, to).len() ==> {
                &&& from <= (#[trigger] scan(src, pat, from, to)[i]) < to
                &&& accepted(src, pat, scan(src, pat, from, to)[i])
            },
        forall|i: int, j: int|
            0 <= i < j < scan(src, pat, from, to).len() ==> (#[trigger] scan(src, pat, from, to)[i]) + pat.len()
                <= (#[trigger] scan(src, pat, from, to)[j]),
    decreases
        (if to > from {
            to - from
        } else {
            0
        }),
{
    let found = scan(src, pat, from, to);
    if pat.len() == 0 || from < 0 || from >= to || from + pat.len() > src.len() {
        assert(found.len() == 0);
    } else if accepted(src, pat, from) {
        let rest = scan(src, pat, from + pat.len(), to);
        lemma_scan_sound(src, pat, from + pat.len(), to);
        assert forall|i: int| 0 <= i < found.len() implies from <= (#[trigger] found[i]) < to && accepted(
            src,
            pat,
            found[i],
        ) by {
            if i > 0 {
                assert(found[i] == rest[i - 1]);
            }
        }
        assert forall|i: int, j: int| 0 <= i < j < found.len() implies (#[trigger] found[i]) + pat.len() <= (
        #[trigger] found[j]) by {
            assert(found[j] == rest[j - 1]);
            if i > 0 {
                assert(found[i] == rest[i - 1]);
            }
        }
    } else {
        lemma_scan_sound(src, pat, from + 1, to);
        assert(found == scan(src, pat, from + 1, to));
    }
}

/// Matches whose views are the plain matches of a list of starts are as
/// many as the starts, and each begins at its start and ends behind the
/// pattern.
proof fn lemma_views_of_plain(ms: Seq<Match>, starts: Seq<int>, pat_len: int)
    requires
        views_of(ms) == plain_matches(starts, pat_len),
    ensures
        ms.len() == starts.len(),
        forall|i: int| 0 <= i < ms.len() ==> (#[trigger] ms[i]).beg == starts[i] && ms[i].end == starts[i] + pat_len,
{
    assert(views_of(ms).len() == ms.len());
    assert(plain_matches(starts, pat_len).len() == starts.len());
    assert forall|i: int| 0 <= i < ms.len() implies (#[trigger] ms[i]).beg == starts[i] && ms[i].end == starts[i]
        + pat_len by {
        assert(views_of(ms)[i] == ms[i]@);
        assert(plain_matches(starts, pat_len)[i] == plain_match(starts[i], pat_len));
    }
}

/// Makes what a chunk reported into what a scan of the chunk from `pos` on
/// reports. The part is taken as it is where its first match begins at or
/// behind `pos`; else the chunk is scanned once more, from `pos` on.
fn settle_part<F>(src: &[u8], pat: &[u8], beg: usize, end: usize, pos: usize, part: Vec<Match>, job: &F) -> (settled:
    Vec<Match>) where F: Fn(usize, usize) -> Vec<Match> + Sync
    requires
        beg <= pos <= end <= src@.len(),
        views_of(part@) == plain_matches(scan(src@, pat@, beg as int, end as int), pat@.len() as int),
        call_requires(job, (pos, end)),
        forall|part: Vec<Match>| #[trigger]
            call_ensures(job, (pos, end), part) ==> views_of(part@) == plain_matches(
                scan(src@, pat@, pos as int, end as int),
                pat@.len() as int,
            ),
    ensures
        views_of(settled@) == plain_matches(scan(src@, pat@, pos as int, end as int), pat@.len() as int),
{
    if part.len() == 0 || part[0].beg >= pos {
        proof {
            let reported = scan(src@, pat@, beg as int, end as int);
            lemma_views_of_plain(part@, reported, pat@.len() as int);
            lemma_scan_from_later(src@, pat@, beg as int, pos as int, end as int);
        }
        part
    } else {
        job(pos, end)
    }
}

/// Finds where the scan goes on behind the chunk that ends at `end`, of
/// which `part` holds what a scan from `pos` on reports.
fn resume_behind(src: &[u8], pat: &[u8], pos: usize, end: usize, part: &Vec<Match>) -> (next: usize)
    requires
        0 < pat@.len(),
        pos <= end <= src@.len(),
        views_of(part@) == plain_matches(scan(src@, pat@, pos as int, end as int), pat@.len() as int),
    ensures
        next == scan_resume(src@, pat@, pos as int, end as int),
        end <= next <= src@.len(),
{
    let ghost found = scan(src@, pat@, pos as int, end as int);
    proof {
        lemma_scan_sound(src@, pat@, pos as int, end as int);
        lemma_views_of_plain(part@, found, pat@.len() as int);
        if found.len() > 0 {
            assert(accepted(src@, pat@, found[found.len() - 1]));
        }
    }
    if part.len() > 0 && part[part.len() - 1].end > end {
        part[part.len() - 1].end
    } else {
        end
    }
}

/// Appends the matches of `part` to `ret`.
fn append_part(ret: &mut Vec<Match>, part: Vec<Match>)
    ensures
        views_of(final(ret)@) == views_of(old(ret)@) + views_of(part@),
{
    let ghost added = part@;
    let mut part = part;
    ret.append(&mut part);
    assert(views_of(ret@) =~= views_of(old(ret)@) + views_of(added));
}

/// The matches of two lists of starts in a row.
proof fn lemma_plain_matches_add(head: Seq<int>, tail: Seq<int>, pat_len: int)
    ensures
        plain_matches(head + tail, pat_len) == plain_matches(head, pat_len) + plain_matches(tail, pat_len),
{
    assert(plain_matches(head + tail, pat_len) =~= plain_matches(head, pat_len) + plain_matches(tail, pat_len));
}

/// Joins what the chunks report into what one scan of the whole source
/// reports. The parts are taken in the order of the chunks. Where a match of
/// an earlier chunk reaches into the first match of a part, the chunk of that
/// part is scanned once more from the end of the earlier match.
fn join_parts<F>(src: &[u8], pat: &[u8], bounds: &Vec<(usize, usize)>, parts: Vec<Vec<Match>>, job: &F) -> (ret: Vec<
    Match,
>) where F: Fn(usize, usize) -> Vec<Match> + Sync
    requires
        0 < pat@.len(),
        chunks_cover(bounds@, src@.len() as int),
        parts@.len() == bounds@.len(),
        forall|k: int|
            0 <= k < bounds@.len() ==> views_of((#[trigger] parts@[k])@) == plain_matches(
                scan(src@, pat@, bounds@[k].0 as int, bounds@[k].1 as int),
                pat@.len() as int,
            ),
        forall|beg: usize, end: usize| beg <= end <= src@.len() ==> call_requires(job, (beg, end)),
        forall|beg: usize, end: usize, part: Vec<Match>| #[trigger]
            call_ensures(job, (beg, end), part) ==> views_of(part@) == plain_matches(
                scan(src@, pat@, beg as int, end as int),
                pat@.len() as int,
            ),
    ensures
        views_of(ret@) == plain_matches(scan(src@, pat@, 0, src@.len() as int), pat@.len() as int),
{
    let src_len: usize = src.len();
    let ghost pat_len = pat@.len() as int;
    let mut parts = parts;
    let mut ret: Vec<Match> = Vec::new();
    let ghost mut starts: Seq<int> = Seq::empty();
    assert(views_of(ret@) =~= plain_matches(starts, pat_len));
    assert(scan(src@, pat@, 0, src_len as int) =~= starts + scan(src@, pat@, 0, src_len as int));
    // The scan of the whole source has come to `pos`.
    let mut pos: usize = 0;
    let mut k: usize = 0;
    while k < bounds.len()
        invariant
            0 < pat_len == pat@.len(),
            src_len == src@.len(),
            chunks_cover(bounds@, src_len as int),
            k <= bounds@.len(),
            parts@.len() == bounds@.len() - k,
            forall|j: int|
                0 <= j < parts@.len() ==> views_of((#[trigger] parts@[j])@) == plain_matches(
                    scan(src@, pat@, bounds@[k + j].0 as int, bounds@[k + j].1 as int),
                    pat_len,
                ),
            forall|beg: usize, end: usize| beg <= end <= src@.len() ==> call_requires(job, (beg, end)),
            forall|beg: usize, end: usize, part: Vec<Match>| #[trigger]
                call_ensures(job, (beg, end), part) ==> views_of(part@) == plain_matches(
                    scan(src@, pat@, beg as int, end as int),
                    pat@.len() as int,
                ),
            pos <= src_len,
            k < bounds@.len() ==> bounds@[k as int].0 <= pos,
            k == bounds@.len() ==> pos == src_len,
            scan(src@, pat@, 0, src_len as int) == starts + scan(src@, pat@, pos as int, src_len as int),
            views_of(ret@) == plain_matches(starts, pat_len),
        decreases bounds@.len() - k,
    {
        let beg: usize = bounds[k].0;
        let end: usize = bounds[k].1;
        let ghost waiting = parts@;
        let part: Vec<Match> = parts.remove(0);
        proof {
            assert(part == waiting[0]);
            assert forall|j: int| 0 <= j < parts@.len() implies views_of((#[trigger] parts@[j])@) == plain_matches(
                scan(src@, pat@, bounds@[k + 1 + j].0 as int, bounds@[k + 1 + j].1 as int),
                pat_len,
            ) by {
                assert(parts@[j] == waiting[j + 1]);
            }
        }
        if pos < end {
            let ghost found = scan(src@, pat@, pos as int, end as int);
            let part: Vec<Match> = settle_part(src, pat, beg, end, pos, part, job);
            let next: usize = resume_behind(src, pat, pos, end, &part);
            append_part(&mut ret, part);
            proof {
                lemma_scan_split(src@, pat@, pos as int, end as int, src_len as int);
                lemma_plain_matches_add(starts, found, pat_len);
                assert(starts + (found + scan(src@, pat@, next as int, src_len as int)) =~= (starts + found) + scan(
                    src@,
                    pat@,
                    next as int,
                    src_len as int,
                ));
                starts = starts + found;
            }
            pos = next;
        }
        k += 1;
    }
    assert(scan(src@, pat@, src_len as int, src_len as int) =~= Seq::<int>::empty());
    assert(starts + Seq::<int>::empty() =~= starts);
    ret
}

/// Searches `src` chunk by chunk: `job` scans one chunk, and is run on all
/// of them side by side where there are several. The source is split into a
/// chunk for every `size_per_thread` bytes, but into `max_threads` chunks at
/// most.
pub(crate) fn search_in_chunks<F>(src: &[u8], pat: &[u8], size_per_thread: usize, max_threads: usize, job: &F) -> (ret:
    Vec<Match>) where F: Fn(usize, usize) -> Vec<Match> + Sync
    requires
        size_per_thread >= 1,
        max_threads >= 1,
        0 < pat@.len() <= src@.len(),
        forall|beg: usize, end: usize| beg <= end <= src@.len() ==> call_requires(job, (beg, end)),
        forall|beg: usize, end: usize, part: Vec<Match>| #[trigger]
            call_ensures(job, (beg, end), part) ==> views_of(part@) == plain_matches(
                scan(src@, pat@, beg as int, end as int),
                pat@.len() as int,
            ),
    ensures
        views_of(ret@) == plain_matches(scan(src@, pat@, 0, src@.len() as int), pat@.len() as int),
{
    let src_len: usize = src.len();
    proof {
        lemma_chunk_count_range(src_len as int, size_per_thread as int, max_threads as int);
    }
    let thread_num: usize = count_chunks(src_len, size_per_thread, max_threads);

    if thread_num == 1 {
        job(0, src_len)
    } else {
        let bounds: Vec<(usize, usize)> = chunk_bounds(src_len, thread_num);
        let parts: Vec<Vec<Match>> = run_on_pool(pool_size(thread_num), &bounds, job);
        join_parts(src, pat, &bounds, parts, job)
    }
}

/// Nothing is found: the result for a pattern that is empty or longer than
/// the source.
pub(crate) fn nothing_found(src: &[u8], pat: &[u8]) -> (ret: Vec<Match>)
    requires
        pat@.len() == 0 || pat@.len() > src@.len(),
    ensures
        views_of(ret@) == plain_matches(scan(src@, pat@, 0, src@.len() as int), pat@.len() as int),
{
    let ret: Vec<Match> = Vec::new();
    assert(views_of(ret@) =~= plain_matches(Seq::<int>::empty(), pat@.len() as int));
    ret
}

/// Looks for a pattern that is as long as the source: there is one window.
pub(crate) fn search_exact_fit(src: &[u8], pat: &[u8]) -> (ret: Vec<Match>)
    requires
        0 < pat@.len() == src@.len(),
    ensures
        views_of(ret@) == plain_matches(scan(src@, pat@, 0, src@.len() as int), pat@.len() as int),
{
    let pat_len: usize = pat.len();
    let mut ret: Vec<Match> = Vec::new();
    assert(views_of(ret@) =~= plain_matches(Seq::<int>::empty(), pat_len as int));
    proof {
        assert(scan(src@, pat@, pat_len as int, pat_len as int) =~= Seq::<int>::empty());
        assert(scan(src@, pat@, 1, pat_len as int) =~= Seq::<int>::empty());
    }
    if pattern_at(src, pat, 0) && MatcherUtil::check_char_boundary(src, 0) {
        push_match(&mut ret, 0, pat_len);
        proof {
            lemma_plain_matches_push(Seq::<int>::empty(), 0, pat_len as int);
            assert(Seq::<int>::empty().push(0int) =~= seq![0int]);
            assert(seq![0int] + Seq::<int>::empty() =~= seq![0int]);
        }
    }
    ret
}

// ---------------------------------------------------------------------------------------------------------------------
// QuickSearchMatcher
// ---------------------------------------------------------------------------------------------------------------------

/// Sunday's Quick-Search, run on the chunks of a large source side by side.
pub struct QuickSearchMatcher {
    pub max_threads: usize,
    pub size_per_thread: usize,
}

impl QuickSearchMatcher {
    /// A matcher for up to four chunks of one megabyte or more.
    pub fn new() -> (matcher: Self)
        ensures
            matcher.max_threads == 4,
            matcher.size_per_thread == 1024 * 1024,
    {
        QuickSearchMatcher { max_threads: 4, size_per_thread: 1024 * 1024 }
    }

    /// Scans the window starts from `beg` up to, not including, `end`.
    pub fn search_sub(src: &[u8], pat: &[u8], qs_table: &[usize; 256], beg: usize, end: usize) -> (ret: Vec<Match>)
        requires
            0 < pat@.len(),
            beg <= end <= src@.len(),
            forall|c: u8| #[trigger] qs_table@[c as int] == qs_shift(pat@, c),
        ensures
            views_of(ret@) == plain_matches(scan(src@, pat@, beg as int, end as int), pat@.len() as int),
    {
        let src_len: usize = src.len();
        let pat_len: usize = pat.len();
        let mut ret: Vec<Match> = Vec::new();
        let ghost mut starts: Seq<int> = Seq::empty();
        assert(views_of(ret@) =~= plain_matches(starts, pat_len as int));

        let mut i: usize = beg;
        while i < end
            invariant
                0 < pat_len == pat@.len(),
                src_len == src@.len(),
                i <= src_len,
                end <= src_len,
                forall|c: u8| #[trigger] qs_table@[c as int] == qs_shift(pat@, c),
                scan(src@, pat@, beg as int, end as int) == starts + scan(src@, pat@, i as int, end as int),
                views_of(ret@) == plain_matches(starts, pat_len as int),
            ensures
                scan(src@, pat@, beg as int, end as int) == starts,
                views_of(ret@) == plain_matches(starts, pat_len as int),
            decreases src_len - i,
        {
            if src_len - i < pat_len {
                break;
            }
            if pattern_at(src, pat, i) && MatcherUtil::check_char_boundary(src, i) {
                push_match(&mut ret, i, pat_len);
                proof {
                    lemma_plain_matches_push(starts, i as int, pat_len as int);
                    assert(starts + (seq![i as int] + scan(src@, pat@, i + pat_len, end as int))
                        =~= starts.push(i as int) + scan(src@, pat@, i + pat_len, end as int));
                    starts = starts.push(i as int);
                }
                i += pat_len;
                continue;
            }
            if src_len - i <= pat_len {
                assert(scan(src@, pat@, i + 1, end as int) =~= Seq::<int>::empty());
                break;
            }
            let next: u8 = src[i + pat_len];
            proof {
                lemma_qs_shift_safe(src@, pat@, i as int);
                lemma_scan_skip(src@, pat@, i as int, qs_shift(pat@, next), end as int);
            }
            i += qs_table[next as usize];
        }

        ret
    }
}

impl Matcher for QuickSearchMatcher {
    /// There is room for a chunk, and for a worker.
    open spec fn valid(&self) -> bool {
        self.max_threads >= 1 && self.size_per_thread >= 1
    }

    /// What one scan of the whole source reports, however many chunks the
    /// source is searched in.
    open spec fn found(&self, src: Seq<u8>, pat: Seq<u8>) -> Seq<MatchView> {
        plain_matches(scan(src, pat, 0, src.len() as int), pat.len() as int)
    }

    fn search(&self, src: &[u8], pat: &[u8]) -> (ret: Vec<Match>) {
        let src_len: usize = src.len();
        let pat_len: usize = pat.len();

        if pat_len == 0 || pat_len > src_len {
            return nothing_found(src, pat);
        }
        if pat_len == src_len {
            return search_exact_fit(src, pat);
        }

        let qs_table: [usize; 256] = qs_table(pat);
        let job = |beg: usize, end: usize| -> (part: Vec<Match>)
            requires
                beg <= end <= src@.len(),
            ensures
                views_of(part@) == plain_matches(scan(src@, pat@, beg as int, end as int), pat@.len() as int),
            { QuickSearchMatcher::search_sub(src, pat, &qs_table, beg, end) };
        search_in_chunks(src, pat, self.size_per_thread, self.max_threads, &job)
    }
}

// ---------------------------------------------------------------------------------------------------------------------
// TbmMatcher
// ---------------------------------------------------------------------------------------------------------------------

/// The Boyer-Moore shift jumps over no occurrence: where the byte under the
/// end of the window at `w` calls for a shift, no window from `w` up to the
/// shifted one holds the pattern.
proof fn lemma_bm_shift_safe(src: Seq<u8>, pat: Seq<u8>, w: int)
    requires
        0 <= w,
        0 < pat.len(),
        w + pat.len() <= src.len(),
    ensures
        0 <= bm_shift(pat, src[w + pat.len() - 1]) <= pat.len(),
        bm_shift(pat, src[w + pat.len() - 1]) == 0 <==> src[w + pat.len() - 1] == pat.last(),
        forall|j: int| w <= j < w + bm_shift(pat, src[w + pat.len() - 1]) ==> !occurs_at(src, pat, j),
{
    let m = pat.len() as int;
    let c = src[w + m - 1];
    lemma_last_index(pat, c);
    assert forall|j: int| w <= j < w + bm_shift(pat, c) implies !occurs_at(src, pat, j) by {
        if occurs_at(src, pat, j) {
            let d = j - w;
            assert(src.subrange(j, j + m)[m - 1 - d] == pat[m - 1 - d]);
        }
    }
}

/// The guard shift jumps over no occurrence: where the byte under the end of
/// the window at `w` is the last byte of the pattern, no window behind `w` and
/// before the shifted one holds the pattern.
proof fn lemma_md2_shift_safe(src: Seq<u8>, pat: Seq<u8>, w: int)
    requires
        0 <= w,
        0 < pat.len(),
        w + pat.len() <= src.len(),
        src[w + pat.len() - 1] == pat.last(),
    ensures
        1 <= md2_shift(pat) <= pat.len(),
        forall|j: int| w < j < w + md2_shift(pat) ==> !occurs_at(src, pat, j),
{
    let m = pat.len() as int;
    let c = pat.last();
    lemma_last_index(pat.drop_last(), c);
    assert forall|j: int| w < j < w + md2_shift(pat) implies !occurs_at(src, pat, j) by {
        if occurs_at(src, pat, j) {
            let d = j - w;
            assert(src.subrange(j, j + m)[m - 1 - d] == pat[m - 1 - d]);
            assert(pat.drop_last()[m - 1 - d] == pat[m - 1 - d]);
        }
    }
}

/// Computes `md2_shift`.
pub fn md2_of(pat: &[u8]) -> (md2: usize)
    requires
        pat@.len() > 0,
    ensures
        md2 == md2_shift(pat@),
{
    let pat_len: usize = pat.len();
    let pe: usize = pat_len - 1;
    let mut md2: usize = 1;
    while md2 < pat_len
        invariant_except_break
            1 <= md2 <= pat_len == pat@.len(),
            pe == pat_len - 1,
            forall|j: int| pe - md2 < j < pe ==> pat@[j] != pat@[pe as int],
        ensures
            1 <= md2 <= pat_len,
            forall|j: int| pe - md2 < j < pe ==> pat@[j] != pat@[pe as int],
            md2 < pat_len ==> pat@[pe - md2] == pat@[pe as int],
        decreases pat_len - md2,
    {
        if pat[pe - md2] == pat[pe] {
            break;
        }
        md2 += 1;
    }
    proof {
        let rest = pat@.drop_last();
        lemma_last_index(rest, pat@.last());
        assert forall|j: int| 0 <= j < rest.len() implies rest[j] == pat@[j] by {}
        let li = last_index(rest, pat@.last());
        if li > pe - md2 {
            assert(rest[li] == pat@[li]);
        }
        if li < pe - md2 {
            assert(rest[pe - md2] == pat@[pe - md2]);
        }
    }
    md2
}

/// Tuned Boyer-Moore, run on the chunks of a large source side by side.
pub struct TbmMatcher {
    pub max_threads: usize,
    pub size_per_thread: usize,
}

impl TbmMatcher {
    /// A matcher for up to four chunks of one megabyte or more.
    pub fn new() -> (matcher: Self)
        ensures
            matcher.max_threads == 4,
            matcher.size_per_thread == 1024 * 1024,
    {
        TbmMatcher { max_threads: 4, size_per_thread: 1024 * 1024 }
    }

    /// Scans the windows that begin from `beg` up to, not including, `end`.
    /// `i` is the index under the end of the window; it starts at
    /// `beg + |pat| - 1` and never passes the end of the source.
    pub fn search_sub(src: &[u8], pat: &[u8], bm_table: &[usize; 256], md2: usize, beg: usize, end: usize) -> (ret:
        Vec<Match>)
        requires
            0 < pat@.len(),
            beg <= end <= src@.len(),
            forall|c: u8| #[trigger] bm_table@[c as int] == bm_shift(pat@, c),
            md2 == md2_shift(pat@),
        ensures
            views_of(ret@) == plain_matches(scan(src@, pat@, beg as int, end as int), pat@.len() as int),
    {
        let src_len: usize = src.len();
        let pat_len: usize = pat.len();
        let mut ret: Vec<Match> = Vec::new();
        let ghost mut starts: Seq<int> = Seq::empty();
        assert(views_of(ret@) =~= plain_matches(starts, pat_len as int));

        if pat_len > src_len - beg {
            return ret;
        }
        let reach: usize = pat_len - 1;
        let stop: usize = if reach >= src_len - end {
            src_len
        } else {
            end + reach
        };

        let mut i: usize = beg + reach;
        while i < stop
            invariant_except_break
                scan(src@, pat@, beg as int, end as int) == starts + scan(src@, pat@, i - reach, end as int),
            invariant
                0 < pat_len == pat@.len(),
                src_len == src@.len(),
                reach == pat_len - 1,
                end <= src_len,
                stop == if end + reach >= src_len { src_len as int } else { end + reach },
                reach <= i < src_len,
                forall|c: u8| #[trigger] bm_table@[c as int] == bm_shift(pat@, c),
                md2 == md2_shift(pat@),
                views_of(ret@) == plain_matches(starts, pat_len as int),
            ensures
                scan(src@, pat@, beg as int, end as int) == starts,
                views_of(ret@) == plain_matches(starts, pat_len as int),
            decreases src_len - i,
        {
            let ghost entered = i;
            let mut fits: bool = true;
            let mut k: usize = bm_table[src[i] as usize];
            proof {
                lemma_bm_shift_safe(src@, pat@, i - reach);
            }
            while k != 0
                invariant
                    entered <= i,
                    0 < pat_len == pat@.len(),
                    src_len == src@.len(),
                    reach == pat_len - 1,
                    reach <= i < src_len,
                    forall|c: u8| #[trigger] bm_table@[c as int] == bm_shift(pat@, c),
                    scan(src@, pat@, beg as int, end as int) == starts + scan(src@, pat@, i - reach, end as int),
                    fits ==> k == bm_shift(pat@, src@[i as int]),
                    fits ==> forall|j: int| i - reach <= j < i - reach + k ==> !occurs_at(src@, pat@, j),
                    !fits ==> k == 0 && scan(src@, pat@, i - reach, end as int) == Seq::<int>::empty(),
                decreases src_len - i, k,
            {
                proof {
                    lemma_scan_skip(src@, pat@, i - reach, k as int, end as int);
                }
                if k >= src_len - i {
                    fits = false;
                    k = 0;
                } else {
                    i += k;
                    k = bm_table[src[i] as usize];
                    proof {
                        lemma_bm_shift_safe(src@, pat@, i - reach);
                    }
                }
            }
            if !fits || i >= stop {
                break;
            }
            let at: usize = i - reach;
            proof {
                lemma_bm_shift_safe(src@, pat@, at as int);
                lemma_md2_shift_safe(src@, pat@, at as int);
            }
            if pattern_at(src, pat, at) && MatcherUtil::check_char_boundary(src, at) {
                push_match(&mut ret, at, pat_len);
                proof {
                    lemma_plain_matches_push(starts, at as int, pat_len as int);
                    assert(starts + (seq![at as int] + scan(src@, pat@, at + pat_len, end as int))
                        =~= starts.push(at as int) + scan(src@, pat@, at + pat_len, end as int));
                    starts = starts.push(at as int);
                }
                if pat_len >= src_len - i {
                    break;
                }
                i += pat_len;
            } else {
                proof {
                    lemma_scan_skip(src@, pat@, at as int, md2 as int, end as int);
                }
                if md2 >= src_len - i {
                    break;
                }
                i += md2;
            }
        }

        ret
    }
}

impl Matcher for TbmMatcher {
    /// There is room for a chunk, and for a worker.
    open spec fn valid(&self) -> bool {
        self.max_threads >= 1 && self.size_per_thread >= 1
    }

    /// What one scan of the whole source reports, however many chunks the
    /// source is searched in.
    open spec fn found(&self, src: Seq<u8>, pat: Seq<u8>) -> Seq<MatchView> {
        plain_matches(scan(src, pat, 0, src.len() as int), pat.len() as int)
    }

    fn search(&self, src: &[u8], pat: &[u8]) -> (ret: Vec<Match>) {
        let src_len: usize = src.len();
        let pat_len: usize = pat.len();

        if pat_len == 0 || pat_len > src_len {
            return nothing_found(src, pat);
        }

        let bm_table: [usize; 256] = bm_table(pat);
        let md2: usize = md2_of(pat);
        let job = |beg: usize, end: usize| -> (part: Vec<Match>)
            requires
                beg <= end <= src@.len(),
            ensures
                views_of(part@) == plain_matches(scan(src@, pat@, beg as int, end as int), pat@.len() as int),
            { TbmMatcher::search_sub(src, pat, &bm_table, md2, beg, end) };
        search_in_chunks(src, pat, self.size_per_thread, self.max_threads, &job)
    }
}

} // verus!
