use amber::matcher::{
    bm_table, md2_of, pattern_at, qs_table, BruteForceMatcher, Match, Matcher, MatcherUtil, QuickSearchMatcher,
    TbmMatcher,
};
use amber::matcher_fjs::{links_of, FjsMatcher};
use amber::matcher_regex::RegexMatcher;

fn spans(ret: &[Match]) -> Vec<(usize, usize)> {
    ret.iter().map(|m| (m.beg, m.end)).collect()
}

fn test_matcher<T: Matcher>(m: &T) {
    let src = "abcabcaaaaabc".to_string().into_bytes();
    let pat = "a".to_string().into_bytes();
    let ret = m.search(&src, &pat);
    assert_eq!(ret.len(), 7);
    assert_eq!((0, 1), (ret[0].beg, ret[0].end));
    assert_eq!((3, 4), (ret[1].beg, ret[1].end));
    assert_eq!((6, 7), (ret[2].beg, ret[2].end));
    assert_eq!((7, 8), (ret[3].beg, ret[3].end));
    assert_eq!((8, 9), (ret[4].beg, ret[4].end));
    assert_eq!((9, 10), (ret[5].beg, ret[5].end));
    assert_eq!((10, 11), (ret[6].beg, ret[6].end));

    let src = "abcabcaaaaabc".to_string().into_bytes();
    let pat = "abc".to_string().into_bytes();
    let ret = m.search(&src, &pat);
    assert_eq!(ret.len(), 3);
    assert_eq!((0, 3), (ret[0].beg, ret[0].end));
    assert_eq!((3, 6), (ret[1].beg, ret[1].end));
    assert_eq!((10, 13), (ret[2].beg, ret[2].end));

    let src = "abcabcaaaaabc".to_string().into_bytes();
    let pat = "aaa".to_string().into_bytes();
    let ret = m.search(&src, &pat);
    assert_eq!(ret.len(), 1);
    assert_eq!((6, 9), (ret[0].beg, ret[0].end));

    let src = "abcabcaaaaabc".to_string().into_bytes();
    let pat = "abcabcaaaaabc".to_string().into_bytes();
    let ret = m.search(&src, &pat);
    assert_eq!(ret.len(), 1);
    assert_eq!((0, 13), (ret[0].beg, ret[0].end));

    let src = "abcabcaaaaabc".to_string().into_bytes();
    let pat = "あ".to_string().into_bytes();
    let ret = m.search(&src, &pat);
    assert!(ret.is_empty());

    let src = "abcabcあいうえおaあああaaaabc".to_string().into_bytes();
    let pat = "あ".to_string().into_bytes();
    let ret = m.search(&src, &pat);
    assert_eq!(ret.len(), 4);
    assert_eq!((6, 9), (ret[0].beg, ret[0].end));
    assert_eq!((22, 25), (ret[1].beg, ret[1].end));
    assert_eq!((25, 28), (ret[2].beg, ret[2].end));
    assert_eq!((28, 31), (ret[3].beg, ret[3].end));
}

#[test]
fn test_brute_force_matcher() {
    let matcher = BruteForceMatcher::new();
    test_matcher(&matcher);
}

#[test]
fn test_quick_search_matcher() {
    let matcher = QuickSearchMatcher::new();
    test_matcher(&matcher);
}

#[test]
fn test_quick_search_matcher_sse() {
    let matcher = QuickSearchMatcher::new();
    test_matcher(&matcher);
}

#[test]
fn test_tbm_matcher() {
    let matcher = TbmMatcher::new();
    test_matcher(&matcher);
}

#[test]
fn test_tbm_matcher_sse() {
    let matcher = TbmMatcher::new();
    test_matcher(&matcher);
}

#[test]
fn test_regex_matcher() {
    let matcher = RegexMatcher::new();
    test_matcher(&matcher);
}

fn test_on_chunks<T: Matcher>(m: &T) {
    // Thirteen bytes in three chunks: [0, 4), [4, 8), [8, 13).
    test_matcher(m);
    // The match at 6 reaches into the chunk that begins at 8: that chunk is
    // scanned from 9 on.
    let src = "abcabcaaaaabc".to_string().into_bytes();
    assert_eq!(spans(&m.search(&src, b"aaa")), vec![(6, 9)]);
    assert_eq!(spans(&m.search(&src, b"aa")), vec![(6, 8), (8, 10)]);
    assert_eq!(spans(&m.search(&src, b"bcabcaaaaa")), vec![(1, 11)]);
}

#[test]
fn quick_search_on_chunks() {
    let mut matcher = QuickSearchMatcher::new();
    matcher.max_threads = 3;
    matcher.size_per_thread = 4;
    test_on_chunks(&matcher);
}

#[test]
fn tbm_on_chunks() {
    let mut matcher = TbmMatcher::new();
    matcher.max_threads = 3;
    matcher.size_per_thread = 4;
    test_on_chunks(&matcher);
}

#[test]
fn new_matchers_have_default_tunables() {
    let qs = QuickSearchMatcher::new();
    assert_eq!(qs.max_threads, 4);
    assert_eq!(qs.size_per_thread, 1024 * 1024);
    let tbm = TbmMatcher::new();
    assert_eq!(tbm.max_threads, 4);
    assert_eq!(tbm.size_per_thread, 1024 * 1024);
}

#[test]
fn empty_pattern_is_found_nowhere() {
    let src = b"abc".to_vec();
    assert!(BruteForceMatcher::new().search(&src, b"").is_empty());
    assert!(QuickSearchMatcher::new().search(&src, b"").is_empty());
    assert!(TbmMatcher::new().search(&src, b"").is_empty());
}

#[test]
fn pattern_longer_than_source_is_not_found() {
    let src = b"ab".to_vec();
    assert!(BruteForceMatcher::new().search(&src, b"abc").is_empty());
    assert!(QuickSearchMatcher::new().search(&src, b"abc").is_empty());
    assert!(TbmMatcher::new().search(&src, b"abc").is_empty());
    assert!(BruteForceMatcher::new().search(b"", b"a").is_empty());
    assert!(QuickSearchMatcher::new().search(b"", b"a").is_empty());
    assert!(TbmMatcher::new().search(b"", b"a").is_empty());
}

#[test]
fn continuation_byte_is_no_match() {
    let src = "あいうえお".to_string().into_bytes();
    let pat = [0x81u8];
    assert!(BruteForceMatcher::new().search(&src, &pat).is_empty());
    assert!(QuickSearchMatcher::new().search(&src, &pat).is_empty());
    assert!(TbmMatcher::new().search(&src, &pat).is_empty());
}

#[test]
fn second_character_is_found_at_its_offset() {
    let src = "あいうえお".to_string().into_bytes();
    let pat = "い".to_string().into_bytes();
    assert_eq!(spans(&BruteForceMatcher::new().search(&src, &pat)), vec![(3, 6)]);
    assert_eq!(spans(&QuickSearchMatcher::new().search(&src, &pat)), vec![(3, 6)]);
    assert_eq!(spans(&TbmMatcher::new().search(&src, &pat)), vec![(3, 6)]);
    assert_eq!(spans(&RegexMatcher::new().search(&src, &pat)), vec![(3, 6)]);
}

fn noise(len: usize, seed: u64) -> Vec<u8> {
    let mut state = seed;
    let mut out = Vec::with_capacity(len);
    for _ in 0..len {
        state = state.wrapping_mul(6364136223846793005).wrapping_add(1442695040888963407);
        out.push((state >> 33) as u8);
    }
    out
}

fn big_with_needle() -> Vec<u8> {
    let mut src = noise(4 * 1024 * 1024, 1);
    let at = 1048573;
    // The byte before the needle is plain text, so that the needle begins a
    // character whatever the noise before it holds.
    src[at - 1] = b' ';
    src[at..at + 6].copy_from_slice(b"needle");
    src
}

#[test]
fn needle_across_a_chunk_edge_quick_search() {
    let src = big_with_needle();
    let mut matcher = QuickSearchMatcher::new();
    matcher.size_per_thread = 1024 * 1024;
    matcher.max_threads = 4;
    let ret = matcher.search(&src, b"needle");
    assert_eq!(spans(&ret), vec![(1048573, 1048579)]);
}

#[test]
fn needle_across_a_chunk_edge_tbm() {
    let src = big_with_needle();
    let mut matcher = TbmMatcher::new();
    matcher.size_per_thread = 1024 * 1024;
    matcher.max_threads = 4;
    let ret = matcher.search(&src, b"needle");
    assert_eq!(spans(&ret), vec![(1048573, 1048579)]);
}

#[test]
fn needle_across_a_chunk_edge_brute_force() {
    let src = big_with_needle();
    let ret = BruteForceMatcher::new().search(&src, b"needle");
    assert_eq!(spans(&ret), vec![(1048573, 1048579)]);
}

#[test]
fn matchers_agree_on_noise() {
    let mut src = noise(3000, 7);
    for b in src.iter_mut() {
        *b = b'a' + (*b % 3);
    }
    for pat in [&b"a"[..], b"ab", b"abc", b"aab", b"cabca", b"bb"] {
        let plain = spans(&BruteForceMatcher::new().search(&src, pat));
        let mut qs = QuickSearchMatcher::new();
        qs.max_threads = 1;
        let mut tbm = TbmMatcher::new();
        tbm.max_threads = 1;
        assert_eq!(spans(&qs.search(&src, pat)), plain);
        assert_eq!(spans(&tbm.search(&src, pat)), plain);
        qs.max_threads = 5;
        qs.size_per_thread = 100;
        tbm.max_threads = 5;
        tbm.size_per_thread = 100;
        assert_eq!(spans(&qs.search(&src, pat)), plain);
        assert_eq!(spans(&tbm.search(&src, pat)), plain);
    }
}

#[test]
fn every_match_holds_the_pattern() {
    let mut src = noise(2000, 11);
    for b in src.iter_mut() {
        *b = b'a' + (*b % 2);
    }
    let pat = b"aba";
    let mut qs = QuickSearchMatcher::new();
    qs.max_threads = 4;
    qs.size_per_thread = 64;
    let ret = qs.search(&src, pat);
    assert!(!ret.is_empty());
    let mut last = 0;
    for (i, m) in ret.iter().enumerate() {
        assert_eq!(&src[m.beg..m.end], pat);
        assert!(MatcherUtil::check_char_boundary(&src, m.beg));
        assert!(m.sub_match.is_empty());
        if i > 0 {
            assert!(m.beg >= last);
        }
        last = m.end;
    }
}

#[test]
fn overlapping_occurrences_on_two_chunks() {
    let src = b"aaa".to_vec();
    let pat = b"aa";
    assert_eq!(spans(&BruteForceMatcher::new().search(&src, pat)), vec![(0, 2)]);
    let mut qs = QuickSearchMatcher::new();
    qs.max_threads = 2;
    qs.size_per_thread = 2;
    assert_eq!(spans(&qs.search(&src, pat)), vec![(0, 2)]);
    let mut tbm = TbmMatcher::new();
    tbm.max_threads = 2;
    tbm.size_per_thread = 2;
    assert_eq!(spans(&tbm.search(&src, pat)), vec![(0, 2)]);
    let mut fjs = FjsMatcher::new();
    fjs.max_threads = 2;
    fjs.size_per_thread = 2;
    assert_eq!(spans(&fjs.search(&src, pat)), vec![(0, 2)]);
}

#[test]
fn six_bytes_in_two_chunks() {
    let src = b"aaaaaa".to_vec();
    let pat = b"aa";
    let plain = vec![(0, 2), (2, 4), (4, 6)];
    assert_eq!(spans(&BruteForceMatcher::new().search(&src, pat)), plain);
    let mut qs = QuickSearchMatcher::new();
    qs.max_threads = 2;
    qs.size_per_thread = 3;
    assert_eq!(spans(&qs.search(&src, pat)), plain);
    let mut tbm = TbmMatcher::new();
    tbm.max_threads = 2;
    tbm.size_per_thread = 3;
    assert_eq!(spans(&tbm.search(&src, pat)), plain);
    let mut fjs = FjsMatcher::new();
    fjs.max_threads = 2;
    fjs.size_per_thread = 3;
    assert_eq!(spans(&fjs.search(&src, pat)), plain);
}

#[test]
fn matchers_agree_whatever_the_tunables() {
    let mut src = noise(600, 5);
    for b in src.iter_mut() {
        *b = b'a' + (*b % 2);
    }
    for pat in [&b"a"[..], b"aa", b"aaa", b"aba", b"abab", b"bbbbb", b"abaab", b"aaaaaaaaaaaa"] {
        let plain = spans(&BruteForceMatcher::new().search(&src, pat));
        for (threads, size) in [(1, 1), (2, 1), (3, 7), (4, 100), (7, 13), (12, 1), (5, 1000)] {
            let mut qs = QuickSearchMatcher::new();
            qs.max_threads = threads;
            qs.size_per_thread = size;
            assert_eq!(spans(&qs.search(&src, pat)), plain);
            let mut tbm = TbmMatcher::new();
            tbm.max_threads = threads;
            tbm.size_per_thread = size;
            assert_eq!(spans(&tbm.search(&src, pat)), plain);
            let mut fjs = FjsMatcher::new();
            fjs.max_threads = threads;
            fjs.size_per_thread = size;
            assert_eq!(spans(&fjs.search(&src, pat)), plain);
        }
    }
    // A source of one letter: every chunk but the first may have to be scanned again.
    let src = vec![b'a'; 100];
    for pat in [&b"aaa"[..], b"aaaaaaa", b"aa"] {
        let plain = spans(&BruteForceMatcher::new().search(&src, pat));
        let mut qs = QuickSearchMatcher::new();
        qs.max_threads = 9;
        qs.size_per_thread = 10;
        assert_eq!(spans(&qs.search(&src, pat)), plain);
        let mut tbm = TbmMatcher::new();
        tbm.max_threads = 9;
        tbm.size_per_thread = 10;
        assert_eq!(spans(&tbm.search(&src, pat)), plain);
    }
}

#[test]
fn chunk_count_follows_size_and_limit() {
    // Nine bytes in chunks of four are three chunks: [0, 3), [3, 6), [6, 9).
    let src = b"xaxxaxxax".to_vec();
    let mut qs = QuickSearchMatcher::new();
    qs.max_threads = 8;
    qs.size_per_thread = 4;
    assert_eq!(spans(&qs.search(&src, b"a")), vec![(1, 2), (4, 5), (7, 8)]);
    qs.max_threads = 2;
    assert_eq!(spans(&qs.search(&src, b"a")), vec![(1, 2), (4, 5), (7, 8)]);
}

#[test]
fn char_width_table() {
    assert_eq!(MatcherUtil::check_char_width(b"a", 0), 1);
    assert_eq!(MatcherUtil::check_char_width(&[0xc3, 0xa9], 0), 2);
    assert_eq!(MatcherUtil::check_char_width(&[0xe3, 0x81, 0x82], 0), 3);
    assert_eq!(MatcherUtil::check_char_width(&[0xf0, 0x9f, 0x98, 0x80], 0), 4);
    assert_eq!(MatcherUtil::check_char_width(&[0x8e, 0xa1], 0), 2);
    assert_eq!(MatcherUtil::check_char_width(&[0xa4, 0xa2], 0), 2);
    assert_eq!(MatcherUtil::check_char_width(&[0x82, 0x60], 0), 2);
    assert_eq!(MatcherUtil::check_char_width(&[0xe0, 0x41], 0), 2);
    assert_eq!(MatcherUtil::check_char_width(&[0x82, 0x7f], 0), 2);
    assert_eq!(MatcherUtil::check_char_width(&[0xf8, 0x88, 0x80, 0x80, 0x80], 0), 1);
    assert_eq!(MatcherUtil::check_char_width(&[0x80, 0x41], 0), 1);
    assert_eq!(MatcherUtil::check_char_width(&[0xff, 0xff], 0), 1);
    // Behind the end of the source the last byte is read again.
    assert_eq!(MatcherUtil::check_char_width(&[0xa4], 0), 2);
    assert_eq!(MatcherUtil::check_char_width(&[0xc3], 0), 2);
    assert_eq!(MatcherUtil::check_char_width(&[0x80], 0), 1);
}

#[test]
fn char_boundaries() {
    let src = "aあb".to_string().into_bytes();
    assert!(MatcherUtil::check_char_boundary(&src, 0));
    assert!(MatcherUtil::check_char_boundary(&src, 1));
    assert!(!MatcherUtil::check_char_boundary(&src, 2));
    assert!(!MatcherUtil::check_char_boundary(&src, 3));
    assert!(MatcherUtil::check_char_boundary(&src, 4));
    assert!(MatcherUtil::check_char_boundary(&src, 5));
    assert!(MatcherUtil::check_char_boundary(b"", 0));
}

#[test]
fn match_clone_keeps_the_groups() {
    let m = Match { beg: 1, end: 5, sub_match: vec![Match { beg: 2, end: 3, sub_match: Vec::new() }] };
    let c = m.clone();
    assert_eq!((c.beg, c.end), (1, 5));
    assert_eq!(spans(&c.sub_match), vec![(2, 3)]);
}

#[test]
fn regex_groups_become_sub_matches() {
    let src = b"key=value; other=thing".to_vec();
    let ret = RegexMatcher::new().search(&src, b"(\\w+)=(\\w+)");
    assert_eq!(spans(&ret), vec![(0, 9), (11, 22)]);
    assert_eq!(spans(&ret[0].sub_match), vec![(0, 3), (4, 9)]);
    assert_eq!(spans(&ret[1].sub_match), vec![(11, 16), (17, 22)]);
}

#[test]
fn regex_without_utf8_or_with_bad_pattern_finds_nothing() {
    assert!(RegexMatcher::new().search(&[0x61, 0xff, 0x61], b"a").is_empty());
    assert!(RegexMatcher::new().search(b"aaa", &[0xff]).is_empty());
    assert!(RegexMatcher::new().search(b"aaa", b"(a").is_empty());
}

#[test]
fn regex_empty_spans_are_no_matches() {
    let ret = RegexMatcher::new().search(b"baab", b"a*");
    assert_eq!(spans(&ret), vec![(1, 3)]);
}

#[test]
fn matches_of_keeps_what_fits() {
    let rows = vec![
        vec![Some((2, 4)), None, Some((2, 3)), Some((3, 3)), Some((1, 3))],
        vec![Some((3, 5))],
        vec![Some((4, 4))],
        vec![],
        vec![None],
        vec![Some((6, 9))],
        vec![Some((5, 8))],
    ];
    let ret = RegexMatcher::matches_of(&rows, b"abcdefgh");
    assert_eq!(spans(&ret), vec![(2, 4), (5, 8)]);
    assert_eq!(spans(&ret[0].sub_match), vec![(2, 3)]);
    assert!(ret[1].sub_match.is_empty());
    // A span that begins inside a character gives no match.
    let src = "aあb".to_string().into_bytes();
    let rows = vec![vec![Some((0, 1))], vec![Some((2, 4))], vec![Some((4, 5))]];
    assert_eq!(spans(&RegexMatcher::matches_of(&rows, &src)), vec![(0, 1), (4, 5)]);
}

#[test]
fn test_fjs_matcher() {
    let matcher = FjsMatcher::new();
    test_matcher(&matcher);
}

#[test]
fn fjs_on_chunks() {
    let mut matcher = FjsMatcher::new();
    matcher.max_threads = 3;
    matcher.size_per_thread = 4;
    test_on_chunks(&matcher);
}

#[test]
fn fjs_links() {
    // One more than the longest strong border of every prefix.
    assert_eq!(links_of(b"a"), vec![0, 1]);
    assert_eq!(links_of(b"aa"), vec![0, 0, 2]);
    assert_eq!(links_of(b"ab"), vec![0, 1, 1]);
    assert_eq!(links_of(b"abab"), vec![0, 1, 0, 1, 3]);
    assert_eq!(links_of(b"abcabd"), vec![0, 1, 1, 0, 1, 3, 1]);
    assert_eq!(links_of(b"aabaab"), vec![0, 0, 2, 0, 0, 2, 4]);
}

#[test]
fn fjs_agrees_with_brute_force() {
    let mut src = noise(4000, 3);
    for b in src.iter_mut() {
        *b = b'a' + (*b % 2);
    }
    for pat in [&b"a"[..], b"ab", b"aba", b"abab", b"aabaab", b"bbbb", b"abaababaab", b"ba"] {
        let plain = spans(&BruteForceMatcher::new().search(&src, pat));
        assert!(!plain.is_empty());
        let mut fjs = FjsMatcher::new();
        fjs.max_threads = 1;
        assert_eq!(spans(&fjs.search(&src, pat)), plain);
        let mut qs = QuickSearchMatcher::new();
        qs.max_threads = 6;
        qs.size_per_thread = 77;
        fjs.max_threads = 6;
        fjs.size_per_thread = 77;
        assert_eq!(spans(&fjs.search(&src, pat)), plain);
        assert_eq!(spans(&qs.search(&src, pat)), plain);
    }
}

#[test]
fn fjs_goes_on_behind_an_occurrence_off_a_boundary() {
    // The first occurrence of the two bytes begins inside a character, the
    // second one, which overlaps it, begins one.
    let src = vec![0xe3, 0x81, 0x81, 0x81, 0x20];
    let pat = [0x81, 0x81];
    let plain = spans(&BruteForceMatcher::new().search(&src, &pat));
    assert_eq!(spans(&FjsMatcher::new().search(&src, &pat)), plain);
    assert_eq!(spans(&QuickSearchMatcher::new().search(&src, &pat)), plain);
    assert_eq!(spans(&TbmMatcher::new().search(&src, &pat)), plain);
    let src = "xあああ".to_string().into_bytes();
    let pat = [0x81, 0x82, 0xe3];
    let plain = spans(&BruteForceMatcher::new().search(&src, &pat));
    assert!(plain.is_empty());
    assert_eq!(spans(&FjsMatcher::new().search(&src, &pat)), plain);
}

#[test]
fn fjs_finds_the_needle_across_a_chunk_edge() {
    let src = big_with_needle();
    let mut matcher = FjsMatcher::new();
    matcher.size_per_thread = 1024 * 1024;
    matcher.max_threads = 4;
    assert_eq!(spans(&matcher.search(&src, b"needle")), vec![(1048573, 1048579)]);
    assert!(FjsMatcher::new().search(b"abc", b"").is_empty());
    assert!(FjsMatcher::new().search(b"ab", b"abc").is_empty());
    assert_eq!(spans(&FjsMatcher::new().search(b"abc", b"abc")), vec![(0, 3)]);
}

#[test]
fn shift_tables() {
    let qs = qs_table(b"abcab");
    assert_eq!(qs[b'a' as usize], 2);
    assert_eq!(qs[b'b' as usize], 1);
    assert_eq!(qs[b'c' as usize], 3);
    assert_eq!(qs[b'x' as usize], 6);
    assert_eq!(qs[0], 6);
    let bm = bm_table(b"abcab");
    assert_eq!(bm[b'a' as usize], 1);
    assert_eq!(bm[b'b' as usize], 0);
    assert_eq!(bm[b'c' as usize], 2);
    assert_eq!(bm[b'x' as usize], 5);
    assert_eq!(md2_of(b"abcab"), 3);
    assert_eq!(md2_of(b"abc"), 3);
    assert_eq!(md2_of(b"aa"), 1);
    assert_eq!(md2_of(b"a"), 1);
    assert!(pattern_at(b"xabc", b"abc", 1));
    assert!(!pattern_at(b"xabc", b"abc", 0));
    assert!(pattern_at(b"xabc", b"", 4));
}

#[test]
fn a_chunk_reports_the_matches_that_begin_in_it() {
    let src = b"abcabcabcabc".to_vec();
    let pat = b"abc";
    let qs = qs_table(pat);
    assert_eq!(spans(&QuickSearchMatcher::search_sub(&src, pat, &qs, 0, 12)), vec![(0, 3), (3, 6), (6, 9), (9, 12)]);
    assert_eq!(spans(&QuickSearchMatcher::search_sub(&src, pat, &qs, 2, 7)), vec![(3, 6), (6, 9)]);
    assert_eq!(spans(&QuickSearchMatcher::search_sub(&src, pat, &qs, 4, 6)), vec![]);
    assert_eq!(spans(&QuickSearchMatcher::search_sub(&src, pat, &qs, 5, 5)), vec![]);
    let bm = bm_table(pat);
    let md2 = md2_of(pat);
    assert_eq!(spans(&TbmMatcher::search_sub(&src, pat, &bm, md2, 0, 12)), vec![(0, 3), (3, 6), (6, 9), (9, 12)]);
    assert_eq!(spans(&TbmMatcher::search_sub(&src, pat, &bm, md2, 2, 7)), vec![(3, 6), (6, 9)]);
    assert_eq!(spans(&TbmMatcher::search_sub(&src, pat, &bm, md2, 4, 6)), vec![]);
    assert_eq!(spans(&TbmMatcher::search_sub(&src, pat, &bm, md2, 10, 12)), vec![]);
    let links = links_of(pat);
    assert_eq!(spans(&FjsMatcher::search_sub(&src, pat, &links, &qs, 0, 12)), vec![(0, 3), (3, 6), (6, 9), (9, 12)]);
    assert_eq!(spans(&FjsMatcher::search_sub(&src, pat, &links, &qs, 2, 7)), vec![(3, 6), (6, 9)]);
    assert_eq!(spans(&FjsMatcher::search_sub(&src, pat, &links, &qs, 4, 6)), vec![]);
}
