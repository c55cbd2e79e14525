use amber::matcher::{Match, QuickSearchMatcher};
use amber::pipeline::{forward, report, PipelineInfo};
use amber::pipeline_finder::{EntryKind, PathInfo, PipelineFinder, Visit};
use amber::pipeline_matcher::{PathMatch, PipelineMatcher};
use amber::pipeline_queue::PipelineQueue;
use amber::pipeline_sorter::PipelineSorter;
use std::io::ErrorKind;
use std::time::Duration;

fn record(path: &str) -> PathMatch {
    PathMatch { path: path.to_string(), matches: Vec::new() }
}

fn numbers(sent: &[PipelineInfo<PathMatch>]) -> Vec<usize> {
    let mut ret = Vec::new();
    for m in sent {
        if let PipelineInfo::SeqDat(x, _) = m {
            ret.push(*x);
        }
    }
    ret
}

fn zero() -> Duration {
    Duration::new(0, 0)
}

#[test]
fn pipeline_sorter() {
    let mut sorter = PipelineSorter::new(1);
    let mut out = Vec::new();
    let mut done = false;
    for msg in vec![
        PipelineInfo::SeqBeg(0),
        PipelineInfo::SeqDat(2, record("./")),
        PipelineInfo::SeqDat(1, record("./")),
        PipelineInfo::SeqDat(0, record("./")),
        PipelineInfo::SeqEnd(3),
    ] {
        assert!(!done);
        let step = sorter.handle(0, msg, zero(), zero());
        out.extend(step.send);
        done = step.done;
    }
    assert!(done);
    let ret = numbers(&out);
    assert_eq!(ret[0], 0);
    assert_eq!(ret[1], 1);
    assert_eq!(ret[2], 2);
    assert_eq!(ret.len(), 3);
    assert!(matches!(out.first(), Some(PipelineInfo::SeqBeg(0))));
    assert!(matches!(out.last(), Some(PipelineInfo::SeqEnd(3))));
}

#[test]
fn sorter_joins_two_channels_in_order() {
    // Two inputs bring [2, 0] and [1, 3]; the sorter reads them in turn.
    let mut sorter = PipelineSorter::new(2);
    let first = vec![
        PipelineInfo::SeqBeg(0),
        PipelineInfo::SeqDat(2, record("c")),
        PipelineInfo::SeqDat(0, record("a")),
        PipelineInfo::SeqEnd(4),
    ];
    let second = vec![
        PipelineInfo::SeqBeg(0),
        PipelineInfo::SeqDat(1, record("b")),
        PipelineInfo::SeqDat(3, record("d")),
        PipelineInfo::SeqEnd(4),
    ];
    let mut out = Vec::new();
    let mut done = false;
    for (a, b) in first.into_iter().zip(second.into_iter()) {
        let step = sorter.handle(1, a, zero(), zero());
        out.extend(step.send);
        assert!(!step.done);
        let step = sorter.handle(1, b, zero(), zero());
        out.extend(step.send);
        done = step.done;
    }
    assert!(done);
    assert_eq!(numbers(&out), vec![0, 1, 2, 3]);
    let mut paths = Vec::new();
    let mut begs = 0;
    let mut ends = 0;
    let mut times = 0;
    for m in &out {
        match m {
            PipelineInfo::SeqDat(_, p) => paths.push(p.path.clone()),
            PipelineInfo::SeqBeg(x) => {
                assert_eq!(*x, 0);
                begs += 1;
            }
            PipelineInfo::SeqEnd(x) => {
                assert_eq!(*x, 4);
                ends += 1;
            }
            PipelineInfo::MsgTime(id, _, _) => {
                assert_eq!(*id, 1);
                times += 1;
            }
            _ => {}
        }
    }
    assert_eq!(paths, vec!["a", "b", "c", "d"]);
    assert_eq!((begs, ends, times), (1, 1, 1));
}

#[test]
fn sorter_in_through_mode_passes_records_as_they_come() {
    let mut sorter = PipelineSorter::new(1);
    sorter.through = true;
    let mut out = Vec::new();
    for msg in vec![
        PipelineInfo::SeqBeg(0),
        PipelineInfo::SeqDat(2, record("./")),
        PipelineInfo::SeqDat(0, record("./")),
        PipelineInfo::SeqDat(1, record("./")),
        PipelineInfo::SeqEnd(3),
    ] {
        out.extend(sorter.handle(0, msg, zero(), zero()).send);
    }
    assert_eq!(numbers(&out), vec![2, 0, 1]);
}

#[test]
fn sorter_starts_at_the_number_of_the_first_start() {
    let mut sorter = PipelineSorter::new(1);
    let mut out = Vec::new();
    for msg in vec![
        PipelineInfo::SeqBeg(5),
        PipelineInfo::SeqBeg(9),
        PipelineInfo::SeqDat(6, record("./")),
        PipelineInfo::SeqDat(7, record("./")),
        PipelineInfo::SeqDat(5, record("./")),
    ] {
        out.extend(sorter.handle(0, msg, zero(), zero()).send);
    }
    assert_eq!(numbers(&out), vec![5, 6, 7]);
    assert_eq!(out.len(), 4);
}

#[test]
fn sorter_holds_back_what_follows_a_gap() {
    let mut sorter = PipelineSorter::new(1);
    let mut out = Vec::new();
    for msg in vec![PipelineInfo::SeqBeg(0), PipelineInfo::SeqDat(0, record("a")), PipelineInfo::SeqDat(2, record("c"))] {
        out.extend(sorter.handle(0, msg, zero(), zero()).send);
    }
    assert_eq!(numbers(&out), vec![0]);
}

#[test]
fn sorter_forwards_messages_and_reports_its_own_at_the_end() {
    let mut sorter = PipelineSorter::new(1);
    sorter.infos.push("note".to_string());
    sorter.errors.push("fault".to_string());
    let step = sorter.handle(7, PipelineInfo::MsgInfo(3, "from the matcher".to_string()), zero(), zero());
    assert_eq!(step.send.len(), 1);
    assert!(matches!(&step.send[0], PipelineInfo::MsgInfo(3, text) if text == "from the matcher"));
    let step = sorter.handle(7, PipelineInfo::MsgErr(3, "bad".to_string()), zero(), zero());
    assert!(matches!(&step.send[0], PipelineInfo::MsgErr(3, text) if text == "bad"));
    let step = sorter.handle(7, PipelineInfo::MsgTime(3, Duration::new(1, 0), Duration::new(2, 0)), zero(), zero());
    assert!(matches!(&step.send[0], PipelineInfo::MsgTime(3, b, w) if *b == Duration::new(1, 0) && *w == Duration::new(2, 0)));
    let step = sorter.handle(7, PipelineInfo::SeqEnd(0), Duration::new(3, 0), Duration::new(4, 0));
    assert!(step.done);
    assert_eq!(step.send.len(), 4);
    assert!(matches!(&step.send[0], PipelineInfo::MsgInfo(7, text) if text == "note"));
    assert!(matches!(&step.send[1], PipelineInfo::MsgErr(7, text) if text == "fault"));
    assert!(matches!(&step.send[2], PipelineInfo::MsgTime(7, b, w) if *b == Duration::new(3, 0) && *w == Duration::new(4, 0)));
    assert!(matches!(&step.send[3], PipelineInfo::SeqEnd(0)));
}

#[test]
fn report_lists_notes_errors_and_times() {
    let infos = vec!["a".to_string(), "b".to_string()];
    let errors = vec!["c".to_string()];
    let out: Vec<PipelineInfo<PathMatch>> = report(4, &infos, &errors, Duration::new(1, 0), Duration::new(2, 0));
    assert_eq!(out.len(), 4);
    assert!(matches!(&out[0], PipelineInfo::MsgInfo(4, t) if t == "a"));
    assert!(matches!(&out[1], PipelineInfo::MsgInfo(4, t) if t == "b"));
    assert!(matches!(&out[2], PipelineInfo::MsgErr(4, t) if t == "c"));
    assert!(matches!(&out[3], PipelineInfo::MsgTime(4, _, _)));
}

#[test]
fn forward_passes_messages_only() {
    let out: Option<PipelineInfo<PathMatch>> = forward(PipelineInfo::<PathInfo>::SeqBeg(1));
    assert!(out.is_none());
    let out: Option<PipelineInfo<PathMatch>> = forward(PipelineInfo::<PathInfo>::SeqEnd(1));
    assert!(out.is_none());
    let out: Option<PipelineInfo<PathMatch>> =
        forward(PipelineInfo::SeqDat(1, PathInfo { path: "p".to_string() }));
    assert!(out.is_none());
    let out: Option<PipelineInfo<PathMatch>> = forward(PipelineInfo::<PathInfo>::MsgInfo(2, "i".to_string()));
    assert!(matches!(out, Some(PipelineInfo::MsgInfo(2, t)) if t == "i"));
}

#[test]
fn pipeline_matcher() {
    let qs = QuickSearchMatcher::new();
    let mut matcher = PipelineMatcher::new(qs, &"amber".to_string().into_bytes());
    let files: Vec<(&str, &[u8])> = vec![
        ("./src/ambs.rs", b"use amber::matcher;\n"),
        ("./src/ambr.rs", b"fn main() { amber(); amber() }\n"),
        ("./src/util.rs", b"pub fn exit() {}\n"),
    ];
    let mut out = Vec::new();
    let step = matcher.handle(0, PipelineInfo::SeqBeg(0), zero(), zero());
    out.extend(step.send);
    for (x, (path, content)) in files.iter().enumerate() {
        let step = matcher.handle(0, PipelineInfo::SeqDat(x, PathInfo { path: path.to_string() }), zero(), zero());
        assert!(step.send.is_empty());
        let (number, info) = step.search.unwrap();
        out.push(matcher.search_record(number, info, Ok(*content)));
    }
    let step = matcher.handle(0, PipelineInfo::SeqEnd(3), zero(), zero());
    assert!(step.done);
    out.extend(step.send);

    let mut ret = Vec::new();
    for m in out {
        if let PipelineInfo::SeqDat(x, r) = m {
            ret.push((x, r));
        }
    }
    assert_eq!(ret.len(), 3);
    for (x, r) in ret {
        if r.path == "./src/ambs.rs" {
            assert_eq!(x, 0);
            assert!(!r.matches.is_empty());
        }
        if r.path == "./src/ambr.rs" {
            assert_eq!(x, 1);
            assert_eq!(r.matches.len(), 2);
            assert_eq!((r.matches[0].beg, r.matches[0].end), (12, 17));
        }
        if r.path == "./src/util.rs" {
            assert_eq!(x, 2);
            assert!(r.matches.is_empty());
        }
    }
}

#[test]
fn matcher_stage_defaults() {
    let stage = PipelineMatcher::new(QuickSearchMatcher::new(), b"key");
    assert!(stage.skip_binary);
    assert!(!stage.print_skipped);
    assert_eq!(stage.binary_check_bytes, 256);
    assert_eq!(stage.mmap_bytes, 1024 * 1024);
    assert_eq!(stage.keyword, b"key".to_vec());
    assert!(stage.uses_mmap(1024 * 1024 + 1));
    assert!(!stage.uses_mmap(1024 * 1024));
}

#[test]
fn matcher_stage_skips_binary_files() {
    let mut stage = PipelineMatcher::new(QuickSearchMatcher::new(), b"key");
    let mut content = b"key key".to_vec();
    content.push(0x08);
    assert!(stage.is_binary(&content));
    let ret = stage.search_path(PathInfo { path: "bin".to_string() }, Ok(&content));
    assert!(ret.matches.is_empty());
    assert!(stage.infos.is_empty());
    stage.print_skipped = true;
    let ret = stage.search_path(PathInfo { path: "bin".to_string() }, Ok(&content));
    assert!(ret.matches.is_empty());
    assert_eq!(stage.infos, vec!["Skip (binary)    : \"bin\"".to_string()]);
    stage.skip_binary = false;
    let ret = stage.search_path(PathInfo { path: "bin".to_string() }, Ok(&content));
    assert_eq!(ret.matches.len(), 2);
    // Only the first bytes are looked at.
    stage.skip_binary = true;
    stage.binary_check_bytes = 7;
    assert!(!stage.is_binary(&content));
    assert!(!stage.is_binary(b"\t\n plain"));
    assert!(!stage.is_binary(b""));
}

#[test]
fn matcher_stage_keeps_errors_for_its_report() {
    let mut stage = PipelineMatcher::new(QuickSearchMatcher::new(), b"key");
    let ret = stage.search_path(PathInfo { path: "gone".to_string() }, Err(ErrorKind::NotFound));
    assert_eq!(ret.path, "gone");
    assert!(ret.matches.is_empty());
    assert_eq!(stage.errors, vec!["Error: file not found @ \"gone\"\n".to_string()]);
    let step = stage.handle(5, PipelineInfo::SeqEnd(1), zero(), zero());
    assert!(matches!(&step.send[0], PipelineInfo::MsgErr(5, t) if t == "Error: file not found @ \"gone\"\n"));
    assert!(matches!(&step.send[2], PipelineInfo::SeqEnd(1)));
}

#[test]
fn path_match_clone_is_equal() {
    let pm = PathMatch {
        path: "p".to_string(),
        matches: vec![Match { beg: 1, end: 2, sub_match: Vec::new() }],
    };
    let c = pm.clone();
    assert_eq!(c.path, "p");
    assert_eq!((c.matches[0].beg, c.matches[0].end), (1, 2));
}

fn finder_run(finder: &mut PipelineFinder, entries: &[(&str, EntryKind)], outputs: usize) -> Vec<(usize, usize, String)> {
    let mut ret = Vec::new();
    for (path, kind) in entries {
        if let Visit::Send(d) = finder.find_entry(path.to_string(), *kind, outputs) {
            if let PipelineInfo::SeqDat(x, info) = d.msg {
                ret.push((d.to, x, info.path));
            }
        }
    }
    ret
}

#[test]
fn pipeline_finder_default() {
    let mut finder = PipelineFinder::new();
    assert!(matches!(finder.find_entry("./.git".to_string(), EntryKind::Dir, 1), Visit::Skip));
    assert!(matches!(
        finder.find_entry("./src".to_string(), EntryKind::Dir, 1),
        Visit::Enter { is_symlink: false }
    ));
    let ret = finder_run(
        &mut finder,
        &[
            ("./Cargo.toml", EntryKind::File),
            ("./src/ambr.rs", EntryKind::File),
            ("./src/ambs.rs", EntryKind::File),
            ("./src/console.rs", EntryKind::File),
            ("./src/lib.rs", EntryKind::File),
            ("./src/matcher.rs", EntryKind::File),
            ("./src/util.rs", EntryKind::File),
        ],
        1,
    );
    assert!(ret.iter().any(|x| x.2 == "./Cargo.toml"));
    assert!(ret.iter().any(|x| x.2 == "./src/ambr.rs"));
    assert!(ret.iter().any(|x| x.2 == "./src/ambs.rs"));
    assert!(ret.iter().any(|x| x.2 == "./src/console.rs"));
    assert!(ret.iter().any(|x| x.2 == "./src/lib.rs"));
    assert!(ret.iter().any(|x| x.2 == "./src/matcher.rs"));
    assert!(ret.iter().any(|x| x.2 == "./src/util.rs"));
    assert!(!ret.iter().any(|x| x.2 == "./.git/config"));
}

#[test]
fn pipeline_finder_not_skip_vcs() {
    let mut finder = PipelineFinder::new();
    finder.skip_vcs = false;
    assert!(matches!(
        finder.find_entry("./.git".to_string(), EntryKind::Dir, 1),
        Visit::Enter { is_symlink: false }
    ));
    let ret = finder_run(
        &mut finder,
        &[("./.git/config", EntryKind::File), ("./Cargo.toml", EntryKind::File)],
        1,
    );
    assert!(ret.iter().any(|x| x.2 == "./Cargo.toml"));
    assert!(ret.iter().any(|x| x.2 == "./.git/config"));
}

#[test]
fn finder_gives_numbers_in_turn_and_channels_round_robin() {
    let mut finder = PipelineFinder::new();
    let step = finder.handle(0, PipelineInfo::SeqBeg(10), zero(), zero(), 3);
    assert_eq!(step.send.len(), 3);
    for (k, d) in step.send.iter().enumerate() {
        assert_eq!(d.to, k);
        assert!(matches!(d.msg, PipelineInfo::SeqBeg(10)));
    }
    let step = finder.handle(0, PipelineInfo::SeqBeg(20), zero(), zero(), 3);
    assert!(step.send.is_empty());
    let step = finder.handle(0, PipelineInfo::SeqDat(0, "./".to_string()), zero(), zero(), 3);
    assert_eq!(step.walk, Some("./".to_string()));
    assert!(step.send.is_empty());
    let ret = finder_run(
        &mut finder,
        &[
            ("a", EntryKind::File),
            ("b", EntryKind::File),
            ("c", EntryKind::File),
            ("d", EntryKind::File),
            ("e", EntryKind::Other),
        ],
        3,
    );
    assert_eq!(
        ret,
        vec![
            (0, 10, "a".to_string()),
            (1, 11, "b".to_string()),
            (2, 12, "c".to_string()),
            (0, 13, "d".to_string())
        ]
    );
    finder.infos.push("note".to_string());
    let step = finder.handle(4, PipelineInfo::SeqEnd(1), zero(), zero(), 3);
    assert!(step.done);
    assert_eq!(step.send.len(), 5);
    assert_eq!(step.send[0].to, 0);
    assert!(matches!(&step.send[0].msg, PipelineInfo::MsgInfo(4, t) if t == "note"));
    assert_eq!(step.send[1].to, 0);
    assert!(matches!(&step.send[1].msg, PipelineInfo::MsgTime(4, _, _)));
    for k in 0..3 {
        assert_eq!(step.send[2 + k].to, k);
        assert!(matches!(step.send[2 + k].msg, PipelineInfo::SeqEnd(14)));
    }
}

#[test]
fn finder_heeds_recursion_and_links() {
    let mut finder = PipelineFinder::new();
    assert!(matches!(finder.find_entry("d".to_string(), EntryKind::Symlink, 1), Visit::Enter { is_symlink: true }));
    finder.follow_symlink = false;
    assert!(matches!(finder.find_entry("d".to_string(), EntryKind::Symlink, 1), Visit::Skip));
    assert!(matches!(finder.find_entry("d".to_string(), EntryKind::Dir, 1), Visit::Enter { is_symlink: false }));
    finder.is_recursive = false;
    assert!(matches!(finder.find_entry("d".to_string(), EntryKind::Dir, 1), Visit::Skip));
    assert!(matches!(finder.find_entry("d".to_string(), EntryKind::Other, 1), Visit::Skip));
}

#[test]
fn finder_base_paths() {
    let mut finder = PipelineFinder::new();
    assert!(matches!(finder.find_path("f".to_string(), Ok((true, 0)), false, 2), Visit::Skip));
    assert!(matches!(finder.find_path("f".to_string(), Ok((true, 3)), false, 2), Visit::Send(_)));
    assert!(matches!(
        finder.find_path("d".to_string(), Ok((false, 0)), false, 2),
        Visit::Enter { is_symlink: false }
    ));
    assert!(matches!(
        finder.find_path("l".to_string(), Ok((false, 0)), true, 2),
        Visit::Enter { is_symlink: true }
    ));
    assert!(matches!(
        finder.find_path("gone".to_string(), Err("No such file".to_string()), true, 2),
        Visit::Skip
    ));
    assert!(finder.errors.is_empty());
    assert!(matches!(
        finder.find_path("gone".to_string(), Err("No such file".to_string()), false, 2),
        Visit::Skip
    ));
    assert_eq!(finder.errors, vec!["Error: No such file @ gone".to_string()]);
    finder.keep_error("bad entry", None);
    assert_eq!(finder.errors[1], "Error: bad entry");
    assert_eq!(finder.seq_no, 1);
    assert_eq!(finder.current_tx, 1);
}

#[test]
fn finder_notes_skipped_paths() {
    let mut finder = PipelineFinder::new();
    finder.print_skipped = true;
    assert!(!finder.check_path("./.hg", true));
    assert!(finder.check_path("./.hg", false));
    assert!(finder.check_path("./hg", true));
    assert_eq!(finder.infos, vec!["Skip (vcs file)  : \"./.hg\"".to_string()]);
    assert!(finder.push_gitignore("./", &vec!["*.o".to_string()]));
    assert!(!finder.check_path("./a.o", false));
    assert!(finder.check_path("./a.c", false));
    assert_eq!(finder.infos[1], "Skip (.gitignore): \"./a.o\"");
    finder.pop_gitignore(true);
    assert!(finder.check_path("./a.o", false));
    finder.pop_gitignore(true);
    finder.pop_gitignore(false);
    assert!(finder.ignore_git.is_empty());
}

#[test]
fn finder_asks_every_rule_set_on_the_stack() {
    let mut finder = PipelineFinder::new();
    assert!(finder.push_gitignore("./", &vec!["*.o".to_string()]));
    assert!(finder.push_gitignore("./sub", &vec!["*.tmp".to_string()]));
    assert!(!finder.check_path("./sub/a.o", false));
    assert!(!finder.check_path("./sub/a.tmp", false));
    assert!(finder.check_path("./sub/a.c", false));
    finder.skip_gitignore = false;
    assert!(finder.check_path("./sub/a.o", false));
    assert!(!finder.push_gitignore("./x", &vec!["*".to_string()]));
    assert_eq!(finder.ignore_git.len(), 2);
}

#[test]
fn finder_takes_up_a_gitignore_above_the_base() {
    let mut finder = PipelineFinder::new();
    assert!(finder.seeks_parent_ignore());
    assert!(finder.set_default_gitignore("./..", &vec!["target/".to_string()]));
    assert_eq!(finder.infos, vec!["Found .gitignore at the parent directory: \"./..\"\n".to_string()]);
    finder.find_parent_ignore = false;
    assert!(!finder.seeks_parent_ignore());
    finder.find_parent_ignore = true;
    finder.skip_gitignore = false;
    assert!(!finder.seeks_parent_ignore());
    assert!(!finder.set_default_gitignore("./..", &vec![]));
    assert_eq!(finder.infos.len(), 1);
}

#[test]
fn pipeline_queue() {
    let mut queue = PipelineQueue::new();
    let mut out = Vec::new();
    let mut done = false;
    for msg in vec![
        PipelineInfo::SeqBeg(0),
        PipelineInfo::SeqDat(2, record("./")),
        PipelineInfo::SeqDat(1, record("./")),
        PipelineInfo::SeqDat(0, record("./")),
        PipelineInfo::SeqEnd(3),
    ] {
        assert!(!done);
        let step = queue.handle(0, msg, Duration::new(1, 0), Duration::new(2, 0));
        out.extend(step.send);
        done = step.done;
    }
    assert!(done);
    let ret = numbers(&out);
    assert_eq!(ret[0], 0);
    assert_eq!(ret[1], 1);
    assert_eq!(ret[2], 2);
    let mut time_bsy = Duration::new(0, 0);
    let mut time_all = Duration::new(0, 0);
    for m in &out {
        if let PipelineInfo::MsgTime(_, t0, t1) = m {
            time_bsy = *t0;
            time_all = *t1;
        }
    }
    assert!(time_bsy != Duration::new(0, 0));
    assert!(time_all != Duration::new(0, 0));
    assert!(time_bsy < time_all);
}

#[test]
fn queue_waits_for_the_end_that_is_due() {
    let mut queue = PipelineQueue::new();
    queue.infos.push("old".to_string());
    let step = queue.handle(0, PipelineInfo::SeqBeg(4), zero(), zero());
    assert!(matches!(step.send[..], [PipelineInfo::SeqBeg(4)]));
    assert!(queue.infos.is_empty());
    let step = queue.handle(0, PipelineInfo::SeqEnd(5), zero(), zero());
    assert!(!step.done);
    assert!(step.send.is_empty());
    let step = queue.handle(0, PipelineInfo::SeqDat(4, record("a")), zero(), zero());
    assert_eq!(numbers(&step.send), vec![4]);
    let step = queue.handle(0, PipelineInfo::SeqEnd(5), zero(), zero());
    assert!(step.done);
    assert!(matches!(step.send[..], [PipelineInfo::MsgTime(0, _, _), PipelineInfo::SeqEnd(5)]));
}

#[test]
fn gitignore_scenario() {
    // ./ignored/x.txt, ./keep/x.txt and ./.gitignore with the line "ignored/".
    let mut finder = PipelineFinder::new();
    assert!(finder.push_gitignore("./", &vec!["ignored/".to_string()]));
    assert!(matches!(finder.find_entry("./ignored".to_string(), EntryKind::Dir, 1), Visit::Skip));
    assert!(matches!(finder.find_entry("./keep".to_string(), EntryKind::Dir, 1), Visit::Enter { is_symlink: false }));
    let found = finder_run(&mut finder, &[("./.gitignore", EntryKind::File), ("./keep/x.txt", EntryKind::File)], 1);
    assert_eq!(found.len(), 2);
    let mut stage = PipelineMatcher::new(QuickSearchMatcher::new(), b"x");
    let mut hits = Vec::new();
    for (_, x, path) in found {
        let content: &[u8] = if path == "./.gitignore" { b"ignored/\n" } else { b"x" };
        if let PipelineInfo::SeqDat(n, pm) = stage.search_record(x, PathInfo { path }, Ok(content)) {
            assert_eq!(n, x);
            if !pm.matches.is_empty() {
                hits.push((pm.path, pm.matches.len()));
            }
        }
    }
    assert_eq!(hits, vec![("./keep/x.txt".to_string(), 1)]);
}

#[test]
fn sorter_runs_up_to_the_largest_number() {
    let mut sorter = PipelineSorter::new(1);
    let mut out = Vec::new();
    for msg in vec![
        PipelineInfo::SeqBeg(usize::MAX - 2),
        PipelineInfo::SeqDat(usize::MAX, record("c")),
        PipelineInfo::MsgInfo(3, "in between".to_string()),
        PipelineInfo::SeqDat(usize::MAX - 2, record("a")),
        PipelineInfo::SeqDat(usize::MAX - 1, record("b")),
        PipelineInfo::SeqEnd(usize::MAX),
    ] {
        out.extend(sorter.handle(0, msg, zero(), zero()).send);
    }
    assert_eq!(numbers(&out), vec![usize::MAX - 2, usize::MAX - 1, usize::MAX]);
    assert_eq!(sorter.seq_no, usize::MAX);
    assert!(sorter.map.is_empty());
}

#[test]
fn sorter_goes_on_behind_a_closed_input() {
    // Two inputs; the second is closed when it has brought its end, the first
    // still holds a record and its end.
    let mut sorter = PipelineSorter::new(2);
    let mut out = Vec::new();
    for msg in vec![
        PipelineInfo::SeqBeg(0),
        PipelineInfo::SeqBeg(0),
        PipelineInfo::SeqDat(0, record("a")),
        PipelineInfo::SeqDat(1, record("b")),
        PipelineInfo::SeqDat(2, record("c")),
        PipelineInfo::SeqEnd(3),
    ] {
        let step = sorter.handle(1, msg, zero(), zero());
        assert!(!step.done);
        out.extend(step.send);
    }
    assert!(sorter.input_closed(1));
    let step = sorter.handle(1, PipelineInfo::SeqEnd(3), zero(), zero());
    assert!(step.done);
    out.extend(step.send);
    assert_eq!(numbers(&out), vec![0, 1, 2]);
    assert!(matches!(out.last(), Some(PipelineInfo::SeqEnd(3))));
    // Nothing is left to wait for when the last input is closed, or when all
    // ends were seen.
    assert!(!sorter.input_closed(1));
    let waiting = PipelineSorter::new(2);
    assert!(waiting.input_closed(1));
    assert!(!waiting.input_closed(0));
}

#[test]
fn queue_goes_on_behind_a_closed_input() {
    let queue = PipelineQueue::new();
    assert!(queue.input_closed(2));
    assert!(queue.input_closed(1));
    assert!(!queue.input_closed(0));
}
