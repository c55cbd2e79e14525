use amber::bin::{Args, ArgsAmbr, ArgsAmbs, Config};
use amber::path_finder::{Found, PathFinder, SimplePathFinder};
use amber::pipeline_filter::{PipelineFilter, SimplePipelineFilter};
use amber::pipeline_finder::EntryKind;
use amber::util::PipelineInfo;
use std::time::Duration;

#[test]
fn simple_path_finder_decisions() {
    let mut finder = SimplePathFinder::new();
    assert!(finder.is_recursive && finder.follow_symlink && finder.skip_vcs);
    assert_eq!(finder.find_entry(EntryKind::File, 3), Found::Take);
    assert_eq!(finder.find_entry(EntryKind::File, 0), Found::Pass);
    assert_eq!(finder.find_entry(EntryKind::Dir, 0), Found::Enter);
    assert_eq!(finder.find_entry(EntryKind::Symlink, 0), Found::Enter);
    assert_eq!(finder.find_entry(EntryKind::Other, 9), Found::Pass);
    finder.follow_symlink = false;
    assert_eq!(finder.find_entry(EntryKind::Symlink, 0), Found::Pass);
    assert_eq!(finder.find_entry(EntryKind::Dir, 0), Found::Enter);
    finder.is_recursive = false;
    assert_eq!(finder.find_entry(EntryKind::Dir, 0), Found::Pass);

    assert_eq!(finder.find_path("Cargo.toml", Ok((true, 10))), Found::Take);
    assert_eq!(finder.find_path("empty", Ok((true, 0))), Found::Pass);
    assert_eq!(finder.find_path("./", Ok((false, 0))), Found::Enter);
    assert!(finder.errors.is_empty());
    assert_eq!(finder.find_path("aa", Err("No such file or directory".to_string())), Found::Pass);
    assert_eq!(finder.errors, vec!["No such file or directory @ aa".to_string()]);
    finder.keep_error("bad entry".to_string());
    assert_eq!(finder.errors.len(), 2);
    assert_eq!(finder.find_path("./", Ok((false, 0))), Found::Enter);
    assert!(finder.errors.is_empty());
}

#[test]
fn simple_path_finder_joins_what_was_found() {
    let found = vec![
        vec!["./Cargo.toml".to_string(), "./src/lib.rs".to_string()],
        vec![],
        vec!["Cargo.toml".to_string()],
    ];
    assert_eq!(
        SimplePathFinder::find(found),
        vec!["./Cargo.toml".to_string(), "./src/lib.rs".to_string(), "Cargo.toml".to_string()]
    );
    assert!(SimplePathFinder::find(vec![]).is_empty());
}

#[test]
fn test_simple_pipeline_filter() {
    let mut filter = SimplePipelineFilter::new();
    let mut out = Vec::new();
    for msg in vec![
        PipelineInfo::Beg(0),
        PipelineInfo::Dat("./src/pipeline_filter.rs".to_string()),
        PipelineInfo::Dat("./.git/aaaa".to_string()),
        PipelineInfo::Dat("./.hg/aaaa".to_string()),
        PipelineInfo::Dat("./.svn/aaaa".to_string()),
        PipelineInfo::Dat("./.bzr/aaaa".to_string()),
        PipelineInfo::End(0),
    ] {
        out.extend(filter.filter(msg, Duration::new(1, 0), Duration::new(2, 0)).send);
    }
    let mut ret = Vec::new();
    let mut time_bsy = Duration::new(0, 0);
    let mut time_all = Duration::new(0, 0);
    let mut ended = false;
    for m in out {
        match m {
            PipelineInfo::Dat(x) => ret.push(x),
            PipelineInfo::Time(t0, t1) => {
                time_bsy = t0;
                time_all = t1;
            }
            PipelineInfo::End(_) => ended = true,
            _ => (),
        }
    }
    assert!(ended);
    assert!(ret.contains(&"./src/pipeline_filter.rs".to_string()));
    assert!(!ret.contains(&"./.git/aaaa".to_string()));
    assert!(!ret.contains(&"./.hg/aaaa".to_string()));
    assert!(!ret.contains(&"./.svn/aaaa".to_string()));
    assert!(!ret.contains(&"./.bzr/aaaa".to_string()));

    assert!(time_bsy != Duration::new(0, 0));
    assert!(time_all != Duration::new(0, 0));
    assert!(time_bsy < time_all);
}

#[test]
fn filter_looks_at_the_directories_above_a_file() {
    assert!(SimplePipelineFilter::lies_under_vcs("./.git/objects/ab/cdef"));
    assert!(SimplePipelineFilter::lies_under_vcs("a/.svn/b"));
    assert!(!SimplePipelineFilter::lies_under_vcs("./.git"));
    assert!(!SimplePipelineFilter::lies_under_vcs("./.gitignore/x"));
    assert!(!SimplePipelineFilter::lies_under_vcs("./src/.gitx/x"));
    assert!(!SimplePipelineFilter::lies_under_vcs(""));
    assert!(!SimplePipelineFilter::lies_under_vcs("/"));
    let mut filter = SimplePipelineFilter::new();
    filter.print_skipped = true;
    assert_eq!(filter.filter_path("./.hg/store".to_string()), None);
    assert_eq!(filter.infos, vec!["Skipped: \"./.hg/store\" ( vcs file )\n".to_string()]);
    assert_eq!(filter.filter_path("./hg/store".to_string()), Some("./hg/store".to_string()));
    filter.skip_vcs = false;
    assert_eq!(filter.filter_path("./.hg/store".to_string()), Some("./.hg/store".to_string()));
    assert_eq!(filter.infos.len(), 1);
    let step = filter.filter(PipelineInfo::End(7), Duration::new(0, 0), Duration::new(0, 0));
    assert!(step.done);
    assert_eq!(step.send.len(), 3);
    assert!(matches!(&step.send[0], PipelineInfo::Info(t) if t.starts_with("Skipped: ")));
    assert!(matches!(step.send[2], PipelineInfo::End(7)));
    let step = filter.filter(PipelineInfo::Beg(1), Duration::new(0, 0), Duration::new(0, 0));
    assert!(!step.done);
    assert!(filter.infos.is_empty());
    let step = filter.filter(PipelineInfo::Error("e".to_string()), Duration::new(0, 0), Duration::new(0, 0));
    assert!(matches!(&step.send[..], [PipelineInfo::Error(t)] if t == "e"));
}

fn ambr_args() -> ArgsAmbr {
    ArgsAmbr {
        arg_keyword: "key".to_string(),
        arg_replacement: "rep".to_string(),
        arg_paths: vec!["a".to_string(), "b".to_string()],
        flag_key_file: Some("kf".to_string()),
        flag_rep_file: Some("rf".to_string()),
        flag_max_threads: Some(3),
        flag_size_per_thread: None,
        flag_bin_check_bytes: Some(64),
        flag_regex: true,
        flag_column: false,
        flag_binary: true,
        flag_statistics: false,
        flag_skipped: true,
        flag_no_interactive: true,
        flag_no_recursive: false,
        flag_no_symlink: true,
        flag_no_color: false,
        flag_no_file: true,
        flag_no_skip_vcs: false,
    }
}

#[test]
fn args_of_both_tools() {
    let all = Args::from_ambr(&ambr_args());
    assert_eq!(all.arg_keyword, "key");
    assert_eq!(all.arg_replacement, "rep");
    assert_eq!(all.arg_paths, vec!["a".to_string(), "b".to_string()]);
    assert_eq!(all.flag_key_file, Some("kf".to_string()));
    assert_eq!(all.flag_rep_file, Some("rf".to_string()));
    assert_eq!(all.flag_max_threads, Some(3));
    assert_eq!(all.flag_size_per_thread, None);
    assert_eq!(all.flag_bin_check_bytes, Some(64));
    assert!(all.flag_regex && all.flag_binary && all.flag_skipped && all.flag_no_interactive);
    assert!(all.flag_no_symlink && all.flag_no_file);
    assert!(!all.flag_column && !all.flag_statistics && !all.flag_no_recursive && !all.flag_no_color);
    assert!(!all.flag_no_skip_vcs);

    let search = ArgsAmbs {
        arg_keyword: "key".to_string(),
        arg_paths: vec![],
        flag_key_file: None,
        flag_max_threads: None,
        flag_size_per_thread: Some(5),
        flag_bin_check_bytes: None,
        flag_regex: false,
        flag_column: true,
        flag_binary: false,
        flag_statistics: true,
        flag_skipped: false,
        flag_no_interactive: false,
        flag_no_recursive: true,
        flag_no_symlink: false,
        flag_no_color: true,
        flag_no_file: false,
        flag_no_skip_vcs: true,
    };
    let all = Args::from_ambs(&search);
    assert_eq!(all.arg_keyword, "key");
    assert_eq!(all.arg_replacement, "");
    assert!(all.arg_paths.is_empty());
    assert_eq!(all.flag_key_file, None);
    assert_eq!(all.flag_rep_file, None);
    assert_eq!(all.flag_size_per_thread, Some(5));
    assert!(all.flag_column && all.flag_statistics && all.flag_no_recursive && all.flag_no_color);
    assert!(all.flag_no_skip_vcs && !all.flag_regex);

    let conf = Config::from_args(&all, 6);
    assert_eq!(
        conf,
        Config {
            find_recursive: false,
            find_follow_symlink: true,
            filter_vcs: false,
            filter_binary: true,
            filter_show: false,
            filter_bin_check_bytes: 1024,
            match_regex: false,
            match_max_threads: 6,
            match_size_per_thread: 5,
            replace_interactive: true,
            display_color: false,
            display_file: true,
            display_column: true,
            display_statistics: true,
        }
    );
    let conf = Config::from_args(&Args::from_ambr(&ambr_args()), 6);
    assert_eq!(conf.match_max_threads, 3);
    assert_eq!(conf.match_size_per_thread, 1024 * 1024);
    assert_eq!(conf.filter_bin_check_bytes, 64);
    assert!(!conf.replace_interactive && !conf.filter_binary && conf.filter_show && conf.match_regex);
}

/// A tree on plain values: a path with its kind, its length and what lies in it.
struct Node {
    path: &'static str,
    kind: EntryKind,
    len: u64,
    entries: Vec<Node>,
}

fn file(path: &'static str, len: u64) -> Node {
    Node { path, kind: EntryKind::File, len, entries: vec![] }
}

fn dir(path: &'static str, entries: Vec<Node>) -> Node {
    Node { path, kind: EntryKind::Dir, len: 0, entries }
}

fn lookup<'a>(tree: &'a [Node], path: &str) -> Option<&'a Node> {
    for node in tree {
        if node.path == path {
            return Some(node);
        }
        if let Some(found) = lookup(&node.entries, path) {
            return Some(found);
        }
    }
    None
}

fn find_path(finder: &mut SimplePathFinder, tree: &[Node], base: &str, errors: &mut Vec<String>) -> Vec<String> {
    let node = lookup(tree, base);
    let meta = match node {
        Some(node) => Ok((node.kind == EntryKind::File, node.len)),
        None => Err("No such file or directory".to_string()),
    };
    let found = finder.find_path(base, meta);
    errors.append(&mut finder.errors);
    let mut ret = Vec::new();
    match found {
        Found::Take => ret.push(base.to_string()),
        Found::Pass => {}
        Found::Enter => {
            for entry in &node.unwrap().entries {
                match finder.find_entry(entry.kind, entry.len) {
                    Found::Take => ret.push(entry.path.to_string()),
                    Found::Enter => ret.extend(find_path(finder, tree, entry.path, errors)),
                    Found::Pass => {}
                }
            }
        }
    }
    ret
}

fn find(finder: &mut SimplePathFinder, tree: &[Node], base: Vec<&str>) -> Vec<String> {
    let mut errors = Vec::new();
    let mut found = Vec::new();
    for b in base {
        found.push(find_path(finder, tree, b, &mut errors));
    }
    for e in errors {
        finder.keep_error(e);
    }
    SimplePathFinder::find(found)
}

#[test]
fn test_simple_path_finder() {
    let tree = vec![
        dir(
            "./",
            vec![
                file("./Cargo.toml", 700),
                file("./empty", 0),
                dir(
                    "./src",
                    vec![
                        file("./src/ambr.rs", 10),
                        file("./src/ambs.rs", 10),
                        file("./src/bin.rs", 10),
                        file("./src/console.rs", 10),
                        file("./src/lib.rs", 10),
                        file("./src/matcher.rs", 10),
                        file("./src/path_finder.rs", 10),
                        file("./src/util.rs", 10),
                    ],
                ),
            ],
        ),
        file("Cargo.toml", 700),
    ];
    let mut finder = SimplePathFinder::new();

    let path = find(&mut finder, &tree, vec!["./"]);
    assert!(path.contains(&"./Cargo.toml".to_string()));
    assert!(path.contains(&"./src/ambr.rs".to_string()));
    assert!(path.contains(&"./src/ambs.rs".to_string()));
    assert!(path.contains(&"./src/bin.rs".to_string()));
    assert!(path.contains(&"./src/console.rs".to_string()));
    assert!(path.contains(&"./src/lib.rs".to_string()));
    assert!(path.contains(&"./src/matcher.rs".to_string()));
    assert!(path.contains(&"./src/path_finder.rs".to_string()));
    assert!(path.contains(&"./src/util.rs".to_string()));
    assert!(!path.contains(&"./empty".to_string()));
    assert!(finder.errors.is_empty());

    let path = find(&mut finder, &tree, vec!["aa"]);
    assert!(path.is_empty());
    assert_eq!(finder.errors, vec!["No such file or directory @ aa".to_string()]);

    let path = find(&mut finder, &tree, vec!["Cargo.toml"]);
    assert!(path.contains(&"Cargo.toml".to_string()));

    finder.is_recursive = false;
    let path = find(&mut finder, &tree, vec!["./"]);
    assert_eq!(path, vec!["./Cargo.toml".to_string()]);
}
