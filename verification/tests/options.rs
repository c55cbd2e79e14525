use amber::util::{catch, decode_error, failure_text, watch_time};
use std::io::ErrorKind;

fn ambs_opt() -> amber::ambs::Opt {
    amber::ambs::Opt {
        keyword: "key".to_string(),
        key_from_file: false,
        paths: vec!["./".to_string()],
        max_threads: 4,
        size_per_thread: 1048576,
        bin_check_bytes: 256,
        mmap_bytes: 1048576,
        verbose: false,
        regex: false,
        column: false,
        row: false,
        binary: false,
        statistics: false,
        skipped: false,
        recursive: false,
        symlink: false,
        color: false,
        file: false,
        skip_vcs: false,
        skip_gitignore: false,
        fixed_order: false,
        parent_ignore: false,
        line_by_match: false,
        no_regex: false,
        no_column: false,
        no_row: false,
        no_binary: false,
        no_statistics: false,
        no_skipped: false,
        no_recursive: false,
        no_symlink: false,
        no_color: false,
        no_file: false,
        no_skip_vcs: false,
        no_skip_gitignore: false,
        no_fixed_order: false,
        no_parent_ignore: false,
        no_line_by_match: false,
        tbm: false,
        sse: false,
    }
}

fn ambr_opt() -> amber::ambr::Opt {
    amber::ambr::Opt {
        keyword: "key".to_string(),
        replacement: "rep".to_string(),
        key_from_file: false,
        rep_from_file: false,
        paths: vec![],
        max_threads: 16,
        size_per_thread: 1048576,
        bin_check_bytes: 256,
        mmap_bytes: 1048576,
        verbose: false,
        regex: false,
        column: false,
        row: false,
        binary: false,
        statistics: false,
        skipped: false,
        interactive: false,
        recursive: false,
        symlink: false,
        color: false,
        file: false,
        skip_vcs: false,
        skip_gitignore: false,
        fixed_order: false,
        parent_ignore: false,
        preserve_time: false,
        no_regex: false,
        no_column: false,
        no_row: false,
        no_binary: false,
        no_statistics: false,
        no_skipped: false,
        no_interactive: false,
        no_recursive: false,
        no_symlink: false,
        no_color: false,
        no_file: false,
        no_skip_vcs: false,
        no_skip_gitignore: false,
        no_fixed_order: false,
        no_parent_ignore: false,
        no_preserve_time: false,
        tbm: false,
        sse: false,
    }
}

#[test]
fn search_defaults() {
    let flags = amber::ambs::DefaultFlags::new();
    assert!(!flags.regex && !flags.column && !flags.row && !flags.binary && !flags.statistics && !flags.skipped);
    assert!(flags.recursive && flags.symlink && flags.color && flags.file);
    assert!(flags.skip_vcs && flags.skip_gitignore && flags.fixed_order && flags.parent_ignore);
    assert!(!flags.line_by_match);
    assert!(amber::ambs::flag_true());
    assert!(!amber::ambs::flag_false());
}

#[test]
fn search_flags_are_merged_with_the_defaults() {
    let flags = amber::ambs::DefaultFlags::new();
    let opt = flags.merge(ambs_opt());
    assert!(opt.recursive && opt.symlink && opt.color && opt.file);
    assert!(opt.skip_vcs && opt.skip_gitignore && opt.fixed_order && opt.parent_ignore);
    assert!(!opt.regex && !opt.column && !opt.row && !opt.binary && !opt.statistics && !opt.skipped);
    assert!(!opt.line_by_match);
    assert_eq!(opt.keyword, "key");
    assert_eq!(opt.paths, vec!["./".to_string()]);
    assert_eq!(opt.max_threads, 4);

    let mut given = ambs_opt();
    given.no_recursive = true;
    given.no_color = true;
    given.regex = true;
    given.no_regex = true;
    given.column = true;
    let opt = flags.merge(given);
    assert!(!opt.recursive);
    assert!(!opt.color);
    assert!(opt.regex);
    assert!(opt.column);
    assert!(opt.symlink);
    assert!(opt.no_recursive && opt.no_regex);

    let mut flags = amber::ambs::DefaultFlags::new();
    flags.regex = true;
    flags.recursive = false;
    let mut given = ambs_opt();
    given.no_regex = true;
    given.no_recursive = true;
    let opt = flags.merge(given);
    assert!(!opt.regex);
    assert!(!opt.recursive);
    let mut given = ambs_opt();
    given.recursive = true;
    let opt = flags.merge(given);
    assert!(opt.regex);
    assert!(opt.recursive);
}

#[test]
fn search_stages_follow_the_options() {
    let mut opt = amber::ambs::DefaultFlags::new().merge(ambs_opt());
    assert_eq!(opt.matcher_num(), 4);
    opt.max_threads = 32;
    assert_eq!(opt.matcher_num(), 8);
    opt.max_threads = 8;
    assert_eq!(opt.matcher_num(), 8);
    assert!(!opt.print_skipped());
    opt.verbose = true;
    assert!(opt.print_skipped());
    opt.symlink = false;
    opt.column = true;
    opt.line_by_match = true;
    let finder = opt.finder();
    assert_eq!(finder.ignore_vcs.vcs_dirs, vec![".svn", ".hg", ".git", ".bzr"]);
    assert!(finder.is_recursive && !finder.follow_symlink && finder.skip_vcs && finder.skip_gitignore);
    assert!(finder.print_skipped && finder.find_parent_ignore);
    let printer = opt.printer();
    assert!(printer.is_color && printer.print_file && printer.print_column && !printer.print_row);
    assert!(printer.print_line_by_match);
}

#[test]
fn base_paths_default_to_the_current_directory() {
    let mut opt = ambs_opt();
    assert_eq!(opt.base_paths(), vec!["./".to_string()]);
    opt.paths = vec![];
    assert_eq!(opt.base_paths(), vec!["./".to_string()]);
    opt.paths = vec!["a".to_string(), "b/c".to_string()];
    assert_eq!(opt.base_paths(), vec!["a".to_string(), "b/c".to_string()]);
    let mut opt = ambr_opt();
    assert_eq!(opt.base_paths(), vec!["./".to_string()]);
    opt.paths = vec!["x".to_string()];
    assert_eq!(opt.base_paths(), vec!["x".to_string()]);
}

#[test]
fn replace_flags_and_stages() {
    let flags = amber::ambr::DefaultFlags::new();
    assert!(flags.interactive && !flags.preserve_time && flags.recursive && !flags.regex);
    assert!(amber::ambr::flag_true());
    assert!(!amber::ambr::flag_false());
    let mut given = ambr_opt();
    given.no_interactive = true;
    given.preserve_time = true;
    given.row = true;
    let opt = flags.merge(given);
    assert!(!opt.interactive);
    assert!(opt.preserve_time);
    assert!(opt.row);
    assert!(opt.recursive);
    assert_eq!(opt.replacement, "rep");
    assert_eq!(opt.matcher_num(), 8);
    assert!(!opt.print_skipped());
    let replacer = opt.replacer(b"key", b"rep");
    assert!(!replacer.is_interactive && replacer.preserve_time && replacer.print_row && !replacer.print_column);
    assert!(replacer.is_color && replacer.print_file && !replacer.regex);
    assert_eq!(replacer.keyword, b"key".to_vec());
    assert_eq!(replacer.replacement, b"rep".to_vec());
    let finder = opt.finder();
    assert!(finder.is_recursive && finder.follow_symlink);
}

#[test]
fn error_words() {
    assert_eq!(decode_error(ErrorKind::NotFound), "file not found");
    assert_eq!(decode_error(ErrorKind::PermissionDenied), "permission denied");
    assert_eq!(decode_error(ErrorKind::ConnectionRefused), "connection refused");
    assert_eq!(decode_error(ErrorKind::ConnectionReset), "connection reset");
    assert_eq!(decode_error(ErrorKind::ConnectionAborted), "connection aborted");
    assert_eq!(decode_error(ErrorKind::NotConnected), "not connected");
    assert_eq!(decode_error(ErrorKind::AddrInUse), "address is in use");
    assert_eq!(decode_error(ErrorKind::AddrNotAvailable), "address is not available");
    assert_eq!(decode_error(ErrorKind::BrokenPipe), "broken pipe");
    assert_eq!(decode_error(ErrorKind::AlreadyExists), "file is already exists");
    assert_eq!(decode_error(ErrorKind::WouldBlock), "world be blocked");
    assert_eq!(decode_error(ErrorKind::InvalidInput), "invalid parameter");
    assert_eq!(decode_error(ErrorKind::InvalidData), "invalid data");
    assert_eq!(decode_error(ErrorKind::TimedOut), "operation timeout");
    assert_eq!(decode_error(ErrorKind::WriteZero), "write size is zero");
    assert_eq!(decode_error(ErrorKind::Interrupted), "interrupted");
    assert_eq!(decode_error(ErrorKind::Other), "unknown");
    assert_eq!(decode_error(ErrorKind::UnexpectedEof), "unknown");
}

#[test]
fn failure_lines() {
    assert_eq!(failure_text(ErrorKind::NotFound, "a b.txt"), "Error: file not found @ \"a b.txt\"\n");
    assert_eq!(failure_text(ErrorKind::Other, "q\"uote"), "Error: unknown @ \"q\\\"uote\"\n");
}

#[test]
fn catch_and_watch_time() {
    let ok: Result<u8, String> = catch(|| Ok(3));
    assert_eq!(ok, Ok(3));
    let err: Result<u8, String> = catch(|| Err("no".to_string()));
    assert_eq!(err, Err("no".to_string()));
    let spent = watch_time(|| {
        let mut sum: u64 = 0;
        for i in 0..1000u64 {
            sum = sum.wrapping_add(i);
        }
        assert_eq!(sum, 499500);
    });
    assert!(spent.as_secs() < 60);
}
