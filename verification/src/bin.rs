//! The arguments of the tools as one program that goes by the name it is
//! called with, and the settings that follow from them.

use vstd::prelude::*;

verus! {

/// The arguments of either tool.
#[derive(Debug)]
pub struct Args {
    pub arg_keyword: String,
    pub arg_replacement: String,
    pub arg_paths: Vec<String>,
    pub flag_key_file: Option<String>,
    pub flag_rep_file: Option<String>,
    pub flag_max_threads: Option<usize>,
    pub flag_size_per_thread: Option<usize>,
    pub flag_bin_check_bytes: Option<usize>,
    pub flag_regex: bool,
    pub flag_column: bool,
    pub flag_binary: bool,
    pub flag_statistics: bool,
    pub flag_skipped: bool,
    pub flag_no_interactive: bool,
    pub flag_no_recursive: bool,
    pub flag_no_symlink: bool,
    pub flag_no_color: bool,
    pub flag_no_file: bool,
    pub flag_no_skip_vcs: bool,
}

/// The arguments of the search tool.
#[derive(Debug)]
pub struct ArgsAmbs {
    pub arg_keyword: String,
    pub arg_paths: Vec<String>,
    pub flag_key_file: Option<String>,
    pub flag_max_threads: Option<usize>,
    pub flag_size_per_thread: Option<usize>,
    pub flag_bin_check_bytes: Option<usize>,
    pub flag_regex: bool,
    pub flag_column: bool,
    pub flag_binary: bool,
    pub flag_statistics: bool,
    pub flag_skipped: bool,
    pub flag_no_interactive: bool,
    pub flag_no_recursive: bool,
    pub flag_no_symlink: bool,
    pub flag_no_color: bool,
    pub flag_no_file: bool,
    pub flag_no_skip_vcs: bool,
}

/// The arguments of the replace tool.
#[derive(Debug)]
pub struct ArgsAmbr {
    pub arg_keyword: String,
    pub arg_replacement: String,
    pub arg_paths: Vec<String>,
    pub flag_key_file: Option<String>,
    pub flag_rep_file: Option<String>,
    pub flag_max_threads: Option<usize>,
    pub flag_size_per_thread: Option<usize>,
    pub flag_bin_check_bytes: Option<usize>,
    pub flag_regex: bool,
    pub flag_column: bool,
    pub flag_binary: bool,
    pub flag_statistics: bool,
    pub flag_skipped: bool,
    pub flag_no_interactive: bool,
    pub flag_no_recursive: bool,
    pub flag_no_symlink: bool,
    pub flag_no_color: bool,
    pub flag_no_file: bool,
    pub flag_no_skip_vcs: bool,
}

/// What the program is run for.
#[derive(Debug, Clone, Copy, PartialEq, Eq, Structural)]
pub enum ProgMode {
    Search,
    Replace,
}

/// The views of `texts`, one for one.
pub open spec fn texts_of(texts: Seq<String>) -> Seq<Seq<char>> {
    texts.map_values(|t: String| t@)
}

/// The view of an optional text.
pub open spec fn text_of(text: Option<String>) -> Option<Seq<char>> {
    match text {
        Some(t) => Some(t@),
        None => None,
    }
}

/// Copies a list of texts.
fn copy_texts(texts: &Vec<String>) -> (copy: Vec<String>)
    ensures
        texts_of(copy@) == texts_of(texts@),
{
    let mut copy: Vec<String> = Vec::new();
    let mut i: usize = 0;
    while i < texts.len()
        invariant
            i <= texts@.len(),
            copy@ == texts@.take(i as int),
        decreases texts@.len() - i,
    {
        copy.push(texts[i].clone());
        assert(copy@ =~= texts@.take(i + 1));
        i += 1;
    }
    assert(texts@.take(i as int) =~= texts@);
    copy
}

/// Copies an optional text.
fn copy_text(text: &Option<String>) -> (copy: Option<String>)
    ensures
        text_of(copy) == text_of(*text),
{
    match text {
        Some(t) => Some(t.clone()),
        None => None,
    }
}

impl Args {
    /// The arguments of a search: no replacement, and no file for one.
    pub fn from_ambs(args: &ArgsAmbs) -> (all: Self)
        ensures
            all.arg_keyword@ == args.arg_keyword@,
            all.arg_replacement@ == Seq::<char>::empty(),
            texts_of(all.arg_paths@) == texts_of(args.arg_paths@),
            text_of(all.flag_key_file) == text_of(args.flag_key_file),
            all.flag_rep_file is None,
            all.flag_max_threads == args.flag_max_threads,
            all.flag_size_per_thread == args.flag_size_per_thread,
            all.flag_bin_check_bytes == args.flag_bin_check_bytes,
            all.flag_regex == args.flag_regex,
            all.flag_column == args.flag_column,
            all.flag_binary == args.flag_binary,
            all.flag_statistics == args.flag_statistics,
            all.flag_skipped == args.flag_skipped,
            all.flag_no_interactive == args.flag_no_interactive,
            all.flag_no_recursive == args.flag_no_recursive,
            all.flag_no_symlink == args.flag_no_symlink,
            all.flag_no_color == args.flag_no_color,
            all.flag_no_file == args.flag_no_file,
            all.flag_no_skip_vcs == args.flag_no_skip_vcs,
    {
        Args {
            arg_keyword: args.arg_keyword.clone(),
            arg_replacement: String::new(),
            arg_paths: copy_texts(&args.arg_paths),
            flag_key_file: copy_text(&args.flag_key_file),
            flag_rep_file: None,
            flag_max_threads: args.flag_max_threads,
            flag_size_per_thread: args.flag_size_per_thread,
            flag_bin_check_bytes: args.flag_bin_check_bytes,
            flag_regex: args.flag_regex,
            flag_column: args.flag_column,
            flag_binary: args.flag_binary,
            flag_statistics: args.flag_statistics,
            flag_skipped: args.flag_skipped,
            flag_no_interactive: args.flag_no_interactive,
            flag_no_recursive: args.flag_no_recursive,
            flag_no_symlink: args.flag_no_symlink,
            flag_no_color: args.flag_no_color,
            flag_no_file: args.flag_no_file,
            flag_no_skip_vcs: args.flag_no_skip_vcs,
        }
    }

    /// The arguments of a replacement, as they are.
    pub fn from_ambr(args: &ArgsAmbr) -> (all: Self)
        ensures
            all.arg_keyword@ == args.arg_keyword@,
            all.arg_replacement@ == args.arg_replacement@,
            texts_of(all.arg_paths@) == texts_of(args.arg_paths@),
            text_of(all.flag_key_file) == text_of(args.flag_key_file),
            text_of(all.flag_rep_file) == text_of(args.flag_rep_file),
            all.flag_max_threads == args.flag_max_threads,
            all.flag_size_per_thread == args.flag_size_per_thread,
            all.flag_bin_check_bytes == args.flag_bin_check_bytes,
            all.flag_regex == args.flag_regex,
            all.flag_column == args.flag_column,
            all.flag_binary == args.flag_binary,
            all.flag_statistics == args.flag_statistics,
            all.flag_skipped == args.flag_skipped,
            all.flag_no_interactive == args.flag_no_interactive,
            all.flag_no_recursive == args.flag_no_recursive,
            all.flag_no_symlink == args.flag_no_symlink,
            all.flag_no_color == args.flag_no_color,
            all.flag_no_file == args.flag_no_file,
            all.flag_no_skip_vcs == args.flag_no_skip_vcs,
    {
        Args {
            arg_keyword: args.arg_keyword.clone(),
            arg_replacement: args.arg_replacement.clone(),
            arg_paths: copy_texts(&args.arg_paths),
            flag_key_file: copy_text(&args.flag_key_file),
            flag_rep_file: copy_text(&args.flag_rep_file),
            flag_max_threads: args.flag_max_threads,
            flag_size_per_thread: args.flag_size_per_thread,
            flag_bin_check_bytes: args.flag_bin_check_bytes,
            flag_regex: args.flag_regex,
            flag_column: args.flag_column,
            flag_binary: args.flag_binary,
            flag_statistics: args.flag_statistics,
            flag_skipped: args.flag_skipped,
            flag_no_interactive: args.flag_no_interactive,
            flag_no_recursive: args.flag_no_recursive,
            flag_no_symlink: args.flag_no_symlink,
            flag_no_color: args.flag_no_color,
            flag_no_file: args.flag_no_file,
            flag_no_skip_vcs: args.flag_no_skip_vcs,
        }
    }
}

/// The settings of a run.
#[derive(Debug, Clone, Copy, PartialEq, Eq, Structural)]
pub struct Config {
    pub find_recursive: bool,
    pub find_follow_symlink: bool,
    pub filter_vcs: bool,
    pub filter_binary: bool,
    pub filter_show: bool,
    pub filter_bin_check_bytes: usize,
    pub match_regex: bool,
    pub match_max_threads: usize,
    pub match_size_per_thread: usize,
    pub replace_interactive: bool,
    pub display_color: bool,
    pub display_file: bool,
    pub display_column: bool,
    pub display_statistics: bool,
}

/// The number given, or the default where none is given.
pub open spec fn or_default(given: Option<usize>, default: usize) -> usize {
    match given {
        Some(n) => n,
        None => default,
    }
}

impl Config {
    /// The settings that follow from the arguments, on a machine with `cpus`
    /// processors: what a `no-` flag names is off, what another flag names is
    /// on; 1024 bytes are looked at to tell a binary file, there are as many
    /// threads as processors, and one megabyte for each, unless the arguments
    /// say otherwise.
    pub fn from_args(args: &Args, cpus: usize) -> (conf: Self)
        ensures
            conf == (Config {
                find_recursive: !args.flag_no_recursive,
                find_follow_symlink: !args.flag_no_symlink,
                filter_vcs: !args.flag_no_skip_vcs,
                filter_binary: !args.flag_binary,
                filter_show: args.flag_skipped,
                filter_bin_check_bytes: or_default(args.flag_bin_check_bytes, 1024),
                match_regex: args.flag_regex,
                match_max_threads: or_default(args.flag_max_threads, cpus),
                match_size_per_thread: or_default(args.flag_size_per_thread, 1048576),
                replace_interactive: !args.flag_no_interactive,
                display_color: !args.flag_no_color,
                display_file: !args.flag_no_file,
                display_column: args.flag_column,
                display_statistics: args.flag_statistics,
            }),
    {
        Config {
            find_recursive: !args.flag_no_recursive,
            find_follow_symlink: !args.flag_no_symlink,
            filter_vcs: !args.flag_no_skip_vcs,
            filter_binary: !args.flag_binary,
            filter_show: args.flag_skipped,
            filter_bin_check_bytes: number_or(args.flag_bin_check_bytes, 1024),
            match_regex: args.flag_regex,
            match_max_threads: number_or(args.flag_max_threads, cpus),
            match_size_per_thread: number_or(args.flag_size_per_thread, 1048576),
            replace_interactive: !args.flag_no_interactive,
            display_color: !args.flag_no_color,
            display_file: !args.flag_no_file,
            display_column: args.flag_column,
            display_statistics: args.flag_statistics,
        }
    }
}

/// Computes `or_default`.
fn number_or(given: Option<usize>, default: usize) -> (n: usize)
    ensures
        n == or_default(given, default),
{
    match given {
        Some(n) => n,
        None => default,
    }
}

} // verus!
