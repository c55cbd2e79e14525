//! The options of the search tool, and how the defaults of the user's
//! configuration and the flags of the command line are brought together.

use crate::pipeline::views;
use crate::pipeline_finder::PipelineFinder;
use crate::pipeline_printer::PipelinePrinter;
use vstd::prelude::*;

verus! {

/// The operands and flags of one run.
#[derive(Debug)]
pub struct Opt {
    /// Keyword for search
    pub keyword: String,
    /// Use file contents of KEYWORD as keyword for search
    pub key_from_file: bool,
    /// Search paths
    pub paths: Vec<String>,
    /// Number of max threads
    pub max_threads: usize,
    /// File size per one thread
    pub size_per_thread: usize,
    /// Read size for checking binary
    pub bin_check_bytes: usize,
    /// Minimum size for using mmap
    pub mmap_bytes: u64,
    /// Verbose message
    pub verbose: bool,
    /// Enable regular expression search
    pub regex: bool,
    /// Enable column output
    pub column: bool,
    /// Enable row output
    pub row: bool,
    /// Enable binary file search
    pub binary: bool,
    /// Enable statistics output
    pub statistics: bool,
    /// Enable skipped file output
    pub skipped: bool,
    /// Enable recursive directory search
    pub recursive: bool,
    /// Enable symbolic link follow
    pub symlink: bool,
    /// Enable colored output
    pub color: bool,
    /// Enable filename output
    pub file: bool,
    /// Enable vcs directory ( .hg/.git/.svn ) skip
    pub skip_vcs: bool,
    /// Enable .gitignore skip
    pub skip_gitignore: bool,
    /// Enable output order guarantee
    pub fixed_order: bool,
    /// Enable .*ignore file search at parent directories
    pub parent_ignore: bool,
    /// Enable to show the line by each match
    pub line_by_match: bool,
    /// Disable regular expression search
    pub no_regex: bool,
    /// Disable column output
    pub no_column: bool,
    /// Disable row output
    pub no_row: bool,
    /// Disable binary file search
    pub no_binary: bool,
    /// Disable statistics output
    pub no_statistics: bool,
    /// Disable skipped file output
    pub no_skipped: bool,
    /// Disable recursive directory search
    pub no_recursive: bool,
    /// Disable symbolic link follow
    pub no_symlink: bool,
    /// Disable colored output
    pub no_color: bool,
    /// Disable filename output
    pub no_file: bool,
    /// Disable vcs directory ( .hg/.git/.svn ) skip
    pub no_skip_vcs: bool,
    /// Disable .gitignore skip
    pub no_skip_gitignore: bool,
    /// Disable output order guarantee
    pub no_fixed_order: bool,
    /// Disable .*ignore file search at parent directories
    pub no_parent_ignore: bool,
    /// Disable to show the line by each match
    pub no_line_by_match: bool,
    /// Enable TBM matcher
    pub tbm: bool,
    /// Enable SSE 4.2
    pub sse: bool,
}

/// The defaults of the flags, as the user's configuration sets them.
#[derive(Debug, Clone, Copy, PartialEq, Eq, Structural)]
pub struct DefaultFlags {
    pub regex: bool,
    pub column: bool,
    pub row: bool,
    pub binary: bool,
    pub statistics: bool,
    pub skipped: bool,
    pub recursive: bool,
    pub symlink: bool,
    pub color: bool,
    pub file: bool,
    pub skip_vcs: bool,
    pub skip_gitignore: bool,
    pub fixed_order: bool,
    pub parent_ignore: bool,
    pub line_by_match: bool,
}

/// The default of a flag that is on unless it is switched off.
pub fn flag_true() -> (on: bool)
    ensures
        on,
{
    true
}

/// The default of a flag that is off unless it is switched on.
pub fn flag_false() -> (on: bool)
    ensures
        !on,
{
    false
}

/// What a flag comes to: where its default is on, it is on unless the
/// `--no-...` form was given; where its default is off, it is on where the
/// plain form was given.
pub open spec fn merged(default: bool, on: bool, off: bool) -> bool {
    if default {
        !off
    } else {
        on
    }
}

/// Computes `merged`.
fn merge_flag(default: bool, on: bool, off: bool) -> (flag: bool)
    ensures
        flag == merged(default, on, off),
{
    if default {
        !off
    } else {
        on
    }
}

impl DefaultFlags {
    /// The defaults where the configuration says nothing.
    pub fn new() -> (flags: DefaultFlags)
        ensures
            flags == (DefaultFlags {
                regex: false,
                column: false,
                row: false,
                binary: false,
                statistics: false,
                skipped: false,
                recursive: true,
                symlink: true,
                color: true,
                file: true,
                skip_vcs: true,
                skip_gitignore: true,
                fixed_order: true,
                parent_ignore: true,
                line_by_match: false,
            }),
    {
        DefaultFlags {
            regex: flag_false(),
            column: flag_false(),
            row: flag_false(),
            binary: flag_false(),
            statistics: flag_false(),
            skipped: flag_false(),
            recursive: flag_true(),
            symlink: flag_true(),
            color: flag_true(),
            file: flag_true(),
            skip_vcs: flag_true(),
            skip_gitignore: flag_true(),
            fixed_order: flag_true(),
            parent_ignore: flag_true(),
            line_by_match: flag_false(),
        }
    }

    /// Brings the defaults and the flags of the command line together: every
    /// flag of `opt` becomes what `merged` says, all else stays.
    pub fn merge(&self, opt: Opt) -> (merged_opt: Opt)
        ensures
            merged_opt.regex == merged(self.regex, opt.regex, opt.no_regex),
            merged_opt.column == merged(self.column, opt.column, opt.no_column),
            merged_opt.row == merged(self.row, opt.row, opt.no_row),
            merged_opt.binary == merged(self.binary, opt.binary, opt.no_binary),
            merged_opt.statistics == merged(self.statistics, opt.statistics, opt.no_statistics),
            merged_opt.skipped == merged(self.skipped, opt.skipped, opt.no_skipped),
            merged_opt.recursive == merged(self.recursive, opt.recursive, opt.no_recursive),
            merged_opt.symlink == merged(self.symlink, opt.symlink, opt.no_symlink),
            merged_opt.color == merged(self.color, opt.color, opt.no_color),
            merged_opt.file == merged(self.file, opt.file, opt.no_file),
            merged_opt.skip_vcs == merged(self.skip_vcs, opt.skip_vcs, opt.no_skip_vcs),
            merged_opt.skip_gitignore == merged(self.skip_gitignore, opt.skip_gitignore, opt.no_skip_gitignore),
            merged_opt.fixed_order == merged(self.fixed_order, opt.fixed_order, opt.no_fixed_order),
            merged_opt.parent_ignore == merged(self.parent_ignore, opt.parent_ignore, opt.no_parent_ignore),
            merged_opt.line_by_match == merged(self.line_by_match, opt.line_by_match, opt.no_line_by_match),
            merged_opt.no_regex == opt.no_regex,
            merged_opt.no_column == opt.no_column,
            merged_opt.no_row == opt.no_row,
            merged_opt.no_binary == opt.no_binary,
            merged_opt.no_statistics == opt.no_statistics,
            merged_opt.no_skipped == opt.no_skipped,
            merged_opt.no_recursive == opt.no_recursive,
            merged_opt.no_symlink == opt.no_symlink,
            merged_opt.no_color == opt.no_color,
            merged_opt.no_file == opt.no_file,
            merged_opt.no_skip_vcs == opt.no_skip_vcs,
            merged_opt.no_skip_gitignore == opt.no_skip_gitignore,
            merged_opt.no_fixed_order == opt.no_fixed_order,
            merged_opt.no_parent_ignore == opt.no_parent_ignore,
            merged_opt.no_line_by_match == opt.no_line_by_match,
            merged_opt.keyword == opt.keyword,
            merged_opt.key_from_file == opt.key_from_file,
            merged_opt.paths == opt.paths,
            merged_opt.max_threads == opt.max_threads,
            merged_opt.size_per_thread == opt.size_per_thread,
            merged_opt.bin_check_bytes == opt.bin_check_bytes,
            merged_opt.mmap_bytes == opt.mmap_bytes,
            merged_opt.verbose == opt.verbose,
            merged_opt.tbm == opt.tbm,
            merged_opt.sse == opt.sse,
    {
        Opt {
            regex: merge_flag(self.regex, opt.regex, opt.no_regex),
            column: merge_flag(self.column, opt.column, opt.no_column),
            row: merge_flag(self.row, opt.row, opt.no_row),
            binary: merge_flag(self.binary, opt.binary, opt.no_binary),
            statistics: merge_flag(self.statistics, opt.statistics, opt.no_statistics),
            skipped: merge_flag(self.skipped, opt.skipped, opt.no_skipped),
            recursive: merge_flag(self.recursive, opt.recursive, opt.no_recursive),
            symlink: merge_flag(self.symlink, opt.symlink, opt.no_symlink),
            color: merge_flag(self.color, opt.color, opt.no_color),
            file: merge_flag(self.file, opt.file, opt.no_file),
            skip_vcs: merge_flag(self.skip_vcs, opt.skip_vcs, opt.no_skip_vcs),
            skip_gitignore: merge_flag(self.skip_gitignore, opt.skip_gitignore, opt.no_skip_gitignore),
            fixed_order: merge_flag(self.fixed_order, opt.fixed_order, opt.no_fixed_order),
            parent_ignore: merge_flag(self.parent_ignore, opt.parent_ignore, opt.no_parent_ignore),
            line_by_match: merge_flag(self.line_by_match, opt.line_by_match, opt.no_line_by_match),
            ..opt
        }
    }
}

/// The number of matcher stages for `max_threads` threads: as many, but
/// eight at most.
pub open spec fn matcher_count(max_threads: usize) -> usize {
    if max_threads < 8 {
        max_threads
    } else {
        8
    }
}

/// The paths that a run starts from: the ones given, or the current
/// directory where none is given.
pub open spec fn base_paths_of(paths: Seq<String>) -> Seq<Seq<char>> {
    if paths.len() == 0 {
        seq!["./"@]
    } else {
        paths.map_values(|p: String| p@)
    }
}

impl Opt {
    /// Lists the paths that the run starts from.
    pub fn base_paths(&self) -> (base: Vec<String>)
        ensures
            base@.map_values(|p: String| p@) == base_paths_of(self.paths@),
    {
        let mut base: Vec<String> = Vec::new();
        if self.paths.len() == 0 {
            base.push("./".to_owned());
            assert(base@.map_values(|p: String| p@) =~= seq!["./"@]);
        } else {
            let mut i: usize = 0;
            while i < self.paths.len()
                invariant
                    0 < self.paths@.len(),
                    i <= self.paths@.len(),
                    base@ == self.paths@.take(i as int),
                decreases self.paths@.len() - i,
            {
                base.push(self.paths[i].clone());
                assert(base@ =~= self.paths@.take(i + 1));
                i += 1;
            }
            assert(self.paths@.take(i as int) =~= self.paths@);
        }
        base
    }

    /// How many matcher stages the run has.
    pub fn matcher_num(&self) -> (num: usize)
        ensures
            num == matcher_count(self.max_threads),
    {
        if self.max_threads < 8 {
            self.max_threads
        } else {
            8
        }
    }

    /// Whether skipped paths are noted: where asked for, and in verbose
    /// mode.
    pub fn print_skipped(&self) -> (noted: bool)
        ensures
            noted == (self.skipped || self.verbose),
    {
        self.skipped || self.verbose
    }

    /// The finder of the run.
    pub fn finder(&self) -> (finder: PipelineFinder)
        ensures
            finder.is_recursive == self.recursive,
            finder.follow_symlink == self.symlink,
            finder.skip_vcs == self.skip_vcs,
            finder.skip_gitignore == self.skip_gitignore,
            finder.print_skipped == (self.skipped || self.verbose),
            finder.find_parent_ignore == self.parent_ignore,
            finder.infos@.len() == 0,
            finder.errors@.len() == 0,
            finder.seq_no == 0,
            finder.current_tx == 0,
            !finder.seq_beg_arrived,
            views(finder.ignore_vcs.vcs_dirs@) == seq![".svn"@, ".hg"@, ".git"@, ".bzr"@],
            finder.ignore_git@.len() == 0,
    {
        let mut finder = PipelineFinder::new();
        finder.is_recursive = self.recursive;
        finder.follow_symlink = self.symlink;
        finder.skip_vcs = self.skip_vcs;
        finder.skip_gitignore = self.skip_gitignore;
        finder.print_skipped = self.skipped || self.verbose;
        finder.find_parent_ignore = self.parent_ignore;
        finder
    }

    /// The printer of the run.
    pub fn printer(&self) -> (printer: PipelinePrinter)
        ensures
            printer.is_color == self.color,
            printer.print_file == self.file,
            printer.print_column == self.column,
            printer.print_row == self.row,
            printer.print_line_by_match == self.line_by_match,
            printer.infos@.len() == 0,
            printer.errors@.len() == 0,
            !printer.seq_beg_arrived,
    {
        let mut printer = PipelinePrinter::new();
        printer.is_color = self.color;
        printer.print_file = self.file;
        printer.print_column = self.column;
        printer.print_row = self.row;
        printer.print_line_by_match = self.line_by_match;
        printer
    }

}

} // verus!
