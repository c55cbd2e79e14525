//! Which paths are passed over: the directories of version control systems,
//! and what the rules of a `.gitignore` file name.

use crate::pipeline::views;
use std::path::Path;
use vstd::prelude::*;

verus! {

// ---------------------------------------------------------------------------------------------------------------------
// Ignore
// ---------------------------------------------------------------------------------------------------------------------

/// A set of rules that accepts or rejects a path.
pub trait Ignore {
    /// The rules reject `path`, which names a directory where `is_dir`.
    spec fn rejects(&self, path: Seq<char>, is_dir: bool) -> bool;

    fn is_ignore(&self, path: &str, is_dir: bool) -> (ignored: bool)
        ensures
            ignored == self.rejects(path@, is_dir),
    ;
}

// ---------------------------------------------------------------------------------------------------------------------
// IgnoreVcs
// ---------------------------------------------------------------------------------------------------------------------

/// Whether the path `path` ends with the path `child`, whole components
/// compared (`Path::ends_with`).
pub uninterp spec fn path_ends_with(path: Seq<char>, child: Seq<char>) -> bool;

/// Asks `Path::ends_with` whether `path` ends with `child`. What std makes
/// of the two texts as paths is its own and is named, not described.
#[verifier::external_body]
fn ends_with(path: &str, child: &str) -> (ends: bool)
    ensures
        ends == path_ends_with(path@, child@),
{
    Path::new(path).ends_with(child)
}

/// Rejects the directories in which version control systems keep their
/// data.
pub struct IgnoreVcs {
    pub vcs_dirs: Vec<String>,
}

/// One of `names` ends the path.
pub open spec fn ends_with_one_of(path: Seq<char>, names: Seq<Seq<char>>) -> bool {
    exists|i: int| 0 <= i < names.len() && path_ends_with(path, #[trigger] names[i])
}

impl IgnoreVcs {
    /// The rules for `.svn`, `.hg`, `.git` and `.bzr`.
    pub fn new() -> (rules: Self)
        ensures
            views(rules.vcs_dirs@) == seq![".svn"@, ".hg"@, ".git"@, ".bzr"@],
    {
        let mut vcs_dirs: Vec<String> = Vec::new();
        vcs_dirs.push(".svn".to_owned());
        vcs_dirs.push(".hg".to_owned());
        vcs_dirs.push(".git".to_owned());
        vcs_dirs.push(".bzr".to_owned());
        assert(views(vcs_dirs@) =~= seq![".svn"@, ".hg"@, ".git"@, ".bzr"@]);
        IgnoreVcs { vcs_dirs }
    }
}

impl Default for IgnoreVcs {
    fn default() -> (rules: Self)
        ensures
            views(rules.vcs_dirs@) == seq![".svn"@, ".hg"@, ".git"@, ".bzr"@],
    {
        IgnoreVcs::new()
    }
}

impl Ignore for IgnoreVcs {
    /// A directory is rejected where its last component is one of the
    /// names; a file never is.
    open spec fn rejects(&self, path: Seq<char>, is_dir: bool) -> bool {
        is_dir && ends_with_one_of(path, views(self.vcs_dirs@))
    }

    fn is_ignore(&self, path: &str, is_dir: bool) -> (ignored: bool) {
        if is_dir {
            let mut i: usize = 0;
            while i < self.vcs_dirs.len()
                invariant
                    is_dir,
                    i <= self.vcs_dirs@.len(),
                    forall|j: int| 0 <= j < i ==> !path_ends_with(path@, #[trigger] views(self.vcs_dirs@)[j]),
                decreases self.vcs_dirs@.len() - i,
            {
                if ends_with(path, self.vcs_dirs[i].as_str()) {
                    assert(path_ends_with(path@, views(self.vcs_dirs@)[i as int]));
                    return true;
                }
                assert(views(self.vcs_dirs@)[i as int] == self.vcs_dirs@[i as int]@);
                i += 1;
            }
        }
        false
    }
}

// ---------------------------------------------------------------------------------------------------------------------
// IgnoreGit
// ---------------------------------------------------------------------------------------------------------------------

/// `ignore::gitignore::Gitignore`, a compiled set of rules, carried and never
/// looked into.
#[verifier::external_type_specification]
#[verifier::external_body]
pub struct ExGitignore(::ignore::gitignore::Gitignore);

/// The root that a compiled rule set holds: the directory against which
/// its rules are matched.
pub uninterp spec fn compiled_root(rules: &::ignore::gitignore::Gitignore) -> Seq<char>;

/// The rule lines that a compiled rule set holds, in their order, each as
/// it was kept.
pub uninterp spec fn compiled_rules(rules: &::ignore::gitignore::Gitignore) -> Seq<Seq<char>>;

/// What the builder keeps of a root: the root without one leading `./`.
pub open spec fn kept_root(root: Seq<char>) -> Seq<char> {
    if root.len() >= 2 && root[0] == '.' && root[1] == '/' {
        root.skip(2)
    } else {
        root
    }
}

/// The rule lines of the set that the builder makes of the lines of a
/// `.gitignore` file: comments, blank lines and lines that are no glob are
/// left out, and what stays is kept without its trailing blanks. `None` where
/// no set can be built of them.
pub uninterp spec fn kept_rules(lines: Seq<Seq<char>>) -> Option<Seq<Seq<char>>>;

/// Whether a set that the builder made with the root `root` and the rule
/// lines `rules` says that `path` is ignored: the last rule that matches
/// decides, and a rule that ends in `/` matches directories only.
pub uninterp spec fn gitignore_verdict(root: Seq<char>, rules: Seq<Seq<char>>, path: Seq<char>, is_dir: bool) -> bool;

/// Compiles the rules of a `.gitignore` file in the directory `root`:
/// `GitignoreBuilder::new` with `root`, `add_line` with every line, then
/// `build`. The builder keeps the root without a leading `./`; a line that
/// it refuses is left out, as it is for a file. `None` where the set cannot
/// be built.
#[verifier::external_body]
fn compile(root: &str, lines: &Vec<String>) -> (rules: Option<::ignore::gitignore::Gitignore>)
    ensures
        match rules {
            Some(set) => compiled_root(&set) == kept_root(root@) && kept_rules(views(lines@)) == Some(
                compiled_rules(&set),
            ),
            None => kept_rules(views(lines@)) is None,
        },
{
    let mut builder = ::ignore::gitignore::GitignoreBuilder::new(root);
    for line in lines {
        let _ = builder.add_line(None, line);
    }
    builder.build().ok()
}

/// Asks `Gitignore::matched` for `path`, and `Match::is_ignore` whether the
/// answer is that the path is ignored.
#[verifier::external_body]
fn matched(rules: &::ignore::gitignore::Gitignore, path: &str, is_dir: bool) -> (ignored: bool)
    ensures
        ignored == gitignore_verdict(compiled_root(rules), compiled_rules(rules), path@, is_dir),
{
    rules.matched(path, is_dir).is_ignore()
}

/// The rules of one `.gitignore` file. Where no rule set can be built of
/// the lines, there is none, and nothing is rejected.
pub struct IgnoreGit {
    rules: Option<::ignore::gitignore::Gitignore>,
    root: Ghost<Seq<char>>,
    lines: Ghost<Seq<Seq<char>>>,
}

impl IgnoreGit {
    #[verifier::type_invariant]
    spec fn made_of(&self) -> bool {
        match self.rules {
            Some(set) => compiled_root(&set) == kept_root(self.root@) && kept_rules(self.lines@) == Some(
                compiled_rules(&set),
            ),
            None => kept_rules(self.lines@) is None,
        }
    }

    /// The directory of the `.gitignore` file.
    pub closed spec fn root(&self) -> Seq<char> {
        self.root@
    }

    /// The lines of the `.gitignore` file.
    pub closed spec fn lines(&self) -> Seq<Seq<char>> {
        self.lines@
    }

    /// Compiles the lines of the `.gitignore` file that lies in `root`.
    pub fn new(root: &str, lines: &Vec<String>) -> (rules: Self)
        ensures
            rules.root() == root@,
            rules.lines() == views(lines@),
    {
        IgnoreGit { rules: compile(root, lines), root: Ghost(root@), lines: Ghost(views(lines@)) }
    }
}

impl Ignore for IgnoreGit {
    /// A path is rejected where the rule set that the ignore crate builds of
    /// the lines says so; nothing is rejected where it builds none.
    open spec fn rejects(&self, path: Seq<char>, is_dir: bool) -> bool {
        match kept_rules(self.lines()) {
            Some(rules) => gitignore_verdict(kept_root(self.root()), rules, path, is_dir),
            None => false,
        }
    }

    fn is_ignore(&self, path: &str, is_dir: bool) -> (ignored: bool) {
        proof {
            use_type_invariant(self);
        }
        match &self.rules {
            Some(set) => matched(set, path, is_dir),
            None => false,
        }
    }
}

} // verus!
