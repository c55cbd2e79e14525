//! A plain walk through directories: which of the paths it meets are files
//! to take, and which are directories to go into.

use crate::pipeline::{lemma_views_push, views};
use crate::pipeline_finder::EntryKind;
use vstd::prelude::*;
use vstd::string::StringExecFns;

verus! {

/// What the walk does with a path.
#[derive(Debug, Clone, Copy, PartialEq, Eq, Structural)]
pub enum Found {
    /// A file to take.
    Take,
    /// A directory to go into.
    Enter,
    /// Nothing for the walk.
    Pass,
}

/// The line in which a path that cannot be reached is kept.
pub open spec fn unreachable_line(reason: Seq<char>, path: Seq<char>) -> Seq<char> {
    reason + " @ "@ + path
}

/// What becomes of an entry of a directory: a file is taken where it is not
/// empty; a directory is gone into where the walk is recursive, a symbolic
/// link where links are followed too.
pub open spec fn entry_found(is_recursive: bool, follow_symlink: bool, kind: EntryKind, len: u64) -> Found {
    match kind {
        EntryKind::File => if len != 0 {
            Found::Take
        } else {
            Found::Pass
        },
        EntryKind::Dir => if is_recursive {
            Found::Enter
        } else {
            Found::Pass
        },
        EntryKind::Symlink => if is_recursive && follow_symlink {
            Found::Enter
        } else {
            Found::Pass
        },
        EntryKind::Other => Found::Pass,
    }
}

/// Decides what a walk takes.
pub trait PathFinder {
    /// What becomes of an entry of the kind `kind` that is `len` bytes long.
    spec fn found(&self, kind: EntryKind, len: u64) -> Found;

    fn find_entry(&self, kind: EntryKind, len: u64) -> (found: Found)
        ensures
            found == self.found(kind, len),
    ;
}

/// A walk that takes every file that is not empty.
pub struct SimplePathFinder {
    pub is_recursive: bool,
    pub follow_symlink: bool,
    pub skip_vcs: bool,
    pub errors: Vec<String>,
}

impl SimplePathFinder {
    /// A walk that goes into directories and through symbolic links.
    pub fn new() -> (finder: Self)
        ensures
            finder.is_recursive,
            finder.follow_symlink,
            finder.skip_vcs,
            finder.errors@.len() == 0,
    {
        SimplePathFinder { is_recursive: true, follow_symlink: true, skip_vcs: true, errors: Vec::new() }
    }

    /// Decides what becomes of a base path, or of a directory that is gone
    /// into. `meta` says whether the path is a file, and how long, or in which
    /// words the system refused to tell. Errors kept before are forgotten. A
    /// path that cannot be reached is kept as an error; a file is taken where
    /// it is not empty; all else is a directory to go through.
    pub fn find_path(&mut self, base: &str, meta: Result<(bool, u64), String>) -> (found: Found)
        ensures
            found == (match meta {
                Ok((is_file, len)) => if !is_file {
                    Found::Enter
                } else if len != 0 {
                    Found::Take
                } else {
                    Found::Pass
                },
                Err(_) => Found::Pass,
            }),
            views(final(self).errors@) == (match meta {
                Ok(_) => Seq::empty(),
                Err(reason) => seq![unreachable_line(reason@, base@)],
            }),
            final(self).is_recursive == old(self).is_recursive,
            final(self).follow_symlink == old(self).follow_symlink,
            final(self).skip_vcs == old(self).skip_vcs,
    {
        self.errors = Vec::new();
        assert(views(self.errors@) =~= Seq::empty());
        match meta {
            Ok((is_file, len)) => {
                if !is_file {
                    Found::Enter
                } else if len != 0 {
                    Found::Take
                } else {
                    Found::Pass
                }
            },
            Err(reason) => {
                let mut line: String = reason;
                line.append(" @ ");
                line.append(base);
                let ghost was = self.errors@;
                self.errors.push(line);
                proof {
                    lemma_views_push(was, line);
                    assert(views(self.errors@) =~= seq![unreachable_line(reason@, base@)]);
                }
                Found::Pass
            },
        }
    }

    /// Keeps the words in which the system refused an entry.
    pub fn keep_error(&mut self, reason: String)
        ensures
            final(self).errors@ == old(self).errors@.push(reason),
            final(self).is_recursive == old(self).is_recursive,
            final(self).follow_symlink == old(self).follow_symlink,
            final(self).skip_vcs == old(self).skip_vcs,
    {
        self.errors.push(reason);
    }

    /// Joins what was found under the base paths, base after base.
    pub fn find(found: Vec<Vec<String>>) -> (ret: Vec<String>)
        ensures
            ret@ == found@.map_values(|paths: Vec<String>| paths@).flatten(),
    {
        let ghost all = found@.map_values(|paths: Vec<String>| paths@);
        let mut found = found;
        let mut ret: Vec<String> = Vec::new();
        proof {
            all.lemma_flatten_and_flatten_alt_are_equivalent();
            assert(all.take(all.len() as int) =~= all);
        }
        // The lists are taken from the last to the first, each before what is
        // already there.
        while found.len() > 0
            invariant
                found@.len() <= all.len(),
                found@.map_values(|paths: Vec<String>| paths@) == all.take(found@.len() as int),
                all.flatten_alt() == all.take(found@.len() as int).flatten_alt() + ret@,
            decreases found@.len(),
        {
            let ghost n = found@.len() as int;
            let ghost tail = ret@;
            let mut paths: Vec<String> = found.pop().unwrap();
            let ghost head = paths@;
            paths.append(&mut ret);
            ret = paths;
            proof {
                assert(all.take(n).last() == head);
                assert(all.take(n).drop_last() =~= all.take(n - 1));
                assert(found@.map_values(|paths: Vec<String>| paths@) =~= all.take(n - 1));
                assert(all.take(n - 1).flatten_alt() + (head + tail) =~= all.take(n).flatten_alt() + tail);
            }
        }
        assert(all.take(0).flatten_alt() =~= Seq::<String>::empty());
        assert(Seq::<String>::empty() + ret@ =~= ret@);
        ret
    }
}

impl PathFinder for SimplePathFinder {
    open spec fn found(&self, kind: EntryKind, len: u64) -> Found {
        entry_found(self.is_recursive, self.follow_symlink, kind, len)
    }

    fn find_entry(&self, kind: EntryKind, len: u64) -> (found: Found) {
        match kind {
            EntryKind::File => if len != 0 {
                Found::Take
            } else {
                Found::Pass
            },
            EntryKind::Dir => if self.is_recursive {
                Found::Enter
            } else {
                Found::Pass
            },
            EntryKind::Symlink => if self.is_recursive && self.follow_symlink {
                Found::Enter
            } else {
                Found::Pass
            },
            EntryKind::Other => Found::Pass,
        }
    }
}

} // verus!
