//! The finder stage: which paths of a directory walk are handed to the
//! matchers, under which sequence number and on which channel.

use crate::ignore::{Ignore, IgnoreGit, IgnoreVcs};
use crate::pipeline::{forward, lemma_views_push, report, report_envelopes, views, Envelope, PipelineInfo};
use crate::util::{debug_text, quoted};
use std::time::Duration;
use vstd::prelude::*;
use vstd::string::StringExecFns;

verus! {

/// A file that the finder found.
#[derive(Debug)]
pub struct PathInfo {
    pub path: String,
}

impl View for PathInfo {
    type V = Seq<char>;

    open spec fn view(&self) -> Seq<char> {
        self.path@
    }
}

impl Clone for PathInfo {
    fn clone(&self) -> (r: PathInfo)
        ensures
            r == *self,
    {
        PathInfo { path: self.path.clone() }
    }
}

/// An envelope on its way to the output channel `to`.
pub struct Dispatch {
    pub to: usize,
    pub msg: PipelineInfo<PathInfo>,
}

impl View for Dispatch {
    type V = (usize, Envelope<Seq<char>>);

    open spec fn view(&self) -> (usize, Envelope<Seq<char>>) {
        (self.to, self.msg@)
    }
}

/// What an entry of a directory is.
#[derive(Debug, Clone, Copy, PartialEq, Eq, Structural)]
pub enum EntryKind {
    File,
    Dir,
    Symlink,
    Other,
}

/// What the finder does with a path.
pub enum Visit {
    /// The path is a file for the matchers: this goes out.
    Send(Dispatch),
    /// The path is a directory to go through; `is_symlink` where it was
    /// reached through a symbolic link.
    Enter { is_symlink: bool },
    /// The path is passed over.
    Skip,
}

/// What the finder makes of one envelope: the base path to walk, where
/// there is one, what is sent on, and whether the stage has come to its end.
pub struct FinderStep {
    pub walk: Option<String>,
    pub send: Vec<Dispatch>,
    pub done: bool,
}

/// The note that a path was skipped for a version control directory.
pub open spec fn skipped_vcs_note(path: Seq<char>) -> Seq<char> {
    "Skip (vcs file)  : "@ + debug_text(path)
}

/// The note that a path was skipped for a `.gitignore` rule.
pub open spec fn skipped_git_note(path: Seq<char>) -> Seq<char> {
    "Skip (.gitignore): "@ + debug_text(path)
}

/// The note that a `.gitignore` file was found above a base path.
pub open spec fn parent_ignore_note(parent: Seq<char>) -> Seq<char> {
    "Found .gitignore at the parent directory: "@ + debug_text(parent) + "\n"@
}

/// The line in which a failure on a path is kept, in the words of the
/// system.
pub open spec fn path_error(reason: Seq<char>, path: Seq<char>) -> Seq<char> {
    "Error: "@ + reason + " @ "@ + path
}

/// The line in which a failure without a path is kept.
pub open spec fn plain_error(reason: Seq<char>) -> Seq<char> {
    "Error: "@ + reason
}

/// One of the rule sets rejects the path.
pub open spec fn any_rejects(stack: Seq<IgnoreGit>, path: Seq<char>, is_dir: bool) -> bool {
    exists|i: int| 0 <= i < stack.len() && (#[trigger] stack[i]).rejects(path, is_dir)
}

/// The channel that follows `current` among `outputs` channels, going
/// round.
pub open spec fn next_channel(current: usize, outputs: usize) -> usize {
    if current + 1 >= outputs {
        0
    } else {
        (current + 1) as usize
    }
}

/// The channel that a record goes to: the current one, or the first where
/// the current one does not exist.
pub open spec fn this_channel(current: usize, outputs: usize) -> usize {
    if current < outputs {
        current
    } else {
        0
    }
}

/// The number behind `seq_no`, as far as numbers go.
pub open spec fn next_number(seq_no: usize) -> usize {
    if seq_no < usize::MAX {
        (seq_no + 1) as usize
    } else {
        seq_no
    }
}

/// The first stage of both tools.
pub struct PipelineFinder {
    pub is_recursive: bool,
    pub follow_symlink: bool,
    pub skip_vcs: bool,
    pub skip_gitignore: bool,
    pub print_skipped: bool,
    pub find_parent_ignore: bool,
    pub infos: Vec<String>,
    pub errors: Vec<String>,
    pub seq_no: usize,
    pub current_tx: usize,
    pub seq_beg_arrived: bool,
    pub ignore_vcs: IgnoreVcs,
    pub ignore_git: Vec<IgnoreGit>,
}

impl PipelineFinder {
    /// The settings of the finder, the same before and after.
    pub open spec fn same_settings(&self, other: &Self) -> bool {
        &&& self.is_recursive == other.is_recursive
        &&& self.follow_symlink == other.follow_symlink
        &&& self.skip_vcs == other.skip_vcs
        &&& self.skip_gitignore == other.skip_gitignore
        &&& self.print_skipped == other.print_skipped
        &&& self.find_parent_ignore == other.find_parent_ignore
        &&& self.ignore_vcs == other.ignore_vcs
    }

    /// The path is accepted: no rule that is switched on rejects it.
    pub open spec fn accepts(&self, path: Seq<char>, is_dir: bool) -> bool {
        &&& !(self.skip_vcs && self.ignore_vcs.rejects(path, is_dir))
        &&& !(self.skip_gitignore && any_rejects(self.ignore_git@, path, is_dir))
    }

    /// The notes that a check of the path leaves: one for each kind of rule
    /// that rejects it, where skipped paths are noted.
    pub open spec fn check_notes(&self, path: Seq<char>, is_dir: bool) -> Seq<Seq<char>> {
        (if self.print_skipped && self.skip_vcs && self.ignore_vcs.rejects(path, is_dir) {
            seq![skipped_vcs_note(path)]
        } else {
            Seq::empty()
        }) + (if self.print_skipped && self.skip_gitignore && any_rejects(self.ignore_git@, path, is_dir) {
            seq![skipped_git_note(path)]
        } else {
            Seq::empty()
        })
    }

    /// A finder that goes into directories and through symbolic links, skips
    /// what version control and `.gitignore` files name, looks for
    /// `.gitignore` files above the base paths, and notes no skipped path.
    pub fn new() -> (finder: Self)
        ensures
            finder.is_recursive,
            finder.follow_symlink,
            finder.skip_vcs,
            finder.skip_gitignore,
            !finder.print_skipped,
            finder.find_parent_ignore,
            finder.infos@.len() == 0,
            finder.errors@.len() == 0,
            finder.seq_no == 0,
            finder.current_tx == 0,
            !finder.seq_beg_arrived,
            views(finder.ignore_vcs.vcs_dirs@) == seq![".svn"@, ".hg"@, ".git"@, ".bzr"@],
            finder.ignore_git@.len() == 0,
    {
        PipelineFinder {
            is_recursive: true,
            follow_symlink: true,
            skip_vcs: true,
            skip_gitignore: true,
            print_skipped: false,
            find_parent_ignore: true,
            infos: Vec::new(),
            errors: Vec::new(),
            seq_no: 0,
            current_tx: 0,
            seq_beg_arrived: false,
            ignore_vcs: IgnoreVcs::new(),
            ignore_git: Vec::new(),
        }
    }

    /// Asks every rule set on the stack.
    fn stack_rejects(&self, path: &str, is_dir: bool) -> (rejected: bool)
        ensures
            rejected == any_rejects(self.ignore_git@, path@, is_dir),
    {
        let mut i: usize = 0;
        while i < self.ignore_git.len()
            invariant
                i <= self.ignore_git@.len(),
                forall|j: int| 0 <= j < i ==> !(#[trigger] self.ignore_git@[j]).rejects(path@, is_dir),
            decreases self.ignore_git@.len() - i,
        {
            if self.ignore_git[i].is_ignore(path, is_dir) {
                return true;
            }
            i += 1;
        }
        false
    }

    /// Builds a note: the words, then the path as `{:?}` writes it.
    fn note(words: &str, path: &str) -> (note: String)
        ensures
            note@ == words@ + debug_text(path@),
    {
        let mut note: String = String::from_str(words);
        let shown: String = quoted(path);
        note.append(shown.as_str());
        note
    }

    /// Decides whether the path is accepted, and notes why not where skipped
    /// paths are noted.
    pub fn check_path(&mut self, path: &str, is_dir: bool) -> (ok: bool)
        ensures
            ok == old(self).accepts(path@, is_dir),
            views(final(self).infos@) == views(old(self).infos@) + old(self).check_notes(path@, is_dir),
            final(self).errors == old(self).errors,
            final(self).seq_no == old(self).seq_no,
            final(self).current_tx == old(self).current_tx,
            final(self).seq_beg_arrived == old(self).seq_beg_arrived,
            final(self).ignore_git == old(self).ignore_git,
            final(self).same_settings(old(self)),
    {
        let ok_vcs: bool = if self.skip_vcs {
            !self.ignore_vcs.is_ignore(path, is_dir)
        } else {
            true
        };
        let ok_git: bool = if self.skip_gitignore {
            !self.stack_rejects(path, is_dir)
        } else {
            true
        };
        let ghost before = views(self.infos@);
        let ghost mut added: Seq<Seq<char>> = Seq::empty();
        assert(views(self.infos@) =~= before + added);
        if !ok_vcs && self.print_skipped {
            let note: String = PipelineFinder::note("Skip (vcs file)  : ", path);
            let ghost was = self.infos@;
            self.infos.push(note);
            proof {
                lemma_views_push(was, note);
                added = added.push(note@);
                assert(views(self.infos@) =~= before + added);
            }
        }
        if !ok_git && self.print_skipped {
            let note: String = PipelineFinder::note("Skip (.gitignore): ", path);
            let ghost was = self.infos@;
            self.infos.push(note);
            proof {
                lemma_views_push(was, note);
                added = added.push(note@);
                assert(views(self.infos@) =~= before + added);
            }
        }
        assert(added =~= old(self).check_notes(path@, is_dir));
        ok_vcs && ok_git
    }

    /// Gives the file `path` its sequence number and its channel, where the
    /// path is accepted: the number that is due, on the channel whose turn it
    /// is among the `outputs` channels. The number and the turn then move on.
    pub fn send_path(&mut self, path: String, outputs: usize) -> (sent: Option<Dispatch>)
        requires
            outputs > 0,
        ensures
            match sent {
                Some(d) => {
                    &&& old(self).accepts(path@, false)
                    &&& d@ == (
                        this_channel(old(self).current_tx, outputs),
                        Envelope::SeqDat(old(self).seq_no, path@),
                    )
                    &&& final(self).seq_no == next_number(old(self).seq_no)
                    &&& final(self).current_tx == next_channel(this_channel(old(self).current_tx, outputs), outputs)
                },
                None => {
                    &&& !old(self).accepts(path@, false)
                    &&& final(self).seq_no == old(self).seq_no
                    &&& final(self).current_tx == old(self).current_tx
                },
            },
            views(final(self).infos@) == views(old(self).infos@) + old(self).check_notes(path@, false),
            final(self).errors == old(self).errors,
            final(self).seq_beg_arrived == old(self).seq_beg_arrived,
            final(self).ignore_git == old(self).ignore_git,
            final(self).same_settings(old(self)),
    {
        if self.check_path(path.as_str(), false) {
            let to: usize = if self.current_tx < outputs {
                self.current_tx
            } else {
                0
            };
            let sent = Dispatch { to, msg: PipelineInfo::SeqDat(self.seq_no, PathInfo { path }) };
            if self.seq_no < usize::MAX {
                self.seq_no += 1;
            }
            self.current_tx = if to == outputs - 1 {
                0
            } else {
                to + 1
            };
            Some(sent)
        } else {
            None
        }
    }

    /// What becomes of an entry of a directory, as a spec: a file is sent
    /// where it is accepted; a directory is entered where the walk is
    /// recursive, a symbolic link where links are followed too, each where it
    /// is accepted as a directory; all else is passed over.
    pub open spec fn enters(&self, path: Seq<char>, kind: EntryKind) -> bool {
        &&& self.is_recursive
        &&& kind == EntryKind::Dir || kind == EntryKind::Symlink && self.follow_symlink
        &&& self.accepts(path, true)
    }

    /// Decides what becomes of the entry `path` of a directory.
    pub fn find_entry(&mut self, path: String, kind: EntryKind, outputs: usize) -> (visit: Visit)
        requires
            outputs > 0,
        ensures
            match visit {
                Visit::Send(d) => {
                    &&& kind == EntryKind::File
                    &&& old(self).accepts(path@, false)
                    &&& d@ == (
                        this_channel(old(self).current_tx, outputs),
                        Envelope::SeqDat(old(self).seq_no, path@),
                    )
                    &&& final(self).seq_no == next_number(old(self).seq_no)
                    &&& final(self).current_tx == next_channel(this_channel(old(self).current_tx, outputs), outputs)
                },
                Visit::Enter { is_symlink } => {
                    &&& old(self).enters(path@, kind)
                    &&& is_symlink == (kind == EntryKind::Symlink)
                    &&& final(self).seq_no == old(self).seq_no
                    &&& final(self).current_tx == old(self).current_tx
                },
                Visit::Skip => {
                    &&& kind == EntryKind::File ==> !old(self).accepts(path@, false)
                    &&& kind != EntryKind::File ==> !old(self).enters(path@, kind)
                    &&& final(self).seq_no == old(self).seq_no
                    &&& final(self).current_tx == old(self).current_tx
                },
            },
            views(final(self).infos@) == views(old(self).infos@) + old(self).check_notes(
                path@,
                kind != EntryKind::File,
            ),
            final(self).errors == old(self).errors,
            final(self).seq_beg_arrived == old(self).seq_beg_arrived,
            final(self).ignore_git == old(self).ignore_git,
            final(self).same_settings(old(self)),
    {
        if kind == EntryKind::File {
            match self.send_path(path, outputs) {
                Some(d) => Visit::Send(d),
                None => Visit::Skip,
            }
        } else {
            let find_dir: bool = kind == EntryKind::Dir && self.is_recursive;
            let find_symlink: bool = kind == EntryKind::Symlink && self.is_recursive && self.follow_symlink;
            let accepted: bool = self.check_path(path.as_str(), true);
            if (find_dir || find_symlink) && accepted {
                Visit::Enter { is_symlink: find_symlink }
            } else {
                Visit::Skip
            }
        }
    }

    /// Decides what becomes of a base path, or of a directory that is
    /// entered. `meta` says whether the path is a file, and how long, or in
    /// which words the system refused to tell. A path that cannot be reached
    /// is kept as an error, unless it was reached through a symbolic link; a
    /// file is sent where it is not empty and accepted; all else is a
    /// directory to go through.
    pub fn find_path(&mut self, path: String, meta: Result<(bool, u64), String>, is_symlink: bool, outputs: usize) -> (visit:
        Visit)
        requires
            outputs > 0,
        ensures
            match meta {
                Ok((is_file, len)) => if is_file {
                    if len != 0 && old(self).accepts(path@, false) {
                        &&& visit matches Visit::Send(d)
                        &&& d@ == (
                            this_channel(old(self).current_tx, outputs),
                            Envelope::SeqDat(old(self).seq_no, path@),
                        )
                        &&& final(self).seq_no == next_number(old(self).seq_no)
                        &&& final(self).current_tx == next_channel(
                            this_channel(old(self).current_tx, outputs),
                            outputs,
                        )
                    } else {
                        &&& visit is Skip
                        &&& final(self).seq_no == old(self).seq_no
                        &&& final(self).current_tx == old(self).current_tx
                    }
                } else {
                    &&& visit == (Visit::Enter { is_symlink })
                    &&& final(self).seq_no == old(self).seq_no
                    &&& final(self).current_tx == old(self).current_tx
                },
                Err(_) => {
                    &&& visit is Skip
                    &&& final(self).seq_no == old(self).seq_no
                    &&& final(self).current_tx == old(self).current_tx
                },
            },
            views(final(self).infos@) == (match meta {
                Ok((is_file, len)) => if is_file && len != 0 {
                    views(old(self).infos@) + old(self).check_notes(path@, false)
                } else {
                    views(old(self).infos@)
                },
                Err(_) => views(old(self).infos@),
            }),
            views(final(self).errors@) == (match meta {
                Ok(_) => views(old(self).errors@),
                Err(reason) => if is_symlink {
                    views(old(self).errors@)
                } else {
                    views(old(self).errors@).push(path_error(reason@, path@))
                },
            }),
            final(self).seq_beg_arrived == old(self).seq_beg_arrived,
            final(self).ignore_git == old(self).ignore_git,
            final(self).same_settings(old(self)),
    {
        match meta {
            Ok((is_file, len)) => {
                if is_file {
                    if len != 0 {
                        match self.send_path(path, outputs) {
                            Some(d) => Visit::Send(d),
                            None => Visit::Skip,
                        }
                    } else {
                        assert(views(self.infos@) =~= views(old(self).infos@));
                        Visit::Skip
                    }
                } else {
                    Visit::Enter { is_symlink }
                }
            },
            Err(reason) => {
                if !is_symlink {
                    self.keep_error(reason.as_str(), Some(path.as_str()));
                }
                Visit::Skip
            },
        }
    }

    /// Keeps a failure for the report of the stage: in the words `reason`,
    /// with the path that it happened on where there is one.
    pub fn keep_error(&mut self, reason: &str, path: Option<&str>)
        ensures
            views(final(self).errors@) == views(old(self).errors@).push(
                match path {
                    Some(p) => path_error(reason@, p@),
                    None => plain_error(reason@),
                },
            ),
            final(self).infos == old(self).infos,
            final(self).seq_no == old(self).seq_no,
            final(self).current_tx == old(self).current_tx,
            final(self).seq_beg_arrived == old(self).seq_beg_arrived,
            final(self).ignore_git == old(self).ignore_git,
            final(self).same_settings(old(self)),
    {
        let mut line: String = String::from_str("Error: ");
        line.append(reason);
        match path {
            Some(p) => {
                line.append(" @ ");
                line.append(p);
            },
            None => {},
        }
        let ghost was = self.errors@;
        self.errors.push(line);
        proof {
            lemma_views_push(was, line);
        }
    }

    /// Puts the rules of the `.gitignore` file of the directory `root` on the
    /// stack, where such rules are heeded, and says whether it did.
    pub fn push_gitignore(&mut self, root: &str, lines: &Vec<String>) -> (pushed: bool)
        ensures
            pushed == old(self).skip_gitignore,
            pushed ==> {
                &&& final(self).ignore_git@.len() == old(self).ignore_git@.len() + 1
                &&& final(self).ignore_git@.drop_last() == old(self).ignore_git@
                &&& final(self).ignore_git@.last().root() == root@
                &&& final(self).ignore_git@.last().lines() == views(lines@)
            },
            !pushed ==> final(self).ignore_git == old(self).ignore_git,
            final(self).infos == old(self).infos,
            final(self).errors == old(self).errors,
            final(self).seq_no == old(self).seq_no,
            final(self).current_tx == old(self).current_tx,
            final(self).seq_beg_arrived == old(self).seq_beg_arrived,
            final(self).same_settings(old(self)),
    {
        if !self.skip_gitignore {
            return false;
        }
        let rules: IgnoreGit = IgnoreGit::new(root, lines);
        self.ignore_git.push(rules);
        assert(self.ignore_git@.drop_last() =~= old(self).ignore_git@);
        true
    }

    /// Takes the rules that were put on the stack for a directory off it
    /// again, where there were any.
    pub fn pop_gitignore(&mut self, exist: bool)
        ensures
            final(self).ignore_git@ == (if exist && old(self).ignore_git@.len() > 0 {
                old(self).ignore_git@.drop_last()
            } else {
                old(self).ignore_git@
            }),
            final(self).infos == old(self).infos,
            final(self).errors == old(self).errors,
            final(self).seq_no == old(self).seq_no,
            final(self).current_tx == old(self).current_tx,
            final(self).seq_beg_arrived == old(self).seq_beg_arrived,
            final(self).same_settings(old(self)),
    {
        if exist {
            let _ = self.ignore_git.pop();
        }
    }

    /// Whether a `.gitignore` file is looked for above a base path: where
    /// such rules are heeded and the search above is switched on.
    pub fn seeks_parent_ignore(&self) -> (seeks: bool)
        ensures
            seeks == (self.skip_gitignore && self.find_parent_ignore),
    {
        self.skip_gitignore && self.find_parent_ignore
    }

    /// Takes up the `.gitignore` file that was found in `parent`, a
    /// directory above a base path, and notes it.
    pub fn set_default_gitignore(&mut self, parent: &str, lines: &Vec<String>) -> (pushed: bool)
        ensures
            pushed == old(self).skip_gitignore,
            pushed ==> {
                &&& final(self).ignore_git@.len() == old(self).ignore_git@.len() + 1
                &&& final(self).ignore_git@.drop_last() == old(self).ignore_git@
                &&& final(self).ignore_git@.last().root() == parent@
                &&& final(self).ignore_git@.last().lines() == views(lines@)
                &&& views(final(self).infos@) == views(old(self).infos@).push(parent_ignore_note(parent@))
            },
            !pushed ==> final(self).ignore_git == old(self).ignore_git && final(self).infos == old(self).infos,
            final(self).errors == old(self).errors,
            final(self).seq_no == old(self).seq_no,
            final(self).current_tx == old(self).current_tx,
            final(self).seq_beg_arrived == old(self).seq_beg_arrived,
            final(self).same_settings(old(self)),
    {
        if self.push_gitignore(parent, lines) {
            let mut note: String = PipelineFinder::note("Found .gitignore at the parent directory: ", parent);
            note.append("\n");
            let ghost was = self.infos@;
            self.infos.push(note);
            proof {
                lemma_views_push(was, note);
            }
            true
        } else {
            false
        }
    }
}

// ---------------------------------------------------------------------------------------------------------------------
// Envelopes
// ---------------------------------------------------------------------------------------------------------------------

/// The envelope `msg` on every one of `outputs` channels, in the order of
/// the channels.
pub open spec fn to_all(outputs: usize, msg: Envelope<Seq<char>>) -> Seq<(usize, Envelope<Seq<char>>)> {
    Seq::new(outputs as nat, |k: int| (k as usize, msg))
}

/// The envelopes `msgs` on the first channel.
pub open spec fn to_first(msgs: Seq<Envelope<Seq<char>>>) -> Seq<(usize, Envelope<Seq<char>>)> {
    msgs.map_values(|msg: Envelope<Seq<char>>| (0usize, msg))
}

/// What the finder sends on the envelope `msg`: the start of the sequence
/// once, on every channel; notes, errors and times as they come, on the first
/// channel; and at the end of the sequence its report on the first channel,
/// then the end on every channel, with the number behind the last one given
/// out. A base path is not answered: it is walked.
pub open spec fn finder_sends(
    started: bool,
    seq_no: usize,
    infos: Seq<Seq<char>>,
    errors: Seq<Seq<char>>,
    id: usize,
    msg: Envelope<Seq<char>>,
    busy: Duration,
    wall: Duration,
    outputs: usize,
) -> Seq<(usize, Envelope<Seq<char>>)> {
    match msg {
        Envelope::SeqDat(_, _) => Seq::empty(),
        Envelope::SeqBeg(x) => if started {
            Seq::empty()
        } else {
            to_all(outputs, Envelope::SeqBeg(x))
        },
        Envelope::SeqEnd(_) => to_first(report_envelopes(id, infos, errors, busy, wall)) + to_all(
            outputs,
            Envelope::SeqEnd(seq_no),
        ),
        _ => seq![(0usize, msg)],
    }
}

impl PipelineFinder {
    /// Appends `msg` for every channel to `send`.
    fn push_to_all(send: &mut Vec<Dispatch>, outputs: usize, x: usize, end: bool)
        ensures
            views(final(send)@) == views(old(send)@) + to_all(
                outputs,
                if end {
                    Envelope::SeqEnd(x)
                } else {
                    Envelope::SeqBeg(x)
                },
            ),
    {
        let ghost before = views(send@);
        let ghost msg: Envelope<Seq<char>> = if end {
            Envelope::SeqEnd(x)
        } else {
            Envelope::SeqBeg(x)
        };
        let mut k: usize = 0;
        assert(views(send@) =~= before + to_all(outputs, msg).take(0));
        while k < outputs
            invariant
                k <= outputs,
                msg == (if end {
                    Envelope::<Seq<char>>::SeqEnd(x)
                } else {
                    Envelope::<Seq<char>>::SeqBeg(x)
                }),
                views(send@) == before + to_all(outputs, msg).take(k as int),
            decreases outputs - k,
        {
            let ghost was = send@;
            let d = Dispatch {
                to: k,
                msg: if end {
                    PipelineInfo::SeqEnd(x)
                } else {
                    PipelineInfo::SeqBeg(x)
                },
            };
            send.push(d);
            proof {
                lemma_views_push(was, d);
                assert(before + to_all(outputs, msg).take(k as int + 1) =~= (before + to_all(outputs, msg).take(
                    k as int,
                )).push((k, msg)));
            }
            k += 1;
        }
        assert(to_all(outputs, msg).take(outputs as int) =~= to_all(outputs, msg));
    }

    /// Takes one envelope. A base path is handed back to be walked. The
    /// first start of a sequence sets the number that is due.
    pub fn handle(
        &mut self,
        id: usize,
        msg: PipelineInfo<String>,
        busy: Duration,
        wall: Duration,
        outputs: usize,
    ) -> (step: FinderStep)
        requires
            outputs > 0,
        ensures
            views(step.send@) == finder_sends(
                old(self).seq_beg_arrived,
                old(self).seq_no,
                views(old(self).infos@),
                views(old(self).errors@),
                id,
                msg@,
                busy,
                wall,
                outputs,
            ),
            step.done == msg@ is SeqEnd,
            match msg {
                PipelineInfo::SeqDat(_, p) => step.walk == Some(p),
                _ => step.walk is None,
            },
            final(self).seq_beg_arrived == (old(self).seq_beg_arrived || msg@ is SeqBeg),
            final(self).seq_no == (match msg {
                PipelineInfo::SeqBeg(x) => if old(self).seq_beg_arrived {
                    old(self).seq_no
                } else {
                    x
                },
                _ => old(self).seq_no,
            }),
            final(self).current_tx == old(self).current_tx,
            final(self).infos == old(self).infos,
            final(self).errors == old(self).errors,
            final(self).ignore_git == old(self).ignore_git,
            final(self).same_settings(old(self)),
    {
        let mut send: Vec<Dispatch> = Vec::new();
        assert(views(send@) =~= Seq::empty());
        match msg {
            PipelineInfo::SeqDat(_, p) => FinderStep { walk: Some(p), send, done: false },
            PipelineInfo::SeqBeg(x) => {
                if !self.seq_beg_arrived {
                    self.seq_no = x;
                    self.seq_beg_arrived = true;
                    PipelineFinder::push_to_all(&mut send, outputs, x, false);
                    assert(views(send@) =~= to_all(outputs, Envelope::SeqBeg(x)));
                }
                FinderStep { walk: None, send, done: false }
            },
            PipelineInfo::SeqEnd(_) => {
                let mut own: Vec<PipelineInfo<PathInfo>> = report(id, &self.infos, &self.errors, busy, wall);
                let ghost all = views(own@);
                // The report goes out on the first channel, in its order.
                assert(to_first(all) =~= views(send@) + to_first(views(own@)));
                while own.len() > 0
                    invariant
                        to_first(all) == views(send@) + to_first(views(own@)),
                    decreases own@.len(),
                {
                    let ghost was = send@;
                    let ghost rest = own@;
                    let msg: PipelineInfo<PathInfo> = own.remove(0);
                    let d = Dispatch { to: 0, msg };
                    send.push(d);
                    proof {
                        lemma_views_push(was, d);
                        assert(views(own@) =~= views(rest).drop_first());
                        assert(views(rest)[0] == msg@);
                        assert(to_first(views(rest)) =~= seq![(0usize, msg@)] + to_first(views(own@)));
                        assert(views(was) + (seq![(0usize, msg@)] + to_first(views(own@))) =~= views(send@) + to_first(
                            views(own@),
                        ));
                    }
                }
                proof {
                    assert(to_first(views(own@)) =~= Seq::empty());
                    assert(views(send@) =~= to_first(all));
                }
                PipelineFinder::push_to_all(&mut send, outputs, self.seq_no, true);
                FinderStep { walk: None, send, done: true }
            },
            other => {
                match forward::<String, PathInfo>(other) {
                    Some(m) => {
                        let d = Dispatch { to: 0, msg: m };
                        send.push(d);
                        assert(views(send@) =~= seq![(0usize, m@)]);
                    },
                    None => {},
                }
                FinderStep { walk: None, send, done: false }
            },
        }
    }
}

// ---------------------------------------------------------------------------------------------------------------------
// The order of dispatch
// ---------------------------------------------------------------------------------------------------------------------

/// The channel of the `k`-th file that is sent after the finder stood at the
/// channel `current`.
pub open spec fn channel_of(current: usize, outputs: usize, k: nat) -> usize
    decreases k,
{
    if k == 0 {
        this_channel(current, outputs)
    } else {
        next_channel(channel_of(current, outputs, (k - 1) as nat), outputs)
    }
}

/// The number of the `k`-th file that is sent after the finder stood at the
/// number `seq_no`.
pub open spec fn number_of(seq_no: usize, k: nat) -> usize
    decreases k,
{
    if k == 0 {
        seq_no
    } else {
        next_number(number_of(seq_no, (k - 1) as nat))
    }
}

/// The files that are sent go to the channels in turn, and their numbers go
/// up by one: the `k`-th file after the finder stood at the channel `current`
/// and the number `seq_no` goes to the channel `current + k`, counted round
/// the `outputs` channels, under the number `seq_no + k`.
pub proof fn law_round_robin(current: usize, seq_no: usize, outputs: usize, k: nat)
    requires
        outputs > 0,
        seq_no + k <= usize::MAX,
    ensures
        channel_of(current, outputs, k) == (this_channel(current, outputs) + k) % (outputs as int),
        number_of(seq_no, k) == seq_no + k,
    decreases k,
{
    let first = this_channel(current, outputs) as int;
    let n = outputs as int;
    if k == 0 {
        assert(first % n == first) by (nonlinear_arith)
            requires
                0 <= first < n,
        ;
    } else {
        law_round_robin(current, seq_no, outputs, (k - 1) as nat);
        let before = (first + k - 1) % n;
        assert(0 <= before < n && (first + k) % n == (if before + 1 == n {
            0
        } else {
            before + 1
        })) by (nonlinear_arith)
            requires
                before == (first + k - 1) % n,
                0 <= first,
                1 <= k,
                0 < n,
        ;
    }
}

} // verus!
