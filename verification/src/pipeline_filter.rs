//! A filter between a path finder and the matchers: files under the
//! directory of a version control system are taken out.

use crate::pipeline::{lemma_views_push, views};
use crate::util::{debug_text, quoted, PipelineInfo};
use std::path::Path;
use std::time::Duration;
use vstd::prelude::*;
use vstd::string::StringExecFns;

verus! {

/// The directory that `path` lies in (`Path::parent`); `None` where the
/// path ends in a root or is empty.
pub uninterp spec fn path_parent(path: Seq<char>) -> Option<Seq<char>>;

/// The components of `path`, each as it is written (`Path::components`).
pub uninterp spec fn path_components(path: Seq<char>) -> Seq<Seq<char>>;

/// Asks `Path::parent` for the directory that `path` lies in. What std
/// makes of a text as a path is its own and is named, not described.
#[verifier::external_body]
fn parent_of(path: &str) -> (dir: Option<String>)
    ensures
        match dir {
            Some(d) => path_parent(path@) == Some(d@),
            None => path_parent(path@) is None,
        },
{
    Path::new(path).parent().map(|dir| dir.to_string_lossy().into_owned())
}

/// Lists what `Path::components` yields for `path`, each component as text.
#[verifier::external_body]
fn components_of(path: &str) -> (names: Vec<String>)
    ensures
        views(names@) == path_components(path@),
{
    Path::new(path).components().map(|c| c.as_os_str().to_string_lossy().into_owned()).collect()
}

/// The name of a directory in which a version control system keeps its
/// data.
pub open spec fn is_vcs_name(name: Seq<char>) -> bool {
    name == ".hg"@ || name == ".git"@ || name == ".svn"@ || name == ".bzr"@
}

/// The file `path` lies under the directory of a version control system:
/// one component of the directory it lies in is such a name.
pub open spec fn under_vcs(path: Seq<char>) -> bool {
    match path_parent(path) {
        Some(dir) => exists|i: int|
            0 <= i < path_components(dir).len() && is_vcs_name(#[trigger] path_components(dir)[i]),
        None => false,
    }
}

/// The note that a file was taken out.
pub open spec fn skipped_note(path: Seq<char>) -> Seq<char> {
    "Skipped: "@ + debug_text(path) + " ( vcs file )\n"@
}

/// Finds the files under the directory of a version control system.
pub trait PipelineFilter {
    /// The filter lets the file `path` pass.
    spec fn passes(&self, path: Seq<char>) -> bool;

    fn filter_path(&mut self, path: String) -> (kept: Option<String>)
        ensures
            match kept {
                Some(p) => p == path && old(self).passes(path@),
                None => !old(self).passes(path@),
            },
    ;
}

/// A filter that knows the directories of version control systems.
pub struct SimplePipelineFilter {
    pub skip_vcs: bool,
    pub print_skipped: bool,
    pub infos: Vec<String>,
    pub errors: Vec<String>,
}

/// What the filter makes of one envelope: what is sent on, and whether the
/// stage has come to its end.
pub struct FilterStep {
    pub send: Vec<PipelineInfo<String>>,
    pub done: bool,
}

impl SimplePipelineFilter {
    /// A filter that takes out what lies under version control
    /// directories, and notes nothing.
    pub fn new() -> (filter: Self)
        ensures
            filter.skip_vcs,
            !filter.print_skipped,
            filter.infos@.len() == 0,
            filter.errors@.len() == 0,
    {
        SimplePipelineFilter { skip_vcs: true, print_skipped: false, infos: Vec::new(), errors: Vec::new() }
    }

    /// Tells the name of a version control directory.
    fn names_vcs(name: &String) -> (vcs: bool)
        ensures
            vcs == is_vcs_name(name@),
    {
        let hg: String = ".hg".to_owned();
        let git: String = ".git".to_owned();
        let svn: String = ".svn".to_owned();
        let bzr: String = ".bzr".to_owned();
        *name == hg || *name == git || *name == svn || *name == bzr
    }

    /// Tells whether the file `path` lies under a version control directory.
    pub fn lies_under_vcs(path: &str) -> (under: bool)
        ensures
            under == under_vcs(path@),
    {
        match parent_of(path) {
            Some(dir) => {
                let names: Vec<String> = components_of(dir.as_str());
                let mut i: usize = 0;
                while i < names.len()
                    invariant
                        i <= names@.len(),
                        path_parent(path@) == Some(dir@),
                        views(names@) == path_components(dir@),
                        forall|j: int| 0 <= j < i ==> !is_vcs_name(#[trigger] path_components(dir@)[j]),
                    decreases names@.len() - i,
                {
                    assert(views(names@)[i as int] == names@[i as int]@);
                    if SimplePipelineFilter::names_vcs(&names[i]) {
                        assert(views(names@).len() == names@.len());
                        let ghost parts = path_components(dir@);
                        assert(0 <= i < parts.len() && is_vcs_name(parts[i as int]));
                        assert(path_parent(path@)->0 == dir@);
                        assert(under_vcs(path@));
                        return true;
                    }
                    i += 1;
                }
                false
            },
            None => false,
        }
    }
}

impl PipelineFilter for SimplePipelineFilter {
    open spec fn passes(&self, path: Seq<char>) -> bool {
        !(self.skip_vcs && under_vcs(path))
    }

    fn filter_path(&mut self, path: String) -> (kept: Option<String>)
        ensures
            views(final(self).infos@) == (if old(self).skip_vcs && under_vcs(path@) && old(self).print_skipped {
                views(old(self).infos@).push(skipped_note(path@))
            } else {
                views(old(self).infos@)
            }),
            final(self).errors == old(self).errors,
            final(self).skip_vcs == old(self).skip_vcs,
            final(self).print_skipped == old(self).print_skipped,
    {
        if self.skip_vcs {
            if SimplePipelineFilter::lies_under_vcs(path.as_str()) {
                if self.print_skipped {
                    let mut note: String = String::from_str("Skipped: ");
                    let shown: String = quoted(path.as_str());
                    note.append(shown.as_str());
                    note.append(" ( vcs file )\n");
                    let ghost was = self.infos@;
                    self.infos.push(note);
                    proof {
                        lemma_views_push(was, note);
                    }
                }
                return None;
            }
        }
        Some(path)
    }
}

impl SimplePipelineFilter {
    /// Takes one envelope: a file is sent on where it passes; a start of
    /// sequence clears the notes and errors and is sent on; at the end of the
    /// sequence the notes, the errors and the times go out before it; all else
    /// is sent on as it came.
    pub fn filter(&mut self, msg: PipelineInfo<String>, busy: Duration, wall: Duration) -> (step: FilterStep)
        ensures
            step.done == msg is End,
            match msg {
                PipelineInfo::Dat(p) => if old(self).passes(p@) {
                    step.send@.len() == 1 && step.send@[0] == PipelineInfo::Dat(p)
                } else {
                    step.send@.len() == 0
                },
                PipelineInfo::Beg(x) => {
                    &&& step.send@.len() == 1
                    &&& step.send@[0] == PipelineInfo::<String>::Beg(x)
                    &&& final(self).infos@.len() == 0
                    &&& final(self).errors@.len() == 0
                },
                PipelineInfo::End(x) => {
                    &&& step.send@.len() == old(self).infos@.len() + old(self).errors@.len() + 2
                    &&& forall|i: int|
                        0 <= i < old(self).infos@.len() ==> #[trigger] step.send@[i] == PipelineInfo::<String>::Info(
                            old(self).infos@[i],
                        )
                    &&& forall|i: int|
                        0 <= i < old(self).errors@.len() ==> #[trigger] step.send@[old(self).infos@.len() + i]
                            == PipelineInfo::<String>::Error(old(self).errors@[i])
                    &&& step.send@[step.send@.len() - 2] == PipelineInfo::<String>::Time(busy, wall)
                    &&& step.send@[step.send@.len() - 1] == PipelineInfo::<String>::End(x)
                },
                other => step.send@.len() == 1 && step.send@[0] == other,
            },
            views(final(self).infos@) == (match msg {
                PipelineInfo::Dat(p) => if old(self).skip_vcs && under_vcs(p@) && old(self).print_skipped {
                    views(old(self).infos@).push(skipped_note(p@))
                } else {
                    views(old(self).infos@)
                },
                PipelineInfo::Beg(_) => Seq::empty(),
                _ => views(old(self).infos@),
            }),
            views(final(self).errors@) == (match msg {
                PipelineInfo::Beg(_) => Seq::empty(),
                _ => views(old(self).errors@),
            }),
            final(self).skip_vcs == old(self).skip_vcs,
            final(self).print_skipped == old(self).print_skipped,
    {
        let mut send: Vec<PipelineInfo<String>> = Vec::new();
        match msg {
            PipelineInfo::Dat(p) => {
                match self.filter_path(p) {
                    Some(kept) => {
                        send.push(PipelineInfo::Dat(kept));
                    },
                    None => {},
                }
                FilterStep { send, done: false }
            },
            PipelineInfo::Beg(x) => {
                self.infos = Vec::new();
                self.errors = Vec::new();
                send.push(PipelineInfo::Beg(x));
                FilterStep { send, done: false }
            },
            PipelineInfo::End(x) => {
                let mut i: usize = 0;
                while i < self.infos.len()
                    invariant
                        i <= self.infos@.len(),
                        send@.len() == i,
                        forall|k: int| 0 <= k < i ==> #[trigger] send@[k] == PipelineInfo::<String>::Info(self.infos@[k]),
                    decreases self.infos@.len() - i,
                {
                    send.push(PipelineInfo::Info(self.infos[i].clone()));
                    i += 1;
                }
                let mut j: usize = 0;
                while j < self.errors.len()
                    invariant
                        j <= self.errors@.len(),
                        send@.len() == self.infos@.len() + j,
                        forall|k: int|
                            0 <= k < self.infos@.len() ==> #[trigger] send@[k] == PipelineInfo::<String>::Info(
                                self.infos@[k],
                            ),
                        forall|k: int|
                            0 <= k < j ==> #[trigger] send@[self.infos@.len() + k] == PipelineInfo::<String>::Error(
                                self.errors@[k],
                            ),
                    decreases self.errors@.len() - j,
                {
                    send.push(PipelineInfo::Error(self.errors[j].clone()));
                    j += 1;
                }
                send.push(PipelineInfo::Time(busy, wall));
                send.push(PipelineInfo::End(x));
                FilterStep { send, done: true }
            },
            other => {
                send.push(other);
                FilterStep { send, done: false }
            },
        }
    }
}

} // verus!
