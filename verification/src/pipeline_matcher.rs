//! The matcher stage: from a found file and its bytes to the list of its
//! matches.

use crate::console::copy_range;
use crate::matcher::{views_of, Match, MatchView, Matcher};
use crate::pipeline::{closing_envelopes, forward, lemma_views_push, report, views, Envelope, PipelineInfo};
use crate::pipeline_finder::PathInfo;
use crate::util::{debug_text, error_words, failure_line, failure_text, quoted};
use std::io::ErrorKind;
use std::time::Duration;
use vstd::prelude::*;
use vstd::string::StringExecFns;

verus! {

/// A path with the matches found in its file; no match where the file was
/// scanned without a hit, skipped or unreadable.
#[derive(Debug)]
pub struct PathMatch {
    pub path: String,
    pub matches: Vec<Match>,
}

/// What a `PathMatch` stands for.
pub struct PathMatchView {
    pub path: Seq<char>,
    pub matches: Seq<MatchView>,
}

impl View for PathMatch {
    type V = PathMatchView;

    open spec fn view(&self) -> PathMatchView {
        PathMatchView { path: self.path@, matches: views_of(self.matches@) }
    }
}

impl Clone for PathMatch {
    fn clone(&self) -> (r: PathMatch)
        ensures
            r@ == self@,
    {
        let mut matches: Vec<Match> = Vec::new();
        let mut i: usize = 0;
        while i < self.matches.len()
            invariant
                i <= self.matches@.len(),
                views_of(matches@) == views_of(self.matches@).take(i as int),
            decreases self.matches@.len() - i,
        {
            let ghost before = matches@;
            let m: Match = self.matches[i].clone();
            matches.push(m);
            assert(views_of(matches@) =~= views_of(self.matches@).take(i as int).push(m@));
            assert(views_of(self.matches@).take(i + 1) =~= views_of(self.matches@).take(i as int).push(
                self.matches@[i as int]@,
            ));
            i += 1;
        }
        assert(views_of(self.matches@).take(i as int) =~= views_of(self.matches@));
        PathMatch { path: self.path.clone(), matches }
    }
}

// ---------------------------------------------------------------------------------------------------------------------
// PipelineMatcher
// ---------------------------------------------------------------------------------------------------------------------

/// The source looks binary: one of its first `check_bytes` bytes is at most
/// 0x08.
pub open spec fn looks_binary(src: Seq<u8>, check_bytes: int) -> bool {
    exists|i: int| 0 <= i < check_bytes && i < src.len() && #[trigger] src[i] <= 0x08
}

/// The note that a binary file was skipped.
pub open spec fn skipped_binary_note(path: Seq<char>) -> Seq<char> {
    "Skip (binary)    : "@ + debug_text(path)
}

/// A matcher stage: one of the workers between the finder and the sorter.
pub struct PipelineMatcher<T: Matcher> {
    pub skip_binary: bool,
    pub print_skipped: bool,
    pub binary_check_bytes: usize,
    pub mmap_bytes: u64,
    pub infos: Vec<String>,
    pub errors: Vec<String>,
    pub seq_beg_arrived: bool,
    pub matcher: T,
    pub keyword: Vec<u8>,
}

/// What a matcher stage makes of one envelope: the record whose file is to
/// be read and searched, where there is one, what is sent on, and whether the
/// stage has come to its end.
pub struct MatcherStep {
    pub search: Option<(usize, PathInfo)>,
    pub send: Vec<PipelineInfo<PathMatch>>,
    pub done: bool,
}

/// What a matcher stage sends on the envelope `msg` at once: nothing for a
/// record, whose answer follows when its file has been searched; the start of
/// the sequence once; notes, errors and times as they come; the end of the
/// sequence behind the report of the stage.
pub open spec fn matcher_sends(
    started: bool,
    infos: Seq<Seq<char>>,
    errors: Seq<Seq<char>>,
    id: usize,
    msg: Envelope<Seq<char>>,
    busy: Duration,
    wall: Duration,
) -> Seq<Envelope<PathMatchView>> {
    match msg {
        Envelope::SeqDat(_, _) => Seq::empty(),
        Envelope::SeqBeg(x) => if started {
            Seq::empty()
        } else {
            seq![Envelope::SeqBeg(x)]
        },
        Envelope::SeqEnd(x) => closing_envelopes(id, infos, errors, busy, wall, x),
        Envelope::MsgInfo(from, text) => seq![Envelope::MsgInfo(from, text)],
        Envelope::MsgErr(from, text) => seq![Envelope::MsgErr(from, text)],
        Envelope::MsgTime(from, t0, t1) => seq![Envelope::MsgTime(from, t0, t1)],
    }
}

impl<T: Matcher> PipelineMatcher<T> {
    /// A stage that searches `keyword` with `matcher`, skips binary files
    /// unnoted, looks at 256 bytes to tell them, and maps files above 1 MiB.
    pub fn new(matcher: T, keyword: &[u8]) -> (stage: Self)
        ensures
            stage.skip_binary,
            !stage.print_skipped,
            stage.binary_check_bytes == 256,
            stage.mmap_bytes == 1024 * 1024,
            stage.infos@.len() == 0,
            stage.errors@.len() == 0,
            !stage.seq_beg_arrived,
            stage.matcher == matcher,
            stage.keyword@ == keyword@,
    {
        let copy: Vec<u8> = copy_range(keyword, 0, keyword.len());
        assert(copy@ =~= keyword@);
        PipelineMatcher {
            skip_binary: true,
            print_skipped: false,
            binary_check_bytes: 256,
            mmap_bytes: 1024 * 1024,
            infos: Vec::new(),
            errors: Vec::new(),
            seq_beg_arrived: false,
            matcher,
            keyword: copy,
        }
    }

    /// Whether a file of `size` bytes is mapped into memory rather than read:
    /// where it is larger than the threshold.
    pub fn uses_mmap(&self, size: u64) -> (mapped: bool)
        ensures
            mapped == (size > self.mmap_bytes),
    {
        size > self.mmap_bytes
    }

    /// Tells a binary file by its first bytes.
    pub fn is_binary(&self, src: &[u8]) -> (binary: bool)
        ensures
            binary == looks_binary(src@, self.binary_check_bytes as int),
    {
        let check_bytes: usize = if self.binary_check_bytes < src.len() {
            self.binary_check_bytes
        } else {
            src.len()
        };
        let mut i: usize = 0;
        while i < check_bytes
            invariant
                i <= check_bytes <= src@.len(),
                check_bytes <= self.binary_check_bytes,
                check_bytes == self.binary_check_bytes || check_bytes == src@.len(),
                forall|j: int| 0 <= j < i ==> src@[j] > 0x08,
            decreases check_bytes - i,
        {
            if src[i] <= 0x08 {
                return true;
            }
            i += 1;
        }
        false
    }

    /// The matches that the stage reports for a file: none where the file
    /// could not be read or is skipped as binary, else what the matcher finds.
    pub open spec fn reported(&self, file: Result<Seq<u8>, ErrorKind>) -> Seq<MatchView> {
        match file {
            Ok(src) => if self.skip_binary && looks_binary(src, self.binary_check_bytes as int) {
                Seq::empty()
            } else {
                self.matcher.found(src, self.keyword@)
            },
            Err(_) => Seq::empty(),
        }
    }

    /// Makes the record of one file. `file` is the content of the file, or
    /// the kind of the error that kept it from being read: the error is kept
    /// for the report and the file counts as one without matches. A binary
    /// file is skipped, with a note where skipped files are noted.
    pub fn search_path(&mut self, info: PathInfo, file: Result<&[u8], ErrorKind>) -> (ret: PathMatch)
        requires
            old(self).matcher.valid(),
        ensures
            ret@.path == info@,
            ret@.matches == old(self).reported(
                match file {
                    Ok(src) => Ok(src@),
                    Err(e) => Err(e),
                },
            ),
            views(final(self).errors@) == (match file {
                Ok(_) => views(old(self).errors@),
                Err(e) => views(old(self).errors@).push(failure_line(error_words(e), info@)),
            }),
            views(final(self).infos@) == (match file {
                Ok(src) => if old(self).skip_binary && looks_binary(src@, old(self).binary_check_bytes as int)
                    && old(self).print_skipped {
                    views(old(self).infos@).push(skipped_binary_note(info@))
                } else {
                    views(old(self).infos@)
                },
                Err(_) => views(old(self).infos@),
            }),
            final(self).skip_binary == old(self).skip_binary,
            final(self).print_skipped == old(self).print_skipped,
            final(self).binary_check_bytes == old(self).binary_check_bytes,
            final(self).mmap_bytes == old(self).mmap_bytes,
            final(self).seq_beg_arrived == old(self).seq_beg_arrived,
            final(self).matcher == old(self).matcher,
            final(self).keyword == old(self).keyword,
    {
        let none: Vec<Match> = Vec::new();
        assert(views_of(none@) =~= Seq::<MatchView>::empty());
        match file {
            Ok(src) => {
                if self.skip_binary && self.is_binary(src) {
                    if self.print_skipped {
                        let mut note: String = String::from_str("Skip (binary)    : ");
                        let shown: String = quoted(info.path.as_str());
                        note.append(shown.as_str());
                        let ghost before = self.infos@;
                        self.infos.push(note);
                        proof {
                            lemma_views_push(before, note);
                        }
                    }
                    PathMatch { path: info.path, matches: none }
                } else {
                    let ret: Vec<Match> = self.matcher.search(src, self.keyword.as_slice());
                    PathMatch { path: info.path, matches: ret }
                }
            },
            Err(e) => {
                let line: String = failure_text(e, info.path.as_str());
                let ghost before = self.errors@;
                self.errors.push(line);
                proof {
                    lemma_views_push(before, line);
                }
                PathMatch { path: info.path, matches: none }
            },
        }
    }

    /// Makes the answer to the record that came under the number `x`: the
    /// record of its file under the same number.
    pub fn search_record(&mut self, x: usize, info: PathInfo, file: Result<&[u8], ErrorKind>) -> (answer: PipelineInfo<
        PathMatch,
    >)
        requires
            old(self).matcher.valid(),
        ensures
            answer@ == Envelope::SeqDat(
                x,
                PathMatchView {
                    path: info@,
                    matches: old(self).reported(
                        match file {
                            Ok(src) => Ok(src@),
                            Err(e) => Err(e),
                        },
                    ),
                },
            ),
            final(self).matcher == old(self).matcher,
    {
        let ret: PathMatch = self.search_path(info, file);
        PipelineInfo::SeqDat(x, ret)
    }

    /// What the stage with the identity `id` sends on the envelope `msg` at
    /// once, where its times are `busy` and `wall`.
    pub open spec fn sends(&self, id: usize, msg: Envelope<Seq<char>>, busy: Duration, wall: Duration) -> Seq<
        Envelope<PathMatchView>,
    > {
        matcher_sends(self.seq_beg_arrived, views(self.infos@), views(self.errors@), id, msg, busy, wall)
    }

    /// Takes one envelope. A record is handed back with its number, for its
    /// file to be read and searched.
    pub fn handle(&mut self, id: usize, msg: PipelineInfo<PathInfo>, busy: Duration, wall: Duration) -> (step:
        MatcherStep)
        ensures
            views(step.send@) == old(self).sends(id, msg@, busy, wall),
            step.done == msg@ is SeqEnd,
            match msg {
                PipelineInfo::SeqDat(x, p) => step.search == Some((x, p)),
                _ => step.search is None,
            },
            final(self).seq_beg_arrived == (old(self).seq_beg_arrived || msg@ is SeqBeg),
            final(self).skip_binary == old(self).skip_binary,
            final(self).print_skipped == old(self).print_skipped,
            final(self).binary_check_bytes == old(self).binary_check_bytes,
            final(self).mmap_bytes == old(self).mmap_bytes,
            final(self).infos == old(self).infos,
            final(self).errors == old(self).errors,
            final(self).matcher == old(self).matcher,
            final(self).keyword == old(self).keyword,
    {
        let mut send: Vec<PipelineInfo<PathMatch>> = Vec::new();
        assert(views(send@) =~= Seq::empty());
        match msg {
            PipelineInfo::SeqDat(x, p) => MatcherStep { search: Some((x, p)), send, done: false },
            PipelineInfo::SeqBeg(x) => {
                if !self.seq_beg_arrived {
                    self.seq_beg_arrived = true;
                    send.push(PipelineInfo::SeqBeg(x));
                    assert(views(send@) =~= seq![Envelope::SeqBeg(x)]);
                }
                MatcherStep { search: None, send, done: false }
            },
            PipelineInfo::SeqEnd(x) => {
                let mut send: Vec<PipelineInfo<PathMatch>> = report(id, &self.infos, &self.errors, busy, wall);
                let ghost before = send@;
                send.push(PipelineInfo::SeqEnd(x));
                proof {
                    lemma_views_push(before, send@.last());
                }
                MatcherStep { search: None, send, done: true }
            },
            other => {
                match forward::<PathInfo, PathMatch>(other) {
                    Some(m) => {
                        send.push(m);
                        assert(views(send@) =~= seq![m@]);
                    },
                    None => {},
                }
                MatcherStep { search: None, send, done: false }
            },
        }
    }
}

} // verus!
