//! The replacer stage: which matches are replaced, by what, and what the
//! rewritten file holds.

use crate::console::{copy_range, in_source, shown_line, Console, ConsoleText, ConsoleTextKind};
use crate::matcher::{views_of, Match, MatchView};
use crate::matcher_laws::matches_exact;
use crate::pipeline::{forward, lemma_views_push, report, views, Envelope, PipelineInfo};
use crate::pipeline_matcher::{PathMatch, PathMatchView};
use crate::pipeline_printer::{
    decimal, decimal_text, lemma_counts_in_range, line_number, line_offset, terminal_sends, LineCounter,
};
use crate::util::{error_words, failure_line, failure_text};
use regex::Regex;
use std::io::ErrorKind;
use std::time::Duration;
use vstd::prelude::*;
use vstd::string::StringSliceAdditionalSpecFns;
use vstd::utf8::{decode_utf8, encode_utf8, valid_utf8};

verus! {

broadcast use vstd::utf8::encode_utf8_decode_utf8;

// ---------------------------------------------------------------------------------------------------------------------
// Expansion of a template
// ---------------------------------------------------------------------------------------------------------------------

/// What the regex crate makes of the replacement template `template` for
/// the text `found`, matched once more with the pattern `keyword`: `None`
/// where the pattern does not compile or does not match.
pub uninterp spec fn regex_expansion(keyword: Seq<char>, found: Seq<char>, template: Seq<char>) -> Option<Seq<char>>;

/// Compiles `keyword` with `Regex::new`, takes the first match with its
/// groups from `found` with `Regex::captures`, and lets `Captures::expand`
/// fill in the references of `template`. The result is the regex crate's and
/// is named, not described.
#[verifier::external_body]
fn regex_expand(keyword: &str, found: &str, template: &str) -> (r: Option<String>)
    ensures
        match r {
            Some(text) => regex_expansion(keyword@, found@, template@) == Some(text@),
            None => regex_expansion(keyword@, found@, template@) is None,
        },
{
    let re = match Regex::new(keyword) {
        Ok(re) => re,
        Err(_) => return None,
    };
    let caps = re.captures(found)?;
    let mut dst = String::new();
    caps.expand(template, &mut dst);
    Some(dst)
}

// ---------------------------------------------------------------------------------------------------------------------
// The rewritten content
// ---------------------------------------------------------------------------------------------------------------------

/// The match can be taken up by a rewriting that stands at `from`: it lies in
/// the source and begins at or behind `from`.
pub open spec fn takes_up(m: MatchView, from: int, len: int) -> bool {
    0 <= from <= m.beg <= m.end <= len
}

/// The content of a rewritten file from the position `from` of the source
/// on, the matches from the `k`-th on still to come: the bytes up to a match,
/// then the piece that stands for the match, and so on, and at last the rest
/// of the source. A match that cannot be taken up is passed over.
pub open spec fn rewritten(src: Seq<u8>, ms: Seq<MatchView>, pieces: Seq<Seq<u8>>, k: int, from: int) -> Seq<u8>
    decreases ms.len() - k,
{
    if k < 0 || k >= ms.len() {
        if 0 <= from <= src.len() {
            src.subrange(from, src.len() as int)
        } else {
            Seq::empty()
        }
    } else if takes_up(ms[k], from, src.len() as int) {
        src.subrange(from, ms[k].beg) + pieces[k] + rewritten(src, ms, pieces, k + 1, ms[k].end)
    } else {
        rewritten(src, ms, pieces, k + 1, from)
    }
}

/// Where every piece is the bytes of its match, the rewritten content is the
/// source.
pub proof fn lemma_rewritten_same(src: Seq<u8>, ms: Seq<MatchView>, pieces: Seq<Seq<u8>>, k: int, from: int)
    requires
        0 <= k,
        0 <= from <= src.len(),
        pieces.len() == ms.len(),
        forall|i: int|
            0 <= i < ms.len() && 0 <= (#[trigger] ms[i]).beg <= ms[i].end <= src.len() ==> pieces[i] == src.subrange(
                ms[i].beg,
                ms[i].end,
            ),
    ensures
        rewritten(src, ms, pieces, k, from) == src.subrange(from, src.len() as int),
    decreases ms.len() - k,
{
    if k >= ms.len() {
    } else if takes_up(ms[k], from, src.len() as int) {
        lemma_rewritten_same(src, ms, pieces, k + 1, ms[k].end);
        assert(src.subrange(from, ms[k].beg) + src.subrange(ms[k].beg, ms[k].end) + src.subrange(
            ms[k].end,
            src.len() as int,
        ) =~= src.subrange(from, src.len() as int));
    } else {
        lemma_rewritten_same(src, ms, pieces, k + 1, from);
    }
}

// ---------------------------------------------------------------------------------------------------------------------
// PipelineReplacer
// ---------------------------------------------------------------------------------------------------------------------

/// What the user answered to the question whether a match is replaced.
#[derive(Debug, Clone, Copy, PartialEq, Eq, Structural)]
pub enum Answer {
    /// Replace this match.
    Replace,
    /// Leave this match as it is.
    Keep,
    /// Give up this file and end the run.
    Quit,
    /// The key says nothing: ask again.
    Again,
}

/// The last stage of the replace tool.
pub struct PipelineReplacer {
    pub is_color: bool,
    pub is_interactive: bool,
    pub preserve_time: bool,
    pub print_file: bool,
    pub print_column: bool,
    pub print_row: bool,
    pub infos: Vec<String>,
    pub errors: Vec<String>,
    pub seq_beg_arrived: bool,
    pub all_replace: bool,
    pub keyword: Vec<u8>,
    pub replacement: Vec<u8>,
    pub regex: bool,
}

/// What the replacer makes of one envelope: the record whose file is to be
/// rewritten first, where there is one, then what is sent on, and whether the
/// stage has come to its end.
pub struct ReplacerStep {
    pub replace: Option<PathMatch>,
    pub send: Vec<PipelineInfo<()>>,
    pub done: bool,
}

/// The answer that the key `key` gives.
pub open spec fn answer_of(key: u8) -> Answer {
    if key == 0x59 || key == 0x79 || key == 0x20 || key == 0x0a {
        Answer::Replace  // Y y space newline
    } else if key == 0x4e || key == 0x6e {
        Answer::Keep  // N n
    } else if key == 0x41 || key == 0x61 {
        Answer::Replace  // A a
    } else if key == 0x51 || key == 0x71 {
        Answer::Quit  // Q q
    } else {
        Answer::Again
    }
}

/// The key asks for all further matches to be replaced unasked.
pub open spec fn asks_for_all(key: u8) -> bool {
    key == 0x41 || key == 0x61
}

/// The bytes that stand for a match whose bytes are `found`, where it is
/// replaced: the replacement as it is, or, in regex mode, the replacement
/// with its references filled in; `None` where that cannot be done.
pub open spec fn replacement_of(regex: bool, keyword: Seq<u8>, replacement: Seq<u8>, found: Seq<u8>) -> Option<Seq<u8>> {
    if !regex {
        Some(replacement)
    } else if valid_utf8(found) && valid_utf8(keyword) && valid_utf8(replacement) {
        match regex_expansion(decode_utf8(keyword), decode_utf8(found), decode_utf8(replacement)) {
            Some(text) => Some(encode_utf8(text)),
            None => None,
        }
    } else {
        None
    }
}

/// The piece that stands for the match `m` in the rewritten file: what
/// replaces it where it is to be replaced and that can be done, else its own
/// bytes.
pub open spec fn piece_of(
    regex: bool,
    keyword: Seq<u8>,
    replacement: Seq<u8>,
    src: Seq<u8>,
    m: MatchView,
    replace: bool,
) -> Seq<u8> {
    if 0 <= m.beg <= m.end <= src.len() {
        let found = src.subrange(m.beg, m.end);
        if replace {
            match replacement_of(regex, keyword, replacement, found) {
                Some(piece) => piece,
                None => found,
            }
        } else {
            found
        }
    } else {
        Seq::empty()
    }
}

/// Whether the `k`-th match is to be replaced: as `replace` says, and
/// where it says nothing, yes.
pub open spec fn decision(replace: Seq<bool>, k: int) -> bool {
    if 0 <= k < replace.len() {
        replace[k]
    } else {
        true
    }
}

impl PipelineReplacer {
    /// A replacer of `keyword` by `replacement`, interactive, with colours
    /// and file names on, that has replaced nothing yet.
    pub fn new(keyword: &[u8], replacement: &[u8], regex: bool) -> (replacer: Self)
        ensures
            replacer.is_color,
            replacer.is_interactive,
            !replacer.preserve_time,
            replacer.print_file,
            !replacer.print_column,
            !replacer.print_row,
            replacer.infos@.len() == 0,
            replacer.errors@.len() == 0,
            !replacer.seq_beg_arrived,
            !replacer.all_replace,
            replacer.keyword@ == keyword@,
            replacer.replacement@ == replacement@,
            replacer.regex == regex,
    {
        let keyword_copy: Vec<u8> = copy_range(keyword, 0, keyword.len());
        let replacement_copy: Vec<u8> = copy_range(replacement, 0, replacement.len());
        assert(keyword_copy@ =~= keyword@);
        assert(replacement_copy@ =~= replacement@);
        PipelineReplacer {
            is_color: true,
            is_interactive: true,
            preserve_time: false,
            print_file: true,
            print_column: false,
            print_row: false,
            infos: Vec::new(),
            errors: Vec::new(),
            seq_beg_arrived: false,
            all_replace: false,
            keyword: keyword_copy,
            replacement: replacement_copy,
            regex,
        }
    }

    /// Keeps the failure of the kind `e` that ended the rewriting of the file
    /// `path`, for the report of the stage: the file stays as it was, and the
    /// failure goes out as an error of this stage when the sequence ends.
    pub fn keep_error(&mut self, e: ErrorKind, path: &str)
        ensures
            views(final(self).errors@) == views(old(self).errors@).push(failure_line(error_words(e), path@)),
            final(self).infos == old(self).infos,
            final(self).seq_beg_arrived == old(self).seq_beg_arrived,
            final(self).all_replace == old(self).all_replace,
            final(self).is_color == old(self).is_color,
            final(self).is_interactive == old(self).is_interactive,
            final(self).preserve_time == old(self).preserve_time,
            final(self).print_file == old(self).print_file,
            final(self).print_column == old(self).print_column,
            final(self).print_row == old(self).print_row,
            final(self).keyword == old(self).keyword,
            final(self).replacement == old(self).replacement,
            final(self).regex == old(self).regex,
    {
        let line: String = failure_text(e, path);
        let ghost before = self.errors@;
        self.errors.push(line);
        proof {
            lemma_views_push(before, line);
        }
    }

    /// Whether the user is asked before a match is replaced: in interactive
    /// mode, until the user has asked for all.
    pub fn asks(&self) -> (asks: bool)
        ensures
            asks == (self.is_interactive && !self.all_replace),
    {
        self.is_interactive && !self.all_replace
    }

    /// Takes the key that the user pressed. `A` and `a` replace this match
    /// and every further one unasked.
    pub fn answer(&mut self, key: u8) -> (answer: Answer)
        ensures
            answer == answer_of(key),
            final(self).all_replace == (old(self).all_replace || asks_for_all(key)),
            final(self).is_color == old(self).is_color,
            final(self).is_interactive == old(self).is_interactive,
            final(self).preserve_time == old(self).preserve_time,
            final(self).print_file == old(self).print_file,
            final(self).print_column == old(self).print_column,
            final(self).print_row == old(self).print_row,
            final(self).infos == old(self).infos,
            final(self).errors == old(self).errors,
            final(self).seq_beg_arrived == old(self).seq_beg_arrived,
            final(self).keyword == old(self).keyword,
            final(self).replacement == old(self).replacement,
            final(self).regex == old(self).regex,
    {
        if key == 0x59 || key == 0x79 || key == 0x20 || key == 0x0a {
            Answer::Replace
        } else if key == 0x4e || key == 0x6e {
            Answer::Keep
        } else if key == 0x41 || key == 0x61 {
            self.all_replace = true;
            Answer::Replace
        } else if key == 0x51 || key == 0x71 {
            Answer::Quit
        } else {
            Answer::Again
        }
    }

    /// What is written behind the question when the user has pressed `key`:
    /// the key and a line feed, or the line feed alone where that is the key.
    pub fn echo(key: u8) -> (out: ConsoleText)
        ensures
            out.kind == ConsoleTextKind::Other,
            out.text@ == (if key == 0x0a {
                seq![0x0au8]
            } else {
                seq![key, 0x0au8]
            }),
    {
        let mut text: Vec<u8> = Vec::new();
        if key != 0x0a {
            text.push(key);
        }
        text.push(0x0a);
        ConsoleText { kind: ConsoleTextKind::Other, text }
    }

    /// In regex mode, the replacement with its references filled in from
    /// `org`, the bytes of a match: `None` where `org`, the keyword or the
    /// replacement is not UTF-8, or the keyword does not match `org`.
    pub fn get_regex_replacement(&self, org: &[u8]) -> (piece: Option<Vec<u8>>)
        ensures
            match piece {
                Some(bytes) => replacement_of(true, self.keyword@, self.replacement@, org@) == Some(bytes@),
                None => replacement_of(true, self.keyword@, self.replacement@, org@) is None,
            },
    {
        let org_str: &str = match core::str::from_utf8(org) {
            Ok(x) => x,
            Err(_) => return None,
        };
        let keyword: &str = match core::str::from_utf8(self.keyword.as_slice()) {
            Ok(x) => x,
            Err(_) => return None,
        };
        let replacement: &str = match core::str::from_utf8(self.replacement.as_slice()) {
            Ok(x) => x,
            Err(_) => return None,
        };
        match regex_expand(keyword, org_str, replacement) {
            Some(text) => {
                let bytes: &[u8] = text.as_str().as_bytes();
                let piece: Vec<u8> = copy_range(bytes, 0, bytes.len());
                assert(piece@ =~= bytes@);
                Some(piece)
            },
            None => None,
        }
    }

    /// The pieces that stand for the matches `ms` of `src` in the rewritten
    /// file, the matches replaced as `replace` says.
    pub open spec fn pieces(&self, src: Seq<u8>, ms: Seq<MatchView>, replace: Seq<bool>) -> Seq<Seq<u8>> {
        Seq::new(
            ms.len(),
            |k: int| piece_of(self.regex, self.keyword@, self.replacement@, src, ms[k], decision(replace, k)),
        )
    }

    /// Builds the piece that stands for the match `m`.
    fn piece(&self, src: &[u8], m: &Match, replace: bool) -> (piece: Vec<u8>)
        requires
            m.beg <= m.end <= src@.len(),
        ensures
            piece@ == piece_of(self.regex, self.keyword@, self.replacement@, src@, m@, replace),
    {
        let found: Vec<u8> = copy_range(src, m.beg, m.end);
        if !replace {
            found
        } else if self.regex {
            match self.get_regex_replacement(found.as_slice()) {
                Some(piece) => piece,
                None => found,
            }
        } else {
            let piece: Vec<u8> = copy_range(self.replacement.as_slice(), 0, self.replacement.len());
            assert(piece@ =~= self.replacement@);
            piece
        }
    }

    /// Builds the content of the rewritten file of `src`: every match of
    /// `matches` that is to be replaced gives way to its replacement, all
    /// else stays. `replace` says for each match, in order, whether it is
    /// replaced; a match for which it says nothing is.
    pub fn rewrite(&self, src: &[u8], matches: &Vec<Match>, replace: &Vec<bool>) -> (out: Vec<u8>)
        ensures
            out@ == rewritten(src@, views_of(matches@), self.pieces(src@, views_of(matches@), replace@), 0, 0),
    {
        let ghost ms = views_of(matches@);
        let ghost pieces = self.pieces(src@, ms, replace@);
        let mut out: Vec<u8> = Vec::new();
        let mut from: usize = 0;
        let mut k: usize = 0;
        while k < matches.len()
            invariant
                k <= matches@.len(),
                from <= src@.len(),
                ms == views_of(matches@),
                pieces == self.pieces(src@, ms, replace@),
                rewritten(src@, ms, pieces, 0, 0) == out@ + rewritten(src@, ms, pieces, k as int, from as int),
            decreases matches@.len() - k,
        {
            let m: &Match = &matches[k];
            assert(ms[k as int] == m@);
            if from <= m.beg && m.beg <= m.end && m.end <= src.len() {
                let ghost before = out@;
                let replace_this: bool = if k < replace.len() {
                    replace[k]
                } else {
                    true
                };
                let mut head: Vec<u8> = copy_range(src, from, m.beg);
                let mut piece: Vec<u8> = self.piece(src, m, replace_this);
                assert(piece@ == pieces[k as int]);
                out.append(&mut head);
                out.append(&mut piece);
                assert(before + (src@.subrange(from as int, m.beg as int) + pieces[k as int] + rewritten(
                    src@,
                    ms,
                    pieces,
                    k + 1,
                    m.end as int,
                )) =~= out@ + rewritten(src@, ms, pieces, k + 1, m.end as int));
                from = m.end;
            }
            k += 1;
        }
        let mut tail: Vec<u8> = copy_range(src, from, src.len());
        out.append(&mut tail);
        out
    }
}

/// What is shown of a match before the user is asked: the path with a
/// colon and a space, the number of the line and a colon, the place in the
/// line and a colon, each where its setting asks for it, then the line of the
/// match with the match highlighted.
pub open spec fn shown_before_asking(
    print_file: bool,
    print_column: bool,
    print_row: bool,
    path: Seq<u8>,
    src: Seq<u8>,
    m: MatchView,
) -> Seq<(ConsoleTextKind, Seq<u8>)> {
    (if print_file {
        seq![(ConsoleTextKind::Filename, path), (ConsoleTextKind::Other, seq![0x3au8, 0x20u8])]
    } else {
        Seq::empty()
    }) + (if print_column {
        seq![(ConsoleTextKind::Other, decimal(line_number(src, m.beg)).push(0x3au8))]
    } else {
        Seq::empty()
    }) + (if print_row {
        seq![(ConsoleTextKind::Other, decimal(line_offset(src, m.beg)).push(0x3au8))]
    } else {
        Seq::empty()
    }) + shown_line(src, m.beg, m.end, src.subrange(m.beg, m.end))
}

impl PipelineReplacer {
    /// Lists what is shown of the match `m` in the file `path` with the
    /// content `src` before the user is asked about it.
    pub fn show(&self, path: &str, src: &[u8], m: &Match, counter: &mut LineCounter) -> (out: Vec<ConsoleText>)
        requires
            in_source(m@, src@.len() as int),
            old(counter).counts(src@),
        ensures
            final(counter).counts(src@),
            views(out@) == shown_before_asking(
                self.print_file,
                self.print_column,
                self.print_row,
                path.spec_bytes(),
                src@,
                m@,
            ),
    {
        let mut out: Vec<ConsoleText> = Vec::new();
        let ghost mut added: Seq<(ConsoleTextKind, Seq<u8>)> = Seq::empty();
        assert(views(out@) =~= added);
        if self.print_file {
            let name: &[u8] = path.as_bytes();
            let ghost was = out@;
            out.push(ConsoleText { kind: ConsoleTextKind::Filename, text: copy_range(name, 0, name.len()) });
            proof {
                lemma_views_push(was, out@.last());
                assert(name@.subrange(0, name@.len() as int) =~= name@);
            }
            let mut colon: Vec<u8> = Vec::new();
            colon.push(0x3a);
            colon.push(0x20);
            let ghost was = out@;
            out.push(ConsoleText { kind: ConsoleTextKind::Other, text: colon });
            proof {
                lemma_views_push(was, out@.last());
                assert(colon@ =~= seq![0x3au8, 0x20u8]);
                added = seq![
                    (ConsoleTextKind::Filename, path.spec_bytes()),
                    (ConsoleTextKind::Other, seq![0x3au8, 0x20u8]),
                ];
                assert(views(out@) =~= added);
            }
        }
        if self.print_column || self.print_row {
            counter.seek(src, m.beg);
            proof {
                lemma_counts_in_range(src@, m.beg as int);
            }
            if self.print_column {
                let mut text: Vec<u8> = decimal_text(counter.count as u128 + 1);
                text.push(0x3a);
                let ghost was = out@;
                out.push(ConsoleText { kind: ConsoleTextKind::Other, text });
                proof {
                    lemma_views_push(was, out@.last());
                    let more = seq![(ConsoleTextKind::Other, decimal(line_number(src@, m.beg as int)).push(0x3au8))];
                    assert(views(out@) =~= added + more);
                    added = added + more;
                }
            }
            if self.print_row {
                let mut text: Vec<u8> = decimal_text((m.beg - counter.start) as u128 + 1);
                text.push(0x3a);
                let ghost was = out@;
                out.push(ConsoleText { kind: ConsoleTextKind::Other, text });
                proof {
                    lemma_views_push(was, out@.last());
                    let more = seq![(ConsoleTextKind::Other, decimal(line_offset(src@, m.beg as int)).push(0x3au8))];
                    assert(views(out@) =~= added + more);
                    added = added + more;
                }
            }
        }
        let mut line: Vec<ConsoleText> = Console::write_match_line(src, m);
        let ghost was = out@;
        let ghost line_views = views(line@);
        proof {
            crate::pipeline::lemma_views_add(was, line@);
        }
        out.append(&mut line);
        assert(views(out@) =~= added + line_views);
        out
    }

    /// The question that the user is asked about a match.
    pub fn question() -> (out: ConsoleText)
        ensures
            out.kind == ConsoleTextKind::Other,
            out.text@ == "Replace keyword? [Y]es/[n]o/[a]ll/[q]uit: ".spec_bytes(),
    {
        let text: &[u8] = "Replace keyword? [Y]es/[n]o/[a]ll/[q]uit: ".as_bytes();
        let copy: Vec<u8> = copy_range(text, 0, text.len());
        assert(copy@ =~= text@);
        ConsoleText { kind: ConsoleTextKind::Other, text: copy }
    }

    /// What the replacer with the identity `id` sends on the envelope `msg`,
    /// where its times are `busy` and `wall`.
    pub open spec fn sends(&self, id: usize, msg: Envelope<PathMatchView>, busy: Duration, wall: Duration) -> Seq<
        Envelope<()>,
    > {
        terminal_sends(self.seq_beg_arrived, views(self.infos@), views(self.errors@), id, msg, busy, wall)
    }

    /// Takes one envelope. A record is handed back for its file to be
    /// rewritten where it has matches; the file of a record without matches is
    /// left alone. The start of the sequence is sent on once, notes, errors
    /// and times are sent on as they come, and the end of the sequence is sent
    /// on behind the report of this stage.
    pub fn handle(&mut self, id: usize, msg: PipelineInfo<PathMatch>, busy: Duration, wall: Duration) -> (step:
        ReplacerStep)
        ensures
            views(step.send@) == old(self).sends(id, msg@, busy, wall),
            step.done == msg@ is SeqEnd,
            match msg {
                PipelineInfo::SeqDat(_, pm) => if pm.matches@.len() > 0 {
                    step.replace == Some(pm)
                } else {
                    step.replace is None
                },
                _ => step.replace is None,
            },
            final(self).seq_beg_arrived == (old(self).seq_beg_arrived || msg@ is SeqBeg),
            final(self).all_replace == old(self).all_replace,
            final(self).is_color == old(self).is_color,
            final(self).is_interactive == old(self).is_interactive,
            final(self).preserve_time == old(self).preserve_time,
            final(self).print_file == old(self).print_file,
            final(self).print_column == old(self).print_column,
            final(self).print_row == old(self).print_row,
            final(self).infos == old(self).infos,
            final(self).errors == old(self).errors,
            final(self).keyword == old(self).keyword,
            final(self).replacement == old(self).replacement,
            final(self).regex == old(self).regex,
    {
        let mut send: Vec<PipelineInfo<()>> = Vec::new();
        assert(views(send@) =~= Seq::empty());
        match msg {
            PipelineInfo::SeqDat(x, pm) => {
                send.push(PipelineInfo::SeqDat(x, ()));
                assert(views(send@) =~= seq![Envelope::SeqDat(x, ())]);
                if pm.matches.len() > 0 {
                    ReplacerStep { replace: Some(pm), send, done: false }
                } else {
                    ReplacerStep { replace: None, send, done: false }
                }
            },
            PipelineInfo::SeqBeg(x) => {
                if !self.seq_beg_arrived {
                    self.seq_beg_arrived = true;
                    send.push(PipelineInfo::SeqBeg(x));
                    assert(views(send@) =~= seq![Envelope::SeqBeg(x)]);
                }
                ReplacerStep { replace: None, send, done: false }
            },
            PipelineInfo::SeqEnd(x) => {
                let mut send: Vec<PipelineInfo<()>> = report(id, &self.infos, &self.errors, busy, wall);
                let ghost before = send@;
                send.push(PipelineInfo::SeqEnd(x));
                proof {
                    lemma_views_push(before, send@.last());
                }
                ReplacerStep { replace: None, send, done: true }
            },
            other => {
                match forward::<PathMatch, ()>(other) {
                    Some(m) => {
                        send.push(m);
                        assert(views(send@) =~= seq![m@]);
                    },
                    None => {},
                }
                ReplacerStep { replace: None, send, done: false }
            },
        }
    }
}

// ---------------------------------------------------------------------------------------------------------------------
// Laws
// ---------------------------------------------------------------------------------------------------------------------

/// Replacing a keyword by itself changes no byte: where the replacer is not
/// in regex mode, its replacement is its keyword and every match covers the
/// keyword byte for byte, the rewritten content is the source, whichever
/// matches are replaced.
pub proof fn law_replacing_keyword_by_itself(
    replacer: PipelineReplacer,
    src: Seq<u8>,
    ms: Seq<MatchView>,
    replace: Seq<bool>,
)
    requires
        !replacer.regex,
        replacer.replacement@ == replacer.keyword@,
        matches_exact(src, replacer.keyword@, ms),
    ensures
        rewritten(src, ms, replacer.pieces(src, ms, replace), 0, 0) == src,
{
    let pieces = replacer.pieces(src, ms, replace);
    assert forall|i: int| 0 <= i < ms.len() && 0 <= (#[trigger] ms[i]).beg <= ms[i].end <= src.len() implies pieces[i]
        == src.subrange(ms[i].beg, ms[i].end) by {}
    lemma_rewritten_same(src, ms, pieces, 0, 0);
    assert(src.subrange(0, src.len() as int) =~= src);
}

/// Where no match is replaced, the rewritten content is the source.
pub proof fn law_keeping_all_keeps_source(replacer: PipelineReplacer, src: Seq<u8>, ms: Seq<MatchView>, replace: Seq<bool>)
    requires
        replace.len() >= ms.len(),
        forall|k: int| 0 <= k < ms.len() ==> !replace[k],
    ensures
        rewritten(src, ms, replacer.pieces(src, ms, replace), 0, 0) == src,
{
    let pieces = replacer.pieces(src, ms, replace);
    assert forall|i: int| 0 <= i < ms.len() && 0 <= (#[trigger] ms[i]).beg <= ms[i].end <= src.len() implies pieces[i]
        == src.subrange(ms[i].beg, ms[i].end) by {}
    lemma_rewritten_same(src, ms, pieces, 0, 0);
    assert(src.subrange(0, src.len() as int) =~= src);
}

} // verus!
