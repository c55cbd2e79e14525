//! The printer stage: what is written for the matches of one file.

use crate::console::{copy_range, in_source, line_beg, line_end, Console, ConsoleText, ConsoleTextKind};
use crate::matcher::{views_of, Match, MatchView};
use crate::pipeline::{closing_envelopes, forward, lemma_views_push, report, views, Envelope, PipelineInfo};
use crate::pipeline_matcher::{PathMatch, PathMatchView};
use crate::util::{error_words, failure_line, failure_text};
use std::io::ErrorKind;
use std::time::Duration;
use vstd::prelude::*;
use vstd::string::StringSliceAdditionalSpecFns;
use vstd::utf8::encode_utf8;

verus! {

// ---------------------------------------------------------------------------------------------------------------------
// Positions
// ---------------------------------------------------------------------------------------------------------------------

/// How many line feeds stand before `pos`.
pub open spec fn lf_count(src: Seq<u8>, pos: int) -> int
    decreases pos,
{
    if pos <= 0 {
        0
    } else {
        lf_count(src, pos - 1) + (if src[pos - 1] == 0x0a {
            1int
        } else {
            0int
        })
    }
}

/// Where the line of `pos` begins: behind the last line feed before `pos`,
/// or at the start of the source.
pub open spec fn lf_line_start(src: Seq<u8>, pos: int) -> int
    decreases pos,
{
    if pos <= 0 {
        0
    } else if src[pos - 1] == 0x0a {
        pos
    } else {
        lf_line_start(src, pos - 1)
    }
}

/// The number of the line of `pos`, the first line being line 1.
pub open spec fn line_number(src: Seq<u8>, pos: int) -> int {
    lf_count(src, pos) + 1
}

/// The place of `pos` in its line, the first byte of a line being at 1.
pub open spec fn line_offset(src: Seq<u8>, pos: int) -> int {
    pos - lf_line_start(src, pos) + 1
}

/// A running count of lines: how many line feeds stand before `pos`, and
/// where the line of `pos` begins.
pub struct LineCounter {
    pub pos: usize,
    pub count: usize,
    pub start: usize,
}

impl LineCounter {
    /// The counter describes its position in `src`.
    pub open spec fn counts(self, src: Seq<u8>) -> bool {
        &&& self.pos <= src.len()
        &&& self.count == lf_count(src, self.pos as int)
        &&& self.start == lf_line_start(src, self.pos as int)
    }

    /// The counter at the start of a source.
    pub fn new() -> (counter: Self)
        ensures
            counter.pos == 0,
            forall|src: Seq<u8>| counter.counts(src),
    {
        LineCounter { pos: 0, count: 0, start: 0 }
    }

    /// Moves the counter to `to`, going forward from where it stands, or from
    /// the start of the source where `to` lies behind it.
    pub fn seek(&mut self, src: &[u8], to: usize)
        requires
            old(self).counts(src@),
            to <= src@.len(),
        ensures
            final(self).counts(src@),
            final(self).pos == to,
    {
        proof {
            lemma_counts_in_range(src@, self.pos as int);
        }
        if to < self.pos {
            self.pos = 0;
            self.count = 0;
            self.start = 0;
        }
        while self.pos < to
            invariant
                self.counts(src@),
                self.pos <= to <= src@.len(),
                self.count <= self.pos,
                self.start <= self.pos,
            decreases to - self.pos,
        {
            if src[self.pos] == 0x0a {
                self.count += 1;
                self.start = self.pos + 1;
            }
            self.pos += 1;
        }
    }
}

/// No more line feeds stand before a position than bytes, and its line
/// begins at or before it.
pub proof fn lemma_counts_in_range(src: Seq<u8>, pos: int)
    requires
        0 <= pos,
    ensures
        0 <= lf_count(src, pos) <= pos,
        0 <= lf_line_start(src, pos) <= pos,
    decreases pos,
{
    if pos > 0 {
        lemma_counts_in_range(src, pos - 1);
    }
}

// ---------------------------------------------------------------------------------------------------------------------
// Numbers
// ---------------------------------------------------------------------------------------------------------------------

/// The decimal digits of `n` in ASCII.
pub open spec fn decimal(n: int) -> Seq<u8>
    recommends
        0 <= n,
    decreases n,
{
    if n < 10 {
        seq![(0x30 + n) as u8]
    } else {
        decimal(n / 10).push((0x30 + n % 10) as u8)
    }
}

/// Writes `n` in decimal digits.
pub fn decimal_text(n: u128) -> (text: Vec<u8>)
    ensures
        text@ == decimal(n as int),
{
    let mut digits: Vec<u8> = Vec::new();
    let mut rest: u128 = n;
    // The digits are found from the last to the first.
    while rest >= 10
        invariant
            decimal(n as int) == decimal(rest as int) + digits@,
        decreases rest,
    {
        let digit: u8 = (rest % 10) as u8 + 0x30;
        assert(decimal(rest as int) + digits@ =~= decimal(rest as int / 10) + (seq![digit] + digits@));
        digits.insert(0, digit);
        rest = rest / 10;
    }
    let digit: u8 = rest as u8 + 0x30;
    assert(decimal(rest as int) + digits@ =~= seq![digit] + digits@);
    digits.insert(0, digit);
    digits
}

// ---------------------------------------------------------------------------------------------------------------------
// What is written for one file
// ---------------------------------------------------------------------------------------------------------------------

/// The settings that decide what stands before a match.
pub struct PrintOptions {
    pub print_file: bool,
    pub print_column: bool,
    pub print_row: bool,
}

/// What stands before the line of a match at `pos`: the path and a colon,
/// the number of the line and a colon, the place in the line and a colon,
/// each where its setting asks for it.
pub open spec fn header(options: PrintOptions, path: Seq<u8>, src: Seq<u8>, pos: int) -> Seq<(ConsoleTextKind, Seq<u8>)> {
    (if options.print_file {
        seq![(ConsoleTextKind::Filename, path), (ConsoleTextKind::Filename, seq![0x3au8])]
    } else {
        Seq::empty()
    }) + (if options.print_column {
        seq![(ConsoleTextKind::Other, decimal(line_number(src, pos)).push(0x3au8))]
    } else {
        Seq::empty()
    }) + (if options.print_row {
        seq![(ConsoleTextKind::Other, decimal(line_offset(src, pos)).push(0x3au8))]
    } else {
        Seq::empty()
    })
}

/// A match with what stands before it in its line, from `from` on.
pub open spec fn match_part(src: Seq<u8>, m: MatchView, from: int) -> Seq<(ConsoleTextKind, Seq<u8>)> {
    (if from < m.beg {
        seq![(ConsoleTextKind::Text, src.subrange(from, m.beg))]
    } else {
        Seq::empty()
    }) + seq![(ConsoleTextKind::MatchText, src.subrange(m.beg, m.end))]
}

/// The rest of a line from `from` on, and a line feed.
pub open spec fn line_rest(src: Seq<u8>, from: int) -> Seq<(ConsoleTextKind, Seq<u8>)> {
    (if from < line_end(src, from) {
        seq![(ConsoleTextKind::Text, src.subrange(from, line_end(src, from)))]
    } else {
        Seq::empty()
    }) + seq![(ConsoleTextKind::Text, seq![0x0au8])]
}

/// One line for every match from the `k`-th on: the header, then the line of
/// the match with the match highlighted. A match that does not lie in the
/// source is passed over.
pub open spec fn lines_by_match(
    options: PrintOptions,
    path: Seq<u8>,
    src: Seq<u8>,
    ms: Seq<MatchView>,
    k: int,
) -> Seq<(ConsoleTextKind, Seq<u8>)>
    decreases ms.len() - k,
{
    if k < 0 || k >= ms.len() {
        Seq::empty()
    } else if in_source(ms[k], src.len() as int) {
        header(options, path, src, ms[k].beg) + match_part(src, ms[k], line_beg(src, ms[k].beg)) + line_rest(
            src,
            ms[k].end,
        ) + lines_by_match(options, path, src, ms, k + 1)
    } else {
        lines_by_match(options, path, src, ms, k + 1)
    }
}

/// One line for every run of matches, from the `k`-th on, that share a line:
/// the header, then the line with every match of the run highlighted.
/// `open` says where the line that is being written began and where the last
/// match in it ended; it is `None` before the first line. A match that does
/// not lie in the source is passed over.
pub open spec fn lines_grouped(
    options: PrintOptions,
    path: Seq<u8>,
    src: Seq<u8>,
    ms: Seq<MatchView>,
    k: int,
    open: Option<(int, int)>,
) -> Seq<(ConsoleTextKind, Seq<u8>)>
    decreases ms.len() - k,
{
    let closing = match open {
        Some((_, last_end)) => line_rest(src, last_end),
        None => Seq::empty(),
    };
    if k < 0 || k >= ms.len() {
        closing
    } else if in_source(ms[k], src.len() as int) {
        let beg = line_beg(src, ms[k].beg);
        let rest = lines_grouped(options, path, src, ms, k + 1, Some((beg, ms[k].end)));
        match open {
            Some((last_beg, last_end)) => if last_beg == beg {
                match_part(src, ms[k], last_end) + rest
            } else {
                closing + header(options, path, src, ms[k].beg) + match_part(src, ms[k], beg) + rest
            },
            None => header(options, path, src, ms[k].beg) + match_part(src, ms[k], beg) + rest,
        }
    } else {
        lines_grouped(options, path, src, ms, k + 1, open)
    }
}

/// The last stage of the search tool.
pub struct PipelinePrinter {
    pub is_color: bool,
    pub print_file: bool,
    pub print_column: bool,
    pub print_row: bool,
    pub print_line_by_match: bool,
    pub infos: Vec<String>,
    pub errors: Vec<String>,
    pub seq_beg_arrived: bool,
}

/// What the printer makes of one envelope: the record whose matches are to
/// be printed first, where there is one, then what is sent on, and whether
/// the stage has come to its end.
pub struct PrinterStep {
    pub print: Option<PathMatch>,
    pub send: Vec<PipelineInfo<()>>,
    pub done: bool,
}

impl PipelinePrinter {
    /// The settings that decide what stands before a match.
    pub open spec fn options(&self) -> PrintOptions {
        PrintOptions { print_file: self.print_file, print_column: self.print_column, print_row: self.print_row }
    }

    /// What is written for the matches `ms` of the file `path` with the
    /// content `src`.
    pub open spec fn printed(&self, path: Seq<u8>, src: Seq<u8>, ms: Seq<MatchView>) -> Seq<(ConsoleTextKind, Seq<u8>)> {
        if self.print_line_by_match {
            lines_by_match(self.options(), path, src, ms, 0)
        } else {
            lines_grouped(self.options(), path, src, ms, 0, None)
        }
    }

    /// A printer with colours and file names on, line numbers and places
    /// off, and one line for every run of matches in a line.
    pub fn new() -> (printer: Self)
        ensures
            printer.is_color,
            printer.print_file,
            !printer.print_column,
            !printer.print_row,
            !printer.print_line_by_match,
            printer.infos@.len() == 0,
            printer.errors@.len() == 0,
            !printer.seq_beg_arrived,
    {
        PipelinePrinter {
            is_color: true,
            print_file: true,
            print_column: false,
            print_row: false,
            print_line_by_match: false,
            infos: Vec::new(),
            errors: Vec::new(),
            seq_beg_arrived: false,
        }
    }

    /// Keeps the failure of the kind `e` that kept the file `path` from being
    /// read, for the report of the stage: nothing is printed for the file, and
    /// the failure goes out as an error of this stage when the sequence ends.
    pub fn keep_error(&mut self, e: ErrorKind, path: &str)
        ensures
            views(final(self).errors@) == views(old(self).errors@).push(failure_line(error_words(e), path@)),
            final(self).infos == old(self).infos,
            final(self).seq_beg_arrived == old(self).seq_beg_arrived,
            final(self).is_color == old(self).is_color,
            final(self).options() == old(self).options(),
            final(self).print_line_by_match == old(self).print_line_by_match,
    {
        let line: String = failure_text(e, path);
        let ghost before = self.errors@;
        self.errors.push(line);
        proof {
            lemma_views_push(before, line);
        }
    }

    /// Appends the header of the match at `pos` to `out`.
    fn push_header(&self, out: &mut Vec<ConsoleText>, path: &str, src: &[u8], counter: &mut LineCounter, pos: usize)
        requires
            old(counter).counts(src@),
            pos <= src@.len(),
        ensures
            final(counter).counts(src@),
            views(final(out)@) == views(old(out)@) + header(self.options(), path.spec_bytes(), src@, pos as int),
    {
        let ghost before = views(out@);
        let ghost mut added: Seq<(ConsoleTextKind, Seq<u8>)> = Seq::empty();
        assert(views(out@) =~= before + added);
        if self.print_file {
            let name: &[u8] = path.as_bytes();
            let ghost was = out@;
            out.push(ConsoleText { kind: ConsoleTextKind::Filename, text: copy_range(name, 0, name.len()) });
            proof {
                lemma_views_push(was, out@.last());
                assert(name@.subrange(0, name@.len() as int) =~= name@);
            }
            let mut colon: Vec<u8> = Vec::new();
            colon.push(0x3a);
            let ghost was = out@;
            out.push(ConsoleText { kind: ConsoleTextKind::Filename, text: colon });
            proof {
                lemma_views_push(was, out@.last());
                assert(colon@ =~= seq![0x3au8]);
                added = seq![(ConsoleTextKind::Filename, path.spec_bytes()), (ConsoleTextKind::Filename, seq![0x3au8])];
                assert(views(out@) =~= before + added);
            }
        }
        if self.print_column || self.print_row {
            counter.seek(src, pos);
            proof {
                lemma_counts_in_range(src@, pos as int);
            }
            if self.print_column {
                let mut text: Vec<u8> = decimal_text(counter.count as u128 + 1);
                text.push(0x3a);
                let ghost was = out@;
                out.push(ConsoleText { kind: ConsoleTextKind::Other, text });
                proof {
                    lemma_views_push(was, out@.last());
                    let more = seq![(ConsoleTextKind::Other, decimal(line_number(src@, pos as int)).push(0x3au8))];
                    assert(views(out@) =~= before + (added + more));
                    added = added + more;
                }
            }
            if self.print_row {
                let mut text: Vec<u8> = decimal_text((pos - counter.start) as u128 + 1);
                text.push(0x3a);
                let ghost was = out@;
                out.push(ConsoleText { kind: ConsoleTextKind::Other, text });
                proof {
                    lemma_views_push(was, out@.last());
                    let more = seq![(ConsoleTextKind::Other, decimal(line_offset(src@, pos as int)).push(0x3au8))];
                    assert(views(out@) =~= before + (added + more));
                    added = added + more;
                }
            }
        }
        assert(added =~= header(self.options(), path.spec_bytes(), src@, pos as int));
    }

    /// Appends the match `m`, with what stands before it from `from` on, to
    /// `out`.
    fn push_match_part(out: &mut Vec<ConsoleText>, src: &[u8], m: &Match, from: usize)
        requires
            in_source(m@, src@.len() as int),
            from <= src@.len(),
        ensures
            views(final(out)@) == views(old(out)@) + match_part(src@, m@, from as int),
    {
        let ghost before = views(out@);
        if from < m.beg {
            let ghost was = out@;
            out.push(ConsoleText { kind: ConsoleTextKind::Text, text: copy_range(src, from, m.beg) });
            proof {
                lemma_views_push(was, out@.last());
            }
        }
        let ghost was = out@;
        out.push(ConsoleText { kind: ConsoleTextKind::MatchText, text: copy_range(src, m.beg, m.end) });
        proof {
            lemma_views_push(was, out@.last());
            assert(views(out@) =~= before + match_part(src@, m@, from as int));
        }
    }

    /// Appends the rest of the line from `from` on, and a line feed, to
    /// `out`.
    fn push_line_rest(out: &mut Vec<ConsoleText>, src: &[u8], from: usize)
        requires
            from <= src@.len(),
        ensures
            views(final(out)@) == views(old(out)@) + line_rest(src@, from as int),
    {
        let ghost before = views(out@);
        let end: usize = Console::get_line_end(src, from);
        if from < end {
            let ghost was = out@;
            out.push(ConsoleText { kind: ConsoleTextKind::Text, text: copy_range(src, from, end) });
            proof {
                lemma_views_push(was, out@.last());
            }
        }
        let mut feed: Vec<u8> = Vec::new();
        feed.push(0x0a);
        let ghost was = out@;
        out.push(ConsoleText { kind: ConsoleTextKind::Text, text: feed });
        proof {
            lemma_views_push(was, out@.last());
            assert(feed@ =~= seq![0x0au8]);
            assert(views(out@) =~= before + line_rest(src@, from as int));
        }
    }

    /// Lists what is written for the matches of `pm`, whose file holds
    /// `src`: nothing where there is no match.
    pub fn print_match(&self, pm: &PathMatch, src: &[u8]) -> (out: Vec<ConsoleText>)
        ensures
            views(out@) == self.printed(encode_utf8(pm.path@), src@, views_of(pm.matches@)),
    {
        let path: &str = pm.path.as_str();
        let ghost name = encode_utf8(pm.path@);
        let ghost ms = views_of(pm.matches@);
        let mut out: Vec<ConsoleText> = Vec::new();
        let mut counter: LineCounter = LineCounter::new();
        assert(views(out@) =~= Seq::empty());

        if self.print_line_by_match {
            let mut k: usize = 0;
            while k < pm.matches.len()
                invariant
                    k <= pm.matches@.len(),
                    counter.counts(src@),
                    path@ == pm.path@,
                    name == encode_utf8(pm.path@),
                    ms == views_of(pm.matches@),
                    lines_by_match(self.options(), name, src@, ms, 0) == views(out@) + lines_by_match(
                        self.options(),
                        name,
                        src@,
                        ms,
                        k as int,
                    ),
                decreases pm.matches@.len() - k,
            {
                let m: &Match = &pm.matches[k];
                assert(ms[k as int] == m@);
                if m.beg <= m.end && m.end <= src.len() && m.beg < src.len() {
                    let ghost before = views(out@);
                    self.push_header(&mut out, path, src, &mut counter, m.beg);
                    let beg: usize = Console::get_line_beg(src, m.beg);
                    PipelinePrinter::push_match_part(&mut out, src, m, beg);
                    PipelinePrinter::push_line_rest(&mut out, src, m.end);
                    assert(before + (header(self.options(), name, src@, m.beg as int) + match_part(
                        src@,
                        m@,
                        line_beg(src@, m.beg as int),
                    ) + line_rest(src@, m.end as int) + lines_by_match(self.options(), name, src@, ms, k + 1))
                        =~= views(out@) + lines_by_match(self.options(), name, src@, ms, k + 1));
                }
                k += 1;
            }
            assert(views(out@) + Seq::empty() =~= views(out@));
        } else {
            let mut open: Option<(usize, usize)> = None;
            let mut k: usize = 0;
            while k < pm.matches.len()
                invariant
                    k <= pm.matches@.len(),
                    counter.counts(src@),
                    path@ == pm.path@,
                    name == encode_utf8(pm.path@),
                    ms == views_of(pm.matches@),
                    open matches Some((_, last_end)) ==> last_end <= src@.len(),
                    lines_grouped(self.options(), name, src@, ms, 0, None) == views(out@) + lines_grouped(
                        self.options(),
                        name,
                        src@,
                        ms,
                        k as int,
                        open_view(open),
                    ),
                decreases pm.matches@.len() - k,
            {
                let m: &Match = &pm.matches[k];
                assert(ms[k as int] == m@);
                if m.beg <= m.end && m.end <= src.len() && m.beg < src.len() {
                    let ghost before = views(out@);
                    let beg: usize = Console::get_line_beg(src, m.beg);
                    let ghost rest = lines_grouped(
                        self.options(),
                        name,
                        src@,
                        ms,
                        k + 1,
                        Some((beg as int, m.end as int)),
                    );
                    let same_line: bool = match open {
                        Some((last_beg, _)) => last_beg == beg,
                        None => false,
                    };
                    if same_line {
                        let last_end: usize = open.unwrap().1;
                        PipelinePrinter::push_match_part(&mut out, src, m, last_end);
                        assert(before + (match_part(src@, m@, last_end as int) + rest) =~= views(out@) + rest);
                    } else {
                        let ghost closing = match open {
                            Some((_, last_end)) => line_rest(src@, last_end as int),
                            None => Seq::empty(),
                        };
                        match open {
                            Some((_, last_end)) => {
                                PipelinePrinter::push_line_rest(&mut out, src, last_end);
                            },
                            None => {},
                        }
                        self.push_header(&mut out, path, src, &mut counter, m.beg);
                        PipelinePrinter::push_match_part(&mut out, src, m, beg);
                        assert(before + (closing + header(self.options(), name, src@, m.beg as int) + match_part(
                            src@,
                            m@,
                            beg as int,
                        ) + rest) =~= views(out@) + rest);
                        assert(before + (header(self.options(), name, src@, m.beg as int) + match_part(
                            src@,
                            m@,
                            beg as int,
                        ) + rest) =~= before + (Seq::empty() + header(self.options(), name, src@, m.beg as int)
                            + match_part(src@, m@, beg as int) + rest));
                    }
                    open = Some((beg, m.end));
                }
                k += 1;
            }
            let ghost before = views(out@);
            match open {
                Some((_, last_end)) => {
                    PipelinePrinter::push_line_rest(&mut out, src, last_end);
                },
                None => {
                    assert(before + Seq::empty() =~= before);
                },
            }
        }
        out
    }

    /// What the printer with the identity `id` sends on the envelope `msg`,
    /// where its times are `busy` and `wall`.
    pub open spec fn sends(&self, id: usize, msg: Envelope<PathMatchView>, busy: Duration, wall: Duration) -> Seq<
        Envelope<()>,
    > {
        terminal_sends(self.seq_beg_arrived, views(self.infos@), views(self.errors@), id, msg, busy, wall)
    }

    /// Takes one envelope. A record is handed back to be printed where it
    /// has matches; for a record without matches there is nothing to print and
    /// no file to open. The start of the sequence is sent on once, notes, errors and times are sent on as
    /// they come, and the end of the sequence is sent on behind the report of
    /// this stage.
    pub fn handle(&mut self, id: usize, msg: PipelineInfo<PathMatch>, busy: Duration, wall: Duration) -> (step:
        PrinterStep)
        ensures
            views(step.send@) == old(self).sends(id, msg@, busy, wall),
            step.done == msg@ is SeqEnd,
            match msg {
                PipelineInfo::SeqDat(_, pm) => if pm.matches@.len() > 0 {
                    step.print == Some(pm)
                } else {
                    step.print is None
                },
                _ => step.print is None,
            },
            final(self).seq_beg_arrived == (old(self).seq_beg_arrived || msg@ is SeqBeg),
            final(self).infos == old(self).infos,
            final(self).errors == old(self).errors,
            final(self).is_color == old(self).is_color,
            final(self).options() == old(self).options(),
            final(self).print_line_by_match == old(self).print_line_by_match,
    {
        let mut send: Vec<PipelineInfo<()>> = Vec::new();
        assert(views(send@) =~= Seq::empty());
        match msg {
            PipelineInfo::SeqDat(x, pm) => {
                send.push(PipelineInfo::SeqDat(x, ()));
                assert(views(send@) =~= seq![Envelope::SeqDat(x, ())]);
                if pm.matches.len() > 0 {
                    PrinterStep { print: Some(pm), send, done: false }
                } else {
                    PrinterStep { print: None, send, done: false }
                }
            },
            PipelineInfo::SeqBeg(x) => {
                if !self.seq_beg_arrived {
                    self.seq_beg_arrived = true;
                    send.push(PipelineInfo::SeqBeg(x));
                    assert(views(send@) =~= seq![Envelope::SeqBeg(x)]);
                }
                PrinterStep { print: None, send, done: false }
            },
            PipelineInfo::SeqEnd(x) => {
                let mut send: Vec<PipelineInfo<()>> = report(id, &self.infos, &self.errors, busy, wall);
                let ghost before = send@;
                send.push(PipelineInfo::SeqEnd(x));
                proof {
                    lemma_views_push(before, send@.last());
                }
                PrinterStep { print: None, send, done: true }
            },
            other => {
                match forward::<PathMatch, ()>(other) {
                    Some(m) => {
                        send.push(m);
                        assert(views(send@) =~= seq![m@]);
                    },
                    None => {},
                }
                PrinterStep { print: None, send, done: false }
            },
        }
    }
}

/// The line that is being written, as integers.
pub open spec fn open_view(open: Option<(usize, usize)>) -> Option<(int, int)> {
    match open {
        Some((beg, end)) => Some((beg as int, end as int)),
        None => None,
    }
}

/// What a last stage sends on the envelope `msg`: a record is answered with
/// its number, the start of the sequence is sent on once, notes, errors and
/// times are sent on as they come, and the end of the sequence is sent on
/// behind the report of the stage.
pub open spec fn terminal_sends(
    started: bool,
    infos: Seq<Seq<char>>,
    errors: Seq<Seq<char>>,
    id: usize,
    msg: Envelope<PathMatchView>,
    busy: Duration,
    wall: Duration,
) -> Seq<Envelope<()>> {
    match msg {
        Envelope::SeqDat(x, _) => seq![Envelope::SeqDat(x, ())],
        Envelope::SeqBeg(x) => if started {
            Seq::empty()
        } else {
            seq![Envelope::SeqBeg(x)]
        },
        Envelope::SeqEnd(x) => closing_envelopes(id, infos, errors, busy, wall, x),
        Envelope::MsgInfo(from, text) => seq![Envelope::MsgInfo(from, text)],
        Envelope::MsgErr(from, text) => seq![Envelope::MsgErr(from, text)],
        Envelope::MsgTime(from, t0, t1) => seq![Envelope::MsgTime(from, t0, t1)],
    }
}

} // verus!
