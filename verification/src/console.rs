//! What is written to the terminal, and how: the kinds of text, the line
//! around a match, and when the colour changes.

use crate::matcher::{Match, MatchView};
use crate::pipeline::{lemma_views_push, views};
use vstd::prelude::*;

verus! {

/// The kinds of text that the tools write.
#[derive(Debug, Clone, Copy, PartialEq, Eq, Structural)]
pub enum ConsoleTextKind {
    Filename,
    Text,
    MatchText,
    Other,
    Info,
    Error,
}

/// The colours in which the kinds of text are written.
#[derive(Debug, Clone, Copy, PartialEq, Eq, Structural)]
pub enum ConsoleColor {
    Black,
    White,
    BrightRed,
    BrightGreen,
    BrightYellow,
    BrightCyan,
}

/// The two streams of a terminal.
#[derive(Debug, Clone, Copy, PartialEq, Eq, Structural)]
pub enum ConsoleStream {
    Stdout,
    Stderr,
}

/// The colour of a kind of text.
pub open spec fn color_of(kind: ConsoleTextKind) -> ConsoleColor {
    match kind {
        ConsoleTextKind::Filename => ConsoleColor::BrightGreen,
        ConsoleTextKind::Text => ConsoleColor::White,
        ConsoleTextKind::MatchText => ConsoleColor::BrightYellow,
        ConsoleTextKind::Other => ConsoleColor::BrightCyan,
        ConsoleTextKind::Info => ConsoleColor::BrightCyan,
        ConsoleTextKind::Error => ConsoleColor::BrightRed,
    }
}

/// The stream of a kind of text: notes and errors go to stderr, all else to
/// stdout.
pub open spec fn stream_of(kind: ConsoleTextKind) -> ConsoleStream {
    match kind {
        ConsoleTextKind::Info => ConsoleStream::Stderr,
        ConsoleTextKind::Error => ConsoleStream::Stderr,
        _ => ConsoleStream::Stdout,
    }
}

impl ConsoleTextKind {
    pub fn color(self) -> (color: ConsoleColor)
        ensures
            color == color_of(self),
    {
        match self {
            ConsoleTextKind::Filename => ConsoleColor::BrightGreen,
            ConsoleTextKind::Text => ConsoleColor::White,
            ConsoleTextKind::MatchText => ConsoleColor::BrightYellow,
            ConsoleTextKind::Other => ConsoleColor::BrightCyan,
            ConsoleTextKind::Info => ConsoleColor::BrightCyan,
            ConsoleTextKind::Error => ConsoleColor::BrightRed,
        }
    }

    pub fn stream(self) -> (stream: ConsoleStream)
        ensures
            stream == stream_of(self),
    {
        match self {
            ConsoleTextKind::Info => ConsoleStream::Stderr,
            ConsoleTextKind::Error => ConsoleStream::Stderr,
            _ => ConsoleStream::Stdout,
        }
    }
}

// ---------------------------------------------------------------------------------------------------------------------
// Pieces of text
// ---------------------------------------------------------------------------------------------------------------------

/// One piece of text of one kind, as bytes of the source or of a message.
#[derive(Debug)]
pub struct ConsoleText {
    pub kind: ConsoleTextKind,
    pub text: Vec<u8>,
}

impl View for ConsoleText {
    type V = (ConsoleTextKind, Seq<u8>);

    open spec fn view(&self) -> (ConsoleTextKind, Seq<u8>) {
        (self.kind, self.text@)
    }
}

/// Copies the bytes of `src` from `beg` up to `end`.
pub fn copy_range(src: &[u8], beg: usize, end: usize) -> (out: Vec<u8>)
    requires
        beg <= end <= src@.len(),
    ensures
        out@ == src@.subrange(beg as int, end as int),
{
    let mut out: Vec<u8> = Vec::new();
    let mut i: usize = beg;
    while i < end
        invariant
            beg <= i <= end <= src@.len(),
            out@ == src@.subrange(beg as int, i as int),
        decreases end - i,
    {
        out.push(src[i]);
        assert(out@ =~= src@.subrange(beg as int, i + 1));
        i += 1;
    }
    out
}

// ---------------------------------------------------------------------------------------------------------------------
// Lines
// ---------------------------------------------------------------------------------------------------------------------

/// A byte that ends a line.
pub open spec fn is_line_break(b: u8) -> bool {
    b == 0x0d || b == 0x0a
}

/// Where the line of the byte at `pos` begins: behind the nearest line break
/// at or before `pos`, the first byte of the source left aside, or at the
/// start of the source.
pub open spec fn line_beg(src: Seq<u8>, pos: int) -> int
    recommends
        0 <= pos < src.len(),
    decreases pos,
{
    if pos <= 0 {
        0
    } else if is_line_break(src[pos]) {
        pos + 1
    } else {
        line_beg(src, pos - 1)
    }
}

/// Where the line that holds `pos` ends: at the nearest line break at or
/// behind `pos`, or at the end of the source.
pub open spec fn line_end(src: Seq<u8>, pos: int) -> int
    recommends
        0 <= pos,
    decreases src.len() - pos,
{
    if pos >= src.len() {
        src.len() as int
    } else if is_line_break(src[pos]) {
        pos
    } else {
        line_end(src, pos + 1)
    }
}

/// The line around the match `[beg, end)` with `shown` in the place of the
/// match: what stands before the match in its line, the highlighted bytes,
/// what stands behind the match, and a line feed.
pub open spec fn shown_line(src: Seq<u8>, beg: int, end: int, shown: Seq<u8>) -> Seq<(ConsoleTextKind, Seq<u8>)> {
    let from = line_beg(src, beg);
    let to = line_end(src, end);
    let before = if from < beg {
        seq![(ConsoleTextKind::Text, src.subrange(from, beg))]
    } else {
        Seq::empty()
    };
    let behind = if end < to {
        seq![(ConsoleTextKind::Text, src.subrange(end, to))]
    } else {
        Seq::empty()
    };
    before + seq![(ConsoleTextKind::MatchText, shown)] + behind + seq![(ConsoleTextKind::Text, seq![0x0au8])]
}

/// A match that lies in a source of `len` bytes.
pub open spec fn in_source(m: MatchView, len: int) -> bool {
    0 <= m.beg <= m.end <= len && m.beg < len
}

/// The terminal of the tools, as far as it decides: which colour is set on
/// which stream.
pub struct Console {
    pub is_color: bool,
    pub color_out: ConsoleColor,
    pub color_err: ConsoleColor,
    pub colored_out: bool,
    pub colored_err: bool,
}

/// How one piece of text is written: on which stream, and which colour is
/// set before it where the colour changes.
#[derive(Debug)]
pub struct ConsoleWrite {
    pub stream: ConsoleStream,
    pub set_color: Option<ConsoleColor>,
}

impl Console {
    /// A console with colours on and none set yet.
    pub fn new() -> (console: Self)
        ensures
            console.is_color,
            console.color_out == ConsoleColor::Black,
            console.color_err == ConsoleColor::Black,
            !console.colored_out,
            !console.colored_err,
    {
        Console {
            is_color: true,
            color_out: ConsoleColor::Black,
            color_err: ConsoleColor::Black,
            colored_out: false,
            colored_err: false,
        }
    }

    /// Decides how a text of the kind `kind` is written: on which stream, and
    /// whether the colour of that stream has to be set first. The colour is
    /// set only where colours are on and the stream has another colour.
    pub fn write(&mut self, kind: ConsoleTextKind) -> (how: ConsoleWrite)
        ensures
            how.stream == stream_of(kind),
            final(self).is_color == old(self).is_color,
            stream_of(kind) == ConsoleStream::Stdout ==> {
                &&& how.set_color == (if old(self).is_color && old(self).color_out != color_of(kind) {
                    Some(color_of(kind))
                } else {
                    None
                })
                &&& final(self).color_out == (if old(self).is_color {
                    color_of(kind)
                } else {
                    old(self).color_out
                })
                &&& final(self).colored_out == (old(self).colored_out || how.set_color is Some)
                &&& final(self).color_err == old(self).color_err
                &&& final(self).colored_err == old(self).colored_err
            },
            stream_of(kind) == ConsoleStream::Stderr ==> {
                &&& how.set_color == (if old(self).is_color && old(self).color_err != color_of(kind) {
                    Some(color_of(kind))
                } else {
                    None
                })
                &&& final(self).color_err == (if old(self).is_color {
                    color_of(kind)
                } else {
                    old(self).color_err
                })
                &&& final(self).colored_err == (old(self).colored_err || how.set_color is Some)
                &&& final(self).color_out == old(self).color_out
                &&& final(self).colored_out == old(self).colored_out
            },
    {
        let color: ConsoleColor = kind.color();
        match kind.stream() {
            ConsoleStream::Stdout => {
                let mut set_color: Option<ConsoleColor> = None;
                if self.is_color {
                    if self.color_out != color {
                        set_color = Some(color);
                        self.color_out = color;
                        self.colored_out = true;
                    }
                }
                ConsoleWrite { stream: ConsoleStream::Stdout, set_color }
            },
            ConsoleStream::Stderr => {
                let mut set_color: Option<ConsoleColor> = None;
                if self.is_color {
                    if self.color_err != color {
                        set_color = Some(color);
                        self.color_err = color;
                        self.colored_err = true;
                    }
                }
                ConsoleWrite { stream: ConsoleStream::Stderr, set_color }
            },
        }
    }

    /// Finds where the line of the byte at `pos` begins.
    pub fn get_line_beg(src: &[u8], pos: usize) -> (beg: usize)
        requires
            pos < src@.len(),
        ensures
            beg == line_beg(src@, pos as int),
            beg <= pos + 1,
    {
        let mut beg: usize = pos;
        while beg > 0
            invariant
                beg <= pos < src@.len(),
                line_beg(src@, pos as int) == line_beg(src@, beg as int),
            decreases beg,
        {
            if src[beg] == 0x0d || src[beg] == 0x0a {
                return beg + 1;
            }
            beg -= 1;
        }
        beg
    }

    /// Finds where the line that holds `pos` ends.
    pub fn get_line_end(src: &[u8], pos: usize) -> (end: usize)
        requires
            pos <= src@.len(),
        ensures
            end == line_end(src@, pos as int),
            pos <= end <= src@.len(),
    {
        let mut end: usize = pos;
        while end < src.len()
            invariant
                pos <= end <= src@.len(),
                line_end(src@, pos as int) == line_end(src@, end as int),
            decreases src@.len() - end,
        {
            if src[end] == 0x0d || src[end] == 0x0a {
                return end;
            }
            end += 1;
        }
        end
    }

    /// The pieces of the line around the match `m`, with `shown` in the
    /// place of the match.
    fn line_with(src: &[u8], m: &Match, shown: Vec<u8>) -> (out: Vec<ConsoleText>)
        requires
            in_source(m@, src@.len() as int),
        ensures
            views(out@) == shown_line(src@, m.beg as int, m.end as int, shown@),
    {
        let beg: usize = Console::get_line_beg(src, m.beg);
        let end: usize = Console::get_line_end(src, m.end);
        let mut out: Vec<ConsoleText> = Vec::new();
        assert(views(out@) =~= Seq::empty());
        if beg < m.beg {
            let ghost before = out@;
            out.push(ConsoleText { kind: ConsoleTextKind::Text, text: copy_range(src, beg, m.beg) });
            proof {
                lemma_views_push(before, out@.last());
            }
        }
        let ghost before = out@;
        out.push(ConsoleText { kind: ConsoleTextKind::MatchText, text: shown });
        proof {
            lemma_views_push(before, out@.last());
        }
        if m.end < end {
            let ghost before = out@;
            out.push(ConsoleText { kind: ConsoleTextKind::Text, text: copy_range(src, m.end, end) });
            proof {
                lemma_views_push(before, out@.last());
            }
        }
        let mut feed: Vec<u8> = Vec::new();
        feed.push(0x0a);
        let ghost before = out@;
        out.push(ConsoleText { kind: ConsoleTextKind::Text, text: feed });
        proof {
            lemma_views_push(before, out@.last());
            assert(feed@ =~= seq![0x0au8]);
            assert(views(out@) =~= shown_line(src@, m.beg as int, m.end as int, shown@));
        }
        out
    }

    /// The pieces of the line around the match `m`, the match highlighted.
    pub fn write_match_line(src: &[u8], m: &Match) -> (out: Vec<ConsoleText>)
        requires
            in_source(m@, src@.len() as int),
        ensures
            views(out@) == shown_line(
                src@,
                m.beg as int,
                m.end as int,
                src@.subrange(m.beg as int, m.end as int),
            ),
    {
        Console::line_with(src, m, copy_range(src, m.beg, m.end))
    }

    /// The pieces of the line around the match `m`, with `rep` highlighted in
    /// the place of the match.
    pub fn write_replace_line(src: &[u8], m: &Match, rep: &[u8]) -> (out: Vec<ConsoleText>)
        requires
            in_source(m@, src@.len() as int),
        ensures
            views(out@) == shown_line(src@, m.beg as int, m.end as int, rep@),
    {
        let shown: Vec<u8> = copy_range(rep, 0, rep.len());
        assert(shown@ =~= rep@);
        Console::line_with(src, m, shown)
    }
}

} // verus!
