use amber::console::{Console, ConsoleColor, ConsoleStream, ConsoleText, ConsoleTextKind};
use amber::matcher::{Match, Matcher, QuickSearchMatcher};
use amber::pipeline::PipelineInfo;
use amber::pipeline_matcher::PathMatch;
use amber::pipeline_printer::{decimal_text, LineCounter, PipelinePrinter};
use std::io::ErrorKind;
use std::time::Duration;

fn m(beg: usize, end: usize) -> Match {
    Match { beg, end, sub_match: Vec::new() }
}

fn text(out: &[ConsoleText]) -> String {
    let mut all = Vec::new();
    for t in out {
        all.extend_from_slice(&t.text);
    }
    String::from_utf8(all).unwrap()
}

fn pieces(out: Vec<ConsoleText>) -> Vec<(ConsoleTextKind, String)> {
    out.into_iter().map(|t| (t.kind, String::from_utf8(t.text).unwrap())).collect()
}

#[test]
fn basic_search_output() {
    let src = b"foo bar foo".to_vec();
    let matches = QuickSearchMatcher::new().search(&src, b"foo");
    let pm = PathMatch { path: "a.txt".to_string(), matches };
    let mut printer = PipelinePrinter::new();
    printer.print_line_by_match = true;
    printer.print_column = true;
    printer.print_row = true;
    let out = printer.print_match(&pm, &src);
    assert_eq!(text(&out), "a.txt:1:1:foo bar foo\na.txt:1:9:foo bar foo\n");
    let other = PathMatch { path: "b.txt".to_string(), matches: QuickSearchMatcher::new().search(b"baz", b"foo") };
    assert!(printer.print_match(&other, b"baz").is_empty());
}

#[test]
fn one_line_for_every_match() {
    let src = b"foo bar foo".to_vec();
    let pm = PathMatch { path: "a.txt".to_string(), matches: vec![m(0, 3), m(8, 11)] };
    let mut printer = PipelinePrinter::new();
    printer.print_line_by_match = true;
    assert_eq!(
        pieces(printer.print_match(&pm, &src)),
        vec![
            (ConsoleTextKind::Filename, "a.txt".to_string()),
            (ConsoleTextKind::Filename, ":".to_string()),
            (ConsoleTextKind::MatchText, "foo".to_string()),
            (ConsoleTextKind::Text, " bar foo".to_string()),
            (ConsoleTextKind::Text, "\n".to_string()),
            (ConsoleTextKind::Filename, "a.txt".to_string()),
            (ConsoleTextKind::Filename, ":".to_string()),
            (ConsoleTextKind::Text, "foo bar ".to_string()),
            (ConsoleTextKind::MatchText, "foo".to_string()),
            (ConsoleTextKind::Text, "\n".to_string()),
        ]
    );
}

#[test]
fn matches_of_one_line_share_a_line() {
    let src = b"foo bar foo\nnone\nfoo!".to_vec();
    let pm = PathMatch { path: "a.txt".to_string(), matches: vec![m(0, 3), m(8, 11), m(17, 20)] };
    let mut printer = PipelinePrinter::new();
    printer.print_column = true;
    printer.print_row = true;
    assert_eq!(
        pieces(printer.print_match(&pm, &src)),
        vec![
            (ConsoleTextKind::Filename, "a.txt".to_string()),
            (ConsoleTextKind::Filename, ":".to_string()),
            (ConsoleTextKind::Other, "1:".to_string()),
            (ConsoleTextKind::Other, "1:".to_string()),
            (ConsoleTextKind::MatchText, "foo".to_string()),
            (ConsoleTextKind::Text, " bar ".to_string()),
            (ConsoleTextKind::MatchText, "foo".to_string()),
            (ConsoleTextKind::Text, "\n".to_string()),
            (ConsoleTextKind::Filename, "a.txt".to_string()),
            (ConsoleTextKind::Filename, ":".to_string()),
            (ConsoleTextKind::Other, "3:".to_string()),
            (ConsoleTextKind::Other, "1:".to_string()),
            (ConsoleTextKind::MatchText, "foo".to_string()),
            (ConsoleTextKind::Text, "!".to_string()),
            (ConsoleTextKind::Text, "\n".to_string()),
        ]
    );
    let none = PathMatch { path: "a.txt".to_string(), matches: vec![] };
    assert!(printer.print_match(&none, &src).is_empty());
}

#[test]
fn a_match_outside_the_source_is_passed_over() {
    let src = b"foo".to_vec();
    let pm = PathMatch { path: "a".to_string(), matches: vec![m(0, 9), m(5, 6), m(2, 1), m(0, 3)] };
    let mut printer = PipelinePrinter::new();
    printer.print_file = false;
    assert_eq!(text(&printer.print_match(&pm, &src)), "foo\n");
    printer.print_line_by_match = true;
    assert_eq!(text(&printer.print_match(&pm, &src)), "foo\n");
}

#[test]
fn printer_defaults_and_envelopes() {
    let mut printer = PipelinePrinter::new();
    assert!(printer.is_color);
    assert!(printer.print_file);
    assert!(!printer.print_column);
    assert!(!printer.print_row);
    assert!(!printer.print_line_by_match);
    let zero = Duration::new(0, 0);
    let step = printer.handle(2, PipelineInfo::SeqBeg(3), zero, zero);
    assert!(matches!(step.send[..], [PipelineInfo::SeqBeg(3)]));
    let pm = PathMatch { path: "p".to_string(), matches: vec![m(0, 1)] };
    let step = printer.handle(2, PipelineInfo::SeqDat(4, pm), zero, zero);
    assert!(matches!(step.send[..], [PipelineInfo::SeqDat(4, ())]));
    assert_eq!(step.print.unwrap().matches.len(), 1);
    assert!(!step.done);
    let step = printer.handle(2, PipelineInfo::MsgErr(1, "e".to_string()), zero, zero);
    assert!(matches!(&step.send[..], [PipelineInfo::MsgErr(1, t)] if t == "e"));
    let step = printer.handle(2, PipelineInfo::SeqEnd(5), zero, zero);
    assert!(step.done);
    assert!(matches!(step.send[..], [PipelineInfo::MsgTime(2, _, _), PipelineInfo::SeqEnd(5)]));
}

#[test]
fn decimal_digits() {
    assert_eq!(decimal_text(0), b"0".to_vec());
    assert_eq!(decimal_text(7), b"7".to_vec());
    assert_eq!(decimal_text(10), b"10".to_vec());
    assert_eq!(decimal_text(1048573), b"1048573".to_vec());
    assert_eq!(decimal_text(u128::MAX), b"340282366920938463463374607431768211455".to_vec());
}

#[test]
fn line_counter() {
    let src = b"a\nbc\n\nd".to_vec();
    let mut counter = LineCounter::new();
    counter.seek(&src, 3);
    assert_eq!((counter.pos, counter.count, counter.start), (3, 1, 2));
    counter.seek(&src, 6);
    assert_eq!((counter.pos, counter.count, counter.start), (6, 3, 6));
    counter.seek(&src, 1);
    assert_eq!((counter.pos, counter.count, counter.start), (1, 0, 0));
    counter.seek(&src, 7);
    assert_eq!((counter.pos, counter.count, counter.start), (7, 3, 6));
}

#[test]
fn console_lines() {
    let src = b"one\r\ntwo foo bar\nthree".to_vec();
    assert_eq!(Console::get_line_beg(&src, 9), 5);
    assert_eq!(Console::get_line_end(&src, 12), 16);
    assert_eq!(Console::get_line_beg(&src, 2), 0);
    assert_eq!(Console::get_line_end(&src, 17), 22);
    assert_eq!(Console::get_line_end(&src, 22), 22);
    // A position on a line break is its own line end, and the line behind it begins.
    assert_eq!(Console::get_line_end(&src, 3), 3);
    assert_eq!(Console::get_line_beg(&src, 3), 4);
    assert_eq!(
        pieces(Console::write_match_line(&src, &m(9, 12))),
        vec![
            (ConsoleTextKind::Text, "two ".to_string()),
            (ConsoleTextKind::MatchText, "foo".to_string()),
            (ConsoleTextKind::Text, " bar".to_string()),
            (ConsoleTextKind::Text, "\n".to_string()),
        ]
    );
    assert_eq!(
        pieces(Console::write_replace_line(&src, &m(9, 12), b"QUUX")),
        vec![
            (ConsoleTextKind::Text, "two ".to_string()),
            (ConsoleTextKind::MatchText, "QUUX".to_string()),
            (ConsoleTextKind::Text, " bar".to_string()),
            (ConsoleTextKind::Text, "\n".to_string()),
        ]
    );
    assert_eq!(
        pieces(Console::write_match_line(b"foo", &m(0, 3))),
        vec![(ConsoleTextKind::MatchText, "foo".to_string()), (ConsoleTextKind::Text, "\n".to_string())]
    );
}

#[test]
fn console_kinds() {
    assert_eq!(ConsoleTextKind::Filename.color(), ConsoleColor::BrightGreen);
    assert_eq!(ConsoleTextKind::Text.color(), ConsoleColor::White);
    assert_eq!(ConsoleTextKind::MatchText.color(), ConsoleColor::BrightYellow);
    assert_eq!(ConsoleTextKind::Other.color(), ConsoleColor::BrightCyan);
    assert_eq!(ConsoleTextKind::Info.color(), ConsoleColor::BrightCyan);
    assert_eq!(ConsoleTextKind::Error.color(), ConsoleColor::BrightRed);
    assert_eq!(ConsoleTextKind::Info.stream(), ConsoleStream::Stderr);
    assert_eq!(ConsoleTextKind::Error.stream(), ConsoleStream::Stderr);
    assert_eq!(ConsoleTextKind::Filename.stream(), ConsoleStream::Stdout);
    assert_eq!(ConsoleTextKind::Text.stream(), ConsoleStream::Stdout);
    assert_eq!(ConsoleTextKind::MatchText.stream(), ConsoleStream::Stdout);
    assert_eq!(ConsoleTextKind::Other.stream(), ConsoleStream::Stdout);
}

#[test]
fn console_sets_a_colour_when_it_changes() {
    let mut console = Console::new();
    let how = console.write(ConsoleTextKind::Text);
    assert_eq!((how.stream, how.set_color), (ConsoleStream::Stdout, Some(ConsoleColor::White)));
    let how = console.write(ConsoleTextKind::Text);
    assert_eq!((how.stream, how.set_color), (ConsoleStream::Stdout, None));
    let how = console.write(ConsoleTextKind::Error);
    assert_eq!((how.stream, how.set_color), (ConsoleStream::Stderr, Some(ConsoleColor::BrightRed)));
    let how = console.write(ConsoleTextKind::Info);
    assert_eq!((how.stream, how.set_color), (ConsoleStream::Stderr, Some(ConsoleColor::BrightCyan)));
    let how = console.write(ConsoleTextKind::Text);
    assert_eq!(how.set_color, None);
    let how = console.write(ConsoleTextKind::Other);
    assert_eq!(how.set_color, Some(ConsoleColor::BrightCyan));
    assert!(console.colored_out && console.colored_err);
    let mut plain = Console::new();
    plain.is_color = false;
    assert_eq!(plain.write(ConsoleTextKind::Error).set_color, None);
    assert_eq!(plain.write(ConsoleTextKind::MatchText).set_color, None);
    assert!(!plain.colored_out && !plain.colored_err);
    assert_eq!(plain.color_out, ConsoleColor::Black);
}

#[test]
fn an_unreadable_file_is_reported_at_the_end() {
    let mut printer = PipelinePrinter::new();
    printer.keep_error(ErrorKind::NotFound, "a.txt");
    assert_eq!(printer.errors, vec!["Error: file not found @ \"a.txt\"\n".to_string()]);
    assert!(printer.infos.is_empty());
    let zero = Duration::new(0, 0);
    let step = printer.handle(2, PipelineInfo::SeqEnd(1), zero, zero);
    assert!(matches!(
        &step.send[..],
        [PipelineInfo::MsgErr(2, a), PipelineInfo::MsgTime(2, _, _), PipelineInfo::SeqEnd(1)]
            if a == "Error: file not found @ \"a.txt\"\n"
    ));
}

#[test]
fn a_record_without_matches_is_not_printed() {
    let mut printer = PipelinePrinter::new();
    let zero = Duration::new(0, 0);
    let none = PathMatch { path: "b.txt".to_string(), matches: vec![] };
    let step = printer.handle(2, PipelineInfo::SeqDat(7, none), zero, zero);
    assert!(step.print.is_none());
    assert!(matches!(step.send[..], [PipelineInfo::SeqDat(7, ())]));
    assert!(!step.done);
    let some = PathMatch { path: "a.txt".to_string(), matches: vec![m(0, 3)] };
    let step = printer.handle(2, PipelineInfo::SeqDat(8, some), zero, zero);
    assert_eq!(step.print.unwrap().path, "a.txt");
    assert!(matches!(step.send[..], [PipelineInfo::SeqDat(8, ())]));
}
