//! Small helpers shared by the stages and the tools.

use std::io::ErrorKind;
use std::time::{Duration, Instant};
use vstd::prelude::*;
use vstd::string::StringExecFns;

verus! {

/// `std::io::ErrorKind`, the kinds of I/O errors, with its variants.
#[verifier::external_type_specification]
pub struct ExErrorKind(ErrorKind);

/// `std::time::Instant`, a reading of the clock, carried and never looked
/// into.
#[verifier::external_type_specification]
#[verifier::external_body]
pub struct ExInstant(Instant);

/// `Instant::now`: the reading of the clock, of which nothing is known
/// beforehand.
#[verifier::external_body]
fn clock_now() -> Instant {
    Instant::now()
}

/// `Instant::elapsed`: the time since `start` was read, of which nothing is
/// known beforehand.
#[verifier::external_body]
fn clock_elapsed(start: &Instant) -> Duration {
    start.elapsed()
}

/// Runs `closure` and measures how long it took. The time is whatever the
/// clock says.
pub fn watch_time<F>(closure: F) -> (spent: Duration) where F: FnOnce()
    requires
        closure.requires(()),
    ensures
        closure.ensures((), ()),
{
    let start: Instant = clock_now();
    closure();
    clock_elapsed(&start)
}

/// Runs `closure` and hands its result on, so that an error raised anywhere
/// in it ends up in one place.
pub fn catch<F, T, E>(closure: F) -> (result: Result<T, E>) where F: FnOnce() -> Result<T, E>
    requires
        closure.requires(()),
    ensures
        closure.ensures((), result),
{
    closure()
}

/// The words in which a kind of I/O error is reported.
pub open spec fn error_words(e: ErrorKind) -> Seq<char> {
    match e {
        ErrorKind::NotFound => "file not found"@,
        ErrorKind::PermissionDenied => "permission denied"@,
        ErrorKind::ConnectionRefused => "connection refused"@,
        ErrorKind::ConnectionReset => "connection reset"@,
        ErrorKind::ConnectionAborted => "connection aborted"@,
        ErrorKind::NotConnected => "not connected"@,
        ErrorKind::AddrInUse => "address is in use"@,
        ErrorKind::AddrNotAvailable => "address is not available"@,
        ErrorKind::BrokenPipe => "broken pipe"@,
        ErrorKind::AlreadyExists => "file is already exists"@,
        ErrorKind::WouldBlock => "world be blocked"@,
        ErrorKind::InvalidInput => "invalid parameter"@,
        ErrorKind::InvalidData => "invalid data"@,
        ErrorKind::TimedOut => "operation timeout"@,
        ErrorKind::WriteZero => "write size is zero"@,
        ErrorKind::Interrupted => "interrupted"@,
        _ => "unknown"@,
    }
}

/// Puts a kind of I/O error into words.
pub fn decode_error(e: ErrorKind) -> (text: &'static str)
    ensures
        text@ == error_words(e),
{
    match e {
        ErrorKind::NotFound => "file not found",
        ErrorKind::PermissionDenied => "permission denied",
        ErrorKind::ConnectionRefused => "connection refused",
        ErrorKind::ConnectionReset => "connection reset",
        ErrorKind::ConnectionAborted => "connection aborted",
        ErrorKind::NotConnected => "not connected",
        ErrorKind::AddrInUse => "address is in use",
        ErrorKind::AddrNotAvailable => "address is not available",
        ErrorKind::BrokenPipe => "broken pipe",
        ErrorKind::AlreadyExists => "file is already exists",
        ErrorKind::WouldBlock => "world be blocked",
        ErrorKind::InvalidInput => "invalid parameter",
        ErrorKind::InvalidData => "invalid data",
        ErrorKind::TimedOut => "operation timeout",
        ErrorKind::WriteZero => "write size is zero",
        ErrorKind::Interrupted => "interrupted",
        _ => "unknown",
    }
}

/// How `{:?}` writes a text: in double quotes, with what needs it escaped.
pub uninterp spec fn debug_text(text: Seq<char>) -> Seq<char>;

/// Formats `text` with `{:?}` (`<str as Debug>::fmt`).
#[verifier::external_body]
pub(crate) fn quoted(text: &str) -> (out: String)
    ensures
        out@ == debug_text(text@),
{
    format!("{:?}", text)
}

/// The line in which a failure on a path is reported.
pub open spec fn failure_line(reason: Seq<char>, path: Seq<char>) -> Seq<char> {
    "Error: "@ + reason + " @ "@ + debug_text(path) + "\n"@
}

/// Builds the line in which a failure of the kind `e` on `path` is reported.
pub fn failure_text(e: ErrorKind, path: &str) -> (line: String)
    ensures
        line@ == failure_line(error_words(e), path@),
{
    let mut line: String = String::from_str("Error: ");
    line.append(decode_error(e));
    line.append(" @ ");
    let shown: String = quoted(path);
    line.append(shown.as_str());
    line.append("\n");
    line
}

/// The envelopes of a pipeline whose records carry no sequence numbers.
pub enum PipelineInfo<T> {
    Beg(usize),
    Dat(T),
    Info(String),
    Error(String),
    Time(Duration, Duration),
    End(usize),
}

} // verus!
