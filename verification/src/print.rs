//! The text of console and log messages.
use vstd::prelude::*;
use crate::text::{chars_to_string, push_str};

verus! {

/// Console colour codes.
pub const GREEN: &'static str = "\x1B[32m";
pub const RED: &'static str = "\x1B[31m";
pub const YELLOW: &'static str = "\x1B[33m";
pub const BLUE: &'static str = "\x1B[34m";
/// Ends a coloured span.
pub const END: &'static str = "\x1B[0m";

/// A line break where `has_br` asks for one.
pub open spec fn line_end(has_br: bool) -> Seq<char> {
    if has_br {
        seq!['\n']
    } else {
        Seq::empty()
    }
}

/// The console text of a message: the time stamp in green on its own line,
/// then the message in `color`.
pub open spec fn console_text(text: Seq<char>, color: Seq<char>, now: Seq<char>, has_br: bool) -> Seq<char> {
    GREEN@ + seq!['['] + now + seq![']', '\n'] + END@ + color + text + END@ + line_end(has_br)
}

/// The log text of a message: the time stamp on its own line, then the
/// message.
pub open spec fn log_text(text: Seq<char>, now: Seq<char>, has_br: bool) -> Seq<char> {
    seq!['['] + now + seq![']', '\n'] + text + line_end(has_br)
}

/// The console text and the log text of `text`, stamped with `now`.
pub fn base_print(text: &str, color: &str, now: &str, has_br: bool) -> (r: (String, String))
    ensures
        r.0@ == console_text(text@, color@, now@, has_br),
        r.1@ == log_text(text@, now@, has_br),
{
    let mut out: Vec<char> = Vec::new();
    push_str(&mut out, GREEN);
    out.push('[');
    push_str(&mut out, now);
    out.push(']');
    out.push('\n');
    push_str(&mut out, END);
    push_str(&mut out, color);
    push_str(&mut out, text);
    push_str(&mut out, END);
    let mut log: Vec<char> = Vec::new();
    log.push('[');
    push_str(&mut log, now);
    log.push(']');
    log.push('\n');
    push_str(&mut log, text);
    if has_br {
        out.push('\n');
        log.push('\n');
    }
    assert(out@ =~= console_text(text@, color@, now@, has_br));
    assert(log@ =~= log_text(text@, now@, has_br));
    (chars_to_string(&out), chars_to_string(&log))
}

/// The console text and the log text of `text` as a whole line, stamped
/// with `now`.
pub fn println(text: &str, color: &str, now: &str) -> (r: (String, String))
    ensures
        r.0@ == console_text(text@, color@, now@, true),
        r.1@ == log_text(text@, now@, true),
{
    base_print(text, color, now, true)
}

} // verus!
