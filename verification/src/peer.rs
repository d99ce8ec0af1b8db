//! Decisions of the connection-facing loops, taken on plain lines: what a
//! per-connection listener forwards to the message queue, and when the
//! interactive client quits. The reads themselves stay with the caller.

use crate::text::trim_spec;
use crate::text::trim_line;
use vstd::prelude::*;
use vstd::string::StrSliceExecFns;
use vstd::string::StringExecFns;

verus! {

/// The listener's decision for one read: an empty read yields no event (the
/// listener keeps waiting); any other line is trimmed and forwarded into
/// the message queue with the reader's username as the sender.
pub fn listener_event(username: &str, line: &str) -> (r: Option<(String, String)>)
    ensures
        r is Some <==> line@.len() > 0,
        r matches Some(p) ==> p.0@ == username@ && p.1@ == trim_spec(line@),
{
    if line.unicode_len() == 0 {
        None
    } else {
        Some((username.to_owned(), trim_line(line)))
    }
}

/// Whether a line typed at the client is the quit command: exactly `q`
/// once trimmed.
pub fn is_quit_command(line: &str) -> (r: bool)
    ensures
        r == (trim_spec(line@) == "q"@),
{
    let trimmed = trim_line(line);
    let quit: String = String::from_str("q");
    trimmed == quit
}

} // verus!
