//! The lines the server writes to a client: the sender-attributed broadcast
//! line (coloured green for the sender's own echo, yellow for everyone
//! else) and the greeting a newly admitted client receives, which carries
//! the roster of the clients online before it, one name per line.

use vstd::prelude::*;
use vstd::string::StringExecFns;

verus! {

/// The colour escape that opens a broadcast line: green for the sender's
/// own echo, yellow for every other recipient.
pub open spec fn color_code(is_self: bool) -> Seq<char> {
    if is_self {
        "\x1b[32m"@
    } else {
        "\x1b[33m"@
    }
}

/// The full broadcast line for one recipient: colour escape, the sender's
/// name in angle brackets, the message body verbatim, a colour reset and
/// the line terminator.
pub open spec fn format_spec(sender: Seq<char>, body: Seq<char>, is_self: bool) -> Seq<char> {
    color_code(is_self) + "<"@ + sender + "> "@ + body + "\x1b[0m\n"@
}

/// The roster block: the given names in order, each followed by a newline.
pub open spec fn roster_spec(names: Seq<Seq<char>>) -> Seq<char>
    decreases names.len(),
{
    if names.len() == 0 {
        Seq::empty()
    } else {
        roster_spec(names.drop_last()) + names.last() + "\n"@
    }
}

/// Everything a newly admitted client is sent before any broadcast
/// traffic: the welcome banner, the roster header, and the roster of the
/// clients admitted (and not removed) before it.
pub open spec fn greeting_spec(names: Seq<Seq<char>>) -> Seq<char> {
    "Welcome to my chat server!\n"@ + "Currently online:\n"@ + roster_spec(names)
}

/// Builds the broadcast line for one recipient.
pub fn format_message(sender: &str, body: &str, is_self: bool) -> (r: String)
    ensures
        r@ == format_spec(sender@, body@, is_self),
{
    let mut r = String::new();
    if is_self {
        r.append("\x1b[32m");
    } else {
        r.append("\x1b[33m");
    }
    r.append("<");
    r.append(sender);
    r.append("> ");
    r.append(body);
    r.append("\x1b[0m\n");
    proof {
        assert(r@ =~= format_spec(sender@, body@, is_self));
    }
    r
}

/// Within a broadcast line, the body stands verbatim: the characters
/// between the fixed-width prefix (colour escape, `<`, the sender's name,
/// `> `) and the fixed-width suffix (colour reset, newline) are exactly
/// the body the sender handed in, unchanged.
pub proof fn lemma_body_verbatim(sender: Seq<char>, body: Seq<char>, is_self: bool)
    ensures
        format_spec(sender, body, is_self).subrange(
            8 + sender.len() as int,
            8 + sender.len() + body.len() as int,
        ) == body,
        format_spec(sender, body, is_self).len() == 13 + sender.len() + body.len(),
{
    reveal_strlit("\x1b[32m");
    reveal_strlit("\x1b[33m");
    reveal_strlit("<");
    reveal_strlit("> ");
    reveal_strlit("\x1b[0m\n");
    assert(format_spec(sender, body, is_self).subrange(
        8 + sender.len() as int,
        8 + sender.len() + body.len() as int,
    ) =~= body);
}

/// The lines one recipient receives from a sequence of broadcast messages
/// `(sender, body)`, in the order the registry dequeues them. Each tick
/// fans one dequeued message out to every live client before the next
/// message is dequeued, and each listener enqueues its client's lines in
/// read order, so within one sender's stream the dequeue order is the
/// send order.
pub open spec fn transcript(msgs: Seq<(Seq<char>, Seq<char>)>, name: Seq<char>) -> Seq<Seq<char>> {
    msgs.map_values(|m: (Seq<char>, Seq<char>)| format_spec(m.0, m.1, m.0 == name))
}

/// Order preservation: the transcript a recipient sees is aligned, index
/// for index, with the order the messages were dequeued — the line of an
/// earlier message stands strictly before the line of a later one.
pub proof fn lemma_order_preserved(
    msgs: Seq<(Seq<char>, Seq<char>)>,
    name: Seq<char>,
    i: int,
    j: int,
)
    requires
        0 <= i < j < msgs.len(),
    ensures
        transcript(msgs, name).len() == msgs.len(),
        transcript(msgs, name)[i] == format_spec(msgs[i].0, msgs[i].1, msgs[i].0 == name),
        transcript(msgs, name)[j] == format_spec(msgs[j].0, msgs[j].1, msgs[j].0 == name),
{
}

} // verus!
