use chat_server::peer::is_quit_command;
use chat_server::peer::listener_event;
use chat_server::text::trim_line;

#[test]
fn trim_strips_both_ends() {
    assert_eq!(trim_line("  hello world \r\n"), "hello world");
}

#[test]
fn trim_of_plain_text_is_identity() {
    assert_eq!(trim_line("alice"), "alice");
}

#[test]
fn trim_keeps_inner_whitespace() {
    assert_eq!(trim_line("\ta b\tc\n"), "a b\tc");
}

#[test]
fn trim_of_all_whitespace_is_empty() {
    assert_eq!(trim_line(" \t\r\n"), "");
    assert_eq!(trim_line(""), "");
}

#[test]
fn listener_forwards_trimmed_line_with_sender() {
    let event = listener_event("alice", "hello there\n");
    let (sender, body) = event.expect("a non-empty read must yield an event");
    assert_eq!(sender, "alice");
    assert_eq!(body, "hello there");
}

#[test]
fn listener_ignores_empty_read() {
    assert!(listener_event("alice", "").is_none());
}

#[test]
fn quit_command_is_q_alone() {
    assert!(is_quit_command("q\n"));
    assert!(is_quit_command(" q "));
    assert!(!is_quit_command("quit\n"));
    assert!(!is_quit_command("hello\n"));
    assert!(!is_quit_command("\n"));
}
