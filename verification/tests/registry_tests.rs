use chat_server::message::format_message;
use chat_server::registry::Registry;

const GREETING_HEADER: &str = "Welcome to my chat server!\nCurrently online:\n";

#[test]
fn first_client_sees_empty_roster() {
    let mut reg = Registry::new();
    let greeting = reg.register(String::from("alice"), 1).expect("fresh name admitted");
    assert_eq!(greeting, GREETING_HEADER);
    assert_eq!(reg.client_count(), 1);
    assert!(reg.is_online("alice"));
}

#[test]
fn join_snapshot_lists_prior_clients_in_join_order() {
    let mut reg = Registry::new();
    reg.register(String::from("alice"), 1).expect("fresh name admitted");
    reg.register(String::from("bob"), 2).expect("fresh name admitted");
    let greeting = reg.register(String::from("carol"), 3).expect("fresh name admitted");
    assert_eq!(greeting, format!("{}alice\nbob\n", GREETING_HEADER));
    assert_eq!(reg.clients_to_string(), "alice\nbob\ncarol\n");
}

#[test]
fn duplicate_username_is_rejected() {
    let mut reg = Registry::new();
    assert!(reg.register(String::from("alice"), 1).is_some());
    assert!(reg.register(String::from("alice"), 2).is_none());
    assert_eq!(reg.client_count(), 1);
}

#[test]
fn empty_username_is_rejected() {
    let mut reg = Registry::new();
    assert!(reg.register(String::new(), 1).is_none());
    assert_eq!(reg.client_count(), 0);
}

#[test]
fn rejected_name_admitted_again_after_prune() {
    let mut reg = Registry::new();
    reg.register(String::from("alice"), 1).expect("fresh name admitted");
    assert!(reg.register(String::from("alice"), 2).is_none());
    reg.apply_write_results(&vec![true]);
    assert!(!reg.is_online("alice"));
    assert!(reg.register(String::from("alice"), 3).is_some());
}

#[test]
fn formatted_line_keeps_body_and_sender() {
    assert_eq!(format_message("alice", "hello", false), "\x1b[33m<alice> hello\x1b[0m\n");
    assert_eq!(format_message("alice", "hello", true), "\x1b[32m<alice> hello\x1b[0m\n");
}

#[test]
fn broadcast_fans_out_to_every_client_including_sender() {
    let mut reg = Registry::new();
    reg.register(String::from("alice"), 10).expect("fresh name admitted");
    reg.register(String::from("bob"), 20).expect("fresh name admitted");
    let plan = reg.plan_broadcast("alice", "hello");
    assert_eq!(plan.len(), 2);
    assert_eq!(plan[0].0, 10);
    assert_eq!(plan[0].1, "\x1b[32m<alice> hello\x1b[0m\n");
    assert_eq!(plan[1].0, 20);
    assert_eq!(plan[1].1, "\x1b[33m<alice> hello\x1b[0m\n");
}

#[test]
fn per_sender_order_is_kept_across_sweeps() {
    let mut reg = Registry::new();
    reg.register(String::from("alice"), 1).expect("fresh name admitted");
    reg.register(String::from("bob"), 2).expect("fresh name admitted");
    let first = reg.plan_broadcast("alice", "first");
    reg.apply_write_results(&vec![false, false]);
    let second = reg.plan_broadcast("alice", "second");
    let bob_transcript = vec![first[1].1.clone(), second[1].1.clone()];
    assert_eq!(
        bob_transcript,
        vec!["\x1b[33m<alice> first\x1b[0m\n", "\x1b[33m<alice> second\x1b[0m\n"]
    );
}

#[test]
fn failed_write_prunes_exactly_that_record() {
    let mut reg = Registry::new();
    reg.register(String::from("alice"), 1).expect("fresh name admitted");
    reg.register(String::from("bob"), 2).expect("fresh name admitted");
    reg.register(String::from("carol"), 3).expect("fresh name admitted");
    reg.apply_write_results(&vec![false, true, false]);
    assert_eq!(reg.client_count(), 2);
    assert_eq!(reg.username_at(0), "alice");
    assert_eq!(reg.username_at(1), "carol");
    assert!(!reg.is_online("bob"));
}

#[test]
fn record_stays_eligible_until_a_write_fails() {
    let mut reg = Registry::new();
    reg.register(String::from("alice"), 1).expect("fresh name admitted");
    reg.register(String::from("bob"), 2).expect("fresh name admitted");
    // bob's peer is gone, but no write has failed yet: still fanned out to.
    let plan = reg.plan_broadcast("alice", "hello");
    assert_eq!(plan.len(), 2);
    // the sweep after the failed write removes bob from later fan-outs
    reg.apply_write_results(&vec![false, true]);
    let next = reg.plan_broadcast("alice", "again");
    assert_eq!(next.len(), 1);
    assert_eq!(next[0].0, 1);
}

#[test]
fn marking_empties_the_name_and_the_sweep_drops_it() {
    let mut reg = Registry::new();
    reg.register(String::from("alice"), 1).expect("fresh name admitted");
    reg.register(String::from("bob"), 2).expect("fresh name admitted");
    reg.mark_failed(&vec![false, true]);
    // marked in place with the empty-name sentinel, not yet dropped
    assert_eq!(reg.client_count(), 2);
    assert_eq!(reg.username_at(0), "alice");
    assert_eq!(reg.username_at(1), "");
    reg.sweep();
    assert_eq!(reg.client_count(), 1);
    assert_eq!(reg.username_at(0), "alice");
}

#[test]
fn end_to_end_two_clients_one_disconnect() {
    let mut reg = Registry::new();
    reg.register(String::from("alice"), 1).expect("fresh name admitted");
    let bob_greeting = reg.register(String::from("bob"), 2).expect("fresh name admitted");
    assert_eq!(bob_greeting, format!("{}alice\n", GREETING_HEADER));

    let plan = reg.plan_broadcast("alice", "hello");
    assert_eq!(plan.len(), 2);
    assert_eq!(plan[1].0, 2);
    assert_eq!(plan[1].1, "\x1b[33m<alice> hello\x1b[0m\n");
    reg.apply_write_results(&vec![false, false]);

    // bob disconnects abruptly; the write to him during the next sweep fails
    let ping = reg.plan_broadcast("alice", "ping");
    assert_eq!(ping.len(), 2);
    reg.apply_write_results(&vec![false, true]);

    assert!(reg.is_online("alice"));
    assert!(!reg.is_online("bob"));
    assert_eq!(reg.clients_to_string(), "alice\n");
}
