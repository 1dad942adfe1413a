use sqld::errors::{absorbs, reaction_to, Failure, Reaction};

#[test]
fn setup_failures_abort_the_process() {
    assert_eq!(reaction_to(Failure::SignalSetup), Reaction::AbortProcess);
    assert_eq!(reaction_to(Failure::Bind), Reaction::AbortProcess);
}

#[test]
fn accept_failure_keeps_the_listener() {
    assert_eq!(reaction_to(Failure::Accept), Reaction::KeepAccepting);
}

#[test]
fn read_failure_drops_the_connection() {
    assert_eq!(reaction_to(Failure::Read), Reaction::DropConnection);
}

#[test]
fn parse_failure_drops_the_command() {
    assert_eq!(reaction_to(Failure::Parse), Reaction::DropCommand);
}

#[test]
fn send_failure_ends_the_thread() {
    assert_eq!(reaction_to(Failure::Send), Reaction::EndThread);
}

#[test]
fn absorbed_failures_are_accept_read_and_parse() {
    assert!(absorbs(Failure::Accept));
    assert!(absorbs(Failure::Read));
    assert!(absorbs(Failure::Parse));
    assert!(!absorbs(Failure::SignalSetup));
    assert!(!absorbs(Failure::Bind));
    assert!(!absorbs(Failure::Send));
}
