use burrower::serve::{
    default_limit, default_timeout, default_top, malformed_request, parse_command, Command,
    SocketGuard,
};

#[test]
fn commands_are_recognised_by_name() {
    assert_eq!(parse_command("swarm"), Ok(Command::Swarm));
    assert_eq!(parse_command("attempt"), Ok(Command::Attempt));
    assert_eq!(parse_command("ledger"), Ok(Command::Ledger));
    assert_eq!(parse_command("ping"), Ok(Command::Ping));
    assert_eq!(
        parse_command("unknown"),
        Err("unknown cmd: unknown (expected: swarm | attempt | ledger | ping)".to_string())
    );
    assert!(parse_command("Ping").is_err());
    assert_eq!(malformed_request("expected value"), "malformed request: expected value");
}

#[test]
fn argument_defaults() {
    assert_eq!(default_top(), 5);
    assert_eq!(default_timeout(), 60);
    assert_eq!(default_limit(), 10);
}

#[test]
fn socket_guard_only_unlinks_its_own_socket() {
    let g = SocketGuard::new("/tmp/service.sock", 7, 42);
    assert_eq!(g.path(), "/tmp/service.sock");
    assert!(g.may_unlink(true, 7, 42));
    assert!(!g.may_unlink(false, 7, 42));
    assert!(!g.may_unlink(true, 8, 42));
    assert!(!g.may_unlink(true, 7, 43));
}
