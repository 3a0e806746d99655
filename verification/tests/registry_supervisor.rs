use sando::cleanup::CLEANUP_TTL_SECS;
use sando::errors::ProxyError;
use sando::naming::generate_connection_name;
use sando::registry::{Registry, TunnelStatus};
use sando::supervisor::{
    begin_ensure, begin_proxy, listing_reports_online, on_health_result, on_probe_result,
    on_reprobe_result, on_start_result, retire_result, EnsureNext,
};

#[test]
fn test_background_connection_tracking() {
    let mut registry = Registry::new();

    let connection_string = "test12345678";
    let port = 8080;
    let name = generate_connection_name(connection_string, port);
    let now = 1000;

    let entry = registry.get_or_create(connection_string, port, now);
    assert_eq!(entry.token, connection_string);
    assert_eq!(entry.port, port);
    assert_eq!(entry.status, TunnelStatus::Starting);
    assert_eq!(entry.process_name, name);

    registry.set_status(connection_string, port, TunnelStatus::Online);

    let snapshot = registry.snapshot();
    assert_eq!(snapshot.len(), 1);
    assert_eq!(snapshot[0].status, TunnelStatus::Online);
}

#[test]
fn get_or_create_is_idempotent() {
    let mut registry = Registry::new();
    let first = registry.get_or_create("token-a", 4000, 10);
    let second = registry.get_or_create("token-a", 4000, 99);

    assert_eq!(registry.snapshot().len(), 1);
    assert_eq!(second.token, first.token);
    assert_eq!(second.port, first.port);
    assert_eq!(second.process_name, first.process_name);
    assert_eq!(second.status, first.status);
    assert_eq!(second.last_used, first.last_used);

    let other = registry.get_or_create("token-a", 4001, 50);
    assert_eq!(registry.snapshot().len(), 2);
    assert_eq!(other.port, 4001);
}

#[test]
fn unknown_token_is_rejected_without_registry_entry() {
    let mut registry = Registry::new();
    let r = begin_proxy(&mut registry, "ghost-token", None, 5);
    assert_eq!(r, Err(ProxyError::TokenNotFound));
    assert_eq!(registry.snapshot().len(), 0);

    let r = begin_proxy(&mut registry, "known-token", Some(9000), 5);
    assert_eq!(r, Ok((9000, EnsureNext::DoProbe)));
    assert_eq!(registry.snapshot().len(), 1);
}

#[test]
fn ttl_sweep_retires_idle_online_tunnels() {
    let mut registry = Registry::new();
    let _ = registry.get_or_create("idle-token", 8000, 1000);
    registry.set_status("idle-token", 8000, TunnelStatus::Online);
    let _ = registry.get_or_create("busy-token", 8001, 1000);
    registry.set_status("busy-token", 8001, TunnelStatus::Online);
    registry.touch("busy-token", 8001, 1200);
    let _ = registry.get_or_create("stopped-token", 8002, 1000);

    let now = 1000 + CLEANUP_TTL_SECS + 1;
    let stale = registry.sweep(now, CLEANUP_TTL_SECS);
    assert_eq!(stale.len(), 1);
    assert_eq!(stale[0].token, "idle-token");

    retire_result(&mut registry, "idle-token", 8000, true);
    let snapshot = registry.snapshot();
    let idle = snapshot.iter().find(|e| e.token == "idle-token").unwrap();
    let busy = snapshot.iter().find(|e| e.token == "busy-token").unwrap();
    assert_eq!(idle.status, TunnelStatus::Stopped);
    assert_eq!(busy.status, TunnelStatus::Online);
    assert_eq!(busy.last_used, 1200);
}

#[test]
fn failed_stop_leaves_entry_for_next_sweep() {
    let mut registry = Registry::new();
    let _ = registry.get_or_create("token-x", 8000, 0);
    registry.set_status("token-x", 8000, TunnelStatus::Online);

    retire_result(&mut registry, "token-x", 8000, false);
    assert_eq!(registry.snapshot()[0].status, TunnelStatus::Online);

    let stale = registry.sweep(1000, 300);
    assert_eq!(stale.len(), 1);
}

#[test]
fn cold_start_issues_exactly_one_start_command() {
    let mut registry = Registry::new();
    let mut avail: Option<bool> = None;
    let token = "fresh-token";
    let port = 7000;
    let mut starts = 0;

    let mut next = begin_ensure(&mut registry, token, port, 100);
    assert_eq!(next, EnsureNext::DoProbe);

    next = on_probe_result(&mut registry, &avail, token, port, 100, false);
    assert_eq!(next, EnsureNext::DoHealthCheck);

    next = on_health_result(&mut registry, &mut avail, token, port, 100, true);
    assert_eq!(next, EnsureNext::DoStart);
    assert_eq!(avail, Some(true));
    starts += 1;

    next = on_start_result(&mut registry, token, port, true);
    assert_eq!(next, EnsureNext::DoSettleReprobe);

    next = on_reprobe_result(&mut registry, token, port, true);
    assert_eq!(next, EnsureNext::Succeed);
    assert_eq!(registry.snapshot()[0].status, TunnelStatus::Online);

    // a second, immediate request: the probe now reports the tunnel online
    next = begin_ensure(&mut registry, token, port, 101);
    assert_eq!(next, EnsureNext::DoProbe);
    next = on_probe_result(&mut registry, &avail, token, port, 101, true);
    assert_eq!(next, EnsureNext::Succeed);

    assert_eq!(starts, 1);
    assert_eq!(registry.snapshot().len(), 1);
}

#[test]
fn unavailable_agent_fails_without_start() {
    let mut registry = Registry::new();
    let mut avail: Option<bool> = None;

    let _ = begin_ensure(&mut registry, "t", 1, 0);
    let next = on_probe_result(&mut registry, &avail, "t", 1, 0, false);
    assert_eq!(next, EnsureNext::DoHealthCheck);
    let next = on_health_result(&mut registry, &mut avail, "t", 1, 0, false);
    assert_eq!(next, EnsureNext::Fail(ProxyError::AgentUnavailable));
    assert_eq!(avail, Some(false));

    // the cached answer short-circuits the next request
    let _ = begin_ensure(&mut registry, "t", 1, 1);
    let next = on_probe_result(&mut registry, &avail, "t", 1, 1, false);
    assert_eq!(next, EnsureNext::Fail(ProxyError::AgentUnavailable));
}

#[test]
fn failed_start_marks_entry_error() {
    let mut registry = Registry::new();
    let avail = Some(true);

    let _ = begin_ensure(&mut registry, "t", 1, 0);
    let next = on_probe_result(&mut registry, &avail, "t", 1, 0, false);
    assert_eq!(next, EnsureNext::DoStart);
    let next = on_start_result(&mut registry, "t", 1, false);
    assert_eq!(next, EnsureNext::Fail(ProxyError::TunnelStartFailed));
    assert_eq!(registry.snapshot()[0].status, TunnelStatus::Error);
}

#[test]
fn failed_reprobe_marks_entry_error() {
    let mut registry = Registry::new();
    let avail = Some(true);

    let _ = begin_ensure(&mut registry, "t", 1, 0);
    let _ = on_probe_result(&mut registry, &avail, "t", 1, 0, false);
    let _ = on_start_result(&mut registry, "t", 1, true);
    let next = on_reprobe_result(&mut registry, "t", 1, false);
    assert_eq!(next, EnsureNext::Fail(ProxyError::TunnelStartFailed));
    assert_eq!(registry.snapshot()[0].status, TunnelStatus::Error);
}

#[test]
fn listing_parser_finds_prefixed_online_tunnel() {
    let stdout = "ID: 1\n---\nName: holesail-sando-test1234-8080\nStatus: online\n";
    assert!(listing_reports_online(stdout, "sando-test1234-8080"));

    let stdout = "Name: holesail-sando-test1234-8080\nStatus: offline\n";
    assert!(!listing_reports_online(stdout, "sando-test1234-8080"));

    let stdout = "Name: sando-test1234-8080\nStatus: online\n";
    assert!(!listing_reports_online(stdout, "sando-test1234-8080"));
}

#[test]
fn listing_parser_degrades_to_not_running() {
    assert!(!listing_reports_online("", "sando-x-1"));
    assert!(!listing_reports_online("garbage output\nwith no records", "sando-x-1"));
    assert!(!listing_reports_online("Name:\nStatus: online\n", "sando-x-1"));
    assert!(!listing_reports_online("Status: online\n", "sando-x-1"));
}

#[test]
fn listing_parser_scans_several_records() {
    let stdout = "ID   Name   Status\n--------------------\nName: holesail-sando-other-1\nStatus: stopped\n\nName: holesail-sando-mine-9090\nStatus: online\n";
    assert!(listing_reports_online(stdout, "sando-mine-9090"));
    assert!(!listing_reports_online(stdout, "sando-other-1"));
    assert!(!listing_reports_online(stdout, "sando-absent-2"));
}

#[test]
fn listing_parser_reads_second_field_only() {
    // the parser takes the second whitespace-separated field of the line
    let stdout = "  Name:   holesail-sando-a-1   extra\n  Status:   online   now\n";
    assert!(listing_reports_online(stdout, "sando-a-1"));
}
