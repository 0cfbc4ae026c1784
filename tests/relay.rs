use nsrelay::backoff::{ConnectOutcome, ConnectStep, UdsRetry};
use nsrelay::control::{next_action, IoPoll, LoopAction, ShutdownPoll, Supervisor};
use nsrelay::netns::{desired_netns_path, maybe_enter, NetnsError};
use nsrelay::config::ForwardSpec;
use nsrelay::uds::{checked_mode, stale_entry_action, EntryKind, StaleAction, UdsError};
use nsrelay::udp::{PeerAddr, SessionTable};
use nsrelay::text::{split_at_commas, trimmed};

fn client(port: u16) -> PeerAddr {
    PeerAddr { v6: false, ip: 0x7f00_0001, port }
}

#[test]
fn retry_doubles_up_to_the_cap() {
    let mut r = UdsRetry::new();
    let mut waits = Vec::new();
    for _ in 0..7 {
        match r.on_connect(ConnectOutcome::NotFound) {
            ConnectStep::RetryAfter(ms) => waits.push(ms),
            other => panic!("unexpected {:?}", other),
        }
    }
    assert_eq!(waits, vec![100, 200, 400, 800, 1600, 2000, 2000]);
    assert_eq!(r.attempts, 7);
    assert_eq!(r.on_connect(ConnectOutcome::Connected), ConnectStep::Proceed);
}

#[test]
fn other_connect_errors_are_not_retried() {
    let mut r = UdsRetry::new();
    assert_eq!(r.on_connect(ConnectOutcome::Failed), ConnectStep::GiveUp);
    assert_eq!(r.delay_ms, 100);
}

#[test]
fn shutdown_takes_priority() {
    assert_eq!(next_action(ShutdownPoll::Changed(true), IoPoll::Ready, true), LoopAction::Stop);
    assert_eq!(next_action(ShutdownPoll::Closed, IoPoll::Failed, true), LoopAction::Stop);
    assert_eq!(next_action(ShutdownPoll::Closed, IoPoll::Failed, false), LoopAction::Stop);
    assert_eq!(next_action(ShutdownPoll::Changed(false), IoPoll::Ready, true), LoopAction::Recheck);
    assert_eq!(next_action(ShutdownPoll::Pending, IoPoll::Ready, false), LoopAction::Serve);
    assert_eq!(next_action(ShutdownPoll::Pending, IoPoll::Failed, true), LoopAction::Fail);
    assert_eq!(next_action(ShutdownPoll::Pending, IoPoll::Pending, true), LoopAction::Wait);
}

#[test]
fn host_accept_errors_are_passed_over() {
    assert_eq!(next_action(ShutdownPoll::Pending, IoPoll::Failed, false), LoopAction::Skip);
}

#[test]
fn supervisor_reports_first_failure() {
    let mut s: Supervisor<&str> = Supervisor::new(3);
    assert!(!s.record(Ok(())));
    assert!(s.record(Err("bind failed")));
    assert!(s.shutdown_requested());
    assert!(!s.is_complete());
    assert!(!s.record(Err("later")));
    assert!(s.is_complete());
    assert_eq!(s.finish(), Err("bind failed"));
}

#[test]
fn supervisor_succeeds_when_all_succeed() {
    let mut s: Supervisor<String> = Supervisor::new(2);
    assert!(s.interrupt());
    assert!(!s.interrupt());
    assert!(!s.record(Ok(())));
    assert!(!s.record(Ok(())));
    assert_eq!(s.finish(), Ok(()));
}

#[test]
fn sessions_are_one_per_client() {
    let mut t: SessionTable<u32> = SessionTable::new();
    assert_eq!(t.touch(client(1), 0), None);
    let a = t.open(client(1), 0, 10);
    let b = t.open(client(2), 5, 20);
    assert_ne!(a, b);
    assert_eq!(t.touch(client(1), 7), Some(a));
    assert_eq!(t.touch(client(2), 8), Some(b));
    assert_eq!(t.get(client(1)), Some(&10));
    assert_eq!(t.get(client(3)), None);
    assert_eq!(t.len(), 2);
    assert!(t.contains(client(2)));
    assert_eq!(t.remove(client(2)), Some(20));
    assert_eq!(t.remove(client(2)), None);
    assert_eq!(t.len(), 1);
}

#[test]
fn idle_session_is_swept_and_replaced() {
    let mut t: SessionTable<&str> = SessionTable::new();
    let old = t.open(client(9), 0, "first");
    assert!(t.prune(1000, 1000).is_empty());
    assert_eq!(t.prune(2000, 1000), vec!["first"]);
    assert_eq!(t.len(), 0);
    assert!(t.can_open());
    let fresh = t.open(client(9), 2001, "second");
    assert_ne!(old, fresh);
}

#[test]
fn one_idle_datagram_leaves_no_session_after_two_seconds() {
    let mut t: SessionTable<()> = SessionTable::new();
    t.open(PeerAddr { v6: false, ip: 0x7f00_0001, port: 40000 }, 0, ());
    t.prune(2000, 1000);
    assert_eq!(t.len(), 0);
}

#[test]
fn sweep_keeps_recent_sessions_and_drain_empties() {
    let mut t: SessionTable<u8> = SessionTable::new();
    t.open(client(1), 0, 1);
    t.open(client(2), 900, 2);
    t.open(client(3), 100, 3);
    assert_eq!(t.prune(1500, 1000), vec![1, 3]);
    assert_eq!(t.find(client(2)), Some(0));
    assert_eq!(t.drain(), vec![2]);
    assert_eq!(t.len(), 0);
}

#[test]
fn namespace_paths() {
    let mut spec = ForwardSpec::empty();
    assert_eq!(desired_netns_path(&spec), None);
    assert_eq!(maybe_enter(&spec, false), Ok(None));
    spec.namespace = Some("qdhcp-1234".to_string());
    assert_eq!(desired_netns_path(&spec).as_deref(), Some("/var/run/netns/qdhcp-1234"));
    assert_eq!(maybe_enter(&spec, false), Err(NetnsError::Unsupported));
    spec.setns_path = Some("/proc/42/ns/net".to_string());
    assert_eq!(maybe_enter(&spec, true), Ok(Some("/proc/42/ns/net".to_string())));
}

#[test]
fn socket_binding_decisions() {
    assert_eq!(stale_entry_action(EntryKind::Missing), Ok(StaleAction::Bind));
    assert_eq!(stale_entry_action(EntryKind::Socket), Ok(StaleAction::RemoveThenBind));
    assert_eq!(stale_entry_action(EntryKind::Other), Err(UdsError::NotASocket));
    assert_eq!(checked_mode(None), Ok(None));
    assert_eq!(checked_mode(Some(0o660)), Ok(Some(0o660)));
    assert_eq!(checked_mode(Some(0o7777)), Ok(Some(0o7777)));
    assert_eq!(checked_mode(Some(0o10000)), Err(UdsError::InvalidMode(0o10000)));
    assert_eq!(checked_mode(Some(0x10000)), Err(UdsError::InvalidMode(0x10000)));
}

#[test]
fn text_helpers() {
    assert_eq!(trimmed("  a b\t\n"), "a b");
    assert_eq!(trimmed("\u{3000}x\u{a0}"), "x");
    assert_eq!(split_at_commas("a,,b"), vec!["a", "", "b"]);
    assert_eq!(split_at_commas(""), vec![""]);
}
