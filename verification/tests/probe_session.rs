use std::time::Duration;

use skim::probe::MAX_STATUS_PEEK;
use skim::{ProbeAction, ProbeConfig, ProbeEvent, ProbePhase, ProbeSession, Timeouts};

fn config() -> ProbeConfig {
    ProbeConfig {
        path: "/.well-known/security.txt".to_string(),
        user_agent: "skim-test".to_string(),
        port: 443,
        timeouts: Timeouts {
            connect: Duration::from_secs(2),
            handshake: Duration::from_millis(1500),
            read: Duration::from_millis(500),
        },
    }
}

fn connected(host: &str) -> (ProbeSession, ProbeAction) {
    let (mut s, a) = ProbeSession::new(host, &config());
    match a {
        ProbeAction::Connect { port, timeout } => {
            assert_eq!(port, 443);
            assert_eq!(timeout, Duration::from_secs(2));
        }
        _ => panic!("first action must be Connect"),
    }
    let a = s.step(ProbeEvent::Connected);
    (s, a)
}

fn reading(host: &str) -> ProbeSession {
    let (mut s, a) = connected(host);
    assert!(matches!(a, ProbeAction::Handshake { .. }));
    let a = s.step(ProbeEvent::HandshakeDone);
    assert!(matches!(a, ProbeAction::Send { .. }));
    let a = s.step(ProbeEvent::RequestWritten);
    match a {
        ProbeAction::Read { max_len } => assert_eq!(max_len, MAX_STATUS_PEEK),
        _ => panic!("expected a read"),
    }
    s
}

#[test]
fn full_probe_reads_status_code() {
    let (mut s, a) = connected("example.com");
    match a {
        ProbeAction::Handshake { timeout, .. } => assert_eq!(timeout, Duration::from_millis(1500)),
        _ => panic!("expected a handshake"),
    }
    match s.step(ProbeEvent::HandshakeDone) {
        ProbeAction::Send { request, timeout } => {
            assert_eq!(
                request,
                "GET /.well-known/security.txt HTTP/1.1\r\nHost: example.com\r\nUser-Agent: skim-test\r\nAccept: */*\r\nConnection: close\r\n\r\n"
            );
            assert_eq!(timeout, Duration::from_millis(500));
        }
        _ => panic!("expected a send"),
    }
    assert!(matches!(s.step(ProbeEvent::RequestWritten), ProbeAction::Read { max_len: 32 }));
    match s.step(ProbeEvent::Received(b"HTTP/1.1 200 OK\r\n".to_vec())) {
        ProbeAction::Finish { code } => assert_eq!(code, Some(200)),
        _ => panic!("expected to finish at the end of the status line"),
    }
    assert_eq!(s.phase(), ProbePhase::Done(Some(200)));
}

#[test]
fn status_line_in_pieces() {
    let mut s = reading("example.com");
    match s.step(ProbeEvent::Received(b"HTTP/1.1 4".to_vec())) {
        ProbeAction::Read { max_len } => assert_eq!(max_len, 22),
        _ => panic!("expected another read"),
    }
    match s.step(ProbeEvent::Received(b"04 Not Found\r".to_vec())) {
        ProbeAction::Read { max_len } => assert_eq!(max_len, 9),
        _ => panic!("a lone CR does not end the line"),
    }
    match s.step(ProbeEvent::Received(b"\n".to_vec())) {
        ProbeAction::Finish { code } => assert_eq!(code, Some(404)),
        _ => panic!("expected to finish"),
    }
}

#[test]
fn peer_closing_decides_on_what_was_read() {
    let mut s = reading("example.com");
    assert!(matches!(s.step(ProbeEvent::Received(b"HTTP/1.0 302".to_vec())), ProbeAction::Read { .. }));
    match s.step(ProbeEvent::Received(Vec::new())) {
        ProbeAction::Finish { code } => assert_eq!(code, Some(302)),
        _ => panic!("expected to finish"),
    }
}

#[test]
fn read_budget_is_thirty_two_bytes() {
    let mut s = reading("example.com");
    let long = vec![b'x'; 32];
    match s.step(ProbeEvent::Received(long)) {
        ProbeAction::Finish { code } => assert_eq!(code, None),
        _ => panic!("the budget is spent"),
    }
}

#[test]
fn failures_end_without_code() {
    let (mut s, _) = ProbeSession::new("example.com", &config());
    assert!(matches!(s.step(ProbeEvent::Failed), ProbeAction::Finish { code: None }));
    let (mut s, _) = connected("example.com");
    assert!(matches!(s.step(ProbeEvent::Failed), ProbeAction::Finish { code: None }));
    let mut s = reading("example.com");
    assert!(matches!(s.step(ProbeEvent::Failed), ProbeAction::Finish { code: None }));
    // An event that does not answer the pending action is a failure too.
    let (mut s, _) = ProbeSession::new("example.com", &config());
    assert!(matches!(s.step(ProbeEvent::RequestWritten), ProbeAction::Finish { code: None }));
}

#[test]
fn finished_probe_stays_finished() {
    let mut s = reading("example.com");
    assert!(matches!(s.step(ProbeEvent::Received(b"HTTP/1.1 200 OK\r\n".to_vec())), ProbeAction::Finish { code: Some(200) }));
    assert!(matches!(s.step(ProbeEvent::Failed), ProbeAction::Finish { code: Some(200) }));
}

#[test]
fn invalid_host_name_ends_after_connect() {
    let (_, a) = connected("not a host name");
    assert!(matches!(a, ProbeAction::Finish { code: None }));
    let (_, a) = connected("192.0.2.1");
    assert!(matches!(a, ProbeAction::Handshake { .. }));
}

#[test]
fn budget_spent_without_line_end_gives_no_code() {
    let mut s = reading("example.com");
    let response = b"HTTP/1.1 200 OK-this-reason-is-long\r\n";
    match s.step(ProbeEvent::Received(response[..32].to_vec())) {
        ProbeAction::Finish { code } => assert_eq!(code, None),
        _ => panic!("the budget is spent"),
    }
}

#[test]
fn cut_character_after_status_line_keeps_code() {
    let mut s = reading("example.com");
    let response = b"HTTP/1.1 200 OK\r\nX-Name: abcdef\xc3\xa9\r\n";
    match s.step(ProbeEvent::Received(response[..32].to_vec())) {
        ProbeAction::Finish { code } => assert_eq!(code, Some(200)),
        _ => panic!("the status line has ended"),
    }
}
