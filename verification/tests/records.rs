use std::path::PathBuf;
use std::time::Duration;

use rustls::client::danger::ServerCertVerified;
use skim::{
    alpn_protocols, result_row, Args, CertOutcome, DnsAnswer, DnsData, DnsLine, NoVerifier,
    ProbeOutcome, SignatureKind,
};

fn answer(type_: &str, name: &str, data: &str) -> DnsAnswer {
    DnsAnswer { type_: type_.to_string(), name: name.to_string(), data: data.to_string() }
}

fn line(status: &str, answers: Option<Vec<DnsAnswer>>) -> DnsLine {
    DnsLine { status: status.to_string(), data: Some(DnsData { answers }) }
}

#[test]
fn first_a_record_strips_root_dot() {
    let l = line("NOERROR", Some(vec![answer("A", "example.com.", "1.2.3.4")]));
    assert_eq!(l.first_a_record(), Some(("example.com".to_string(), "1.2.3.4".to_string())));
}

#[test]
fn first_a_record_skips_other_types_and_keeps_first() {
    let l = line(
        "NOERROR",
        Some(vec![
            answer("CNAME", "www.example.com.", "example.com."),
            answer("A", "example.com", "5.6.7.8"),
            answer("A", "example.com.", "9.9.9.9"),
        ]),
    );
    assert_eq!(l.first_a_record(), Some(("example.com".to_string(), "5.6.7.8".to_string())));
}

#[test]
fn first_a_record_rejects_other_shapes() {
    assert_eq!(line("NXDOMAIN", Some(vec![answer("A", "x.", "1.1.1.1")])).first_a_record(), None);
    assert_eq!(line("NOERROR", None).first_a_record(), None);
    assert_eq!(line("NOERROR", Some(vec![answer("AAAA", "x.", "::1")])).first_a_record(), None);
    let no_data = DnsLine { status: "NOERROR".to_string(), data: None };
    assert_eq!(no_data.first_a_record(), None);
}

#[test]
fn cert_outcome_records_verdict() {
    assert_eq!(CertOutcome::from_verification(&Ok(ServerCertVerified::assertion())), CertOutcome::Valid);
    let err = rustls::Error::General("bad chain".to_string());
    let text = err.to_string();
    assert_eq!(CertOutcome::from_verification(&Err(err)), CertOutcome::Invalid(text));
}

#[test]
fn no_verifier_announces_all_schemes() {
    let v = NoVerifier.supported_verify_schemes();
    assert_eq!(v.len(), 10);
    assert_eq!(v[0], SignatureKind::RsaPkcs1Sha256);
    assert_eq!(v[9], SignatureKind::Ed25519);
}

#[test]
fn alpn_is_http1_only() {
    assert_eq!(alpn_protocols(), vec![b"http/1.1".to_vec()]);
}

#[test]
fn result_row_reports_success_and_cert() {
    let ok = ProbeOutcome { code: Some(200), cert: Some(CertOutcome::Valid) };
    let row = result_row("example.com", "/robots.txt", &ok);
    assert_eq!(row.url, "https://example.com/robots.txt");
    assert_eq!(row.status, "success");
    assert_eq!(row.code, Some(200));
    assert_eq!(row.cert_ok, Some(true));

    let bad = ProbeOutcome { code: None, cert: Some(CertOutcome::Invalid("x".to_string())) };
    let row = result_row("a.b", "/", &bad);
    assert_eq!(row.status, "fail");
    assert_eq!(row.cert_ok, Some(false));

    let row = result_row("a.b", "/", &ProbeOutcome::default());
    assert_eq!(row.code, None);
    assert_eq!(row.cert_ok, None);
}

#[test]
fn args_give_probe_config() {
    let args = Args {
        input: PathBuf::from("dns.ndjson"),
        output: PathBuf::from("out.ndjson"),
        concurrency: 100,
        path: "/".to_string(),
        user_agent: "ua".to_string(),
        port: 8443,
        connect_timeout: Duration::from_secs(2),
        handshake_timeout: Duration::from_secs(3),
        read_timeout: Duration::from_millis(500),
        start_line: 1,
        skip_precount: false,
    };
    let c = args.probe_config();
    assert_eq!(c.path, "/");
    assert_eq!(c.user_agent, "ua");
    assert_eq!(c.port, 8443);
    assert_eq!(c.timeouts.connect, Duration::from_secs(2));
    assert_eq!(c.timeouts.handshake, Duration::from_secs(3));
    assert_eq!(c.timeouts.read, Duration::from_millis(500));
}
