//! Streamy HTTPS prober: the decision logic behind probing many hosts for
//! one HTTP status line each, with every step stated and proved.
//!
//! A probe sends a raw HTTP/1.1 request over TLS and closes the connection
//! as soon as the response status line has been read, so that a scan of
//! many hosts only pays for the status code (or a failure), plus the
//! outcome of the certificate check, recorded without aborting handshakes
//! with bad certificates.

pub mod cli;
pub mod input;
pub mod probe;
pub mod progress;
pub mod report;
pub mod status;
pub mod tls;

pub use cli::Args;
pub use input::{DnsAnswer, DnsData, DnsLine};
pub use probe::{ProbeAction, ProbeConfig, ProbeEvent, ProbeOutcome, ProbePhase, ProbeSession, Timeouts};
pub use progress::{eta_seconds, fmt_duration, precount_step, Progress, Snapshot};
pub use report::{result_row, ResultRow};
pub use status::parse_status_code;
pub use tls::{alpn_protocols, CertOutcome, NoVerifier, SignatureKind};
