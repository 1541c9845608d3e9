use vstd::prelude::*;
use std::path::PathBuf;
use std::time::Duration;

use crate::probe::{ProbeConfig, Timeouts};

verus! {

/// `std::path::PathBuf`, carried through as an opaque value.
#[verifier::external_type_specification]
#[verifier::external_body]
pub struct ExPathBuf(PathBuf);

/// The settings of a run.
#[derive(Debug)]
pub struct Args {
    /// Input NDJSON DNS file (massdns format).
    pub input: PathBuf,
    /// Output NDJSON results file (appended).
    pub output: PathBuf,
    /// Number of concurrent probes.
    pub concurrency: usize,
    /// HTTP path to request.
    pub path: String,
    /// User-Agent header.
    pub user_agent: String,
    /// TCP port.
    pub port: u16,
    /// TCP connect timeout.
    pub connect_timeout: Duration,
    /// TLS handshake timeout.
    pub handshake_timeout: Duration,
    /// Deadline for writing the request and reading the status line.
    pub read_timeout: Duration,
    /// 1-indexed input line to start probing from; earlier lines are read
    /// and discarded.
    pub start_line: u64,
    /// Skip the pre-pass that counts probeable records.
    pub skip_precount: bool,
}

impl Args {
    /// The configuration every probe of this run shares.
    pub fn probe_config(&self) -> (c: ProbeConfig)
        ensures
            c.path@ == self.path@,
            c.user_agent@ == self.user_agent@,
            c.port == self.port,
            c.timeouts.connect == self.connect_timeout,
            c.timeouts.handshake == self.handshake_timeout,
            c.timeouts.read == self.read_timeout,
    {
        ProbeConfig {
            path: self.path.clone(),
            user_agent: self.user_agent.clone(),
            port: self.port,
            timeouts: Timeouts {
                connect: self.connect_timeout,
                handshake: self.handshake_timeout,
                read: self.read_timeout,
            },
        }
    }
}

} // verus!
