use vstd::prelude::*;

use crate::probe::ProbeOutcome;
use crate::tls::CertOutcome;

verus! {

/// One output row: the probed URL, whether a status line came back, its
/// code, and whether the certificate chain was trusted.
#[derive(Debug)]
pub struct ResultRow {
    pub url: String,
    pub status: String,
    pub code: Option<u16>,
    pub cert_ok: Option<bool>,
}

/// The certificate verdict of a row: trusted, untrusted, or unknown when
/// the handshake never reached the certificate check.
pub open spec fn cert_ok_of(cert: Option<CertOutcome>) -> Option<bool> {
    match cert {
        Some(CertOutcome::Valid) => Some(true),
        Some(CertOutcome::Invalid(_)) => Some(false),
        None => None,
    }
}

/// The row reporting a probe of `path` on `host`.
pub fn result_row(host: &str, path: &str, outcome: &ProbeOutcome) -> (row: ResultRow)
    ensures
        row.url@ == "https://"@ + host@ + path@,
        row.status@ == (if outcome.code is Some { "success"@ } else { "fail"@ }),
        row.code == outcome.code,
        row.cert_ok == cert_ok_of(outcome.cert),
{
    let cert_ok = match &outcome.cert {
        Some(CertOutcome::Valid) => Some(true),
        Some(CertOutcome::Invalid(_)) => Some(false),
        None => None,
    };
    let mut url = String::new();
    url.append("https://");
    url.append(host);
    url.append(path);
    let status = if outcome.code.is_some() { "success".to_owned() } else { "fail".to_owned() };
    assert(url@ =~= "https://"@ + host@ + path@);
    ResultRow { url, status, code: outcome.code, cert_ok }
}

/// A row says the certificate was trusted exactly when the verifier
/// accepted it, untrusted exactly when it rejected it, and nothing exactly
/// when the handshake never reached the check.
pub proof fn law_cert_ok(cert: Option<CertOutcome>)
    ensures
        cert_ok_of(cert) == Some(true) <==> cert == Some(CertOutcome::Valid),
        cert_ok_of(cert) == Some(false) <==> (cert matches Some(CertOutcome::Invalid(_))),
        cert_ok_of(cert) is None <==> cert is None,
{
}

} // verus!
