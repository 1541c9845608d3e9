use vstd::prelude::*;
use rustls::client::danger::ServerCertVerified;

verus! {

/// `rustls::Error`, carried through as an opaque value.
#[verifier::external_type_specification]
#[verifier::external_body]
pub struct ExRustlsError(rustls::Error);

/// `rustls::client::danger::ServerCertVerified`, the token of an accepted
/// certificate chain, carried through as an opaque value.
#[verifier::external_type_specification]
#[verifier::external_body]
pub struct ExServerCertVerified(ServerCertVerified);

/// Outcome of one probe's certificate chain validation.
#[derive(Clone, Debug, PartialEq, Eq)]
pub enum CertOutcome {
    Valid,
    Invalid(String),
}

impl CertOutcome {
    /// Records what a chain-validating verifier answered: an accepted chain
    /// is `Valid`, a rejected one is `Invalid` with the error's text.
    pub fn from_verification(result: &Result<ServerCertVerified, rustls::Error>) -> (o: CertOutcome)
        ensures
            (o is Valid) == (result is Ok),
            (o is Invalid) == (result is Err),
            o matches CertOutcome::Invalid(text) ==> (result matches Err(e)
                && vstd::string::to_string_from_display_ensures::<rustls::Error>(&e, text)),
    {
        match result {
            Ok(_) => CertOutcome::Valid,
            Err(e) => CertOutcome::Invalid(e.to_string()),
        }
    }
}

/// The handshake signature schemes a verifier can announce.
#[derive(Clone, Copy, Debug, PartialEq, Eq)]
pub enum SignatureKind {
    RsaPkcs1Sha256,
    RsaPkcs1Sha384,
    RsaPkcs1Sha512,
    EcdsaNistp256Sha256,
    EcdsaNistp384Sha384,
    EcdsaNistp521Sha512,
    RsaPssSha256,
    RsaPssSha384,
    RsaPssSha512,
    Ed25519,
}

/// The schemes a verifier that accepts everything announces, in order.
pub open spec fn accept_all_schemes() -> Seq<SignatureKind> {
    seq![
        SignatureKind::RsaPkcs1Sha256,
        SignatureKind::RsaPkcs1Sha384,
        SignatureKind::RsaPkcs1Sha512,
        SignatureKind::EcdsaNistp256Sha256,
        SignatureKind::EcdsaNistp384Sha384,
        SignatureKind::EcdsaNistp521Sha512,
        SignatureKind::RsaPssSha256,
        SignatureKind::RsaPssSha384,
        SignatureKind::RsaPssSha512,
        SignatureKind::Ed25519,
    ]
}

/// Certificate verifier that accepts every certificate without
/// validation. This gives up every TLS authenticity guarantee; prefer
/// recording the outcome of a real verifier when the question is whether
/// a certificate would have been valid.
pub struct NoVerifier;

impl NoVerifier {
    /// The signature schemes this verifier claims to check.
    pub fn supported_verify_schemes(&self) -> (v: Vec<SignatureKind>)
        ensures
            v@ == accept_all_schemes(),
    {
        let v = vec![
            SignatureKind::RsaPkcs1Sha256,
            SignatureKind::RsaPkcs1Sha384,
            SignatureKind::RsaPkcs1Sha512,
            SignatureKind::EcdsaNistp256Sha256,
            SignatureKind::EcdsaNistp384Sha384,
            SignatureKind::EcdsaNistp521Sha512,
            SignatureKind::RsaPssSha256,
            SignatureKind::RsaPssSha384,
            SignatureKind::RsaPssSha512,
            SignatureKind::Ed25519,
        ];
        assert(v@ =~= accept_all_schemes());
        v
    }
}

/// The ALPN protocol list both client configurations advertise.
pub open spec fn http1_alpn() -> Seq<Seq<u8>> {
    seq![seq![0x68u8, 0x74u8, 0x74u8, 0x70u8, 0x2fu8, 0x31u8, 0x2eu8, 0x31u8]]
}

/// The ALPN protocols to advertise: `http/1.1` alone.
pub fn alpn_protocols() -> (v: Vec<Vec<u8>>)
    ensures
        v@.map_values(|p: Vec<u8>| p@) == http1_alpn(),
{
    let p: Vec<u8> = vec![0x68u8, 0x74u8, 0x74u8, 0x70u8, 0x2fu8, 0x31u8, 0x2eu8, 0x31u8];
    let v = vec![p];
    assert(v@.map_values(|p: Vec<u8>| p@) =~= http1_alpn()) by {
        assert(v@[0]@ =~= http1_alpn()[0]);
    }
    v
}

/// A verifier that accepts everything announces every scheme, each once.
pub proof fn law_accept_all_schemes(k: SignatureKind)
    ensures
        accept_all_schemes().contains(k),
        accept_all_schemes().no_duplicates(),
        accept_all_schemes().len() == 10,
{
    let s = accept_all_schemes();
    let i: int = match k {
        SignatureKind::RsaPkcs1Sha256 => 0,
        SignatureKind::RsaPkcs1Sha384 => 1,
        SignatureKind::RsaPkcs1Sha512 => 2,
        SignatureKind::EcdsaNistp256Sha256 => 3,
        SignatureKind::EcdsaNistp384Sha384 => 4,
        SignatureKind::EcdsaNistp521Sha512 => 5,
        SignatureKind::RsaPssSha256 => 6,
        SignatureKind::RsaPssSha384 => 7,
        SignatureKind::RsaPssSha512 => 8,
        SignatureKind::Ed25519 => 9,
    };
    assert(s[i] == k);
    assert forall|a: int, b: int| 0 <= a < s.len() && 0 <= b < s.len() && a != b implies s[a] != s[b] by {
    }
}

} // verus!
