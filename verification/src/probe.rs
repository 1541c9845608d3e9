use vstd::prelude::*;
use std::time::Duration;
use rustls::pki_types::ServerName;

use crate::status::{parse_status_code, status_code};
use crate::tls::CertOutcome;

verus! {

/// `rustls::pki_types::ServerName`, handed to the TLS handshake as an
/// opaque value.
#[verifier::external_type_specification]
#[verifier::external_body]
pub struct ExServerName<'a>(ServerName<'a>);

/// Per-phase probe deadlines. Each phase's clock starts fresh; the worst
/// case for a whole probe is the sum of the three.
#[derive(Clone, Copy, Debug)]
pub struct Timeouts {
    pub connect: Duration,
    pub handshake: Duration,
    /// Covers writing the request and reading the status line.
    pub read: Duration,
}

/// What every probe of a run shares: the path to request, the User-Agent
/// to send, the TCP port and the per-phase deadlines.
#[derive(Clone, Debug)]
pub struct ProbeConfig {
    pub path: String,
    pub user_agent: String,
    pub port: u16,
    pub timeouts: Timeouts,
}

/// Result of a single probe.
#[derive(Debug)]
pub struct ProbeOutcome {
    /// HTTP status code if a status line was parsed; none on any failure.
    pub code: Option<u16>,
    /// Certificate chain validation result, if the handshake reached the
    /// certificate check; none when it failed before that.
    pub cert: Option<CertOutcome>,
}

impl Default for ProbeOutcome {
    fn default() -> (o: ProbeOutcome)
        ensures
            o.code is None,
            o.cert is None,
    {
        ProbeOutcome { code: None, cert: None }
    }
}

/// The most bytes read while looking for the end of the status line.
pub const MAX_STATUS_PEEK: usize = 32;

/// The request a probe sends: a `GET` of the path with the `Host`,
/// `User-Agent`, `Accept` and `Connection: close` headers.
pub open spec fn request_text(path: Seq<char>, host: Seq<char>, user_agent: Seq<char>) -> Seq<char> {
    "GET "@ + path + " HTTP/1.1\r\nHost: "@ + host + "\r\nUser-Agent: "@ + user_agent
        + "\r\nAccept: */*\r\nConnection: close\r\n\r\n"@
}

/// Builds the HTTP/1.1 request for `path` on `host`.
pub fn build_request(path: &str, host: &str, user_agent: &str) -> (r: String)
    ensures
        r@ == request_text(path@, host@, user_agent@),
{
    let mut r = String::new();
    r.append("GET ");
    r.append(path);
    r.append(" HTTP/1.1\r\nHost: ");
    r.append(host);
    r.append("\r\nUser-Agent: ");
    r.append(user_agent);
    r.append("\r\nAccept: */*\r\nConnection: close\r\n\r\n");
    assert(r@ =~= request_text(path@, host@, user_agent@));
    r
}

/// Whether `ServerName::try_from` of rustls-pki-types accepts `host` as a
/// DNS name or, failing that, as an IP address literal.
pub uninterp spec fn accepts_server_name(host: Seq<char>) -> bool;

/// The server name that `ServerName::try_from` of rustls-pki-types makes
/// of an accepted `host`: the name sent in SNI and checked against the
/// certificate chain.
pub uninterp spec fn server_name_of(host: Seq<char>) -> ServerName<'static>;

/// `ServerName::try_from(String)` (rustls-pki-types): the host as a server
/// name, none when it is neither a valid DNS name nor an IP address. The
/// same host always gives the same name.
#[verifier::external_body]
fn server_name_for(host: &str) -> (r: Option<ServerName<'static>>)
    ensures
        r is Some <==> accepts_server_name(host@),
        r matches Some(n) ==> n == server_name_of(host@),
{
    ServerName::try_from(host.to_string()).ok()
}

/// Whether `bytes` holds a `"\r\n"`.
pub open spec fn has_crlf(bytes: Seq<u8>) -> bool {
    exists|i: int| 0 <= i && i + 1 < bytes.len() && #[trigger] bytes[i] == 0x0d && bytes[i + 1] == 0x0a
}

/// Where the first `"\r\n"` at or after `i` starts, or `bytes.len()` when
/// there is none.
pub open spec fn crlf_from(bytes: Seq<u8>, i: int) -> int
    decreases bytes.len() - i,
{
    if i < 0 || i + 1 >= bytes.len() {
        bytes.len() as int
    } else if bytes[i] == 0x0d && bytes[i + 1] == 0x0a {
        i
    } else {
        crlf_from(bytes, i + 1)
    }
}

/// The bytes of the status line: those before the first `"\r\n"`.
pub open spec fn status_line_bytes(bytes: Seq<u8>) -> Seq<u8> {
    bytes.take(crlf_from(bytes, 0))
}

/// Finds the first `"\r\n"` in `bytes`.
fn find_crlf(bytes: &[u8]) -> (r: Option<usize>)
    ensures
        r is Some <==> has_crlf(bytes@),
        r matches Some(i) ==> i as int == crlf_from(bytes@, 0) && i < bytes@.len(),
{
    let mut i: usize = 0;
    while bytes.len() > 0 && i < bytes.len() - 1
        invariant
            0 <= i <= bytes@.len(),
            crlf_from(bytes@, 0) == crlf_from(bytes@, i as int),
            forall|j: int| 0 <= j < i && j + 1 < bytes@.len() ==> !(#[trigger] bytes@[j] == 0x0d && bytes@[j + 1] == 0x0a),
        decreases bytes.len() - i,
    {
        if bytes[i] == 0x0d && bytes[i + 1] == 0x0a {
            return Some(i);
        }
        i = i + 1;
    }
    None
}

/// The status code of the status line in `bytes`, which ends at the first
/// `"\r\n"`.
fn status_of_line(bytes: &Vec<u8>, end: usize) -> (code: Option<u16>)
    requires
        end as int == crlf_from(bytes@, 0),
        end < bytes@.len(),
    ensures
        code == status_code(status_line_bytes(bytes@)),
{
    let mut line = bytes.clone();
    line.truncate(end);
    assert(line@ =~= status_line_bytes(bytes@));
    parse_status_code(line.as_slice())
}

/// Where a probe stands.
#[derive(Clone, Copy, Debug, PartialEq, Eq)]
pub enum ProbePhase {
    /// Waiting for the TCP connection.
    Connecting,
    /// Waiting for the TLS handshake.
    Handshaking,
    /// Waiting for the request to be written.
    Sending,
    /// Reading the first bytes of the response.
    Reading,
    /// Finished, with the status code if one was read.
    Done(Option<u16>),
}

/// What happened to the last action a probe asked for.
#[derive(Debug)]
pub enum ProbeEvent {
    /// The TCP connection is open.
    Connected,
    /// The TLS handshake completed.
    HandshakeDone,
    /// The whole request was written.
    RequestWritten,
    /// A read returned these bytes; none means the peer closed.
    Received(Vec<u8>),
    /// The action failed or its deadline passed.
    Failed,
}

/// What a probe asks its driver to do next.
pub enum ProbeAction {
    /// Open a TCP connection to the host's address on `port` within `timeout`.
    Connect { port: u16, timeout: Duration },
    /// Run the TLS handshake for `server_name` within `timeout`.
    Handshake { server_name: ServerName<'static>, timeout: Duration },
    /// Write `request`; the `timeout` starts here and covers the reads that
    /// follow.
    Send { request: String, timeout: Duration },
    /// Read at most `max_len` more bytes.
    Read { max_len: usize },
    /// Close the connection; the probe's status code is `code`.
    Finish { code: Option<u16> },
}

/// The abstract state of a [`ProbeSession`].
pub struct ProbeSessionView {
    pub host: Seq<char>,
    pub path: Seq<char>,
    pub user_agent: Seq<char>,
    pub port: u16,
    pub timeouts: Timeouts,
    pub phase: ProbePhase,
    /// The response bytes read so far.
    pub received: Seq<u8>,
}

/// One probe of one host, as a state machine: the driver performs each
/// action and hands back what happened.
pub struct ProbeSession {
    host: String,
    path: String,
    user_agent: String,
    port: u16,
    timeouts: Timeouts,
    phase: ProbePhase,
    received: Vec<u8>,
}

impl View for ProbeSession {
    type V = ProbeSessionView;

    closed spec fn view(&self) -> ProbeSessionView {
        ProbeSessionView {
            host: self.host@,
            path: self.path@,
            user_agent: self.user_agent@,
            port: self.port,
            timeouts: self.timeouts,
            phase: self.phase,
            received: self.received@,
        }
    }
}

/// A session's bookkeeping is sound: it never holds more than
/// `MAX_STATUS_PEEK` bytes, and while it still reads it has room for more
/// and has not yet seen the end of the status line.
pub open spec fn session_wf(v: ProbeSessionView) -> bool {
    &&& v.received.len() <= MAX_STATUS_PEEK
    &&& v.phase is Reading ==> v.received.len() < MAX_STATUS_PEEK && !has_crlf(v.received)
    &&& !(v.phase is Reading || v.phase is Done) ==> v.received.len() == 0
}

pub open spec fn with_phase(v: ProbeSessionView, phase: ProbePhase) -> ProbeSessionView {
    ProbeSessionView { phase, ..v }
}

/// The state that bytes `chunk` lead to while reading. Once the peer
/// closes, the code is read from what arrived; once a `"\r\n"` has arrived,
/// from the status line before it; a budget used up without one ends the
/// probe without a code; otherwise reading goes on.
pub open spec fn after_bytes(v: ProbeSessionView, chunk: Seq<u8>) -> ProbeSessionView {
    if chunk.len() == 0 {
        with_phase(v, ProbePhase::Done(status_code(v.received)))
    } else {
        let r = v.received + chunk;
        if has_crlf(r) {
            ProbeSessionView { phase: ProbePhase::Done(status_code(status_line_bytes(r))), received: r, ..v }
        } else if r.len() >= MAX_STATUS_PEEK {
            ProbeSessionView { phase: ProbePhase::Done(None), received: r, ..v }
        } else {
            ProbeSessionView { phase: ProbePhase::Reading, received: r, ..v }
        }
    }
}

/// The state an event leads to. Any failure, and any event that does not
/// answer the pending action, ends the probe without a status code.
pub open spec fn next_session(v: ProbeSessionView, e: ProbeEvent) -> ProbeSessionView {
    match v.phase {
        ProbePhase::Done(_) => v,
        ProbePhase::Connecting => match e {
            ProbeEvent::Connected => if accepts_server_name(v.host) {
                with_phase(v, ProbePhase::Handshaking)
            } else {
                with_phase(v, ProbePhase::Done(None))
            },
            _ => with_phase(v, ProbePhase::Done(None)),
        },
        ProbePhase::Handshaking => match e {
            ProbeEvent::HandshakeDone => with_phase(v, ProbePhase::Sending),
            _ => with_phase(v, ProbePhase::Done(None)),
        },
        ProbePhase::Sending => match e {
            ProbeEvent::RequestWritten => with_phase(v, ProbePhase::Reading),
            _ => with_phase(v, ProbePhase::Done(None)),
        },
        ProbePhase::Reading => match e {
            ProbeEvent::Received(chunk) => after_bytes(v, chunk@),
            _ => with_phase(v, ProbePhase::Done(None)),
        },
    }
}

/// The action a session asks for in state `v`.
pub open spec fn action_fits(v: ProbeSessionView, a: ProbeAction) -> bool {
    match v.phase {
        ProbePhase::Connecting => a == ProbeAction::Connect { port: v.port, timeout: v.timeouts.connect },
        ProbePhase::Handshaking => a matches ProbeAction::Handshake { server_name, timeout }
            && server_name == server_name_of(v.host) && timeout == v.timeouts.handshake,
        ProbePhase::Sending => a matches ProbeAction::Send { request, timeout }
            && request@ == request_text(v.path, v.host, v.user_agent) && timeout == v.timeouts.read,
        ProbePhase::Reading => a matches ProbeAction::Read { max_len } && max_len == MAX_STATUS_PEEK - v.received.len(),
        ProbePhase::Done(code) => a matches ProbeAction::Finish { code: c } && c == code,
    }
}

impl ProbeSession {
    /// The bookkeeping of every session is sound.
    #[verifier::type_invariant]
    spec fn well_formed(self) -> bool {
        session_wf(self@)
    }

    /// Starts probing `host` with `cfg`; the first action is to connect.
    pub fn new(host: &str, cfg: &ProbeConfig) -> (r: (ProbeSession, ProbeAction))
        ensures
            r.0@.host == host@,
            r.0@.path == cfg.path@,
            r.0@.user_agent == cfg.user_agent@,
            r.0@.port == cfg.port,
            r.0@.timeouts == cfg.timeouts,
            r.0@.phase == ProbePhase::Connecting,
            r.0@.received.len() == 0,
            action_fits(r.0@, r.1),
    {
        let s = ProbeSession {
            host: host.to_owned(),
            path: cfg.path.clone(),
            user_agent: cfg.user_agent.clone(),
            port: cfg.port,
            timeouts: cfg.timeouts,
            phase: ProbePhase::Connecting,
            received: Vec::new(),
        };
        let a = ProbeAction::Connect { port: cfg.port, timeout: cfg.timeouts.connect };
        (s, a)
    }

    /// Where the probe stands.
    pub fn phase(&self) -> (p: ProbePhase)
        ensures
            p == self@.phase,
    {
        self.phase
    }

    /// Decides what follows a TCP connection, given the server name made of
    /// the host (none when it is not a valid name): the handshake for that
    /// name, or the end of the probe without a code.
    pub fn after_connect(&mut self, server_name: Option<ServerName<'static>>) -> (a: ProbeAction)
        requires
            old(self)@.phase == ProbePhase::Connecting,
            server_name matches Some(n) ==> n == server_name_of(old(self)@.host),
        ensures
            final(self)@ == with_phase(old(self)@, if server_name is Some {
                ProbePhase::Handshaking
            } else {
                ProbePhase::Done(None)
            }),
            action_fits(final(self)@, a),
    {
        proof {
            use_type_invariant(&*self);
        }
        match server_name {
            Some(n) => {
                self.phase = ProbePhase::Handshaking;
                ProbeAction::Handshake { server_name: n, timeout: self.timeouts.handshake }
            },
            None => {
                self.phase = ProbePhase::Done(None);
                ProbeAction::Finish { code: None }
            },
        }
    }

    /// Decides what follows the bytes a read returned.
    pub fn after_read(&mut self, chunk: Vec<u8>) -> (a: ProbeAction)
        requires
            old(self)@.phase == ProbePhase::Reading,
            chunk@.len() <= MAX_STATUS_PEEK - old(self)@.received.len(),
        ensures
            final(self)@ == after_bytes(old(self)@, chunk@),
            action_fits(final(self)@, a),
    {
        proof {
            use_type_invariant(&*self);
        }
        if chunk.len() == 0 {
            let code = parse_status_code(self.received.as_slice());
            self.phase = ProbePhase::Done(code);
            return ProbeAction::Finish { code };
        }
        let mut r = self.received.clone();
        let mut chunk = chunk;
        r.append(&mut chunk);
        match find_crlf(r.as_slice()) {
            Some(end) => {
                let code = status_of_line(&r, end);
                self.phase = ProbePhase::Done(code);
                self.received = r;
                ProbeAction::Finish { code }
            },
            None => {
                if r.len() >= MAX_STATUS_PEEK {
                    self.phase = ProbePhase::Done(None);
                    self.received = r;
                    ProbeAction::Finish { code: None }
                } else {
                    self.received = r;
                    ProbeAction::Read { max_len: MAX_STATUS_PEEK - self.received.len() }
                }
            },
        }
    }

    fn finish(&mut self, code: Option<u16>) -> (a: ProbeAction)
        ensures
            final(self)@ == with_phase(old(self)@, ProbePhase::Done(code)),
            a == (ProbeAction::Finish { code }),
    {
        proof {
            use_type_invariant(&*self);
        }
        self.phase = ProbePhase::Done(code);
        ProbeAction::Finish { code }
    }

    /// Advances the probe by what happened to the last action and returns
    /// the next one.
    pub fn step(&mut self, event: ProbeEvent) -> (a: ProbeAction)
        requires
            old(self)@.phase is Reading ==> (event matches ProbeEvent::Received(c)
                ==> c@.len() <= MAX_STATUS_PEEK - old(self)@.received.len()),
        ensures
            final(self)@ == next_session(old(self)@, event),
            action_fits(final(self)@, a),
    {
        proof {
            use_type_invariant(&*self);
        }
        match self.phase {
            ProbePhase::Done(code) => ProbeAction::Finish { code },
            ProbePhase::Connecting => match event {
                ProbeEvent::Connected => {
                    let name = server_name_for(self.host.as_str());
                    self.after_connect(name)
                },
                _ => self.finish(None),
            },
            ProbePhase::Handshaking => match event {
                ProbeEvent::HandshakeDone => {
                    self.phase = ProbePhase::Sending;
                    let request = build_request(self.path.as_str(), self.host.as_str(), self.user_agent.as_str());
                    ProbeAction::Send { request, timeout: self.timeouts.read }
                },
                _ => self.finish(None),
            },
            ProbePhase::Sending => match event {
                ProbeEvent::RequestWritten => {
                    self.phase = ProbePhase::Reading;
                    ProbeAction::Read { max_len: MAX_STATUS_PEEK }
                },
                _ => self.finish(None),
            },
            ProbePhase::Reading => match event {
                ProbeEvent::Received(chunk) => self.after_read(chunk),
                _ => self.finish(None),
            },
        }
    }
}

/// Any failure (a connect, handshake, write or read error, or a phase
/// deadline passing) ends an unfinished probe without a status code, and a
/// finished probe stays finished with its code.
pub proof fn law_failure_yields_no_code(v: ProbeSessionView, e: ProbeEvent)
    ensures
        !(v.phase is Done) ==> next_session(v, ProbeEvent::Failed).phase == ProbePhase::Done(None),
        v.phase is Done ==> next_session(v, e) == v,
{
}

proof fn lemma_no_crlf(bytes: Seq<u8>, i: int)
    requires
        0 <= i,
        !has_crlf(bytes),
    ensures
        crlf_from(bytes, i) == bytes.len(),
    decreases bytes.len() - i,
{
    if i + 1 < bytes.len() {
        if bytes[i] == 0x0d && bytes[i + 1] == 0x0a {
            assert(has_crlf(bytes));
        }
        lemma_no_crlf(bytes, i + 1);
    }
}

proof fn lemma_status_line_without_crlf(bytes: Seq<u8>)
    requires
        !has_crlf(bytes),
    ensures
        status_line_bytes(bytes) == bytes,
{
    lemma_no_crlf(bytes, 0);
    assert(bytes.take(bytes.len() as int) =~= bytes);
}

/// A status code is only ever reported from the response's status line: an
/// event that finishes a sound session with a code is a read, and the code
/// is the one the bytes before the first `"\r\n"` carry.
pub proof fn law_code_comes_from_status_line(v: ProbeSessionView, e: ProbeEvent, code: u16)
    requires
        session_wf(v),
        !(v.phase is Done),
        next_session(v, e).phase == ProbePhase::Done(Some(code)),
    ensures
        v.phase is Reading,
        e is Received,
        status_code(status_line_bytes(next_session(v, e).received)) == Some(code),
{
    if let ProbeEvent::Received(c) = e {
        if c@.len() == 0 {
            lemma_status_line_without_crlf(v.received);
        }
    }
}

/// Reading stops as soon as the end of the status line has arrived and
/// never goes past `MAX_STATUS_PEEK` bytes in all; a budget used up without
/// the end of the status line ends the probe without a code. The
/// bookkeeping stays sound under every event that respects the read budget.
pub proof fn law_read_budget(v: ProbeSessionView, e: ProbeEvent)
    requires
        session_wf(v),
        v.phase is Reading ==> (e matches ProbeEvent::Received(c) ==> c@.len() <= MAX_STATUS_PEEK - v.received.len()),
    ensures
        session_wf(next_session(v, e)),
        next_session(v, e).received.len() <= MAX_STATUS_PEEK,
        v.phase is Reading ==> (e matches ProbeEvent::Received(c) && has_crlf(v.received + c@)
            ==> next_session(v, e).phase is Done),
        v.phase is Reading ==> (e matches ProbeEvent::Received(c) && !has_crlf(v.received + c@)
            && (v.received + c@).len() == MAX_STATUS_PEEK
            ==> next_session(v, e).phase == ProbePhase::Done(None)),
{
    if v.phase is Reading {
        if let ProbeEvent::Received(c) = e {
            if c@.len() == 0 {
                assert(v.received + c@ =~= v.received);
            }
        }
    }
}

/// The request line is the method `GET`, the configured path verbatim as
/// the request target, and the protocol version; then the `Host` header
/// carries the host verbatim and the `User-Agent` header the configured
/// text verbatim; and the request ends with an empty line.
pub proof fn law_request_line(path: Seq<char>, host: Seq<char>, user_agent: Seq<char>)
    ensures
        request_text(path, host, user_agent).take(4) == seq!['G', 'E', 'T', ' '],
        request_text(path, host, user_agent).subrange(4, 4 + path.len() as int) == path,
        request_text(path, host, user_agent).subrange(4 + path.len() as int, 4 + path.len() as int + 17)
            == seq![' ', 'H', 'T', 'T', 'P', '/', '1', '.', '1', '\r', '\n', 'H', 'o', 's', 't', ':', ' '],
        request_text(path, host, user_agent).subrange(21 + path.len() as int, 21 + path.len() as int + host.len() as int) == host,
        request_text(path, host, user_agent).subrange(21 + path.len() as int + host.len() as int, 35 + path.len() as int + host.len() as int)
            == seq!['\r', '\n', 'U', 's', 'e', 'r', '-', 'A', 'g', 'e', 'n', 't', ':', ' '],
        request_text(path, host, user_agent).subrange(35 + path.len() as int + host.len() as int,
            35 + path.len() as int + host.len() as int + user_agent.len() as int) == user_agent,
        request_text(path, host, user_agent).len() >= 4,
        request_text(path, host, user_agent).subrange(
            request_text(path, host, user_agent).len() - 4,
            request_text(path, host, user_agent).len() as int,
        ) == seq!['\r', '\n', '\r', '\n'],
{
    reveal_strlit("GET ");
    reveal_strlit(" HTTP/1.1\r\nHost: ");
    reveal_strlit("\r\nUser-Agent: ");
    reveal_strlit("\r\nAccept: */*\r\nConnection: close\r\n\r\n");
    let r = request_text(path, host, user_agent);
    let tail = "\r\nAccept: */*\r\nConnection: close\r\n\r\n"@;
    assert(r.take(4) =~= seq!['G', 'E', 'T', ' ']);
    assert(r.subrange(4, 4 + path.len() as int) =~= path);
    assert(r.subrange(4 + path.len() as int, 4 + path.len() as int + 17)
        =~= seq![' ', 'H', 'T', 'T', 'P', '/', '1', '.', '1', '\r', '\n', 'H', 'o', 's', 't', ':', ' ']);
    assert(r.subrange(21 + path.len() as int, 21 + path.len() as int + host.len() as int) =~= host);
    assert(r.subrange(21 + path.len() as int + host.len() as int, 35 + path.len() as int + host.len() as int)
        =~= seq!['\r', '\n', 'U', 's', 'e', 'r', '-', 'A', 'g', 'e', 'n', 't', ':', ' ']);
    assert(r.subrange(35 + path.len() as int + host.len() as int,
        35 + path.len() as int + host.len() as int + user_agent.len() as int) =~= user_agent);
    assert(r.subrange(r.len() - 4, r.len() as int) =~= tail.subrange(tail.len() - 4, tail.len() as int));
    assert(r.subrange(r.len() - 4, r.len() as int) =~= seq!['\r', '\n', '\r', '\n']);
}

} // verus!
