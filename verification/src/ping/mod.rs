//! Pinging one server: the exchanges of both editions, and the ways in which they fail.
use crate::json::{json_view, Json};
use crate::text::{decimal, push_decimal};
use std::time::Duration;
use vstd::prelude::*;

pub mod bedrock;
pub mod java;
pub mod wire;

pub use bedrock::BedrockPinger;
pub use java::JavaPinger;

verus! {

/// Why a ping failed.
#[derive(Debug)]
pub enum PingError {
    Timeout(String),
    ConnectionRefused,
    DnsError(String),
    IoError(String),
    ParseError(String),
}

/// What a `PingError` says.
pub enum Failure {
    Timeout(Seq<char>),
    ConnectionRefused,
    DnsError(Seq<char>),
    IoError(Seq<char>),
    ParseError(Seq<char>),
}

impl View for PingError {
    type V = Failure;

    open spec fn view(&self) -> Failure {
        match self {
            PingError::Timeout(msg) => Failure::Timeout(msg@),
            PingError::ConnectionRefused => Failure::ConnectionRefused,
            PingError::DnsError(msg) => Failure::DnsError(msg@),
            PingError::IoError(msg) => Failure::IoError(msg@),
            PingError::ParseError(msg) => Failure::ParseError(msg@),
        }
    }
}

impl Failure {
    /// The failure in words, as clients read it.
    pub open spec fn message(self) -> Seq<char> {
        match self {
            Failure::Timeout(msg) => "Request timed out: "@ + msg,
            Failure::ConnectionRefused => "Connection refused"@,
            Failure::DnsError(msg) => "DNS resolution failed: "@ + msg,
            Failure::IoError(msg) => "IO error: "@ + msg,
            Failure::ParseError(msg) => "Parse error: "@ + msg,
        }
    }
}

/// The kinds of I/O failure that a ping tells apart.
#[derive(Debug, Clone, Copy, PartialEq, Eq, Structural)]
pub enum IoFailureKind {
    ConnectionRefused,
    TimedOut,
    Other,
}

/// An I/O failure: its kind, and what the system says of it.
#[derive(Debug)]
pub struct IoFailure {
    pub kind: IoFailureKind,
    pub message: String,
}

impl IoFailure {
    /// The failed ping that an I/O failure makes.
    pub open spec fn failure(self) -> Failure {
        match self.kind {
            IoFailureKind::ConnectionRefused => Failure::ConnectionRefused,
            IoFailureKind::TimedOut => Failure::Timeout(self.message@),
            IoFailureKind::Other => Failure::IoError(self.message@),
        }
    }
}

/// Why nothing was received: an I/O failure in words, or the given number of seconds ran out.
pub enum ReceiveFailure {
    Io(String),
    TimedOut(String),
}

impl ReceiveFailure {
    /// The failed ping that this makes.
    pub open spec fn failure(self) -> Failure {
        match self {
            ReceiveFailure::Io(e) => Failure::IoError(e@),
            ReceiveFailure::TimedOut(seconds) => timed_out(seconds@),
        }
    }
}

/// What came of sending something, or of readying a socket for it.
pub open spec fn sending(outcome: Result<(), String>) -> Result<(), Failure> {
    match outcome {
        Ok(_) => Ok(()),
        Err(e) => Err(Failure::IoError(e@)),
    }
}

/// What came of the lookup of a host: its first IP address, or why it has none.
pub open spec fn looked_up(ip: Result<Option<String>, String>) -> Result<Seq<char>, Failure> {
    match ip {
        Ok(Some(host)) => Ok(host@),
        Ok(None) => Err(Failure::DnsError("No IP addresses found"@)),
        Err(e) => Err(Failure::DnsError(e@)),
    }
}

/// The seconds that each wait of a ping may take.
pub const PING_TIMEOUT_SECS: u64 = 5;

/// A pinger of one server, of either edition.
pub enum Pinger {
    Bedrock(BedrockPinger),
    Java(JavaPinger),
}

/// What a `Pinger` holds.
pub enum PingerView {
    Bedrock { address: Seq<char>, port: u16, timeout: Duration },
    Java { address: Seq<char>, port: u16, timeout: Duration, srv_prefix: Seq<char> },
}

impl View for Pinger {
    type V = PingerView;

    open spec fn view(&self) -> PingerView {
        match self {
            Pinger::Bedrock(p) => PingerView::Bedrock {
                address: p.address@,
                port: p.port,
                timeout: p.timeout,
            },
            Pinger::Java(p) => PingerView::Java {
                address: p.address@,
                port: p.port,
                timeout: p.timeout,
                srv_prefix: p.srv_prefix@,
            },
        }
    }
}

/// The pinger of the edition that a server has.
pub open spec fn pinger_for(
    address: Seq<char>,
    port: u16,
    bedrock: bool,
    timeout: Duration,
    srv_prefix: Seq<char>,
) -> PingerView {
    if bedrock {
        PingerView::Bedrock { address, port, timeout }
    } else {
        PingerView::Java { address, port, timeout, srv_prefix }
    }
}

impl Pinger {
    /// The pinger of the edition that a server has. Only the Java edition has service records.
    pub fn new(address: &str, port: u16, bedrock: bool, timeout: Duration, srv_prefix: &str) -> (pinger:
        Self)
        ensures
            pinger@ == pinger_for(address@, port, bedrock, timeout, srv_prefix@),
            match pinger {
                Pinger::Bedrock(p) => {
                    &&& bedrock
                    &&& p.address@ == address@
                    &&& p.port == port
                    &&& p.timeout == timeout
                },
                Pinger::Java(p) => {
                    &&& !bedrock
                    &&& p.address@ == address@
                    &&& p.port == port
                    &&& p.timeout == timeout
                    &&& p.srv_prefix@ == srv_prefix@
                },
            },
    {
        if bedrock {
            Pinger::Bedrock(BedrockPinger::new(address, port, timeout))
        } else {
            Pinger::Java(JavaPinger::new(address, port, timeout, srv_prefix))
        }
    }
}

/// A text put behind another.
fn joined(head: &str, tail: &str) -> (text: String)
    ensures
        text@ == head@ + tail@,
{
    head.to_owned().concat(tail)
}

impl PingError {
    /// The failure in words, as clients read it.
    pub fn message(&self) -> (text: String)
        ensures
            text@ == self@.message(),
    {
        match self {
            PingError::Timeout(msg) => joined("Request timed out: ", msg),
            PingError::ConnectionRefused => "Connection refused".to_owned(),
            PingError::DnsError(msg) => joined("DNS resolution failed: ", msg),
            PingError::IoError(msg) => joined("IO error: ", msg),
            PingError::ParseError(msg) => joined("Parse error: ", msg),
        }
    }

    /// The failure of a step that was given a number of seconds and did not end in time.
    pub fn timed_out(seconds: &str) -> (error: PingError)
        ensures
            error@ == timed_out(seconds@),
    {
        PingError::Timeout(joined(seconds, " seconds"))
    }
}

/// What is said of a step that did not end within some seconds.
pub open spec fn timed_out(seconds: Seq<char>) -> Failure {
    Failure::Timeout(seconds + " seconds"@)
}

/// What came of a ping.
pub open spec fn result_view(result: Result<serde_json::Value, PingError>) -> Result<Json, Failure> {
    match result {
        Ok(document) => Ok(json_view(document)),
        Err(error) => Err(error@),
    }
}

/// A host and a port in one text, with a colon between them.
pub open spec fn host_and_port(host: Seq<char>, port: u16) -> Seq<char> {
    host + ":"@ + decimal(port as nat)
}

/// A host and a port in one text, with a colon between them.
pub(crate) fn with_port(host: &str, port: u16) -> (text: String)
    ensures
        text@ == host_and_port(host@, port),
{
    let mut text = joined(host, ":");
    push_decimal(&mut text, port as u64);
    text
}

impl From<IoFailure> for PingError {
    fn from(failure: IoFailure) -> (error: PingError) {
        match failure.kind {
            IoFailureKind::ConnectionRefused => PingError::ConnectionRefused,
            IoFailureKind::TimedOut => PingError::Timeout(failure.message),
            IoFailureKind::Other => PingError::IoError(failure.message),
        }
    }
}

impl vstd::std_specs::convert::FromSpecImpl<IoFailure> for PingError {
    open spec fn obeys_from_spec() -> bool {
        true
    }

    open spec fn from_spec(failure: IoFailure) -> PingError {
        match failure.kind {
            IoFailureKind::ConnectionRefused => PingError::ConnectionRefused,
            IoFailureKind::TimedOut => PingError::Timeout(failure.message),
            IoFailureKind::Other => PingError::IoError(failure.message),
        }
    }
}

/// What clients read of each failure: what kind it is, then what is known of it.
pub proof fn law_failures_in_words(detail: Seq<char>)
    ensures
        Failure::Timeout(detail).message() == "Request timed out: "@ + detail,
        Failure::ConnectionRefused.message() == "Connection refused"@,
        Failure::DnsError(detail).message() == "DNS resolution failed: "@ + detail,
        Failure::IoError(detail).message() == "IO error: "@ + detail,
        Failure::ParseError(detail).message() == "Parse error: "@ + detail,
        timed_out(detail).message() == "Request timed out: "@ + detail + " seconds"@,
{
    assert(timed_out(detail).message() =~= "Request timed out: "@ + detail + " seconds"@);
}

/// A refused connection and a timeout of the system are failures of their own kind; any other I/O
/// failure is reported in the system's words.
pub proof fn law_io_failures(failure: IoFailure)
    ensures
        failure.kind == IoFailureKind::ConnectionRefused <==> failure.failure()
            == Failure::ConnectionRefused,
        failure.kind == IoFailureKind::TimedOut <==> failure.failure() == Failure::Timeout(
            failure.message@,
        ),
        failure.kind == IoFailureKind::Other <==> failure.failure() == Failure::IoError(
            failure.message@,
        ),
        <PingError as vstd::std_specs::convert::FromSpec<IoFailure>>::from_spec(failure)@
            == failure.failure(),
{
}

/// What failed outside a ping is what the ping says: a lookup that failed or found nothing, a
/// packet that did not go out, an answer that did not come.
pub proof fn law_outside_failures(words: String, ip: String)
    ensures
        looked_up(Ok(Some(ip))) == Ok::<Seq<char>, Failure>(ip@),
        looked_up(Ok(None)) == Err::<Seq<char>, Failure>(
            Failure::DnsError("No IP addresses found"@),
        ),
        looked_up(Err(words)) == Err::<Seq<char>, Failure>(Failure::DnsError(words@)),
        sending(Ok(())) == Ok::<(), Failure>(()),
        sending(Err(words)) == Err::<(), Failure>(Failure::IoError(words@)),
        ReceiveFailure::Io(words).failure() == Failure::IoError(words@),
        ReceiveFailure::TimedOut(words).failure() == Failure::Timeout(words@ + " seconds"@),
{
}

/// A host and a port in one text: the host, a colon, and the port in decimal.
pub proof fn law_host_and_port(host: Seq<char>, port: u16)
    ensures
        ({
            let text = host_and_port(host, port);
            let n = host.len() as int;
            &&& text.take(n) == host
            &&& text[n] == ':'
            &&& text.skip(n + 1) == decimal(port as nat)
        }),
{
    reveal_strlit(":");
    let text = host_and_port(host, port);
    let n = host.len() as int;
    assert(text.take(n) =~= host);
    assert(text.skip(n + 1) =~= decimal(port as nat));
}

/// A server is pinged by the exchange of its own edition, at the address and port that were given.
pub proof fn law_pinger_of_the_edition(
    address: Seq<char>,
    port: u16,
    bedrock: bool,
    timeout: Duration,
    srv_prefix: Seq<char>,
)
    ensures
        ({
            let pinger = pinger_for(address, port, bedrock, timeout, srv_prefix);
            &&& pinger is Bedrock <==> bedrock
            &&& pinger is Bedrock ==> pinger->Bedrock_address == address && pinger->Bedrock_port
                == port && pinger->Bedrock_timeout == timeout
            &&& pinger is Java ==> pinger->Java_address == address && pinger->Java_port == port
                && pinger->Java_timeout == timeout && pinger->srv_prefix == srv_prefix
        }),
{
}

} // verus!
