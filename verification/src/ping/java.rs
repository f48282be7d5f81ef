//! Pinging a server of the Java edition.
use super::{
    host_and_port, looked_up, result_view, sending, timed_out, with_port, Failure, IoFailure,
    PingError, ReceiveFailure,
};
use super::wire::{
    frame, framed, law_frame_round_trip, law_varint_length, law_varint_round_trip,
    law_wire_string_round_trip,
    read_frame, read_varint, read_wire_string, varint, wire_string, wire_u16, write_string,
    write_varint,
};
use crate::json::{json_null, json_parse, json_parsed, json_set, json_text, json_u64, json_view, Json};
use crate::text::{
    characters, decimal, decode_lossy, option_view, strip_trailing, text_between, utf8_lossy, without_trailing,
};
use std::time::Duration;
use vstd::prelude::*;
use vstd::utf8::*;

verus! {

/// How many braces the first `n` characters open without closing them.
pub open spec fn brace_depth(text: Seq<char>, n: int) -> int
    decreases n,
{
    if n <= 0 {
        0
    } else {
        brace_depth(text, n - 1) + if text[n - 1] == '{' {
            1int
        } else if text[n - 1] == '}' {
            -1int
        } else {
            0int
        }
    }
}

/// Whether the character at `start` is a brace that opens at depth zero.
pub open spec fn opens_at(text: Seq<char>, start: int) -> bool {
    &&& 0 <= start < text.len()
    &&& text[start] == '{'
    &&& brace_depth(text, start) == 0
}

/// Whether the character before `end` is a brace that closes down to depth zero.
pub open spec fn closes_at(text: Seq<char>, end: int) -> bool {
    &&& 0 < end <= text.len()
    &&& text[end - 1] == '}'
    &&& brace_depth(text, end) == 0
}

/// Whether the first object in a text stands from `start` up to `end`: `end` is the first place
/// where braces close down to depth zero, and `start` the last place before it where one opens
/// there.
pub open spec fn is_object_span(text: Seq<char>, start: int, end: int) -> bool {
    &&& closes_at(text, end)
    &&& forall|e: int| e < end ==> !closes_at(text, e)
    &&& opens_at(text, start)
    &&& start < end
    &&& forall|s: int| start < s < end ==> !opens_at(text, s)
}

/// The first object in a text, by its braces.
pub open spec fn first_object(text: Seq<char>) -> Option<Seq<char>> {
    if exists|start: int, end: int| is_object_span(text, start, end) {
        let (start, end) = choose|start: int, end: int| is_object_span(text, start, end);
        Some(text.subrange(start, end))
    } else {
        None
    }
}

/// The document in a status response: the first object in it, where that is JSON.
pub open spec fn response_document(text: Seq<char>) -> Option<Json> {
    match first_object(text) {
        Some(object) => json_parsed(object),
        None => None,
    }
}

proof fn lemma_span_is_unique(text: Seq<char>, start: int, end: int)
    requires
        is_object_span(text, start, end),
    ensures
        first_object(text) == Some(text.subrange(start, end)),
{
    let (s, e) = choose|s: int, e: int| is_object_span(text, s, e);
    assert(is_object_span(text, s, e));
    assert(e == end) by {
        if e < end {
            assert(!closes_at(text, e));
        } else if end < e {
            assert(!closes_at(text, end));
        }
    }
    assert(s == start) by {
        if s < start {
            assert(!opens_at(text, start));
        } else if start < s {
            assert(!opens_at(text, s));
        }
    }
}

/// The first object in a text, by its braces.
pub fn find_object(text: &str) -> (object: Option<String>)
    ensures
        option_view(object) == first_object(text@),
        object matches Some(o) ==> o@.len() > 0 && o@[0] == '{',
{
    let chars = characters(text);
    let mut depth: i128 = 0;
    let mut start: Option<usize> = None;
    let mut i: usize = 0;
    while i < chars.len()
        invariant
            i <= chars@.len(),
            chars@ == text@,
            depth == brace_depth(text@, i as int),
            -i <= depth <= i,
            forall|e: int| e <= i ==> !closes_at(text@, e),
            start matches Some(s) ==> s < i && opens_at(text@, s as int) && forall|k: int|
                s < k < i ==> !opens_at(text@, k),
            start is None ==> forall|k: int| k < i ==> !opens_at(text@, k),
            depth >= 1 ==> start is Some,
        decreases chars@.len() - i,
    {
        let c = chars[i];
        if c == '{' {
            if depth == 0 {
                start = Some(i);
            }
            depth = depth + 1;
        } else if c == '}' {
            depth = depth - 1;
            if depth == 0 {
                match start {
                    Some(s) => {
                        proof {
                            assert(is_object_span(text@, s as int, i + 1));
                            lemma_span_is_unique(text@, s as int, i + 1);
                        }
                        return Some(text_between(&chars, s, i + 1));
                    },
                    None => {},
                }
            }
        }
        i = i + 1;
    }
    proof {
        if exists|s: int, e: int| is_object_span(text@, s, e) {
            let (s, e) = choose|s: int, e: int| is_object_span(text@, s, e);
            assert(closes_at(text@, e));
            assert(!closes_at(text@, e));
        }
    }
    None
}

/// The document in the bytes of a status response that have come so far.
pub fn extract_json(data: &[u8]) -> (document: Option<serde_json::Value>)
    ensures
        document is Some <==> response_document(utf8_lossy(data@)) is Some,
        document matches Some(value) ==> {
            &&& response_document(utf8_lossy(data@)) == Some(json_view(value))
            &&& json_view(value) is Object
        },
{
    let raw = decode_lossy(data);
    match find_object(&raw) {
        Some(object) => json_parse(&object),
        None => None,
    }
}

/// A pinger of one server of the Java edition.
pub struct JavaPinger {
    pub address: String,
    pub port: u16,
    pub timeout: Duration,
    pub srv_prefix: String,
}

/// Where a server was found: the text of its IP address, its port, and the service record that
/// named it, where one did.
pub struct Target {
    pub host: String,
    pub port: u16,
    pub srv_record: Option<String>,
}

/// What a `Target` holds.
pub struct TargetView {
    pub host: Seq<char>,
    pub port: u16,
    pub srv_record: Option<Seq<char>>,
}

impl View for Target {
    type V = TargetView;

    open spec fn view(&self) -> TargetView {
        TargetView {
            host: self.host@,
            port: self.port,
            srv_record: option_view(self.srv_record),
        }
    }
}

/// A service record: the name of a host, and a port on it.
pub struct SrvRecord {
    pub target: String,
    pub port: u16,
}

/// Why no connection came about: an I/O failure, or the given number of seconds ran out.
pub enum ConnectFailure {
    Io(IoFailure),
    TimedOut(String),
}

impl ConnectFailure {
    /// The failed ping that this makes.
    pub open spec fn failure(self) -> Failure {
        match self {
            ConnectFailure::Io(failure) => failure.failure(),
            ConnectFailure::TimedOut(seconds) => timed_out(seconds@),
        }
    }
}

/// The work that a ping of the Java edition waits for. Each step names the method of
/// `JavaPinger` that takes what came of it.
pub enum JavaStep {
    /// Read the address as an IP address, without asking anybody: `address_read`.
    ReadAddress,
    /// Look up the service record of this name: `srv_found`.
    LookupSrv { name: String },
    /// Look up the host that the service record names: `srv_target_found`.
    LookupSrvTarget { host: String, port: u16, srv_record: String },
    /// Look up the host itself: `host_found`.
    LookupHost { host: String },
    /// Connect to `address` within the timeout, and time it: `connected`.
    Connect { target: Target, address: String },
    /// Send a packet: `handshake_sent`.
    SendHandshake { target: Target, latency: u64, packet: Vec<u8> },
    /// Send a packet: `request_sent`.
    SendStatusRequest { target: Target, latency: u64, packet: Vec<u8> },
    /// Receive some bytes: `received`. All of these steps together share one timeout.
    Receive { target: Target, latency: u64, data: Vec<u8> },
    /// The ping is over.
    Finished { result: Result<serde_json::Value, PingError> },
}

/// What a `JavaStep` holds.
pub enum JavaStepView {
    ReadAddress,
    LookupSrv { name: Seq<char> },
    LookupSrvTarget { host: Seq<char>, port: u16, srv_record: Seq<char> },
    LookupHost { host: Seq<char> },
    Connect { target: TargetView, address: Seq<char> },
    SendHandshake { target: TargetView, latency: u64, packet: Seq<u8> },
    SendStatusRequest { target: TargetView, latency: u64, packet: Seq<u8> },
    Receive { target: TargetView, latency: u64, data: Seq<u8> },
    Finished { result: Result<Json, Failure> },
}

impl View for JavaStep {
    type V = JavaStepView;

    open spec fn view(&self) -> JavaStepView {
        match self {
            JavaStep::ReadAddress => JavaStepView::ReadAddress,
            JavaStep::LookupSrv { name } => JavaStepView::LookupSrv { name: name@ },
            JavaStep::LookupSrvTarget { host, port, srv_record } => JavaStepView::LookupSrvTarget {
                host: host@,
                port: *port,
                srv_record: srv_record@,
            },
            JavaStep::LookupHost { host } => JavaStepView::LookupHost { host: host@ },
            JavaStep::Connect { target, address } => JavaStepView::Connect {
                target: target@,
                address: address@,
            },
            JavaStep::SendHandshake { target, latency, packet } => JavaStepView::SendHandshake {
                target: target@,
                latency: *latency,
                packet: packet@,
            },
            JavaStep::SendStatusRequest { target, latency, packet } => {
                JavaStepView::SendStatusRequest {
                    target: target@,
                    latency: *latency,
                    packet: packet@,
                }
            },
            JavaStep::Receive { target, latency, data } => JavaStepView::Receive {
                target: target@,
                latency: *latency,
                data: data@,
            },
            JavaStep::Finished { result } => JavaStepView::Finished { result: result_view(*result) },
        }
    }
}

/// The step that ends a ping with a failure.
pub open spec fn failed(failure: Failure) -> JavaStepView {
    JavaStepView::Finished { result: Err(failure) }
}

/// The packet that announces a client: number 0, no particular protocol version, the address and
/// port that the client asks for, and that it asks for the status.
pub open spec fn handshake(address: Seq<char>, port: u16) -> Seq<u8> {
    seq![0u8] + varint(0xFFFF_FFFF) + wire_string(address) + wire_u16(port) + varint(1)
}

/// The packet that asks for the status: number 0, and nothing in it.
pub open spec fn status_request() -> Seq<u8> {
    seq![0u8]
}

/// A status response with what is known of the connection added to it.
pub open spec fn completed(
    response: Json,
    srv_record: Option<Seq<char>>,
    host: Seq<char>,
    port: u16,
    latency: u64,
) -> Json {
    response.with(
        "srvRecord"@,
        match srv_record {
            Some(name) => Json::Text(name),
            None => Json::Null,
        },
    ).with("host"@, Json::Text(host)).with("port"@, Json::Integer(port as int)).with(
        "latency"@,
        Json::Integer(latency as int),
    )
}

impl JavaPinger {
    /// The name of the server's service record.
    pub open spec fn service(self) -> Seq<char> {
        self.srv_prefix@ + "."@ + self.address@
    }

    /// The step that connects to a server that was found.
    pub open spec fn connecting(target: TargetView) -> JavaStepView {
        JavaStepView::Connect { target, address: host_and_port(target.host, target.port) }
    }

    /// The step after `data` has been received.
    pub open spec fn receiving(self, target: TargetView, latency: u64, data: Seq<u8>) -> JavaStepView {
        match response_document(utf8_lossy(data)) {
            Some(response) => JavaStepView::Finished {
                result: Ok(
                    completed(
                        response,
                        if target.srv_record is Some {
                            Some(self.service())
                        } else {
                            None
                        },
                        target.host,
                        target.port,
                        latency,
                    ),
                ),
            },
            None => JavaStepView::Receive { target, latency, data },
        }
    }

    /// A server found by its own address.
    pub open spec fn direct(self, host: Seq<char>) -> TargetView {
        TargetView { host, port: self.port, srv_record: None }
    }

    /// A server found by its service record, at the port that the record names.
    pub open spec fn by_service(self, host: Seq<char>, port: u16) -> TargetView {
        TargetView { host, port, srv_record: Some(self.service() + "."@) }
    }

    /// The step after the address has been read as an IP address, or could not be.
    pub open spec fn on_address_read(self, literal: Option<Seq<char>>) -> JavaStepView {
        match literal {
            Some(host) => Self::connecting(self.direct(host)),
            None => JavaStepView::LookupSrv { name: self.service() + "."@ },
        }
    }

    /// The step after the lookup of the service record, of which `record` is target and port.
    pub open spec fn on_srv_found(self, record: Option<(Seq<char>, u16)>) -> JavaStepView {
        match record {
            Some((target, port)) => JavaStepView::LookupSrvTarget {
                host: without_trailing(target, '.'),
                port,
                srv_record: self.service() + "."@,
            },
            None => JavaStepView::LookupHost { host: self.address@ },
        }
    }

    /// The step after the lookup of the host that a service record names.
    pub open spec fn on_srv_target_found(
        self,
        port: u16,
        srv_record: Seq<char>,
        ip: Option<Seq<char>>,
    ) -> JavaStepView {
        match ip {
            Some(host) => Self::connecting(
                (TargetView { host, port, srv_record: Some(srv_record) }),
            ),
            None => JavaStepView::LookupHost { host: self.address@ },
        }
    }

    /// The step after the lookup of the host itself.
    pub open spec fn on_host_found(self, ip: Result<Seq<char>, Failure>) -> JavaStepView {
        match ip {
            Ok(host) => Self::connecting(self.direct(host)),
            Err(failure) => failed(failure),
        }
    }

    /// The step after connecting, which took `latency` milliseconds.
    pub open spec fn on_connected(
        self,
        target: TargetView,
        outcome: Result<u64, Failure>,
    ) -> JavaStepView {
        match outcome {
            Ok(latency) => JavaStepView::SendHandshake {
                target,
                latency,
                packet: frame(handshake(self.address@, self.port)),
            },
            Err(failure) => failed(failure),
        }
    }

    /// The step after the handshake.
    pub open spec fn on_handshake_sent(
        self,
        target: TargetView,
        latency: u64,
        outcome: Result<(), Failure>,
    ) -> JavaStepView {
        match outcome {
            Ok(_) => JavaStepView::SendStatusRequest {
                target,
                latency,
                packet: frame(status_request()),
            },
            Err(failure) => failed(failure),
        }
    }

    /// The step after the request for the status.
    pub open spec fn on_request_sent(
        self,
        target: TargetView,
        latency: u64,
        outcome: Result<(), Failure>,
    ) -> JavaStepView {
        match outcome {
            Ok(_) => JavaStepView::Receive { target, latency, data: Seq::empty() },
            Err(failure) => failed(failure),
        }
    }

    /// The step after some more bytes, behind `data` that was received before; no bytes at all
    /// mean that the server has stopped.
    pub open spec fn on_received(
        self,
        target: TargetView,
        latency: u64,
        data: Seq<u8>,
        outcome: Result<Seq<u8>, Failure>,
    ) -> JavaStepView {
        match outcome {
            Ok(chunk) => if chunk.len() == 0 {
                failed(Failure::ParseError("Could not parse server response"@))
            } else {
                self.receiving(target, latency, data + chunk)
            },
            Err(failure) => failed(failure),
        }
    }

    /// A pinger of the server at `address` and `port`.
    pub fn new(address: &str, port: u16, timeout: Duration, srv_prefix: &str) -> (pinger: Self)
        ensures
            pinger.address@ == address@,
            pinger.port == port,
            pinger.timeout == timeout,
            pinger.srv_prefix@ == srv_prefix@,
    {
        JavaPinger {
            address: address.to_owned(),
            port,
            timeout,
            srv_prefix: srv_prefix.to_owned(),
        }
    }

    /// Begins a ping.
    pub fn ping(&self) -> (step: JavaStep)
        ensures
            step@ == JavaStepView::ReadAddress,
    {
        JavaStep::ReadAddress
    }

    /// An address that is an IP address needs no lookup; for any other, the service record comes
    /// first.
    pub fn address_read(&self, literal: Option<String>) -> (step: JavaStep)
        ensures
            step@ == self.on_address_read(option_view(literal)),
    {
        match literal {
            Some(host) => Self::connect(Target { host, port: self.port, srv_record: None }),
            None => JavaStep::LookupSrv { name: self.service_name().concat(".") },
        }
    }

    /// A service record names the host to look up; without one it is the address itself.
    pub fn srv_found(&self, record: Option<SrvRecord>) -> (step: JavaStep)
        ensures
            step@ == self.on_srv_found(
                match record {
                    Some(record) => Some((record.target@, record.port)),
                    None => None,
                },
            ),
    {
        match record {
            Some(record) => JavaStep::LookupSrvTarget {
                host: strip_trailing(&record.target, '.'),
                port: record.port,
                srv_record: self.service_name().concat("."),
            },
            None => JavaStep::LookupHost { host: self.address.clone() },
        }
    }

    /// The host that a service record names is taken where it was found, with the record's port;
    /// where it was not, the address itself is looked up.
    pub fn srv_target_found(&self, port: u16, srv_record: String, ip: Option<String>) -> (step:
        JavaStep)
        ensures
            step@ == self.on_srv_target_found(port, srv_record@, option_view(ip)),
    {
        match ip {
            Some(host) => Self::connect(Target { host, port, srv_record: Some(srv_record) }),
            None => JavaStep::LookupHost { host: self.address.clone() },
        }
    }

    /// The first IP address of the host is taken, with the pinger's own port; a host without one
    /// cannot be pinged, nor one whose lookup failed.
    pub fn host_found(&self, ip: Result<Option<String>, String>) -> (step: JavaStep)
        ensures
            step@ == self.on_host_found(looked_up(ip)),
    {
        match ip {
            Ok(Some(host)) => Self::connect(Target { host, port: self.port, srv_record: None }),
            Ok(None) => Self::fail(PingError::DnsError("No IP addresses found".to_owned())),
            Err(e) => Self::fail(PingError::DnsError(e)),
        }
    }

    /// Over the connection, the handshake goes first. `latency` is the milliseconds that
    /// connecting took.
    pub fn connected(&self, target: Target, outcome: Result<u64, ConnectFailure>) -> (step: JavaStep)
        ensures
            step@ == self.on_connected(
                target@,
                match outcome {
                    Ok(latency) => Ok(latency),
                    Err(failure) => Err(failure.failure()),
                },
            ),
    {
        match outcome {
            Ok(latency) => JavaStep::SendHandshake {
                target,
                latency,
                packet: self.handshake_packet(),
            },
            Err(ConnectFailure::Io(failure)) => Self::fail(PingError::from(failure)),
            Err(ConnectFailure::TimedOut(seconds)) => Self::fail(PingError::timed_out(&seconds)),
        }
    }

    /// After the handshake goes the request for the status.
    pub fn handshake_sent(&self, target: Target, latency: u64, outcome: Result<(), String>) -> (step:
        JavaStep)
        ensures
            step@ == self.on_handshake_sent(target@, latency, sending(outcome)),
    {
        match outcome {
            Ok(_) => JavaStep::SendStatusRequest {
                target,
                latency,
                packet: Self::status_request_packet(),
            },
            Err(e) => Self::fail(PingError::IoError(e)),
        }
    }

    /// After the request the response is awaited.
    pub fn request_sent(&self, target: Target, latency: u64, outcome: Result<(), String>) -> (step:
        JavaStep)
        ensures
            step@ == self.on_request_sent(target@, latency, sending(outcome)),
    {
        match outcome {
            Ok(_) => JavaStep::Receive { target, latency, data: Vec::new() },
            Err(e) => Self::fail(PingError::IoError(e)),
        }
    }

    /// The ping is over as soon as the bytes received hold a document. Where the server stops
    /// before that, there is no response.
    pub fn received(
        &self,
        target: Target,
        latency: u64,
        data: Vec<u8>,
        outcome: Result<Vec<u8>, ReceiveFailure>,
    ) -> (step: JavaStep)
        ensures
            step@ == self.on_received(
                target@,
                latency,
                data@,
                match outcome {
                    Ok(chunk) => Ok(chunk@),
                    Err(failure) => Err(failure.failure()),
                },
            ),
    {
        match outcome {
            Ok(chunk) => {
                if chunk.len() == 0 {
                    return Self::fail(
                        PingError::ParseError("Could not parse server response".to_owned()),
                    );
                }
                let mut data = data;
                let mut chunk = chunk;
                data.append(&mut chunk);
                match extract_json(&data) {
                    Some(response) => JavaStep::Finished {
                        result: Ok(self.complete(response, &target, latency)),
                    },
                    None => JavaStep::Receive { target, latency, data },
                }
            },
            Err(ReceiveFailure::Io(e)) => Self::fail(PingError::IoError(e)),
            Err(ReceiveFailure::TimedOut(seconds)) => Self::fail(PingError::timed_out(&seconds)),
        }
    }

    /// A status response with what is known of the connection added to it.
    pub fn complete(&self, response: serde_json::Value, target: &Target, latency: u64) -> (document:
        serde_json::Value)
        requires
            json_view(response) is Object || json_view(response) is Null,
        ensures
            json_view(document) == completed(
                json_view(response),
                if target.srv_record is Some {
                    Some(self.service())
                } else {
                    None
                },
                target.host@,
                target.port,
                latency,
            ),
    {
        let mut document = response;
        let srv_record = if target.srv_record.is_some() {
            json_text(&self.service_name())
        } else {
            json_null()
        };
        json_set(&mut document, "srvRecord", srv_record);
        json_set(&mut document, "host", json_text(&target.host));
        json_set(&mut document, "port", json_u64(target.port as u64));
        json_set(&mut document, "latency", json_u64(latency));
        document
    }

    /// The handshake, framed.
    pub fn handshake_packet(&self) -> (bytes: Vec<u8>)
        ensures
            bytes@ == frame(handshake(self.address@, self.port)),
    {
        let mut packet: Vec<u8> = Vec::new();
        packet.push(0x00);
        write_varint(&mut packet, 0xFFFF_FFFF);
        write_string(&mut packet, &self.address);
        let port = self.port;
        assert(port >> 8 == port / 256) by (bit_vector);
        assert(port & 0xFF == port % 256) by (bit_vector);
        packet.push((port >> 8) as u8);
        packet.push((port & 0xFF) as u8);
        write_varint(&mut packet, 1);
        assert(packet@ =~= handshake(self.address@, self.port));
        framed(packet)
    }

    /// The request for the status, framed.
    pub fn status_request_packet() -> (bytes: Vec<u8>)
        ensures
            bytes@ == frame(status_request()),
            bytes@ == seq![1u8, 0u8],
    {
        let mut bytes: Vec<u8> = Vec::new();
        bytes.push(0x01);
        bytes.push(0x00);
        assert(bytes@ =~= frame(status_request()));
        bytes
    }

    fn service_name(&self) -> (name: String)
        ensures
            name@ == self.service(),
    {
        self.srv_prefix.clone().concat(".").concat(&self.address)
    }

    fn connect(target: Target) -> (step: JavaStep)
        ensures
            step@ == Self::connecting(target@),
    {
        let address = with_port(&target.host, target.port);
        JavaStep::Connect { target, address }
    }

    fn fail(error: PingError) -> (step: JavaStep)
        ensures
            step@ == failed(error@),
    {
        JavaStep::Finished { result: Err(error) }
    }
}

/// What a handshake says: the protocol version, the address and port, and what the client asks
/// for next.
pub open spec fn read_handshake(packet: Seq<u8>) -> Option<(nat, Seq<char>, nat, nat)> {
    if packet.len() == 0 || packet[0] != 0 {
        None
    } else {
        match read_varint(packet.skip(1)) {
            None => None,
            Some((version, rest)) => match read_wire_string(rest) {
                None => None,
                Some((address, rest)) => if rest.len() < 2 {
                    None
                } else {
                    match read_varint(rest.skip(2)) {
                        None => None,
                        Some((next, _)) => Some(
                            (version, address, (rest[0] * 256 + rest[1]) as nat, next),
                        ),
                    }
                },
            },
        }
    }
}

/// A server reads in the frame of a handshake the address and the port that the pinger was made
/// for, and a request for the status, whatever the client sends after it.
pub proof fn law_handshake_round_trip(address: Seq<char>, port: u16, rest: Seq<u8>)
    requires
        handshake(address, port).len() < 0x1_0000_0000,
    ensures
        read_frame(frame(handshake(address, port)) + rest) == Some((handshake(address, port), rest)),
        read_handshake(handshake(address, port)) == Some(
            (0xFFFF_FFFFnat, address, port as nat, 1nat),
        ),
{
    let packet = handshake(address, port);
    law_frame_round_trip(packet, rest);
    let after_string = wire_u16(port) + varint(1);
    let after_version = wire_string(address) + after_string;
    assert(packet.skip(1) =~= varint(0xFFFF_FFFF) + after_version);
    law_varint_round_trip(0xFFFF_FFFF, after_version);
    law_wire_string_round_trip(address, after_string);
    assert(after_string.skip(2) =~= varint(1) + Seq::<u8>::empty());
    law_varint_round_trip(1, Seq::empty());
}

/// What a completed response says of the connection, and that every other member is the server's.
pub proof fn law_completed_members(
    response: Json,
    srv_record: Option<Seq<char>>,
    host: Seq<char>,
    port: u16,
    latency: u64,
    key: Seq<char>,
)
    ensures
        ({
            let document = completed(response, srv_record, host, port, latency);
            &&& document.member("host"@) == Some(Json::Text(host))
            &&& document.member("port"@) == Some(Json::Integer(port as int))
            &&& document.member("latency"@) == Some(Json::Integer(latency as int))
            &&& document.member("srvRecord"@) == Some(
                match srv_record {
                    Some(name) => Json::Text(name),
                    None => Json::Null,
                },
            )
            &&& key != "host"@ && key != "port"@ && key != "latency"@ && key != "srvRecord"@
                ==> document.member(key) == response.member(key)
        }),
{
    reveal_strlit("host");
    reveal_strlit("port");
    reveal_strlit("latency");
    reveal_strlit("srvRecord");
    assert("host"@[0] != "port"@[0]);
    assert("latency"@.len() == 7 && "srvRecord"@.len() == 9 && "host"@.len() == 4);
}

proof fn lemma_brace_depth_of_prefix(a: Seq<char>, b: Seq<char>, n: int)
    requires
        0 <= n <= a.len(),
    ensures
        brace_depth(a + b, n) == brace_depth(a, n),
    decreases n,
{
    if n > 0 {
        lemma_brace_depth_of_prefix(a, b, n - 1);
        assert((a + b)[n - 1] == a[n - 1]);
    }
}

proof fn lemma_brace_depth_of_suffix(a: Seq<char>, b: Seq<char>, n: int)
    requires
        0 <= n <= b.len(),
    ensures
        brace_depth(a + b, a.len() + n) == brace_depth(a, a.len() as int) + brace_depth(b, n),
    decreases n,
{
    if n == 0 {
        lemma_brace_depth_of_prefix(a, b, a.len() as int);
    } else {
        lemma_brace_depth_of_suffix(a, b, n - 1);
        assert((a + b)[a.len() + n - 1] == b[n - 1]);
    }
}

proof fn lemma_no_braces(text: Seq<char>, n: int)
    requires
        0 <= n <= text.len(),
        forall|i: int| 0 <= i < text.len() ==> text[i] != '{' && text[i] != '}',
    ensures
        brace_depth(text, n) == 0,
    decreases n,
{
    if n > 0 {
        lemma_no_braces(text, n - 1);
    }
}

/// Where a response has an object behind a header without braces, that object is found in it. An
/// object here is a text that an opening brace begins, and that ends where that brace is closed.
pub proof fn law_object_behind_header(header: Seq<char>, object: Seq<char>, rest: Seq<char>)
    requires
        forall|i: int| 0 <= i < header.len() ==> header[i] != '{' && header[i] != '}',
        object.len() > 0,
        object[0] == '{',
        object.last() == '}',
        brace_depth(object, object.len() as int) == 0,
        forall|n: int| 0 < n < object.len() ==> brace_depth(object, n) > 0,
    ensures
        first_object(header + object + rest) == Some(object),
{
    let text = header + object + rest;
    let start = header.len() as int;
    let end = (header.len() + object.len()) as int;
    assert(text =~= header + (object + rest));
    assert forall|n: int| 0 <= n <= start implies brace_depth(text, n) == 0 by {
        lemma_brace_depth_of_prefix(header, object + rest, n);
        lemma_no_braces(header, n);
    }
    assert forall|n: int| start <= n <= end implies #[trigger] brace_depth(text, n) == brace_depth(
        object,
        n - start,
    ) by {
        lemma_brace_depth_of_suffix(header, object + rest, n - start);
        lemma_brace_depth_of_prefix(object, rest, n - start);
        lemma_no_braces(header, start);
    }
    assert(text[end - 1] == object.last());
    assert(text[start] == object[0]);
    assert(closes_at(text, end));
    assert forall|e: int| e < end implies !closes_at(text, e) by {
        if 0 < e <= start {
            assert(text[e - 1] == header[e - 1]);
        } else if start < e {
            assert(brace_depth(text, e) > 0);
        }
    }
    assert forall|s: int| start < s < end implies !opens_at(text, s) by {
        assert(brace_depth(text, s) > 0);
    }
    assert(is_object_span(text, start, end));
    lemma_span_is_unique(text, start, end);
    assert(text.subrange(start, end) =~= object);
}

/// A ping succeeds as soon as the bytes received read as a header without braces and an object
/// that is JSON; what comes back is that document with what is known of the connection.
pub proof fn law_status_response_is_read(
    pinger: JavaPinger,
    target: TargetView,
    latency: u64,
    data: Seq<u8>,
    header: Seq<char>,
    object: Seq<char>,
    rest: Seq<char>,
)
    requires
        utf8_lossy(data) == header + object + rest,
        forall|i: int| 0 <= i < header.len() ==> header[i] != '{' && header[i] != '}',
        object.len() > 0,
        object[0] == '{',
        object.last() == '}',
        brace_depth(object, object.len() as int) == 0,
        forall|n: int| 0 < n < object.len() ==> brace_depth(object, n) > 0,
        json_parsed(object) is Some,
    ensures
        pinger.receiving(target, latency, data) == (JavaStepView::Finished {
            result: Ok(
                completed(
                    json_parsed(object)->0,
                    if target.srv_record is Some {
                        Some(pinger.service())
                    } else {
                        None
                    },
                    target.host,
                    target.port,
                    latency,
                ),
            ),
        }),
{
    law_object_behind_header(header, object, rest);
}

/// What the outside answers to the steps of one ping: the IP address that the address reads as;
/// target and port of the service record; the IP address of that target; that of the host itself;
/// how long connecting took; whether the two packets went out; and what is received, piece by
/// piece, as far as it goes.
pub struct JavaOutside {
    pub literal: Option<Seq<char>>,
    pub service: Option<(Seq<char>, u16)>,
    pub service_ip: Option<Seq<char>>,
    pub host_ip: Result<Seq<char>, Failure>,
    pub connection: Result<u64, Failure>,
    pub handshake: Result<(), Failure>,
    pub request: Result<(), Failure>,
    pub pieces: Seq<Result<Seq<u8>, Failure>>,
}

impl JavaStepView {
    /// How many kinds of step may still follow this one.
    pub open spec fn rank(self) -> nat {
        match self {
            JavaStepView::ReadAddress => 8,
            JavaStepView::LookupSrv { .. } => 7,
            JavaStepView::LookupSrvTarget { .. } => 6,
            JavaStepView::LookupHost { .. } => 5,
            JavaStepView::Connect { .. } => 4,
            JavaStepView::SendHandshake { .. } => 3,
            JavaStepView::SendStatusRequest { .. } => 2,
            JavaStepView::Receive { .. } => 1,
            JavaStepView::Finished { .. } => 0,
        }
    }
}

impl JavaPinger {
    /// What comes of a ping from `step` on, when each step is given the answer of the outside and
    /// `used` pieces have been received; nothing where the pieces end before the ping is over.
    pub open spec fn result_from(
        self,
        step: JavaStepView,
        outside: JavaOutside,
        used: nat,
    ) -> Option<Result<Json, Failure>>
        decreases outside.pieces.len() - used, step.rank(),
    {
        match step {
            JavaStepView::ReadAddress => self.result_from(
                self.on_address_read(outside.literal),
                outside,
                used,
            ),
            JavaStepView::LookupSrv { .. } => self.result_from(
                self.on_srv_found(outside.service),
                outside,
                used,
            ),
            JavaStepView::LookupSrvTarget { port, srv_record, .. } => self.result_from(
                self.on_srv_target_found(port, srv_record, outside.service_ip),
                outside,
                used,
            ),
            JavaStepView::LookupHost { .. } => self.result_from(
                self.on_host_found(outside.host_ip),
                outside,
                used,
            ),
            JavaStepView::Connect { target, .. } => self.result_from(
                self.on_connected(target, outside.connection),
                outside,
                used,
            ),
            JavaStepView::SendHandshake { target, latency, .. } => self.result_from(
                self.on_handshake_sent(target, latency, outside.handshake),
                outside,
                used,
            ),
            JavaStepView::SendStatusRequest { target, latency, .. } => self.result_from(
                self.on_request_sent(target, latency, outside.request),
                outside,
                used,
            ),
            JavaStepView::Receive { target, latency, data } => if used < outside.pieces.len() {
                self.result_from(
                    self.on_received(target, latency, data, outside.pieces[used as int]),
                    outside,
                    used + 1,
                )
            } else {
                None
            },
            JavaStepView::Finished { result } => Some(result),
        }
    }

    /// Where the server is: at its own address where that is an IP address; else where its service
    /// record leads; else where its own name leads.
    pub open spec fn located(self, outside: JavaOutside) -> Result<TargetView, Failure> {
        match outside.literal {
            Some(host) => Ok(self.direct(host)),
            None => match (outside.service, outside.service_ip) {
                (Some((_, port)), Some(host)) => Ok(self.by_service(host, port)),
                _ => match outside.host_ip {
                    Ok(host) => Ok(self.direct(host)),
                    Err(failure) => Err(failure),
                },
            },
        }
    }

    /// What a whole ping comes to.
    pub open spec fn ping_result(self, outside: JavaOutside) -> Option<Result<Json, Failure>> {
        match (self.located(outside), outside.connection, outside.handshake, outside.request) {
            (Err(failure), _, _, _) => Some(Err(failure)),
            (Ok(_), Err(failure), _, _) => Some(Err(failure)),
            (Ok(_), Ok(_), Err(failure), _) => Some(Err(failure)),
            (Ok(_), Ok(_), Ok(_), Err(failure)) => Some(Err(failure)),
            (Ok(target), Ok(latency), Ok(_), Ok(_)) => match response_in(
                outside.pieces,
                Seq::empty(),
            ) {
                None => None,
                Some(Err(failure)) => Some(Err(failure)),
                Some(Ok(response)) => Some(
                    Ok(
                        completed(
                            response,
                            if target.srv_record is Some {
                                Some(self.service())
                            } else {
                                None
                            },
                            target.host,
                            target.port,
                            latency,
                        ),
                    ),
                ),
            },
        }
    }
}

/// The response in what is received piece by piece behind `data`: the document in the shortest row
/// of pieces that holds one, unless a failure or the end comes before.
pub open spec fn response_in(pieces: Seq<Result<Seq<u8>, Failure>>, data: Seq<u8>) -> Option<
    Result<Json, Failure>,
>
    decreases pieces.len(),
{
    if pieces.len() == 0 {
        None
    } else {
        match pieces[0] {
            Err(failure) => Some(Err(failure)),
            Ok(piece) => if piece.len() == 0 {
                Some(Err(Failure::ParseError("Could not parse server response"@)))
            } else {
                match response_document(utf8_lossy(data + piece)) {
                    Some(response) => Some(Ok(response)),
                    None => response_in(pieces.skip(1), data + piece),
                }
            },
        }
    }
}

proof fn lemma_result_while_receiving(
    pinger: JavaPinger,
    outside: JavaOutside,
    target: TargetView,
    latency: u64,
    data: Seq<u8>,
    used: nat,
)
    requires
        used <= outside.pieces.len(),
    ensures
        pinger.result_from((JavaStepView::Receive { target, latency, data }), outside, used)
            == match response_in(outside.pieces.skip(used as int), data) {
            None => None,
            Some(Err(failure)) => Some(Err(failure)),
            Some(Ok(response)) => Some(
                Ok(
                    completed(
                        response,
                        if target.srv_record is Some {
                            Some(pinger.service())
                        } else {
                            None
                        },
                        target.host,
                        target.port,
                        latency,
                    ),
                ),
            ),
        },
    decreases outside.pieces.len() - used,
{
    reveal_with_fuel(JavaPinger::result_from, 2);
    let rest = outside.pieces.skip(used as int);
    if used < outside.pieces.len() {
        assert(rest[0] == outside.pieces[used as int]);
        assert(rest.skip(1) =~= outside.pieces.skip(used as int + 1));
        match rest[0] {
            Ok(piece) => {
                if piece.len() > 0 && response_document(utf8_lossy(data + piece)) is None {
                    lemma_result_while_receiving(
                        pinger,
                        outside,
                        target,
                        latency,
                        data + piece,
                        used + 1,
                    );
                }
            },
            Err(_) => {},
        }
    }
}

/// A ping that is given the outside's answer at every step comes to `ping_result`: it finds the
/// server, connects, sends both packets and reads the response, and the first of these that fails
/// is what it says.
pub proof fn law_ping_result(pinger: JavaPinger, outside: JavaOutside)
    ensures
        pinger.result_from(JavaStepView::ReadAddress, outside, 0) == pinger.ping_result(outside),
{
    reveal_with_fuel(JavaPinger::result_from, 9);
    match (pinger.located(outside), outside.connection) {
        (Ok(target), Ok(latency)) => {
            assert(outside.pieces.skip(0) =~= outside.pieces);
            lemma_result_while_receiving(pinger, outside, target, latency, Seq::empty(), 0);
        },
        _ => {},
    }
}

/// Once an object has been found in a response, what comes after it changes nothing.
pub proof fn law_object_found_stays_found(text: Seq<char>, more: Seq<char>)
    requires
        first_object(text) is Some,
    ensures
        first_object(text + more) == first_object(text),
{
    let (start, end) = choose|start: int, end: int| is_object_span(text, start, end);
    assert(is_object_span(text, start, end));
    lemma_span_is_unique(text, start, end);
    let longer = text + more;
    assert forall|n: int| 0 <= n <= text.len() implies brace_depth(longer, n) == brace_depth(
        text,
        n,
    ) by {
        lemma_brace_depth_of_prefix(text, more, n);
    }
    assert forall|e: int| e < end implies !closes_at(longer, e) by {
        assert(!closes_at(text, e));
    }
    assert forall|s: int| start < s < end implies !opens_at(longer, s) by {
        assert(!opens_at(text, s));
    }
    assert(is_object_span(longer, start, end));
    lemma_span_is_unique(longer, start, end);
    assert(longer.subrange(start, end) =~= text.subrange(start, end));
}

/// Bytes that came in pieces, in one row.
pub open spec fn in_one(pieces: Seq<Seq<u8>>) -> Seq<u8>
    decreases pieces.len(),
{
    if pieces.len() == 0 {
        Seq::empty()
    } else {
        in_one(pieces.drop_last()) + pieces.last()
    }
}

/// What is received of a server that sends these pieces and then stops.
pub open spec fn then_end(pieces: Seq<Seq<u8>>) -> Seq<Result<Seq<u8>, Failure>> {
    pieces.map_values(|piece: Seq<u8>| Ok::<Seq<u8>, Failure>(piece)).push(Ok(Seq::empty()))
}

/// Whether an object that is found in the text of the first pieces is the one that is found in the
/// text of all of them.
pub open spec fn same_object_throughout(pieces: Seq<Seq<u8>>) -> bool {
    forall|k: int|
        0 < k <= pieces.len() && first_object(utf8_lossy(in_one(#[trigger] pieces.take(k)))) is Some
            ==> first_object(utf8_lossy(in_one(pieces))) == first_object(
            utf8_lossy(in_one(pieces.take(k))),
        )
}

/// Whether the text of the first pieces is, up to a rest without braces, how the text of all of
/// them begins. The rest is what a character reads as of which the last bytes are still to come.
pub open spec fn same_text_throughout(pieces: Seq<Seq<u8>>) -> bool {
    forall|k: int|
        0 < k <= pieces.len() ==> begins_like(
            utf8_lossy(in_one(#[trigger] pieces.take(k))),
            utf8_lossy(in_one(pieces)),
        )
}

/// Whether a text is, up to a rest without braces, how a whole text begins.
pub open spec fn begins_like(text: Seq<char>, whole: Seq<char>) -> bool {
    exists|n: int| #[trigger] shares_start(text, whole, n)
}

/// Whether two texts have their first `n` characters in common, and the first one no brace behind
/// them.
pub open spec fn shares_start(text: Seq<char>, whole: Seq<char>, n: int) -> bool {
    &&& 0 <= n <= text.len()
    &&& n <= whole.len()
    &&& text.take(n) == whole.take(n)
    &&& forall|i: int| n <= i < text.len() ==> text[i] != '{' && text[i] != '}'
}

/// The response of a server that sends these pieces and then stops, by the bytes in one row; a
/// server that sends nothing gives none.
pub open spec fn response_of(pieces: Seq<Seq<u8>>) -> Result<Json, Failure> {
    match response_document(utf8_lossy(in_one(pieces))) {
        Some(response) if pieces.len() > 0 => Ok(response),
        _ => Err(Failure::ParseError("Could not parse server response"@)),
    }
}

proof fn lemma_response_of_the_rest(pieces: Seq<Seq<u8>>, used: int)
    requires
        0 <= used <= pieces.len(),
        forall|i: int| 0 <= i < pieces.len() ==> (#[trigger] pieces[i]).len() > 0,
        same_object_throughout(pieces),
        used > 0 ==> response_document(utf8_lossy(in_one(pieces.take(used)))) is None,
    ensures
        response_in(then_end(pieces).skip(used), in_one(pieces.take(used))) == Some(
            response_of(pieces),
        ),
    decreases pieces.len() - used,
{
    let stream = then_end(pieces);
    let rest = stream.skip(used);
    assert(rest[0] == stream[used]);
    if used == pieces.len() {
        assert(pieces.take(used) =~= pieces);
    } else {
        let data = in_one(pieces.take(used));
        let longer = pieces.take(used + 1);
        assert(longer.drop_last() =~= pieces.take(used));
        assert(in_one(longer) == data + pieces[used]);
        assert(rest.skip(1) =~= stream.skip(used + 1));
        if response_document(utf8_lossy(in_one(longer))) is None {
            lemma_response_of_the_rest(pieces, used + 1);
        }
    }
}

/// What a response comes to depends on its bytes in one row: a server that sends non-empty pieces
/// and then stops is read as the document in all of them, and as a failure where they hold none.
/// An object in the text of the first pieces has to be the one in the text of all.
pub proof fn law_response_in_pieces(pieces: Seq<Seq<u8>>)
    requires
        forall|i: int| 0 <= i < pieces.len() ==> (#[trigger] pieces[i]).len() > 0,
        same_object_throughout(pieces),
    ensures
        response_in(then_end(pieces), Seq::empty()) == Some(response_of(pieces)),
{
    lemma_response_of_the_rest(pieces, 0);
    assert(then_end(pieces).skip(0) =~= then_end(pieces));
    assert(in_one(pieces.take(0)) =~= Seq::empty());
}

proof fn lemma_object_in_shared_start(text: Seq<char>, whole: Seq<char>, n: int)
    requires
        shares_start(text, whole, n),
        first_object(text) is Some,
    ensures
        first_object(whole) == first_object(text),
{
    let shared = text.take(n);
    let (start, end) = choose|start: int, end: int| is_object_span(text, start, end);
    assert(is_object_span(text, start, end));
    assert(text[end - 1] == '}');
    assert(end <= n);
    assert(text =~= shared + text.skip(n));
    assert(whole =~= shared + whole.skip(n));
    assert forall|k: int| 0 <= k <= n implies brace_depth(shared, k) == brace_depth(text, k) by {
        lemma_brace_depth_of_prefix(shared, text.skip(n), k);
    }
    assert forall|e: int| e < end implies !closes_at(shared, e) by {
        assert(!closes_at(text, e));
    }
    assert forall|s: int| start < s < end implies !opens_at(shared, s) by {
        assert(!opens_at(text, s));
    }
    assert(is_object_span(shared, start, end));
    lemma_span_is_unique(shared, start, end);
    law_object_found_stays_found(shared, text.skip(n));
    law_object_found_stays_found(shared, whole.skip(n));
}

/// Where the text of the first pieces is, up to a rest without braces, how the text of all begins,
/// an object found in the first pieces is the one found in all.
pub proof fn law_same_text_same_object(pieces: Seq<Seq<u8>>)
    requires
        same_text_throughout(pieces),
    ensures
        same_object_throughout(pieces),
{
    let whole = utf8_lossy(in_one(pieces));
    assert forall|k: int|
        0 < k <= pieces.len() && first_object(
            utf8_lossy(in_one(#[trigger] pieces.take(k))),
        ) is Some implies first_object(whole) == first_object(
        utf8_lossy(in_one(pieces.take(k))),
    ) by {
        let text = utf8_lossy(in_one(pieces.take(k)));
        assert(begins_like(text, whole));
        let n = choose|n: int| #[trigger] shares_start(text, whole, n);
        lemma_object_in_shared_start(text, whole, n);
    }
}

proof fn lemma_encode_concat(a: Seq<char>, b: Seq<char>)
    ensures
        encode_utf8(a + b) == encode_utf8(a) + encode_utf8(b),
    decreases a.len(),
{
    if a.len() == 0 {
        assert(a + b =~= b);
        assert(encode_utf8(a) + encode_utf8(b) =~= encode_utf8(b));
    } else {
        assert((a + b).drop_first() =~= a.drop_first() + b);
        lemma_encode_concat(a.drop_first(), b);
        assert(encode_utf8(a + b) =~= encode_utf8(a) + encode_utf8(b));
    }
}

/// The text of UTF-8 that begins with UTF-8 begins with the text of that.
proof fn lemma_decode_begins(bytes: Seq<u8>, n: int)
    requires
        0 <= n <= bytes.len(),
        valid_utf8(bytes),
        valid_utf8(bytes.take(n)),
    ensures
        decode_utf8(bytes.take(n)).len() <= decode_utf8(bytes).len(),
        decode_utf8(bytes).take(decode_utf8(bytes.take(n)).len() as int) == decode_utf8(
            bytes.take(n),
        ),
{
    let (a, b) = (bytes.take(n), bytes.skip(n));
    assert(a =~= bytes.subrange(0, n));
    assert(b =~= bytes.subrange(n, bytes.len() as int));
    if !valid_utf8(b) {
        partial_valid_partial_invalid_utf8(bytes, n);
    }
    assert(a + b =~= bytes);
    let (x, y) = (decode_utf8(a), decode_utf8(b));
    decode_utf8_encode_utf8(a);
    decode_utf8_encode_utf8(b);
    lemma_encode_concat(x, y);
    encode_utf8_decode_utf8(x + y);
    assert((x + y).take(x.len() as int) =~= x);
}

proof fn lemma_pieces_begin(pieces: Seq<Seq<u8>>, k: int)
    requires
        0 <= k <= pieces.len(),
    ensures
        in_one(pieces.take(k)).len() <= in_one(pieces).len(),
        in_one(pieces).take(in_one(pieces.take(k)).len() as int) == in_one(pieces.take(k)),
    decreases pieces.len(),
{
    if k == pieces.len() {
        assert(pieces.take(k) =~= pieces);
        assert(in_one(pieces).take(in_one(pieces).len() as int) =~= in_one(pieces));
    } else {
        let before = pieces.drop_last();
        lemma_pieces_begin(before, k);
        assert(before.take(k) =~= pieces.take(k));
        let n = in_one(pieces.take(k)).len() as int;
        assert(in_one(pieces).take(n) =~= in_one(before).take(n));
    }
}

/// Whether bytes are UTF-8 up to a last character that is cut short, and read as the text of that,
/// with nothing but a rest without braces behind it.
pub open spec fn reads_up_to_cut(bytes: Seq<u8>) -> bool {
    exists|n: int| #[trigger] reads_first(bytes, n)
}

/// Whether the first `n` bytes are UTF-8 and the text begins with theirs, with no brace behind it.
pub open spec fn reads_first(bytes: Seq<u8>, n: int) -> bool {
    &&& 0 <= n <= bytes.len()
    &&& valid_utf8(bytes.take(n))
    &&& decode_utf8(bytes.take(n)).len() <= utf8_lossy(bytes).len()
    &&& utf8_lossy(bytes).take(decode_utf8(bytes.take(n)).len() as int) == decode_utf8(
        bytes.take(n),
    )
    &&& forall|i: int|
        decode_utf8(bytes.take(n)).len() <= i < utf8_lossy(bytes).len() ==> utf8_lossy(bytes)[i]
            != '{' && utf8_lossy(bytes)[i] != '}'
}

/// Where a response is UTF-8 and reads as such, and its first pieces read as UTF-8 up to a last
/// character that is cut short, the text of the first pieces is how the text of all begins.
pub proof fn law_cut_characters_keep_the_text(pieces: Seq<Seq<u8>>)
    requires
        valid_utf8(in_one(pieces)),
        utf8_lossy(in_one(pieces)) == decode_utf8(in_one(pieces)),
        forall|k: int|
            0 < k <= pieces.len() ==> reads_up_to_cut(in_one(#[trigger] pieces.take(k))),
    ensures
        same_text_throughout(pieces),
{
    let all = in_one(pieces);
    assert forall|k: int| 0 < k <= pieces.len() implies begins_like(
        utf8_lossy(in_one(#[trigger] pieces.take(k))),
        utf8_lossy(all),
    ) by {
        let bytes = in_one(pieces.take(k));
        assert(reads_up_to_cut(bytes));
        let n = choose|n: int| #[trigger] reads_first(bytes, n);
        lemma_pieces_begin(pieces, k);
        assert(all.take(n) =~= bytes.take(n));
        lemma_decode_begins(all, n);
        assert(
            shares_start(
                utf8_lossy(bytes),
                utf8_lossy(all),
                decode_utf8(bytes.take(n)).len() as int,
            )
        );
    }
}

/// Where the first pieces of a response are UTF-8, however many they are, and read as such, the text
/// of the first pieces is how the text of all begins.
pub proof fn law_utf8_keeps_the_text(pieces: Seq<Seq<u8>>)
    requires
        forall|k: int|
            0 < k <= pieces.len() ==> valid_utf8(in_one(#[trigger] pieces.take(k))) && utf8_lossy(
                in_one(pieces.take(k)),
            ) == decode_utf8(in_one(pieces.take(k))),
    ensures
        same_text_throughout(pieces),
        same_object_throughout(pieces),
{
    if pieces.len() > 0 {
        assert(pieces.take(pieces.len() as int) =~= pieces);
        assert forall|k: int| 0 < k <= pieces.len() implies reads_up_to_cut(
            in_one(#[trigger] pieces.take(k)),
        ) by {
            let bytes = in_one(pieces.take(k));
            assert(bytes.take(bytes.len() as int) =~= bytes);
            assert(utf8_lossy(bytes).take(utf8_lossy(bytes).len() as int) =~= utf8_lossy(bytes));
            assert(reads_first(bytes, bytes.len() as int));
        }
        law_cut_characters_keep_the_text(pieces);
    }
    law_same_text_same_object(pieces);
}

/// Where a response is cut into pieces changes nothing of what it comes to.
pub proof fn law_cuts_change_nothing(pieces: Seq<Seq<u8>>, others: Seq<Seq<u8>>)
    requires
        in_one(pieces) == in_one(others),
        forall|i: int| 0 <= i < pieces.len() ==> (#[trigger] pieces[i]).len() > 0,
        forall|i: int| 0 <= i < others.len() ==> (#[trigger] others[i]).len() > 0,
        same_object_throughout(pieces),
        same_object_throughout(others),
    ensures
        response_in(then_end(pieces), Seq::empty()) == response_in(then_end(others), Seq::empty()),
{
    law_response_in_pieces(pieces);
    law_response_in_pieces(others);
    assert(pieces.len() > 0 ==> pieces.last().len() > 0);
    assert(others.len() > 0 ==> others.last().len() > 0);
    assert(pieces.len() == 0 <==> in_one(pieces).len() == 0);
    assert(others.len() == 0 <==> in_one(others).len() == 0);
}

/// Nothing is read behind the piece that decides: what would come after it changes nothing.
pub proof fn law_nothing_is_read_after_the_response(
    pieces: Seq<Result<Seq<u8>, Failure>>,
    more: Seq<Result<Seq<u8>, Failure>>,
    data: Seq<u8>,
)
    requires
        response_in(pieces, data) is Some,
    ensures
        response_in(pieces + more, data) == response_in(pieces, data),
    decreases pieces.len(),
{
    assert((pieces + more)[0] == pieces[0]);
    assert((pieces + more).skip(1) =~= pieces.skip(1) + more);
    match pieces[0] {
        Ok(piece) => {
            if piece.len() > 0 && response_document(utf8_lossy(data + piece)) is None {
                law_nothing_is_read_after_the_response(pieces.skip(1), more, data + piece);
            }
        },
        Err(_) => {},
    }
}

impl JavaPinger {
    /// The step after `step`, when that is given the answer of the outside and `used` pieces have
    /// been received.
    pub open spec fn answered(
        self,
        step: JavaStepView,
        outside: JavaOutside,
        used: nat,
    ) -> JavaStepView {
        match step {
            JavaStepView::ReadAddress => self.on_address_read(outside.literal),
            JavaStepView::LookupSrv { .. } => self.on_srv_found(outside.service),
            JavaStepView::LookupSrvTarget { port, srv_record, .. } => self.on_srv_target_found(
                port,
                srv_record,
                outside.service_ip,
            ),
            JavaStepView::LookupHost { .. } => self.on_host_found(outside.host_ip),
            JavaStepView::Connect { target, .. } => self.on_connected(target, outside.connection),
            JavaStepView::SendHandshake { target, latency, .. } => self.on_handshake_sent(
                target,
                latency,
                outside.handshake,
            ),
            JavaStepView::SendStatusRequest { target, latency, .. } => self.on_request_sent(
                target,
                latency,
                outside.request,
            ),
            JavaStepView::Receive { target, latency, data } => self.on_received(
                target,
                latency,
                data,
                outside.pieces[used as int],
            ),
            JavaStepView::Finished { result } => step,
        }
    }

    /// All steps of a ping from `step` on, when each is given the answer of the outside and `used`
    /// pieces have been received, as far as the pieces go.
    pub open spec fn steps_from(
        self,
        step: JavaStepView,
        outside: JavaOutside,
        used: nat,
    ) -> Seq<JavaStepView>
        decreases outside.pieces.len() - used, step.rank(),
    {
        if step is Finished || (step is Receive && used >= outside.pieces.len()) {
            seq![step]
        } else {
            seq![step] + self.steps_from(
                self.answered(step, outside, used),
                outside,
                if step is Receive {
                    used + 1
                } else {
                    used
                },
            )
        }
    }

    /// Whether a service record was found and the host that it names, too, for an address that is
    /// no IP address.
    pub open spec fn leads_by_service(outside: JavaOutside) -> bool {
        outside.literal is None && outside.service is Some && outside.service_ip is Some
    }

    /// Whether the outside has shown the server to be at `target`: by the address itself, which
    /// keeps the pinger's own port, or by the service record, which has its own.
    pub open spec fn shown_at(self, outside: JavaOutside, target: TargetView) -> bool {
        if Self::leads_by_service(outside) {
            &&& target.host == outside.service_ip->0
            &&& target.port == (outside.service->0).1
            &&& target.srv_record is Some
        } else {
            &&& outside.literal == Some(target.host) || (outside.literal is None && outside.host_ip
                == Ok::<_, Failure>(target.host))
            &&& target.port == self.port
            &&& target.srv_record is None
        }
    }

    /// Whether a step of a ping asks for the right work: for the lookups, the names made of the
    /// pinger's prefix and address; for the connection, the host and port that the outside has shown;
    /// then for the two packets, and only where everything before went well.
    pub open spec fn asks_rightly(self, outside: JavaOutside, step: JavaStepView) -> bool {
        match step {
            JavaStepView::ReadAddress => true,
            JavaStepView::LookupSrv { name } => {
                &&& outside.literal is None
                &&& name == self.srv_prefix@ + "."@ + self.address@ + "."@
            },
            JavaStepView::LookupSrvTarget { host, port, srv_record } => {
                &&& outside.literal is None
                &&& outside.service matches Some((name, named))
                &&& port == named
                &&& host == without_trailing(name, '.')
                &&& srv_record == self.srv_prefix@ + "."@ + self.address@ + "."@
            },
            JavaStepView::LookupHost { host } => {
                &&& outside.literal is None
                &&& !Self::leads_by_service(outside)
                &&& host == self.address@
            },
            JavaStepView::Connect { target, address } => {
                &&& self.shown_at(outside, target)
                &&& address == target.host + ":"@ + decimal(target.port as nat)
            },
            JavaStepView::SendHandshake { target, latency, packet } => {
                &&& self.shown_at(outside, target)
                &&& outside.connection == Ok::<_, Failure>(latency)
                &&& encode_utf8(self.address@).len() < 4294967200
                    ==> announces(packet, self.address@, self.port)
            },
            JavaStepView::SendStatusRequest { target, latency, packet } => {
                &&& self.shown_at(outside, target)
                &&& outside.connection == Ok::<_, Failure>(latency)
                &&& outside.handshake is Ok
                &&& packet == seq![1u8, 0u8]
            },
            JavaStepView::Receive { target, latency, .. } => {
                &&& self.shown_at(outside, target)
                &&& outside.connection == Ok::<_, Failure>(latency)
                &&& outside.handshake is Ok
                &&& outside.request is Ok
            },
            JavaStepView::Finished { .. } => true,
        }
    }
}

/// Whether bytes are one framed handshake and nothing else, by which a server reads that a client
/// of no particular version asks for the status of the server at this address and port.
pub open spec fn announces(bytes: Seq<u8>, address: Seq<char>, port: u16) -> bool {
    match read_frame(bytes) {
        Some((packet, rest)) => rest.len() == 0 && read_handshake(packet) == Some(
            (4294967295nat, address, port as nat, 1nat),
        ),
        None => false,
    }
}

proof fn lemma_handshake_announces(address: Seq<char>, port: u16)
    requires
        encode_utf8(address).len() < 4294967200,
    ensures
        announces(frame(handshake(address, port)), address, port),
{
    law_varint_length(0xFFFF_FFFF);
    law_varint_length(1);
    let n = encode_utf8(address).len();
    law_varint_length(n as u32);
    assert(wire_string(address).len() <= 5 + n);
    assert(handshake(address, port).len() < 0x1_0000_0000);
    law_handshake_round_trip(address, port, Seq::empty());
    assert(frame(handshake(address, port)) + Seq::<u8>::empty() =~= frame(handshake(address, port)));
}

proof fn lemma_answer_asks_rightly(
    pinger: JavaPinger,
    step: JavaStepView,
    outside: JavaOutside,
    used: nat,
)
    requires
        pinger.asks_rightly(outside, step),
        step is Receive ==> used < outside.pieces.len(),
    ensures
        pinger.asks_rightly(outside, pinger.answered(step, outside, used)),
{
    match step {
        JavaStepView::Connect { .. } => {
            if encode_utf8(pinger.address@).len() < 4294967200 {
                lemma_handshake_announces(pinger.address@, pinger.port);
            }
        },
        JavaStepView::SendHandshake { .. } => {
            assert(frame(status_request()) =~= seq![1u8, 0u8]);
        },
        _ => {},
    }
}

proof fn lemma_steps_ask_rightly(
    pinger: JavaPinger,
    step: JavaStepView,
    outside: JavaOutside,
    used: nat,
    i: int,
)
    requires
        pinger.asks_rightly(outside, step),
        0 <= i < pinger.steps_from(step, outside, used).len(),
    ensures
        pinger.asks_rightly(outside, pinger.steps_from(step, outside, used)[i]),
    decreases outside.pieces.len() - used, step.rank(),
{
    if i > 0 {
        lemma_answer_asks_rightly(pinger, step, outside, used);
        let next = pinger.answered(step, outside, used);
        let used_then = if step is Receive {
            used + 1
        } else {
            used
        };
        assert(pinger.steps_from(step, outside, used)[i] == pinger.steps_from(
            next,
            outside,
            used_then,
        )[i - 1]);
        lemma_steps_ask_rightly(pinger, next, outside, used_then, i - 1);
    }
}

/// In a whole ping, whatever the outside answers, every step asks for the right work. In particular
/// the pinger only connects to the host and port where the server was shown to be, written with a
/// colon between them; for a server found by its own address that is the port it was made with.
pub proof fn law_every_step_asks_rightly(pinger: JavaPinger, outside: JavaOutside, i: int)
    requires
        0 <= i < pinger.steps_from(JavaStepView::ReadAddress, outside, 0).len(),
    ensures
        pinger.asks_rightly(
            outside,
            pinger.steps_from(JavaStepView::ReadAddress, outside, 0)[i],
        ),
{
    lemma_steps_ask_rightly(pinger, JavaStepView::ReadAddress, outside, 0, i);
}

/// Whether one step of a ping may come right behind another: lookups, connection, handshake, request
/// and answer in this order, and none of the last three left out; a failure may end it anywhere.
pub open spec fn may_follow(step: JavaStepView, next: JavaStepView) -> bool {
    match next {
        JavaStepView::ReadAddress => false,
        JavaStepView::LookupSrv { .. } => step is ReadAddress,
        JavaStepView::LookupSrvTarget { .. } => step is LookupSrv,
        JavaStepView::LookupHost { .. } => step is LookupSrv || step is LookupSrvTarget,
        JavaStepView::Connect { .. } => step is ReadAddress || step is LookupSrvTarget
            || step is LookupHost,
        JavaStepView::SendHandshake { target, .. } => step is Connect && step->Connect_target
            == target,
        JavaStepView::SendStatusRequest { target, latency, .. } => step is SendHandshake
            && step->SendHandshake_target == target && step->SendHandshake_latency == latency,
        JavaStepView::Receive { target, latency, data } => {
            ||| {
                &&& step is SendStatusRequest
                &&& step->SendStatusRequest_target == target
                &&& step->SendStatusRequest_latency == latency
                &&& data.len() == 0
            }
            ||| {
                &&& step is Receive
                &&& step->Receive_target == target
                &&& step->Receive_latency == latency
                &&& step->data.len() < data.len()
                &&& data.take(step->data.len() as int) == step->data
            }
        },
        JavaStepView::Finished { result } => {
            &&& !(step is ReadAddress) && !(step is LookupSrv) && !(step is LookupSrvTarget)
            &&& !(step is Finished)
            &&& result is Ok ==> step is Receive
        },
    }
}

proof fn lemma_steps_follow(
    pinger: JavaPinger,
    step: JavaStepView,
    outside: JavaOutside,
    used: nat,
    i: int,
)
    requires
        0 <= i < pinger.steps_from(step, outside, used).len() - 1,
    ensures
        may_follow(
            pinger.steps_from(step, outside, used)[i],
            pinger.steps_from(step, outside, used)[i + 1],
        ),
    decreases outside.pieces.len() - used, step.rank(),
{
    let steps = pinger.steps_from(step, outside, used);
    let next = pinger.answered(step, outside, used);
    let used_then = if step is Receive {
        used + 1
    } else {
        used
    };
    let rest = pinger.steps_from(next, outside, used_then);
    assert(steps =~= seq![step] + rest);
    if i == 0 {
        assert(rest[0] == next);
        match step {
            JavaStepView::Receive { target, latency, data } => {
                if next is Receive {
                    assert(next->data.take(data.len() as int) =~= data);
                }
            },
            _ => {},
        }
    } else {
        lemma_steps_follow(pinger, next, outside, used_then, i - 1);
    }
}

/// The steps of a ping come in their order, each with what the one before it has brought, and a ping
/// succeeds only by what it has received.
pub proof fn law_steps_come_in_order(pinger: JavaPinger, outside: JavaOutside, i: int)
    requires
        0 <= i < pinger.steps_from(JavaStepView::ReadAddress, outside, 0).len() - 1,
    ensures
        may_follow(
            pinger.steps_from(JavaStepView::ReadAddress, outside, 0)[i],
            pinger.steps_from(JavaStepView::ReadAddress, outside, 0)[i + 1],
        ),
{
    lemma_steps_follow(pinger, JavaStepView::ReadAddress, outside, 0, i);
}

proof fn lemma_last_step(
    pinger: JavaPinger,
    step: JavaStepView,
    outside: JavaOutside,
    used: nat,
)
    ensures
        pinger.steps_from(step, outside, used).len() > 0,
        pinger.result_from(step, outside, used) == match pinger.steps_from(
            step,
            outside,
            used,
        ).last() {
            JavaStepView::Finished { result } => Some(result),
            _ => None,
        },
    decreases outside.pieces.len() - used, step.rank(),
{
    if !(step is Finished || (step is Receive && used >= outside.pieces.len())) {
        let next = pinger.answered(step, outside, used);
        let used_then = if step is Receive {
            used + 1
        } else {
            used
        };
        lemma_last_step(pinger, next, outside, used_then);
        assert(pinger.steps_from(step, outside, used).last() == pinger.steps_from(
            next,
            outside,
            used_then,
        ).last());
    }
}

/// What a ping comes to is what its last step says.
pub proof fn law_last_step_is_the_result(pinger: JavaPinger, outside: JavaOutside)
    ensures
        pinger.result_from(JavaStepView::ReadAddress, outside, 0) == match pinger.steps_from(
            JavaStepView::ReadAddress,
            outside,
            0,
        ).last() {
            JavaStepView::Finished { result } => Some(result),
            _ => None,
        },
{
    lemma_last_step(pinger, JavaStepView::ReadAddress, outside, 0);
}

/// What a ping comes to, by what the outside answers. It says the first thing that failed. Where
/// nothing did, its document has the host and port where the server was shown to be, the latency of
/// the connection, the service where that led there and null otherwise, and in every other member
/// what the server's response has.
pub proof fn law_ping_outcome(pinger: JavaPinger, outside: JavaOutside, key: Seq<char>)
    ensures
        ({
            let result = pinger.result_from(JavaStepView::ReadAddress, outside, 0);
            let response = response_in(outside.pieces, Seq::empty());
            if outside.literal is None && !JavaPinger::leads_by_service(outside)
                && outside.host_ip is Err {
                result == Some(Err::<Json, Failure>(outside.host_ip->Err_0))
            } else if outside.connection is Err {
                result == Some(Err::<Json, Failure>(outside.connection->Err_0))
            } else if outside.handshake is Err {
                result == Some(Err::<Json, Failure>(outside.handshake->Err_0))
            } else if outside.request is Err {
                result == Some(Err::<Json, Failure>(outside.request->Err_0))
            } else if response is None {
                result is None
            } else if response->0 is Err {
                result == Some(Err::<Json, Failure>(response->0->Err_0))
            } else {
                let document = result->0->Ok_0;
                let sent = response->0->Ok_0;
                &&& result is Some && result->0 is Ok
                &&& document is Object
                &&& document.member("latency"@) == Some(
                    Json::Integer(outside.connection->Ok_0 as int),
                )
                &&& document.member("host"@) == Some(
                    Json::Text(
                        if outside.literal is Some {
                            outside.literal->0
                        } else if JavaPinger::leads_by_service(outside) {
                            outside.service_ip->0
                        } else {
                            outside.host_ip->Ok_0
                        },
                    ),
                )
                &&& document.member("port"@) == Some(
                    Json::Integer(
                        if JavaPinger::leads_by_service(outside) {
                            (outside.service->0).1 as int
                        } else {
                            pinger.port as int
                        },
                    ),
                )
                &&& document.member("srvRecord"@) == Some(
                    if JavaPinger::leads_by_service(outside) {
                        Json::Text(pinger.srv_prefix@ + "."@ + pinger.address@)
                    } else {
                        Json::Null
                    },
                )
                &&& key != "host"@ && key != "port"@ && key != "latency"@ && key != "srvRecord"@
                    ==> document.member(key) == sent.member(key)
            }
        }),
{
    law_ping_result(pinger, outside);
    match (
        pinger.located(outside),
        outside.connection,
        response_in(outside.pieces, Seq::empty()),
    ) {
        (Ok(target), Ok(latency), Some(Ok(sent))) => {
            law_completed_members(
                sent,
                if target.srv_record is Some {
                    Some(pinger.service())
                } else {
                    None
                },
                target.host,
                target.port,
                latency,
                key,
            );
        },
        _ => {},
    }
}

/// What each piece that is received does: a failure ends the ping with it, the end of the stream
/// ends it without a response, and any other piece makes what was received longer, which ends the
/// ping as soon as that holds a document.
pub proof fn law_each_piece(
    failure: Failure,
    piece: Seq<u8>,
    rest: Seq<Result<Seq<u8>, Failure>>,
    data: Seq<u8>,
)
    requires
        piece.len() > 0,
    ensures
        response_in(seq![Err::<Seq<u8>, Failure>(failure)] + rest, data) == Some(
            Err::<Json, Failure>(failure),
        ),
        response_in(seq![Ok::<Seq<u8>, Failure>(Seq::empty())] + rest, data) == Some(
            Err::<Json, Failure>(Failure::ParseError("Could not parse server response"@)),
        ),
        response_in(seq![Ok::<Seq<u8>, Failure>(piece)] + rest, data) == match first_object(
            utf8_lossy(data + piece),
        ) {
            Some(object) if json_parsed(object) is Some => Some(
                Ok::<Json, Failure>(json_parsed(object)->0),
            ),
            _ => response_in(rest, data + piece),
        },
        response_in(Seq::empty(), data) is None,
{
    assert((seq![Ok::<Seq<u8>, Failure>(piece)] + rest).skip(1) =~= rest);
}

/// The depth of braces is none at the start; an opening brace makes it one more, a closing one makes
/// it one less, and nothing else changes it.
pub proof fn law_brace_depth(text: Seq<char>, n: int)
    requires
        0 <= n < text.len(),
    ensures
        brace_depth(text, 0) == 0,
        text[n] == '{' ==> brace_depth(text, n + 1) == brace_depth(text, n) + 1,
        text[n] == '}' ==> brace_depth(text, n + 1) == brace_depth(text, n) - 1,
        text[n] != '{' && text[n] != '}' ==> brace_depth(text, n + 1) == brace_depth(text, n),
{
}

/// Below a place above depth zero, a brace has opened at depth zero, and none has since.
proof fn lemma_opened_below(text: Seq<char>, n: int) -> (start: int)
    requires
        0 <= n <= text.len(),
        brace_depth(text, n) > 0,
    ensures
        opens_at(text, start),
        start < n,
        forall|s: int| start < s < n ==> !opens_at(text, s),
    decreases n,
{
    if brace_depth(text, n - 1) > 0 {
        let start = lemma_opened_below(text, n - 1);
        start
    } else {
        n - 1
    }
}

/// The first object in a text ends at the first closing brace that brings the depth back to zero,
/// and there is one exactly where there is such a brace. It begins with the last opening brace
/// before that at depth zero, is balanced, and stays above depth zero in between.
pub proof fn law_first_object(text: Seq<char>, end: int)
    requires
        0 < end <= text.len(),
        text[end - 1] == '}',
        brace_depth(text, end) == 0,
        forall|e: int|
            0 < e < end && text[e - 1] == '}' ==> #[trigger] brace_depth(text, e) != 0,
    ensures
        ({
            let object = first_object(text)->0;
            let start = end - object.len();
            &&& first_object(text) is Some
            &&& 0 <= start < end - 1
            &&& object == text.subrange(start, end)
            &&& text[start] == '{'
            &&& brace_depth(text, start) == 0
            &&& forall|n: int| start < n < end ==> #[trigger] brace_depth(text, n) > 0
        }),
{
    let start = lemma_opened_below(text, end - 1);
    assert(closes_at(text, end));
    assert forall|e: int| e < end implies !closes_at(text, e) by {
        if 0 < e && text[e - 1] == '}' {
            assert(brace_depth(text, e) != 0);
        }
    }
    assert forall|s: int| start < s < end implies !opens_at(text, s) by {
        if s == end - 1 {
            assert(text[s] == '}');
        }
    }
    assert(is_object_span(text, start, end));
    lemma_span_is_unique(text, start, end);
    assert(text.subrange(start, end).len() == end - start);
    lemma_above_within(text, start, end, start + 1);
}

proof fn lemma_above_within(text: Seq<char>, start: int, end: int, n: int)
    requires
        is_object_span(text, start, end),
        start < n < end,
        brace_depth(text, n) > 0,
    ensures
        forall|k: int| n <= k < end ==> #[trigger] brace_depth(text, k) > 0,
    decreases end - n,
{
    if n + 1 < end {
        assert(!closes_at(text, n + 1));
        lemma_above_within(text, start, end, n + 1);
    }
}

/// Where no closing brace brings the depth back to zero, there is no object.
pub proof fn law_no_object(text: Seq<char>)
    requires
        forall|e: int|
            0 < e <= text.len() && text[e - 1] == '}' ==> #[trigger] brace_depth(text, e) != 0,
    ensures
        first_object(text) is None,
        response_document(text) is None,
{
    if exists|start: int, end: int| is_object_span(text, start, end) {
        let (start, end) = choose|start: int, end: int| is_object_span(text, start, end);
        assert(is_object_span(text, start, end));
        assert(brace_depth(text, end) != 0);
    }
}

/// The document of a response is the JSON document in its first object, and none where that is not
/// JSON.
pub proof fn law_response_document(text: Seq<char>)
    ensures
        first_object(text) is Some ==> response_document(text) == json_parsed(first_object(text)->0),
        first_object(text) is None ==> response_document(text) is None,
{
}

/// Why no connection came about is what a ping says.
pub proof fn law_connect_failures(failure: IoFailure, seconds: String)
    ensures
        ConnectFailure::Io(failure).failure() == failure.failure(),
        ConnectFailure::TimedOut(seconds).failure() == Failure::Timeout(seconds@ + " seconds"@),
{
}

} // verus!
