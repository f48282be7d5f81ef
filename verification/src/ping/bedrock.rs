//! Pinging a server of the Bedrock edition.
use super::{
    host_and_port, looked_up, result_view, sending, with_port, Failure, PingError, ReceiveFailure,
};
use crate::json::{json_i64, json_null, json_set, json_text, json_u64, json_view, Json};
use crate::text::{
    decimal, decode_lossy, fields, is_digit, joined, law_decimal_round_trip, law_fields_of_joined,
    law_i32_round_trip, law_separator_divides, law_u16_round_trip, option_view, parse_i32, parse_u16, parsed_i32, parsed_u16,
    signed_decimal, signed_to_decimal, split_fields, utf8_lossy, views,
};
use std::time::Duration;
use vstd::prelude::*;

verus! {

/// The bytes by which packets that belong to no connection are known.
pub open spec fn magic() -> Seq<u8> {
    seq![
        0x00u8, 0xFF, 0xFF, 0x00, 0xFE, 0xFE, 0xFE, 0xFE, 0xFD, 0xFD, 0xFD, 0xFD, 0x12, 0x34,
        0x56, 0x78,
    ]
}

/// The packet that asks for the status: number 1, no time, the magic bytes, no client.
pub open spec fn ping_packet() -> Seq<u8> {
    seq![1u8] + Seq::new(8, |i: int| 0u8) + magic() + Seq::new(8, |i: int| 0u8)
}

/// The packet that asks for the status.
pub fn build_ping_packet() -> (packet: Vec<u8>)
    ensures
        packet@ == ping_packet(),
{
    let mut packet: Vec<u8> = Vec::with_capacity(33);
    packet.push(0x01);
    packet.extend_from_slice(&[0u8; 8]);
    packet.extend_from_slice(
        &[
            0x00, 0xFF, 0xFF, 0x00, 0xFE, 0xFE, 0xFE, 0xFE, 0xFD, 0xFD, 0xFD, 0xFD, 0x12, 0x34,
            0x56, 0x78,
        ],
    );
    packet.extend_from_slice(&[0u8; 8]);
    assert(packet@ =~= ping_packet());
    packet
}

/// The number that the bytes 1 to 8 of a packet hold, the highest byte first.
pub open spec fn guid_bits(data: Seq<u8>) -> int {
    data[1] * 0x100_0000_0000_0000 + data[2] * 0x1_0000_0000_0000 + data[3] * 0x100_0000_0000
        + data[4] * 0x1_0000_0000 + data[5] * 0x100_0000 + data[6] * 0x1_0000 + data[7] * 0x100
        + data[8]
}

/// The server's number in a packet: those bytes as a signed number in two's complement.
pub open spec fn guid(data: Seq<u8>) -> int {
    if guid_bits(data) < 0x8000_0000_0000_0000 {
        guid_bits(data)
    } else {
        guid_bits(data) - 0x1_0000_0000_0000_0000
    }
}

fn server_guid(data: &[u8]) -> (number: i64)
    requires
        data@.len() >= 9,
    ensures
        number == guid(data@),
{
    let mut bits: u64 = data[1] as u64;
    bits = bits * 256 + data[2] as u64;
    bits = bits * 256 + data[3] as u64;
    bits = bits * 256 + data[4] as u64;
    bits = bits * 256 + data[5] as u64;
    bits = bits * 256 + data[6] as u64;
    bits = bits * 256 + data[7] as u64;
    bits = bits * 256 + data[8] as u64;
    assert(bits < 0x8000_0000_0000_0000 ==> bits as i64 == bits) by (bit_vector);
    assert(bits >= 0x8000_0000_0000_0000 ==> bits as i64 == bits - 0x1_0000_0000_0000_0000)
        by (bit_vector);
    bits as i64
}

/// What a server of the Bedrock edition says of itself.
pub struct BedrockStatus {
    pub server_guid: i64,
    pub edition: String,
    pub motd_line1: String,
    pub protocol_version: i32,
    pub version: String,
    pub online_players: i32,
    pub max_players: i32,
    pub server_id: String,
    pub motd_line2: String,
    pub game_mode: String,
    pub game_mode_id: i32,
    pub port_ipv4: Option<u16>,
    pub port_ipv6: Option<u16>,
}

/// What a `BedrockStatus` holds.
pub struct BedrockStatusView {
    pub server_guid: i64,
    pub edition: Seq<char>,
    pub motd_line1: Seq<char>,
    pub protocol_version: i32,
    pub version: Seq<char>,
    pub online_players: i32,
    pub max_players: i32,
    pub server_id: Seq<char>,
    pub motd_line2: Seq<char>,
    pub game_mode: Seq<char>,
    pub game_mode_id: i32,
    pub port_ipv4: Option<u16>,
    pub port_ipv6: Option<u16>,
}

impl View for BedrockStatus {
    type V = BedrockStatusView;

    open spec fn view(&self) -> BedrockStatusView {
        BedrockStatusView {
            server_guid: self.server_guid,
            edition: self.edition@,
            motd_line1: self.motd_line1@,
            protocol_version: self.protocol_version,
            version: self.version@,
            online_players: self.online_players,
            max_players: self.max_players,
            server_id: self.server_id@,
            motd_line2: self.motd_line2@,
            game_mode: self.game_mode@,
            game_mode_id: self.game_mode_id,
            port_ipv4: self.port_ipv4,
            port_ipv6: self.port_ipv6,
        }
    }
}

/// The field number `i` of a response; a response that ends before it has an empty one.
pub open spec fn text_field(parts: Seq<Seq<char>>, i: int) -> Seq<char> {
    if i < parts.len() {
        parts[i]
    } else {
        Seq::empty()
    }
}

/// The field number `i` as a number; zero where it is none.
pub open spec fn number_field(parts: Seq<Seq<char>>, i: int) -> i32 {
    match parsed_i32(text_field(parts, i)) {
        Some(n) => n,
        None => 0,
    }
}

/// The field number `i` as a port, where it is one.
pub open spec fn port_field(parts: Seq<Seq<char>>, i: int) -> Option<u16> {
    parsed_u16(text_field(parts, i))
}

/// The status in the fields of a response.
pub open spec fn status_in(server_guid: i64, parts: Seq<Seq<char>>) -> BedrockStatusView {
    BedrockStatusView {
        server_guid,
        edition: text_field(parts, 0),
        motd_line1: text_field(parts, 1),
        protocol_version: number_field(parts, 2),
        version: text_field(parts, 3),
        online_players: number_field(parts, 4),
        max_players: number_field(parts, 5),
        server_id: text_field(parts, 6),
        motd_line2: text_field(parts, 7),
        game_mode: text_field(parts, 8),
        game_mode_id: number_field(parts, 9),
        port_ipv4: port_field(parts, 10),
        port_ipv6: port_field(parts, 11),
    }
}

impl BedrockStatusView {
    /// The whole message of the day: its second line only where that is not empty.
    pub open spec fn motd(self) -> Seq<char> {
        if self.motd_line2.len() == 0 {
            self.motd_line1
        } else {
            self.motd_line1 + "\n"@ + self.motd_line2
        }
    }

    /// The document that a client gets, with what is known of the connection.
    pub open spec fn document(self, latency: u64, host: Seq<char>, port: u16) -> Json {
        Json::Object(
            map![
                "edition"@ => Json::Text(self.edition),
                "motd"@ => Json::Object(map![
                    "raw"@ => Json::Text(self.motd()),
                    "line1"@ => Json::Text(self.motd_line1),
                    "line2"@ => Json::Text(self.motd_line2),
                ]),
                "version"@ => Json::Object(map![
                    "name"@ => Json::Text(self.version),
                    "protocol"@ => Json::Integer(self.protocol_version as int),
                ]),
                "players"@ => Json::Object(map![
                    "online"@ => Json::Integer(self.online_players as int),
                    "max"@ => Json::Integer(self.max_players as int),
                ]),
                "serverGUID"@ => Json::Text(signed_decimal(self.server_guid as int)),
                "serverID"@ => Json::Text(self.server_id),
                "gameMode"@ => Json::Text(self.game_mode),
                "gameModeID"@ => Json::Integer(self.game_mode_id as int),
                "portIPv4"@ => port_document(self.port_ipv4),
                "portIPv6"@ => port_document(self.port_ipv6),
                "latency"@ => Json::Integer(latency as int),
                "host"@ => Json::Text(host),
                "port"@ => Json::Integer(port as int),
            ],
        )
    }
}

/// A port as a document; null where there is none.
pub open spec fn port_document(port: Option<u16>) -> Json {
    match port {
        Some(n) => Json::Integer(n as int),
        None => Json::Null,
    }
}

/// What the answer of a server says.
pub open spec fn response_status(data: Seq<u8>) -> Result<BedrockStatusView, Failure> {
    if data.len() == 0 || data[0] != 0x1C {
        Err(Failure::ParseError("Invalid packet received"@))
    } else if data.len() < 35 {
        Err(Failure::ParseError("Packet too short"@))
    } else {
        status_text(guid(data) as i64, utf8_lossy(data.skip(35)))
    }
}

/// What the text of an answer says: fields between semicolons, at least six of them.
pub open spec fn status_text(server_guid: i64, response: Seq<char>) -> Result<
    BedrockStatusView,
    Failure,
> {
    if fields(response, ';').len() < 6 {
        Err(Failure::ParseError("Invalid response format"@))
    } else {
        Ok(status_in(server_guid, fields(response, ';')))
    }
}

fn text_at(parts: &Vec<String>, i: usize) -> (text: String)
    ensures
        text@ == text_field(views(parts@), i as int),
{
    if i < parts.len() {
        parts[i].clone()
    } else {
        String::new()
    }
}

fn number_at(parts: &Vec<String>, i: usize) -> (number: i32)
    ensures
        number == number_field(views(parts@), i as int),
{
    match parse_i32(&text_at(parts, i)) {
        Some(n) => n,
        None => 0,
    }
}

fn port_at(parts: &Vec<String>, i: usize) -> (port: Option<u16>)
    ensures
        port == port_field(views(parts@), i as int),
{
    parse_u16(&text_at(parts, i))
}

/// Reads the text of an answer.
pub fn read_status(server_guid: i64, response: &str) -> (status: Result<BedrockStatus, PingError>)
    ensures
        match status {
            Ok(s) => status_text(server_guid, response@) == Ok::<_, Failure>(s@),
            Err(e) => status_text(server_guid, response@) == Err::<BedrockStatusView, _>(e@),
        },
{
    let parts = split_fields(response, ';');
    assert(views(parts@).len() == parts@.len());
    if parts.len() < 6 {
        return Err(PingError::ParseError("Invalid response format".to_owned()));
    }
    Ok(
        BedrockStatus {
            server_guid,
            edition: text_at(&parts, 0),
            motd_line1: text_at(&parts, 1),
            protocol_version: number_at(&parts, 2),
            version: text_at(&parts, 3),
            online_players: number_at(&parts, 4),
            max_players: number_at(&parts, 5),
            server_id: text_at(&parts, 6),
            motd_line2: text_at(&parts, 7),
            game_mode: text_at(&parts, 8),
            game_mode_id: number_at(&parts, 9),
            port_ipv4: port_at(&parts, 10),
            port_ipv6: port_at(&parts, 11),
        },
    )
}

fn json_port(port: Option<u16>) -> (document: serde_json::Value)
    ensures
        json_view(document) == port_document(port),
{
    match port {
        Some(n) => json_u64(n as u64),
        None => json_null(),
    }
}

impl BedrockStatus {
    fn full_motd(&self) -> (text: String)
        ensures
            text@ == self@.motd(),
    {
        if self.motd_line2.as_str().is_empty() {
            self.motd_line1.clone()
        } else {
            self.motd_line1.clone().concat("\n").concat(&self.motd_line2)
        }
    }

    /// The document that a client gets, with what is known of the connection.
    pub fn to_json(&self, latency: u64, host: &str, port: u16) -> (document: serde_json::Value)
        ensures
            json_view(document) == self@.document(latency, host@, port),
    {
        let mut motd = json_null();
        json_set(&mut motd, "raw", json_text(&self.full_motd()));
        json_set(&mut motd, "line1", json_text(&self.motd_line1));
        json_set(&mut motd, "line2", json_text(&self.motd_line2));
        let mut version = json_null();
        json_set(&mut version, "name", json_text(&self.version));
        json_set(&mut version, "protocol", json_i64(self.protocol_version as i64));
        let mut players = json_null();
        json_set(&mut players, "online", json_i64(self.online_players as i64));
        json_set(&mut players, "max", json_i64(self.max_players as i64));
        let mut document = json_null();
        json_set(&mut document, "edition", json_text(&self.edition));
        json_set(&mut document, "motd", motd);
        json_set(&mut document, "version", version);
        json_set(&mut document, "players", players);
        json_set(&mut document, "serverGUID", json_text(&signed_to_decimal(self.server_guid)));
        json_set(&mut document, "serverID", json_text(&self.server_id));
        json_set(&mut document, "gameMode", json_text(&self.game_mode));
        json_set(&mut document, "gameModeID", json_i64(self.game_mode_id as i64));
        json_set(&mut document, "portIPv4", json_port(self.port_ipv4));
        json_set(&mut document, "portIPv6", json_port(self.port_ipv6));
        json_set(&mut document, "latency", json_u64(latency));
        json_set(&mut document, "host", json_text(host));
        json_set(&mut document, "port", json_u64(port as u64));
        document
    }
}

/// What came of an answer: the document for the client, or why there is none.
pub open spec fn response_result(data: Seq<u8>, latency: u64, host: Seq<char>, port: u16) -> Result<
    Json,
    Failure,
> {
    match response_status(data) {
        Ok(status) => Ok(status.document(latency, host, port)),
        Err(failure) => Err(failure),
    }
}

/// Reads the answer of a server.
pub fn parse_response(data: &[u8], latency: u64, host: &str, port: u16) -> (result: Result<
    serde_json::Value,
    PingError,
>)
    ensures
        result_view(result) == response_result(data@, latency, host@, port),
{
    if data.len() == 0 || data[0] != 0x1C {
        return Err(PingError::ParseError("Invalid packet received".to_owned()));
    }
    if data.len() < 35 {
        return Err(PingError::ParseError("Packet too short".to_owned()));
    }
    let guid = server_guid(data);
    let text = &data[35..data.len()];
    assert(text@ =~= data@.skip(35));
    let response = decode_lossy(text);
    match read_status(guid, &response) {
        Ok(status) => Ok(status.to_json(latency, host, port)),
        Err(error) => Err(error),
    }
}

/// A pinger of one server of the Bedrock edition.
pub struct BedrockPinger {
    pub address: String,
    pub port: u16,
    pub timeout: Duration,
}

/// The work that a ping of the Bedrock edition waits for. Each step names the method of
/// `BedrockPinger` that takes what came of it.
pub enum BedrockStep {
    /// Read the address as an IP address, without asking anybody: `address_read`.
    ReadAddress,
    /// Look up the host: `host_found`.
    LookupHost { host: String },
    /// Open a socket at any free port: `bound`.
    Bind { host: String },
    /// Direct the socket at `address`: `directed`.
    Direct { host: String, address: String },
    /// Send a packet, and time the answer from here: `sent`.
    Send { host: String, packet: Vec<u8> },
    /// Receive one packet within the timeout: `received`.
    Receive { host: String },
    /// The ping is over.
    Finished { result: Result<serde_json::Value, PingError> },
}

/// What a `BedrockStep` holds.
pub enum BedrockStepView {
    ReadAddress,
    LookupHost { host: Seq<char> },
    Bind { host: Seq<char> },
    Direct { host: Seq<char>, address: Seq<char> },
    Send { host: Seq<char>, packet: Seq<u8> },
    Receive { host: Seq<char> },
    Finished { result: Result<Json, Failure> },
}

impl View for BedrockStep {
    type V = BedrockStepView;

    open spec fn view(&self) -> BedrockStepView {
        match self {
            BedrockStep::ReadAddress => BedrockStepView::ReadAddress,
            BedrockStep::LookupHost { host } => BedrockStepView::LookupHost { host: host@ },
            BedrockStep::Bind { host } => BedrockStepView::Bind { host: host@ },
            BedrockStep::Direct { host, address } => BedrockStepView::Direct {
                host: host@,
                address: address@,
            },
            BedrockStep::Send { host, packet } => BedrockStepView::Send {
                host: host@,
                packet: packet@,
            },
            BedrockStep::Receive { host } => BedrockStepView::Receive { host: host@ },
            BedrockStep::Finished { result } => BedrockStepView::Finished {
                result: result_view(*result),
            },
        }
    }
}

/// The step that ends a ping with a failure.
pub open spec fn failed(failure: Failure) -> BedrockStepView {
    BedrockStepView::Finished { result: Err(failure) }
}

impl BedrockPinger {
    /// The step after the address has been read as an IP address, or could not be.
    pub open spec fn on_address_read(self, literal: Option<Seq<char>>) -> BedrockStepView {
        match literal {
            Some(host) => BedrockStepView::Bind { host },
            None => BedrockStepView::LookupHost { host: self.address@ },
        }
    }

    /// The step after the lookup of the host.
    pub open spec fn on_host_found(self, ip: Result<Seq<char>, Failure>) -> BedrockStepView {
        match ip {
            Ok(host) => BedrockStepView::Bind { host },
            Err(failure) => failed(failure),
        }
    }

    /// The step after a socket has been opened.
    pub open spec fn on_bound(self, host: Seq<char>, outcome: Result<(), Failure>) -> BedrockStepView {
        match outcome {
            Ok(_) => BedrockStepView::Direct { host, address: host_and_port(host, self.port) },
            Err(failure) => failed(failure),
        }
    }

    /// The step after the socket has been directed at the server.
    pub open spec fn on_directed(
        self,
        host: Seq<char>,
        outcome: Result<(), Failure>,
    ) -> BedrockStepView {
        match outcome {
            Ok(_) => BedrockStepView::Send { host, packet: ping_packet() },
            Err(failure) => failed(failure),
        }
    }

    /// The step after the request for the status.
    pub open spec fn on_sent(self, host: Seq<char>, outcome: Result<(), Failure>) -> BedrockStepView {
        match outcome {
            Ok(_) => BedrockStepView::Receive { host },
            Err(failure) => failed(failure),
        }
    }

    /// The step after a packet, which came after some milliseconds.
    pub open spec fn on_received(
        self,
        host: Seq<char>,
        outcome: Result<(Seq<u8>, u64), Failure>,
    ) -> BedrockStepView {
        match outcome {
            Ok((data, latency)) => BedrockStepView::Finished {
                result: response_result(data, latency, host, self.port),
            },
            Err(failure) => failed(failure),
        }
    }

    /// A pinger of the server at `address` and `port`.
    pub fn new(address: &str, port: u16, timeout: Duration) -> (pinger: Self)
        ensures
            pinger.address@ == address@,
            pinger.port == port,
            pinger.timeout == timeout,
    {
        BedrockPinger { address: address.to_owned(), port, timeout }
    }

    /// Begins a ping.
    pub fn ping(&self) -> (step: BedrockStep)
        ensures
            step@ == BedrockStepView::ReadAddress,
    {
        BedrockStep::ReadAddress
    }

    /// An address that is an IP address needs no lookup.
    pub fn address_read(&self, literal: Option<String>) -> (step: BedrockStep)
        ensures
            step@ == self.on_address_read(option_view(literal)),
    {
        match literal {
            Some(host) => BedrockStep::Bind { host },
            None => BedrockStep::LookupHost { host: self.address.clone() },
        }
    }

    /// The first IP address of the host is taken; a host without one cannot be pinged, nor one
    /// whose lookup failed.
    pub fn host_found(&self, ip: Result<Option<String>, String>) -> (step: BedrockStep)
        ensures
            step@ == self.on_host_found(looked_up(ip)),
    {
        match ip {
            Ok(Some(host)) => BedrockStep::Bind { host },
            Ok(None) => Self::fail(PingError::DnsError("No IP addresses found".to_owned())),
            Err(e) => Self::fail(PingError::DnsError(e)),
        }
    }

    /// The socket is directed at the server.
    pub fn bound(&self, host: String, outcome: Result<(), String>) -> (step: BedrockStep)
        ensures
            step@ == self.on_bound(host@, sending(outcome)),
    {
        match outcome {
            Ok(_) => {
                let address = with_port(&host, self.port);
                BedrockStep::Direct { host, address }
            },
            Err(e) => Self::fail(PingError::IoError(e)),
        }
    }

    /// The request for the status is sent.
    pub fn directed(&self, host: String, outcome: Result<(), String>) -> (step: BedrockStep)
        ensures
            step@ == self.on_directed(host@, sending(outcome)),
    {
        match outcome {
            Ok(_) => BedrockStep::Send { host, packet: build_ping_packet() },
            Err(e) => Self::fail(PingError::IoError(e)),
        }
    }

    /// After the request the answer is awaited.
    pub fn sent(&self, host: String, outcome: Result<(), String>) -> (step: BedrockStep)
        ensures
            step@ == self.on_sent(host@, sending(outcome)),
    {
        match outcome {
            Ok(_) => BedrockStep::Receive { host },
            Err(e) => Self::fail(PingError::IoError(e)),
        }
    }

    /// The first packet that comes is the answer; `latency` is the milliseconds that it took.
    pub fn received(&self, host: String, outcome: Result<(Vec<u8>, u64), ReceiveFailure>) -> (step:
        BedrockStep)
        ensures
            step@ == self.on_received(
                host@,
                match outcome {
                    Ok((data, latency)) => Ok((data@, latency)),
                    Err(failure) => Err(failure.failure()),
                },
            ),
    {
        match outcome {
            Ok((data, latency)) => BedrockStep::Finished {
                result: parse_response(&data, latency, &host, self.port),
            },
            Err(ReceiveFailure::Io(e)) => Self::fail(PingError::IoError(e)),
            Err(ReceiveFailure::TimedOut(seconds)) => Self::fail(PingError::timed_out(&seconds)),
        }
    }

    fn fail(error: PingError) -> (step: BedrockStep)
        ensures
            step@ == failed(error@),
    {
        BedrockStep::Finished { result: Err(error) }
    }
}

impl BedrockStatusView {
    /// The fields by which a server announces this status.
    pub open spec fn announced(self) -> Seq<Seq<char>> {
        seq![
            self.edition,
            self.motd_line1,
            signed_decimal(self.protocol_version as int),
            self.version,
            signed_decimal(self.online_players as int),
            signed_decimal(self.max_players as int),
            self.server_id,
            self.motd_line2,
            self.game_mode,
            signed_decimal(self.game_mode_id as int),
            port_text(self.port_ipv4),
            port_text(self.port_ipv6),
        ]
    }
}

/// A port as a field; empty where there is none.
pub open spec fn port_text(port: Option<u16>) -> Seq<char> {
    match port {
        Some(n) => decimal(n as nat),
        None => Seq::empty(),
    }
}

proof fn lemma_no_semicolon_in_decimal(n: nat)
    ensures
        !decimal(n).contains(';'),
{
    law_decimal_round_trip(n);
    if decimal(n).contains(';') {
        let i = choose|i: int| 0 <= i < decimal(n).len() && decimal(n)[i] == ';';
        assert(is_digit(decimal(n)[i]));
    }
}

proof fn lemma_no_semicolon_in_signed_decimal(n: int)
    ensures
        !signed_decimal(n).contains(';'),
{
    if n < 0 {
        let digits = decimal((-n) as nat);
        lemma_no_semicolon_in_decimal((-n) as nat);
        if signed_decimal(n).contains(';') {
            let i = choose|i: int| 0 <= i < signed_decimal(n).len() && signed_decimal(n)[i] == ';';
            assert(digits[i - 1] == ';');
        }
    } else {
        lemma_no_semicolon_in_decimal(n as nat);
    }
}

proof fn lemma_port_text(port: Option<u16>)
    ensures
        parsed_u16(port_text(port)) == port,
        !port_text(port).contains(';'),
{
    match port {
        Some(n) => {
            law_u16_round_trip(n);
            lemma_no_semicolon_in_decimal(n as nat);
        },
        None => {},
    }
}

/// The status that a server announces is the status that is read, where none of its texts holds
/// a semicolon.
pub proof fn law_announced_status_is_read(status: BedrockStatusView)
    requires
        !status.edition.contains(';'),
        !status.motd_line1.contains(';'),
        !status.version.contains(';'),
        !status.server_id.contains(';'),
        !status.motd_line2.contains(';'),
        !status.game_mode.contains(';'),
    ensures
        status_text(status.server_guid, joined(status.announced(), ';')) == Ok::<_, Failure>(status),
{
    let parts = status.announced();
    lemma_no_semicolon_in_signed_decimal(status.protocol_version as int);
    lemma_no_semicolon_in_signed_decimal(status.online_players as int);
    lemma_no_semicolon_in_signed_decimal(status.max_players as int);
    lemma_no_semicolon_in_signed_decimal(status.game_mode_id as int);
    lemma_port_text(status.port_ipv4);
    lemma_port_text(status.port_ipv6);
    law_i32_round_trip(status.protocol_version);
    law_i32_round_trip(status.online_players);
    law_i32_round_trip(status.max_players);
    law_i32_round_trip(status.game_mode_id);
    law_fields_of_joined(parts, ';');
}

/// A server's number as the eight bytes of a packet: two's complement, the highest byte first.
pub open spec fn guid_bytes(server_guid: i64) -> Seq<u8> {
    let q0 = if server_guid < 0 {
        server_guid + 0x1_0000_0000_0000_0000
    } else {
        server_guid as int
    };
    let q1 = q0 / 256;
    let q2 = q1 / 256;
    let q3 = q2 / 256;
    let q4 = q3 / 256;
    let q5 = q4 / 256;
    let q6 = q5 / 256;
    let q7 = q6 / 256;
    seq![
        (q7 % 256) as u8,
        (q6 % 256) as u8,
        (q5 % 256) as u8,
        (q4 % 256) as u8,
        (q3 % 256) as u8,
        (q2 % 256) as u8,
        (q1 % 256) as u8,
        (q0 % 256) as u8,
    ]
}

/// An answer as a server sends it: its kind, the server's number, 26 bytes that are not read, and
/// the text.
pub open spec fn answer(server_guid: i64, unread: Seq<u8>, text: Seq<u8>) -> Seq<u8> {
    seq![0x1Cu8] + guid_bytes(server_guid) + unread + text
}

/// The number that a server sends is the number that is read.
pub proof fn law_guid_round_trip(server_guid: i64, unread: Seq<u8>, text: Seq<u8>)
    ensures
        guid(answer(server_guid, unread, text)) == server_guid,
{
}

/// A client gets of an answer what the server has announced in it, where none of its texts holds a
/// semicolon and the text reads as it was written.
pub proof fn law_answer_is_read(
    status: BedrockStatusView,
    unread: Seq<u8>,
    text: Seq<u8>,
    latency: u64,
    host: Seq<char>,
    port: u16,
)
    requires
        unread.len() == 26,
        utf8_lossy(text) == joined(status.announced(), ';'),
        !status.edition.contains(';'),
        !status.motd_line1.contains(';'),
        !status.version.contains(';'),
        !status.server_id.contains(';'),
        !status.motd_line2.contains(';'),
        !status.game_mode.contains(';'),
    ensures
        response_result(answer(status.server_guid, unread, text), latency, host, port) == Ok::<
            _,
            Failure,
        >(status.document(latency, host, port)),
{
    law_guid_round_trip(status.server_guid, unread, text);
    law_announced_status_is_read(status);
    assert(answer(status.server_guid, unread, text).skip(35) =~= text);
}

/// What the outside answers to the steps of one ping: the IP address that the address reads as;
/// that of the host; whether a socket was opened, directed and written to; and the packet that came
/// with the milliseconds that it took.
pub struct BedrockOutside {
    pub literal: Option<Seq<char>>,
    pub host_ip: Result<Seq<char>, Failure>,
    pub socket: Result<(), Failure>,
    pub direction: Result<(), Failure>,
    pub request: Result<(), Failure>,
    pub reply: Result<(Seq<u8>, u64), Failure>,
}

impl BedrockStepView {
    /// How many kinds of step may still follow this one.
    pub open spec fn rank(self) -> nat {
        match self {
            BedrockStepView::ReadAddress => 6,
            BedrockStepView::LookupHost { .. } => 5,
            BedrockStepView::Bind { .. } => 4,
            BedrockStepView::Direct { .. } => 3,
            BedrockStepView::Send { .. } => 2,
            BedrockStepView::Receive { .. } => 1,
            BedrockStepView::Finished { .. } => 0,
        }
    }
}

impl BedrockPinger {
    /// What comes of a ping from `step` on, when each step is given the answer of the outside.
    pub open spec fn result_from(self, step: BedrockStepView, outside: BedrockOutside) -> Result<
        Json,
        Failure,
    >
        decreases step.rank(),
    {
        match step {
            BedrockStepView::ReadAddress => self.result_from(
                self.on_address_read(outside.literal),
                outside,
            ),
            BedrockStepView::LookupHost { .. } => self.result_from(
                self.on_host_found(outside.host_ip),
                outside,
            ),
            BedrockStepView::Bind { host } => self.result_from(
                self.on_bound(host, outside.socket),
                outside,
            ),
            BedrockStepView::Direct { host, .. } => self.result_from(
                self.on_directed(host, outside.direction),
                outside,
            ),
            BedrockStepView::Send { host, .. } => self.result_from(
                self.on_sent(host, outside.request),
                outside,
            ),
            BedrockStepView::Receive { host } => self.result_from(
                self.on_received(host, outside.reply),
                outside,
            ),
            BedrockStepView::Finished { result } => result,
        }
    }

    /// Where the server is: at its own address where that is an IP address, and else where its name
    /// leads.
    pub open spec fn located(self, outside: BedrockOutside) -> Result<Seq<char>, Failure> {
        match outside.literal {
            Some(host) => Ok(host),
            None => outside.host_ip,
        }
    }

    /// What a whole ping comes to.
    pub open spec fn ping_result(self, outside: BedrockOutside) -> Result<Json, Failure> {
        match (self.located(outside), outside.socket, outside.direction, outside.request) {
            (Err(failure), _, _, _) => Err(failure),
            (Ok(_), Err(failure), _, _) => Err(failure),
            (Ok(_), Ok(_), Err(failure), _) => Err(failure),
            (Ok(_), Ok(_), Ok(_), Err(failure)) => Err(failure),
            (Ok(host), Ok(_), Ok(_), Ok(_)) => match outside.reply {
                Ok((data, latency)) => response_result(data, latency, host, self.port),
                Err(failure) => Err(failure),
            },
        }
    }
}

/// A ping that is given the outside's answer at every step comes to `ping_result`: it finds the
/// server, readies a socket, sends the request and reads the answer, and the first of these that
/// fails is what it says.
pub proof fn law_ping_result(pinger: BedrockPinger, outside: BedrockOutside)
    ensures
        pinger.result_from(BedrockStepView::ReadAddress, outside) == pinger.ping_result(outside),
{
    reveal_with_fuel(BedrockPinger::result_from, 7);
}

/// Whether a number is what the field number `i` says: the number that it reads as, and zero where
/// it reads as none or is not there.
pub open spec fn is_number_at(parts: Seq<Seq<char>>, i: int, number: i32) -> bool {
    if i < parts.len() && parsed_i32(parts[i]) is Some {
        parsed_i32(parts[i]) == Some(number)
    } else {
        number == 0
    }
}

/// Whether a text is the field number `i`, and empty where that is not there.
pub open spec fn is_text_at(parts: Seq<Seq<char>>, i: int, text: Seq<char>) -> bool {
    if i < parts.len() {
        text == parts[i]
    } else {
        text.len() == 0
    }
}

/// Whether a port is what the field number `i` says: the port that it reads as, and none where it
/// reads as none or is not there.
pub open spec fn is_port_at(parts: Seq<Seq<char>>, i: int, port: Option<u16>) -> bool {
    if i < parts.len() {
        port == parsed_u16(parts[i])
    } else {
        port is None
    }
}

/// Whether each member of a status is the field at its own position, whatever fields stand behind.
pub open spec fn is_status_in(status: BedrockStatusView, parts: Seq<Seq<char>>) -> bool {
    &&& is_text_at(parts, 0, status.edition)
    &&& is_text_at(parts, 1, status.motd_line1)
    &&& is_number_at(parts, 2, status.protocol_version)
    &&& is_text_at(parts, 3, status.version)
    &&& is_number_at(parts, 4, status.online_players)
    &&& is_number_at(parts, 5, status.max_players)
    &&& is_text_at(parts, 6, status.server_id)
    &&& is_text_at(parts, 7, status.motd_line2)
    &&& is_text_at(parts, 8, status.game_mode)
    &&& is_number_at(parts, 9, status.game_mode_id)
    &&& is_port_at(parts, 10, status.port_ipv4)
    &&& is_port_at(parts, 11, status.port_ipv6)
}

/// A text of at least six fields is a status, of which each member is the field at its own position,
/// however many fields there are; a text of fewer is none.
pub proof fn law_each_field_at_its_position(server_guid: i64, response: Seq<char>)
    ensures
        ({
            let parts = fields(response, ';');
            let read = status_text(server_guid, response);
            if parts.len() >= 6 {
                &&& read is Ok
                &&& is_status_in(read->Ok_0, parts)
                &&& read->Ok_0.server_guid == server_guid
            } else {
                read == Err::<BedrockStatusView, Failure>(
                    Failure::ParseError("Invalid response format"@),
                )
            }
        }),
{
    assert(parsed_i32(Seq::empty()) is None);
    assert(parsed_u16(Seq::empty()) is None);
}

/// What a server has announced is read as announced whatever it adds behind a semicolon, be it
/// nothing, where none of its own texts holds one.
pub proof fn law_more_fields_change_nothing(status: BedrockStatusView, more: Seq<char>)
    requires
        !status.edition.contains(';'),
        !status.motd_line1.contains(';'),
        !status.version.contains(';'),
        !status.server_id.contains(';'),
        !status.motd_line2.contains(';'),
        !status.game_mode.contains(';'),
    ensures
        status_text(status.server_guid, joined(status.announced(), ';').push(';') + more) == Ok::<
            _,
            Failure,
        >(status),
{
    let announced = status.announced();
    let text = joined(announced, ';');
    law_announced_status_is_read(status);
    lemma_announced_has_no_semicolon(status);
    law_fields_of_joined(announced, ';');
    law_separator_divides(text, more, ';');
    let parts = fields(text, ';');
    let longer = fields(text.push(';') + more, ';');
    assert(longer == announced + fields(more, ';'));
    assert forall|i: int| 0 <= i < 12 implies text_field(longer, i) == text_field(announced, i) by {}
    assert(status_in(status.server_guid, longer) == status_in(status.server_guid, announced));
}

proof fn lemma_announced_has_no_semicolon(status: BedrockStatusView)
    requires
        !status.edition.contains(';'),
        !status.motd_line1.contains(';'),
        !status.version.contains(';'),
        !status.server_id.contains(';'),
        !status.motd_line2.contains(';'),
        !status.game_mode.contains(';'),
    ensures
        forall|i: int|
            0 <= i < status.announced().len() ==> !(#[trigger] status.announced()[i]).contains(';'),
{
    lemma_no_semicolon_in_signed_decimal(status.protocol_version as int);
    lemma_no_semicolon_in_signed_decimal(status.online_players as int);
    lemma_no_semicolon_in_signed_decimal(status.max_players as int);
    lemma_no_semicolon_in_signed_decimal(status.game_mode_id as int);
    lemma_port_text(status.port_ipv4);
    lemma_port_text(status.port_ipv6);
}

/// The server's number in an answer is the number of 64 bits with a sign that is the same, up to two
/// to the 64th power, as its eight bytes to the base 256.
pub proof fn law_guid_of_bytes(data: Seq<u8>)
    ensures
        ({
            let high = data[1] * 16777216 + data[2] * 65536 + data[3] * 256 + data[4];
            let low = data[5] * 16777216 + data[6] * 65536 + data[7] * 256 + data[8];
            let bits = high * 4294967296 + low;
            &&& -9223372036854775808 <= guid(data) <= 9223372036854775807
            &&& guid(data) == bits || guid(data) == bits - 18446744073709551616
        }),
{
}

/// What comes of an answer: none that is empty or begins with anything but 28 is one, none is that is
/// shorter than 35 bytes, and any other one is read as the text behind those bytes.
pub proof fn law_answers(data: Seq<u8>, latency: u64, host: Seq<char>, port: u16)
    ensures
        ({
            let result = response_result(data, latency, host, port);
            if data.len() == 0 || data[0] != 28 {
                result == Err::<Json, Failure>(Failure::ParseError("Invalid packet received"@))
            } else if data.len() < 35 {
                result == Err::<Json, Failure>(Failure::ParseError("Packet too short"@))
            } else {
                match status_text(guid(data) as i64, utf8_lossy(data.skip(35))) {
                    Ok(status) => result == Ok::<Json, Failure>(
                        status.document(latency, host, port),
                    ),
                    Err(failure) => result == Err::<Json, Failure>(failure),
                }
            }
        }),
{
}

/// What a client is shown of a status: each member of the document, and that there are no others.
pub proof fn law_document_members(
    status: BedrockStatusView,
    latency: u64,
    host: Seq<char>,
    port: u16,
    key: Seq<char>,
)
    ensures
        ({
            let document = status.document(latency, host, port);
            let motd = document.member("motd"@)->0;
            let version = document.member("version"@)->0;
            let players = document.member("players"@)->0;
            &&& document.member("edition"@) == Some(Json::Text(status.edition))
            &&& document.member("motd"@) is Some
            &&& motd.member("line1"@) == Some(Json::Text(status.motd_line1))
            &&& motd.member("line2"@) == Some(Json::Text(status.motd_line2))
            &&& motd.member("raw"@) == Some(
                Json::Text(
                    if status.motd_line2.len() == 0 {
                        status.motd_line1
                    } else {
                        status.motd_line1 + "\n"@ + status.motd_line2
                    },
                ),
            )
            &&& document.member("version"@) is Some
            &&& version.member("name"@) == Some(Json::Text(status.version))
            &&& version.member("protocol"@) == Some(Json::Integer(status.protocol_version as int))
            &&& document.member("players"@) is Some
            &&& players.member("online"@) == Some(Json::Integer(status.online_players as int))
            &&& players.member("max"@) == Some(Json::Integer(status.max_players as int))
            &&& document.member("serverGUID"@) == Some(
                Json::Text(
                    if status.server_guid < 0 {
                        seq!['-'] + decimal((-status.server_guid) as nat)
                    } else {
                        decimal(status.server_guid as nat)
                    },
                ),
            )
            &&& document.member("serverID"@) == Some(Json::Text(status.server_id))
            &&& document.member("gameMode"@) == Some(Json::Text(status.game_mode))
            &&& document.member("gameModeID"@) == Some(Json::Integer(status.game_mode_id as int))
            &&& document.member("portIPv4"@) == Some(
                if status.port_ipv4 is Some {
                    Json::Integer(status.port_ipv4->0 as int)
                } else {
                    Json::Null
                },
            )
            &&& document.member("portIPv6"@) == Some(
                if status.port_ipv6 is Some {
                    Json::Integer(status.port_ipv6->0 as int)
                } else {
                    Json::Null
                },
            )
            &&& document.member("latency"@) == Some(Json::Integer(latency as int))
            &&& document.member("host"@) == Some(Json::Text(host))
            &&& document.member("port"@) == Some(Json::Integer(port as int))
            &&& document.member(key) is Some ==> {
                ||| key == "edition"@ || key == "motd"@ || key == "version"@ || key == "players"@
                ||| key == "serverGUID"@ || key == "serverID"@ || key == "gameMode"@
                ||| key == "gameModeID"@ || key == "portIPv4"@ || key == "portIPv6"@
                ||| key == "latency"@ || key == "host"@ || key == "port"@
            }
        }),
{
    reveal_strlit("edition");
    reveal_strlit("motd");
    reveal_strlit("version");
    reveal_strlit("players");
    reveal_strlit("serverGUID");
    reveal_strlit("serverID");
    reveal_strlit("gameMode");
    reveal_strlit("gameModeID");
    reveal_strlit("portIPv4");
    reveal_strlit("portIPv6");
    reveal_strlit("latency");
    reveal_strlit("host");
    reveal_strlit("port");
    reveal_strlit("raw");
    reveal_strlit("line1");
    reveal_strlit("line2");
    reveal_strlit("name");
    reveal_strlit("protocol");
    reveal_strlit("online");
    reveal_strlit("max");
    assert("edition"@.len() == 7 && "version"@.len() == 7 && "players"@.len() == 7);
    assert("latency"@.len() == 7 && "motd"@.len() == 4 && "host"@.len() == 4);
    assert("port"@.len() == 4 && "serverGUID"@.len() == 10 && "gameModeID"@.len() == 10);
    assert("serverID"@.len() == 8 && "gameMode"@.len() == 8 && "portIPv4"@.len() == 8);
    assert("portIPv6"@.len() == 8);
    assert("edition"@[0] == 'e' && "version"@[0] == 'v' && "players"@[0] == 'p');
    assert("latency"@[0] == 'l' && "motd"@[0] == 'm' && "host"@[0] == 'h' && "port"@[0] == 'p');
    assert("serverGUID"@[0] == 's' && "gameModeID"@[0] == 'g');
    assert("serverID"@[0] == 's' && "gameMode"@[0] == 'g');
    assert("portIPv4"@[7] == '4' && "portIPv6"@[7] == '6');
    assert("portIPv4"@[0] == 'p' && "portIPv6"@[0] == 'p');
    assert("raw"@.len() == 3 && "line1"@.len() == 5 && "line2"@.len() == 5);
    assert("line1"@[4] == '1' && "line2"@[4] == '2');
    assert("name"@.len() == 4 && "protocol"@.len() == 8);
    assert("online"@.len() == 6 && "max"@.len() == 3);
}

/// The request for the status is the same for every server: its kind, eight zero bytes, the magic
/// bytes, eight zero bytes.
pub open spec fn is_request(packet: Seq<u8>) -> bool {
    packet == seq![
        1u8, 0, 0, 0, 0, 0, 0, 0, 0, 0, 255, 255, 0, 254, 254, 254, 254, 253, 253, 253, 253, 18,
        52, 86, 120, 0, 0, 0, 0, 0, 0, 0, 0,
    ]
}

impl BedrockPinger {
    /// The step after `step`, when that is given the answer of the outside.
    pub open spec fn answered(self, step: BedrockStepView, outside: BedrockOutside) -> BedrockStepView {
        match step {
            BedrockStepView::ReadAddress => self.on_address_read(outside.literal),
            BedrockStepView::LookupHost { .. } => self.on_host_found(outside.host_ip),
            BedrockStepView::Bind { host } => self.on_bound(host, outside.socket),
            BedrockStepView::Direct { host, .. } => self.on_directed(host, outside.direction),
            BedrockStepView::Send { host, .. } => self.on_sent(host, outside.request),
            BedrockStepView::Receive { host } => self.on_received(host, outside.reply),
            BedrockStepView::Finished { .. } => step,
        }
    }

    /// All steps of a ping from `step` on, when each is given the answer of the outside.
    pub open spec fn steps_from(
        self,
        step: BedrockStepView,
        outside: BedrockOutside,
    ) -> Seq<BedrockStepView>
        decreases step.rank(),
    {
        if step is Finished {
            seq![step]
        } else {
            seq![step] + self.steps_from(self.answered(step, outside), outside)
        }
    }

    /// Whether the outside has shown the server to be at `host`.
    pub open spec fn shown_at(self, outside: BedrockOutside, host: Seq<char>) -> bool {
        outside.literal == Some(host) || (outside.literal is None && outside.host_ip == Ok::<
            _,
            Failure,
        >(host))
    }

    /// Whether a step of a ping asks for the right work: for the lookup, the pinger's address; for
    /// the socket, the host that the outside has shown and the pinger's own port; then for the
    /// request, and only where everything before went well.
    pub open spec fn asks_rightly(self, outside: BedrockOutside, step: BedrockStepView) -> bool {
        match step {
            BedrockStepView::ReadAddress => true,
            BedrockStepView::LookupHost { host } => outside.literal is None && host == self.address@,
            BedrockStepView::Bind { host } => self.shown_at(outside, host),
            BedrockStepView::Direct { host, address } => {
                &&& self.shown_at(outside, host)
                &&& outside.socket is Ok
                &&& address == host + ":"@ + decimal(self.port as nat)
            },
            BedrockStepView::Send { host, packet } => {
                &&& self.shown_at(outside, host)
                &&& outside.socket is Ok
                &&& outside.direction is Ok
                &&& is_request(packet)
            },
            BedrockStepView::Receive { host } => {
                &&& self.shown_at(outside, host)
                &&& outside.socket is Ok
                &&& outside.direction is Ok
                &&& outside.request is Ok
            },
            BedrockStepView::Finished { .. } => true,
        }
    }
}

/// Whether one step of a ping may come right behind another: lookup, socket, direction, request and
/// answer in this order, and none but the lookup left out; a failure may end it anywhere.
pub open spec fn may_follow(step: BedrockStepView, next: BedrockStepView) -> bool {
    match next {
        BedrockStepView::ReadAddress => false,
        BedrockStepView::LookupHost { .. } => step is ReadAddress,
        BedrockStepView::Bind { .. } => step is ReadAddress || step is LookupHost,
        BedrockStepView::Direct { host, .. } => step is Bind && step->Bind_host == host,
        BedrockStepView::Send { host, .. } => step is Direct && step->Direct_host == host,
        BedrockStepView::Receive { host } => step is Send && step->Send_host == host,
        BedrockStepView::Finished { result } => {
            &&& !(step is ReadAddress) && !(step is Finished)
            &&& result is Ok ==> step is Receive
        },
    }
}

proof fn lemma_steps(pinger: BedrockPinger, step: BedrockStepView, outside: BedrockOutside, i: int)
    requires
        pinger.asks_rightly(outside, step),
        0 <= i < pinger.steps_from(step, outside).len(),
    ensures
        pinger.asks_rightly(outside, pinger.steps_from(step, outside)[i]),
        i + 1 < pinger.steps_from(step, outside).len() ==> may_follow(
            pinger.steps_from(step, outside)[i],
            pinger.steps_from(step, outside)[i + 1],
        ),
        pinger.steps_from(step, outside).last() == (BedrockStepView::Finished {
            result: pinger.result_from(step, outside),
        }),
    decreases step.rank(),
{
    let next = pinger.answered(step, outside);
    if !(step is Finished) {
        let rest = pinger.steps_from(next, outside);
        assert(pinger.steps_from(step, outside) =~= seq![step] + rest);
        assert(rest[0] == next);
        if step is Direct {
            assert(is_request(ping_packet())) by {
                assert(ping_packet() =~= seq![
                    1u8, 0, 0, 0, 0, 0, 0, 0, 0, 0, 255, 255, 0, 254, 254, 254, 254, 253, 253, 253,
                    253, 18, 52, 86, 120, 0, 0, 0, 0, 0, 0, 0, 0,
                ]);
            }
        }
        assert(pinger.asks_rightly(outside, next));
        lemma_steps(
            pinger,
            next,
            outside,
            if i > 0 {
                i - 1
            } else {
                0
            },
        );
    }
}

/// In a whole ping, whatever the outside answers, every step asks for the right work, and the steps
/// come in their order. In particular the socket is only directed at the host where the server was
/// shown to be and at the port that the pinger was made with, written with a colon between them.
pub proof fn law_every_step_asks_rightly(pinger: BedrockPinger, outside: BedrockOutside, i: int)
    requires
        0 <= i < pinger.steps_from(BedrockStepView::ReadAddress, outside).len(),
    ensures
        ({
            let steps = pinger.steps_from(BedrockStepView::ReadAddress, outside);
            &&& pinger.asks_rightly(outside, steps[i])
            &&& i + 1 < steps.len() ==> may_follow(steps[i], steps[i + 1])
            &&& steps.last() == (BedrockStepView::Finished {
                result: pinger.result_from(BedrockStepView::ReadAddress, outside),
            })
        }),
{
    lemma_steps(pinger, BedrockStepView::ReadAddress, outside, i);
}

/// What a ping comes to, by what the outside answers: the first thing that failed, or what the answer
/// says, with the host where the server was shown to be, the pinger's own port and the time that the
/// answer took.
pub proof fn law_ping_outcome(pinger: BedrockPinger, outside: BedrockOutside)
    ensures
        ({
            let result = pinger.result_from(BedrockStepView::ReadAddress, outside);
            if outside.literal is None && outside.host_ip is Err {
                result == Err::<Json, Failure>(outside.host_ip->Err_0)
            } else if outside.socket is Err {
                result == Err::<Json, Failure>(outside.socket->Err_0)
            } else if outside.direction is Err {
                result == Err::<Json, Failure>(outside.direction->Err_0)
            } else if outside.request is Err {
                result == Err::<Json, Failure>(outside.request->Err_0)
            } else if outside.reply is Err {
                result == Err::<Json, Failure>(outside.reply->Err_0)
            } else {
                result == response_result(
                    (outside.reply->Ok_0).0,
                    (outside.reply->Ok_0).1,
                    if outside.literal is Some {
                        outside.literal->0
                    } else {
                        outside.host_ip->Ok_0
                    },
                    pinger.port,
                )
            }
        }),
{
    law_ping_result(pinger, outside);
}

} // verus!
