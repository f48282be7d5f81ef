use minecraftpingws::ping::bedrock::{
    build_ping_packet, parse_response, read_status, BedrockPinger, BedrockStep,
};
use minecraftpingws::ping::{Pinger, ReceiveFailure, PING_TIMEOUT_SECS};
use serde_json::Value;
use std::time::Duration;

fn pong(guid: [u8; 8], text: &[u8]) -> Vec<u8> {
    let mut data = vec![0x1c];
    data.extend_from_slice(&guid);
    data.extend_from_slice(&[0; 26]);
    data.extend_from_slice(text);
    data
}

fn parse(text: &str) -> Value {
    serde_json::from_str(text).unwrap()
}

fn failure(result: Result<Value, minecraftpingws::ping::PingError>) -> String {
    match result {
        Err(e) => e.message(),
        Ok(_) => panic!("no failure"),
    }
}

fn error(step: BedrockStep) -> String {
    match step {
        BedrockStep::Finished { result } => failure(result),
        _ => panic!("the ping is not over"),
    }
}

fn pinger() -> BedrockPinger {
    BedrockPinger::new("bedrock.example", 19132, Duration::from_secs(PING_TIMEOUT_SECS))
}

#[test]
fn the_request_has_its_magic_bytes() {
    let packet = build_ping_packet();
    let expected: Vec<u8> = vec![
        0x01, 0, 0, 0, 0, 0, 0, 0, 0, 0x00, 0xff, 0xff, 0x00, 0xfe, 0xfe, 0xfe, 0xfe, 0xfd, 0xfd,
        0xfd, 0xfd, 0x12, 0x34, 0x56, 0x78, 0, 0, 0, 0, 0, 0, 0, 0,
    ];
    assert_eq!(packet, expected);
    assert_eq!(packet.len(), 33);
}

#[test]
fn a_full_answer_is_read() {
    let text = b"MCPE;Dedicated;622;1.20.40;3;10;12345;Level;Survival;1;19132;19133;";
    let data = pong([0, 0, 0, 0, 0, 0, 1, 2], text);
    let expected = "{\"edition\":\"MCPE\",\"motd\":{\"raw\":\"Dedicated\\nLevel\",\"line1\":\"Dedicated\",\"line2\":\"Level\"},\"version\":{\"name\":\"1.20.40\",\"protocol\":622},\"players\":{\"online\":3,\"max\":10},\"serverGUID\":\"258\",\"serverID\":\"12345\",\"gameMode\":\"Survival\",\"gameModeID\":1,\"portIPv4\":19132,\"portIPv6\":19133,\"latency\":42,\"host\":\"192.0.2.1\",\"port\":19134}";
    assert_eq!(parse_response(&data, 42, "192.0.2.1", 19134).unwrap(), parse(expected));
}

#[test]
fn a_short_answer_has_empty_fields() {
    let data = pong([0xff; 8], b"MCEE;Hi;x;v;-4;+7");
    let expected = "{\"edition\":\"MCEE\",\"motd\":{\"raw\":\"Hi\",\"line1\":\"Hi\",\"line2\":\"\"},\"version\":{\"name\":\"v\",\"protocol\":0},\"players\":{\"online\":-4,\"max\":7},\"serverGUID\":\"-1\",\"serverID\":\"\",\"gameMode\":\"\",\"gameModeID\":0,\"portIPv4\":null,\"portIPv6\":null,\"latency\":0,\"host\":\"h\",\"port\":1}";
    assert_eq!(parse_response(&data, 0, "h", 1).unwrap(), parse(expected));
}

#[test]
fn server_numbers_are_signed() {
    let guid = |bytes: [u8; 8]| {
        let v = parse_response(&pong(bytes, b";;;;;"), 0, "", 0).unwrap();
        v["serverGUID"].as_str().unwrap().to_string()
    };
    assert_eq!(guid([0; 8]), "0");
    assert_eq!(guid([0x80, 0, 0, 0, 0, 0, 0, 0]), "-9223372036854775808");
    assert_eq!(guid([0x7f, 0xff, 0xff, 0xff, 0xff, 0xff, 0xff, 0xff]), "9223372036854775807");
    assert_eq!(guid([1, 2, 3, 4, 5, 6, 7, 8]), "72623859790382856");
    assert_eq!(guid([0xff, 0xff, 0xff, 0xff, 0xff, 0xff, 0xff, 0xfe]), "-2");
}

#[test]
fn packets_that_are_no_answers_are_refused() {
    let message = |data: &[u8]| failure(parse_response(data, 1, "h", 1));
    assert_eq!(message(b""), "Parse error: Invalid packet received");
    assert_eq!(message(&[0x1d; 60]), "Parse error: Invalid packet received");
    assert_eq!(message(&[0x1c; 34]), "Parse error: Packet too short");
    assert_eq!(message(&pong([0; 8], b"")), "Parse error: Invalid response format");
    assert_eq!(message(&pong([0; 8], b"a;b;c;d;e")), "Parse error: Invalid response format");
    assert!(parse_response(&pong([0; 8], b"a;b;c;d;e;"), 1, "h", 1).is_ok());
}

#[test]
fn numbers_out_of_range_are_zero() {
    let status = |text: &str| read_status(0, text).unwrap();
    let s = status("e;m;2147483647;v;2147483648;-2147483648;;;;-2147483649;65535;65536");
    assert_eq!(s.protocol_version, 2147483647);
    assert_eq!(s.online_players, 0);
    assert_eq!(s.max_players, -2147483648);
    assert_eq!(s.game_mode_id, 0);
    assert_eq!(s.port_ipv4, Some(65535));
    assert_eq!(s.port_ipv6, None);
    let s = status("e;m; 1;v;+;-;;;;1a;+80;-0");
    assert_eq!((s.protocol_version, s.online_players, s.max_players, s.game_mode_id), (0, 0, 0, 0));
    assert_eq!((s.port_ipv4, s.port_ipv6), (Some(80), None));
    let s = status("e;m;0000000000000000007;v;-0;99999999999999999999;;;;1;;0");
    assert_eq!((s.protocol_version, s.online_players, s.max_players), (7, 0, 0));
    assert_eq!((s.port_ipv4, s.port_ipv6), (None, Some(0)));
}

#[test]
fn text_that_is_not_utf8_is_read_as_far_as_it_goes() {
    let data = pong([0; 8], b"MCPE;caf\xc3\xa9;1;v\xff;2;3");
    let v = parse_response(&data, 0, "", 0).unwrap();
    assert_eq!(v["motd"]["raw"], Value::from("caf\u{e9}"));
    assert_eq!(v["version"]["name"], Value::from("v\u{fffd}"));
}

#[test]
fn an_announced_status_is_read_back() {
    let s = read_status(-5, "MCPE;A;-1;1.2;100;200;id;B;Creative;2;1;").unwrap();
    assert_eq!(s.server_guid, -5);
    assert_eq!(s.edition, "MCPE");
    assert_eq!(s.motd_line1, "A");
    assert_eq!(s.protocol_version, -1);
    assert_eq!(s.version, "1.2");
    assert_eq!((s.online_players, s.max_players), (100, 200));
    assert_eq!(s.server_id, "id");
    assert_eq!(s.motd_line2, "B");
    assert_eq!(s.game_mode, "Creative");
    assert_eq!(s.game_mode_id, 2);
    assert_eq!((s.port_ipv4, s.port_ipv6), (Some(1), None));
}

#[test]
fn a_ping_goes_through_its_steps() {
    let p = pinger();
    assert!(matches!(p.ping(), BedrockStep::ReadAddress));
    match p.address_read(None) {
        BedrockStep::LookupHost { host } => assert_eq!(host, "bedrock.example"),
        _ => panic!("no lookup"),
    }
    match p.address_read(Some("192.0.2.1".to_string())) {
        BedrockStep::Bind { host } => assert_eq!(host, "192.0.2.1"),
        _ => panic!("no socket"),
    }
    match p.host_found(Ok(Some("192.0.2.1".to_string()))) {
        BedrockStep::Bind { host } => assert_eq!(host, "192.0.2.1"),
        _ => panic!("no socket"),
    }
    match p.bound("192.0.2.1".to_string(), Ok(())) {
        BedrockStep::Direct { host, address } => {
            assert_eq!(host, "192.0.2.1");
            assert_eq!(address, "192.0.2.1:19132");
        }
        _ => panic!("no direction"),
    }
    match p.directed("192.0.2.1".to_string(), Ok(())) {
        BedrockStep::Send { packet, .. } => assert_eq!(packet, build_ping_packet()),
        _ => panic!("no request"),
    }
    assert!(matches!(p.sent("192.0.2.1".to_string(), Ok(())), BedrockStep::Receive { .. }));
    let data = pong([0; 8], b"MCPE;A;1;v;2;3");
    match p.received("192.0.2.1".to_string(), Ok((data, 9))) {
        BedrockStep::Finished { result: Ok(document) } => {
            assert_eq!(document["host"], Value::from("192.0.2.1"));
            assert_eq!(document["port"], Value::from(19132));
            assert_eq!(document["latency"], Value::from(9));
        }
        _ => panic!("no success"),
    }
}

#[test]
fn failures_end_a_ping() {
    let p = pinger();
    let host = || "192.0.2.1".to_string();
    let pipe = || Err("pipe".to_string());
    assert_eq!(error(p.host_found(Ok(None))), "DNS resolution failed: No IP addresses found");
    assert_eq!(error(p.host_found(Err("gone".to_string()))), "DNS resolution failed: gone");
    assert_eq!(error(p.bound(host(), pipe())), "IO error: pipe");
    assert_eq!(error(p.directed(host(), pipe())), "IO error: pipe");
    assert_eq!(error(p.sent(host(), pipe())), "IO error: pipe");
    let reset = ReceiveFailure::Io("reset".to_string());
    assert_eq!(error(p.received(host(), Err(reset))), "IO error: reset");
    let slow = ReceiveFailure::TimedOut("5".to_string());
    assert_eq!(error(p.received(host(), Err(slow))), "Request timed out: 5 seconds");
}

#[test]
fn each_edition_has_its_pinger() {
    let timeout = Duration::from_secs(PING_TIMEOUT_SECS);
    match Pinger::new("a", 1, true, timeout, "p") {
        Pinger::Bedrock(p) => assert_eq!((p.address.as_str(), p.port, p.timeout), ("a", 1, timeout)),
        Pinger::Java(_) => panic!("wrong edition"),
    }
    match Pinger::new("a", 1, false, timeout, "p") {
        Pinger::Java(p) => assert_eq!((p.address.as_str(), p.srv_prefix.as_str()), ("a", "p")),
        Pinger::Bedrock(_) => panic!("wrong edition"),
    }
}
