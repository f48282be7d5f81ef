use minecraftpingws::ping::java::{
    extract_json, find_object, ConnectFailure, JavaPinger, JavaStep, SrvRecord, Target,
};
use minecraftpingws::ping::{IoFailure, IoFailureKind, PingError, ReceiveFailure};
use serde_json::Value;
use std::time::Duration;

fn pinger(address: &str, port: u16) -> JavaPinger {
    JavaPinger::new(address, port, Duration::from_secs(5), "_minecraft._tcp")
}

fn target(srv_record: Option<&str>) -> Target {
    Target {
        host: "192.0.2.7".to_string(),
        port: 25566,
        srv_record: srv_record.map(|s| s.to_string()),
    }
}

fn error(step: JavaStep) -> String {
    match step {
        JavaStep::Finished { result: Err(e) } => e.message(),
        _ => panic!("the ping is not over"),
    }
}

fn document(step: JavaStep) -> Value {
    match step {
        JavaStep::Finished { result: Ok(document) } => document,
        _ => panic!("the ping has not succeeded"),
    }
}

fn parse(text: &str) -> Value {
    serde_json::from_str(text).unwrap()
}

#[test]
fn a_new_pinger_keeps_what_it_is_given() {
    let p = JavaPinger::new("example.net", 1234, Duration::from_millis(2500), "_x._tcp");
    assert_eq!(p.address, "example.net");
    assert_eq!(p.port, 1234);
    assert_eq!(p.timeout, Duration::from_millis(2500));
    assert_eq!(p.srv_prefix, "_x._tcp");
    assert!(matches!(p.ping(), JavaStep::ReadAddress));
}

#[test]
fn an_ip_address_is_connected_to_at_once() {
    match pinger("192.0.2.7", 25565).address_read(Some("192.0.2.7".to_string())) {
        JavaStep::Connect { target, address } => {
            assert_eq!(address, "192.0.2.7:25565");
            assert_eq!(target.host, "192.0.2.7");
            assert_eq!(target.port, 25565);
            assert_eq!(target.srv_record, None);
        }
        _ => panic!("no connection"),
    }
}

#[test]
fn a_name_is_looked_up_as_a_service_first() {
    match pinger("mc.example.net", 25565).address_read(None) {
        JavaStep::LookupSrv { name } => assert_eq!(name, "_minecraft._tcp.mc.example.net."),
        _ => panic!("no lookup"),
    }
}

#[test]
fn a_service_record_names_host_and_port() {
    let p = pinger("mc.example.net", 25565);
    let record = SrvRecord { target: "play.example.net.".to_string(), port: 25570 };
    match p.srv_found(Some(record)) {
        JavaStep::LookupSrvTarget { host, port, srv_record } => {
            assert_eq!(host, "play.example.net");
            assert_eq!(port, 25570);
            assert_eq!(srv_record, "_minecraft._tcp.mc.example.net.");
            match p.srv_target_found(port, srv_record, Some("192.0.2.9".to_string())) {
                JavaStep::Connect { target, address } => {
                    assert_eq!(address, "192.0.2.9:25570");
                    assert_eq!(
                        target.srv_record,
                        Some("_minecraft._tcp.mc.example.net.".to_string())
                    );
                }
                _ => panic!("no connection"),
            }
        }
        _ => panic!("no lookup"),
    }
}

#[test]
fn all_dots_at_the_end_of_a_target_go() {
    let p = pinger("mc.example.net", 25565);
    let record = SrvRecord { target: "a.b...".to_string(), port: 1 };
    match p.srv_found(Some(record)) {
        JavaStep::LookupSrvTarget { host, .. } => assert_eq!(host, "a.b"),
        _ => panic!("no lookup"),
    }
}

#[test]
fn without_a_service_the_address_is_looked_up() {
    let p = pinger("mc.example.net", 25565);
    match p.srv_found(None) {
        JavaStep::LookupHost { host } => assert_eq!(host, "mc.example.net"),
        _ => panic!("no lookup"),
    }
    match p.srv_target_found(25570, "s".to_string(), None) {
        JavaStep::LookupHost { host } => assert_eq!(host, "mc.example.net"),
        _ => panic!("no lookup"),
    }
    match p.host_found(Ok(Some("192.0.2.8".to_string()))) {
        JavaStep::Connect { target, address } => {
            assert_eq!(address, "192.0.2.8:25565");
            assert_eq!(target.srv_record, None);
        }
        _ => panic!("no connection"),
    }
}

#[test]
fn failed_lookups_end_the_ping() {
    let p = pinger("mc.example.net", 25565);
    assert_eq!(error(p.host_found(Ok(None))), "DNS resolution failed: No IP addresses found");
    assert_eq!(error(p.host_found(Err("no such host".to_string()))), "DNS resolution failed: no such host");
}

#[test]
fn the_handshake_announces_address_and_port() {
    let packet = pinger("mc.example", 25565).handshake_packet();
    let mut expected = vec![0x14, 0x00, 0xff, 0xff, 0xff, 0xff, 0x0f, 0x0a];
    expected.extend_from_slice(b"mc.example");
    expected.extend_from_slice(&[0x63, 0xdd, 0x01]);
    assert_eq!(packet, expected);
}

#[test]
fn the_status_request_is_two_bytes() {
    assert_eq!(JavaPinger::status_request_packet(), vec![0x01, 0x00]);
}

#[test]
fn the_handshake_goes_before_the_request() {
    let p = pinger("mc.example", 25565);
    match p.connected(target(None), Ok(6)) {
        JavaStep::SendHandshake { target, latency, packet } => {
            assert_eq!(packet, p.handshake_packet());
            assert_eq!(latency, 6);
            match p.handshake_sent(target, latency, Ok(())) {
                JavaStep::SendStatusRequest { target, latency, packet } => {
                    assert_eq!(packet, vec![0x01, 0x00]);
                    match p.request_sent(target, latency, Ok(())) {
                        JavaStep::Receive { target, latency, data } => {
                            assert_eq!(target.host, "192.0.2.7");
                            assert_eq!(latency, 6);
                            assert!(data.is_empty());
                        }
                        _ => panic!("nothing awaited"),
                    }
                }
                _ => panic!("no request"),
            }
        }
        _ => panic!("no handshake"),
    }
}

#[test]
fn failed_connections_end_the_ping() {
    let p = pinger("mc.example", 25565);
    let refused = IoFailure { kind: IoFailureKind::ConnectionRefused, message: "x".to_string() };
    assert_eq!(error(p.connected(target(None), Err(ConnectFailure::Io(refused)))), "Connection refused");
    let slow = IoFailure { kind: IoFailureKind::TimedOut, message: "too slow".to_string() };
    assert_eq!(
        error(p.connected(target(None), Err(ConnectFailure::Io(slow)))),
        "Request timed out: too slow"
    );
    let other = IoFailure { kind: IoFailureKind::Other, message: "broken".to_string() };
    assert_eq!(error(p.connected(target(None), Err(ConnectFailure::Io(other)))), "IO error: broken");
    assert_eq!(
        error(p.connected(target(None), Err(ConnectFailure::TimedOut("5".to_string())))),
        "Request timed out: 5 seconds"
    );
    assert_eq!(error(p.handshake_sent(target(None), 1, Err("pipe".to_string()))), "IO error: pipe");
    assert_eq!(error(p.request_sent(target(None), 1, Err("pipe".to_string()))), "IO error: pipe");
}

#[test]
fn io_failures_become_ping_errors() {
    let timed_out = IoFailure { kind: IoFailureKind::TimedOut, message: "m".to_string() };
    assert!(matches!(PingError::from(timed_out), PingError::Timeout(_)));
    let refused = IoFailure { kind: IoFailureKind::ConnectionRefused, message: "m".to_string() };
    assert!(matches!(PingError::from(refused), PingError::ConnectionRefused));
    let other = IoFailure { kind: IoFailureKind::Other, message: "m".to_string() };
    assert!(matches!(PingError::from(other), PingError::IoError(_)));
    assert_eq!(PingError::ParseError("why".to_string()).message(), "Parse error: why");
}

#[test]
fn responses_may_come_in_pieces() {
    let p = pinger("mc.example", 25565);
    let mut data = vec![0xab, 0x03, 0x00, 0xa8, 0x03];
    data.extend_from_slice(b"{\"players\":{\"max\":10");
    let step = p.received(target(None), 6, vec![], Ok(data.clone()));
    let data = match step {
        JavaStep::Receive { data: so_far, latency, .. } => {
            assert_eq!(so_far, data);
            assert_eq!(latency, 6);
            so_far
        }
        _ => panic!("nothing awaited"),
    };
    let step = p.received(target(None), 6, data, Ok(b"}} and more".to_vec()));
    let expected = "{\"players\":{\"max\":10},\"srvRecord\":null,\"host\":\"192.0.2.7\",\"port\":25566,\"latency\":6}";
    assert_eq!(document(step), parse(expected));
}

#[test]
fn the_service_record_is_reported_without_its_last_dot() {
    let p = pinger("mc.example", 25565);
    let found = target(Some("_minecraft._tcp.mc.example."));
    let step = p.received(found, 17, vec![], Ok(b"{\"latency\":\"old\",\"x\":[1.5]}".to_vec()));
    let expected = "{\"x\":[1.5],\"srvRecord\":\"_minecraft._tcp.mc.example\",\"host\":\"192.0.2.7\",\"port\":25566,\"latency\":17}";
    assert_eq!(document(step), parse(expected));
}

#[test]
fn responses_that_fail_end_the_ping() {
    let p = pinger("mc.example", 25565);
    assert_eq!(
        error(p.received(target(None), 6, b"{".to_vec(), Ok(vec![]))),
        "Parse error: Could not parse server response"
    );
    assert_eq!(
        error(p.received(target(None), 6, vec![], Err(ReceiveFailure::Io("reset".to_string())))),
        "IO error: reset"
    );
    assert_eq!(
        error(p.received(target(None), 6, vec![], Err(ReceiveFailure::TimedOut("2.5".to_string())))),
        "Request timed out: 2.5 seconds"
    );
}

#[test]
fn objects_are_found_by_their_braces() {
    assert_eq!(find_object(""), None);
    assert_eq!(find_object("no braces"), None);
    assert_eq!(find_object("{"), None);
    assert_eq!(find_object("ab{c}d{e}"), Some("{c}".to_string()));
    assert_eq!(find_object("{a{b}{c}}{"), Some("{a{b}{c}}".to_string()));
    assert_eq!(find_object("\u{e9}{\u{1f600}}"), Some("{\u{1f600}}".to_string()));
}

#[test]
fn a_brace_that_closes_too_early_takes_the_next_opening_one() {
    assert_eq!(find_object("}{a}"), None);
    assert_eq!(find_object("}{a}{b}"), None);
    assert_eq!(find_object("}{{a}"), Some("{a}".to_string()));
    assert_eq!(find_object("}{{a}}{b}"), Some("{a}".to_string()));
    assert_eq!(find_object("}{a}{{b}"), Some("{b}".to_string()));
}

#[test]
fn an_object_found_stays_found() {
    assert_eq!(find_object("x{1}"), find_object("x{1}{2}}}{"));
}

#[test]
fn documents_are_read_in_objects_that_are_json() {
    assert_eq!(extract_json(b"xx{\"a\":{\"b\":2}}yy"), Some(parse("{\"a\":{\"b\":2}}")));
    assert_eq!(extract_json(b"xx{a}{\"b\":1}"), None);
    assert_eq!(extract_json(b""), None);
    assert_eq!(extract_json(b"[1]"), None);
    assert_eq!(extract_json(b"\xff\xfe{\"a\":\"\xff\"}"), Some(parse("{\"a\":\"\u{fffd}\"}")));
}

#[test]
fn a_ping_through_all_of_its_steps() {
    let p = pinger("mc.example.net", 25565);
    let mut pieces = vec![b"and more".to_vec(), b"\"y\"}".to_vec(), b"\x05{\"x\":".to_vec()];
    let mut seen = Vec::new();
    let mut step = p.ping();
    let result = loop {
        step = match step {
            JavaStep::ReadAddress => {
                seen.push("read");
                p.address_read(None)
            }
            JavaStep::LookupSrv { .. } => {
                seen.push("service");
                p.srv_found(Some(SrvRecord { target: "play.example.net.".to_string(), port: 7 }))
            }
            JavaStep::LookupSrvTarget { port, srv_record, .. } => {
                seen.push("target");
                p.srv_target_found(port, srv_record, Some("192.0.2.1".to_string()))
            }
            JavaStep::LookupHost { .. } => panic!("the service was found"),
            JavaStep::Connect { target, .. } => {
                seen.push("connect");
                p.connected(target, Ok(12))
            }
            JavaStep::SendHandshake { target, latency, .. } => {
                seen.push("handshake");
                p.handshake_sent(target, latency, Ok(()))
            }
            JavaStep::SendStatusRequest { target, latency, .. } => {
                seen.push("request");
                p.request_sent(target, latency, Ok(()))
            }
            JavaStep::Receive { target, latency, data } => {
                seen.push("receive");
                p.received(target, latency, data, Ok(pieces.pop().unwrap()))
            }
            JavaStep::Finished { result } => break result,
        };
    };
    assert_eq!(
        seen,
        vec!["read", "service", "target", "connect", "handshake", "request", "receive", "receive"]
    );
    assert_eq!(pieces.len(), 1);
    let expected = "{\"x\":\"y\",\"srvRecord\":\"_minecraft._tcp.mc.example.net\",\"host\":\"192.0.2.1\",\"port\":7,\"latency\":12}";
    assert_eq!(result.unwrap(), parse(expected));
}

/// What a ping comes to that receives these pieces and then the end, and how many it has taken.
fn received_in(pieces: &[&[u8]]) -> (Result<Value, String>, usize) {
    let p = pinger("mc.example", 25565);
    let mut data = Vec::new();
    let mut taken = 0;
    loop {
        let piece = pieces.get(taken).map_or(vec![], |piece| piece.to_vec());
        taken += 1;
        match p.received(target(None), 6, data, Ok(piece)) {
            JavaStep::Receive { data: so_far, .. } => data = so_far,
            JavaStep::Finished { result } => return (result.map_err(|e| e.message()), taken),
            _ => panic!("no such step"),
        }
    }
}

#[test]
fn where_a_response_is_cut_changes_nothing() {
    let responses: [&[u8]; 5] = [
        b"\xab\x03\x00{\"a\":\"caf\xc3\xa9 \xf0\x9f\x98\x80\",\"b\":{}}",
        b"\xc3{\"a\":\"\xff\xe2\x82\"}}{",
        b"{not json}{\"a\":1}",
        b"{\"a\":",
        b"no braces \xc3\xa9",
    ];
    for response in responses {
        let whole = received_in(&[response]).0;
        for i in 1..response.len() {
            for j in i + 1..response.len() {
                let pieces = [&response[..i], &response[i..j], &response[j..]];
                assert_eq!(received_in(&pieces).0, whole);
            }
        }
    }
    let none = Err("Parse error: Could not parse server response".to_string());
    assert!(received_in(&[responses[0]]).0.is_ok());
    assert!(received_in(&[responses[1]]).0.is_ok());
    assert_eq!(received_in(&[responses[2]]).0, none);
    assert_eq!(received_in(&[responses[3]]).0, none);
    assert_eq!(received_in(&[responses[4]]).0, none);
    assert_eq!(received_in(&[]).0, none);
}

#[test]
fn nothing_is_read_after_the_response() {
    assert_eq!(received_in(&[b"x{\"a\":", b"1}", b"{\"b\":2}"]).1, 2);
    assert_eq!(
        received_in(&[b"x{\"a\":", b"1}", b"{\"b\":2}"]).0,
        received_in(&[b"x{\"a\":", b"1}"]).0
    );
}
