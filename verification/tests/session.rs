use minecraftpingws::ping::PingError;
use minecraftpingws::registry::PingRegistry;
use minecraftpingws::request::{
    invalid_request, key_of, ping_response, port_or_default, prefix_or_default, LatencyUpdate,
    Players, Request, Response, ResponseData,
};
use minecraftpingws::session::{
    disconnect, heard, idle_left, next_action, process_request, room_for, Action, Event, Handling,
    Incoming, PollOutcome, PollStep, Subscriptions,
};
use serde_json::Value;

fn subscribe(address: &str, port: Option<u16>, bedrock: bool, id: &str) -> Request {
    Request::Subscribe {
        address: address.to_string(),
        port,
        bedrock,
        srv_prefix: None,
        id: Some(id.to_string()),
    }
}

fn unsubscribe(address: &str, port: Option<u16>, bedrock: bool) -> Request {
    Request::Unsubscribe { address: address.to_string(), port, bedrock, id: None }
}

fn told_error(response: &Response) -> &str {
    match &response.data {
        ResponseData::Error { error } => error,
        _ => panic!("no error"),
    }
}

fn text(message: &str) -> Event {
    Event::Message(Incoming::Text(message.to_string()))
}

fn update(server: &str) -> LatencyUpdate {
    LatencyUpdate {
        server: server.to_string(),
        latency: Some(5),
        players: Some(Players { online: 1, max: 2 }),
        error: None,
    }
}

#[test]
fn ports_and_prefixes_have_defaults() {
    assert_eq!(port_or_default(None, false), 25565);
    assert_eq!(port_or_default(None, true), 19132);
    assert_eq!(port_or_default(Some(7), true), 7);
    assert_eq!(prefix_or_default(None), "_minecraft._tcp");
    assert_eq!(prefix_or_default(Some("x".to_string())), "x");
}

#[test]
fn keys_name_address_port_and_edition() {
    assert_eq!(key_of("mc.example", 25565, false), "mc.example:25565:false");
    assert_eq!(key_of("::1", 0, true), "::1:0:true");
    assert_ne!(key_of("a:1", 2, true), key_of("a", 12, true));
}

#[test]
fn a_ping_request_changes_nothing() {
    let mut subs = Subscriptions::new();
    let mut registry = PingRegistry::new();
    let request = Request::Ping {
        address: "mc.example".to_string(),
        port: None,
        bedrock: true,
        srv_prefix: None,
        id: Some("req-123".to_string()),
    };
    match process_request(request, &mut subs, &mut registry) {
        Handling::Ping { id, address, port, bedrock, srv_prefix } => {
            assert_eq!(id.as_deref(), Some("req-123"));
            assert_eq!(address, "mc.example");
            assert_eq!((port, bedrock), (19132, true));
            assert_eq!(srv_prefix, "_minecraft._tcp");
        }
        _ => panic!("no ping"),
    }
    assert!(!subs.is_subscribed("mc.example:19132:true", &registry));
    assert_eq!(registry.subscriber_count("mc.example:19132:true"), None);
}

#[test]
fn the_first_subscriber_starts_a_task_and_the_next_one_joins_it() {
    let mut registry = PingRegistry::new();
    let mut first = Subscriptions::new();
    let mut second = Subscriptions::new();
    let key = "mc.example:25565:false";
    match process_request(subscribe("mc.example", None, false, "sub-456"), &mut first, &mut registry) {
        Handling::Start { key: started, task, response } => {
            assert_eq!(started, key);
            assert_eq!(task.server_key(), key);
            assert_eq!(task.server_name(), "mc.example:25565");
            assert_eq!(task.srv_prefix, "_minecraft._tcp");
            assert_eq!(response.id.as_deref(), Some("sub-456"));
            match response.data {
                ResponseData::Subscribed { subscribed } => assert_eq!(subscribed, "mc.example:25565"),
                _ => panic!("not subscribed"),
            }
        }
        _ => panic!("no start"),
    }
    assert_eq!(registry.subscriber_count(key), Some(1));
    assert!(first.is_subscribed(key, &registry));
    match process_request(
        subscribe("mc.example", Some(25565), false, "b"),
        &mut second,
        &mut registry,
    ) {
        Handling::Join { key: joined, response } => {
            assert_eq!(joined, key);
            assert_eq!(response.id.as_deref(), Some("b"));
        }
        _ => panic!("no join"),
    }
    assert_eq!(registry.subscriber_count(key), Some(2));
    match process_request(subscribe("mc.example", None, true, "c"), &mut second, &mut registry) {
        Handling::Start { key, .. } => assert_eq!(key, "mc.example:19132:true"),
        _ => panic!("no start"),
    }
}

#[test]
fn a_second_subscription_to_a_server_is_refused() {
    let mut registry = PingRegistry::new();
    let mut subs = Subscriptions::new();
    process_request(subscribe("a", Some(1), false, "x"), &mut subs, &mut registry);
    match process_request(subscribe("a", Some(1), false, "y"), &mut subs, &mut registry) {
        Handling::Respond { response } => {
            assert_eq!(told_error(&response), "Already subscribed to a:1:false");
            assert_eq!(response.id.as_deref(), Some("y"));
        }
        _ => panic!("not refused"),
    }
    assert_eq!(registry.subscriber_count("a:1:false"), Some(1));
}

#[test]
fn unsubscribing_takes_one_subscriber_away() {
    let mut registry = PingRegistry::new();
    let mut subs = Subscriptions::new();
    process_request(subscribe("a", Some(1), false, "x"), &mut subs, &mut registry);
    process_request(subscribe("b", Some(1), false, "x"), &mut subs, &mut registry);
    match process_request(unsubscribe("a", Some(1), false), &mut subs, &mut registry) {
        Handling::Leave { key, response } => {
            assert_eq!(key, "a:1:false");
            assert_eq!(response.id, None);
            match response.data {
                ResponseData::Unsubscribed { unsubscribed } => assert_eq!(unsubscribed, "a:1"),
                _ => panic!("not unsubscribed"),
            }
        }
        _ => panic!("no leave"),
    }
    assert_eq!(registry.subscriber_count("a:1:false"), Some(0));
    assert_eq!(registry.subscriber_count("b:1:false"), Some(1));
    assert!(!subs.is_subscribed("a:1:false", &registry));
    assert!(subs.is_subscribed("b:1:false", &registry));
    match process_request(unsubscribe("a", Some(1), false), &mut subs, &mut registry) {
        Handling::Respond { response } => {
            assert_eq!(told_error(&response), "Not subscribed to a:1:false")
        }
        _ => panic!("not refused"),
    }
    assert_eq!(registry.subscriber_count("a:1:false"), Some(0));
}

#[test]
fn a_client_that_goes_leaves_all_its_servers() {
    let mut registry = PingRegistry::new();
    let mut one = Subscriptions::new();
    let mut two = Subscriptions::new();
    for (address, subs) in [("a", &mut one), ("b", &mut two)] {
        process_request(subscribe(address, Some(1), false, "x"), subs, &mut registry);
        process_request(subscribe("shared", Some(1), false, "x"), subs, &mut registry);
    }
    assert_eq!(registry.subscriber_count("shared:1:false"), Some(2));
    let keys = disconnect(&mut one, &mut registry);
    assert_eq!(keys, vec!["a:1:false".to_string(), "shared:1:false".to_string()]);
    assert_eq!(registry.subscriber_count("a:1:false"), Some(0));
    assert_eq!(registry.subscriber_count("b:1:false"), Some(1));
    assert_eq!(registry.subscriber_count("shared:1:false"), Some(1));
    assert!(!one.is_subscribed("a:1:false", &registry));
    assert!(disconnect(&mut one, &mut registry).is_empty());
}

#[test]
fn counts_never_go_below_none() {
    let mut registry = PingRegistry::new();
    assert_eq!(registry.decrement_subscriber("k"), None);
    assert!(registry.get_or_create_ping_task("k"));
    assert!(!registry.get_or_create_ping_task("k"));
    assert_eq!(registry.decrement_subscriber("k"), Some(1));
    assert_eq!(registry.decrement_subscriber("k"), Some(0));
    assert_eq!(registry.decrement_subscriber("k"), Some(0));
    registry.remove("k");
    assert_eq!(registry.subscriber_count("k"), None);
    assert_eq!(registry.task_number("k"), None);
}

#[test]
fn every_task_has_a_number_of_its_own() {
    let mut registry = PingRegistry::new();
    registry.get_or_create_ping_task("k");
    registry.get_or_create_ping_task("l");
    assert_eq!(registry.task_number("k"), Some(0));
    assert_eq!(registry.task_number("l"), Some(1));
    registry.get_or_create_ping_task("k");
    registry.decrement_subscriber("k");
    assert_eq!(registry.task_number("k"), Some(0));
    registry.remove("k");
    registry.get_or_create_ping_task("k");
    assert_eq!(registry.task_number("k"), Some(2));
}

#[test]
fn there_is_room_for_subscribers() {
    let mut registry = PingRegistry::new();
    let mut subs = Subscriptions::new();
    registry.get_or_create_ping_task("a:1:false");
    assert!(registry.has_room("a:1:false"));
    assert!(registry.has_room("b:1:false"));
    assert!(room_for(&subscribe("a", Some(1), false, "x"), &subs, &registry));
    assert!(room_for(&subscribe("b", Some(1), false, "x"), &subs, &registry));
    assert!(room_for(&unsubscribe("a", Some(1), false), &subs, &registry));
    process_request(subscribe("a", Some(1), false, "x"), &mut subs, &mut registry);
    assert!(room_for(&subscribe("a", Some(1), false, "x"), &subs, &registry));
}

#[test]
fn texts_that_are_no_requests_are_answered_with_the_problem() {
    let response = invalid_request("expected value at line 1 column 1");
    assert_eq!(response.id, None);
    assert_eq!(
        told_error(&response),
        "Invalid JSON: expected value at line 1 column 1. Expected: {\"action\":\"ping|subscribe|unsubscribe\",\"address\":\"...\",\"port\":25565,\"bedrock\":false,\"id\":\"...(optional)\"}"
    );
}

#[test]
fn ping_responses_hold_the_document_or_the_failure() {
    let document: Value = serde_json::from_str("{\"a\":1}").unwrap();
    let response = ping_response(Some("req-123".to_string()), Ok(document.clone()));
    assert_eq!(response.id.as_deref(), Some("req-123"));
    match response.data {
        ResponseData::Ping { result } => assert_eq!(result, document),
        _ => panic!("no ping"),
    }
    match ping_response(None, Err(PingError::ConnectionRefused)).data {
        ResponseData::Ping { result } => {
            let expected: Value = serde_json::from_str("{\"error\":\"Connection refused\"}").unwrap();
            assert_eq!(result, expected)
        }
        _ => panic!("no ping"),
    }
}

#[test]
fn the_word_ping_is_answered_in_any_case() {
    for word in ["ping", "PING", "Ping", "  pInG\r\n", "\u{3000}ping\u{a0}"] {
        match next_action(text(word)) {
            Action::Send(reply) => assert_eq!(reply, "pong"),
            _ => panic!("no pong"),
        }
    }
    for other in ["", "pin", "pingg", "p ing", "\u{200b}ping", "\u{ff50}ing", "{\"action\":\"ping\"}"] {
        match next_action(text(other)) {
            Action::Process(request) => assert_eq!(request, other),
            _ => panic!("not processed"),
        }
    }
}

#[test]
fn other_events_have_their_actions() {
    match next_action(Event::Message(Incoming::Ping(vec![1, 2]))) {
        Action::Pong(data) => assert_eq!(data, vec![1, 2]),
        _ => panic!("no pong"),
    }
    assert!(matches!(next_action(Event::Message(Incoming::Close)), Action::Leave));
    assert!(matches!(next_action(Event::Message(Incoming::Other)), Action::Wait));
    assert!(matches!(next_action(Event::Failed), Action::Fail));
    assert!(matches!(next_action(Event::Ended), Action::Leave));
    assert!(matches!(next_action(Event::Idle), Action::Close));
}

#[test]
fn three_minutes_of_silence_are_too_long() {
    assert_eq!(idle_left(1000, 1000), 180_000);
    assert_eq!(idle_left(121_000, 1000), 60_000);
    assert_eq!(idle_left(180_999, 1000), 1);
    assert_eq!(idle_left(181_000, 1000), 0);
    assert_eq!(idle_left(u64::MAX, 0), 0);
}

#[test]
fn updates_are_looked_for_in_turn() {
    let mut registry = PingRegistry::new();
    let mut subs = Subscriptions::new();
    assert!(matches!(subs.poll(), PollStep::Idle));
    assert_eq!(subs.key_at(0), None);
    process_request(subscribe("a", Some(1), false, "x"), &mut subs, &mut registry);
    process_request(subscribe("b", Some(1), false, "y"), &mut subs, &mut registry);
    assert!(matches!(subs.poll(), PollStep::Ask { position: 0 }));
    assert_eq!(subs.key_at(1).map(|key| key.as_str()), Some("b:1:false"));
    assert!(matches!(subs.polled(0, PollOutcome::Empty), PollStep::Ask { position: 1 }));
    assert!(matches!(subs.polled(0, PollOutcome::Lagged), PollStep::Ask { position: 1 }));
    assert!(matches!(subs.polled(0, PollOutcome::Closed), PollStep::Ask { position: 1 }));
    assert!(matches!(subs.polled(1, PollOutcome::Lagged), PollStep::Pause));
    assert!(matches!(subs.polled(1, PollOutcome::Closed), PollStep::Pause));
    assert!(matches!(subs.polled(1, PollOutcome::Empty), PollStep::Pause));
    match subs.polled(1, PollOutcome::Update(update("b:1"))) {
        PollStep::Deliver { response } => {
            assert_eq!(response.id.as_deref(), Some("y"));
            match response.data {
                ResponseData::Latency { update } => {
                    assert_eq!(update.server, "b:1");
                    assert_eq!(update.latency, Some(5));
                    assert_eq!(update.players, Some(Players { online: 1, max: 2 }));
                    assert_eq!(update.error, None);
                }
                _ => panic!("no update"),
            }
        }
        _ => panic!("nothing delivered"),
    }
}

#[test]
fn a_stopped_subscription_holds_back_no_other() {
    let mut registry = PingRegistry::new();
    let mut subs = Subscriptions::new();
    for (address, id) in [("a", "x"), ("b", "y"), ("c", "z")] {
        process_request(subscribe(address, Some(1), false, id), &mut subs, &mut registry);
    }
    let poll = |mut outcomes: Vec<PollOutcome>| {
        outcomes.reverse();
        let mut step = subs.poll();
        while let PollStep::Ask { position } = step {
            step = subs.polled(position, outcomes.pop().unwrap());
        }
        step
    };
    let found = poll(vec![
        PollOutcome::Closed,
        PollOutcome::Update(update("b:1")),
        PollOutcome::Update(update("c:1")),
    ]);
    match found {
        PollStep::Deliver { response } => assert_eq!(response.id.as_deref(), Some("y")),
        _ => panic!("nothing delivered"),
    }
    let found = poll(vec![
        PollOutcome::Closed,
        PollOutcome::Lagged,
        PollOutcome::Update(update("c:1")),
    ]);
    match found {
        PollStep::Deliver { response } => assert_eq!(response.id.as_deref(), Some("z")),
        _ => panic!("nothing delivered"),
    }
    let found = poll(vec![PollOutcome::Closed, PollOutcome::Empty, PollOutcome::Closed]);
    assert!(matches!(found, PollStep::Pause));
}

#[test]
fn only_messages_count_against_silence() {
    assert_eq!(heard(&text("anything"), 500, 200), 500);
    assert_eq!(heard(&Event::Message(Incoming::Ping(vec![])), 500, 200), 500);
    assert_eq!(heard(&Event::Message(Incoming::Close), 500, 200), 500);
    assert_eq!(heard(&Event::Message(Incoming::Other), 500, 200), 500);
    assert_eq!(heard(&Event::Failed, 500, 200), 200);
    assert_eq!(heard(&Event::Ended, 500, 200), 200);
    assert_eq!(heard(&Event::Idle, 500, 200), 200);
}

#[test]
fn messages_are_answered_in_order_until_the_client_closes() {
    let events = vec![
        text("ping"),
        Event::Message(Incoming::Other),
        text("{}"),
        Event::Message(Incoming::Ping(vec![7])),
        text(" PING "),
        Event::Message(Incoming::Close),
        text("ping"),
    ];
    let mut replies = Vec::new();
    for event in events {
        match next_action(event) {
            Action::Send(reply) => replies.push(reply),
            Action::Process(request) => replies.push(format!("response to {}", request)),
            Action::Pong(data) => replies.push(format!("pong {:?}", data)),
            Action::Wait => {}
            Action::Leave => break,
            Action::Close | Action::Fail => panic!("the client has closed"),
        }
    }
    assert_eq!(replies, vec!["pong", "response to {}", "pong [7]", "pong"]);
}
