use minecraftpingws::ping::bedrock::read_status;
use minecraftpingws::ping::PingError;
use minecraftpingws::registry::PingRegistry;
use minecraftpingws::request::{Players, Request, ResponseData};
use minecraftpingws::session::{disconnect, process_request, Handling, Subscriptions};
use minecraftpingws::task::{update_from, PingTask, Tick, MAX_SUBSCRIBE_ERRORS};
use serde_json::Value;

fn parse(text: &str) -> Value {
    serde_json::from_str(text).unwrap()
}

fn failure() -> Result<Value, PingError> {
    Err(PingError::ConnectionRefused)
}

fn players_in(document: &str) -> Option<Players> {
    update_from("s", &Ok(parse(document))).players
}

#[test]
fn updates_show_latency_and_players() {
    let update = update_from(
        "mc.example:25565",
        &Ok(parse("{\"latency\":5,\"players\":{\"online\":42770,\"max\":200000,\"sample\":[]}}")),
    );
    assert_eq!(update.server, "mc.example:25565");
    assert_eq!(update.latency, Some(5));
    assert_eq!(update.players, Some(Players { online: 42770, max: 200000 }));
    assert_eq!(update.error, None);
}

#[test]
fn updates_show_failures() {
    let update = update_from("mc.example:25565", &failure());
    assert_eq!(update.server, "mc.example:25565");
    assert_eq!(update.latency, None);
    assert_eq!(update.players, None);
    assert_eq!(update.error, Some("Connection refused".to_string()));
}

#[test]
fn what_is_no_number_counts_as_none() {
    assert_eq!(players_in("{}"), None);
    assert_eq!(players_in("[]"), None);
    assert_eq!(players_in("{\"players\":3}"), Some(Players { online: 0, max: 0 }));
    assert_eq!(
        players_in("{\"players\":{\"online\":\"3\",\"max\":1.5}}"),
        Some(Players { online: 0, max: 0 })
    );
    assert_eq!(
        players_in("{\"players\":{\"online\":-3,\"max\":18446744073709551615}}"),
        Some(Players { online: -3, max: 0 })
    );
    assert_eq!(update_from("s", &Ok(parse("{\"latency\":-1}"))).latency, None);
    assert_eq!(
        update_from("s", &Ok(parse("{\"latency\":18446744073709551615}"))).latency,
        Some(u64::MAX)
    );
}

#[test]
fn large_player_counts_lose_their_high_bits() {
    assert_eq!(
        players_in("{\"players\":{\"online\":4294967298,\"max\":2147483648}}"),
        Some(Players { online: 2, max: -2147483648 })
    );
    assert_eq!(
        players_in("{\"players\":{\"online\":-2147483649,\"max\":-9223372036854775808}}"),
        Some(Players { online: 2147483647, max: 0 })
    );
}

#[test]
fn updates_on_bedrock_servers_show_their_players() {
    let status = read_status(0, "MCPE;A;1;v;12;34").unwrap();
    let update = update_from("s", &Ok(status.to_json(8, "192.0.2.1", 19132)));
    assert_eq!(update.latency, Some(8));
    assert_eq!(update.players, Some(Players { online: 12, max: 34 }));
}

#[test]
fn a_task_pings_as_long_as_somebody_subscribes() {
    let mut registry = PingRegistry::new();
    let task = PingTask::new("a", 1, false, "_minecraft._tcp");
    assert_eq!(task.tick(&mut registry), Tick::Removed);
    registry.get_or_create_ping_task("a:1:false");
    registry.get_or_create_ping_task("a:1:true");
    assert_eq!(task.tick(&mut registry), Tick::Ping);
    assert_eq!(registry.subscriber_count("a:1:false"), Some(1));
    registry.decrement_subscriber("a:1:false");
    assert_eq!(task.tick(&mut registry), Tick::NoSubscribers);
    assert_eq!(registry.subscriber_count("a:1:false"), None);
    assert_eq!(registry.subscriber_count("a:1:true"), Some(1));
}

#[test]
fn a_task_stops_after_ten_failures_in_a_row() {
    let mut registry = PingRegistry::new();
    registry.get_or_create_ping_task("a:1:false");
    let mut task = PingTask::new("a", 1, false, "_minecraft._tcp");
    for _ in 0..9 {
        assert!(!task.pinged(&failure()).stop);
    }
    let report = task.pinged(&Ok(parse("{\"latency\":1}")));
    assert!(!report.stop);
    assert_eq!(report.update.latency, Some(1));
    for _ in 0..9 {
        assert!(!task.pinged(&failure()).stop);
    }
    let report = task.pinged(&failure());
    assert!(report.stop);
    assert_eq!(report.update.server, "a:1");
    assert_eq!(report.update.error.as_deref(), Some("Connection refused"));
    assert_eq!(task.consecutive_errors, MAX_SUBSCRIBE_ERRORS);
    task.give_up(&mut registry);
    assert_eq!(registry.subscriber_count("a:1:false"), None);
}

fn subscribe(subs: &mut Subscriptions, registry: &mut PingRegistry) -> Handling {
    let request = Request::Subscribe {
        address: "a".to_string(),
        port: Some(1),
        bedrock: false,
        srv_prefix: None,
        id: None,
    };
    process_request(request, subs, registry)
}

fn unsubscribe(subs: &mut Subscriptions, registry: &mut PingRegistry) -> Handling {
    let request = Request::Unsubscribe {
        address: "a".to_string(),
        port: Some(1),
        bedrock: false,
        id: None,
    };
    process_request(request, subs, registry)
}

fn error(handling: Handling) -> String {
    match handling {
        Handling::Respond { response } => match response.data {
            ResponseData::Error { error } => error,
            _ => panic!("no error"),
        },
        _ => panic!("not refused"),
    }
}

/// A client whose subscription has ended, for the task has given up, and one that came after it.
fn given_up_and_started_anew() -> (PingRegistry, Subscriptions, Subscriptions) {
    let mut registry = PingRegistry::new();
    let mut early = Subscriptions::new();
    let mut late = Subscriptions::new();
    let task = match subscribe(&mut early, &mut registry) {
        Handling::Start { task, .. } => task,
        _ => panic!("no start"),
    };
    assert!(early.is_subscribed("a:1:false", &registry));
    task.give_up(&mut registry);
    assert!(!early.is_subscribed("a:1:false", &registry));
    assert_eq!(task.tick(&mut registry), Tick::Removed);
    assert!(matches!(subscribe(&mut late, &mut registry), Handling::Start { .. }));
    assert!(late.is_subscribed("a:1:false", &registry));
    assert!(!early.is_subscribed("a:1:false", &registry));
    assert_eq!(registry.subscriber_count("a:1:false"), Some(1));
    (registry, early, late)
}

#[test]
fn an_ended_subscription_is_none() {
    let (mut registry, mut early, late) = given_up_and_started_anew();
    assert_eq!(error(unsubscribe(&mut early, &mut registry)), "Not subscribed to a:1:false");
    assert_eq!(registry.subscriber_count("a:1:false"), Some(1));
    assert!(late.is_subscribed("a:1:false", &registry));
}

#[test]
fn a_client_with_an_ended_subscription_leaves_the_count_alone() {
    let (mut registry, mut early, mut late) = given_up_and_started_anew();
    assert!(disconnect(&mut early, &mut registry).is_empty());
    assert_eq!(registry.subscriber_count("a:1:false"), Some(1));
    assert_eq!(PingTask::new("a", 1, false, "p").tick(&mut registry), Tick::Ping);
    assert_eq!(disconnect(&mut late, &mut registry), vec!["a:1:false".to_string()]);
    assert_eq!(PingTask::new("a", 1, false, "p").tick(&mut registry), Tick::NoSubscribers);
}

#[test]
fn a_client_may_subscribe_again_when_its_subscription_has_ended() {
    let (mut registry, mut early, mut late) = given_up_and_started_anew();
    assert!(matches!(subscribe(&mut early, &mut registry), Handling::Join { .. }));
    assert_eq!(registry.subscriber_count("a:1:false"), Some(2));
    assert_eq!(error(subscribe(&mut early, &mut registry)), "Already subscribed to a:1:false");
    assert_eq!(early.key_at(0).map(|key| key.as_str()), Some("a:1:false"));
    assert_eq!(early.key_at(1), None);
    assert!(matches!(unsubscribe(&mut late, &mut registry), Handling::Leave { .. }));
    assert_eq!(registry.subscriber_count("a:1:false"), Some(1));
    PingTask::new("a", 1, false, "p").give_up(&mut registry);
    assert!(matches!(subscribe(&mut early, &mut registry), Handling::Start { .. }));
    assert_eq!(registry.subscriber_count("a:1:false"), Some(1));
}
