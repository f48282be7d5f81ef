//! A ping task: pings one server again and again, for all of its subscribers.
use crate::json::{json_as_i64, json_as_u64, json_get, json_view, Json};
use crate::ping::bedrock::BedrockStatusView;
use crate::ping::java::{completed, law_completed_members};
use crate::ping::{host_and_port, result_view, with_port, Failure, PingError};
use crate::registry::{PingRegistry, RegistryView};
use crate::request::{key_of, server_key, LatencyUpdate, Players, UpdateView};
use crate::text::decimal;
use vstd::prelude::*;

verus! {

/// The seconds between two pings of a task.
pub const SUBSCRIBE_INTERVAL_SECS: u64 = 1;

/// The number of failed pings in a row after which a task stops.
pub const MAX_SUBSCRIBE_ERRORS: u32 = 10;

/// The number of updates that a subscriber may fall behind before it misses some.
pub const UPDATE_BACKLOG: usize = 16;

/// The low 32 bits of an integer, as a signed number.
pub open spec fn low_i32(n: int) -> i32 {
    ((n + 0x8000_0000) % 0x1_0000_0000 - 0x8000_0000) as i32
}

/// A count among the players of a status: the low 32 bits of it, and zero where it is no integer.
pub open spec fn player_count(players: Json, key: Seq<char>) -> i32 {
    match players.member(key) {
        Some(count) => match count.as_i64() {
            Some(n) => low_i32(n as int),
            None => 0,
        },
        None => 0,
    }
}

/// What subscribers of a server are told of one ping.
pub open spec fn update_of(server: Seq<char>, result: Result<Json, Failure>) -> UpdateView {
    match result {
        Ok(document) => UpdateView {
            server,
            latency: match document.member("latency"@) {
                Some(latency) => latency.as_u64(),
                None => None,
            },
            players: match document.member("players"@) {
                Some(players) => Some(
                    Players {
                        online: player_count(players, "online"@),
                        max: player_count(players, "max"@),
                    },
                ),
                None => None,
            },
            error: None,
        },
        Err(failure) => UpdateView {
            server,
            latency: None,
            players: None,
            error: Some(failure.message()),
        },
    }
}

/// The number of failures in a row after one more ping.
pub open spec fn errors_after_ping(errors: int, succeeded: bool) -> int {
    if succeeded {
        0
    } else {
        errors + 1
    }
}

/// The low 32 bits of an integer, as a signed number.
fn to_low_i32(n: i64) -> (low: i32)
    ensures
        low == low_i32(n as int),
{
    assert((n as i32) == (n + 0x8000_0000) % 0x1_0000_0000 - 0x8000_0000) by (bit_vector);
    #[verifier::truncate]
    (n as i32)
}

fn count_in(players: &serde_json::Value, key: &str) -> (count: i32)
    ensures
        count == player_count(json_view(*players), key@),
{
    match json_get(players, key) {
        Some(count) => match json_as_i64(count) {
            Some(n) => to_low_i32(n),
            None => 0,
        },
        None => 0,
    }
}

/// What subscribers of a server are told of one ping.
pub fn update_from(server: &str, result: &Result<serde_json::Value, PingError>) -> (update:
    LatencyUpdate)
    ensures
        update@ == update_of(server@, result_view(*result)),
{
    match result {
        Ok(document) => {
            let latency = match json_get(document, "latency") {
                Some(latency) => json_as_u64(latency),
                None => None,
            };
            let players = match json_get(document, "players") {
                Some(players) => Some(
                    Players {
                        online: count_in(players, "online"),
                        max: count_in(players, "max"),
                    },
                ),
                None => None,
            };
            LatencyUpdate { server: server.to_owned(), latency, players, error: None }
        },
        Err(error) => LatencyUpdate {
            server: server.to_owned(),
            latency: None,
            players: None,
            error: Some(error.message()),
        },
    }
}

/// A ping task: the server, and the number of failed pings in a row.
#[derive(Debug)]
pub struct PingTask {
    pub address: String,
    pub port: u16,
    pub bedrock: bool,
    pub srv_prefix: String,
    pub consecutive_errors: u32,
}

/// What a `PingTask` holds.
pub struct TaskView {
    pub address: Seq<char>,
    pub port: u16,
    pub bedrock: bool,
    pub srv_prefix: Seq<char>,
    pub consecutive_errors: u32,
}

impl View for PingTask {
    type V = TaskView;

    open spec fn view(&self) -> TaskView {
        TaskView {
            address: self.address@,
            port: self.port,
            bedrock: self.bedrock,
            srv_prefix: self.srv_prefix@,
            consecutive_errors: self.consecutive_errors,
        }
    }
}

/// What a task does when its time comes.
#[derive(Debug, Clone, Copy, PartialEq, Eq, Structural)]
pub enum Tick {
    /// Ping the server.
    Ping,
    /// Stop, for nobody subscribes any more.
    NoSubscribers,
    /// Stop, for the task has been taken out of the registry.
    Removed,
}

/// What the task for the server `key` does when its time comes, and the registry after it. A task
/// without subscribers takes itself out and stops.
pub open spec fn ticked(registry: RegistryView, key: Seq<char>) -> (Tick, RegistryView) {
    match registry.count(key) {
        None => (Tick::Removed, registry),
        Some(count) => if count == 0 {
            (Tick::NoSubscribers, registry.without_task(key))
        } else {
            (Tick::Ping, registry)
        },
    }
}

/// What a task does after a ping: tell its subscribers, and stop or go on.
#[derive(Debug)]
pub struct Report {
    pub update: LatencyUpdate,
    pub stop: bool,
}

/// A task after one more ping.
pub open spec fn after_ping(task: TaskView, succeeded: bool) -> TaskView {
    TaskView {
        consecutive_errors: errors_after_ping(task.consecutive_errors as int, succeeded) as u32,
        ..task
    }
}

/// Whether a task stops after so many failures in a row.
pub open spec fn stops(task: TaskView) -> bool {
    task.consecutive_errors >= MAX_SUBSCRIBE_ERRORS
}

impl PingTask {
    /// The key of the server.
    pub open spec fn key(self) -> Seq<char> {
        server_key(self.address@, self.port, self.bedrock)
    }

    /// The name by which subscribers know the server.
    pub open spec fn server(self) -> Seq<char> {
        host_and_port(self.address@, self.port)
    }

    /// Whether the task has failed less often in a row than makes it stop.
    pub open spec fn running(self) -> bool {
        self.consecutive_errors < MAX_SUBSCRIBE_ERRORS
    }

    /// A task that has not pinged yet.
    pub fn new(address: &str, port: u16, bedrock: bool, srv_prefix: &str) -> (task: Self)
        ensures
            task@ == (TaskView {
                address: address@,
                port,
                bedrock,
                srv_prefix: srv_prefix@,
                consecutive_errors: 0,
            }),
            task.running(),
    {
        PingTask {
            address: address.to_owned(),
            port,
            bedrock,
            srv_prefix: srv_prefix.to_owned(),
            consecutive_errors: 0,
        }
    }

    /// The key of the server.
    pub fn server_key(&self) -> (key: String)
        ensures
            key@ == self.key(),
    {
        key_of(&self.address, self.port, self.bedrock)
    }

    /// The name by which subscribers know the server.
    pub fn server_name(&self) -> (name: String)
        ensures
            name@ == self.server(),
    {
        with_port(&self.address, self.port)
    }

    /// What to do now. A task without subscribers takes itself out of the registry and stops.
    pub fn tick(&self, registry: &mut PingRegistry) -> (action: Tick)
        ensures
            (action, final(registry)@) == ticked(old(registry)@, self.key()),
    {
        let key = self.server_key();
        match registry.subscriber_count(&key) {
            None => Tick::Removed,
            Some(count) => {
                if count == 0 {
                    registry.remove(&key);
                    Tick::NoSubscribers
                } else {
                    Tick::Ping
                }
            },
        }
    }

    /// What to do after a ping. A failure counts, a success begins the count anew, and the task
    /// stops when `MAX_SUBSCRIBE_ERRORS` pings in a row have failed.
    pub fn pinged(&mut self, result: &Result<serde_json::Value, PingError>) -> (report: Report)
        requires
            old(self).running(),
        ensures
            report.update@ == update_of(old(self).server(), result_view(*result)),
            final(self).consecutive_errors == errors_after_ping(
                old(self).consecutive_errors as int,
                result is Ok,
            ),
            report.stop == !final(self).running(),
            final(self)@ == after_ping(old(self)@, result is Ok),
            report.stop == stops(final(self)@),
            final(self).address == old(self).address,
            final(self).port == old(self).port,
            final(self).bedrock == old(self).bedrock,
            final(self).srv_prefix == old(self).srv_prefix,
    {
        let update = update_from(&self.server_name(), result);
        match result {
            Ok(_) => {
                self.consecutive_errors = 0;
            },
            Err(_) => {
                self.consecutive_errors = self.consecutive_errors + 1;
            },
        }
        Report { update, stop: self.consecutive_errors >= MAX_SUBSCRIBE_ERRORS }
    }

    /// Takes the task out of the registry after too many failures.
    pub fn give_up(&self, registry: &mut PingRegistry)
        ensures
            final(registry)@ == old(registry)@.without_task(self.key()),
    {
        registry.remove(&self.server_key());
    }
}

/// The number of failures in a row after a number of pings, of which each succeeded or not.
pub open spec fn errors_after(pings: Seq<bool>) -> int
    decreases pings.len(),
{
    if pings.len() == 0 {
        0
    } else {
        errors_after_ping(errors_after(pings.drop_last()), pings.last())
    }
}

proof fn lemma_errors_after_at_least(pings: Seq<bool>, n: int)
    requires
        n >= 0,
    ensures
        0 <= errors_after(pings) <= pings.len(),
        errors_after(pings) >= n <==> pings.len() >= n && forall|i: int|
            pings.len() - n <= i < pings.len() ==> !(#[trigger] pings[i]),
    decreases pings.len(),
{
    if pings.len() > 0 {
        let before = pings.drop_last();
        if n > 0 {
            lemma_errors_after_at_least(before, n - 1);
            if pings.last() {
                assert(pings[pings.len() - 1]);
            } else {
                assert forall|i: int| pings.len() - n <= i < pings.len() && errors_after(pings) >= n
                    implies !(#[trigger] pings[i]) by {
                    if i < pings.len() - 1 {
                        assert(!before[i]);
                    }
                }
                if pings.len() >= n && forall|i: int|
                    pings.len() - n <= i < pings.len() ==> !(#[trigger] pings[i]) {
                    assert forall|i: int| before.len() - (n - 1) <= i < before.len() implies !(
                    #[trigger] before[i]) by {
                        assert(!pings[i]);
                    }
                }
            }
        } else {
            lemma_errors_after_at_least(before, 0);
        }
    }
}

/// A task stops after a ping exactly where that ping and the nine before it have all failed.
pub proof fn law_stops_after_ten_failures(pings: Seq<bool>)
    ensures
        errors_after(pings) >= MAX_SUBSCRIBE_ERRORS <==> pings.len() >= 10 && forall|i: int|
            pings.len() - 10 <= i < pings.len() ==> !(#[trigger] pings[i]),
{
    lemma_errors_after_at_least(pings, 10);
}

/// The update on a successful ping of the Java edition has the latency of the ping and the players
/// that the server's response counts, where it counts any.
pub proof fn law_update_of_java_ping(
    server: Seq<char>,
    response: Json,
    srv_record: Option<Seq<char>>,
    host: Seq<char>,
    port: u16,
    latency: u64,
)
    ensures
        ({
            let update = update_of(
                server,
                Ok(completed(response, srv_record, host, port, latency)),
            );
            &&& update.server == server
            &&& update.latency == Some(latency)
            &&& update.players == match response.member("players"@) {
                Some(players) => Some(
                    Players {
                        online: player_count(players, "online"@),
                        max: player_count(players, "max"@),
                    },
                ),
                None => None,
            }
            &&& update.error is None
        }),
{
    law_completed_members(response, srv_record, host, port, latency, "players"@);
    reveal_strlit("host");
    reveal_strlit("port");
    reveal_strlit("latency");
    reveal_strlit("players");
    reveal_strlit("srvRecord");
    assert("players"@.len() == 7 && "latency"@.len() == 7 && "host"@.len() == 4);
    assert("port"@.len() == 4 && "srvRecord"@.len() == 9);
    assert("players"@[0] != "latency"@[0]);
}

/// The update on a successful ping of the Bedrock edition has the latency of the ping and the
/// players of the server.
pub proof fn law_update_of_bedrock_ping(
    server: Seq<char>,
    status: BedrockStatusView,
    latency: u64,
    host: Seq<char>,
    port: u16,
)
    ensures
        update_of(server, Ok(status.document(latency, host, port))) == (UpdateView {
            server,
            latency: Some(latency),
            players: Some(Players { online: status.online_players, max: status.max_players }),
            error: None,
        }),
{
    reveal_strlit("players");
    reveal_strlit("serverGUID");
    reveal_strlit("serverID");
    reveal_strlit("gameMode");
    reveal_strlit("gameModeID");
    reveal_strlit("portIPv4");
    reveal_strlit("portIPv6");
    reveal_strlit("latency");
    reveal_strlit("host");
    reveal_strlit("port");
    reveal_strlit("online");
    reveal_strlit("max");
    assert("players"@.len() == 7 && "latency"@.len() == 7 && "players"@[0] != "latency"@[0]);
    assert("host"@.len() == 4 && "port"@.len() == 4);
    assert("serverGUID"@.len() == 10 && "serverID"@.len() == 8);
    assert("gameMode"@.len() == 8 && "gameModeID"@.len() == 10);
    assert("portIPv4"@.len() == 8 && "portIPv6"@.len() == 8);
    assert("online"@.len() == 6 && "max"@.len() == 3);
    let document = status.document(latency, host, port);
    assert(document.member("latency"@) == Some(Json::Integer(latency as int)));
    let players = document.member("players"@).unwrap();
    assert(players.member("online"@) == Some(Json::Integer(status.online_players as int)));
    assert(players.member("max"@) == Some(Json::Integer(status.max_players as int)));
}

/// The update on a failed ping, whatever the failure, has neither latency nor players, and says in
/// words what failed; an update without an error is one on a ping that succeeded.
pub proof fn law_update_of_failed_ping(server: Seq<char>, result: Result<Json, Failure>)
    ensures
        ({
            let update = update_of(server, result);
            &&& update.server == server
            &&& result is Err ==> update.latency is None && update.players is None && update.error
                == Some(result->Err_0.message())
            &&& update.error is None <==> result is Ok
        }),
{
}

/// The update on a ping that succeeded shows the latency of the document where that is a number that
/// fits, and players exactly where the document has some, as many as it says.
pub proof fn law_update_of_successful_ping(server: Seq<char>, document: Json)
    ensures
        ({
            let update = update_of(server, Ok(document));
            &&& match document.member("latency"@) {
                Some(Json::Integer(n)) => if 0 <= n <= 18446744073709551615 {
                    update.latency == Some(n as u64)
                } else {
                    update.latency is None
                },
                _ => update.latency is None,
            }
            &&& match (document.member("players"@), update.players) {
                (Some(players), Some(shown)) => {
                    &&& counts_as(players.member("online"@), shown.online)
                    &&& counts_as(players.member("max"@), shown.max)
                },
                (None, None) => true,
                _ => false,
            }
        }),
{
    match document.member("players"@) {
        Some(players) => {
            lemma_player_count(players, "online"@);
            lemma_player_count(players, "max"@);
        },
        None => {},
    }
}

/// Whether a number of players is what a member of a document says: the same up to multiples of two
/// to the 32nd power where that is an integer of 64 bits with a sign, and zero otherwise.
pub open spec fn counts_as(member: Option<Json>, count: i32) -> bool {
    match member {
        Some(Json::Integer(n)) => if -9223372036854775808 <= n <= 9223372036854775807 {
            (n - count) % 4294967296 == 0
        } else {
            count == 0
        },
        _ => count == 0,
    }
}

proof fn lemma_player_count(players: Json, key: Seq<char>)
    ensures
        counts_as(players.member(key), player_count(players, key)),
{
}

/// When its time comes, a task that the registry does not hold stops, one without subscribers takes
/// itself out and stops, and any other one pings and leaves the registry as it is.
pub proof fn law_tick(registry: RegistryView, key: Seq<char>, other: Seq<char>)
    ensures
        ({
            let (action, now) = ticked(registry, key);
            &&& action == Tick::Removed <==> !registry.tasks.contains_key(key)
            &&& action == Tick::NoSubscribers <==> registry.tasks.contains_key(key)
                && registry.tasks[key].subscriber_count == 0
            &&& action == Tick::NoSubscribers ==> !now.tasks.contains_key(key)
            &&& action != Tick::NoSubscribers ==> now == registry
            &&& other != key ==> now.tasks.get(other) == registry.tasks.get(other)
        }),
{
}

/// The task after a number of pings, of which each succeeded or not.
pub open spec fn task_after(task: TaskView, pings: Seq<bool>) -> TaskView
    decreases pings.len(),
{
    if pings.len() == 0 {
        task
    } else {
        after_ping(task_after(task, pings.drop_last()), pings.last())
    }
}

/// Whatever server it pings, a new task stops after a ping exactly where that ping and the nine
/// before it have all failed; it never turns to another server.
pub proof fn law_task_runs_until_ten_failures(task: TaskView, pings: Seq<bool>)
    requires
        task.consecutive_errors == 0,
        pings.len() <= u32::MAX,
    ensures
        ({
            let now = task_after(task, pings);
            &&& now.address == task.address
            &&& now.port == task.port
            &&& now.bedrock == task.bedrock
            &&& now.srv_prefix == task.srv_prefix
            &&& stops(now) <==> pings.len() >= 10 && forall|i: int|
                pings.len() - 10 <= i < pings.len() ==> !(#[trigger] pings[i])
        }),
{
    lemma_task_after(task, pings);
    law_stops_after_ten_failures(pings);
}

proof fn lemma_task_after(task: TaskView, pings: Seq<bool>)
    requires
        task.consecutive_errors == 0,
        pings.len() <= u32::MAX,
    ensures
        task_after(task, pings) == (TaskView {
            consecutive_errors: errors_after(pings) as u32,
            ..task
        }),
        0 <= errors_after(pings) <= pings.len(),
    decreases pings.len(),
{
    if pings.len() > 0 {
        lemma_task_after(task, pings.drop_last());
    }
}

/// The key and the name of a task's server are those of the address, port and edition that it has.
pub proof fn law_task_names_its_server(task: PingTask)
    ensures
        task.server() == task.address@ + ":"@ + decimal(task.port as nat),
        task.key() == task.server() + ":"@ + if task.bedrock {
            "true"@
        } else {
            "false"@
        },
{
}

/// A task is running as long as fewer than ten pings in a row have failed.
pub proof fn law_running(task: PingTask)
    ensures
        task.running() <==> task.consecutive_errors < 10,
        task.running() <==> !stops(task@),
{
}

} // verus!
