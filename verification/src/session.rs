//! One client's connection: its subscriptions, and what is done with what it sends.
use crate::registry::{left_by_one, PingRegistry, RegistryView, SharedPingTask};
use crate::request::{
    key_of, port_meant, port_or_default, prefix_meant, prefix_or_default, server_key, LatencyUpdate,
    Request, Response, ResponseData, ResponseDataView, ResponseView, UpdateView,
};
use crate::ping::{host_and_port, with_port};
use crate::task::{PingTask, TaskView};
use crate::text::{
    decimal, is_white_space, is_word, law_same_but_for_case, law_trimmed, option_view,
    same_ignoring_ascii_case, trim, trimmed, views,
};
use vstd::prelude::*;

verus! {

/// The milliseconds without a message from the client after which the connection is closed.
pub const IDLE_TIMEOUT_MILLIS: u64 = 180_000;

/// The milliseconds to wait before asking again where no subscription had anything new.
pub const POLL_PAUSE_MILLIS: u64 = 50;

/// A client's subscription: the key of the server, the client's mark for it, and the number of the
/// task whose updates it receives.
#[derive(Debug)]
pub struct ClientSubscription {
    pub key: String,
    pub id: Option<String>,
    pub number: u64,
}

/// What a `ClientSubscription` holds.
pub struct SubscriptionView {
    pub key: Seq<char>,
    pub id: Option<Seq<char>>,
    pub number: u64,
}

impl View for ClientSubscription {
    type V = SubscriptionView;

    open spec fn view(&self) -> SubscriptionView {
        SubscriptionView { key: self.key@, id: option_view(self.id), number: self.number }
    }
}

/// A client's subscriptions, the oldest first; no server occurs twice. A subscription ends with the
/// task that it was made to, and may stay here after that.
#[derive(Debug)]
pub struct Subscriptions {
    entries: Vec<ClientSubscription>,
}

impl View for Subscriptions {
    type V = Seq<SubscriptionView>;

    closed spec fn view(&self) -> Seq<SubscriptionView> {
        self.entries@.map_values(|entry: ClientSubscription| entry@)
    }
}

/// Whether no server occurs twice among subscriptions.
pub open spec fn distinct(entries: Seq<SubscriptionView>) -> bool {
    forall|i: int, j: int|
        0 <= i < j < entries.len() ==> #[trigger] entries[i].key != #[trigger] entries[j].key
}

/// Whether `entries[i]` is the subscription to the server `key`.
pub open spec fn is_entry(entries: Seq<SubscriptionView>, key: Seq<char>, i: int) -> bool {
    0 <= i < entries.len() && entries[i].key == key
}

/// Whether there is an entry for the server `key`, ended or not.
pub open spec fn has_entry(entries: Seq<SubscriptionView>, key: Seq<char>) -> bool {
    exists|i: int| is_entry(entries, key, i)
}

/// Whether a subscription has not ended: the task that it was made to runs.
pub open spec fn lives(entry: SubscriptionView, registry: RegistryView) -> bool {
    registry.number(entry.key) == Some(entry.number)
}

/// Whether `entries[i]` is the subscription to the server `key`, and has not ended.
pub open spec fn is_live_entry(
    entries: Seq<SubscriptionView>,
    registry: RegistryView,
    key: Seq<char>,
    i: int,
) -> bool {
    is_entry(entries, key, i) && lives(entries[i], registry)
}

/// Whether a client with these entries is subscribed to the server `key`.
pub open spec fn subscribed(
    entries: Seq<SubscriptionView>,
    registry: RegistryView,
    key: Seq<char>,
) -> bool {
    exists|i: int| is_live_entry(entries, registry, key, i)
}

/// Subscriptions without the one to the server `key`, where there is one.
pub open spec fn without_entry(entries: Seq<SubscriptionView>, key: Seq<char>) -> Seq<
    SubscriptionView,
> {
    if has_entry(entries, key) {
        entries.remove(choose|i: int| is_entry(entries, key, i))
    } else {
        entries
    }
}

/// The registry after a client with these subscriptions has gone: each task that the client was
/// subscribed to has one subscriber less.
pub open spec fn released(registry: RegistryView, entries: Seq<SubscriptionView>) -> RegistryView {
    RegistryView {
        tasks: registry.tasks.map_entries(
            |key: Seq<char>, task: SharedPingTask|
                if subscribed(entries, registry, key) {
                    left_by_one(task)
                } else {
                    task
                },
        ),
        ..registry
    }
}

/// The keys of the servers that a client with these entries is subscribed to, the oldest first.
pub open spec fn live_keys(entries: Seq<SubscriptionView>, registry: RegistryView) -> Seq<Seq<char>>
    decreases entries.len(),
{
    if entries.len() == 0 {
        Seq::empty()
    } else {
        let before = live_keys(entries.drop_last(), registry);
        if lives(entries.last(), registry) {
            before.push(entries.last().key)
        } else {
            before
        }
    }
}

proof fn lemma_only_entry(entries: Seq<SubscriptionView>, key: Seq<char>, i: int)
    requires
        distinct(entries),
        is_entry(entries, key, i),
    ensures
        without_entry(entries, key) == entries.remove(i),
        distinct(without_entry(entries, key)),
        !has_entry(without_entry(entries, key), key),
{
    let chosen = choose|j: int| is_entry(entries, key, j);
    assert(is_entry(entries, key, chosen));
    assert(chosen == i);
    let rest = entries.remove(i);
    if has_entry(rest, key) {
        let j = choose|j: int| is_entry(rest, key, j);
        let was = if j < i {
            j
        } else {
            j + 1
        };
        assert(is_entry(entries, key, was));
    }
}

proof fn lemma_subscribed_by_entry(
    entries: Seq<SubscriptionView>,
    registry: RegistryView,
    key: Seq<char>,
    i: int,
)
    requires
        distinct(entries),
        is_entry(entries, key, i),
    ensures
        subscribed(entries, registry, key) == lives(entries[i], registry),
{
    if lives(entries[i], registry) {
        assert(is_live_entry(entries, registry, key, i));
    }
    if subscribed(entries, registry, key) {
        let j = choose|j: int| is_live_entry(entries, registry, key, j);
        assert(is_entry(entries, key, j));
        assert(j == i);
    }
}

/// Taking the entry for a server out leaves none for it, and changes nothing for other servers.
pub(crate) proof fn lemma_without_entry(
    entries: Seq<SubscriptionView>,
    registry: RegistryView,
    key: Seq<char>,
    other: Seq<char>,
)
    requires
        distinct(entries),
    ensures
        distinct(without_entry(entries, key)),
        !has_entry(without_entry(entries, key), key),
        !subscribed(without_entry(entries, key), registry, key),
        other != key ==> subscribed(without_entry(entries, key), registry, other) == subscribed(
            entries,
            registry,
            other,
        ),
{
    let rest = without_entry(entries, key);
    if has_entry(entries, key) {
        let gone = choose|i: int| is_entry(entries, key, i);
        lemma_only_entry(entries, key, gone);
        if other != key && subscribed(rest, registry, other) {
            let i = choose|i: int| is_live_entry(rest, registry, other, i);
            let was = if i < gone {
                i
            } else {
                i + 1
            };
            assert(is_live_entry(entries, registry, other, was));
        }
        if other != key && subscribed(entries, registry, other) {
            let was = choose|i: int| is_live_entry(entries, registry, other, i);
            let i = if was < gone {
                was
            } else {
                was - 1
            };
            assert(is_live_entry(rest, registry, other, i));
        }
    }
    if subscribed(rest, registry, key) {
        let i = choose|i: int| is_live_entry(rest, registry, key, i);
        assert(is_entry(rest, key, i));
    }
}

impl Subscriptions {
    /// No subscriptions.
    pub fn new() -> (subscriptions: Self)
        ensures
            subscriptions@ == Seq::<SubscriptionView>::empty(),
            distinct(subscriptions@),
    {
        let subscriptions = Subscriptions { entries: Vec::new() };
        assert(subscriptions@ =~= Seq::empty());
        subscriptions
    }

    fn position(&self, key: &str) -> (position: Option<usize>)
        ensures
            match position {
                Some(i) => is_entry(self@, key@, i as int),
                None => !has_entry(self@, key@),
            },
    {
        let wanted = key.to_owned();
        let mut i: usize = 0;
        while i < self.entries.len()
            invariant
                wanted@ == key@,
                i <= self.entries@.len() == self@.len(),
                forall|j: int| 0 <= j < i ==> !is_entry(self@, key@, j),
            decreases self.entries@.len() - i,
        {
            if self.entries[i].key == wanted {
                return Some(i);
            }
            i = i + 1;
        }
        None
    }

    /// Whether the client is subscribed to the server `key`.
    pub fn is_subscribed(&self, key: &str, registry: &PingRegistry) -> (found: bool)
        requires
            distinct(self@),
        ensures
            found == subscribed(self@, registry@, key@),
    {
        match self.position(key) {
            Some(i) => {
                proof {
                    lemma_subscribed_by_entry(self@, registry@, key@, i as int);
                }
                assert(self@[i as int] == self.entries@[i as int]@);
                match registry.task_number(key) {
                    Some(number) => number == self.entries[i].number,
                    None => false,
                }
            },
            None => {
                assert(!subscribed(self@, registry@, key@)) by {
                    if subscribed(self@, registry@, key@) {
                        let i = choose|i: int| is_live_entry(self@, registry@, key@, i);
                        assert(is_entry(self@, key@, i));
                    }
                }
                false
            },
        }
    }

    fn remove(&mut self, key: &str)
        requires
            distinct(old(self)@),
        ensures
            final(self)@ == without_entry(old(self)@, key@),
            distinct(final(self)@),
            !has_entry(final(self)@, key@),
    {
        match self.position(key) {
            Some(i) => {
                let ghost before = self@;
                proof {
                    lemma_only_entry(before, key@, i as int);
                }
                self.entries.remove(i);
                assert(self@ =~= before.remove(i as int));
            },
            None => {},
        }
    }

    fn replace(&mut self, key: String, id: Option<String>, number: u64)
        requires
            distinct(old(self)@),
        ensures
            final(self)@ == without_entry(old(self)@, key@).push(
                SubscriptionView { key: key@, id: option_view(id), number },
            ),
            distinct(final(self)@),
    {
        self.remove(&key);
        let ghost before = self@;
        let ghost entry = SubscriptionView { key: key@, id: option_view(id), number };
        self.entries.push(ClientSubscription { key, id, number });
        assert(self@ =~= before.push(entry));
        assert forall|i: int| 0 <= i < before.len() implies #[trigger] before[i].key != entry.key by {
            assert(!is_entry(before, entry.key, i));
        }
    }
}

/// What is done about a request.
#[derive(Debug)]
pub enum Handling {
    /// Only respond.
    Respond { response: Response },
    /// Ping the server, then respond with `ping_response`.
    Ping { id: Option<String>, address: String, port: u16, bedrock: bool, srv_prefix: String },
    /// Receive the updates of the task that runs for the server `key`, and respond.
    Join { key: String, response: Response },
    /// Start a task for the server `key`, receive its updates, and respond.
    Start { key: String, task: PingTask, response: Response },
    /// Receive no more updates of the server `key`, and respond.
    Leave { key: String, response: Response },
}

/// What a `Handling` holds.
pub enum HandlingView {
    Respond { response: ResponseView },
    Ping {
        id: Option<Seq<char>>,
        address: Seq<char>,
        port: u16,
        bedrock: bool,
        srv_prefix: Seq<char>,
    },
    Join { key: Seq<char>, response: ResponseView },
    Start { key: Seq<char>, task: TaskView, response: ResponseView },
    Leave { key: Seq<char>, response: ResponseView },
}

impl View for Handling {
    type V = HandlingView;

    open spec fn view(&self) -> HandlingView {
        match self {
            Handling::Respond { response } => HandlingView::Respond { response: response@ },
            Handling::Ping { id, address, port, bedrock, srv_prefix } => HandlingView::Ping {
                id: option_view(*id),
                address: address@,
                port: *port,
                bedrock: *bedrock,
                srv_prefix: srv_prefix@,
            },
            Handling::Join { key, response } => HandlingView::Join {
                key: key@,
                response: response@,
            },
            Handling::Start { key, task, response } => HandlingView::Start {
                key: key@,
                task: task@,
                response: response@,
            },
            Handling::Leave { key, response } => HandlingView::Leave {
                key: key@,
                response: response@,
            },
        }
    }
}

/// The response that refuses a request.
pub open spec fn refusal(id: Option<Seq<char>>, error: Seq<char>) -> HandlingView {
    HandlingView::Respond {
        response: ResponseView { id, data: ResponseDataView::Error { error } },
    }
}

/// What is to be done about a request, by a client with these subscriptions and with this registry;
/// the client's subscriptions after it; and the registry after it. A subscription that has ended
/// counts for nothing, and gives way to a new one to the same server.
pub open spec fn handled(
    request: Request,
    entries: Seq<SubscriptionView>,
    registry: RegistryView,
) -> (HandlingView, Seq<SubscriptionView>, RegistryView) {
    match request {
        Request::Ping { address, port, bedrock, srv_prefix, id } => (
            HandlingView::Ping {
                id: option_view(id),
                address: address@,
                port: port_meant(port, bedrock),
                bedrock,
                srv_prefix: prefix_meant(option_view(srv_prefix)),
            },
            entries,
            registry,
        ),
        Request::Subscribe { address, port, bedrock, srv_prefix, id } => {
            let id = option_view(id);
            let port = port_meant(port, bedrock);
            let key = server_key(address@, port, bedrock);
            let response = ResponseView {
                id,
                data: ResponseDataView::Subscribed { subscribed: host_and_port(address@, port) },
            };
            if subscribed(entries, registry, key) {
                (refusal(id, "Already subscribed to "@ + key), entries, registry)
            } else {
                let counted = registry.with_subscriber(key);
                (
                    if registry.tasks.contains_key(key) {
                        HandlingView::Join { key, response }
                    } else {
                        HandlingView::Start {
                            key,
                            task: TaskView {
                                address: address@,
                                port,
                                bedrock,
                                srv_prefix: prefix_meant(option_view(srv_prefix)),
                                consecutive_errors: 0,
                            },
                            response,
                        }
                    },
                    without_entry(entries, key).push(
                        SubscriptionView { key, id, number: counted.tasks[key].number },
                    ),
                    counted,
                )
            }
        },
        Request::Unsubscribe { address, port, bedrock, id } => {
            let id = option_view(id);
            let port = port_meant(port, bedrock);
            let key = server_key(address@, port, bedrock);
            if subscribed(entries, registry, key) {
                (
                    HandlingView::Leave {
                        key,
                        response: ResponseView {
                            id,
                            data: ResponseDataView::Unsubscribed {
                                unsubscribed: host_and_port(address@, port),
                            },
                        },
                    },
                    without_entry(entries, key),
                    registry.without_subscriber(key),
                )
            } else {
                (refusal(id, "Not subscribed to "@ + key), entries, registry)
            }
        },
    }
}

/// Whether the registry has room for the subscriber that a request would add; a request that adds
/// none needs no room.
pub open spec fn has_room(
    request: Request,
    entries: Seq<SubscriptionView>,
    registry: RegistryView,
) -> bool {
    match request {
        Request::Subscribe { address, port, bedrock, .. } => {
            let key = server_key(address@, port_meant(port, bedrock), bedrock);
            subscribed(entries, registry, key) || registry.has_room(key)
        },
        _ => true,
    }
}

/// Whether the registry has room for the subscriber that a request would add.
pub fn room_for(request: &Request, subscriptions: &Subscriptions, registry: &PingRegistry) -> (room:
    bool)
    requires
        distinct(subscriptions@),
    ensures
        room == has_room(*request, subscriptions@, registry@),
{
    match request {
        Request::Subscribe { address, port, bedrock, .. } => {
            let key = key_of(address, port_or_default(*port, *bedrock), *bedrock);
            subscriptions.is_subscribed(&key, registry) || registry.has_room(&key)
        },
        _ => true,
    }
}

/// Does what a request asks for, as far as subscriptions and tasks go, and says what remains to
/// be done.
pub fn process_request(
    request: Request,
    subscriptions: &mut Subscriptions,
    registry: &mut PingRegistry,
) -> (handling: Handling)
    requires
        distinct(old(subscriptions)@),
        has_room(request, old(subscriptions)@, old(registry)@),
    ensures
        (handling@, final(subscriptions)@, final(registry)@) == handled(
            request,
            old(subscriptions)@,
            old(registry)@,
        ),
        distinct(final(subscriptions)@),
{
    match request {
        Request::Ping { address, port, bedrock, srv_prefix, id } => Handling::Ping {
            id,
            address,
            port: port_or_default(port, bedrock),
            bedrock,
            srv_prefix: prefix_or_default(srv_prefix),
        },
        Request::Subscribe { address, port, bedrock, srv_prefix, id } => {
            let port = port_or_default(port, bedrock);
            let srv_prefix = prefix_or_default(srv_prefix);
            let key = key_of(&address, port, bedrock);
            if subscriptions.is_subscribed(&key, registry) {
                return Handling::Respond {
                    response: Response {
                        id,
                        data: ResponseData::Error {
                            error: "Already subscribed to ".to_owned().concat(&key),
                        },
                    },
                };
            }
            let created = registry.get_or_create_ping_task(&key);
            match registry.task_number(&key) {
                Some(number) => {
                    subscriptions.replace(key.clone(), id.clone(), number);
                },
                None => {},
            }
            let response = Response {
                id,
                data: ResponseData::Subscribed { subscribed: with_port(&address, port) },
            };
            if created {
                let task = PingTask::new(&address, port, bedrock, &srv_prefix);
                Handling::Start { key, task, response }
            } else {
                Handling::Join { key, response }
            }
        },
        Request::Unsubscribe { address, port, bedrock, id } => {
            let port = port_or_default(port, bedrock);
            let key = key_of(&address, port, bedrock);
            if subscriptions.is_subscribed(&key, registry) {
                subscriptions.remove(&key);
                registry.decrement_subscriber(&key);
                let response = Response {
                    id,
                    data: ResponseData::Unsubscribed { unsubscribed: with_port(&address, port) },
                };
                Handling::Leave { key, response }
            } else {
                Handling::Respond {
                    response: Response {
                        id,
                        data: ResponseData::Error {
                            error: "Not subscribed to ".to_owned().concat(&key),
                        },
                    },
                }
            }
        },
    }
}

/// Ends all subscriptions of a client that has gone, for whatever reason. The keys of the servers
/// that it was subscribed to come back, the oldest subscription first.
pub fn disconnect(subscriptions: &mut Subscriptions, registry: &mut PingRegistry) -> (keys: Vec<
    String,
>)
    requires
        distinct(old(subscriptions)@),
    ensures
        final(subscriptions)@ == Seq::<SubscriptionView>::empty(),
        final(registry)@ == released(old(registry)@, old(subscriptions)@),
        views(keys@) == live_keys(old(subscriptions)@, old(registry)@),
{
    let ghost entries = subscriptions@;
    let ghost before = registry@;
    let mut keys: Vec<String> = Vec::new();
    let mut i: usize = 0;
    assert(registry@ =~= released(before, entries.take(0)));
    assert(views(keys@) =~= live_keys(entries.take(0), before));
    while i < subscriptions.entries.len()
        invariant
            subscriptions@ == entries,
            entries.len() == subscriptions.entries@.len(),
            distinct(entries),
            i <= entries.len(),
            views(keys@) == live_keys(entries.take(i as int), before),
            registry@ == released(before, entries.take(i as int)),
        decreases entries.len() - i,
    {
        let key = subscriptions.entries[i].key.clone();
        let number: u64 = subscriptions.entries[i].number;
        let ghost entry = entries[i as int];
        assert(entry == subscriptions.entries@[i as int]@);
        assert(entries.take(i + 1).drop_last() =~= entries.take(i as int));
        proof {
            lemma_released_one_more(before, entries, i as int);
        }
        let lives = match registry.task_number(&key) {
            Some(running) => running == number,
            None => false,
        };
        if lives {
            registry.decrement_subscriber(&key);
            let ghost earlier = keys@;
            keys.push(key);
            assert(views(keys@) =~= views(earlier).push(entry.key));
        }
        i = i + 1;
    }
    assert(entries.take(i as int) =~= entries);
    subscriptions.entries.clear();
    assert(subscriptions@ =~= Seq::empty());
    keys
}

proof fn lemma_released_one_more(registry: RegistryView, entries: Seq<SubscriptionView>, i: int)
    requires
        distinct(entries),
        0 <= i < entries.len(),
    ensures
        released(registry, entries.take(i)).number(entries[i].key) == registry.number(entries[i].key),
        released(registry, entries.take(i + 1)) == if lives(entries[i], registry) {
            released(registry, entries.take(i)).without_subscriber(entries[i].key)
        } else {
            released(registry, entries.take(i))
        },
{
    let before = entries.take(i);
    let after = entries.take(i + 1);
    let last = entries[i];
    assert forall|key: Seq<char>| subscribed(after, registry, key) <==> subscribed(
        before,
        registry,
        key,
    ) || (key == last.key && lives(last, registry)) by {
        if subscribed(after, registry, key) {
            let j = choose|j: int| is_live_entry(after, registry, key, j);
            if j < i {
                assert(is_live_entry(before, registry, key, j));
            }
        }
        if subscribed(before, registry, key) {
            let j = choose|j: int| is_live_entry(before, registry, key, j);
            assert(is_live_entry(after, registry, key, j));
        }
        if key == last.key && lives(last, registry) {
            assert(is_live_entry(after, registry, key, i));
        }
    }
    assert(!subscribed(before, registry, last.key)) by {
        if subscribed(before, registry, last.key) {
            let j = choose|j: int| is_live_entry(before, registry, last.key, j);
            assert(entries[j].key != entries[i].key);
        }
    }
    if lives(last, registry) {
        assert(released(registry, after).tasks =~= released(registry, before).without_subscriber(
            last.key,
        ).tasks);
    } else {
        assert(released(registry, after).tasks =~= released(registry, before).tasks);
    }
}

/// What a client sends.
#[derive(Debug)]
pub enum Incoming {
    Text(String),
    Ping(Vec<u8>),
    Close,
    Other,
}

/// What happens on the connection, apart from updates.
#[derive(Debug)]
pub enum Event {
    /// A message has come.
    Message(Incoming),
    /// The connection has failed.
    Failed,
    /// The connection has ended.
    Ended,
    /// No message has come for `IDLE_TIMEOUT_MILLIS`.
    Idle,
}

/// What an `Incoming` holds.
pub enum IncomingView {
    Text(Seq<char>),
    Ping(Seq<u8>),
    Close,
    Other,
}

impl View for Incoming {
    type V = IncomingView;

    open spec fn view(&self) -> IncomingView {
        match self {
            Incoming::Text(text) => IncomingView::Text(text@),
            Incoming::Ping(data) => IncomingView::Ping(data@),
            Incoming::Close => IncomingView::Close,
            Incoming::Other => IncomingView::Other,
        }
    }
}

/// What an `Event` holds.
pub enum EventView {
    Message(IncomingView),
    Failed,
    Ended,
    Idle,
}

impl View for Event {
    type V = EventView;

    open spec fn view(&self) -> EventView {
        match self {
            Event::Message(message) => EventView::Message(message@),
            Event::Failed => EventView::Failed,
            Event::Ended => EventView::Ended,
            Event::Idle => EventView::Idle,
        }
    }
}

/// What is done about an event.
#[derive(Debug)]
pub enum Action {
    /// Send a text.
    Send(String),
    /// Read a request in the text and process it, or respond with `invalid_request`.
    Process(String),
    /// Send the data back.
    Pong(Vec<u8>),
    /// Nothing.
    Wait,
    /// End all subscriptions and be done.
    Leave,
    /// Say that the connection closes, end all subscriptions and be done.
    Close,
    /// End all subscriptions and report the failure.
    Fail,
}

/// What an `Action` holds.
pub enum ActionView {
    Send(Seq<char>),
    Process(Seq<char>),
    Pong(Seq<u8>),
    Wait,
    Leave,
    Close,
    Fail,
}

impl View for Action {
    type V = ActionView;

    open spec fn view(&self) -> ActionView {
        match self {
            Action::Send(text) => ActionView::Send(text@),
            Action::Process(text) => ActionView::Process(text@),
            Action::Pong(data) => ActionView::Pong(data@),
            Action::Wait => ActionView::Wait,
            Action::Leave => ActionView::Leave,
            Action::Close => ActionView::Close,
            Action::Fail => ActionView::Fail,
        }
    }
}

/// Whether a text only keeps the connection alive: the word "ping" in any case, with white space
/// around it or not.
pub open spec fn is_keepalive(text: Seq<char>) -> bool {
    same_ignoring_ascii_case(trimmed(text), "ping"@)
}

/// What is to be done about an event.
pub open spec fn action_on(event: EventView) -> ActionView {
    match event {
        EventView::Message(IncomingView::Text(text)) => if is_keepalive(text) {
            ActionView::Send("pong"@)
        } else {
            ActionView::Process(text)
        },
        EventView::Message(IncomingView::Ping(data)) => ActionView::Pong(data),
        EventView::Message(IncomingView::Close) => ActionView::Leave,
        EventView::Message(IncomingView::Other) => ActionView::Wait,
        EventView::Failed => ActionView::Fail,
        EventView::Ended => ActionView::Leave,
        EventView::Idle => ActionView::Close,
    }
}

/// What is to be done about an event.
pub fn next_action(event: Event) -> (action: Action)
    ensures
        action@ == action_on(event@),
{
    match event {
        Event::Message(Incoming::Text(text)) => {
            if is_word(&trim(&text), "ping") {
                Action::Send("pong".to_owned())
            } else {
                Action::Process(text)
            }
        },
        Event::Message(Incoming::Ping(data)) => Action::Pong(data),
        Event::Message(Incoming::Close) => Action::Leave,
        Event::Message(Incoming::Other) => Action::Wait,
        Event::Failed => Action::Fail,
        Event::Ended => Action::Leave,
        Event::Idle => Action::Close,
    }
}

/// What goes to a client apart from updates.
pub enum Reply {
    /// This text.
    Text(Seq<char>),
    /// The response to this text, which asks for something or is no request.
    ResponseTo(Seq<char>),
    /// This data.
    Pong(Seq<u8>),
    /// That the connection closes.
    Closing,
}

/// What goes to the client over a row of events, when `action_on` is done about each of them until
/// it says to be done.
pub open spec fn sent_over(events: Seq<EventView>) -> Seq<Reply>
    decreases events.len(),
{
    if events.len() == 0 {
        Seq::empty()
    } else {
        let rest = sent_over(events.skip(1));
        match action_on(events[0]) {
            ActionView::Send(text) => seq![Reply::Text(text)] + rest,
            ActionView::Process(text) => seq![Reply::ResponseTo(text)] + rest,
            ActionView::Pong(data) => seq![Reply::Pong(data)] + rest,
            ActionView::Wait => rest,
            ActionView::Leave => Seq::empty(),
            ActionView::Close => seq![Reply::Closing],
            ActionView::Fail => Seq::empty(),
        }
    }
}

/// The reply to one message: "pong" to the word that keeps the connection alive, the response to
/// any other text, the same data to a ping, and none to anything else.
pub open spec fn reply_to(message: IncomingView) -> Option<Reply> {
    match message {
        IncomingView::Text(text) => if is_keepalive(text) {
            Some(Reply::Text("pong"@))
        } else {
            Some(Reply::ResponseTo(text))
        },
        IncomingView::Ping(data) => Some(Reply::Pong(data)),
        IncomingView::Close => None,
        IncomingView::Other => None,
    }
}

/// The replies to a row of messages, in their order.
pub open spec fn replies_to(messages: Seq<IncomingView>) -> Seq<Reply>
    decreases messages.len(),
{
    if messages.len() == 0 {
        Seq::empty()
    } else {
        let before = replies_to(messages.drop_last());
        match reply_to(messages.last()) {
            Some(reply) => before.push(reply),
            None => before,
        }
    }
}

/// The events that a row of messages makes.
pub open spec fn as_events(messages: Seq<IncomingView>) -> Seq<EventView> {
    messages.map_values(|message: IncomingView| EventView::Message(message))
}

proof fn lemma_messages_first(messages: Seq<IncomingView>, rest: Seq<EventView>)
    requires
        forall|i: int| 0 <= i < messages.len() ==> !(#[trigger] messages[i] is Close),
    ensures
        sent_over(as_events(messages) + rest) == replies_to(messages) + sent_over(rest),
    decreases messages.len(),
{
    if messages.len() == 0 {
        assert(as_events(messages) + rest =~= rest);
    } else {
        let before = messages.drop_last();
        let last = messages.last();
        let tail = seq![EventView::Message(last)] + rest;
        assert(as_events(messages) + rest =~= as_events(before) + tail);
        assert forall|i: int| 0 <= i < before.len() implies !(#[trigger] before[i] is Close) by {
            assert(!(messages[i] is Close));
        }
        lemma_messages_first(before, tail);
        assert(!(messages[messages.len() - 1] is Close));
        assert(tail.skip(1) =~= rest);
        assert(sent_over(as_events(messages) + rest) =~= replies_to(messages) + sent_over(rest));
    }
}

/// A client that sends messages and then closes gets, in their order, one reply to each text and
/// to each ping among them, and nothing else; nothing is sent after the closing message, whatever
/// comes then. The same holds where the connection ends or fails; where the client falls silent, it
/// is told last that the connection closes.
pub proof fn law_messages_are_answered_in_order(
    messages: Seq<IncomingView>,
    ending: EventView,
    more: Seq<EventView>,
)
    requires
        forall|i: int| 0 <= i < messages.len() ==> !(#[trigger] messages[i] is Close),
        ending is Message ==> ending->Message_0 is Close,
    ensures
        sent_over((as_events(messages) + seq![ending]) + more) == if ending is Idle {
            replies_to(messages).push(Reply::Closing)
        } else {
            replies_to(messages)
        },
{
    let tail = seq![ending] + more;
    assert((as_events(messages) + seq![ending]) + more =~= as_events(messages) + tail);
    lemma_messages_first(messages, tail);
    assert(sent_over(tail) =~= if ending is Idle {
        seq![Reply::Closing]
    } else {
        Seq::empty()
    });
    assert(replies_to(messages) + Seq::<Reply>::empty() =~= replies_to(messages));
    assert(replies_to(messages) + seq![Reply::Closing] =~= replies_to(messages).push(
        Reply::Closing,
    ));
}

/// The milliseconds that the client may still be silent.
pub open spec fn silence_left(now: u64, last_message: u64) -> int {
    if now - last_message < IDLE_TIMEOUT_MILLIS {
        IDLE_TIMEOUT_MILLIS - (now - last_message)
    } else {
        0
    }
}

/// The milliseconds that the client may still be silent, at the time `now` and with its last
/// message at the time `last_message`.
pub fn idle_left(now: u64, last_message: u64) -> (left: u64)
    requires
        last_message <= now,
    ensures
        left == silence_left(now, last_message),
        left == if now - last_message < IDLE_TIMEOUT_MILLIS {
            IDLE_TIMEOUT_MILLIS - (now - last_message)
        } else {
            0
        },
{
    IDLE_TIMEOUT_MILLIS.saturating_sub(now - last_message)
}

/// The time of the client's last message after an event at the time `now`.
pub open spec fn last_heard(event: EventView, now: u64, last_message: u64) -> u64 {
    match event {
        EventView::Message(_) => now,
        _ => last_message,
    }
}

/// The time of the client's last message after an event at the time `now`: only a message counts,
/// of whatever kind.
pub fn heard(event: &Event, now: u64, last_message: u64) -> (last: u64)
    ensures
        last == last_heard(event@, now, last_message),
        last == if event is Message {
            now
        } else {
            last_message
        },
{
    match event {
        Event::Message(_) => now,
        Event::Failed | Event::Ended | Event::Idle => last_message,
    }
}

/// What a subscription had when it was asked for an update.
#[derive(Debug)]
pub enum PollOutcome {
    /// An update.
    Update(LatencyUpdate),
    /// Nothing new.
    Empty,
    /// Nothing yet, for updates have been missed.
    Lagged,
    /// Nothing any more, for the task has stopped.
    Closed,
}

/// What is done next to find an update.
#[derive(Debug)]
pub enum PollStep {
    /// There are no subscriptions: wait for the client.
    Idle,
    /// Ask the subscription at this position for an update.
    Ask { position: usize },
    /// Tell the client.
    Deliver { response: Response },
    /// Nothing was new: pause for `POLL_PAUSE_MILLIS`.
    Pause,
}

/// What a `PollOutcome` holds.
pub enum PollOutcomeView {
    Update(UpdateView),
    Empty,
    Lagged,
    Closed,
}

impl View for PollOutcome {
    type V = PollOutcomeView;

    open spec fn view(&self) -> PollOutcomeView {
        match self {
            PollOutcome::Update(update) => PollOutcomeView::Update(update@),
            PollOutcome::Empty => PollOutcomeView::Empty,
            PollOutcome::Lagged => PollOutcomeView::Lagged,
            PollOutcome::Closed => PollOutcomeView::Closed,
        }
    }
}

/// What a `PollStep` holds.
pub enum PollStepView {
    Idle,
    Ask { position: int },
    Deliver { response: ResponseView },
    Pause,
}

impl View for PollStep {
    type V = PollStepView;

    open spec fn view(&self) -> PollStepView {
        match self {
            PollStep::Idle => PollStepView::Idle,
            PollStep::Ask { position } => PollStepView::Ask { position: *position as int },
            PollStep::Deliver { response } => PollStepView::Deliver { response: response@ },
            PollStep::Pause => PollStepView::Pause,
        }
    }
}

/// The first step to find an update for a client with these subscriptions.
pub open spec fn first_poll_step(entries: Seq<SubscriptionView>) -> PollStepView {
    if entries.len() == 0 {
        PollStepView::Idle
    } else {
        PollStepView::Ask { position: 0 }
    }
}

/// The step after the subscription at `position` has been asked.
pub open spec fn next_poll_step(
    entries: Seq<SubscriptionView>,
    position: int,
    outcome: PollOutcomeView,
) -> PollStepView {
    match outcome {
        PollOutcomeView::Update(update) => PollStepView::Deliver {
            response: ResponseView {
                id: entries[position].id,
                data: ResponseDataView::Latency { update },
            },
        },
        _ => if position + 1 < entries.len() {
            PollStepView::Ask { position: position + 1 }
        } else {
            PollStepView::Pause
        },
    }
}

/// Where a poll ends that has come to `step`, when `outcomes[i]` is what the subscription at `i`
/// has.
pub open spec fn poll_from(
    entries: Seq<SubscriptionView>,
    outcomes: Seq<PollOutcomeView>,
    step: PollStepView,
) -> PollStepView
    decreases
            (match step {
                PollStepView::Ask { position } => entries.len() - position,
                _ => 0,
            }),
{
    match step {
        PollStepView::Ask { position } => if 0 <= position < entries.len() {
            poll_from(entries, outcomes, next_poll_step(entries, position, outcomes[position]))
        } else {
            step
        },
        _ => step,
    }
}

/// Where a whole poll ends, when `outcomes[i]` is what the subscription at `i` has.
pub open spec fn polled_through(
    entries: Seq<SubscriptionView>,
    outcomes: Seq<PollOutcomeView>,
) -> PollStepView {
    poll_from(entries, outcomes, first_poll_step(entries))
}

/// The key of the server that the subscription at `position` is to, where there is one.
pub open spec fn key_of_entry(entries: Seq<SubscriptionView>, position: int) -> Option<Seq<char>> {
    if 0 <= position < entries.len() {
        Some(entries[position].key)
    } else {
        None
    }
}

impl Subscriptions {
    /// The key of the server that the subscription at `position` is to, where there is one.
    pub fn key_at(&self, position: usize) -> (key: Option<&String>)
        ensures
            match key {
                Some(key) => key_of_entry(self@, position as int) == Some(key@),
                None => key_of_entry(self@, position as int) is None,
            },
            match key {
                Some(key) => position < self@.len() && key@ == self@[position as int].key,
                None => position >= self@.len(),
            },
    {
        if position < self.entries.len() {
            Some(&self.entries[position].key)
        } else {
            None
        }
    }

    /// Begins to look for an update.
    pub fn poll(&self) -> (step: PollStep)
        ensures
            step@ == first_poll_step(self@),
    {
        if self.entries.len() == 0 {
            PollStep::Idle
        } else {
            PollStep::Ask { position: 0 }
        }
    }

    /// The first update that is found goes to the client, with the mark of its subscription.
    /// Without one the next subscription is asked, until there is none left; one whose task has
    /// stopped is passed over like one that has nothing new.
    pub fn polled(&self, position: usize, outcome: PollOutcome) -> (step: PollStep)
        requires
            position < self@.len(),
        ensures
            step@ == next_poll_step(self@, position as int, outcome@),
    {
        assert(self@.len() == self.entries@.len());
        match outcome {
            PollOutcome::Update(update) => {
                let id = self.entries[position].id.clone();
                PollStep::Deliver { response: Response { id, data: ResponseData::Latency { update } } }
            },
            PollOutcome::Empty | PollOutcome::Lagged | PollOutcome::Closed => {
                if self.entries.len() - position > 1 {
                    PollStep::Ask { position: position + 1 }
                } else {
                    PollStep::Pause
                }
            },
        }
    }
}

impl HandlingView {
    /// The mark that the response to a request carries, whether it is there already or comes
    /// after a ping.
    pub open spec fn mark(self) -> Option<Seq<char>> {
        match self {
            HandlingView::Respond { response } => response.id,
            HandlingView::Ping { id, .. } => id,
            HandlingView::Join { response, .. } => response.id,
            HandlingView::Start { response, .. } => response.id,
            HandlingView::Leave { response, .. } => response.id,
        }
    }
}

proof fn lemma_poll_passes_over(
    entries: Seq<SubscriptionView>,
    outcomes: Seq<PollOutcomeView>,
    position: int,
    end: int,
)
    requires
        0 <= position <= end < entries.len(),
        forall|j: int| position <= j < end ==> !(#[trigger] outcomes[j] is Update),
    ensures
        poll_from(entries, outcomes, (PollStepView::Ask { position })) == poll_from(
            entries,
            outcomes,
            (PollStepView::Ask { position: end }),
        ),
    decreases end - position,
{
    if position < end {
        assert(!(outcomes[position] is Update));
        lemma_poll_passes_over(entries, outcomes, position + 1, end);
    }
}

/// A poll delivers the first update that any subscription has, with the mark of that subscription,
/// whatever subscriptions without one stand before it: nothing new, updates missed, or stopped.
pub proof fn law_first_update_is_delivered(
    entries: Seq<SubscriptionView>,
    outcomes: Seq<PollOutcomeView>,
    i: int,
)
    requires
        outcomes.len() == entries.len(),
        0 <= i < entries.len(),
        outcomes[i] is Update,
        forall|j: int| 0 <= j < i ==> !(#[trigger] outcomes[j] is Update),
    ensures
        polled_through(entries, outcomes) == (PollStepView::Deliver {
            response: ResponseView {
                id: entries[i].id,
                data: ResponseDataView::Latency { update: outcomes[i]->Update_0 },
            },
        }),
{
    lemma_poll_passes_over(entries, outcomes, 0, i);
    reveal_with_fuel(poll_from, 2);
}

/// A poll pauses only after every subscription has been asked and none had an update; without
/// subscriptions there is nobody to ask.
pub proof fn law_poll_without_update(
    entries: Seq<SubscriptionView>,
    outcomes: Seq<PollOutcomeView>,
)
    requires
        outcomes.len() == entries.len(),
        forall|j: int| 0 <= j < outcomes.len() ==> !(#[trigger] outcomes[j] is Update),
    ensures
        polled_through(entries, outcomes) == if entries.len() == 0 {
            PollStepView::Idle
        } else {
            PollStepView::Pause
        },
{
    reveal_with_fuel(poll_from, 2);
    if entries.len() > 0 {
        let last = entries.len() - 1;
        lemma_poll_passes_over(entries, outcomes, 0, last);
        assert(!(outcomes[last] is Update));
    }
}

/// Every response carries the mark of its request, and so does the subscription that a request
/// has made.
pub proof fn law_mark_is_echoed(
    request: Request,
    entries: Seq<SubscriptionView>,
    registry: RegistryView,
)
    ensures
        ({
            let (handling, now, _) = handled(request, entries, registry);
            &&& handling.mark() == request.mark()
            &&& handling is Join || handling is Start ==> now.last().id == request.mark()
        }),
{
}

/// A request that is refused changes neither the client's subscriptions nor the tasks.
pub proof fn law_refusal_changes_nothing(
    request: Request,
    entries: Seq<SubscriptionView>,
    registry: RegistryView,
)
    requires
        handled(request, entries, registry).0 is Respond,
    ensures
        handled(request, entries, registry).1 == entries,
        handled(request, entries, registry).2 == registry,
{
}

/// A client that is subscribed to a server and subscribes to it again is refused, however many
/// subscribers there are; its subscriptions and all counts stay as they were.
pub proof fn law_second_subscription_is_refused(
    address: String,
    port: Option<u16>,
    bedrock: bool,
    srv_prefix: Option<String>,
    id: Option<String>,
    entries: Seq<SubscriptionView>,
    registry: RegistryView,
)
    requires
        subscribed(entries, registry, server_key(address@, port_meant(port, bedrock), bedrock)),
    ensures
        ({
            let request = Request::Subscribe { address, port, bedrock, srv_prefix, id };
            let key = server_key(address@, port_meant(port, bedrock), bedrock);
            &&& has_room(request, entries, registry)
            &&& handled(request, entries, registry) == (
                refusal(option_view(id), "Already subscribed to "@ + key),
                entries,
                registry,
            )
        }),
{
}

/// A client whose subscription to a server has ended may subscribe to it again, and is subscribed
/// then.
pub proof fn law_ended_subscription_gives_way(
    address: String,
    port: Option<u16>,
    bedrock: bool,
    srv_prefix: Option<String>,
    id: Option<String>,
    entries: Seq<SubscriptionView>,
    registry: RegistryView,
)
    requires
        !subscribed(entries, registry, server_key(address@, port_meant(port, bedrock), bedrock)),
    ensures
        ({
            let request = Request::Subscribe { address, port, bedrock, srv_prefix, id };
            let key = server_key(address@, port_meant(port, bedrock), bedrock);
            let (handling, now, registry_now) = handled(request, entries, registry);
            &&& handling is Join || handling is Start
            &&& subscribed(now, registry_now, key)
        }),
{
    let request = Request::Subscribe { address, port, bedrock, srv_prefix, id };
    let key = server_key(address@, port_meant(port, bedrock), bedrock);
    let (_, now, registry_now) = handled(request, entries, registry);
    assert(is_live_entry(now, registry_now, key, now.len() - 1));
}

/// A client that subscribes to a server and at once unsubscribes from it has the subscriptions
/// that it had, but for an ended one to that server, and a task that ran has the subscribers that
/// it had; a task that was started has none.
pub proof fn law_unsubscribe_undoes_subscribe(
    address: String,
    port: Option<u16>,
    bedrock: bool,
    srv_prefix: Option<String>,
    first_id: Option<String>,
    second_id: Option<String>,
    entries: Seq<SubscriptionView>,
    registry: RegistryView,
)
    requires
        distinct(entries),
        has_room(
            (Request::Subscribe { address, port, bedrock, srv_prefix, id: first_id }),
            entries,
            registry,
        ),
    ensures
        ({
            let key = server_key(address@, port_meant(port, bedrock), bedrock);
            let (first, entries1, registry1) = handled(
                (Request::Subscribe { address, port, bedrock, srv_prefix, id: first_id }),
                entries,
                registry,
            );
            let (second, entries2, registry2) = handled(
                (Request::Unsubscribe { address, port, bedrock, id: second_id }),
                entries1,
                registry1,
            );
            !(first is Respond) ==> {
                &&& second is Leave
                &&& entries2 == without_entry(entries, key)
                &&& registry2 == if registry.tasks.contains_key(key) {
                    registry
                } else {
                    RegistryView {
                        tasks: registry.tasks.insert(
                            key,
                            SharedPingTask { number: registry.started, subscriber_count: 0 },
                        ),
                        started: (registry.started + 1) as u64,
                    }
                }
            }
        }),
{
    let key = server_key(address@, port_meant(port, bedrock), bedrock);
    let (first, entries1, registry1) = handled(
        (Request::Subscribe { address, port, bedrock, srv_prefix, id: first_id }),
        entries,
        registry,
    );
    if !(first is Respond) {
        let rest = without_entry(entries, key);
        let n = rest.len() as int;
        lemma_without_entry(entries, registry, key, key);
        assert(is_live_entry(entries1, registry1, key, n));
        assert forall|i: int| is_entry(entries1, key, i) implies i == n by {
            if i < n {
                assert(is_entry(rest, key, i));
            }
        }
        assert(is_entry(entries1, key, n));
        assert(entries1.remove(n) =~= rest);
        let undone = registry1.without_subscriber(key);
        if registry.tasks.contains_key(key) {
            assert(undone.tasks =~= registry.tasks);
        } else {
            assert(undone.tasks =~= registry.tasks.insert(
                key,
                SharedPingTask { number: registry.started, subscriber_count: 0 },
            ));
        }
    }
}

/// A client is subscribed to a server where it has an entry for it that bears the number of the task
/// that runs for that server.
pub proof fn law_who_is_subscribed(
    entries: Seq<SubscriptionView>,
    registry: RegistryView,
    key: Seq<char>,
)
    ensures
        subscribed(entries, registry, key) <==> registry.tasks.contains_key(key) && exists|i: int|
            0 <= i < entries.len() && (#[trigger] entries[i]).key == key && entries[i].number
                == registry.tasks[key].number,
{
    if subscribed(entries, registry, key) {
        let i = choose|i: int| is_live_entry(entries, registry, key, i);
        assert(is_live_entry(entries, registry, key, i));
        assert(entries[i].key == key);
    }
    if registry.tasks.contains_key(key) && exists|i: int|
        0 <= i < entries.len() && (#[trigger] entries[i]).key == key && entries[i].number
            == registry.tasks[key].number {
        let i = choose|i: int|
            0 <= i < entries.len() && (#[trigger] entries[i]).key == key && entries[i].number
                == registry.tasks[key].number;
        assert(is_live_entry(entries, registry, key, i));
    }
}

/// What is pinged for a ping request is what the request names: its address, its own edition, its
/// port where it names one and the usual one of the edition otherwise, and its prefix likewise.
/// Neither subscriptions nor tasks change.
pub proof fn law_ping_request_is_what_is_pinged(
    address: String,
    port: Option<u16>,
    bedrock: bool,
    srv_prefix: Option<String>,
    id: Option<String>,
    entries: Seq<SubscriptionView>,
    registry: RegistryView,
)
    ensures
        ({
            let request = Request::Ping { address, port, bedrock, srv_prefix, id };
            let (handling, entries_now, registry_now) = handled(request, entries, registry);
            &&& handling is Ping
            &&& handling->address == address@
            &&& handling->bedrock == bedrock
            &&& port matches Some(named) ==> handling->port == named
            &&& port is None && bedrock ==> handling->port == 19132
            &&& port is None && !bedrock ==> handling->port == 25565
            &&& srv_prefix matches Some(named) ==> handling->srv_prefix == named@
            &&& srv_prefix is None ==> handling->srv_prefix == "_minecraft._tcp"@
            &&& handling->id == option_view(id)
            &&& entries_now == entries
            &&& registry_now == registry
        }),
{
}

/// Whether `now` is what is left of `entries` without those for the server `key`: all others, as
/// they were and in their order.
pub open spec fn leaves_only_others(
    entries: Seq<SubscriptionView>,
    now: Seq<SubscriptionView>,
    key: Seq<char>,
) -> bool {
    now == entries.filter(|entry: SubscriptionView| entry.key != key)
}

proof fn lemma_filter_without(entries: Seq<SubscriptionView>, key: Seq<char>)
    requires
        forall|i: int| 0 <= i < entries.len() ==> (#[trigger] entries[i]).key != key,
    ensures
        entries.filter(|entry: SubscriptionView| entry.key != key) == entries,
    decreases entries.len(),
{
    reveal(Seq::filter);
    if entries.len() > 0 {
        let before = entries.drop_last();
        assert forall|i: int| 0 <= i < before.len() implies (#[trigger] before[i]).key != key by {
            assert(entries[i].key != key);
        }
        assert(entries[entries.len() - 1].key != key);
        lemma_filter_without(before, key);
        assert(before.push(entries.last()) =~= entries);
    }
}

proof fn lemma_filter_one(entries: Seq<SubscriptionView>, key: Seq<char>, gone: int)
    requires
        distinct(entries),
        is_entry(entries, key, gone),
    ensures
        entries.filter(|entry: SubscriptionView| entry.key != key) == entries.remove(gone),
    decreases entries.len(),
{
    reveal(Seq::filter);
    let before = entries.drop_last();
    if gone == entries.len() - 1 {
        assert forall|i: int| 0 <= i < before.len() implies (#[trigger] before[i]).key != key by {
            assert(entries[i].key != entries[gone].key);
        }
        lemma_filter_without(before, key);
        assert(entries.remove(gone) =~= before);
    } else {
        assert(is_entry(before, key, gone));
        lemma_filter_one(before, key, gone);
        assert(entries[gone].key != entries[entries.len() - 1].key);
        assert(entries.remove(gone) =~= before.remove(gone).push(entries.last()));
    }
}

proof fn lemma_without_entry_filters(entries: Seq<SubscriptionView>, key: Seq<char>)
    requires
        distinct(entries),
    ensures
        leaves_only_others(entries, without_entry(entries, key), key),
{
    if has_entry(entries, key) {
        let gone = choose|i: int| is_entry(entries, key, i);
        assert(is_entry(entries, key, gone));
        lemma_only_entry(entries, key, gone);
        lemma_filter_one(entries, key, gone);
    } else {
        assert forall|i: int| 0 <= i < entries.len() implies (#[trigger] entries[i]).key != key by {
            assert(!is_entry(entries, key, i));
        }
        lemma_filter_without(entries, key);
    }
}

/// What comes of a request to subscribe. A client that is subscribed already is refused. Any other
/// one is counted, gets the newest of its entries for the server, with its own mark and the number
/// of the task, and is told so. A task is started exactly where none runs, and is one for the server
/// that the request names, known by the key under which the subscriber is counted.
pub proof fn law_subscribe_request(
    address: String,
    port: Option<u16>,
    bedrock: bool,
    srv_prefix: Option<String>,
    id: Option<String>,
    entries: Seq<SubscriptionView>,
    registry: RegistryView,
    other: Seq<char>,
)
    requires
        distinct(entries),
        has_room(
            (Request::Subscribe { address, port, bedrock, srv_prefix, id }),
            entries,
            registry,
        ),
    ensures
        ({
            let request = Request::Subscribe { address, port, bedrock, srv_prefix, id };
            let (handling, now, registry_now) = handled(request, entries, registry);
            let meant: u16 = if port is Some {
                port->0
            } else if bedrock {
                19132
            } else {
                25565
            };
            let name = address@ + ":"@ + decimal(meant as nat);
            let key = name + ":"@ + if bedrock {
                "true"@
            } else {
                "false"@
            };
            if subscribed(entries, registry, key) {
                &&& handling is Respond
                &&& handling->Respond_response.id == option_view(id)
                &&& handling->Respond_response.data == (ResponseDataView::Error {
                    error: "Already subscribed to "@ + key,
                })
                &&& now == entries
                &&& registry_now == registry
            } else {
                &&& registry.tasks.contains_key(key) ==> {
                    &&& handling is Join
                    &&& handling->Join_key == key
                    &&& handling->Join_response.id == option_view(id)
                    &&& handling->Join_response.data == (ResponseDataView::Subscribed {
                        subscribed: name,
                    })
                    &&& registry_now.tasks[key].number == registry.tasks[key].number
                    &&& registry_now.tasks[key].subscriber_count
                        == registry.tasks[key].subscriber_count + 1
                    &&& registry_now.started == registry.started
                }
                &&& !registry.tasks.contains_key(key) ==> {
                    let task = handling->task;
                    &&& handling is Start
                    &&& handling->Start_key == key
                    &&& handling->Start_response.id == option_view(id)
                    &&& handling->Start_response.data == (ResponseDataView::Subscribed {
                        subscribed: name,
                    })
                    &&& task.address == address@
                    &&& task.port == meant
                    &&& task.bedrock == bedrock
                    &&& srv_prefix is Some ==> task.srv_prefix == srv_prefix->0@
                    &&& srv_prefix is None ==> task.srv_prefix == "_minecraft._tcp"@
                    &&& task.consecutive_errors == 0
                    &&& server_key(task.address, task.port, task.bedrock) == key
                    &&& registry_now.tasks[key].number == registry.started
                    &&& registry_now.tasks[key].subscriber_count == 1
                    &&& registry_now.started == registry.started + 1
                }
                &&& registry_now.tasks.contains_key(key)
                &&& other != key ==> registry_now.tasks.get(other) == registry.tasks.get(other)
                &&& now.len() > 0
                &&& now.last().key == key
                &&& now.last().id == option_view(id)
                &&& now.last().number == registry_now.tasks[key].number
                &&& leaves_only_others(entries, now.drop_last(), key)
            }
        }),
{
    let request = Request::Subscribe { address, port, bedrock, srv_prefix, id };
    let key = server_key(address@, port_meant(port, bedrock), bedrock);
    let (_, now, _) = handled(request, entries, registry);
    lemma_without_entry_filters(entries, key);
    if !subscribed(entries, registry, key) {
        assert(now.drop_last() =~= without_entry(entries, key));
    }
}

/// What comes of a request to unsubscribe. A client that is subscribed loses its entry for the
/// server, is counted no more and told so; any other one is refused.
pub proof fn law_unsubscribe_request(
    address: String,
    port: Option<u16>,
    bedrock: bool,
    id: Option<String>,
    entries: Seq<SubscriptionView>,
    registry: RegistryView,
    other: Seq<char>,
)
    requires
        distinct(entries),
    ensures
        ({
            let request = Request::Unsubscribe { address, port, bedrock, id };
            let (handling, now, registry_now) = handled(request, entries, registry);
            let meant: u16 = if port is Some {
                port->0
            } else if bedrock {
                19132
            } else {
                25565
            };
            let name = address@ + ":"@ + decimal(meant as nat);
            let key = name + ":"@ + if bedrock {
                "true"@
            } else {
                "false"@
            };
            if subscribed(entries, registry, key) {
                let (count, count_now) = (
                    registry.tasks[key].subscriber_count,
                    registry_now.tasks[key].subscriber_count,
                );
                &&& handling is Leave
                &&& handling->Leave_key == key
                &&& handling->Leave_response.id == option_view(id)
                &&& handling->Leave_response.data == (ResponseDataView::Unsubscribed {
                    unsubscribed: name,
                })
                &&& leaves_only_others(entries, now, key)
                &&& registry_now.tasks.contains_key(key)
                &&& registry_now.tasks[key].number == registry.tasks[key].number
                &&& count > 0 ==> count_now == count - 1
                &&& count == 0 ==> count_now == 0
                &&& other != key ==> registry_now.tasks.get(other) == registry.tasks.get(other)
                &&& registry_now.started == registry.started
            } else {
                &&& handling is Respond
                &&& handling->Respond_response.id == option_view(id)
                &&& handling->Respond_response.data == (ResponseDataView::Error {
                    error: "Not subscribed to "@ + key,
                })
                &&& now == entries
                &&& registry_now == registry
            }
        }),
{
    let key = server_key(address@, port_meant(port, bedrock), bedrock);
    lemma_without_entry_filters(entries, key);
    law_who_is_subscribed(entries, registry, key);
}

/// Room is lacking only for a request to subscribe that would be counted: where the count of the
/// server's task, or the number of tasks where one has to be started, is at the limit.
pub proof fn law_room(request: Request, entries: Seq<SubscriptionView>, registry: RegistryView)
    ensures
        !(request is Subscribe) ==> has_room(request, entries, registry),
        request is Subscribe ==> {
            let key = server_key(
                request->Subscribe_address@,
                port_meant(request->Subscribe_port, request->Subscribe_bedrock),
                request->Subscribe_bedrock,
            );
            has_room(request, entries, registry) <==> {
                ||| subscribed(entries, registry, key)
                ||| registry.tasks.contains_key(key) && registry.tasks[key].subscriber_count
                    < usize::MAX
                ||| !registry.tasks.contains_key(key) && registry.started < u64::MAX
            }
        },
{
}

/// When a client has gone, each task that it was subscribed to has one subscriber less, and nothing
/// else of any task has changed.
pub proof fn law_gone_client(
    entries: Seq<SubscriptionView>,
    registry: RegistryView,
    key: Seq<char>,
)
    ensures
        ({
            let now = released(registry, entries);
            &&& now.started == registry.started
            &&& now.tasks.contains_key(key) <==> registry.tasks.contains_key(key)
            &&& registry.tasks.contains_key(key) ==> {
                let (count, count_now) = (
                    registry.tasks[key].subscriber_count,
                    now.tasks[key].subscriber_count,
                );
                &&& now.tasks[key].number == registry.tasks[key].number
                &&& subscribed(entries, registry, key) && count > 0 ==> count_now == count - 1
                &&& !subscribed(entries, registry, key) || count == 0 ==> count_now == count
            }
        }),
        live_keys(entries, registry).contains(key) <==> subscribed(entries, registry, key),
{
    lemma_live_keys(entries, registry, key);
}

proof fn lemma_live_keys(entries: Seq<SubscriptionView>, registry: RegistryView, key: Seq<char>)
    ensures
        live_keys(entries, registry).contains(key) <==> subscribed(entries, registry, key),
    decreases entries.len(),
{
    let keys = live_keys(entries, registry);
    if entries.len() > 0 {
        let before = entries.drop_last();
        let keys_before = live_keys(before, registry);
        lemma_live_keys(before, registry, key);
        let last = entries.len() - 1;
        if subscribed(before, registry, key) {
            let i = choose|i: int| is_live_entry(before, registry, key, i);
            assert(is_live_entry(entries, registry, key, i));
            let j = choose|j: int| 0 <= j < keys_before.len() && keys_before[j] == key;
            assert(keys[j] == key);
        }
        if lives(entries[last], registry) && entries[last].key == key {
            assert(is_live_entry(entries, registry, key, last));
            assert(keys[keys.len() - 1] == key);
        }
        if subscribed(entries, registry, key) {
            let i = choose|i: int| is_live_entry(entries, registry, key, i);
            if i < last {
                assert(is_live_entry(before, registry, key, i));
            }
        }
        if keys.contains(key) {
            let j = choose|j: int| 0 <= j < keys.len() && keys[j] == key;
            if j < keys_before.len() {
                assert(keys_before[j] == key);
            }
        }
    } else if subscribed(entries, registry, key) {
        let i = choose|i: int| is_live_entry(entries, registry, key, i);
        assert(is_live_entry(entries, registry, key, i));
    }
}

/// A text keeps the connection alive where it is, between white space at its two ends or none, the
/// four letters of "ping", each of them small or capital.
pub proof fn law_keepalive(text: Seq<char>)
    ensures
        is_keepalive(text) <==> exists|from: int| #[trigger] is_ping_at(text, from),
{
    reveal_strlit("ping");
    let word = trimmed(text);
    let n = law_trimmed(text);
    law_same_but_for_case(word, "ping"@);
    if is_keepalive(text) {
        assert(word[0] == text[n] && word[1] == text[n + 1]);
        assert(word[2] == text[n + 2] && word[3] == text[n + 3]);
        assert(is_ping_at(text, n));
    }
    if exists|from: int| #[trigger] is_ping_at(text, from) {
        let from = choose|from: int| #[trigger] is_ping_at(text, from);
        assert(!is_white_space(text[from]));
        assert(!is_white_space(text[from + 3]));
        assert(n <= from) by {
            if from < n {
                assert(is_white_space(text[from]));
            }
        }
        let end = n + word.len();
        assert(from + 3 < end) by {
            if end <= from + 3 {
                assert(is_white_space(text[from + 3]));
            }
        }
        assert(from <= n) by {
            if n < from {
                assert(is_white_space(text[n]));
                assert(word[0] == text[n]);
            }
        }
        assert(end <= from + 4) by {
            if from + 4 < end {
                assert(is_white_space(text[end - 1]));
                assert(word.last() == text[end - 1]);
            }
        }
        assert(word.len() == 4);
        assert(word[0] == text[n] && word[1] == text[n + 1]);
        assert(word[2] == text[n + 2] && word[3] == text[n + 3]);
    }
}

/// Whether the letters of "ping", small or capital, stand at `from`, and only white space before and
/// behind them.
pub open spec fn is_ping_at(text: Seq<char>, from: int) -> bool {
    &&& 0 <= from <= text.len() - 4
    &&& text[from] == 'p' || text[from] == 'P'
    &&& text[from + 1] == 'i' || text[from + 1] == 'I'
    &&& text[from + 2] == 'n' || text[from + 2] == 'N'
    &&& text[from + 3] == 'g' || text[from + 3] == 'G'
    &&& forall|i: int| 0 <= i < from ==> is_white_space(#[trigger] text[i])
    &&& forall|i: int| from + 4 <= i < text.len() ==> is_white_space(#[trigger] text[i])
}

/// What one event makes of what is sent, whatever comes after it: a text that keeps the connection
/// alive is answered with "pong" and any other one with the response to it, a ping with its own data,
/// and the rest goes on; a close, an end and a failure send nothing any more, and silence only says
/// that the connection closes.
pub proof fn law_one_event(text: Seq<char>, data: Seq<u8>, rest: Seq<EventView>)
    ensures
        sent_over(seq![EventView::Message(IncomingView::Text(text))] + rest) == if exists|from: int|
            #[trigger] is_ping_at(text, from) {
            seq![Reply::Text("pong"@)] + sent_over(rest)
        } else {
            seq![Reply::ResponseTo(text)] + sent_over(rest)
        },
        sent_over(seq![EventView::Message(IncomingView::Ping(data))] + rest) == seq![
            Reply::Pong(data),
        ] + sent_over(rest),
        sent_over(seq![EventView::Message(IncomingView::Other)] + rest) == sent_over(rest),
        sent_over(seq![EventView::Message(IncomingView::Close)] + rest) == Seq::<Reply>::empty(),
        sent_over(seq![EventView::Ended] + rest) == Seq::<Reply>::empty(),
        sent_over(seq![EventView::Failed] + rest) == Seq::<Reply>::empty(),
        sent_over(seq![EventView::Idle] + rest) == seq![Reply::Closing],
{
    law_keepalive(text);
    assert((seq![EventView::Message(IncomingView::Text(text))] + rest).skip(1) =~= rest);
    assert((seq![EventView::Message(IncomingView::Ping(data))] + rest).skip(1) =~= rest);
    assert((seq![EventView::Message(IncomingView::Other)] + rest).skip(1) =~= rest);
    assert((seq![EventView::Message(IncomingView::Close)] + rest).skip(1) =~= rest);
}

/// A failed connection is reported as failed, and only such a one; it ends by itself in no other way
/// than by the client's close, its end, or silence.
pub proof fn law_endings(event: EventView)
    ensures
        action_on(event) is Fail <==> event is Failed,
        action_on(event) is Close <==> event is Idle,
        action_on(event) is Leave <==> event is Ended || event == EventView::Message(
            IncomingView::Close,
        ),
{
}

/// A client may be silent for three minutes in all, however long it has been already; then no time
/// is left.
pub proof fn law_three_minutes(now: u64, last_message: u64)
    requires
        last_message <= now,
    ensures
        now - last_message <= 180000 ==> silence_left(now, last_message) + (now - last_message)
            == 180000,
        silence_left(now, last_message) == 0 <==> now - last_message >= 180000,
{
}

/// The time of the last message moves with every message, of whatever kind, and with nothing else.
pub proof fn law_last_message(event: EventView, message: IncomingView, now: u64, last_message: u64)
    ensures
        last_heard(EventView::Message(message), now, last_message) == now,
        !(event is Message) ==> last_heard(event, now, last_message) == last_message,
{
}

/// A poll asks the oldest subscription first, and each one behind it in turn.
pub proof fn law_poll_order(
    entries: Seq<SubscriptionView>,
    position: int,
    outcome: PollOutcomeView,
)
    ensures
        entries.len() > 0 ==> first_poll_step(entries) == (PollStepView::Ask { position: 0 }),
        entries.len() == 0 ==> first_poll_step(entries) == PollStepView::Idle,
        !(outcome is Update) && position + 1 < entries.len() ==> next_poll_step(
            entries,
            position,
            outcome,
        ) == (PollStepView::Ask { position: position + 1 }),
        !(outcome is Update) && position + 1 >= entries.len() ==> next_poll_step(
            entries,
            position,
            outcome,
        ) == PollStepView::Pause,
        outcome is Update ==> next_poll_step(entries, position, outcome) is Deliver,
{
}

/// The keys of the servers that a client is subscribed to are those of its entries that bear the
/// number of the task that runs, in the order of the entries.
pub proof fn law_live_keys(entries: Seq<SubscriptionView>, registry: RegistryView)
    ensures
        live_keys(entries, registry) == entries.filter(
            |entry: SubscriptionView|
                registry.tasks.contains_key(entry.key) && registry.tasks[entry.key].number
                    == entry.number,
        ).map_values(|entry: SubscriptionView| entry.key),
    decreases entries.len(),
{
    reveal(Seq::filter);
    let live = |entry: SubscriptionView|
        registry.tasks.contains_key(entry.key) && registry.tasks[entry.key].number == entry.number;
    let key = |entry: SubscriptionView| entry.key;
    if entries.len() > 0 {
        let before = entries.drop_last();
        law_live_keys(before, registry);
        assert(live(entries.last()) <==> lives(entries.last(), registry));
        if live(entries.last()) {
            assert(before.filter(live).push(entries.last()).map_values(key) =~= before.filter(
                live,
            ).map_values(key).push(entries.last().key));
        }
    }
    assert(live_keys(entries, registry) =~= entries.filter(live).map_values(key));
}

/// Each subscription has its own position, from none on, and there is nothing behind the last one.
pub proof fn law_positions(entries: Seq<SubscriptionView>, position: int)
    ensures
        0 <= position < entries.len() ==> key_of_entry(entries, position) == Some(
            entries[position].key,
        ),
        position >= entries.len() ==> key_of_entry(entries, position) is None,
{
}

} // verus!
