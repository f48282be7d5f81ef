//! All clients and all tasks together: what every step of any of them keeps.
use crate::registry::RegistryView;
use crate::request::{port_meant, server_key, Request};
use crate::session::{
    distinct, handled, has_entry, has_room, is_entry, is_live_entry, lemma_without_entry, released,
    subscribed, without_entry, HandlingView, SubscriptionView,
};
use crate::task::{ticked, Tick};
use vstd::multiset::Multiset;
use vstd::prelude::*;

verus! {

/// The state of the service: the registry, the subscriptions of every client, and the servers that
/// tasks are at work for, each as often as there are tasks.
pub struct Service {
    pub registry: RegistryView,
    pub clients: Seq<Seq<SubscriptionView>>,
    pub at_work: Multiset<Seq<char>>,
}

/// The number of clients that are subscribed to the server `key`.
pub open spec fn subscribers(
    clients: Seq<Seq<SubscriptionView>>,
    registry: RegistryView,
    key: Seq<char>,
) -> nat
    decreases clients.len(),
{
    if clients.len() == 0 {
        0
    } else {
        subscribers(clients.drop_last(), registry, key) + one_if(
            subscribed(clients.last(), registry, key),
        )
    }
}

/// One where something holds, and zero where not.
pub open spec fn one_if(holds: bool) -> nat {
    if holds {
        1
    } else {
        0
    }
}

impl Service {
    /// The service before the first client: nothing is there.
    pub open spec fn start() -> Service {
        Service {
            registry: RegistryView { tasks: Map::empty(), started: 0 },
            clients: Seq::empty(),
            at_work: Multiset::empty(),
        }
    }

    /// The service after one more client has connected.
    pub open spec fn connected(self) -> Service {
        Service { clients: self.clients.push(Seq::empty()), ..self }
    }

    /// The service after a request of the client number `client`.
    pub open spec fn requested(self, client: int, request: Request) -> Service {
        let (handling, entries, registry) = handled(request, self.clients[client], self.registry);
        Service {
            registry,
            clients: self.clients.update(client, entries),
            at_work: match handling {
                HandlingView::Start { key, .. } => self.at_work.insert(key),
                _ => self.at_work,
            },
        }
    }

    /// The service after the client number `client` has gone.
    pub open spec fn disconnected(self, client: int) -> Service {
        Service {
            registry: released(self.registry, self.clients[client]),
            clients: self.clients.update(client, Seq::empty()),
            ..self
        }
    }

    /// The service after the time of a task at work for the server `key` has come.
    pub open spec fn ticked(self, key: Seq<char>) -> Service {
        let (action, registry) = ticked(self.registry, key);
        Service {
            registry,
            at_work: if action is Ping {
                self.at_work
            } else {
                self.at_work.remove(key)
            },
            ..self
        }
    }

    /// The service after a task at work for the server `key` has given up.
    pub open spec fn gave_up(self, key: Seq<char>) -> Service {
        Service {
            registry: self.registry.without_task(key),
            at_work: self.at_work.remove(key),
            ..self
        }
    }

    /// Whether no client has two entries for a server.
    pub open spec fn no_double_subscription(self) -> bool {
        forall|c: int| 0 <= c < self.clients.len() ==> distinct(#[trigger] self.clients[c])
    }

    /// Whether the numbers of all tasks that run, and of all tasks that were subscribed to, are
    /// numbers of tasks that have been started.
    pub open spec fn numbers_are_known(self) -> bool {
        &&& forall|key: Seq<char>| #[trigger]
            self.registry.tasks.contains_key(key) ==> self.registry.tasks[key].number
                < self.registry.started
        &&& forall|c: int, i: int|
            0 <= c < self.clients.len() && 0 <= i < self.clients[c].len()
                ==> (#[trigger] self.clients[c][i]).number < self.registry.started
    }

    /// Whether exactly one task is at work for each server in the registry, and none for others.
    pub open spec fn one_task_per_server(self) -> bool {
        forall|key: Seq<char>|
            #[trigger] self.at_work.count(key) == one_if(self.registry.tasks.contains_key(key))
    }

    /// Whether the registry counts the subscribers of every server: for a task in the registry it
    /// holds their number, and a server without task has none.
    pub open spec fn counts_subscribers(self) -> bool {
        forall|key: Seq<char>| #[trigger]
            subscribers(self.clients, self.registry, key) == match self.registry.count(key) {
                Some(count) => count as nat,
                None => 0,
            }
    }

    /// What every step keeps.
    pub open spec fn in_order(self) -> bool {
        &&& self.no_double_subscription()
        &&& self.numbers_are_known()
        &&& self.one_task_per_server()
        &&& self.counts_subscribers()
    }
}

/// What can happen to the service.
pub enum Step {
    /// One more client connects.
    Connect,
    /// The client number `client` sends a request.
    Ask { client: int, request: Request },
    /// The client number `client` goes.
    Disconnect { client: int },
    /// The time of a task at work for the server `key` comes.
    Tick { key: Seq<char> },
    /// A task at work for the server `key` gives up after too many failures.
    GiveUp { key: Seq<char> },
}

impl Service {
    /// Whether a step can happen: clients that act are connected, tasks that act are at work, and
    /// no count is at the limit of the machine.
    pub open spec fn possible(self, step: Step) -> bool {
        match step {
            Step::Connect => true,
            Step::Ask { client, request } => {
                &&& 0 <= client < self.clients.len()
                &&& has_room(request, self.clients[client], self.registry)
            },
            Step::Disconnect { client } => 0 <= client < self.clients.len(),
            Step::Tick { key } => self.at_work.count(key) > 0,
            Step::GiveUp { key } => self.at_work.count(key) > 0,
        }
    }

    /// The service after a step.
    pub open spec fn after(self, step: Step) -> Service {
        match step {
            Step::Connect => self.connected(),
            Step::Ask { client, request } => self.requested(client, request),
            Step::Disconnect { client } => self.disconnected(client),
            Step::Tick { key } => self.ticked(key),
            Step::GiveUp { key } => self.gave_up(key),
        }
    }

    /// The service after a row of steps from the start.
    pub open spec fn reached(steps: Seq<Step>) -> Service
        decreases steps.len(),
    {
        if steps.len() == 0 {
            Service::start()
        } else {
            Service::reached(steps.drop_last()).after(steps.last())
        }
    }

    /// Whether a row of steps can happen, one after the other from the start.
    pub open spec fn possible_history(steps: Seq<Step>) -> bool
        decreases steps.len(),
    {
        steps.len() > 0 ==> {
            &&& Service::possible_history(steps.drop_last())
            &&& Service::reached(steps.drop_last()).possible(steps.last())
        }
    }
}

/// The key of the server that a request names.
pub open spec fn key_named(request: Request) -> Seq<char> {
    match request {
        Request::Ping { address, port, bedrock, .. } => server_key(
            address@,
            port_meant(port, bedrock),
            bedrock,
        ),
        Request::Subscribe { address, port, bedrock, .. } => server_key(
            address@,
            port_meant(port, bedrock),
            bedrock,
        ),
        Request::Unsubscribe { address, port, bedrock, .. } => server_key(
            address@,
            port_meant(port, bedrock),
            bedrock,
        ),
    }
}

/// No step gives a client two entries for a server.
pub proof fn law_no_double_subscription(service: Service, step: Step)
    requires
        service.no_double_subscription(),
        service.possible(step),
    ensures
        service.after(step).no_double_subscription(),
{
    let now = service.after(step);
    assert forall|c: int| 0 <= c < now.clients.len() implies distinct(#[trigger] now.clients[c]) by {
        if 0 <= c < service.clients.len() {
            assert(distinct(service.clients[c]));
        }
        match step {
            Step::Ask { client, request } => {
                if c == client {
                    lemma_handled_keeps_distinct(request, service.clients[c], service.registry);
                }
            },
            _ => {},
        }
    }
}

/// Only one task is ever at work for a server: no step starts a second one, and a task that stops
/// leaves the registry.
pub proof fn law_one_task_per_server(service: Service, step: Step)
    requires
        service.one_task_per_server(),
        service.possible(step),
    ensures
        service.after(step).one_task_per_server(),
{
}

proof fn lemma_handled_keeps_distinct(
    request: Request,
    entries: Seq<SubscriptionView>,
    registry: RegistryView,
)
    requires
        distinct(entries),
    ensures
        distinct(handled(request, entries, registry).1),
{
    let key = key_named(request);
    lemma_without_entry(entries, registry, key, key);
    let rest = without_entry(entries, key);
    assert forall|i: int| 0 <= i < rest.len() implies #[trigger] rest[i].key != key by {
        assert(!is_entry(rest, key, i));
    }
}

/// Every number that is held is the number of a task that has been started, so that a new task has
/// a number of its own.
pub proof fn law_numbers_are_known(service: Service, step: Step)
    requires
        service.numbers_are_known(),
        service.possible(step),
    ensures
        service.after(step).numbers_are_known(),
{
    let now = service.after(step);
    assert(service.registry.started <= now.registry.started);
    assert forall|c: int, i: int|
        0 <= c < now.clients.len() && 0 <= i < now.clients[c].len() implies (
    #[trigger] now.clients[c][i]).number < now.registry.started by {
        match step {
            Step::Ask { client, request } => {
                let entries = service.clients[client];
                let key = key_named(request);
                let rest = without_entry(entries, key);
                assert forall|j: int| 0 <= j < rest.len() implies (#[trigger] rest[j]).number
                    < service.registry.started by {
                    if has_entry(entries, key) {
                        let gone = choose|g: int| is_entry(entries, key, g);
                        assert(is_entry(entries, key, gone));
                        let was = if j < gone {
                            j
                        } else {
                            j + 1
                        };
                        assert(service.clients[client][was].number < service.registry.started);
                    } else {
                        assert(service.clients[client][j].number < service.registry.started);
                    }
                }
                if c != client {
                    assert(service.clients[c][i].number < service.registry.started);
                } else if handled(request, entries, service.registry).1 == entries {
                    assert(service.clients[c][i].number < service.registry.started);
                } else if i < rest.len() {
                    assert(now.clients[c][i] == rest[i]);
                }
            },
            _ => {
                if c < service.clients.len() && now.clients[c] == service.clients[c] {
                    assert(service.clients[c][i].number < service.registry.started);
                }
            },
        }
    }
}

proof fn lemma_subscribers_after_update(
    clients: Seq<Seq<SubscriptionView>>,
    client: int,
    entries: Seq<SubscriptionView>,
    registry: RegistryView,
    key: Seq<char>,
)
    requires
        0 <= client < clients.len(),
    ensures
        subscribers(clients.update(client, entries), registry, key) + one_if(
            subscribed(clients[client], registry, key),
        ) == subscribers(clients, registry, key) + one_if(subscribed(entries, registry, key)),
    decreases clients.len(),
{
    let updated = clients.update(client, entries);
    if client == clients.len() - 1 {
        assert(updated.drop_last() =~= clients.drop_last());
    } else {
        lemma_subscribers_after_update(clients.drop_last(), client, entries, registry, key);
        assert(updated.drop_last() =~= clients.drop_last().update(client, entries));
    }
}

/// The subscribers of a server change with the registry only where they do for some client.
proof fn lemma_same_subscribers(
    clients: Seq<Seq<SubscriptionView>>,
    registry: RegistryView,
    other: RegistryView,
    key: Seq<char>,
)
    requires
        forall|c: int|
            0 <= c < clients.len() ==> subscribed(#[trigger] clients[c], registry, key)
                == subscribed(clients[c], other, key),
    ensures
        subscribers(clients, registry, key) == subscribers(clients, other, key),
    decreases clients.len(),
{
    if clients.len() > 0 {
        assert(clients.last() == clients[clients.len() - 1]);
        lemma_same_subscribers(clients.drop_last(), registry, other, key);
    }
}

/// Who is subscribed to a server rests on the number of its task alone.
proof fn lemma_same_number_same_subscribed(
    entries: Seq<SubscriptionView>,
    registry: RegistryView,
    other: RegistryView,
    key: Seq<char>,
)
    requires
        registry.number(key) == other.number(key),
    ensures
        subscribed(entries, registry, key) == subscribed(entries, other, key),
{
    if subscribed(entries, registry, key) {
        let i = choose|i: int| is_live_entry(entries, registry, key, i);
        assert(is_live_entry(entries, other, key, i));
    }
    if subscribed(entries, other, key) {
        let i = choose|i: int| is_live_entry(entries, other, key, i);
        assert(is_live_entry(entries, registry, key, i));
    }
}

proof fn lemma_same_number_same_subscribers(
    clients: Seq<Seq<SubscriptionView>>,
    registry: RegistryView,
    other: RegistryView,
    key: Seq<char>,
)
    requires
        registry.number(key) == other.number(key),
    ensures
        subscribers(clients, registry, key) == subscribers(clients, other, key),
{
    assert forall|c: int| 0 <= c < clients.len() implies subscribed(
        #[trigger] clients[c],
        registry,
        key,
    ) == subscribed(clients[c], other, key) by {
        lemma_same_number_same_subscribed(clients[c], registry, other, key);
    }
    lemma_same_subscribers(clients, registry, other, key);
}

/// Nobody is subscribed to a server without task.
proof fn lemma_no_task_no_subscribers(
    clients: Seq<Seq<SubscriptionView>>,
    registry: RegistryView,
    key: Seq<char>,
)
    requires
        !registry.tasks.contains_key(key),
    ensures
        subscribers(clients, registry, key) == 0,
    decreases clients.len(),
{
    if clients.len() > 0 {
        lemma_no_task_no_subscribers(clients.drop_last(), registry, key);
        if subscribed(clients.last(), registry, key) {
            let i = choose|i: int| is_live_entry(clients.last(), registry, key, i);
            assert(is_live_entry(clients.last(), registry, key, i));
        }
    }
}

/// A client that is subscribed is one of the subscribers.
proof fn lemma_subscriber_counts(
    clients: Seq<Seq<SubscriptionView>>,
    client: int,
    registry: RegistryView,
    key: Seq<char>,
)
    requires
        0 <= client < clients.len(),
        subscribed(clients[client], registry, key),
    ensures
        subscribers(clients, registry, key) > 0,
    decreases clients.len(),
{
    if client < clients.len() - 1 {
        lemma_subscriber_counts(clients.drop_last(), client, registry, key);
    }
}

proof fn lemma_nothing_subscribed(registry: RegistryView, key: Seq<char>)
    ensures
        !subscribed(Seq::empty(), registry, key),
{
    if subscribed(Seq::empty(), registry, key) {
        let i = choose|i: int| is_live_entry(Seq::empty(), registry, key, i);
        assert(is_live_entry(Seq::empty(), registry, key, i));
    }
}

/// A request to subscribe or unsubscribe that is granted makes the client subscribed or not
/// subscribed to the server that it names, and changes nothing for other servers.
proof fn lemma_subscribed_after_request(
    request: Request,
    entries: Seq<SubscriptionView>,
    registry: RegistryView,
    key: Seq<char>,
)
    requires
        distinct(entries),
        has_room(request, entries, registry),
    ensures
        ({
            let (handling, entries_now, registry_now) = handled(request, entries, registry);
            let now = subscribed(entries_now, registry_now, key);
            let before = subscribed(entries, registry, key);
            if key == key_named(request) && (handling is Join || handling is Start) {
                now && !before
            } else if key == key_named(request) && handling is Leave {
                !now && before
            } else {
                now == before
            }
        }),
{
    let named = key_named(request);
    let (handling, entries_now, registry_now) = handled(request, entries, registry);
    let rest = without_entry(entries, named);
    lemma_without_entry(entries, registry, named, key);
    if key != named {
        lemma_same_number_same_subscribed(entries_now, registry_now, registry, key);
    } else if handling is Leave {
        lemma_same_number_same_subscribed(rest, registry_now, registry, key);
    }
    if handling is Join || handling is Start {
        if key == named {
            assert(is_live_entry(entries_now, registry_now, named, rest.len() as int));
        } else {
            if subscribed(entries_now, registry, key) {
                let i = choose|i: int| is_live_entry(entries_now, registry, key, i);
                assert(is_live_entry(rest, registry, key, i));
            }
            if subscribed(rest, registry, key) {
                let i = choose|i: int| is_live_entry(rest, registry, key, i);
                assert(is_live_entry(entries_now, registry, key, i));
            }
        }
    }
}

/// A new task has no subscribers yet: nobody holds its number.
proof fn lemma_new_number_no_subscribers(service: Service, registry: RegistryView, key: Seq<char>)
    requires
        service.numbers_are_known(),
        registry.number(key) == Some(service.registry.started),
    ensures
        subscribers(service.clients, registry, key) == 0,
        forall|c: int|
            0 <= c < service.clients.len() ==> !subscribed(#[trigger] service.clients[c], registry, key),
{
    let nothing = RegistryView { tasks: Map::empty(), started: 0 };
    assert forall|c: int| 0 <= c < service.clients.len() implies !subscribed(
        #[trigger] service.clients[c],
        registry,
        key,
    ) && !subscribed(service.clients[c], nothing, key) by {
        let entries = service.clients[c];
        if subscribed(entries, registry, key) {
            let i = choose|i: int| is_live_entry(entries, registry, key, i);
            assert(is_live_entry(entries, registry, key, i));
            assert(service.clients[c][i].number < service.registry.started);
        }
        if subscribed(entries, nothing, key) {
            let i = choose|i: int| is_live_entry(entries, nothing, key, i);
            assert(is_live_entry(entries, nothing, key, i));
        }
    }
    lemma_same_subscribers(service.clients, registry, nothing, key);
    lemma_no_task_no_subscribers(service.clients, nothing, key);
}

proof fn lemma_request_keeps_count(service: Service, client: int, request: Request, key: Seq<char>)
    requires
        service.counts_subscribers(),
        service.no_double_subscription(),
        service.numbers_are_known(),
        service.possible((Step::Ask { client, request })),
    ensures
        ({
            let now = service.requested(client, request);
            subscribers(now.clients, now.registry, key) == match now.registry.count(key) {
                Some(count) => count as nat,
                None => 0,
            }
        }),
{
    let now = service.requested(client, request);
    let entries = service.clients[client];
    let (handling, entries_now, registry_now) = handled(request, entries, service.registry);
    assert(distinct(entries));
    assert(subscribers(service.clients, service.registry, key) == match service.registry.count(key) {
        Some(count) => count as nat,
        None => 0,
    });
    lemma_subscribed_after_request(request, entries, service.registry, key);
    lemma_subscribers_after_update(service.clients, client, entries_now, registry_now, key);
    if key == key_named(request) && handling is Start {
        lemma_new_number_no_subscribers(service, registry_now, key);
    } else {
        lemma_same_number_same_subscribers(service.clients, service.registry, registry_now, key);
        lemma_same_number_same_subscribed(entries, service.registry, registry_now, key);
        if subscribed(entries, service.registry, key) {
            lemma_subscriber_counts(service.clients, client, service.registry, key);
        }
    }
}

/// The registry counts the subscribers of every server, whatever clients and tasks do.
pub proof fn law_registry_counts_subscribers(service: Service, step: Step)
    requires
        service.counts_subscribers(),
        service.no_double_subscription(),
        service.numbers_are_known(),
        service.possible(step),
    ensures
        service.after(step).counts_subscribers(),
{
    let now = service.after(step);
    assert forall|key: Seq<char>| #[trigger]
        subscribers(now.clients, now.registry, key) == match now.registry.count(key) {
            Some(count) => count as nat,
            None => 0,
        } by {
        assert(subscribers(service.clients, service.registry, key) == match service.registry.count(
            key,
        ) {
            Some(count) => count as nat,
            None => 0,
        });
        match step {
            Step::Connect => {
                assert(now.clients.drop_last() =~= service.clients);
                lemma_nothing_subscribed(now.registry, key);
            },
            Step::Ask { client, request } => {
                lemma_request_keeps_count(service, client, request, key);
            },
            Step::Disconnect { client } => {
                let entries = service.clients[client];
                lemma_subscribers_after_update(
                    service.clients,
                    client,
                    Seq::empty(),
                    now.registry,
                    key,
                );
                lemma_nothing_subscribed(now.registry, key);
                lemma_same_number_same_subscribers(
                    service.clients,
                    service.registry,
                    now.registry,
                    key,
                );
                lemma_same_number_same_subscribed(entries, service.registry, now.registry, key);
                if subscribed(entries, service.registry, key) {
                    lemma_subscriber_counts(service.clients, client, service.registry, key);
                }
                if !now.registry.tasks.contains_key(key) {
                    lemma_no_task_no_subscribers(now.clients, now.registry, key);
                }
            },
            _ => {
                if now.registry.tasks.contains_key(key) {
                    lemma_same_number_same_subscribers(
                        service.clients,
                        service.registry,
                        now.registry,
                        key,
                    );
                } else {
                    lemma_no_task_no_subscribers(now.clients, now.registry, key);
                }
            },
        }
    }
}

/// After any row of steps from the start, exactly one task is at work for each server in the
/// registry, no client has two entries for a server, and the registry counts the subscribers of
/// every server.
pub proof fn law_history(steps: Seq<Step>)
    requires
        Service::possible_history(steps),
    ensures
        Service::reached(steps).in_order(),
    decreases steps.len(),
{
    if steps.len() > 0 {
        let last = steps.last();
        let service = Service::reached(steps.drop_last());
        law_history(steps.drop_last());
        law_no_double_subscription(service, last);
        law_numbers_are_known(service, last);
        law_one_task_per_server(service, last);
        law_registry_counts_subscribers(service, last);
    }
}

/// When the last subscriber of a server has gone, the task for it stops as soon as its time comes,
/// and the registry holds it no more. As long as there are subscribers, the task pings.
pub proof fn law_unwatched_task_stops(service: Service, key: Seq<char>)
    requires
        service.in_order(),
        service.at_work.count(key) > 0,
    ensures
        subscribers(service.clients, service.registry, key) == 0 ==> {
            &&& ticked(service.registry, key).0 == Tick::NoSubscribers
            &&& !service.ticked(key).registry.tasks.contains_key(key)
            &&& service.ticked(key).at_work.count(key) == 0
        },
        subscribers(service.clients, service.registry, key) > 0 ==> {
            &&& ticked(service.registry, key).0 == Tick::Ping
            &&& service.ticked(key) == service
        },
{
    assert(service.registry.tasks.contains_key(key));
}

/// When a task gives up, all subscriptions to it end: nobody is subscribed to its server any more,
/// and every other server has the subscribers that it had.
pub proof fn law_subscriptions_end_with_the_task(service: Service, key: Seq<char>, other: Seq<char>)
    ensures
        ({
            let now = service.gave_up(key);
            &&& subscribers(now.clients, now.registry, key) == 0
            &&& other != key ==> subscribers(now.clients, now.registry, other) == subscribers(
                service.clients,
                service.registry,
                other,
            )
        }),
{
    let now = service.gave_up(key);
    lemma_no_task_no_subscribers(now.clients, now.registry, key);
    if other != key {
        lemma_same_number_same_subscribers(service.clients, service.registry, now.registry, other);
    }
}

} // verus!
