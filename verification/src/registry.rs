//! The ping tasks that run, and how many subscribers each one has.
use vstd::hash_map::StringHashMap;
use vstd::prelude::*;

verus! {

/// What is known of a ping task that runs: its number, which no other task has or had, and the
/// number of its subscribers.
#[derive(Debug, Clone, Copy, PartialEq, Eq, Structural)]
pub struct SharedPingTask {
    pub number: u64,
    pub subscriber_count: usize,
}

/// The ping tasks that run, one for each server that has one, by the key of the server.
pub struct PingRegistry {
    tasks: StringHashMap<SharedPingTask>,
    started: u64,
}

/// What a `PingRegistry` holds: the tasks that run, and how many have ever been started, which is
/// the number of the next one.
#[verifier::ext_equal]
pub struct RegistryView {
    pub tasks: Map<Seq<char>, SharedPingTask>,
    pub started: u64,
}

impl RegistryView {
    /// The number of the task that runs for the server `key`.
    pub open spec fn number(self, key: Seq<char>) -> Option<u64> {
        match self.tasks.get(key) {
            Some(task) => Some(task.number),
            None => None,
        }
    }

    /// The number of subscribers of the task for the server `key`, where one runs.
    pub open spec fn count(self, key: Seq<char>) -> Option<usize> {
        match self.tasks.get(key) {
            Some(task) => Some(task.subscriber_count),
            None => None,
        }
    }

    /// Whether there is room for one more subscription to the server `key`: in the count of the
    /// task that runs, or in the numbers where one has to be started.
    pub open spec fn has_room(self, key: Seq<char>) -> bool {
        match self.count(key) {
            Some(count) => count < usize::MAX,
            None => self.started < u64::MAX,
        }
    }

    /// The tasks after one more subscription to the server `key`: a task that runs has one
    /// subscriber more, and where none runs there is a new one with this single subscriber.
    pub open spec fn with_subscriber(self, key: Seq<char>) -> RegistryView {
        match self.tasks.get(key) {
            Some(task) => RegistryView {
                tasks: self.tasks.insert(
                    key,
                    SharedPingTask {
                        subscriber_count: (task.subscriber_count + 1) as usize,
                        ..task
                    },
                ),
                ..self
            },
            None => RegistryView {
                tasks: self.tasks.insert(
                    key,
                    SharedPingTask { number: self.started, subscriber_count: 1 },
                ),
                started: (self.started + 1) as u64,
            },
        }
    }

    /// The tasks after one subscription less to the server `key`: a task that runs has one
    /// subscriber less, but never less than none.
    pub open spec fn without_subscriber(self, key: Seq<char>) -> RegistryView {
        match self.tasks.get(key) {
            Some(task) => RegistryView {
                tasks: self.tasks.insert(key, left_by_one(task)),
                ..self
            },
            None => self,
        }
    }

    /// The tasks without the one for the server `key`.
    pub open spec fn without_task(self, key: Seq<char>) -> RegistryView {
        RegistryView { tasks: self.tasks.remove(key), ..self }
    }
}

/// A task with one subscriber less, but never less than none.
pub open spec fn left_by_one(task: SharedPingTask) -> SharedPingTask {
    SharedPingTask {
        subscriber_count: if task.subscriber_count == 0 {
            0
        } else {
            (task.subscriber_count - 1) as usize
        },
        ..task
    }
}

impl View for PingRegistry {
    type V = RegistryView;

    closed spec fn view(&self) -> RegistryView {
        RegistryView { tasks: self.tasks@, started: self.started }
    }
}

impl PingRegistry {
    /// A registry without tasks.
    pub fn new() -> (registry: Self)
        ensures
            registry@ == (RegistryView { tasks: Map::empty(), started: 0 }),
    {
        PingRegistry { tasks: StringHashMap::new(), started: 0 }
    }

    /// The number of subscribers of the task for the server `key`, where one runs.
    pub fn subscriber_count(&self, key: &str) -> (count: Option<usize>)
        ensures
            count == self@.count(key@),
    {
        match self.tasks.get(key) {
            Some(task) => Some(task.subscriber_count),
            None => None,
        }
    }

    /// The number of the task for the server `key`, where one runs.
    pub fn task_number(&self, key: &str) -> (number: Option<u64>)
        ensures
            number == self@.number(key@),
    {
        match self.tasks.get(key) {
            Some(task) => Some(task.number),
            None => None,
        }
    }

    /// Whether there is room for one more subscription to the server `key`.
    pub fn has_room(&self, key: &str) -> (room: bool)
        ensures
            room == self@.has_room(key@),
    {
        match self.subscriber_count(key) {
            Some(count) => count < usize::MAX,
            None => self.started < u64::MAX,
        }
    }

    /// Counts one more subscriber of the server `key`. The result says whether a task for it has
    /// to be started, which is where none runs.
    pub fn get_or_create_ping_task(&mut self, key: &str) -> (created: bool)
        requires
            old(self)@.has_room(key@),
        ensures
            created == !old(self)@.tasks.contains_key(key@),
            final(self)@ == old(self)@.with_subscriber(key@),
    {
        let running: Option<SharedPingTask> = match self.tasks.get(key) {
            Some(task) => Some(*task),
            None => None,
        };
        match running {
            Some(task) => {
                let subscriber_count: usize = task.subscriber_count + 1;
                self.tasks.insert(
                    key.to_owned(),
                    SharedPingTask { number: task.number, subscriber_count },
                );
                false
            },
            None => {
                let number: u64 = self.started;
                self.started = number + 1;
                self.tasks.insert(key.to_owned(), SharedPingTask { number, subscriber_count: 1 });
                true
            },
        }
    }

    /// Counts one subscriber less of the server `key`. The result is how many remain, where a
    /// task runs.
    pub fn decrement_subscriber(&mut self, key: &str) -> (remaining: Option<usize>)
        ensures
            final(self)@ == old(self)@.without_subscriber(key@),
            remaining == final(self)@.count(key@),
    {
        let running: Option<SharedPingTask> = match self.tasks.get(key) {
            Some(task) => Some(*task),
            None => None,
        };
        match running {
            Some(task) => {
                let subscriber_count: usize = task.subscriber_count.saturating_sub(1);
                self.tasks.insert(
                    key.to_owned(),
                    SharedPingTask { number: task.number, subscriber_count },
                );
                Some(subscriber_count)
            },
            None => None,
        }
    }

    /// Takes the task for the server `key` out.
    pub fn remove(&mut self, key: &str)
        ensures
            final(self)@ == old(self)@.without_task(key@),
    {
        self.tasks.remove(key);
    }
}

/// A subscription more: the count of a task that runs grows by one and the task stays the same; where
/// none runs, there is a new one with one subscriber. No other task changes.
pub proof fn law_one_subscriber_more(registry: RegistryView, key: Seq<char>, other: Seq<char>)
    requires
        registry.has_room(key),
    ensures
        ({
            let now = registry.with_subscriber(key);
            &&& now.tasks.contains_key(key)
            &&& registry.tasks.contains_key(key) ==> {
                &&& now.tasks[key].subscriber_count == registry.tasks[key].subscriber_count + 1
                &&& now.tasks[key].number == registry.tasks[key].number
                &&& now.started == registry.started
            }
            &&& !registry.tasks.contains_key(key) ==> {
                &&& now.tasks[key].subscriber_count == 1
                &&& now.tasks[key].number == registry.started
                &&& now.started == registry.started + 1
            }
            &&& other != key ==> now.tasks.get(other) == registry.tasks.get(other)
        }),
{
}

/// A subscription less: the count of a task falls by one where it is above none. Neither the task
/// nor any other one changes otherwise, and no task comes or goes.
pub proof fn law_one_subscriber_less(registry: RegistryView, key: Seq<char>, other: Seq<char>)
    ensures
        ({
            let now = registry.without_subscriber(key);
            &&& now.tasks.contains_key(other) <==> registry.tasks.contains_key(other)
            &&& registry.tasks.contains_key(key) ==> {
                &&& now.tasks[key].number == registry.tasks[key].number
                &&& registry.tasks[key].subscriber_count > 0 ==> now.tasks[key].subscriber_count
                    == registry.tasks[key].subscriber_count - 1
                &&& registry.tasks[key].subscriber_count == 0 ==> now.tasks[key].subscriber_count
                    == 0
            }
            &&& other != key ==> now.tasks.get(other) == registry.tasks.get(other)
            &&& now.started == registry.started
        }),
{
}

/// Taking a task out leaves every other one as it is.
pub proof fn law_one_task_less(registry: RegistryView, key: Seq<char>, other: Seq<char>)
    ensures
        ({
            let now = registry.without_task(key);
            &&& !now.tasks.contains_key(key)
            &&& other != key ==> now.tasks.get(other) == registry.tasks.get(other)
            &&& now.started == registry.started
        }),
{
}

/// What the registry says of a server is what it holds of the server's task, and there is room for
/// one more subscription unless a number is at the limit of the machine.
pub proof fn law_what_the_registry_says(registry: RegistryView, key: Seq<char>)
    ensures
        registry.count(key) is Some <==> registry.tasks.contains_key(key),
        registry.number(key) is Some <==> registry.tasks.contains_key(key),
        registry.tasks.contains_key(key) ==> registry.count(key) == Some(
            registry.tasks[key].subscriber_count,
        ) && registry.number(key) == Some(registry.tasks[key].number),
        !registry.has_room(key) ==> if registry.tasks.contains_key(key) {
            registry.tasks[key].subscriber_count == usize::MAX
        } else {
            registry.started == u64::MAX
        },
{
}

} // verus!
