//! The download engine's dispatcher: the state it keeps, the commands it
//! accepts and what it does for each of them.
//!
//! The dispatcher is written as a step function. A caller feeds it one command
//! at a time and carries out the actions that come back: it sends the events on
//! and starts a worker for every launch.

use crate::keys::ActiveSet;
pub use crate::keys::MAX_CONCURRENT;
use crate::queue::{first_where, has_key, index_of, keys_unique, lemma_first_where, lemma_first_where_is, with_offset, without_key, ItemQueue};
use crate::settings::SftpConfig;
use crate::types::{QueueItem, QueueItemView};
use vstd::hash_map::StringHashMap;
use vstd::hash_set::StringHashSet;
use vstd::prelude::*;

verus! {

/// The number of bytes that a worker asks for at a time.
pub const CHUNK_SIZE: usize = 65536;

/// What the engine can be told to do.
#[derive(Debug, PartialEq)]
pub enum DownloadCommand {
    StartAll,
    PauseAll,
    ResumeAll,
    /// Pause the item with this remote path.
    Pause(String),
    Resume(String),
    Cancel(String),
    AddItem(QueueItem),
    /// Sent by a worker that stopped because its item was paused.
    TaskPaused { remote_file: String, offset: u64 },
    /// Sent by a worker that stopped for any other reason.
    TaskDone { remote_file: String },
    /// The new limit in KB/s; 0 lifts the limit.
    SetSpeedLimit(u64),
}

/// The view of a [`DownloadCommand`].
pub enum CommandView {
    StartAll,
    PauseAll,
    ResumeAll,
    Pause(Seq<char>),
    Resume(Seq<char>),
    Cancel(Seq<char>),
    AddItem(QueueItemView),
    TaskPaused { remote_file: Seq<char>, offset: u64 },
    TaskDone { remote_file: Seq<char> },
    SetSpeedLimit(u64),
}

impl View for DownloadCommand {
    type V = CommandView;

    open spec fn view(&self) -> CommandView {
        match *self {
            DownloadCommand::StartAll => CommandView::StartAll,
            DownloadCommand::PauseAll => CommandView::PauseAll,
            DownloadCommand::ResumeAll => CommandView::ResumeAll,
            DownloadCommand::Pause(path) => CommandView::Pause(path@),
            DownloadCommand::Resume(path) => CommandView::Resume(path@),
            DownloadCommand::Cancel(path) => CommandView::Cancel(path@),
            DownloadCommand::AddItem(item) => CommandView::AddItem(item@),
            DownloadCommand::TaskPaused { remote_file, offset } => CommandView::TaskPaused {
                remote_file: remote_file@,
                offset,
            },
            DownloadCommand::TaskDone { remote_file } => CommandView::TaskDone {
                remote_file: remote_file@,
            },
            DownloadCommand::SetSpeedLimit(limit) => CommandView::SetSpeedLimit(limit),
        }
    }
}

impl DeepView for DownloadCommand {
    type V = CommandView;

    open spec fn deep_view(&self) -> CommandView {
        self@
    }
}

impl Clone for DownloadCommand {
    fn clone(&self) -> (copy: Self)
        ensures
            copy == *self,
    {
        match self {
            DownloadCommand::StartAll => DownloadCommand::StartAll,
            DownloadCommand::PauseAll => DownloadCommand::PauseAll,
            DownloadCommand::ResumeAll => DownloadCommand::ResumeAll,
            DownloadCommand::Pause(path) => DownloadCommand::Pause(path.clone()),
            DownloadCommand::Resume(path) => DownloadCommand::Resume(path.clone()),
            DownloadCommand::Cancel(path) => DownloadCommand::Cancel(path.clone()),
            DownloadCommand::AddItem(item) => DownloadCommand::AddItem(item.clone()),
            DownloadCommand::TaskPaused { remote_file, offset } => DownloadCommand::TaskPaused {
                remote_file: remote_file.clone(),
                offset: *offset,
            },
            DownloadCommand::TaskDone { remote_file } => DownloadCommand::TaskDone {
                remote_file: remote_file.clone(),
            },
            DownloadCommand::SetSpeedLimit(limit) => DownloadCommand::SetSpeedLimit(*limit),
        }
    }
}

/// What the engine reports about an item.
#[derive(Debug, PartialEq)]
pub enum DownloadEvent {
    Progress { remote_file: String, bytes_downloaded: u64 },
    Completed { remote_file: String },
    Failed { remote_file: String, error: String },
    Paused { remote_file: String },
    Started { remote_file: String },
}

/// The view of a [`DownloadEvent`].
pub enum EventView {
    Progress { remote_file: Seq<char>, bytes_downloaded: u64 },
    Completed { remote_file: Seq<char> },
    Failed { remote_file: Seq<char>, error: Seq<char> },
    Paused { remote_file: Seq<char> },
    Started { remote_file: Seq<char> },
}

impl EventView {
    /// The key of the item that the event is about.
    pub open spec fn key(self) -> Seq<char> {
        match self {
            EventView::Progress { remote_file, .. } => remote_file,
            EventView::Completed { remote_file } => remote_file,
            EventView::Failed { remote_file, .. } => remote_file,
            EventView::Paused { remote_file } => remote_file,
            EventView::Started { remote_file } => remote_file,
        }
    }
}

impl View for DownloadEvent {
    type V = EventView;

    open spec fn view(&self) -> EventView {
        match *self {
            DownloadEvent::Progress { remote_file, bytes_downloaded } => EventView::Progress {
                remote_file: remote_file@,
                bytes_downloaded,
            },
            DownloadEvent::Completed { remote_file } => EventView::Completed {
                remote_file: remote_file@,
            },
            DownloadEvent::Failed { remote_file, error } => EventView::Failed {
                remote_file: remote_file@,
                error: error@,
            },
            DownloadEvent::Paused { remote_file } => EventView::Paused { remote_file: remote_file@ },
            DownloadEvent::Started { remote_file } => EventView::Started {
                remote_file: remote_file@,
            },
        }
    }
}

impl DeepView for DownloadEvent {
    type V = EventView;

    open spec fn deep_view(&self) -> EventView {
        self@
    }
}

impl Clone for DownloadEvent {
    fn clone(&self) -> (copy: Self)
        ensures
            copy == *self,
    {
        match self {
            DownloadEvent::Progress { remote_file, bytes_downloaded } => DownloadEvent::Progress {
                remote_file: remote_file.clone(),
                bytes_downloaded: *bytes_downloaded,
            },
            DownloadEvent::Completed { remote_file } => DownloadEvent::Completed {
                remote_file: remote_file.clone(),
            },
            DownloadEvent::Failed { remote_file, error } => DownloadEvent::Failed {
                remote_file: remote_file.clone(),
                error: error.clone(),
            },
            DownloadEvent::Paused { remote_file } => DownloadEvent::Paused {
                remote_file: remote_file.clone(),
            },
            DownloadEvent::Started { remote_file } => DownloadEvent::Started {
                remote_file: remote_file.clone(),
            },
        }
    }
}

/// What a new worker is started with.
#[derive(Debug, PartialEq)]
pub struct WorkerLaunch {
    pub config: SftpConfig,
    pub remote_file: String,
    /// The local file: the item's directory, a slash, the item's file name.
    pub local_path: String,
    /// The offset that the engine has on record for the item.
    pub start_offset: u64,
    /// The size that the item was queued with.
    pub size_bytes: u64,
}

/// The view of a [`WorkerLaunch`].
pub struct LaunchView {
    pub config: SftpConfig,
    pub remote_file: Seq<char>,
    pub local_path: Seq<char>,
    pub start_offset: u64,
    pub size_bytes: u64,
}

impl View for WorkerLaunch {
    type V = LaunchView;

    open spec fn view(&self) -> LaunchView {
        LaunchView {
            config: self.config,
            remote_file: self.remote_file@,
            local_path: self.local_path@,
            start_offset: self.start_offset,
            size_bytes: self.size_bytes,
        }
    }
}

/// What the caller of the dispatcher has to carry out.
#[derive(Debug, PartialEq)]
pub enum EngineAction {
    /// Send this event to the controller.
    Emit(DownloadEvent),
    /// Start a worker.
    Spawn(WorkerLaunch),
}

/// The view of an [`EngineAction`].
pub enum ActionView {
    Emit(EventView),
    Spawn(LaunchView),
}

impl View for EngineAction {
    type V = ActionView;

    open spec fn view(&self) -> ActionView {
        match *self {
            EngineAction::Emit(event) => ActionView::Emit(event@),
            EngineAction::Spawn(launch) => ActionView::Spawn(launch@),
        }
    }
}

impl DeepView for EngineAction {
    type V = ActionView;

    open spec fn deep_view(&self) -> ActionView {
        self@
    }
}

/// The dispatcher's state as mathematics.
pub struct EngineState {
    pub config: SftpConfig,
    /// The items in the order in which they were added.
    pub queue: Seq<QueueItemView>,
    /// The keys that a worker owns.
    pub active: Set<Seq<char>>,
    /// The paused keys, each with the last offset known for it.
    pub paused: Map<Seq<char>, u64>,
    /// The keys marked for abort.
    pub cancelled: Set<Seq<char>>,
    pub globally_paused: bool,
    /// In KB/s; 0 means unlimited.
    pub speed_limit: u64,
}

/// A paused map after each of `keys` was marked with offset 0.
pub open spec fn marked(paused: Map<Seq<char>, u64>, keys: Set<Seq<char>>) -> Map<Seq<char>, u64> {
    Map::new(
        |key: Seq<char>| paused.contains_key(key) || keys.contains(key),
        |key: Seq<char>|
            if keys.contains(key) {
                0u64
            } else {
                paused[key]
            },
    )
}

impl EngineState {
    /// No more workers than allowed.
    pub open spec fn bounded(self) -> bool {
        self.active.finite() && self.active.len() <= MAX_CONCURRENT
    }

    /// What the dispatcher keeps at all times: no more workers than allowed,
    /// and no key twice in the queue.
    pub open spec fn well_formed(self) -> bool {
        self.bounded() && keys_unique(self.queue)
    }

    /// Whether the dispatcher may start the item: it is pending and its key is
    /// neither active nor paused nor cancelled.
    pub open spec fn eligible(self) -> spec_fn(QueueItemView) -> bool {
        |item: QueueItemView|
            {
                &&& item.status is Pending
                &&& !self.active.contains(item.remote_file)
                &&& !self.paused.contains_key(item.remote_file)
                &&& !self.cancelled.contains(item.remote_file)
            }
    }

    /// The position of the first item that may start, or the queue's length.
    pub open spec fn next_candidate(self) -> int {
        first_where(self.queue, self.eligible(), 0)
    }

    /// Whether another worker may start now.
    pub open spec fn has_room(self) -> bool {
        self.active.len() < MAX_CONCURRENT && !self.globally_paused
    }

    /// The offset on record for an item: the paused offset where its key is
    /// paused, else the item's own.
    pub open spec fn recorded_offset(self, item: QueueItemView) -> u64 {
        if self.paused.contains_key(item.remote_file) {
            self.paused[item.remote_file]
        } else {
            item.bytes_downloaded
        }
    }

    /// What a worker for the item is started with.
    pub open spec fn launch_for(self, item: QueueItemView) -> LaunchView {
        LaunchView {
            config: self.config,
            remote_file: item.remote_file,
            local_path: item.local_location + "/"@ + item.filename,
            start_offset: self.recorded_offset(item),
            size_bytes: item.size_bytes,
        }
    }

    /// The state once the key has a worker.
    pub open spec fn activate(self, key: Seq<char>) -> EngineState {
        EngineState { active: self.active.insert(key), ..self }
    }

    /// Dispatching: while there is room, the first item that may start is
    /// started. Each start is reported and gets a worker.
    pub open spec fn dispatch(self) -> (EngineState, Seq<ActionView>)
        decreases MAX_CONCURRENT - self.active.len(),
        when self.active.finite()
        via Self::dispatch_terminates
    {
        if !self.has_room() || self.next_candidate() >= self.queue.len() {
            (self, Seq::empty())
        } else {
            let item = self.queue[self.next_candidate()];
            let rest = self.activate(item.remote_file).dispatch();
            (
                rest.0,
                seq![
                    ActionView::Emit(EventView::Started { remote_file: item.remote_file }),
                    ActionView::Spawn(self.launch_for(item)),
                ] + rest.1,
            )
        }
    }

    #[via_fn]
    proof fn dispatch_terminates(self) {
        lemma_first_where(self.queue, self.eligible(), 0);
    }

    /// The state once the worker of `key` has ended for good: the key has no
    /// worker, and its item has left the queue, so that nothing starts it
    /// again unless it is added anew.
    pub open spec fn retired(self, key: Seq<char>) -> EngineState {
        EngineState {
            active: self.active.remove(key),
            queue: without_key(self.queue, key),
            ..self
        }
    }

    /// The state once a worker has noted the offset at which it stopped for
    /// a pause: the mark of the key carries the offset. Where the key is not
    /// marked any more, nothing changes.
    pub open spec fn noted(self, key: Seq<char>, offset: u64) -> EngineState {
        if self.paused.contains_key(key) {
            EngineState { paused: self.paused.insert(key, offset), ..self }
        } else {
            self
        }
    }

    /// The paused map after every active key was marked with offset 0.
    pub open spec fn all_paused(self) -> Map<Seq<char>, u64> {
        marked(self.paused, self.active)
    }

    /// What one command does: the state after it, and the actions to carry out.
    pub open spec fn step(self, command: CommandView) -> (EngineState, Seq<ActionView>) {
        match command {
            CommandView::StartAll => EngineState { globally_paused: false, ..self }.dispatch(),
            CommandView::PauseAll => (
                EngineState { globally_paused: true, paused: self.all_paused(), ..self },
                Seq::empty(),
            ),
            CommandView::ResumeAll => EngineState {
                globally_paused: false,
                paused: Map::empty(),
                ..self
            }.dispatch(),
            CommandView::Pause(key) => (
                EngineState { paused: self.paused.insert(key, 0), ..self },
                Seq::empty(),
            ),
            CommandView::Resume(key) => EngineState {
                paused: self.paused.remove(key),
                ..self
            }.dispatch(),
            CommandView::Cancel(key) => (
                EngineState {
                    cancelled: self.cancelled.insert(key),
                    queue: without_key(self.queue, key),
                    ..self
                },
                Seq::empty(),
            ),
            CommandView::AddItem(item) => if has_key(self.queue, item.remote_file)
                || self.active.contains(item.remote_file) {
                (self, Seq::empty())
            } else {
                EngineState { queue: self.queue.push(item), ..self }.dispatch()
            },
            CommandView::TaskPaused { remote_file, offset } => (
                EngineState {
                    active: self.active.remove(remote_file),
                    queue: with_offset(self.queue, remote_file, offset),
                    ..self
                },
                Seq::empty(),
            ),
            CommandView::TaskDone { remote_file } => self.retired(remote_file).dispatch(),
            CommandView::SetSpeedLimit(limit) => (
                EngineState { speed_limit: limit, ..self },
                Seq::empty(),
            ),
        }
    }
}

/// The dispatcher. It owns the queue, the set of active keys and the flags
/// that workers poll between two chunks.
pub struct DownloadManager {
    config: SftpConfig,
    queue: ItemQueue,
    active_downloads: ActiveSet,
    paused_downloads: StringHashMap<u64>,
    cancelled: StringHashSet,
    is_global_paused: bool,
    speed_limit: u64,
}

impl View for DownloadManager {
    type V = EngineState;

    closed spec fn view(&self) -> EngineState {
        EngineState {
            config: self.config,
            queue: self.queue@,
            active: self.active_downloads@,
            paused: self.paused_downloads@,
            cancelled: self.cancelled@,
            globally_paused: self.is_global_paused,
            speed_limit: self.speed_limit,
        }
    }
}

impl DownloadManager {
    /// An engine with nothing queued, nothing running and nothing paused.
    pub fn new(config: SftpConfig, initial_speed_limit: u64) -> (manager: Self)
        ensures
            manager@ == (EngineState {
                config,
                queue: Seq::empty(),
                active: Set::empty(),
                paused: Map::empty(),
                cancelled: Set::empty(),
                globally_paused: false,
                speed_limit: initial_speed_limit,
            }),
            manager@.well_formed(),
    {
        DownloadManager {
            config,
            queue: ItemQueue::new(),
            active_downloads: ActiveSet::new(),
            paused_downloads: StringHashMap::new(),
            cancelled: StringHashSet::new(),
            is_global_paused: false,
            speed_limit: initial_speed_limit,
        }
    }

    /// The connection settings that workers are started with.
    pub fn config(&self) -> (config: &SftpConfig)
        ensures
            *config == self@.config,
    {
        &self.config
    }

    /// The queue, in insertion order. No two of its items share a key.
    pub fn queue(&self) -> (queue: &Vec<QueueItem>)
        ensures
            queue.deep_view() == self@.queue,
            keys_unique(self@.queue),
    {
        self.queue.items()
    }

    /// How many keys have a worker: never more than [`MAX_CONCURRENT`].
    pub fn active_count(&self) -> (count: usize)
        ensures
            count == self@.active.len(),
            count <= MAX_CONCURRENT,
            self@.bounded(),
    {
        self.active_downloads.len()
    }

    /// Whether the key has a worker.
    pub fn is_active(&self, key: &String) -> (yes: bool)
        ensures
            yes == self@.active.contains(key@),
    {
        self.active_downloads.contains(key)
    }

    /// Whether the key is marked as paused. A worker asks this before each chunk.
    pub fn is_paused(&self, key: &String) -> (yes: bool)
        ensures
            yes == self@.paused.contains_key(key@),
    {
        self.paused_downloads.contains_key(key.as_str())
    }

    /// The offset stored for a paused key.
    pub fn paused_offset(&self, key: &String) -> (offset: Option<u64>)
        ensures
            offset == (if self@.paused.contains_key(key@) {
                Some(self@.paused[key@])
            } else {
                None
            }),
    {
        match self.paused_downloads.get(key.as_str()) {
            Some(offset) => Some(*offset),
            None => None,
        }
    }

    /// Whether the key is marked for abort. A worker asks this before each chunk.
    pub fn is_cancelled(&self, key: &String) -> (yes: bool)
        ensures
            yes == self@.cancelled.contains(key@),
    {
        self.cancelled.contains(key.as_str())
    }

    /// Whether all downloading is suspended.
    pub fn is_global_paused(&self) -> (yes: bool)
        ensures
            yes == self@.globally_paused,
    {
        self.is_global_paused
    }

    /// The speed limit in KB/s that a worker reads for each chunk; 0 means none.
    pub fn speed_limit(&self) -> (limit: u64)
        ensures
            limit == self@.speed_limit,
    {
        self.speed_limit
    }

    /// Stores the offset at which a worker suspended a paused key. A key
    /// whose mark was lifted in the meantime gets no new mark. Nothing else
    /// changes.
    pub fn record_pause_offset(&mut self, key: String, offset: u64)
        ensures
            final(self)@ == old(self)@.noted(key@, offset),
            final(self)@.well_formed(),
    {
        proof {
            use_type_invariant(&self.active_downloads);
            self.active_downloads.lemma_inv();
            use_type_invariant(&self.queue);
            self.queue.lemma_inv();
        }
        if self.paused_downloads.contains_key(key.as_str()) {
            self.paused_downloads.insert(key, offset);
        }
    }

    fn next_candidate(&self) -> (found: Option<usize>)
        ensures
            match found {
                Some(at) => at == self@.next_candidate() && at < self@.queue.len(),
                None => self@.next_candidate() >= self@.queue.len(),
            },
    {
        let queue = self.queue.items();
        let ghost items = queue.deep_view();
        let ghost wanted = self@.eligible();
        let mut at: usize = 0;
        while at < queue.len()
            invariant
                at <= queue@.len(),
                items == queue.deep_view(),
                items == self@.queue,
                wanted == self@.eligible(),
                forall|j: int| 0 <= j < at ==> !wanted(#[trigger] items[j]),
            decreases queue@.len() - at,
        {
            let item = &queue[at];
            if item.status.is_pending() && !self.active_downloads.contains(&item.remote_file)
                && !self.paused_downloads.contains_key(item.remote_file.as_str())
                && !self.cancelled.contains(item.remote_file.as_str()) {
                proof {
                    assert(wanted(items[at as int]));
                    lemma_first_where_is(items, wanted, at as int);
                }
                return Some(at);
            }
            assert(!wanted(items[at as int]));
            at += 1;
        }
        proof {
            lemma_first_where_is(items, wanted, at as int);
        }
        None
    }

    /// Starts items while there is room: the first pending item whose key is
    /// neither active nor paused nor cancelled, then the next, until
    /// [`MAX_CONCURRENT`] keys are active, the engine is paused, or no such item
    /// is left. Returns, for each start, the `Started` event and the launch.
    ///
    /// So the items that start are the first of those that wait, in queue
    /// order, as many as there is room for; their keys join the active keys,
    /// and nothing else changes.
    pub fn process_queue(&mut self) -> (actions: Vec<EngineAction>)
        ensures
            (final(self)@, actions.deep_view()) == old(self)@.dispatch(),
            actions.deep_view() == old(self)@.starts_of(old(self)@.chosen()),
            final(self)@ == (EngineState {
                active: old(self)@.active.union(keys_of(old(self)@.chosen())),
                ..old(self)@
            }),
            final(self)@.well_formed(),
    {
        let mut actions: Vec<EngineAction> = Vec::new();
        let mut looking = true;
        proof {
            use_type_invariant(&self.active_downloads);
            self.active_downloads.lemma_inv();
            use_type_invariant(&self.queue);
            self.queue.lemma_inv();
            lemma_dispatch_in_order(self@);
            assert(actions.deep_view() =~= Seq::<ActionView>::empty());
            assert(actions.deep_view() + self@.dispatch().1 =~= self@.dispatch().1);
        }
        while looking
            invariant
                self@.well_formed(),
                old(self)@.dispatch() == (
                    self@.dispatch().0,
                    actions.deep_view() + self@.dispatch().1,
                ),
                !looking ==> self@.dispatch() == (self@, Seq::<ActionView>::empty()),
            decreases 2 * (MAX_CONCURRENT - self@.active.len()) + (if looking { 1int } else { 0int }),
        {
            let ghost before = self@;
            let ghost done = actions.deep_view();
            if self.active_downloads.len() >= MAX_CONCURRENT || self.is_global_paused {
                looking = false;
            } else {
                match self.next_candidate() {
                    None => {
                        looking = false;
                    },
                    Some(at) => {
                        let item = &self.queue.items()[at];
                        assert(self@.queue[at as int] == item@);
                        let remote_file = item.remote_file.clone();
                        let local_path = item.local_location.clone().concat("/").concat(
                            item.filename.as_str(),
                        );
                        let start_offset = match self.paused_downloads.get(remote_file.as_str()) {
                            Some(offset) => *offset,
                            None => item.bytes_downloaded,
                        };
                        let launch = WorkerLaunch {
                            config: self.config.clone(),
                            remote_file: remote_file.clone(),
                            local_path,
                            start_offset,
                            size_bytes: item.size_bytes,
                        };
                        proof {
                            lemma_first_where(before.queue, before.eligible(), 0);
                            assert(before.eligible()(item@));
                            assert(launch@ == before.launch_for(item@));
                        }
                        self.active_downloads.insert(remote_file.clone());
                        actions.push(EngineAction::Emit(DownloadEvent::Started { remote_file }));
                        actions.push(EngineAction::Spawn(launch));
                        proof {
                            let started = seq![
                                ActionView::Emit(EventView::Started { remote_file: item@.remote_file }),
                                ActionView::Spawn(before.launch_for(item@)),
                            ];
                            assert(self@ == before.activate(item@.remote_file));
                            assert(actions.deep_view() =~= done + started);
                            assert(before.dispatch().1 == started + self@.dispatch().1);
                            assert(done + (started + self@.dispatch().1) =~= (done + started)
                                + self@.dispatch().1);
                        }
                    },
                }
            }
        }
        proof {
            assert(actions.deep_view() + Seq::<ActionView>::empty() =~= actions.deep_view());
        }
        actions
    }

    fn pause_active(&mut self)
        ensures
            final(self)@ == (EngineState { paused: old(self)@.all_paused(), ..old(self)@ }),
    {
        let ghost before = self@;
        let count = self.active_downloads.len();
        let ghost order = self.active_downloads.order();
        let mut at: usize = 0;
        proof {
            assert(order.take(0) =~= Seq::<Seq<char>>::empty());
            assert(order.take(0).to_set() =~= Set::<Seq<char>>::empty());
            assert(before.paused =~= marked(before.paused, Set::<Seq<char>>::empty()));
        }
        while at < count
            invariant
                at <= count,
                count == order.len(),
                order == self.active_downloads.order(),
                order.to_set() == before.active,
                self@ == (EngineState { paused: self@.paused, ..before }),
                self@.paused == marked(before.paused, order.take(at as int).to_set()),
            decreases count - at,
        {
            let key = self.active_downloads.key_at(at).clone();
            let ghost sofar = order.take(at as int);
            self.paused_downloads.insert(key, 0);
            proof {
                assert(order.take(at + 1) =~= sofar.push(order[at as int]));
                sofar.lemma_push_to_set_commute(order[at as int]);
                assert(self@.paused =~= marked(
                    before.paused,
                    sofar.to_set().insert(order[at as int]),
                ));
            }
            at += 1;
        }
        proof {
            assert(order.take(at as int) =~= order);
        }
    }

    /// Carries out one command and returns what the caller has to do for it.
    ///
    /// `AddItem` appends an item unless its key is queued or active, then
    /// dispatches. `StartAll` lifts the global pause and dispatches. `PauseAll`
    /// sets the global pause and marks every active key as paused at offset 0.
    /// `ResumeAll` lifts the global pause, forgets all pause marks and
    /// dispatches. `Pause` marks one key as paused at offset 0. `Resume` forgets
    /// the mark of one key and dispatches. `Cancel` marks the key for abort and
    /// takes its items out of the queue. `SetSpeedLimit` stores the limit.
    /// `TaskPaused` frees the key's slot and writes the offset to its item.
    /// `TaskDone` frees the key's slot, takes the finished item out of the
    /// queue and dispatches, so the slot goes to the next item in line.
    pub fn handle_command(&mut self, command: DownloadCommand) -> (actions: Vec<EngineAction>)
        ensures
            (final(self)@, actions.deep_view()) == old(self)@.step(command@),
            final(self)@.well_formed(),
    {
        proof {
            use_type_invariant(&self.active_downloads);
            self.active_downloads.lemma_inv();
            use_type_invariant(&self.queue);
            self.queue.lemma_inv();
            lemma_step_bounded(self@, command@);
            lemma_step_keeps_keys_unique(self@, command@);
        }
        let ghost before = self@;
        match command {
            DownloadCommand::StartAll => {
                self.is_global_paused = false;
                self.process_queue()
            },
            DownloadCommand::PauseAll => {
                self.is_global_paused = true;
                self.pause_active();
                let actions: Vec<EngineAction> = Vec::new();
                assert(actions.deep_view() =~= Seq::<ActionView>::empty());
                actions
            },
            DownloadCommand::ResumeAll => {
                self.is_global_paused = false;
                self.paused_downloads.clear();
                self.process_queue()
            },
            DownloadCommand::Pause(path) => {
                self.paused_downloads.insert(path, 0);
                let actions: Vec<EngineAction> = Vec::new();
                assert(actions.deep_view() =~= Seq::<ActionView>::empty());
                actions
            },
            DownloadCommand::Resume(path) => {
                self.paused_downloads.remove(path.as_str());
                self.process_queue()
            },
            DownloadCommand::Cancel(path) => {
                self.queue.remove(&path);
                self.cancelled.insert(path);
                let actions: Vec<EngineAction> = Vec::new();
                assert(actions.deep_view() =~= Seq::<ActionView>::empty());
                actions
            },
            DownloadCommand::AddItem(item) => {
                let queued = if self.active_downloads.contains(&item.remote_file) {
                    false
                } else {
                    self.queue.push(item)
                };
                if queued {
                    self.process_queue()
                } else {
                    let actions: Vec<EngineAction> = Vec::new();
                    assert(actions.deep_view() =~= Seq::<ActionView>::empty());
                    actions
                }
            },
            DownloadCommand::TaskPaused { remote_file, offset } => {
                self.active_downloads.remove(&remote_file);
                self.queue.set_offset(&remote_file, offset);
                let actions: Vec<EngineAction> = Vec::new();
                assert(actions.deep_view() =~= Seq::<ActionView>::empty());
                actions
            },
            DownloadCommand::TaskDone { remote_file } => {
                self.active_downloads.remove(&remote_file);
                self.queue.remove(&remote_file);
                self.process_queue()
            },
            DownloadCommand::SetSpeedLimit(limit) => {
                self.speed_limit = limit;
                let actions: Vec<EngineAction> = Vec::new();
                assert(actions.deep_view() =~= Seq::<ActionView>::empty());
                actions
            },
        }
    }
}

impl EngineState {
    /// Whether the action starts the item: it reports `Started` for it, or
    /// launches its worker, and the item may start in this state.
    pub open spec fn starts_item(self, action: ActionView, item: QueueItemView) -> bool {
        &&& self.eligible()(item)
        &&& (action == ActionView::Emit(EventView::Started { remote_file: item.remote_file })
            || action == ActionView::Spawn(self.launch_for(item)))
    }

    /// Whether the action starts some item of the queue.
    pub open spec fn starts_queued(self, action: ActionView) -> bool {
        exists|i: int| 0 <= i < self.queue.len() && self.starts_item(action, #[trigger] self.queue[i])
    }

    /// The state after a series of commands, and all actions in order.
    pub open spec fn run(self, commands: Seq<CommandView>) -> (EngineState, Seq<ActionView>)
        decreases commands.len(),
    {
        if commands.len() == 0 {
            (self, Seq::empty())
        } else {
            let before = self.run(commands.drop_last());
            let last = before.0.step(commands.last());
            (last.0, before.1 + last.1)
        }
    }
}

/// Whether the action is about the key: a report on it or a launch for it.
pub open spec fn concerns(action: ActionView, key: Seq<char>) -> bool {
    match action {
        ActionView::Emit(event) => event.key() == key,
        ActionView::Spawn(launch) => launch.remote_file == key,
    }
}

/// Dispatching changes nothing but the set of active keys, which it only
/// extends and never beyond the limit, and every action it returns starts an
/// item of the queue that was allowed to start.
pub proof fn lemma_dispatch(state: EngineState)
    requires
        state.bounded(),
    ensures
        ({
            let after = state.dispatch();
            &&& after.0 == (EngineState { active: after.0.active, ..state })
            &&& after.0.bounded()
            &&& state.active.subset_of(after.0.active)
            &&& forall|j: int| 0 <= j < after.1.len() ==> state.starts_queued(#[trigger] after.1[j])
        }),
    decreases MAX_CONCURRENT - state.active.len(),
{
    lemma_first_where(state.queue, state.eligible(), 0);
    if state.has_room() && state.next_candidate() < state.queue.len() {
        let at = state.next_candidate();
        let item = state.queue[at];
        let next = state.activate(item.remote_file);
        lemma_dispatch(next);
        let rest = next.dispatch();
        let after = state.dispatch();
        assert forall|j: int| 0 <= j < after.1.len() implies state.starts_queued(
            #[trigger] after.1[j],
        ) by {
            if j < 2 {
                assert(state.starts_item(after.1[j], state.queue[at]));
            } else {
                assert(after.1[j] == rest.1[j - 2]);
                assert(next.starts_queued(rest.1[j - 2]));
                let i = choose|i: int|
                    0 <= i < next.queue.len() && next.starts_item(
                        rest.1[j - 2],
                        #[trigger] next.queue[i],
                    );
                assert(state.starts_item(after.1[j], state.queue[i]));
            }
        }
    }
}

/// No command lets the engine run more workers than [`MAX_CONCURRENT`].
pub proof fn lemma_step_bounded(state: EngineState, command: CommandView)
    requires
        state.bounded(),
    ensures
        state.step(command).0.bounded(),
{
    match command {
        CommandView::StartAll => {
            lemma_dispatch(EngineState { globally_paused: false, ..state });
        },
        CommandView::ResumeAll => {
            lemma_dispatch(EngineState { globally_paused: false, paused: Map::empty(), ..state });
        },
        CommandView::Resume(key) => {
            lemma_dispatch(EngineState { paused: state.paused.remove(key), ..state });
        },
        CommandView::AddItem(item) => {
            lemma_dispatch(EngineState { queue: state.queue.push(item), ..state });
        },
        CommandView::TaskDone { remote_file } => {
            lemma_dispatch(state.retired(remote_file));
        },
        _ => {},
    }
}

/// Whatever commands the engine is given, it never runs more workers than
/// [`MAX_CONCURRENT`].
pub proof fn lemma_run_bounded(state: EngineState, commands: Seq<CommandView>)
    requires
        state.bounded(),
    ensures
        state.run(commands).0.bounded(),
    decreases commands.len(),
{
    if commands.len() > 0 {
        lemma_run_bounded(state, commands.drop_last());
        lemma_step_bounded(state.run(commands.drop_last()).0, commands.last());
    }
}

/// A cancelled key stays cancelled, and no command makes the dispatcher
/// report on it or launch a worker for it.
pub proof fn lemma_step_skips_cancelled(state: EngineState, command: CommandView, key: Seq<char>)
    requires
        state.bounded(),
        state.cancelled.contains(key),
    ensures
        state.step(command).0.cancelled.contains(key),
        forall|j: int|
            0 <= j < state.step(command).1.len() ==> !concerns(
                #[trigger] state.step(command).1[j],
                key,
            ),
{
    let origin = match command {
        CommandView::StartAll => EngineState { globally_paused: false, ..state },
        CommandView::ResumeAll => EngineState {
            globally_paused: false,
            paused: Map::empty(),
            ..state
        },
        CommandView::Resume(path) => EngineState { paused: state.paused.remove(path), ..state },
        CommandView::AddItem(item) => EngineState { queue: state.queue.push(item), ..state },
        CommandView::TaskDone { remote_file } => state.retired(remote_file),
        _ => state,
    };
    lemma_dispatch(origin);
    let actions = state.step(command).1;
    assert forall|j: int| 0 <= j < actions.len() implies !concerns(#[trigger] actions[j], key) by {
        assert(origin.starts_queued(actions[j]));
    }
}

/// After `Cancel(p)` the dispatcher is silent about `p`: the key is marked,
/// its items are gone from the queue, and whatever commands follow, no action
/// of the dispatcher reports on `p` or launches a worker for it.
pub proof fn lemma_cancel_silences(state: EngineState, key: Seq<char>, later: Seq<CommandView>)
    requires
        state.bounded(),
    ensures
        ({
            let cancelled = state.step(CommandView::Cancel(key));
            let after = cancelled.0.run(later);
            &&& cancelled.1.len() == 0
            &&& cancelled.0.cancelled.contains(key)
            &&& !has_key(cancelled.0.queue, key)
            &&& after.0.cancelled.contains(key)
            &&& forall|j: int| 0 <= j < after.1.len() ==> !concerns(#[trigger] after.1[j], key)
        }),
{
    let cancelled = state.step(CommandView::Cancel(key)).0;
    assert(!has_key(cancelled.queue, key)) by {
        if has_key(cancelled.queue, key) {
            let i = choose|i: int|
                0 <= i < cancelled.queue.len() && (#[trigger] cancelled.queue[i]).remote_file
                    == key;
            state.queue.lemma_filter_pred(crate::queue::not_keyed(key), i);
        }
    }
    lemma_run_skips_cancelled(cancelled, later, key);
}

/// Whatever commands are given to an engine in which a key is cancelled, the
/// key stays cancelled and no action concerns it.
pub proof fn lemma_run_skips_cancelled(
    state: EngineState,
    commands: Seq<CommandView>,
    key: Seq<char>,
)
    requires
        state.bounded(),
        state.cancelled.contains(key),
    ensures
        state.run(commands).0.cancelled.contains(key),
        state.run(commands).0.bounded(),
        forall|j: int|
            0 <= j < state.run(commands).1.len() ==> !concerns(
                #[trigger] state.run(commands).1[j],
                key,
            ),
    decreases commands.len(),
{
    if commands.len() > 0 {
        let before = state.run(commands.drop_last());
        lemma_run_skips_cancelled(state, commands.drop_last(), key);
        lemma_step_skips_cancelled(before.0, commands.last(), key);
        lemma_step_bounded(before.0, commands.last());
    }
}

/// `PauseAll` followed by `ResumeAll` leaves the queue as it was, so the
/// completed items are the same as before. The pause starts nothing and marks
/// every active key; the resume forgets all marks, lifts the global pause and
/// keeps every key active that was active.
pub proof fn lemma_pause_then_resume(state: EngineState)
    requires
        state.bounded(),
    ensures
        ({
            let paused = state.step(CommandView::PauseAll);
            let resumed = paused.0.step(CommandView::ResumeAll);
            &&& paused.1.len() == 0
            &&& paused.0.globally_paused
            &&& paused.0.queue == state.queue
            &&& paused.0.active == state.active
            &&& forall|key: Seq<char>|
                state.active.contains(key) ==> paused.0.paused.contains_key(key)
            &&& resumed.0.queue == state.queue
            &&& !resumed.0.globally_paused
            &&& state.active.subset_of(resumed.0.active)
            &&& resumed.0.bounded()
        }),
{
    let paused = state.step(CommandView::PauseAll).0;
    lemma_dispatch(EngineState { globally_paused: false, paused: Map::empty(), ..paused });
}

/// No command gives two items of the queue the same key.
pub proof fn lemma_step_keeps_keys_unique(state: EngineState, command: CommandView)
    requires
        state.bounded(),
        crate::queue::keys_unique(state.queue),
    ensures
        crate::queue::keys_unique(state.step(command).0.queue),
{
    match command {
        CommandView::StartAll => {
            lemma_dispatch(EngineState { globally_paused: false, ..state });
        },
        CommandView::ResumeAll => {
            lemma_dispatch(EngineState { globally_paused: false, paused: Map::empty(), ..state });
        },
        CommandView::Resume(key) => {
            lemma_dispatch(EngineState { paused: state.paused.remove(key), ..state });
        },
        CommandView::AddItem(item) => {
            lemma_dispatch(EngineState { queue: state.queue.push(item), ..state });
        },
        CommandView::TaskDone { remote_file } => {
            crate::queue::lemma_without_key(state.queue, remote_file);
            lemma_dispatch(state.retired(remote_file));
        },
        CommandView::Cancel(key) => {
            crate::queue::lemma_without_key(state.queue, key);
        },
        CommandView::TaskPaused { remote_file, offset } => {
            lemma_first_where(state.queue, crate::queue::keyed(remote_file), 0);
        },
        _ => {},
    }
}

/// A worker that was paused resumes where it stopped. When the worker of the
/// item `key` has reported the offset at which it stopped (`TaskPaused`), the
/// item carries that offset, and a later `ResumeAll` that launches a worker
/// for `key` starts it at that offset.
pub proof fn lemma_resume_from_reported_offset(state: EngineState, key: Seq<char>, offset: u64)
    requires
        state.bounded(),
        crate::queue::keys_unique(state.queue),
        has_key(state.queue, key),
    ensures
        ({
            let stopped = state.step(CommandView::TaskPaused { remote_file: key, offset });
            let resumed = stopped.0.step(CommandView::ResumeAll);
            &&& stopped.1.len() == 0
            &&& !stopped.0.active.contains(key)
            &&& stopped.0.queue.len() == state.queue.len()
            &&& stopped.0.queue[index_of(state.queue, key)] == (QueueItemView {
                bytes_downloaded: offset,
                ..state.queue[index_of(state.queue, key)]
            })
            &&& forall|j: int|
                0 <= j < resumed.1.len() ==> ((#[trigger] resumed.1[j]) matches ActionView::Spawn(
                    launch,
                ) ==> launch.remote_file == key ==> launch.start_offset == offset)
        }),
{
    let stopped = state.step(CommandView::TaskPaused { remote_file: key, offset }).0;
    let at = index_of(state.queue, key);
    lemma_first_where(state.queue, crate::queue::keyed(key), 0);
    let i0 = choose|i: int| 0 <= i < state.queue.len() && (#[trigger] state.queue[i]).remote_file == key;
    assert(crate::queue::keyed(key)(state.queue[i0]));
    assert(at < state.queue.len());
    lemma_step_keeps_keys_unique(state, CommandView::TaskPaused { remote_file: key, offset });
    lemma_step_bounded(state, CommandView::TaskPaused { remote_file: key, offset });
    let origin = EngineState { globally_paused: false, paused: Map::empty(), ..stopped };
    lemma_dispatch(origin);
    let actions = stopped.step(CommandView::ResumeAll).1;
    assert forall|j: int| 0 <= j < actions.len() implies ((#[trigger] actions[j]) matches ActionView::Spawn(
        launch,
    ) ==> launch.remote_file == key ==> launch.start_offset == offset) by {
        assert(origin.starts_queued(actions[j]));
        let i = choose|i: int|
            0 <= i < origin.queue.len() && origin.starts_item(actions[j], #[trigger] origin.queue[i]);
        if actions[j] is Spawn {
            if actions[j]->Spawn_0.remote_file == key {
                assert(origin.queue[i].remote_file == key);
                assert(origin.queue[at].remote_file == key);
                if i < at {
                    assert(origin.queue[i].remote_file != origin.queue[at].remote_file);
                }
                if at < i {
                    assert(origin.queue[at].remote_file != origin.queue[i].remote_file);
                }
            }
        }
    }
}

/// Whether the actions are starts, each a `Started` report followed by the
/// launch of the worker for the same item.
pub open spec fn starts_in_pairs(actions: Seq<ActionView>) -> bool {
    &&& actions.len() % 2 == 0
    &&& forall|k: int|
        0 <= k && 2 * k + 1 < actions.len() ==> (#[trigger] actions[2 * k + 1]) is Spawn
            && actions[2 * k] == ActionView::Emit(
            EventView::Started { remote_file: actions[2 * k + 1]->Spawn_0.remote_file },
        )
}

/// Every worker is announced before it runs: what dispatching returns is a
/// series of starts, each the `Started` report for an item and right after it
/// the launch of that item's worker, and it is never more than the limit of
/// starts.
pub proof fn lemma_dispatch_pairs(state: EngineState)
    requires
        state.bounded(),
    ensures
        starts_in_pairs(state.dispatch().1),
        state.dispatch().1.len() == 2 * (state.dispatch().0.active.len() - state.active.len()),
    decreases MAX_CONCURRENT - state.active.len(),
{
    lemma_first_where(state.queue, state.eligible(), 0);
    lemma_dispatch(state);
    if state.has_room() && state.next_candidate() < state.queue.len() {
        let item = state.queue[state.next_candidate()];
        let next = state.activate(item.remote_file);
        lemma_dispatch_pairs(next);
        let rest = next.dispatch().1;
        let all = state.dispatch().1;
        assert forall|k: int| 0 <= k && 2 * k + 1 < all.len() implies (#[trigger] all[2 * k
            + 1]) is Spawn && all[2 * k] == ActionView::Emit(
            EventView::Started { remote_file: all[2 * k + 1]->Spawn_0.remote_file },
        ) by {
            if k > 0 {
                assert(all[2 * k + 1] == rest[2 * (k - 1) + 1]);
                assert(all[2 * k] == rest[2 * (k - 1)]);
            }
        }
    }
}

/// Whatever the command, the dispatcher's actions are starts in pairs: it
/// reports nothing but `Started`, and that only together with a launch.
pub proof fn lemma_step_pairs(state: EngineState, command: CommandView)
    requires
        state.bounded(),
    ensures
        starts_in_pairs(state.step(command).1),
{
    match command {
        CommandView::StartAll => {
            lemma_dispatch_pairs(EngineState { globally_paused: false, ..state });
        },
        CommandView::ResumeAll => {
            lemma_dispatch_pairs(
                EngineState { globally_paused: false, paused: Map::empty(), ..state },
            );
        },
        CommandView::Resume(key) => {
            lemma_dispatch_pairs(EngineState { paused: state.paused.remove(key), ..state });
        },
        CommandView::AddItem(item) => {
            lemma_dispatch_pairs(EngineState { queue: state.queue.push(item), ..state });
        },
        CommandView::TaskDone { remote_file } => {
            lemma_dispatch_pairs(state.retired(remote_file));
        },
        _ => {},
    }
}

/// The keys of the items.
pub open spec fn keys_of(items: Seq<QueueItemView>) -> Set<Seq<char>> {
    Set::new(|key: Seq<char>| has_key(items, key))
}

impl EngineState {
    /// The items that wait for a worker, in queue order: the pending ones
    /// whose key is neither active nor paused nor cancelled.
    pub open spec fn waiting(self) -> Seq<QueueItemView> {
        self.queue.filter(self.eligible())
    }

    /// How many workers may be started now: none while all downloading is
    /// suspended, else what is missing to the limit.
    pub open spec fn room(self) -> nat {
        if self.globally_paused || self.active.len() >= MAX_CONCURRENT {
            0
        } else {
            (MAX_CONCURRENT - self.active.len()) as nat
        }
    }

    /// The actions that start the given items one after the other: for each
    /// item its `Started` report and then the launch of its worker.
    pub open spec fn starts_of(self, items: Seq<QueueItemView>) -> Seq<ActionView> {
        Seq::new(
            2 * items.len(),
            |j: int|
                if j % 2 == 0 {
                    ActionView::Emit(EventView::Started { remote_file: items[j / 2].remote_file })
                } else {
                    ActionView::Spawn(self.launch_for(items[j / 2]))
                },
        )
    }

    /// The items that dispatching starts: the first of those that wait, as
    /// many as there is room for.
    pub open spec fn chosen(self) -> Seq<QueueItemView> {
        let waiting = self.waiting();
        if self.room() < waiting.len() {
            waiting.take(self.room() as int)
        } else {
            waiting
        }
    }
}

/// Dispatching serves the queue in order. In a queue without a repeated key,
/// the items that it starts are the first of those that wait, as many as
/// there is room for and no more: each is reported as started once, right
/// before its worker is launched, in queue order; their keys, and no others,
/// join the active keys; and nothing else changes.
pub proof fn lemma_dispatch_in_order(state: EngineState)
    requires
        state.bounded(),
        crate::queue::keys_unique(state.queue),
    ensures
        state.dispatch().1 == state.starts_of(state.chosen()),
        state.dispatch().0 == (EngineState {
            active: state.active.union(keys_of(state.chosen())),
            ..state
        }),
        state.chosen().len() <= MAX_CONCURRENT - state.active.len(),
    decreases MAX_CONCURRENT - state.active.len(),
{
    let queue = state.queue;
    let wanted = state.eligible();
    let at = state.next_candidate();
    lemma_first_where(queue, wanted, 0);
    crate::queue::lemma_filter_from_first(queue, wanted);
    lemma_dispatch(state);
    if !state.has_room() || at >= queue.len() {
        assert(state.chosen() =~= Seq::<QueueItemView>::empty());
        assert(state.starts_of(state.chosen()) =~= Seq::<ActionView>::empty());
        assert(state.active.union(keys_of(state.chosen())) =~= state.active);
    } else {
        let item = queue[at];
        let next = state.activate(item.remote_file);
        let later = queue.skip(at + 1);
        assert(wanted(item));
        // Behind the item that starts, the same items wait as before.
        assert forall|i: int| 0 <= i < at + 1 implies !(next.eligible())(#[trigger] queue[i]) by {
            if i < at {
                assert(!wanted(queue[i]));
            }
        }
        crate::queue::lemma_filter_skips_rejected(queue, next.eligible(), at + 1);
        assert forall|i: int| 0 <= i < later.len() implies wanted(#[trigger] later[i]) == (
        next.eligible())(later[i]) by {
            assert(later[i] == queue[at + 1 + i]);
            assert(queue[at].remote_file != queue[at + 1 + i].remote_file);
        }
        crate::queue::lemma_filter_agree(later, wanted, next.eligible());
        assert(state.waiting() == seq![item] + next.waiting());
        lemma_dispatch_in_order(next);
        let first = state.chosen();
        let rest = next.chosen();
        assert(first =~= seq![item] + rest);
        let pair = seq![
            ActionView::Emit(EventView::Started { remote_file: item.remote_file }),
            ActionView::Spawn(state.launch_for(item)),
        ];
        assert forall|j: int| 0 <= j < 2 * first.len() implies #[trigger] state.starts_of(first)[j]
            == (pair + next.starts_of(rest))[j] by {
            if j >= 2 {
                assert(first[j / 2] == rest[(j - 2) / 2]);
            }
        }
        assert(state.starts_of(first) =~= pair + next.starts_of(rest));
        assert forall|key: Seq<char>| has_key(first, key) <==> (key == item.remote_file || has_key(
            rest,
            key,
        )) by {
            if has_key(rest, key) {
                let i = choose|i: int| 0 <= i < rest.len() && (#[trigger] rest[i]).remote_file == key;
                assert(first[i + 1].remote_file == key);
            }
            if has_key(first, key) && key != item.remote_file {
                let i = choose|i: int|
                    0 <= i < first.len() && (#[trigger] first[i]).remote_file == key;
                assert(rest[i - 1].remote_file == key);
            }
            if key == item.remote_file {
                assert(first[0].remote_file == key);
            }
        }
        assert(next.active.union(keys_of(rest)) =~= state.active.union(keys_of(first)));
    }
}

/// A worker that has ended for good leaves nothing to start again: `TaskDone`
/// frees the key's slot and takes its item out of the queue, and no action of
/// that step is about the key.
pub proof fn lemma_done_retires(state: EngineState, key: Seq<char>)
    requires
        state.bounded(),
    ensures
        ({
            let done = state.step(CommandView::TaskDone { remote_file: key });
            &&& !done.0.active.contains(key)
            &&& !has_key(done.0.queue, key)
            &&& done.0.bounded()
            &&& forall|j: int| 0 <= j < done.1.len() ==> !concerns(#[trigger] done.1[j], key)
        }),
{
    let origin = state.retired(key);
    assert(!has_key(origin.queue, key)) by {
        if has_key(origin.queue, key) {
            let i = choose|i: int|
                0 <= i < origin.queue.len() && (#[trigger] origin.queue[i]).remote_file == key;
            state.queue.lemma_filter_pred(crate::queue::not_keyed(key), i);
        }
    }
    lemma_dispatch(origin);
    lemma_unqueued_is_not_started(origin, key);
}

/// Whether the command adds an item with the key.
pub open spec fn adds(command: CommandView, key: Seq<char>) -> bool {
    command matches CommandView::AddItem(item) && item.remote_file == key
}

/// Dispatching starts no worker for a key that has no item in the queue, and
/// no key becomes active by it that has none.
pub proof fn lemma_unqueued_is_not_started(state: EngineState, key: Seq<char>)
    requires
        state.bounded(),
        !has_key(state.queue, key),
    ensures
        forall|j: int|
            0 <= j < state.dispatch().1.len() ==> !concerns(#[trigger] state.dispatch().1[j], key),
        state.dispatch().0.active.contains(key) == state.active.contains(key),
    decreases MAX_CONCURRENT - state.active.len(),
{
    lemma_dispatch(state);
    lemma_first_where(state.queue, state.eligible(), 0);
    let actions = state.dispatch().1;
    assert forall|j: int| 0 <= j < actions.len() implies !concerns(#[trigger] actions[j], key) by {
        assert(state.starts_queued(actions[j]));
    }
    if state.has_room() && state.next_candidate() < state.queue.len() {
        let item = state.queue[state.next_candidate()];
        assert(item.remote_file != key);
        lemma_unqueued_is_not_started(state.activate(item.remote_file), key);
    }
}

/// A command that does not add the key leaves it out of the queue where it
/// was out, starts no worker for it and does not make it active.
pub proof fn lemma_step_skips_unqueued(state: EngineState, command: CommandView, key: Seq<char>)
    requires
        state.bounded(),
        !has_key(state.queue, key),
        !adds(command, key),
    ensures
        !has_key(state.step(command).0.queue, key),
        state.active.contains(key) || !state.step(command).0.active.contains(key),
        forall|j: int|
            0 <= j < state.step(command).1.len() ==> !concerns(
                #[trigger] state.step(command).1[j],
                key,
            ),
{
    let origin = match command {
        CommandView::StartAll => EngineState { globally_paused: false, ..state },
        CommandView::ResumeAll => EngineState {
            globally_paused: false,
            paused: Map::empty(),
            ..state
        },
        CommandView::Resume(path) => EngineState { paused: state.paused.remove(path), ..state },
        CommandView::AddItem(item) => EngineState { queue: state.queue.push(item), ..state },
        CommandView::TaskDone { remote_file } => state.retired(remote_file),
        _ => state,
    };
    match command {
        CommandView::Cancel(path) => {
            crate::queue::lemma_without_key_keeps_absent(state.queue, path, key);
        },
        CommandView::TaskDone { remote_file } => {
            crate::queue::lemma_without_key_keeps_absent(state.queue, remote_file, key);
        },
        CommandView::TaskPaused { remote_file, offset } => {
            lemma_first_where(state.queue, crate::queue::keyed(remote_file), 0);
        },
        _ => {},
    }
    assert(!has_key(origin.queue, key));
    lemma_dispatch(origin);
    lemma_unqueued_is_not_started(origin, key);
}

/// Whether none of the commands adds an item with the key.
pub open spec fn never_adds(commands: Seq<CommandView>, key: Seq<char>) -> bool {
    forall|i: int| 0 <= i < commands.len() ==> !adds(#[trigger] commands[i], key)
}

/// An item whose worker has ended for good is not started again until it is
/// added anew: after `TaskDone` for a key, whatever commands follow, as long
/// as none of them adds the key, the dispatcher starts no worker for it and
/// reports nothing about it, and the key stays without a worker.
pub proof fn lemma_done_is_final(state: EngineState, key: Seq<char>, later: Seq<CommandView>)
    requires
        state.bounded(),
        never_adds(later, key),
    ensures
        ({
            let done = state.step(CommandView::TaskDone { remote_file: key });
            let after = done.0.run(later);
            &&& forall|j: int| 0 <= j < done.1.len() ==> !concerns(#[trigger] done.1[j], key)
            &&& forall|j: int| 0 <= j < after.1.len() ==> !concerns(#[trigger] after.1[j], key)
            &&& !after.0.active.contains(key)
            &&& !has_key(after.0.queue, key)
        }),
{
    lemma_done_retires(state, key);
    lemma_run_skips_unqueued(state.step(CommandView::TaskDone { remote_file: key }).0, later, key);
}

/// Whatever commands are given to an engine that has no item and no worker
/// for a key, as long as none of them adds the key, the engine starts no
/// worker for it.
pub proof fn lemma_run_skips_unqueued(state: EngineState, commands: Seq<CommandView>, key: Seq<char>)
    requires
        state.bounded(),
        !has_key(state.queue, key),
        !state.active.contains(key),
        never_adds(commands, key),
    ensures
        state.run(commands).0.bounded(),
        !has_key(state.run(commands).0.queue, key),
        !state.run(commands).0.active.contains(key),
        forall|j: int|
            0 <= j < state.run(commands).1.len() ==> !concerns(
                #[trigger] state.run(commands).1[j],
                key,
            ),
    decreases commands.len(),
{
    if commands.len() > 0 {
        let shorter = commands.drop_last();
        assert forall|i: int| 0 <= i < shorter.len() implies !adds(#[trigger] shorter[i], key) by {
            assert(shorter[i] == commands[i]);
        }
        assert(!adds(commands[commands.len() - 1], key));
        let before = state.run(shorter);
        lemma_run_skips_unqueued(state, shorter, key);
        lemma_step_skips_unqueued(before.0, commands.last(), key);
        lemma_step_bounded(before.0, commands.last());
    }
}

/// An item that is added where nothing waits and a slot is free starts at
/// once: if the item may start, is not queued yet, no other item waits and
/// there is room, adding it reports it as started and launches its worker at
/// the offset that the item carries, and its key becomes active.
pub proof fn lemma_added_item_starts(state: EngineState, item: QueueItemView)
    requires
        state.well_formed(),
        !has_key(state.queue, item.remote_file),
        state.eligible()(item),
        state.waiting().len() == 0,
        state.room() > 0,
    ensures
        ({
            let added = state.step(CommandView::AddItem(item));
            &&& added.1 == seq![
                ActionView::Emit(EventView::Started { remote_file: item.remote_file }),
                ActionView::Spawn(state.launch_for(item)),
            ]
            &&& state.launch_for(item).start_offset == item.bytes_downloaded
            &&& added.0 == (EngineState {
                queue: state.queue.push(item),
                active: state.active.insert(item.remote_file),
                ..state
            })
        }),
{
    let origin = EngineState { queue: state.queue.push(item), ..state };
    assert(keys_unique(origin.queue));
    lemma_dispatch_in_order(origin);
    state.queue.lemma_filter_push(item, state.eligible());
    crate::queue::lemma_filter_agree(origin.queue, state.eligible(), origin.eligible());
    assert(state.waiting() =~= Seq::<QueueItemView>::empty());
    assert(origin.waiting() =~= seq![item]);
    assert(origin.chosen() =~= seq![item]);
    assert(origin.starts_of(origin.chosen()) =~= seq![
        ActionView::Emit(EventView::Started { remote_file: item.remote_file }),
        ActionView::Spawn(state.launch_for(item)),
    ]);
    assert(keys_of(seq![item]) =~= Set::<Seq<char>>::empty().insert(item.remote_file)) by {
        assert forall|key: Seq<char>| has_key(seq![item], key) <==> key == item.remote_file by {
            if key == item.remote_file {
                assert(seq![item][0].remote_file == key);
            }
        }
    }
    assert(state.active.union(keys_of(seq![item])) =~= state.active.insert(item.remote_file));
}

/// An item that is handed over again and resumed is back in the engine's
/// hands: after `AddItem` for the item and `Resume` for its key, the key is
/// queued or has a worker, and it carries no pause mark.
pub proof fn lemma_resumed_item_is_back(state: EngineState, item: QueueItemView)
    requires
        state.well_formed(),
    ensures
        ({
            let after = state.run(
                seq![CommandView::AddItem(item), CommandView::Resume(item.remote_file)],
            ).0;
            &&& after.well_formed()
            &&& (has_key(after.queue, item.remote_file) || after.active.contains(item.remote_file))
            &&& !after.paused.contains_key(item.remote_file)
        }),
{
    let key = item.remote_file;
    let commands = seq![CommandView::AddItem(item), CommandView::Resume(key)];
    assert(commands.drop_last() =~= seq![CommandView::AddItem(item)]);
    assert(commands.drop_last().drop_last() =~= Seq::<CommandView>::empty());
    let added = state.step(CommandView::AddItem(item)).0;
    assert(state.run(commands.drop_last().drop_last()).0 == state);
    assert(state.run(commands.drop_last()).0 == added);
    lemma_step_bounded(state, CommandView::AddItem(item));
    lemma_step_keeps_keys_unique(state, CommandView::AddItem(item));
    lemma_step_bounded(added, CommandView::Resume(key));
    lemma_step_keeps_keys_unique(added, CommandView::Resume(key));
    let pushed = EngineState { queue: state.queue.push(item), ..state };
    lemma_dispatch(pushed);
    assert(has_key(added.queue, key) || added.active.contains(key)) by {
        if !has_key(state.queue, key) && !state.active.contains(key) {
            assert(pushed.queue[state.queue.len() as int].remote_file == key);
        }
    }
    lemma_dispatch(EngineState { paused: added.paused.remove(key), ..added });
}

impl EngineState {
    /// Whether the item waits for a worker: it is in the queue and may start.
    pub open spec fn holds_waiting(self, item: QueueItemView) -> bool {
        self.queue.contains(item) && self.eligible()(item)
    }

    /// What a worker for an item without a pause mark is started with: the
    /// offset is the item's own.
    pub open spec fn launch_at(self, item: QueueItemView) -> LaunchView {
        LaunchView {
            config: self.config,
            remote_file: item.remote_file,
            local_path: item.local_location + "/"@ + item.filename,
            start_offset: item.bytes_downloaded,
            size_bytes: item.size_bytes,
        }
    }

    /// Whether the actions start the item where it stopped: they report it
    /// as started and, right after, launch its worker at the item's offset.
    pub open spec fn resumes(self, actions: Seq<ActionView>, item: QueueItemView) -> bool {
        exists|j: int|
            0 <= j && j + 1 < actions.len() && #[trigger] actions[j] == ActionView::Emit(
                EventView::Started { remote_file: item.remote_file },
            ) && actions[j + 1] == ActionView::Spawn(self.launch_at(item))
    }
}

/// Whether no action is about the key.
pub open spec fn silent_about(actions: Seq<ActionView>, key: Seq<char>) -> bool {
    forall|j: int| 0 <= j < actions.len() ==> !concerns(#[trigger] actions[j], key)
}

/// Dispatching goes on until no slot or no candidate is left: in the state
/// that it leaves, dispatching again starts nothing.
pub proof fn lemma_dispatch_settles(state: EngineState)
    requires
        state.bounded(),
    ensures
        !state.dispatch().0.has_room() || state.dispatch().0.next_candidate()
            >= state.dispatch().0.queue.len(),
    decreases MAX_CONCURRENT - state.active.len(),
{
    lemma_first_where(state.queue, state.eligible(), 0);
    if state.has_room() && state.next_candidate() < state.queue.len() {
        let item = state.queue[state.next_candidate()];
        lemma_dispatch_settles(state.activate(item.remote_file));
    }
}

/// A waiting item is served as soon as a slot is left for it. Dispatching
/// either starts the item, at the offset that it carries, or leaves it
/// waiting as it was, and then only because no slot is left: the items ahead
/// of it took them, or all downloading is suspended.
pub proof fn lemma_waiting_item_is_served(state: EngineState, item: QueueItemView)
    requires
        state.well_formed(),
        state.holds_waiting(item),
    ensures
        ({
            let after = state.dispatch();
            ||| (state.resumes(after.1, item) && after.0.active.contains(item.remote_file))
            ||| (after.0.holds_waiting(item) && after.0.room() == 0 && silent_about(
                after.1,
                item.remote_file,
            ))
        }),
{
    let key = item.remote_file;
    let after = state.dispatch();
    let chosen = state.chosen();
    let waiting = state.waiting();
    lemma_dispatch_in_order(state);
    lemma_dispatch_settles(state);
    if has_key(chosen, key) {
        let q = choose|q: int| 0 <= q < chosen.len() && (#[trigger] chosen[q]).remote_file == key;
        assert(chosen[q] == waiting[q]);
        assert(waiting.contains(waiting[q]));
        state.queue.lemma_filter_contains_rev(state.eligible(), waiting[q]);
        let i = choose|i: int| 0 <= i < state.queue.len() && state.queue[i] == waiting[q];
        let at = choose|at: int| 0 <= at < state.queue.len() && state.queue[at] == item;
        if i < at {
            assert(state.queue[i].remote_file != state.queue[at].remote_file);
        }
        if at < i {
            assert(state.queue[at].remote_file != state.queue[i].remote_file);
        }
        assert(chosen[q] == item);
        assert(state.launch_for(item) == state.launch_at(item));
        assert(after.1.len() == 2 * chosen.len());
        assert(after.1[2 * q] == ActionView::Emit(EventView::Started { remote_file: key }));
        assert(after.1[2 * q + 1] == ActionView::Spawn(state.launch_at(item)));
        assert(keys_of(chosen).contains(key));
    } else {
        assert(!keys_of(chosen).contains(key));
        assert(after.0.eligible()(item));
        assert(after.0.holds_waiting(item));
        let at = choose|at: int| 0 <= at < state.queue.len() && state.queue[at] == item;
        lemma_first_where(after.0.queue, after.0.eligible(), 0);
        assert(after.0.next_candidate() < after.0.queue.len()) by {
            if after.0.next_candidate() >= after.0.queue.len() {
                assert(!(after.0.eligible())(after.0.queue[at]));
            }
        }
        assert forall|j: int| 0 <= j < after.1.len() implies !concerns(
            #[trigger] after.1[j],
            key,
        ) by {
            assert(chosen[j / 2].remote_file != key);
        }
    }
}

/// `PauseAll` and `ResumeAll` bring a running item back to where it stopped.
/// Take an item that has a worker when `PauseAll` comes, and let the worker
/// stop for the pause at `offset`: it notes the offset and reports
/// `TaskPaused`. Whether `ResumeAll` comes after the worker has reported or
/// before, in the end all downloading is permitted again, no pause mark is
/// left, and the queue is as it was but for the offset of that item; no
/// item's status has changed. The item itself either was started again by
/// `ResumeAll`, at the offset at which it stopped, or waits with that offset
/// to be served by the next dispatch.
pub proof fn lemma_pause_all_resume_all(
    state: EngineState,
    at: int,
    offset: u64,
)
    requires
        state.well_formed(),
        0 <= at < state.queue.len(),
        state.queue[at].status is Pending,
        state.active.contains(state.queue[at].remote_file),
        !state.cancelled.contains(state.queue[at].remote_file),
    ensures
        ({
            let key = state.queue[at].remote_file;
            let stopped = QueueItemView { bytes_downloaded: offset, ..state.queue[at] };
            let report = CommandView::TaskPaused { remote_file: key, offset };
            let paused = state.step(CommandView::PauseAll).0;
            // The worker reports before the resume.
            let early = paused.noted(key, offset).step(report).0.step(CommandView::ResumeAll);
            // The resume overtakes the worker's report.
            let resumed = paused.step(CommandView::ResumeAll);
            let late = resumed.0.noted(key, offset).step(report).0;
            &&& !early.0.globally_paused && !late.globally_paused
            &&& early.0.paused == Map::<Seq<char>, u64>::empty()
            &&& late.paused == Map::<Seq<char>, u64>::empty()
            &&& early.0.queue == state.queue.update(at, stopped)
            &&& late.queue == state.queue.update(at, stopped)
            &&& early.0.well_formed() && late.well_formed()
            &&& ((state.resumes(early.1, stopped) && early.0.active.contains(key)) || (
            early.0.holds_waiting(stopped) && early.0.room() == 0))
            &&& silent_about(resumed.1, key)
            &&& late.holds_waiting(stopped)
        }),
{
    let key = state.queue[at].remote_file;
    let stopped = QueueItemView { bytes_downloaded: offset, ..state.queue[at] };
    let report = CommandView::TaskPaused { remote_file: key, offset };
    let after = state.queue.update(at, stopped);
    // The item is the first, and the only one, with its key.
    lemma_first_where(state.queue, crate::queue::keyed(key), 0);
    assert(index_of(state.queue, key) == at) by {
        let found = index_of(state.queue, key);
        assert(crate::queue::keyed(key)(state.queue[at]));
        if found < at {
            assert(state.queue[found].remote_file != state.queue[at].remote_file);
        }
    }
    assert(with_offset(state.queue, key, offset) == after);
    crate::queue::lemma_with_first_keeps_keys(
        state.queue,
        key,
        |item: QueueItemView| QueueItemView { bytes_downloaded: offset, ..item },
    );
    assert(keys_unique(after));
    assert(after[at] == stopped);
    assert(after.contains(stopped));

    let paused = state.step(CommandView::PauseAll).0;
    assert(paused.paused.contains_key(key));

    // The worker reports before the resume.
    let reported = paused.noted(key, offset).step(report).0;
    let origin = EngineState { globally_paused: false, paused: Map::empty(), ..reported };
    assert(origin.queue == after);
    assert(origin.well_formed());
    assert(origin.holds_waiting(stopped));
    lemma_dispatch(origin);
    lemma_waiting_item_is_served(origin, stopped);
    assert(origin.launch_at(stopped) == state.launch_at(stopped));

    // The resume overtakes the worker's report.
    let start = EngineState { globally_paused: false, paused: Map::empty(), ..paused };
    assert(start.well_formed());
    lemma_dispatch(start);
    let resumed = paused.step(CommandView::ResumeAll);
    assert forall|j: int| 0 <= j < resumed.1.len() implies !concerns(
        #[trigger] resumed.1[j],
        key,
    ) by {
        assert(start.starts_queued(resumed.1[j]));
    }
    let late = resumed.0.noted(key, offset).step(report).0;
    assert(late.queue == after);
    assert(late.holds_waiting(stopped));
}

/// A waiting item keeps its turn. Whatever command comes, but for one that
/// pauses or cancels the item's key or reports the end of a worker for it,
/// the item either is started by that command, at the offset that it
/// carries, or waits afterwards as it did before.
pub proof fn lemma_waiting_item_keeps_its_turn(
    state: EngineState,
    command: CommandView,
    item: QueueItemView,
)
    requires
        state.well_formed(),
        state.holds_waiting(item),
        command != CommandView::Pause(item.remote_file),
        command != CommandView::Cancel(item.remote_file),
        command != (CommandView::TaskDone { remote_file: item.remote_file }),
        !(command matches CommandView::TaskPaused { remote_file, .. } && remote_file
            == item.remote_file),
    ensures
        ({
            let after = state.step(command);
            ||| (state.resumes(after.1, item) && after.0.active.contains(item.remote_file))
            ||| (after.0.holds_waiting(item) && silent_about(after.1, item.remote_file))
        }),
{
    let key = item.remote_file;
    let at = choose|at: int| 0 <= at < state.queue.len() && state.queue[at] == item;
    lemma_step_bounded(state, command);
    lemma_step_keeps_keys_unique(state, command);
    match command {
        CommandView::StartAll => {
            let origin = EngineState { globally_paused: false, ..state };
            assert(origin.holds_waiting(item));
            lemma_waiting_item_is_served(origin, item);
            assert(origin.launch_at(item) == state.launch_at(item));
        },
        CommandView::ResumeAll => {
            let origin = EngineState { globally_paused: false, paused: Map::empty(), ..state };
            assert(origin.holds_waiting(item));
            lemma_waiting_item_is_served(origin, item);
            assert(origin.launch_at(item) == state.launch_at(item));
        },
        CommandView::Resume(path) => {
            let origin = EngineState { paused: state.paused.remove(path), ..state };
            assert(origin.holds_waiting(item));
            lemma_waiting_item_is_served(origin, item);
            assert(origin.launch_at(item) == state.launch_at(item));
        },
        CommandView::AddItem(added) => {
            if has_key(state.queue, added.remote_file) || state.active.contains(
                added.remote_file,
            ) {
            } else {
                let origin = EngineState { queue: state.queue.push(added), ..state };
                assert(origin.queue[at] == item);
                assert(origin.holds_waiting(item));
                lemma_waiting_item_is_served(origin, item);
                assert(origin.launch_at(item) == state.launch_at(item));
            }
        },
        CommandView::TaskDone { remote_file } => {
            let origin = state.retired(remote_file);
            crate::queue::lemma_without_key(state.queue, remote_file);
            assert(crate::queue::not_keyed(remote_file)(state.queue[at]));
            state.queue.lemma_filter_contains(crate::queue::not_keyed(remote_file), at);
            assert(origin.holds_waiting(item));
            lemma_waiting_item_is_served(origin, item);
            assert(origin.launch_at(item) == state.launch_at(item));
        },
        CommandView::Cancel(path) => {
            assert(crate::queue::not_keyed(path)(state.queue[at]));
            state.queue.lemma_filter_contains(crate::queue::not_keyed(path), at);
        },
        CommandView::TaskPaused { remote_file, offset } => {
            lemma_first_where(state.queue, crate::queue::keyed(remote_file), 0);
            let after = state.step(command).0;
            assert(after.queue[at] == item);
        },
        CommandView::PauseAll => {},
        CommandView::Pause(path) => {},
        CommandView::SetSpeedLimit(limit) => {},
    }
}

} // verus!
