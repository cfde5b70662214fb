//! One worker: the task that transfers a single item chunk by chunk and
//! looks at the pause and cancel marks between two chunks.
//!
//! The worker is a state machine. Its caller connects, reads the marks,
//! transfers a chunk and sleeps; after each of these it tells the worker what
//! came of it and carries out the actions that the worker returns.

use crate::download_manager::{CommandView, DownloadCommand, DownloadEvent, EventView, WorkerLaunch, CHUNK_SIZE};
use vstd::prelude::*;

verus! {

/// How a worker's run ended.
#[derive(Debug, Clone, Copy, PartialEq, Eq, Structural)]
pub enum Ending {
    Completed,
    Failed,
    Paused,
    /// Aborted because the key was cancelled: nothing is reported.
    Cancelled,
}

/// Where a worker is in its run.
#[derive(Debug, Clone, Copy, PartialEq, Eq, Structural)]
pub enum WorkerPhase {
    /// The connection is being opened.
    Connecting,
    /// Between two chunks: the marks are to be read next.
    Ready,
    /// A chunk is in flight.
    Transferring,
    /// The run is over.
    Finished(Ending),
}

/// What the caller of a worker has to carry out.
#[derive(Debug, PartialEq)]
pub enum WorkerAction {
    /// Store the offset for the key in the shared pause marks.
    StorePause { remote_file: String, offset: u64 },
    /// Send this event to the controller.
    Emit(DownloadEvent),
    /// Send this command to the dispatcher.
    Send(DownloadCommand),
    /// Read up to `size` bytes of the remote file from `offset` on and append
    /// them to the local file (create it where `offset` is 0).
    Transfer { remote_file: String, local_path: String, offset: u64, size: usize },
    /// Wait for so many microseconds.
    Sleep { micros: u64 },
}

/// The view of a [`WorkerAction`].
pub enum WorkerActionView {
    StorePause { remote_file: Seq<char>, offset: u64 },
    Emit(EventView),
    Send(CommandView),
    Transfer { remote_file: Seq<char>, local_path: Seq<char>, offset: u64, size: usize },
    Sleep { micros: u64 },
}

impl View for WorkerAction {
    type V = WorkerActionView;

    open spec fn view(&self) -> WorkerActionView {
        match *self {
            WorkerAction::StorePause { remote_file, offset } => WorkerActionView::StorePause {
                remote_file: remote_file@,
                offset,
            },
            WorkerAction::Emit(event) => WorkerActionView::Emit(event@),
            WorkerAction::Send(command) => WorkerActionView::Send(command@),
            WorkerAction::Transfer { remote_file, local_path, offset, size } => {
                WorkerActionView::Transfer {
                    remote_file: remote_file@,
                    local_path: local_path@,
                    offset,
                    size,
                }
            },
            WorkerAction::Sleep { micros } => WorkerActionView::Sleep { micros },
        }
    }
}

impl DeepView for WorkerAction {
    type V = WorkerActionView;

    open spec fn deep_view(&self) -> WorkerActionView {
        self@
    }
}

/// What a worker is told: the outcome of the thing it asked for last.
pub enum WorkerInput {
    /// The connection was opened, or failed with a message.
    Connected(Result<(), Seq<char>>),
    /// The marks as they stand now.
    Marks { paused: bool, cancelled: bool },
    /// A chunk transfer returned so many bytes, or failed with a message;
    /// it took `elapsed_micros`, and the speed limit that was read when the
    /// chunk was asked for is `limit_kb` KB/s.
    Chunk { outcome: Result<usize, Seq<char>>, elapsed_micros: u128, limit_kb: u64 },
}

/// The least time in microseconds that `bytes` bytes may take at `limit_kb` KB/s.
pub open spec fn min_micros(bytes: nat, limit_kb: nat) -> nat
    recommends
        limit_kb > 0,
{
    bytes * 1_000_000 / (limit_kb * 1024)
}

/// How long to wait after a chunk of `bytes` bytes that took `elapsed_micros`:
/// nothing without a limit, else what is missing to the least time.
pub open spec fn throttle_delay(bytes: nat, limit_kb: nat, elapsed_micros: nat) -> nat {
    if limit_kb == 0 || elapsed_micros >= min_micros(bytes, limit_kb) {
        0
    } else {
        (min_micros(bytes, limit_kb) - elapsed_micros) as nat
    }
}

/// Computes [`throttle_delay`] for a chunk.
pub fn compute_delay(bytes_read: usize, limit_kb: u64, elapsed_micros: u128) -> (delay: u64)
    requires
        bytes_read <= CHUNK_SIZE,
    ensures
        delay == throttle_delay(bytes_read as nat, limit_kb as nat, elapsed_micros as nat),
{
    if limit_kb == 0 {
        return 0;
    }
    let least: u128 = (bytes_read as u128 * 1_000_000) / (limit_kb as u128 * 1024);
    assert(least <= 65536 * 1_000_000) by (nonlinear_arith)
        requires
            least == (bytes_read * 1_000_000) / (limit_kb * 1024),
            bytes_read <= 65536,
            limit_kb >= 1,
    ;
    if elapsed_micros < least {
        (least - elapsed_micros) as u64
    } else {
        0
    }
}

/// The offset to start from. A recorded offset other than 0 stands. With 0 on
/// record, a local file that is not empty and shorter than the item is taken
/// as the part that an earlier run left behind, and its length is adopted.
pub open spec fn resumed_offset(recorded: u64, local_len: Option<u64>, size_bytes: u64) -> u64 {
    if recorded == 0 && local_len is Some && 0 < local_len->0 < size_bytes {
        local_len->0
    } else {
        recorded
    }
}

/// Computes [`resumed_offset`]. `local_len` is the length of the local file,
/// or `None` where there is none.
pub fn resume_offset(recorded: u64, local_len: Option<u64>, size_bytes: u64) -> (offset: u64)
    ensures
        offset == resumed_offset(recorded, local_len, size_bytes),
{
    if recorded == 0 {
        match local_len {
            Some(len) => if len > 0 && len < size_bytes {
                len
            } else {
                recorded
            },
            None => recorded,
        }
    } else {
        recorded
    }
}

/// A worker's state as mathematics.
pub struct WorkerState {
    pub remote_file: Seq<char>,
    pub local_path: Seq<char>,
    /// The offset reached.
    pub bytes: u64,
    pub phase: WorkerPhase,
}

impl WorkerState {
    /// The state of a worker that was just started.
    pub open spec fn started(remote_file: Seq<char>, local_path: Seq<char>, offset: u64) -> Self {
        WorkerState { remote_file, local_path, bytes: offset, phase: WorkerPhase::Connecting }
    }

    /// Whether the worker can be told `input` now: it is the outcome of what
    /// the worker asked for last, a chunk is no longer than was asked for, and
    /// the offset stays within `u64`.
    pub open spec fn accepts(self, input: WorkerInput) -> bool {
        match input {
            WorkerInput::Connected(_) => self.phase == WorkerPhase::Connecting,
            WorkerInput::Marks { .. } => self.phase == WorkerPhase::Ready,
            WorkerInput::Chunk { outcome, .. } => self.phase == WorkerPhase::Transferring && (
            outcome matches Ok(count) ==> count <= CHUNK_SIZE && self.bytes + count <= u64::MAX),
        }
    }

    pub open spec fn finish(self, ending: Ending) -> Self {
        WorkerState { phase: WorkerPhase::Finished(ending), ..self }
    }

    pub open spec fn failed(self, error: Seq<char>) -> (Self, Seq<WorkerActionView>) {
        (
            self.finish(Ending::Failed),
            seq![
                WorkerActionView::Emit(EventView::Failed { remote_file: self.remote_file, error }),
                WorkerActionView::Send(CommandView::TaskDone { remote_file: self.remote_file }),
            ],
        )
    }

    /// What the worker does when it is told `input`: its next state and the
    /// actions for its caller, in order.
    pub open spec fn react(self, input: WorkerInput) -> (Self, Seq<WorkerActionView>) {
        match input {
            WorkerInput::Connected(Ok(_)) => (
                WorkerState { phase: WorkerPhase::Ready, ..self },
                Seq::empty(),
            ),
            WorkerInput::Connected(Err(error)) => self.failed(error),
            WorkerInput::Marks { paused, cancelled } => if paused {
                (
                    self.finish(Ending::Paused),
                    seq![
                        WorkerActionView::StorePause {
                            remote_file: self.remote_file,
                            offset: self.bytes,
                        },
                        WorkerActionView::Emit(EventView::Paused { remote_file: self.remote_file }),
                        WorkerActionView::Send(
                            CommandView::TaskPaused {
                                remote_file: self.remote_file,
                                offset: self.bytes,
                            },
                        ),
                    ],
                )
            } else if cancelled {
                (
                    self.finish(Ending::Cancelled),
                    seq![
                        WorkerActionView::Send(
                            CommandView::TaskDone { remote_file: self.remote_file },
                        ),
                    ],
                )
            } else {
                (
                    WorkerState { phase: WorkerPhase::Transferring, ..self },
                    seq![
                        WorkerActionView::Transfer {
                            remote_file: self.remote_file,
                            local_path: self.local_path,
                            offset: self.bytes,
                            size: CHUNK_SIZE,
                        },
                    ],
                )
            },
            WorkerInput::Chunk { outcome: Err(error), .. } => self.failed(error),
            WorkerInput::Chunk { outcome: Ok(count), elapsed_micros, limit_kb } => if count == 0 {
                (
                    self.finish(Ending::Completed),
                    seq![
                        WorkerActionView::Emit(
                            EventView::Completed { remote_file: self.remote_file },
                        ),
                        WorkerActionView::Send(
                            CommandView::TaskDone { remote_file: self.remote_file },
                        ),
                    ],
                )
            } else {
                let delay = throttle_delay(count as nat, limit_kb as nat, elapsed_micros as nat);
                let reached = (self.bytes + count) as u64;
                let progress = WorkerActionView::Emit(
                    EventView::Progress { remote_file: self.remote_file, bytes_downloaded: reached },
                );
                (
                    WorkerState { phase: WorkerPhase::Ready, bytes: reached, ..self },
                    if delay > 0 {
                        seq![WorkerActionView::Sleep { micros: delay as u64 }, progress]
                    } else {
                        seq![progress]
                    },
                )
            },
        }
    }

    /// The state after a series of inputs, and all actions in order.
    pub open spec fn run(self, inputs: Seq<WorkerInput>) -> (Self, Seq<WorkerActionView>)
        decreases inputs.len(),
    {
        if inputs.len() == 0 {
            (self, Seq::empty())
        } else {
            let before = self.run(inputs.drop_last());
            let last = before.0.react(inputs.last());
            (last.0, before.1 + last.1)
        }
    }

    /// Whether each input of the series is accepted when it comes.
    pub open spec fn accepts_all(self, inputs: Seq<WorkerInput>) -> bool
        decreases inputs.len(),
    {
        inputs.len() > 0 ==> self.accepts_all(inputs.drop_last()) && self.run(
            inputs.drop_last(),
        ).0.accepts(inputs.last())
    }
}

/// The events among a series of actions, in order.
pub open spec fn emitted(actions: Seq<WorkerActionView>) -> Seq<EventView> {
    actions.filter_map(
        |action: WorkerActionView|
            match action {
                WorkerActionView::Emit(event) => Some(event),
                _ => None,
            },
    )
}

/// The worker of one item.
pub struct Worker {
    remote_file: String,
    local_path: String,
    bytes_downloaded: u64,
    phase: WorkerPhase,
}

impl View for Worker {
    type V = WorkerState;

    closed spec fn view(&self) -> WorkerState {
        WorkerState {
            remote_file: self.remote_file@,
            local_path: self.local_path@,
            bytes: self.bytes_downloaded,
            phase: self.phase,
        }
    }
}

impl Worker {
    /// A worker for the item `remote_file` that writes to `local_path` and
    /// starts at `start_offset`. It has yet to connect.
    pub fn new(remote_file: String, local_path: String, start_offset: u64) -> (worker: Self)
        ensures
            worker@ == WorkerState::started(remote_file@, local_path@, start_offset),
    {
        Worker {
            remote_file,
            local_path,
            bytes_downloaded: start_offset,
            phase: WorkerPhase::Connecting,
        }
    }

    /// The worker that a launch of the dispatcher asks for. `local_len` is
    /// the length of the local file, or `None` where there is none. The
    /// worker starts at the offset that the launch carries, or, where that
    /// is 0 and the local file holds a part of the item, behind that part.
    pub fn from_launch(launch: WorkerLaunch, local_len: Option<u64>) -> (worker: Self)
        ensures
            worker@ == WorkerState::started(
                launch@.remote_file,
                launch@.local_path,
                resumed_offset(launch@.start_offset, local_len, launch@.size_bytes),
            ),
    {
        let offset = resume_offset(launch.start_offset, local_len, launch.size_bytes);
        Worker::new(launch.remote_file, launch.local_path, offset)
    }

    pub fn phase(&self) -> (phase: WorkerPhase)
        ensures
            phase == self@.phase,
    {
        self.phase
    }

    /// The offset reached so far.
    pub fn bytes_downloaded(&self) -> (bytes: u64)
        ensures
            bytes == self@.bytes,
    {
        self.bytes_downloaded
    }

    pub fn remote_file(&self) -> (key: &String)
        ensures
            key@ == self@.remote_file,
    {
        &self.remote_file
    }

    pub fn local_path(&self) -> (path: &String)
        ensures
            path@ == self@.local_path,
    {
        &self.local_path
    }

    fn fail(&mut self, error: String) -> (actions: Vec<WorkerAction>)
        ensures
            (final(self)@, actions.deep_view()) == old(self)@.failed(error@),
    {
        self.phase = WorkerPhase::Finished(Ending::Failed);
        let mut actions: Vec<WorkerAction> = Vec::new();
        actions.push(
            WorkerAction::Emit(
                DownloadEvent::Failed { remote_file: self.remote_file.clone(), error },
            ),
        );
        actions.push(
            WorkerAction::Send(DownloadCommand::TaskDone { remote_file: self.remote_file.clone() }),
        );
        assert(actions.deep_view() =~= old(self)@.failed(error@).1);
        actions
    }

    /// Tells the worker how connecting went. A failure ends the run: it is
    /// reported and the slot is given back.
    pub fn on_connect(&mut self, outcome: Result<(), String>) -> (actions: Vec<WorkerAction>)
        requires
            old(self)@.phase == WorkerPhase::Connecting,
        ensures
            (final(self)@, actions.deep_view()) == old(self)@.react(
                WorkerInput::Connected(
                    match outcome {
                        Ok(_) => Ok(()),
                        Err(error) => Err(error@),
                    },
                ),
            ),
    {
        match outcome {
            Ok(_) => {
                self.phase = WorkerPhase::Ready;
                let actions: Vec<WorkerAction> = Vec::new();
                assert(actions.deep_view() =~= Seq::<WorkerActionView>::empty());
                actions
            },
            Err(error) => self.fail(error),
        }
    }

    /// Tells the worker how the marks stand before the next chunk. A pause
    /// mark ends the run: the offset is stored, `Paused` is reported and the
    /// dispatcher is told. Else a cancel mark ends it with no report. Else the
    /// next chunk is asked for.
    pub fn on_marks(&mut self, paused: bool, cancelled: bool) -> (actions: Vec<WorkerAction>)
        requires
            old(self)@.phase == WorkerPhase::Ready,
        ensures
            (final(self)@, actions.deep_view()) == old(self)@.react(
                WorkerInput::Marks { paused, cancelled },
            ),
    {
        let mut actions: Vec<WorkerAction> = Vec::new();
        if paused {
            self.phase = WorkerPhase::Finished(Ending::Paused);
            actions.push(
                WorkerAction::StorePause {
                    remote_file: self.remote_file.clone(),
                    offset: self.bytes_downloaded,
                },
            );
            actions.push(
                WorkerAction::Emit(DownloadEvent::Paused { remote_file: self.remote_file.clone() }),
            );
            actions.push(
                WorkerAction::Send(
                    DownloadCommand::TaskPaused {
                        remote_file: self.remote_file.clone(),
                        offset: self.bytes_downloaded,
                    },
                ),
            );
        } else if cancelled {
            self.phase = WorkerPhase::Finished(Ending::Cancelled);
            actions.push(
                WorkerAction::Send(
                    DownloadCommand::TaskDone { remote_file: self.remote_file.clone() },
                ),
            );
        } else {
            self.phase = WorkerPhase::Transferring;
            actions.push(
                WorkerAction::Transfer {
                    remote_file: self.remote_file.clone(),
                    local_path: self.local_path.clone(),
                    offset: self.bytes_downloaded,
                    size: CHUNK_SIZE,
                },
            );
        }
        assert(actions.deep_view() =~= old(self)@.react(WorkerInput::Marks { paused, cancelled }).1);
        actions
    }

    /// Tells the worker what the chunk transfer returned, how long it took
    /// and which speed limit held when the chunk was asked for. No bytes
    /// means the file is complete; an error ends the run as failed. Else the
    /// offset advances, progress is reported, and before that the worker asks
    /// for the wait that keeps it under the limit.
    pub fn on_chunk(
        &mut self,
        outcome: Result<usize, String>,
        elapsed_micros: u128,
        limit_kb: u64,
    ) -> (actions: Vec<WorkerAction>)
        requires
            old(self)@.phase == WorkerPhase::Transferring,
            outcome matches Ok(count) ==> count <= CHUNK_SIZE && old(self)@.bytes + count
                <= u64::MAX,
        ensures
            (final(self)@, actions.deep_view()) == old(self)@.react(
                WorkerInput::Chunk {
                    outcome: match outcome {
                        Ok(count) => Ok(count),
                        Err(error) => Err(error@),
                    },
                    elapsed_micros,
                    limit_kb,
                },
            ),
    {
        match outcome {
            Ok(count) => {
                let mut actions: Vec<WorkerAction> = Vec::new();
                if count == 0 {
                    self.phase = WorkerPhase::Finished(Ending::Completed);
                    actions.push(
                        WorkerAction::Emit(
                            DownloadEvent::Completed { remote_file: self.remote_file.clone() },
                        ),
                    );
                    actions.push(
                        WorkerAction::Send(
                            DownloadCommand::TaskDone { remote_file: self.remote_file.clone() },
                        ),
                    );
                } else {
                    let delay = compute_delay(count, limit_kb, elapsed_micros);
                    if delay > 0 {
                        actions.push(WorkerAction::Sleep { micros: delay });
                    }
                    self.bytes_downloaded = self.bytes_downloaded + count as u64;
                    self.phase = WorkerPhase::Ready;
                    actions.push(
                        WorkerAction::Emit(
                            DownloadEvent::Progress {
                                remote_file: self.remote_file.clone(),
                                bytes_downloaded: self.bytes_downloaded,
                            },
                        ),
                    );
                }
                assert(actions.deep_view() =~= old(self)@.react(
                    WorkerInput::Chunk { outcome: Ok(count), elapsed_micros, limit_kb },
                ).1);
                actions
            },
            Err(error) => self.fail(error),
        }
    }
}

/// Whether all events are progress reports.
pub open spec fn only_progress(events: Seq<EventView>) -> bool {
    forall|i: int| 0 <= i < events.len() ==> #[trigger] events[i] is Progress
}

/// Whether the event is the report that closes a run with the given ending.
pub open spec fn closes(event: EventView, ending: Ending) -> bool {
    match ending {
        Ending::Completed => event is Completed,
        Ending::Failed => event is Failed,
        Ending::Paused => event is Paused,
        Ending::Cancelled => false,
    }
}

/// Whether the events are `Started`, then any number of progress reports,
/// then exactly one of `Completed`, `Failed` and `Paused`.
pub open spec fn whole_lifecycle(events: Seq<EventView>) -> bool {
    &&& events.len() >= 2
    &&& events[0] is Started
    &&& forall|i: int| 1 <= i < events.len() - 1 ==> #[trigger] events[i] is Progress
    &&& (events.last() is Completed || events.last() is Failed || events.last() is Paused)
}

/// The events that a worker in state `state` reports when it is told `input`.
pub open spec fn reported(state: WorkerState, input: WorkerInput) -> Seq<EventView> {
    match input {
        WorkerInput::Connected(Ok(_)) => Seq::empty(),
        WorkerInput::Connected(Err(error)) => seq![
            EventView::Failed { remote_file: state.remote_file, error },
        ],
        WorkerInput::Marks { paused, .. } => if paused {
            seq![EventView::Paused { remote_file: state.remote_file }]
        } else {
            Seq::empty()
        },
        WorkerInput::Chunk { outcome: Err(error), .. } => seq![
            EventView::Failed { remote_file: state.remote_file, error },
        ],
        WorkerInput::Chunk { outcome: Ok(count), .. } => if count == 0 {
            seq![EventView::Completed { remote_file: state.remote_file }]
        } else {
            seq![
                EventView::Progress {
                    remote_file: state.remote_file,
                    bytes_downloaded: (state.bytes + count) as u64,
                },
            ]
        },
    }
}

/// The events of two series of actions, one after the other, are the events
/// of the first followed by those of the second.
pub proof fn lemma_emitted_concat(first: Seq<WorkerActionView>, second: Seq<WorkerActionView>)
    ensures
        emitted(first + second) == emitted(first) + emitted(second),
    decreases second.len(),
{
    if second.len() == 0 {
        assert(first + second =~= first);
        assert(emitted(first) + emitted(second) =~= emitted(first));
    } else {
        assert((first + second).drop_last() =~= first + second.drop_last());
        assert((first + second).last() == second.last());
        lemma_emitted_concat(first, second.drop_last());
        assert(emitted(first + second) =~= emitted(first) + emitted(second));
    }
}

/// One step reports what [`reported`] says, and nothing else.
pub proof fn lemma_reported(state: WorkerState, input: WorkerInput)
    ensures
        emitted(state.react(input).1) == reported(state, input),
{
    reveal_with_fuel(Seq::filter_map, 4);
    assert(emitted(state.react(input).1) =~= reported(state, input));
}

/// The events of one worker, from its start to any point of its run, are
/// progress reports for its own item, closed by exactly one of `Completed`,
/// `Failed` and `Paused` once the run has ended for another reason than a
/// cancel. Together with the `Started` that the dispatcher reports when it
/// starts the worker, the events of a run that ended so read `Started`,
/// progress reports, one closing report. A run that a cancel ended reports
/// progress only, and a run that has not ended has not reported its close.
pub proof fn lemma_run_lifecycle(start: WorkerState, inputs: Seq<WorkerInput>)
    requires
        start.phase == WorkerPhase::Connecting,
        start.accepts_all(inputs),
    ensures
        ({
            let end = start.run(inputs);
            let events = emitted(end.1);
            &&& end.0.remote_file == start.remote_file
            &&& end.0.local_path == start.local_path
            &&& forall|i: int| 0 <= i < events.len() ==> (#[trigger] events[i]).key() == start.remote_file
            &&& match end.0.phase {
                WorkerPhase::Finished(Ending::Cancelled) => only_progress(events),
                WorkerPhase::Finished(ending) => events.len() > 0 && only_progress(
                    events.drop_last(),
                ) && closes(events.last(), ending) && whole_lifecycle(
                    seq![EventView::Started { remote_file: start.remote_file }] + events,
                ),
                _ => only_progress(events),
            }
        }),
    decreases inputs.len(),
{
    if inputs.len() == 0 {
        assert(emitted(Seq::<WorkerActionView>::empty()) =~= Seq::<EventView>::empty());
    } else {
        let before = start.run(inputs.drop_last());
        let last = before.0.react(inputs.last());
        lemma_run_lifecycle(start, inputs.drop_last());
        lemma_emitted_concat(before.1, last.1);
        lemma_reported(before.0, inputs.last());
        let earlier = emitted(before.1);
        let events = emitted(start.run(inputs).1);
        assert(events == earlier + reported(before.0, inputs.last()));
        assert(only_progress(earlier));
        if reported(before.0, inputs.last()).len() == 1 {
            assert(events.drop_last() =~= earlier);
            let all = seq![EventView::Started { remote_file: start.remote_file }] + events;
            assert forall|i: int| 1 <= i < all.len() - 1 implies #[trigger] all[i] is Progress by {
                assert(all[i] == earlier[i - 1]);
            }
        } else {
            assert(events =~= earlier);
        }
    }
}

/// A worker's offset never goes back, and its progress reports rise: each
/// reports more bytes than the one before it and than the offset at which the
/// worker started, and none reports more than the offset that the worker has
/// reached.
pub proof fn lemma_progress_rises(start: WorkerState, inputs: Seq<WorkerInput>)
    requires
        start.accepts_all(inputs),
    ensures
        ({
            let end = start.run(inputs);
            let events = emitted(end.1);
            &&& start.bytes <= end.0.bytes
            &&& forall|i: int|
                0 <= i < events.len() && (#[trigger] events[i]) is Progress ==> start.bytes
                    < events[i]->Progress_bytes_downloaded <= end.0.bytes
            &&& forall|i: int, j: int|
                0 <= i < j < events.len() && (#[trigger] events[i]) is Progress && (
                #[trigger] events[j]) is Progress ==> events[i]->Progress_bytes_downloaded
                    < events[j]->Progress_bytes_downloaded
        }),
    decreases inputs.len(),
{
    if inputs.len() == 0 {
        assert(emitted(Seq::<WorkerActionView>::empty()) =~= Seq::<EventView>::empty());
    } else {
        let before = start.run(inputs.drop_last());
        let last = before.0.react(inputs.last());
        lemma_progress_rises(start, inputs.drop_last());
        lemma_emitted_concat(before.1, last.1);
        lemma_reported(before.0, inputs.last());
        let earlier = emitted(before.1);
        let events = emitted(start.run(inputs).1);
        assert(events == earlier + reported(before.0, inputs.last()));
        assert forall|i: int| 0 <= i < earlier.len() implies events[i] == earlier[i] by {}
    }
}

/// Once a run has ended, the worker accepts nothing more, so it reports
/// nothing more: whatever series of inputs is accepted after the end is empty.
pub proof fn lemma_silent_after_end(state: WorkerState, inputs: Seq<WorkerInput>)
    requires
        state.phase is Finished,
        state.accepts_all(inputs),
    ensures
        inputs.len() == 0,
        state.run(inputs) == (state, Seq::<WorkerActionView>::empty()),
    decreases inputs.len(),
{
    if inputs.len() > 0 {
        lemma_silent_after_end(state, inputs.drop_last());
    }
}

/// A worker that finds its key cancelled, and not paused, ends its run
/// without reporting anything: it only gives its slot back.
pub proof fn lemma_cancel_is_silent(state: WorkerState)
    requires
        state.phase == WorkerPhase::Ready,
    ensures
        ({
            let step = state.react(WorkerInput::Marks { paused: false, cancelled: true });
            &&& step.0.phase == WorkerPhase::Finished(Ending::Cancelled)
            &&& emitted(step.1) == Seq::<EventView>::empty()
            &&& step.1 == seq![
                WorkerActionView::Send(CommandView::TaskDone { remote_file: state.remote_file }),
            ]
        }),
{
    lemma_reported(state, WorkerInput::Marks { paused: false, cancelled: true });
}

/// Whether every reading of the marks in the series finds the key paused.
pub open spec fn always_paused(inputs: Seq<WorkerInput>) -> bool {
    forall|i: int|
        0 <= i < inputs.len() ==> ((#[trigger] inputs[i]) matches WorkerInput::Marks { paused, .. }
            ==> paused)
}

/// From the moment its key is marked as paused, a worker transfers at most
/// the chunk that is in flight: whatever it is told from then on, its offset
/// grows by no more than one chunk, and it asks for no further chunk.
pub proof fn lemma_pause_within_one_chunk(state: WorkerState, inputs: Seq<WorkerInput>)
    requires
        state.accepts_all(inputs),
        always_paused(inputs),
    ensures
        ({
            let end = state.run(inputs).0;
            &&& end.bytes <= state.bytes + CHUNK_SIZE
            &&& (end.bytes != state.bytes ==> state.phase == WorkerPhase::Transferring && end.phase
                != WorkerPhase::Transferring && end.phase != WorkerPhase::Connecting)
            &&& (end.phase == WorkerPhase::Transferring ==> state.phase
                == WorkerPhase::Transferring && inputs.len() == 0)
            &&& (end.phase == WorkerPhase::Connecting ==> state.phase == WorkerPhase::Connecting)
            &&& (state.phase == WorkerPhase::Ready && inputs.len() > 0 ==> end.phase
                == WorkerPhase::Finished(Ending::Paused))
            &&& (end.phase == WorkerPhase::Finished(Ending::Paused) && !(state.phase is Finished)
                ==> state.run(inputs).1.contains(
                WorkerActionView::Send(
                    CommandView::TaskPaused { remote_file: state.remote_file, offset: end.bytes },
                ),
            ))
            &&& end.remote_file == state.remote_file
        }),
    decreases inputs.len(),
{
    if inputs.len() > 0 {
        let shorter = inputs.drop_last();
        assert forall|i: int| 0 <= i < shorter.len() implies ((#[trigger] shorter[i]) matches WorkerInput::Marks {
            paused,
            ..
        } ==> paused) by {
            assert(shorter[i] == inputs[i]);
        }
        lemma_pause_within_one_chunk(state, shorter);
        let before = state.run(shorter);
        let last = before.0.react(inputs.last());
        assert(inputs.last() == inputs[inputs.len() - 1]);
        if last.0.phase == WorkerPhase::Finished(Ending::Paused) {
            let told = WorkerActionView::Send(
                CommandView::TaskPaused {
                    remote_file: state.remote_file,
                    offset: last.0.bytes,
                },
            );
            if before.0.phase is Finished {
            } else {
                assert(last.1[2] == told);
                assert((before.1 + last.1)[before.1.len() as int + 2] == told);
            }
        }
    }
}

} // verus!
