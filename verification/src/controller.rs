//! The controller's rules: how engine events change the persistent queue,
//! how the queue is checked against the server after connecting, how scan
//! results are queued, and what a schedule tick makes the engine do.

use crate::download_manager::{CommandView, DownloadCommand, DownloadEvent, EventView};
use crate::queue::{any_pending, count_pending, find_key, has_key, keys_unique, pending_count, remove_key, with_first, without_key};
use crate::text::{decimal, to_decimal};
use crate::types::{QueueItem, QueueItemView, RemoteFile, RemoteFileView, StatusView, TransferStatus};
use vstd::prelude::*;

verus! {

/// The priority that newly queued items get.
pub const DEFAULT_PRIORITY: u8 = 10;

/// The queue after an engine event was applied to the item it is about.
/// Progress stores the offset and marks the item as downloading; completion
/// marks it completed with all its bytes; failure stores the message; a start
/// marks it as downloading; a pause report changes nothing.
pub open spec fn after_event(queue: Seq<QueueItemView>, event: EventView) -> Seq<QueueItemView> {
    match event {
        EventView::Progress { remote_file, bytes_downloaded } => with_first(
            queue,
            remote_file,
            |item: QueueItemView|
                QueueItemView { bytes_downloaded, status: StatusView::Downloading, ..item },
        ),
        EventView::Completed { remote_file } => with_first(
            queue,
            remote_file,
            |item: QueueItemView|
                QueueItemView {
                    bytes_downloaded: item.size_bytes,
                    status: StatusView::Completed,
                    ..item
                },
        ),
        EventView::Failed { remote_file, error } => with_first(
            queue,
            remote_file,
            |item: QueueItemView| QueueItemView { status: StatusView::Failed(error), ..item },
        ),
        EventView::Started { remote_file } => with_first(
            queue,
            remote_file,
            |item: QueueItemView| QueueItemView { status: StatusView::Downloading, ..item },
        ),
        EventView::Paused { .. } => queue,
    }
}

/// Whether the queue is written to disk after an event: after every event
/// that changes an item, which are a start, progress, a completion and a
/// failure. A pause report changes nothing and writes nothing.
pub open spec fn persists(event: EventView) -> bool {
    event is Started || event is Progress || event is Completed || event is Failed
}

fn replace_item(queue: &mut Vec<QueueItem>, at: usize, item: QueueItem)
    requires
        at < old(queue)@.len(),
    ensures
        final(queue).deep_view() == old(queue).deep_view().update(at as int, item@),
{
    let ghost before = queue.deep_view();
    queue.set(at, item);
    assert(queue.deep_view() =~= before.update(at as int, item@));
}

/// Applies an engine event to the queue and tells whether the queue is to be
/// written to disk.
pub fn apply_event(queue: &mut Vec<QueueItem>, event: DownloadEvent) -> (persist: bool)
    ensures
        final(queue).deep_view() == after_event(old(queue).deep_view(), event@),
        persist == persists(event@),
{
    match event {
        DownloadEvent::Progress { remote_file, bytes_downloaded } => {
            match find_key(queue, &remote_file) {
                Some(at) => {
                    let mut item = queue[at].clone();
                    item.bytes_downloaded = bytes_downloaded;
                    item.status = TransferStatus::Downloading;
                    replace_item(queue, at, item);
                },
                None => {},
            }
            true
        },
        DownloadEvent::Completed { remote_file } => {
            match find_key(queue, &remote_file) {
                Some(at) => {
                    let mut item = queue[at].clone();
                    item.bytes_downloaded = item.size_bytes;
                    item.status = TransferStatus::Completed;
                    replace_item(queue, at, item);
                },
                None => {},
            }
            true
        },
        DownloadEvent::Failed { remote_file, error } => {
            match find_key(queue, &remote_file) {
                Some(at) => {
                    let mut item = queue[at].clone();
                    item.status = TransferStatus::Failed(error);
                    replace_item(queue, at, item);
                },
                None => {},
            }
            true
        },
        DownloadEvent::Started { remote_file } => {
            match find_key(queue, &remote_file) {
                Some(at) => {
                    let mut item = queue[at].clone();
                    item.status = TransferStatus::Downloading;
                    replace_item(queue, at, item);
                },
                None => {},
            }
            true
        },
        DownloadEvent::Paused { remote_file } => false,
    }
}

/// An item after the user paused it: paused where it waited or ran. An item
/// that is completed or has failed is over and stays as it is.
pub open spec fn paused_item(item: QueueItemView) -> QueueItemView {
    if item.status.is_unfinished() {
        QueueItemView { status: StatusView::Paused, ..item }
    } else {
        item
    }
}

/// An item after the user resumed it: pending again, whether it was paused
/// or had failed, unless it is completed, which is final.
pub open spec fn resumed_item(item: QueueItemView) -> QueueItemView {
    if item.status is Completed {
        item
    } else {
        QueueItemView { status: StatusView::Pending, ..item }
    }
}

/// Marks the item as paused at the user's request; an item that is completed
/// or has failed stays as it is. Returns the command for the engine, and
/// tells whether an item was found and the queue is to be written to disk.
pub fn pause_download(queue: &mut Vec<QueueItem>, path: String) -> (outcome: (
    DownloadCommand,
    bool,
))
    ensures
        outcome.0@ == CommandView::Pause(path@),
        outcome.1 == has_key(old(queue).deep_view(), path@),
        final(queue).deep_view() == with_first(
            old(queue).deep_view(),
            path@,
            |item: QueueItemView| paused_item(item),
        ),
{
    let found = match find_key(queue, &path) {
        Some(at) => {
            let status = &queue[at].status;
            if status.is_pending() || status.is_downloading() || status.is_paused() {
                let mut item = queue[at].clone();
                item.status = TransferStatus::Paused;
                replace_item(queue, at, item);
            } else {
                assert(queue.deep_view() =~= old(queue).deep_view().update(
                    at as int,
                    old(queue).deep_view()[at as int],
                ));
            }
            true
        },
        None => false,
    };
    (DownloadCommand::Pause(path), found)
}

/// The commands that put an item back in line. Where the item is queued and
/// not completed, it is handed to the engine again as a pending item, for the
/// engine lets go of an item whose worker has ended for good; the engine
/// passes over an item that it still holds. Then the pause mark of the key is
/// lifted.
pub open spec fn resume_commands(queue: Seq<QueueItemView>, path: Seq<char>) -> Seq<CommandView> {
    let at = crate::queue::index_of(queue, path);
    if at < queue.len() && !(queue[at].status is Completed) {
        seq![CommandView::AddItem(resumed_item(queue[at])), CommandView::Resume(path)]
    } else {
        seq![CommandView::Resume(path)]
    }
}

/// Puts an item back in line at the user's request, whether it was paused or
/// had failed: it is pending again and the engine will start it where it
/// stopped. A completed item stays as it is. Returns the commands for the
/// engine, and tells whether an item was found and the queue is to be written
/// to disk.
pub fn resume_download(queue: &mut Vec<QueueItem>, path: String) -> (outcome: (
    Vec<DownloadCommand>,
    bool,
))
    ensures
        outcome.0.deep_view() == resume_commands(old(queue).deep_view(), path@),
        outcome.1 == has_key(old(queue).deep_view(), path@),
        final(queue).deep_view() == with_first(
            old(queue).deep_view(),
            path@,
            |item: QueueItemView| resumed_item(item),
        ),
{
    let mut commands: Vec<DownloadCommand> = Vec::new();
    let found = match find_key(queue, &path) {
        Some(at) => {
            if !queue[at].status.is_completed() {
                let mut item = queue[at].clone();
                item.status = TransferStatus::Pending;
                commands.push(DownloadCommand::AddItem(item.clone()));
                replace_item(queue, at, item);
            } else {
                assert(queue.deep_view() =~= old(queue).deep_view().update(
                    at as int,
                    old(queue).deep_view()[at as int],
                ));
            }
            true
        },
        None => false,
    };
    commands.push(DownloadCommand::Resume(path));
    assert(commands.deep_view() =~= resume_commands(old(queue).deep_view(), path@));
    (commands, found)
}

/// Takes the item out of the queue at the user's request and returns the
/// command for the engine.
pub fn cancel_download(queue: &mut Vec<QueueItem>, path: String) -> (command: DownloadCommand)
    ensures
        command@ == CommandView::Cancel(path@),
        final(queue).deep_view() == without_key(old(queue).deep_view(), path@),
{
    remove_key(queue, &path);
    DownloadCommand::Cancel(path)
}

/// The keys of the items that are not finished, in queue order: the ones to
/// look up on the server after connecting.
pub open spec fn unfinished_keys(queue: Seq<QueueItemView>) -> Seq<Seq<char>> {
    queue.filter(|item: QueueItemView| item.status.is_unfinished()).map_values(
        |item: QueueItemView| item.remote_file,
    )
}

/// Lists the keys of the items that are pending, downloading or paused.
pub fn items_to_check(queue: &Vec<QueueItem>) -> (keys: Vec<String>)
    ensures
        keys.deep_view() == unfinished_keys(queue.deep_view()),
{
    let ghost items = queue.deep_view();
    let ghost unfinished = |item: QueueItemView| item.status.is_unfinished();
    let ghost key_of = |item: QueueItemView| item.remote_file;
    let mut keys: Vec<String> = Vec::new();
    let mut at: usize = 0;
    proof {
        reveal(Seq::filter);
        assert(items.take(0) =~= Seq::<QueueItemView>::empty());
        assert(keys.deep_view() =~= items.take(0).filter(unfinished).map_values(key_of));
    }
    while at < queue.len()
        invariant
            at <= queue@.len(),
            items == queue.deep_view(),
            unfinished == (|item: QueueItemView| item.status.is_unfinished()),
            key_of == (|item: QueueItemView| item.remote_file),
            keys.deep_view() == items.take(at as int).filter(unfinished).map_values(key_of),
        decreases queue@.len() - at,
    {
        let item = &queue[at];
        let ghost before = keys.deep_view();
        let ghost kept = items.take(at as int).filter(unfinished);
        proof {
            assert(items.take(at + 1) =~= items.take(at as int).push(items[at as int]));
            items.take(at as int).lemma_filter_push(items[at as int], unfinished);
        }
        if item.status.is_pending() || item.status.is_downloading() || item.status.is_paused() {
            keys.push(item.remote_file.clone());
            proof {
                assert(keys.deep_view() =~= before.push(items[at as int].remote_file));
                assert(kept.push(items[at as int]).map_values(key_of) =~= kept.map_values(
                    key_of,
                ).push(items[at as int].remote_file));
            }
        }
        at += 1;
    }
    assert(items.take(at as int) =~= items);
    keys
}

/// What the server answered about one queued item.
#[derive(Debug, PartialEq)]
pub struct Verification {
    pub path: String,
    /// Whether the remote file is there.
    pub exists: bool,
    /// Its size; 0 where it is not there.
    pub size: u64,
}

/// The view of a [`Verification`].
pub struct VerificationView {
    pub path: Seq<char>,
    pub exists: bool,
    pub size: u64,
}

impl View for Verification {
    type V = VerificationView;

    open spec fn view(&self) -> VerificationView {
        VerificationView { path: self.path@, exists: self.exists, size: self.size }
    }
}

impl DeepView for Verification {
    type V = VerificationView;

    open spec fn deep_view(&self) -> VerificationView {
        self@
    }
}

/// Reads the outcome of asking the server for a file's size: the file is
/// there with that size, or it is taken as missing.
pub fn verification_of(path: String, size: Result<u64, String>) -> (result: Verification)
    ensures
        result@ == (VerificationView {
            path: path@,
            exists: size is Ok,
            size: match size {
                Ok(bytes) => bytes,
                Err(_) => 0,
            },
        }),
{
    match size {
        Ok(bytes) => Verification { path, exists: true, size: bytes },
        Err(_) => Verification { path, exists: false, size: 0 },
    }
}

/// An item after the server's answer about it: failed where the remote file
/// is missing; else with the size filled in where none was known, and pending
/// again where it was marked as downloading.
pub open spec fn verified_item(item: QueueItemView, answer: VerificationView) -> QueueItemView {
    if !answer.exists {
        QueueItemView { status: StatusView::Failed("Remote file missing"@), ..item }
    } else {
        QueueItemView {
            size_bytes: if item.size_bytes == 0 {
                answer.size
            } else {
                item.size_bytes
            },
            status: if item.status is Downloading {
                StatusView::Pending
            } else {
                item.status
            },
            ..item
        }
    }
}

/// The queue after one answer was applied to the item it is about.
pub open spec fn verified_one(queue: Seq<QueueItemView>, answer: VerificationView) -> Seq<
    QueueItemView,
> {
    with_first(queue, answer.path, |item: QueueItemView| verified_item(item, answer))
}

/// Whether an answer makes the controller write the queue to disk: its item
/// is queued, and the file is missing, the size was unknown, or the item was
/// marked as downloading.
pub open spec fn answer_counts(queue: Seq<QueueItemView>, answer: VerificationView) -> bool {
    let at = crate::queue::index_of(queue, answer.path);
    at < queue.len() && (!answer.exists || queue[at].size_bytes == 0
        || queue[at].status is Downloading)
}

/// The queue after a series of answers, each applied in turn.
pub open spec fn verified(queue: Seq<QueueItemView>, answers: Seq<VerificationView>) -> Seq<
    QueueItemView,
>
    decreases answers.len(),
{
    if answers.len() == 0 {
        queue
    } else {
        verified_one(verified(queue, answers.drop_last()), answers.last())
    }
}

/// Whether any answer of a series counted when it was applied.
pub open spec fn any_counts(queue: Seq<QueueItemView>, answers: Seq<VerificationView>) -> bool
    decreases answers.len(),
{
    answers.len() > 0 && (any_counts(queue, answers.drop_last()) || answer_counts(
        verified(queue, answers.drop_last()),
        answers.last(),
    ))
}

/// Applies the server's answers to the queue and tells whether the queue is
/// to be written to disk.
pub fn apply_verification(queue: &mut Vec<QueueItem>, answers: &Vec<Verification>) -> (changed:
    bool)
    ensures
        final(queue).deep_view() == verified(old(queue).deep_view(), answers.deep_view()),
        changed == any_counts(old(queue).deep_view(), answers.deep_view()),
{
    let ghost start = queue.deep_view();
    let ghost given = answers.deep_view();
    let mut changed = false;
    let mut at: usize = 0;
    assert(given.take(0) =~= Seq::<VerificationView>::empty());
    while at < answers.len()
        invariant
            at <= answers@.len(),
            given == answers.deep_view(),
            queue.deep_view() == verified(start, given.take(at as int)),
            changed == any_counts(start, given.take(at as int)),
        decreases answers@.len() - at,
    {
        let answer = &answers[at];
        proof {
            assert(given.take(at + 1).drop_last() =~= given.take(at as int));
            assert(given.take(at + 1).last() == answer@);
        }
        match find_key(queue, &answer.path) {
            Some(index) => {
                let mut item = queue[index].clone();
                if !answer.exists {
                    item.status = TransferStatus::Failed(String::from_str("Remote file missing"));
                    changed = true;
                } else {
                    if item.size_bytes == 0 {
                        item.size_bytes = answer.size;
                        changed = true;
                    }
                    if item.status.is_downloading() {
                        item.status = TransferStatus::Pending;
                        changed = true;
                    }
                }
                replace_item(queue, index, item);
            },
            None => {},
        }
        at += 1;
    }
    assert(given.take(at as int) =~= given);
    changed
}

/// The status line after the queue was checked: how many downloads resume,
/// or just that the connection stands.
pub open spec fn resume_message(queue: Seq<QueueItemView>) -> Seq<char> {
    if pending_count(queue) > 0 {
        "Resuming "@ + decimal(pending_count(queue)) + " downloads..."@
    } else {
        "Connected."@
    }
}

/// Writes the status line for a checked queue.
pub fn status_after_verification(queue: &Vec<QueueItem>) -> (message: String)
    ensures
        message@ == resume_message(queue.deep_view()),
{
    let pending = count_pending(queue);
    if pending > 0 {
        let mut message = String::from_str("Resuming ");
        let digits = to_decimal(pending as u64);
        message.append(digits.as_str());
        message.append(" downloads...");
        message
    } else {
        String::from_str("Connected.")
    }
}

/// The item that a found file is queued as.
pub open spec fn queued_item(file: RemoteFileView, location: Seq<char>) -> QueueItemView {
    QueueItemView {
        local_location: location,
        filename: file.name,
        remote_file: file.path,
        size_bytes: file.size_bytes,
        bytes_downloaded: 0,
        priority: DEFAULT_PRIORITY,
        status: StatusView::Pending,
    }
}

/// The queue after found files were added, and the items added: each file
/// whose path is not queued yet becomes a pending item at the end.
pub open spec fn enqueued(
    queue: Seq<QueueItemView>,
    files: Seq<RemoteFileView>,
    location: Seq<char>,
) -> (Seq<QueueItemView>, Seq<QueueItemView>)
    decreases files.len(),
{
    if files.len() == 0 {
        (queue, Seq::empty())
    } else {
        let before = enqueued(queue, files.drop_last(), location);
        if has_key(before.0, files.last().path) {
            before
        } else {
            let item = queued_item(files.last(), location);
            (before.0.push(item), before.1.push(item))
        }
    }
}

/// Adds found files to the queue, each unless its path is queued already,
/// and returns the items that were added.
pub fn enqueue_files(queue: &mut Vec<QueueItem>, files: &Vec<RemoteFile>, location: &String) -> (added:
    Vec<QueueItem>)
    ensures
        (final(queue).deep_view(), added.deep_view()) == enqueued(
            old(queue).deep_view(),
            files.deep_view(),
            location@,
        ),
{
    let ghost start = queue.deep_view();
    let ghost given = files.deep_view();
    let mut added: Vec<QueueItem> = Vec::new();
    let mut at: usize = 0;
    proof {
        assert(given.take(0) =~= Seq::<RemoteFileView>::empty());
        assert(added.deep_view() =~= Seq::<QueueItemView>::empty());
    }
    while at < files.len()
        invariant
            at <= files@.len(),
            given == files.deep_view(),
            (queue.deep_view(), added.deep_view()) == enqueued(
                start,
                given.take(at as int),
                location@,
            ),
        decreases files@.len() - at,
    {
        let file = &files[at];
        let ghost queued = queue.deep_view();
        let ghost sofar = added.deep_view();
        proof {
            assert(given.take(at + 1).drop_last() =~= given.take(at as int));
            assert(given.take(at + 1).last() == file@);
        }
        if find_key(queue, &file.path).is_none() {
            let item = QueueItem {
                local_location: location.clone(),
                filename: file.name.clone(),
                remote_file: file.path.clone(),
                size_bytes: file.size_bytes,
                bytes_downloaded: 0,
                priority: DEFAULT_PRIORITY,
                status: TransferStatus::Pending,
            };
            added.push(item.clone());
            queue.push(item);
            proof {
                let view = queued_item(file@, location@);
                assert(queue.deep_view() =~= queued.push(view));
                assert(added.deep_view() =~= sofar.push(view));
            }
        }
        at += 1;
    }
    assert(given.take(at as int) =~= given);
    added
}

/// Queueing found files never gives two items the same key.
pub proof fn lemma_enqueue_keeps_keys_unique(
    queue: Seq<QueueItemView>,
    files: Seq<RemoteFileView>,
    location: Seq<char>,
)
    requires
        keys_unique(queue),
    ensures
        keys_unique(enqueued(queue, files, location).0),
    decreases files.len(),
{
    if files.len() > 0 {
        lemma_enqueue_keeps_keys_unique(queue, files.drop_last(), location);
    }
}

/// The commands that start the engine on a queue: every pending item is
/// handed over, in queue order, and then the engine is told to start.
pub open spec fn start_commands(queue: Seq<QueueItemView>) -> Seq<CommandView> {
    queue.filter(|item: QueueItemView| item.status is Pending).map_values(
        |item: QueueItemView| CommandView::AddItem(item),
    ).push(CommandView::StartAll)
}

/// The commands that hand newly queued items to a running engine.
pub open spec fn add_commands(items: Seq<QueueItemView>) -> Seq<CommandView> {
    items.map_values(|item: QueueItemView| CommandView::AddItem(item))
}

/// Whether some item of the queue is pending.
pub open spec fn has_pending(queue: Seq<QueueItemView>) -> bool {
    exists|i: int| 0 <= i < queue.len() && (#[trigger] queue[i]).status is Pending
}

/// The view of an optional command.
pub open spec fn optional_view(command: Option<DownloadCommand>) -> Option<CommandView> {
    match command {
        Some(command) => Some(command@),
        None => None,
    }
}

/// The view of an optional list of commands.
pub open spec fn optional_list_view(commands: Option<Vec<DownloadCommand>>) -> Option<
    Seq<CommandView>,
> {
    match commands {
        Some(commands) => Some(commands.deep_view()),
        None => None,
    }
}

/// The command that a change of the schedule's answer sends to a running
/// engine: none while the answer stays the same or no engine runs, else
/// `ResumeAll` when downloading becomes permitted and `PauseAll` when it stops
/// being permitted.
pub open spec fn schedule_command(was_allowed: bool, allowed: bool, running: bool) -> Option<
    CommandView,
> {
    if allowed != was_allowed && running {
        if allowed {
            Some(CommandView::ResumeAll)
        } else {
            Some(CommandView::PauseAll)
        }
    } else {
        None
    }
}

fn build_start_commands(queue: &Vec<QueueItem>) -> (commands: Vec<DownloadCommand>)
    ensures
        commands.deep_view() == start_commands(queue.deep_view()),
{
    let ghost items = queue.deep_view();
    let ghost pending = |item: QueueItemView| item.status is Pending;
    let ghost hand_over = |item: QueueItemView| CommandView::AddItem(item);
    let mut commands: Vec<DownloadCommand> = Vec::new();
    let mut at: usize = 0;
    proof {
        reveal(Seq::filter);
        assert(items.take(0) =~= Seq::<QueueItemView>::empty());
        assert(commands.deep_view() =~= items.take(0).filter(pending).map_values(hand_over));
    }
    while at < queue.len()
        invariant
            at <= queue@.len(),
            items == queue.deep_view(),
            pending == (|item: QueueItemView| item.status is Pending),
            hand_over == (|item: QueueItemView| CommandView::AddItem(item)),
            commands.deep_view() == items.take(at as int).filter(pending).map_values(hand_over),
        decreases queue@.len() - at,
    {
        let item = &queue[at];
        let ghost before = commands.deep_view();
        let ghost kept = items.take(at as int).filter(pending);
        proof {
            assert(items.take(at + 1) =~= items.take(at as int).push(items[at as int]));
            items.take(at as int).lemma_filter_push(items[at as int], pending);
        }
        if item.status.is_pending() {
            commands.push(DownloadCommand::AddItem(item.clone()));
            proof {
                assert(commands.deep_view() =~= before.push(hand_over(items[at as int])));
                assert(kept.push(items[at as int]).map_values(hand_over) =~= kept.map_values(
                    hand_over,
                ).push(hand_over(items[at as int])));
            }
        }
        at += 1;
    }
    let ghost handed = commands.deep_view();
    commands.push(DownloadCommand::StartAll);
    proof {
        assert(items.take(at as int) =~= items);
        assert(commands.deep_view() =~= handed.push(CommandView::StartAll));
    }
    commands
}

fn build_add_commands(items: Vec<QueueItem>) -> (commands: Vec<DownloadCommand>)
    ensures
        commands.deep_view() == add_commands(items.deep_view()),
{
    let ghost given = items.deep_view();
    let mut commands: Vec<DownloadCommand> = Vec::new();
    let mut at: usize = 0;
    while at < items.len()
        invariant
            at <= items@.len(),
            given == items.deep_view(),
            commands@.len() == at,
            forall|i: int| 0 <= i < at ==> (#[trigger] commands@[i])@ == CommandView::AddItem(given[i]),
        decreases items@.len() - at,
    {
        commands.push(DownloadCommand::AddItem(items[at].clone()));
        at += 1;
    }
    assert(commands.deep_view() =~= add_commands(given));
    commands
}

/// What a schedule tick asks for.
#[derive(Debug, PartialEq)]
pub struct TickOutcome {
    /// The command for the running engine, where the schedule's answer changed.
    pub command: Option<DownloadCommand>,
    /// The commands that start the engine, where it is to be started now.
    pub start: Option<Vec<DownloadCommand>>,
}

/// The controller's own state: the configuration, the persistent queue and
/// what it remembers of the connection, the engine and the schedule.
#[derive(Debug, PartialEq)]
pub struct Controller {
    pub config: crate::settings::AppConfig,
    pub queue_items: Vec<QueueItem>,
    pub current_remote_path: String,
    pub is_connected: bool,
    /// Whether the engine has been started.
    pub is_downloading: bool,
    /// What the schedule answered at the last tick.
    pub last_schedule_allowed: bool,
}

impl Controller {
    /// A controller that is not connected and has not started the engine.
    /// The schedule counts as open until the first tick says otherwise.
    pub fn new(config: crate::settings::AppConfig, queue_items: Vec<QueueItem>) -> (controller: Self)
        ensures
            controller.config == config,
            controller.queue_items == queue_items,
            controller.current_remote_path@ == "."@,
            !controller.is_connected,
            !controller.is_downloading,
            controller.last_schedule_allowed,
    {
        Controller {
            config,
            queue_items,
            current_remote_path: String::from_str("."),
            is_connected: false,
            is_downloading: false,
            last_schedule_allowed: true,
        }
    }

    /// Whether the two agree on everything but the queue and the engine flag.
    pub open spec fn same_settings(self, other: Self) -> bool {
        &&& self.config == other.config
        &&& self.current_remote_path == other.current_remote_path
        &&& self.is_connected == other.is_connected
        &&& self.last_schedule_allowed == other.last_schedule_allowed
    }

    /// Starts the engine unless it has been started: every pending item is
    /// handed over and the engine is told to start. Returns the commands to
    /// send, or `None` where the engine runs already.
    pub fn start_manager(&mut self) -> (commands: Option<Vec<DownloadCommand>>)
        ensures
            optional_list_view(commands) == (if old(self).is_downloading {
                None
            } else {
                Some(start_commands(old(self).queue_items.deep_view()))
            }),
            final(self).is_downloading,
            final(self).queue_items == old(self).queue_items,
            final(self).same_settings(*old(self)),
    {
        if self.is_downloading {
            None
        } else {
            self.is_downloading = true;
            Some(build_start_commands(&self.queue_items))
        }
    }

    /// Takes in the result of a scan: the found files are queued, each unless
    /// its path is queued already, in the configured download directory. A
    /// running engine is handed the new items. Where none runs and
    /// `auto_start` is set, the engine is started if anything is pending.
    /// Returns the commands to send.
    pub fn on_scan_result(&mut self, files: &Vec<RemoteFile>, auto_start: bool) -> (commands: Vec<
        DownloadCommand,
    >)
        ensures
            ({
                let queued = enqueued(
                    old(self).queue_items.deep_view(),
                    files.deep_view(),
                    old(self).config.local_download_path@,
                );
                &&& final(self).queue_items.deep_view() == queued.0
                &&& commands.deep_view() == (if old(self).is_downloading {
                    add_commands(queued.1)
                } else if auto_start && has_pending(queued.0) {
                    start_commands(queued.0)
                } else {
                    Seq::empty()
                })
                &&& final(self).is_downloading == (old(self).is_downloading || (auto_start
                    && has_pending(queued.0)))
            }),
            final(self).same_settings(*old(self)),
    {
        let added = enqueue_files(&mut self.queue_items, files, &self.config.local_download_path);
        if self.is_downloading {
            build_add_commands(added)
        } else if auto_start && any_pending(&self.queue_items) {
            self.is_downloading = true;
            build_start_commands(&self.queue_items)
        } else {
            let commands: Vec<DownloadCommand> = Vec::new();
            assert(commands.deep_view() =~= Seq::<CommandView>::empty());
            commands
        }
    }

    /// Takes in the schedule's answer for this moment. Where the answer has
    /// changed and the engine runs, the engine is told to pause or to resume.
    /// Where downloading is permitted, no engine runs and something is
    /// pending, the engine is started.
    pub fn tick(&mut self, allowed: bool) -> (outcome: TickOutcome)
        ensures
            final(self).last_schedule_allowed == allowed,
            optional_view(outcome.command) == schedule_command(
                old(self).last_schedule_allowed,
                allowed,
                old(self).is_downloading,
            ),
            optional_list_view(outcome.start) == (if allowed && !old(self).is_downloading
                && has_pending(old(self).queue_items.deep_view()) {
                Some(start_commands(old(self).queue_items.deep_view()))
            } else {
                None
            }),
            final(self).is_downloading == (old(self).is_downloading || outcome.start is Some),
            final(self).queue_items == old(self).queue_items,
            final(self).config == old(self).config,
            final(self).current_remote_path == old(self).current_remote_path,
            final(self).is_connected == old(self).is_connected,
    {
        let mut command: Option<DownloadCommand> = None;
        if allowed != self.last_schedule_allowed {
            self.last_schedule_allowed = allowed;
            if self.is_downloading {
                if allowed {
                    command = Some(DownloadCommand::ResumeAll);
                } else {
                    command = Some(DownloadCommand::PauseAll);
                }
            }
        }
        let start = if allowed && !self.is_downloading && any_pending(&self.queue_items) {
            self.is_downloading = true;
            Some(build_start_commands(&self.queue_items))
        } else {
            None
        };
        TickOutcome { command, start }
    }

    /// Asks the schedule about the moment `now` and takes in its answer.
    pub fn on_tick(&mut self, now: crate::scheduler::LocalMoment) -> (outcome: TickOutcome)
        ensures
            final(self).last_schedule_allowed == crate::scheduler::allowed(
                old(self).config.schedule,
                now@,
            ),
            optional_view(outcome.command) == schedule_command(
                old(self).last_schedule_allowed,
                final(self).last_schedule_allowed,
                old(self).is_downloading,
            ),
            optional_list_view(outcome.start) == (if final(self).last_schedule_allowed && !old(
                self,
            ).is_downloading && has_pending(old(self).queue_items.deep_view()) {
                Some(start_commands(old(self).queue_items.deep_view()))
            } else {
                None
            }),
            final(self).is_downloading == (old(self).is_downloading || outcome.start is Some),
            final(self).queue_items == old(self).queue_items,
            final(self).config == old(self).config,
            final(self).current_remote_path == old(self).current_remote_path,
            final(self).is_connected == old(self).is_connected,
    {
        let allowed = crate::scheduler::Scheduler::is_allowed(&self.config.schedule, now);
        self.tick(allowed)
    }

    /// Notes that the connection stands and picks the remote directory to
    /// show: the one remembered from last time, or `.` where none is.
    pub fn on_connected(&mut self) -> (path: String)
        ensures
            final(self).is_connected,
            path@ == (if old(self).config.last_remote_path@.len() > 0 {
                old(self).config.last_remote_path@
            } else {
                "."@
            }),
            final(self).current_remote_path@ == path@,
            final(self).config == old(self).config,
            final(self).queue_items == old(self).queue_items,
            final(self).is_downloading == old(self).is_downloading,
            final(self).last_schedule_allowed == old(self).last_schedule_allowed,
    {
        self.is_connected = true;
        let path = if self.config.last_remote_path.as_str().unicode_len() > 0 {
            self.config.last_remote_path.clone()
        } else {
            String::from_str(".")
        };
        self.current_remote_path = path.clone();
        path
    }

    /// Notes in the configuration what the next start needs: the remote
    /// directory shown last, and whether to connect at once.
    pub fn prepare_exit(&mut self)
        ensures
            final(self).config.last_remote_path@ == old(self).current_remote_path@,
            final(self).config.auto_connect == old(self).is_connected,
            final(self).config.sftp_config == old(self).config.sftp_config,
            final(self).config.download_threshold == old(self).config.download_threshold,
            final(self).config.local_download_path == old(self).config.local_download_path,
            final(self).config.schedule == old(self).config.schedule,
            final(self).config.max_download_speed == old(self).config.max_download_speed,
            final(self).config.download_stats == old(self).config.download_stats,
            final(self).queue_items == old(self).queue_items,
            final(self).current_remote_path == old(self).current_remote_path,
            final(self).is_connected == old(self).is_connected,
            final(self).is_downloading == old(self).is_downloading,
            final(self).last_schedule_allowed == old(self).last_schedule_allowed,
    {
        self.config.last_remote_path = self.current_remote_path.clone();
        self.config.auto_connect = self.is_connected;
    }
}

/// A start follows the queue's order and is about its pending items alone:
/// the commands are one `AddItem` for each pending item and a closing
/// `StartAll`, so there is one command more than there are pending items.
pub proof fn lemma_start_commands(queue: Seq<QueueItemView>)
    ensures
        start_commands(queue).len() == pending_count(queue) + 1,
        start_commands(queue).last() == CommandView::StartAll,
        forall|i: int|
            0 <= i < start_commands(queue).len() - 1 ==> (#[trigger] start_commands(queue)[i]) is AddItem
                && start_commands(queue)[i]->AddItem_0.status is Pending,
{
    let pending = |item: QueueItemView| item.status is Pending;
    let kept = queue.filter(pending);
    assert forall|i: int| 0 <= i < kept.len() implies (#[trigger] kept[i]).status is Pending by {
        queue.lemma_filter_pred(pending, i);
    }
}

/// A change of the schedule's answer pauses or resumes a running engine, and
/// an unchanged answer sends nothing: closing the window sends `PauseAll`,
/// opening it `ResumeAll`.
pub proof fn lemma_schedule_flip(was_allowed: bool, allowed: bool, running: bool)
    ensures
        was_allowed == allowed ==> schedule_command(was_allowed, allowed, running) is None,
        !running ==> schedule_command(was_allowed, allowed, running) is None,
        running && was_allowed && !allowed ==> schedule_command(was_allowed, allowed, running)
            == Some(CommandView::PauseAll),
        running && !was_allowed && allowed ==> schedule_command(was_allowed, allowed, running)
            == Some(CommandView::ResumeAll),
{
}

/// A completed item has all its bytes: when the engine reports an item as
/// completed, the item ends up completed with its offset at its size, which
/// are the bounds that a queued item is meant to keep.
pub proof fn lemma_completion_fills_item(queue: Seq<QueueItemView>, key: Seq<char>)
    requires
        has_key(queue, key),
    ensures
        ({
            let after = after_event(queue, EventView::Completed { remote_file: key });
            let at = crate::queue::index_of(queue, key);
            &&& after.len() == queue.len()
            &&& 0 <= at < queue.len()
            &&& after[at].status is Completed
            &&& after[at].bytes_downloaded == after[at].size_bytes
            &&& after[at].well_formed()
            &&& forall|i: int| 0 <= i < queue.len() && i != at ==> after[i] == queue[i]
        }),
{
    crate::queue::lemma_first_where(queue, crate::queue::keyed(key), 0);
    let i0 = choose|i: int| 0 <= i < queue.len() && (#[trigger] queue[i]).remote_file == key;
    assert(crate::queue::keyed(key)(queue[i0]));
}

/// A newly queued item keeps the bounds of a queued item: it is pending with
/// nothing downloaded.
pub proof fn lemma_queued_item_well_formed(file: RemoteFileView, location: Seq<char>)
    ensures
        queued_item(file, location).well_formed(),
        queued_item(file, location).status is Pending,
        queued_item(file, location).bytes_downloaded == 0,
{
}

/// Whether every item keeps its bounds.
pub open spec fn all_well_formed(queue: Seq<QueueItemView>) -> bool {
    forall|i: int| 0 <= i < queue.len() ==> (#[trigger] queue[i]).well_formed()
}

/// Whether the event is one that its item can take: a progress report
/// carries an offset that is not behind the item's own and not beyond its
/// size. Every other event can be taken.
pub open spec fn in_bounds(queue: Seq<QueueItemView>, event: EventView) -> bool {
    event matches EventView::Progress { remote_file, bytes_downloaded } ==> {
        let at = crate::queue::index_of(queue, remote_file);
        at < queue.len() ==> queue[at].bytes_downloaded <= bytes_downloaded
            <= queue[at].size_bytes
    }
}

/// No event sets an item back. Applying an event keeps the items in place
/// with their keys and sizes, lowers the offset of none, and keeps every
/// item within its bounds: the offset never passes the size, and a completed
/// item has all its bytes.
pub proof fn lemma_event_keeps_bounds(queue: Seq<QueueItemView>, event: EventView)
    requires
        all_well_formed(queue),
        in_bounds(queue, event),
    ensures
        ({
            let after = after_event(queue, event);
            &&& after.len() == queue.len()
            &&& all_well_formed(after)
            &&& forall|i: int|
                0 <= i < queue.len() ==> (#[trigger] after[i]).remote_file == queue[i].remote_file
                    && after[i].size_bytes == queue[i].size_bytes && after[i].bytes_downloaded
                    >= queue[i].bytes_downloaded
        }),
{
    crate::queue::lemma_first_where(queue, crate::queue::keyed(event.key()), 0);
    let after = after_event(queue, event);
    assert forall|i: int| 0 <= i < queue.len() implies (#[trigger] after[i]).well_formed()
        && after[i].remote_file == queue[i].remote_file && after[i].size_bytes
        == queue[i].size_bytes && after[i].bytes_downloaded >= queue[i].bytes_downloaded by {
        assert(queue[i].well_formed());
    }
}

/// Nothing that the controller does to its queue gives two items the same
/// key: not an engine event, not the server's answer about an item, not the
/// user's pause, resume or cancel, and not the queueing of found files.
pub proof fn lemma_queue_keeps_keys_unique(
    queue: Seq<QueueItemView>,
    event: EventView,
    answers: Seq<VerificationView>,
    path: Seq<char>,
    files: Seq<RemoteFileView>,
    location: Seq<char>,
)
    requires
        keys_unique(queue),
    ensures
        keys_unique(after_event(queue, event)),
        keys_unique(verified(queue, answers)),
        keys_unique(with_first(queue, path, |item: QueueItemView| paused_item(item))),
        keys_unique(with_first(queue, path, |item: QueueItemView| resumed_item(item))),
        keys_unique(without_key(queue, path)),
        keys_unique(enqueued(queue, files, location).0),
    decreases answers.len(),
{
    match event {
        EventView::Progress { remote_file, bytes_downloaded } => {
            crate::queue::lemma_with_first_keeps_keys(
                queue,
                remote_file,
                |item: QueueItemView|
                    QueueItemView { bytes_downloaded, status: StatusView::Downloading, ..item },
            );
        },
        EventView::Completed { remote_file } => {
            crate::queue::lemma_with_first_keeps_keys(
                queue,
                remote_file,
                |item: QueueItemView|
                    QueueItemView {
                        bytes_downloaded: item.size_bytes,
                        status: StatusView::Completed,
                        ..item
                    },
            );
        },
        EventView::Failed { remote_file, error } => {
            crate::queue::lemma_with_first_keeps_keys(
                queue,
                remote_file,
                |item: QueueItemView| QueueItemView { status: StatusView::Failed(error), ..item },
            );
        },
        EventView::Started { remote_file } => {
            crate::queue::lemma_with_first_keeps_keys(
                queue,
                remote_file,
                |item: QueueItemView| QueueItemView { status: StatusView::Downloading, ..item },
            );
        },
        EventView::Paused { .. } => {},
    }
    if answers.len() > 0 {
        let before = verified(queue, answers.drop_last());
        lemma_queue_keeps_keys_unique(queue, event, answers.drop_last(), path, files, location);
        crate::queue::lemma_with_first_keeps_keys(
            before,
            answers.last().path,
            |item: QueueItemView| verified_item(item, answers.last()),
        );
    }
    crate::queue::lemma_with_first_keeps_keys(
        queue,
        path,
        |item: QueueItemView| paused_item(item),
    );
    crate::queue::lemma_with_first_keeps_keys(
        queue,
        path,
        |item: QueueItemView| resumed_item(item),
    );
    crate::queue::lemma_without_key(queue, path);
    lemma_enqueue_keeps_keys_unique(queue, files, location);
}

} // verus!
