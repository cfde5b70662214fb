use simple_sftp::controller::{apply_event, apply_verification, verification_of};
use simple_sftp::download_manager::{
    DownloadCommand, DownloadEvent, DownloadManager, EngineAction, WorkerLaunch, MAX_CONCURRENT,
};
use simple_sftp::settings::SftpConfig;
use simple_sftp::types::{QueueItem, TransferStatus};
use simple_sftp::worker::resume_offset;

const MIB: u64 = 1024 * 1024;

fn item(remote: &str, size: u64) -> QueueItem {
    let name = remote.rsplit('/').next().unwrap().to_string();
    QueueItem {
        local_location: "/tmp".to_string(),
        filename: name,
        remote_file: remote.to_string(),
        size_bytes: size,
        bytes_downloaded: 0,
        priority: 10,
        status: TransferStatus::Pending,
    }
}

fn engine() -> DownloadManager {
    DownloadManager::new(SftpConfig::default(), 0)
}

fn started(remote: &str) -> EngineAction {
    EngineAction::Emit(DownloadEvent::Started { remote_file: remote.to_string() })
}

fn launch(remote: &str, local: &str, offset: u64, size: u64) -> EngineAction {
    EngineAction::Spawn(WorkerLaunch {
        config: SftpConfig::default(),
        remote_file: remote.to_string(),
        local_path: local.to_string(),
        start_offset: offset,
        size_bytes: size,
    })
}

fn started_keys(actions: &[EngineAction]) -> Vec<String> {
    let mut keys = Vec::new();
    for action in actions {
        if let EngineAction::Emit(DownloadEvent::Started { remote_file }) = action {
            keys.push(remote_file.clone());
        }
    }
    keys
}

#[test]
fn a_new_engine_is_idle() {
    let manager = engine();
    assert_eq!(manager.queue().len(), 0);
    assert_eq!(manager.active_count(), 0);
    assert!(!manager.is_global_paused());
    assert_eq!(manager.speed_limit(), 0);
    assert_eq!(manager.config(), &SftpConfig::default());
    assert_eq!(DownloadManager::new(SftpConfig::default(), 64).speed_limit(), 64);
}

#[test]
fn adding_an_item_starts_it() {
    let mut manager = engine();
    let actions = manager.handle_command(DownloadCommand::AddItem(item("/a.bin", 200000)));
    assert_eq!(actions, vec![started("/a.bin"), launch("/a.bin", "/tmp/a.bin", 0, 200000)]);
    assert!(manager.is_active(&"/a.bin".to_string()));
    assert_eq!(manager.active_count(), 1);
    assert_eq!(manager.queue().len(), 1);
}

#[test]
fn an_item_is_not_queued_twice() {
    let mut manager = engine();
    manager.handle_command(DownloadCommand::PauseAll);
    manager.handle_command(DownloadCommand::AddItem(item("/a.bin", 1)));
    manager.handle_command(DownloadCommand::AddItem(item("/a.bin", 2)));
    assert_eq!(manager.queue().len(), 1);
    assert_eq!(manager.queue()[0].size_bytes, 1);
}

#[test]
fn two_run_and_the_third_waits_for_a_slot() {
    let mut manager = engine();
    manager.handle_command(DownloadCommand::PauseAll);
    for name in ["/one.bin", "/two.bin", "/three.bin"] {
        assert_eq!(manager.handle_command(DownloadCommand::AddItem(item(name, MIB))), vec![]);
    }
    let actions = manager.handle_command(DownloadCommand::StartAll);
    assert_eq!(started_keys(&actions), vec!["/one.bin", "/two.bin"]);
    assert_eq!(actions.len(), 4);
    assert_eq!(manager.active_count(), MAX_CONCURRENT);
    assert!(!manager.is_active(&"/three.bin".to_string()));
    assert_eq!(manager.handle_command(DownloadCommand::StartAll), vec![]);
    assert_eq!(manager.process_queue(), vec![]);

    // The first transfer completes: the third item gets the slot, and only the third.
    let actions =
        manager.handle_command(DownloadCommand::TaskDone { remote_file: "/one.bin".to_string() });
    assert_eq!(
        actions,
        vec![started("/three.bin"), launch("/three.bin", "/tmp/three.bin", 0, MIB)]
    );
    assert_eq!(manager.active_count(), MAX_CONCURRENT);
    assert!(!manager.is_active(&"/one.bin".to_string()));
    assert!(manager.is_active(&"/two.bin".to_string()));
    assert!(manager.is_active(&"/three.bin".to_string()));
    let keys: Vec<&str> = manager.queue().iter().map(|i| i.remote_file.as_str()).collect();
    assert_eq!(keys, vec!["/two.bin", "/three.bin"]);
}

#[test]
fn a_freed_slot_goes_to_the_first_pending_item_in_line() {
    let mut manager = engine();
    manager.handle_command(DownloadCommand::PauseAll);
    for name in ["/one.bin", "/two.bin", "/three.bin", "/four.bin"] {
        manager.handle_command(DownloadCommand::AddItem(item(name, MIB)));
    }
    manager.handle_command(DownloadCommand::StartAll);
    let actions =
        manager.handle_command(DownloadCommand::TaskDone { remote_file: "/two.bin".to_string() });
    assert_eq!(started_keys(&actions), vec!["/three.bin"]);
    assert_eq!(manager.active_count(), MAX_CONCURRENT);
    let actions =
        manager.handle_command(DownloadCommand::TaskDone { remote_file: "/one.bin".to_string() });
    assert_eq!(started_keys(&actions), vec!["/four.bin"]);
    let actions =
        manager.handle_command(DownloadCommand::TaskDone { remote_file: "/four.bin".to_string() });
    assert_eq!(actions, vec![]);
    assert_eq!(manager.active_count(), 1);
}

#[test]
fn a_finished_item_is_not_started_again_until_it_is_added_again() {
    let mut manager = engine();
    let actions = manager.handle_command(DownloadCommand::AddItem(item("/a.bin", 10)));
    assert_eq!(started_keys(&actions), vec!["/a.bin"]);
    // The worker failed or completed, and gave its slot back.
    let actions =
        manager.handle_command(DownloadCommand::TaskDone { remote_file: "/a.bin".to_string() });
    assert_eq!(actions, vec![]);
    assert_eq!(manager.active_count(), 0);
    assert_eq!(manager.queue().len(), 0);
    assert_eq!(manager.handle_command(DownloadCommand::StartAll), vec![]);
    assert_eq!(manager.handle_command(DownloadCommand::ResumeAll), vec![]);
    assert_eq!(manager.handle_command(DownloadCommand::Resume("/a.bin".to_string())), vec![]);
    assert_eq!(manager.process_queue(), vec![]);
    assert!(!manager.is_active(&"/a.bin".to_string()));
    // Added again, it starts again.
    let actions = manager.handle_command(DownloadCommand::AddItem(item("/a.bin", 10)));
    assert_eq!(actions, vec![started("/a.bin"), launch("/a.bin", "/tmp/a.bin", 0, 10)]);
}

#[test]
fn dispatch_takes_the_first_waiting_items_in_queue_order() {
    let mut manager = engine();
    manager.handle_command(DownloadCommand::PauseAll);
    let mut done = item("/done.bin", 5);
    done.status = TransferStatus::Completed;
    manager.handle_command(DownloadCommand::AddItem(done));
    manager.handle_command(DownloadCommand::AddItem(item("/held.bin", 5)));
    manager.handle_command(DownloadCommand::AddItem(item("/first.bin", 5)));
    manager.handle_command(DownloadCommand::AddItem(item("/second.bin", 6)));
    manager.handle_command(DownloadCommand::AddItem(item("/third.bin", 7)));
    manager.handle_command(DownloadCommand::Pause("/held.bin".to_string()));
    // Lifting the global pause alone keeps the pause mark of the held item.
    let actions = manager.handle_command(DownloadCommand::StartAll);
    assert_eq!(
        actions,
        vec![
            started("/first.bin"),
            launch("/first.bin", "/tmp/first.bin", 0, 5),
            started("/second.bin"),
            launch("/second.bin", "/tmp/second.bin", 0, 6),
        ]
    );
    assert!(!manager.is_active(&"/held.bin".to_string()));
    assert!(!manager.is_active(&"/third.bin".to_string()));
    // With one slot free, one item starts: the first that waits.
    let actions =
        manager.handle_command(DownloadCommand::TaskDone { remote_file: "/first.bin".to_string() });
    assert_eq!(actions, vec![started("/third.bin"), launch("/third.bin", "/tmp/third.bin", 0, 7)]);
}

#[test]
fn pause_all_marks_the_active_items_and_starts_nothing() {
    let mut manager = engine();
    manager.handle_command(DownloadCommand::AddItem(item("/one.bin", MIB)));
    manager.handle_command(DownloadCommand::AddItem(item("/two.bin", MIB)));
    manager.handle_command(DownloadCommand::AddItem(item("/three.bin", MIB)));
    assert_eq!(manager.handle_command(DownloadCommand::PauseAll), vec![]);
    assert!(manager.is_global_paused());
    assert_eq!(manager.paused_offset(&"/one.bin".to_string()), Some(0));
    assert_eq!(manager.paused_offset(&"/two.bin".to_string()), Some(0));
    assert_eq!(manager.paused_offset(&"/three.bin".to_string()), None);
    assert!(!manager.is_paused(&"/three.bin".to_string()));
    let freed =
        manager.handle_command(DownloadCommand::TaskDone { remote_file: "/one.bin".to_string() });
    assert_eq!(freed, vec![]);
}

#[test]
fn resume_all_restarts_paused_items_at_their_reported_offsets() {
    let mut manager = engine();
    manager.handle_command(DownloadCommand::AddItem(item("/one.bin", MIB)));
    manager.handle_command(DownloadCommand::AddItem(item("/two.bin", MIB)));
    manager.handle_command(DownloadCommand::PauseAll);
    manager.record_pause_offset("/one.bin".to_string(), 131072);
    assert_eq!(manager.paused_offset(&"/one.bin".to_string()), Some(131072));
    manager.handle_command(DownloadCommand::TaskPaused {
        remote_file: "/one.bin".to_string(),
        offset: 131072,
    });
    manager.handle_command(DownloadCommand::TaskPaused {
        remote_file: "/two.bin".to_string(),
        offset: 65536,
    });
    assert_eq!(manager.active_count(), 0);
    assert_eq!(manager.queue()[0].bytes_downloaded, 131072);
    assert_eq!(manager.queue()[1].bytes_downloaded, 65536);
    let actions = manager.handle_command(DownloadCommand::ResumeAll);
    assert_eq!(
        actions,
        vec![
            started("/one.bin"),
            launch("/one.bin", "/tmp/one.bin", 131072, MIB),
            started("/two.bin"),
            launch("/two.bin", "/tmp/two.bin", 65536, MIB),
        ]
    );
    assert!(!manager.is_global_paused());
    assert!(!manager.is_paused(&"/one.bin".to_string()));
}

#[test]
fn a_late_note_of_a_worker_leaves_no_pause_mark() {
    let mut manager = engine();
    manager.handle_command(DownloadCommand::AddItem(item("/one.bin", MIB)));
    manager.handle_command(DownloadCommand::AddItem(item("/two.bin", MIB)));
    manager.handle_command(DownloadCommand::AddItem(item("/three.bin", MIB)));
    manager.handle_command(DownloadCommand::PauseAll);
    // The window opens again before the worker of the first item has stopped.
    assert_eq!(manager.handle_command(DownloadCommand::ResumeAll), vec![]);
    manager.record_pause_offset("/one.bin".to_string(), 131072);
    assert_eq!(manager.paused_offset(&"/one.bin".to_string()), None);
    assert_eq!(
        manager.handle_command(DownloadCommand::TaskPaused {
            remote_file: "/one.bin".to_string(),
            offset: 131072,
        }),
        vec![]
    );
    assert!(!manager.is_global_paused());
    assert!(!manager.is_paused(&"/one.bin".to_string()));
    assert_eq!(manager.queue()[0].bytes_downloaded, 131072);
    // The item waits; the next dispatch starts it where it stopped, ahead of the third.
    assert_eq!(
        manager.process_queue(),
        vec![started("/one.bin"), launch("/one.bin", "/tmp/one.bin", 131072, MIB)]
    );
    assert!(!manager.is_active(&"/three.bin".to_string()));
}

#[test]
fn pause_and_resume_of_one_item() {
    let mut manager = engine();
    manager.handle_command(DownloadCommand::AddItem(item("/big.bin", MIB)));
    assert_eq!(manager.handle_command(DownloadCommand::Pause("/big.bin".to_string())), vec![]);
    assert!(manager.is_paused(&"/big.bin".to_string()));
    manager.handle_command(DownloadCommand::TaskPaused {
        remote_file: "/big.bin".to_string(),
        offset: 196608,
    });
    assert!(!manager.is_active(&"/big.bin".to_string()));
    assert_eq!(manager.process_queue(), vec![]);
    let actions = manager.handle_command(DownloadCommand::Resume("/big.bin".to_string()));
    assert_eq!(actions, vec![started("/big.bin"), launch("/big.bin", "/tmp/big.bin", 196608, MIB)]);
}

#[test]
fn a_cancelled_item_never_starts_again() {
    let mut manager = engine();
    manager.handle_command(DownloadCommand::PauseAll);
    manager.handle_command(DownloadCommand::AddItem(item("/gone.bin", MIB)));
    manager.handle_command(DownloadCommand::AddItem(item("/stays.bin", MIB)));
    assert_eq!(manager.handle_command(DownloadCommand::Cancel("/gone.bin".to_string())), vec![]);
    assert!(manager.is_cancelled(&"/gone.bin".to_string()));
    assert!(!manager.is_cancelled(&"/stays.bin".to_string()));
    assert_eq!(manager.queue().len(), 1);
    manager.handle_command(DownloadCommand::AddItem(item("/gone.bin", MIB)));
    let actions = manager.handle_command(DownloadCommand::ResumeAll);
    assert_eq!(started_keys(&actions), vec!["/stays.bin"]);
    let again = manager.handle_command(DownloadCommand::StartAll);
    assert_eq!(again, vec![]);
}

#[test]
fn only_pending_items_are_started() {
    let mut manager = engine();
    manager.handle_command(DownloadCommand::PauseAll);
    let mut finished = item("/done.bin", 10);
    finished.status = TransferStatus::Completed;
    let mut failed = item("/bad.bin", 10);
    failed.status = TransferStatus::Failed("gone".to_string());
    manager.handle_command(DownloadCommand::AddItem(finished));
    manager.handle_command(DownloadCommand::AddItem(failed));
    manager.handle_command(DownloadCommand::AddItem(item("/next.bin", 10)));
    let actions = manager.handle_command(DownloadCommand::StartAll);
    assert_eq!(started_keys(&actions), vec!["/next.bin"]);
}

#[test]
fn the_speed_limit_is_stored() {
    let mut manager = engine();
    assert_eq!(manager.handle_command(DownloadCommand::SetSpeedLimit(64)), vec![]);
    assert_eq!(manager.speed_limit(), 64);
    manager.handle_command(DownloadCommand::SetSpeedLimit(0));
    assert_eq!(manager.speed_limit(), 0);
}

#[test]
fn never_more_than_two_workers_whatever_is_asked() {
    let mut manager = engine();
    let names = ["/a", "/b", "/c", "/d", "/e"];
    let commands = vec![
        DownloadCommand::AddItem(item(names[0], 1)),
        DownloadCommand::AddItem(item(names[1], 1)),
        DownloadCommand::AddItem(item(names[2], 1)),
        DownloadCommand::StartAll,
        DownloadCommand::TaskDone { remote_file: names[0].to_string() },
        DownloadCommand::AddItem(item(names[3], 1)),
        DownloadCommand::PauseAll,
        DownloadCommand::TaskPaused { remote_file: names[1].to_string(), offset: 1 },
        DownloadCommand::ResumeAll,
        DownloadCommand::Cancel(names[2].to_string()),
        DownloadCommand::TaskDone { remote_file: names[2].to_string() },
        DownloadCommand::AddItem(item(names[4], 1)),
        DownloadCommand::Resume(names[1].to_string()),
        DownloadCommand::StartAll,
    ];
    for command in commands {
        manager.handle_command(command.clone());
        assert!(manager.active_count() <= MAX_CONCURRENT, "after {:?}", command);
    }
}

#[test]
fn crash_recovery_picks_up_the_partial_file() {
    // The queue on disk says the item was downloading when the process died.
    let mut stored = item("/big.bin", MIB);
    stored.status = TransferStatus::Downloading;
    let mut queue = vec![stored];
    let answers = vec![verification_of("/big.bin".to_string(), Ok(MIB))];
    assert!(apply_verification(&mut queue, &answers));
    assert_eq!(queue[0].status, TransferStatus::Pending);

    let mut manager = engine();
    let actions = manager.handle_command(DownloadCommand::AddItem(queue[0].clone()));
    assert_eq!(actions.len(), 2);
    let start = match &actions[1] {
        EngineAction::Spawn(launch) => launch,
        other => panic!("expected a launch, got {:?}", other),
    };
    assert_eq!(start.start_offset, 0);
    // The local file holds 512 KiB of the 1 MiB.
    assert_eq!(resume_offset(start.start_offset, Some(524288), start.size_bytes), 524288);
    assert!(apply_event(&mut queue, DownloadEvent::Started { remote_file: "/big.bin".to_string() }));
    assert_eq!(queue[0].status, TransferStatus::Downloading);
}
