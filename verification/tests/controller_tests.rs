use simple_sftp::controller::{
    apply_event, apply_verification, cancel_download, enqueue_files, items_to_check,
    pause_download, resume_download, status_after_verification, verification_of, Controller,
    Verification,
};
use simple_sftp::download_manager::{
    DownloadCommand, DownloadEvent, DownloadManager, EngineAction, WorkerLaunch,
};
use simple_sftp::scheduler::{Day, LocalMoment};
use simple_sftp::settings::{AppConfig, ScheduleMode, SftpConfig, TimeOfDay};
use simple_sftp::types::{FileType, QueueItem, RemoteFile, TransferStatus};

fn item(remote: &str, size: u64, status: TransferStatus) -> QueueItem {
    QueueItem {
        local_location: "/downloads".to_string(),
        filename: remote.trim_start_matches('/').to_string(),
        remote_file: remote.to_string(),
        size_bytes: size,
        bytes_downloaded: 0,
        priority: 10,
        status,
    }
}

fn file(path: &str, size: u64) -> RemoteFile {
    RemoteFile {
        name: path.rsplit('/').next().unwrap().to_string(),
        path: path.to_string(),
        size: String::new(),
        size_bytes: size,
        file_type: FileType::File,
        modified: String::new(),
    }
}

fn config() -> AppConfig {
    let mut config = AppConfig::with_download_dir(None);
    config.local_download_path = "/downloads".to_string();
    config
}

#[test]
fn events_move_an_item_through_its_life() {
    let mut queue = vec![item("/a.bin", 200000, TransferStatus::Pending), item("/b.bin", 5, TransferStatus::Pending)];
    assert!(apply_event(&mut queue, DownloadEvent::Started { remote_file: "/a.bin".to_string() }));
    assert_eq!(queue[0].status, TransferStatus::Downloading);
    assert!(apply_event(
        &mut queue,
        DownloadEvent::Progress { remote_file: "/a.bin".to_string(), bytes_downloaded: 65536 }
    ));
    assert_eq!(queue[0].bytes_downloaded, 65536);
    assert_eq!(queue[0].status, TransferStatus::Downloading);
    assert!(!apply_event(&mut queue, DownloadEvent::Paused { remote_file: "/a.bin".to_string() }));
    assert_eq!(queue[0].status, TransferStatus::Downloading);
    assert!(apply_event(&mut queue, DownloadEvent::Completed { remote_file: "/a.bin".to_string() }));
    assert_eq!(queue[0].status, TransferStatus::Completed);
    assert_eq!(queue[0].bytes_downloaded, 200000);
    assert_eq!(queue[1], item("/b.bin", 5, TransferStatus::Pending));
}

#[test]
fn a_failure_keeps_its_message() {
    let mut queue = vec![item("/a.bin", 10, TransferStatus::Downloading)];
    assert!(apply_event(
        &mut queue,
        DownloadEvent::Failed { remote_file: "/a.bin".to_string(), error: "reset".to_string() }
    ));
    assert_eq!(queue[0].status, TransferStatus::Failed("reset".to_string()));
    assert_eq!(queue[0].status.to_string(), "Failed: reset");
}

#[test]
fn events_for_unknown_items_change_nothing() {
    let mut queue = vec![item("/a.bin", 10, TransferStatus::Pending)];
    assert!(apply_event(&mut queue, DownloadEvent::Completed { remote_file: "/x.bin".to_string() }));
    assert_eq!(queue, vec![item("/a.bin", 10, TransferStatus::Pending)]);
}

#[test]
fn user_pause_resume_and_cancel() {
    let mut queue = vec![item("/a.bin", 10, TransferStatus::Downloading), item("/b.bin", 10, TransferStatus::Pending)];
    let (command, found) = pause_download(&mut queue, "/a.bin".to_string());
    assert_eq!(command, DownloadCommand::Pause("/a.bin".to_string()));
    assert!(found);
    assert_eq!(queue[0].status, TransferStatus::Paused);
    let (commands, found) = resume_download(&mut queue, "/a.bin".to_string());
    assert_eq!(
        commands,
        vec![
            DownloadCommand::AddItem(item("/a.bin", 10, TransferStatus::Pending)),
            DownloadCommand::Resume("/a.bin".to_string()),
        ]
    );
    assert!(found);
    assert_eq!(queue[0].status, TransferStatus::Pending);
    let (_, found) = pause_download(&mut queue, "/nowhere".to_string());
    assert!(!found);
    let (commands, found) = resume_download(&mut queue, "/nowhere".to_string());
    assert_eq!(commands, vec![DownloadCommand::Resume("/nowhere".to_string())]);
    assert!(!found);
    let command = cancel_download(&mut queue, "/a.bin".to_string());
    assert_eq!(command, DownloadCommand::Cancel("/a.bin".to_string()));
    assert_eq!(queue, vec![item("/b.bin", 10, TransferStatus::Pending)]);
}

#[test]
fn a_completed_item_is_final() {
    let mut done = item("/done.bin", 10, TransferStatus::Completed);
    done.bytes_downloaded = 10;
    let mut queue = vec![done.clone()];
    let (command, found) = pause_download(&mut queue, "/done.bin".to_string());
    assert_eq!(command, DownloadCommand::Pause("/done.bin".to_string()));
    assert!(found);
    assert_eq!(queue, vec![done.clone()]);
    let (commands, found) = resume_download(&mut queue, "/done.bin".to_string());
    assert_eq!(commands, vec![DownloadCommand::Resume("/done.bin".to_string())]);
    assert!(found);
    assert_eq!(queue, vec![done]);
}

#[test]
fn pausing_leaves_a_failed_item_alone() {
    let failed = item("/bad.bin", 10, TransferStatus::Failed("reset".to_string()));
    let mut queue = vec![failed.clone(), item("/wait.bin", 10, TransferStatus::Pending)];
    let (_, found) = pause_download(&mut queue, "/bad.bin".to_string());
    assert!(found);
    assert_eq!(queue[0], failed);
    pause_download(&mut queue, "/wait.bin".to_string());
    assert_eq!(queue[1].status, TransferStatus::Paused);
}

#[test]
fn a_failed_item_starts_again_when_the_user_resumes_it() {
    let mut queue = vec![item("/a.bin", 200000, TransferStatus::Pending)];
    let mut manager = DownloadManager::new(SftpConfig::default(), 0);
    let actions = manager.handle_command(DownloadCommand::AddItem(queue[0].clone()));
    assert_eq!(actions.len(), 2);
    for event in [
        DownloadEvent::Started { remote_file: "/a.bin".to_string() },
        DownloadEvent::Progress { remote_file: "/a.bin".to_string(), bytes_downloaded: 65536 },
        DownloadEvent::Failed { remote_file: "/a.bin".to_string(), error: "reset".to_string() },
    ] {
        assert!(apply_event(&mut queue, event));
    }
    assert_eq!(queue[0].status, TransferStatus::Failed("reset".to_string()));
    // The worker gave its slot back: the engine leaves the item alone.
    let freed =
        manager.handle_command(DownloadCommand::TaskDone { remote_file: "/a.bin".to_string() });
    assert_eq!(freed, vec![]);
    assert_eq!(manager.handle_command(DownloadCommand::StartAll), vec![]);

    let (commands, found) = resume_download(&mut queue, "/a.bin".to_string());
    assert!(found);
    assert_eq!(queue[0].status, TransferStatus::Pending);
    let mut actions = Vec::new();
    for command in commands {
        actions.extend(manager.handle_command(command));
    }
    assert_eq!(
        actions,
        vec![
            EngineAction::Emit(DownloadEvent::Started { remote_file: "/a.bin".to_string() }),
            EngineAction::Spawn(WorkerLaunch {
                config: SftpConfig::default(),
                remote_file: "/a.bin".to_string(),
                local_path: "/downloads/a.bin".to_string(),
                start_offset: 65536,
                size_bytes: 200000,
            }),
        ]
    );
}

#[test]
fn only_unfinished_items_are_looked_up() {
    let queue = vec![
        item("/p", 1, TransferStatus::Pending),
        item("/c", 1, TransferStatus::Completed),
        item("/d", 1, TransferStatus::Downloading),
        item("/f", 1, TransferStatus::Failed("x".to_string())),
        item("/s", 1, TransferStatus::Paused),
    ];
    assert_eq!(items_to_check(&queue), vec!["/p", "/d", "/s"]);
}

#[test]
fn verification_fails_missing_files_and_resets_downloading_ones() {
    let mut queue = vec![
        item("/missing", 10, TransferStatus::Pending),
        item("/sized", 0, TransferStatus::Paused),
        item("/running", 10, TransferStatus::Downloading),
        item("/fine", 10, TransferStatus::Pending),
    ];
    let answers = vec![
        verification_of("/missing".to_string(), Err("Stat failed: no such file".to_string())),
        verification_of("/sized".to_string(), Ok(777)),
        verification_of("/running".to_string(), Ok(99)),
        verification_of("/elsewhere".to_string(), Ok(1)),
    ];
    assert_eq!(answers[0], Verification { path: "/missing".to_string(), exists: false, size: 0 });
    assert_eq!(answers[1], Verification { path: "/sized".to_string(), exists: true, size: 777 });
    assert!(apply_verification(&mut queue, &answers));
    assert_eq!(queue[0].status, TransferStatus::Failed("Remote file missing".to_string()));
    assert_eq!(queue[1].size_bytes, 777);
    assert_eq!(queue[1].status, TransferStatus::Paused);
    assert_eq!(queue[2].size_bytes, 10);
    assert_eq!(queue[2].status, TransferStatus::Pending);
    assert_eq!(queue[3], item("/fine", 10, TransferStatus::Pending));
    assert_eq!(status_after_verification(&queue), "Resuming 2 downloads...");
}

#[test]
fn verification_that_changes_nothing_says_so() {
    let mut queue = vec![item("/fine", 10, TransferStatus::Pending)];
    let answers = vec![verification_of("/fine".to_string(), Ok(10))];
    assert!(!apply_verification(&mut queue, &answers));
    assert!(!apply_verification(&mut queue, &Vec::new()));
    let mut done = vec![item("/done", 10, TransferStatus::Completed)];
    assert!(!apply_verification(&mut done, &Vec::new()));
    assert_eq!(status_after_verification(&done), "Connected.");
    assert_eq!(status_after_verification(&queue), "Resuming 1 downloads...");
}

#[test]
fn found_files_are_queued_once() {
    let mut queue = vec![item("/have", 10, TransferStatus::Completed)];
    let files = vec![file("/dir/new.bin", 42), file("/have", 10), file("/dir/new.bin", 43)];
    let added = enqueue_files(&mut queue, &files, &"/downloads".to_string());
    let expected = QueueItem {
        local_location: "/downloads".to_string(),
        filename: "new.bin".to_string(),
        remote_file: "/dir/new.bin".to_string(),
        size_bytes: 42,
        bytes_downloaded: 0,
        priority: 10,
        status: TransferStatus::Pending,
    };
    assert_eq!(added, vec![expected.clone()]);
    assert_eq!(queue.len(), 2);
    assert_eq!(queue[1], expected);
}

#[test]
fn the_engine_is_started_once_with_the_pending_items() {
    let queue = vec![
        item("/first", 1, TransferStatus::Pending),
        item("/c", 1, TransferStatus::Completed),
        item("/second", 1, TransferStatus::Pending),
    ];
    let mut controller = Controller::new(config(), queue);
    let commands = controller.start_manager().unwrap();
    assert_eq!(
        commands,
        vec![
            DownloadCommand::AddItem(item("/first", 1, TransferStatus::Pending)),
            DownloadCommand::AddItem(item("/second", 1, TransferStatus::Pending)),
            DownloadCommand::StartAll,
        ]
    );
    assert!(controller.is_downloading);
    assert_eq!(controller.start_manager(), None);
}

#[test]
fn scan_results_reach_a_running_engine() {
    let mut controller = Controller::new(config(), Vec::new());
    assert_eq!(controller.on_scan_result(&vec![file("/a", 1)], false), vec![]);
    assert!(!controller.is_downloading);
    assert_eq!(controller.queue_items.len(), 1);
    let commands = controller.on_scan_result(&vec![file("/b", 2)], true);
    assert_eq!(commands.len(), 3);
    assert_eq!(commands[2], DownloadCommand::StartAll);
    assert!(controller.is_downloading);
    let commands = controller.on_scan_result(&vec![file("/a", 1), file("/c", 3)], false);
    assert_eq!(commands.len(), 1);
    match &commands[0] {
        DownloadCommand::AddItem(added) => {
            assert_eq!(added.remote_file, "/c");
            assert_eq!(added.local_location, "/downloads");
        }
        other => panic!("expected an added item, got {:?}", other),
    }
}

#[test]
fn auto_start_needs_something_pending() {
    let mut controller = Controller::new(config(), vec![item("/c", 1, TransferStatus::Completed)]);
    assert_eq!(controller.on_scan_result(&vec![file("/c", 1)], true), vec![]);
    assert!(!controller.is_downloading);
}

#[test]
fn schedule_flip_pauses_and_resumes_a_running_engine() {
    let mut controller = Controller::new(config(), vec![item("/p", 1, TransferStatus::Pending)]);
    controller.start_manager();
    let closing = controller.tick(false);
    assert_eq!(closing.command, Some(DownloadCommand::PauseAll));
    assert_eq!(closing.start, None);
    assert!(!controller.last_schedule_allowed);
    let still_closed = controller.tick(false);
    assert_eq!(still_closed.command, None);
    let opening = controller.tick(true);
    assert_eq!(opening.command, Some(DownloadCommand::ResumeAll));
    assert_eq!(opening.start, None);
    assert_eq!(controller.tick(true).command, None);
}

#[test]
fn an_open_schedule_starts_an_idle_engine() {
    let mut controller = Controller::new(config(), vec![item("/p", 1, TransferStatus::Pending)]);
    let closed = controller.tick(false);
    assert_eq!(closed.command, None);
    assert_eq!(closed.start, None);
    let open = controller.tick(true);
    assert_eq!(open.command, None);
    assert_eq!(
        open.start,
        Some(vec![
            DownloadCommand::AddItem(item("/p", 1, TransferStatus::Pending)),
            DownloadCommand::StartAll
        ])
    );
    assert!(controller.is_downloading);
}

#[test]
fn a_tick_asks_the_schedule() {
    let mut settings = config();
    settings.schedule.mode = ScheduleMode::Daily;
    settings.schedule.start_time = TimeOfDay { hour: 22, minute: 0 };
    settings.schedule.end_time = TimeOfDay { hour: 5, minute: 0 };
    let mut controller = Controller::new(settings, vec![item("/p", 1, TransferStatus::Pending)]);
    controller.start_manager();
    let outcome = controller.on_tick(LocalMoment::new(Day::Tue, 12, 0).unwrap());
    assert_eq!(outcome.command, Some(DownloadCommand::PauseAll));
    let outcome = controller.on_tick(LocalMoment::new(Day::Tue, 23, 0).unwrap());
    assert_eq!(outcome.command, Some(DownloadCommand::ResumeAll));
}

#[test]
fn connecting_restores_the_last_directory() {
    let mut settings = config();
    settings.last_remote_path = "/srv/files".to_string();
    let mut controller = Controller::new(settings, Vec::new());
    assert_eq!(controller.current_remote_path, ".");
    assert_eq!(controller.on_connected(), "/srv/files");
    assert!(controller.is_connected);
    assert_eq!(controller.current_remote_path, "/srv/files");
    let mut blank = config();
    blank.last_remote_path = String::new();
    let mut controller = Controller::new(blank, Vec::new());
    assert_eq!(controller.on_connected(), ".");
}

#[test]
fn exit_remembers_where_we_were() {
    let mut controller = Controller::new(config(), Vec::new());
    controller.on_connected();
    controller.current_remote_path = "/srv/other".to_string();
    controller.prepare_exit();
    assert_eq!(controller.config.last_remote_path, "/srv/other");
    assert!(controller.config.auto_connect);
    controller.is_connected = false;
    controller.prepare_exit();
    assert!(!controller.config.auto_connect);
}
