use simple_sftp::controller::{apply_event, apply_verification, verification_of, Controller};
use simple_sftp::download_manager::{
    DownloadCommand, DownloadEvent, DownloadManager, EngineAction, WorkerLaunch, CHUNK_SIZE,
};
use simple_sftp::settings::{AppConfig, SftpConfig};
use simple_sftp::sftp_client::{local_step_for, LocalOpen};
use simple_sftp::types::{QueueItem, TransferStatus};
use simple_sftp::worker::{Worker, WorkerAction, WorkerPhase};
use std::collections::HashMap;

const KIB: u64 = 1024;
const MIB: u64 = 1024 * 1024;

/// The engine, its workers and the controller's queue, with a server and a
/// disk that only count bytes.
struct Bench {
    manager: DownloadManager,
    queue: Vec<QueueItem>,
    workers: Vec<Worker>,
    remote: HashMap<String, u64>,
    local: HashMap<String, u64>,
    events: Vec<DownloadEvent>,
    slept_micros: u64,
}

fn item(remote: &str, size: u64) -> QueueItem {
    QueueItem {
        local_location: "/tmp".to_string(),
        filename: remote.trim_start_matches('/').to_string(),
        remote_file: remote.to_string(),
        size_bytes: size,
        bytes_downloaded: 0,
        priority: 10,
        status: TransferStatus::Pending,
    }
}

fn started(remote: &str) -> DownloadEvent {
    DownloadEvent::Started { remote_file: remote.to_string() }
}

fn progress(remote: &str, bytes: u64) -> DownloadEvent {
    DownloadEvent::Progress { remote_file: remote.to_string(), bytes_downloaded: bytes }
}

fn completed(remote: &str) -> DownloadEvent {
    DownloadEvent::Completed { remote_file: remote.to_string() }
}

fn paused(remote: &str) -> DownloadEvent {
    DownloadEvent::Paused { remote_file: remote.to_string() }
}

impl Bench {
    fn new(files: &[(&str, u64)], speed_limit: u64) -> Bench {
        let mut remote = HashMap::new();
        let mut queue = Vec::new();
        for (name, size) in files {
            remote.insert(name.to_string(), *size);
            queue.push(item(name, *size));
        }
        Bench {
            manager: DownloadManager::new(SftpConfig::default(), speed_limit),
            queue,
            workers: Vec::new(),
            remote,
            local: HashMap::new(),
            events: Vec::new(),
            slept_micros: 0,
        }
    }

    fn command(&mut self, command: DownloadCommand) {
        let actions = self.manager.handle_command(command);
        assert!(self.manager.active_count() <= 2);
        for action in actions {
            match action {
                EngineAction::Emit(event) => self.report(event),
                EngineAction::Spawn(launch) => self.launch(launch),
            }
        }
    }

    fn report(&mut self, event: DownloadEvent) {
        apply_event(&mut self.queue, event.clone());
        self.events.push(event);
    }

    fn launch(&mut self, launch: WorkerLaunch) {
        let on_disk = self.local.get(&launch.local_path).copied();
        let mut worker = Worker::from_launch(launch, on_disk);
        let actions = worker.on_connect(Ok(()));
        assert!(actions.is_empty());
        self.workers.push(worker);
    }

    fn add_all_and_start(&mut self) {
        let mut controller = Controller::new(AppConfig::with_download_dir(None), self.queue.clone());
        for command in controller.start_manager().unwrap() {
            self.command(command);
        }
    }

    /// Lets the worker of `key` go once round its loop. Tells whether it is still running.
    fn turn(&mut self, key: &str) -> bool {
        let at = match self.workers.iter().position(|w| w.remote_file() == key) {
            Some(at) => at,
            None => return false,
        };
        let mut worker = self.workers.remove(at);
        let name = worker.remote_file().clone();
        let marks = (self.manager.is_paused(&name), self.manager.is_cancelled(&name));
        let mut pending = worker.on_marks(marks.0, marks.1);
        loop {
            let mut asked = None;
            for action in pending {
                match action {
                    WorkerAction::StorePause { remote_file, offset } => {
                        self.manager.record_pause_offset(remote_file, offset)
                    }
                    WorkerAction::Emit(event) => self.report(event),
                    WorkerAction::Send(command) => self.command(command),
                    WorkerAction::Sleep { micros } => self.slept_micros += micros,
                    WorkerAction::Transfer { remote_file, local_path, offset, size } => {
                        asked = Some((remote_file, local_path, offset, size))
                    }
                }
            }
            match worker.phase() {
                WorkerPhase::Transferring => {
                    let (remote_file, local_path, offset, size) = asked.unwrap();
                    assert_eq!(size, CHUNK_SIZE);
                    let total = self.remote[&remote_file];
                    let count = std::cmp::min(size as u64, total - offset);
                    match local_step_for(count as usize, offset) {
                        None => assert_eq!(count, 0),
                        Some(LocalOpen::Create) => {
                            self.local.insert(local_path, count);
                        }
                        Some(LocalOpen::Append) => {
                            // Every chunk is written right behind the last one: no byte twice.
                            assert_eq!(self.local[&local_path], offset);
                            self.local.insert(local_path, offset + count);
                        }
                    }
                    let limit = self.manager.speed_limit();
                    pending = worker.on_chunk(Ok(count as usize), 0, limit);
                }
                WorkerPhase::Ready => {
                    self.workers.push(worker);
                    return true;
                }
                _ => return false,
            }
        }
    }

    fn run_to_the_end(&mut self, key: &str) {
        let mut turns = 0;
        while self.turn(key) {
            turns += 1;
            assert!(turns < 1000);
        }
    }

    fn events_of(&self, key: &str) -> Vec<DownloadEvent> {
        let about = |event: &&DownloadEvent| match event {
            DownloadEvent::Progress { remote_file, .. }
            | DownloadEvent::Completed { remote_file }
            | DownloadEvent::Failed { remote_file, .. }
            | DownloadEvent::Paused { remote_file }
            | DownloadEvent::Started { remote_file } => remote_file == key,
        };
        self.events.iter().filter(about).cloned().collect()
    }

    fn status_of(&self, key: &str) -> TransferStatus {
        self.queue.iter().find(|i| i.remote_file == key).unwrap().status.clone()
    }
}

#[test]
fn scenario_single_small_file() {
    let mut bench = Bench::new(&[("/a.bin", 200000)], 0);
    bench.add_all_and_start();
    bench.run_to_the_end("/a.bin");
    assert_eq!(
        bench.events,
        vec![
            started("/a.bin"),
            progress("/a.bin", 65536),
            progress("/a.bin", 131072),
            progress("/a.bin", 196608),
            progress("/a.bin", 200000),
            completed("/a.bin"),
        ]
    );
    assert_eq!(bench.local["/tmp/a.bin"], 200000);
    assert_eq!(bench.queue[0].status, TransferStatus::Completed);
    assert_eq!(bench.queue[0].bytes_downloaded, 200000);
    assert_eq!(bench.manager.active_count(), 0);
    // The finished item has left the engine and is not started again.
    assert!(bench.manager.queue().is_empty());
    bench.command(DownloadCommand::StartAll);
    assert_eq!(bench.events.len(), 6);
}

#[test]
fn scenario_pause_mid_transfer() {
    let mut bench = Bench::new(&[("/big.bin", MIB)], 0);
    bench.add_all_and_start();
    assert!(bench.turn("/big.bin"));
    assert!(bench.turn("/big.bin"));
    bench.command(DownloadCommand::Pause("/big.bin".to_string()));
    assert!(!bench.turn("/big.bin"));
    assert_eq!(
        bench.events,
        vec![
            started("/big.bin"),
            progress("/big.bin", 65536),
            progress("/big.bin", 131072),
            paused("/big.bin"),
        ]
    );
    assert_eq!(bench.local["/tmp/big.bin"], 131072);
    assert_eq!(bench.manager.paused_offset(&"/big.bin".to_string()), Some(131072));
    assert_eq!(bench.manager.queue()[0].bytes_downloaded, 131072);
    assert_eq!(bench.manager.active_count(), 0);

    bench.command(DownloadCommand::Resume("/big.bin".to_string()));
    bench.run_to_the_end("/big.bin");
    let events = bench.events_of("/big.bin");
    assert_eq!(events[4], started("/big.bin"));
    assert_eq!(events[5], progress("/big.bin", 196608));
    assert_eq!(events.last(), Some(&completed("/big.bin")));
    assert_eq!(events.len(), 4 + 1 + 14 + 1);
    assert_eq!(bench.local["/tmp/big.bin"], MIB);
    assert_eq!(bench.status_of("/big.bin"), TransferStatus::Completed);
}

#[test]
fn scenario_crash_recovery() {
    let mut bench = Bench::new(&[("/big.bin", MIB)], 0);
    bench.queue[0].status = TransferStatus::Downloading;
    bench.local.insert("/tmp/big.bin".to_string(), 512 * KIB);
    let answers = vec![verification_of("/big.bin".to_string(), Ok(MIB))];
    assert!(apply_verification(&mut bench.queue, &answers));
    assert_eq!(bench.queue[0].status, TransferStatus::Pending);
    bench.add_all_and_start();
    assert_eq!(bench.workers[0].bytes_downloaded(), 524288);
    bench.run_to_the_end("/big.bin");
    let events = bench.events_of("/big.bin");
    assert_eq!(events[0], started("/big.bin"));
    assert_eq!(events[1], progress("/big.bin", 524288 + 65536));
    assert_eq!(events.len(), 1 + 8 + 1);
    assert_eq!(bench.local["/tmp/big.bin"], MIB);
}

#[test]
fn scenario_two_concurrent_one_blocked() {
    let mut bench = Bench::new(&[("/one.bin", MIB), ("/two.bin", MIB), ("/three.bin", MIB)], 0);
    bench.add_all_and_start();
    assert_eq!(bench.events, vec![started("/one.bin"), started("/two.bin")]);
    for _ in 0..10 {
        assert!(bench.turn("/one.bin"));
        assert!(bench.turn("/two.bin"));
    }
    assert!(bench.events_of("/three.bin").is_empty());
    assert_eq!(bench.status_of("/three.bin"), TransferStatus::Pending);
    bench.run_to_the_end("/two.bin");
    // The moment one completes, the third starts, and nothing else does.
    let count = bench.events.len();
    assert_eq!(bench.events[count - 2], completed("/two.bin"));
    assert_eq!(bench.events[count - 1], started("/three.bin"));
    assert_eq!(bench.events_of("/two.bin").iter().filter(|e| **e == started("/two.bin")).count(), 1);
    assert!(bench.manager.is_active(&"/one.bin".to_string()));
    assert!(bench.manager.is_active(&"/three.bin".to_string()));
    bench.run_to_the_end("/one.bin");
    bench.run_to_the_end("/three.bin");
    for key in ["/one.bin", "/two.bin", "/three.bin"] {
        let events = bench.events_of(key);
        assert_eq!(events.len(), 1 + 16 + 1);
        assert_eq!(events[0], started(key));
        assert_eq!(events[17], completed(key));
        assert_eq!(bench.status_of(key), TransferStatus::Completed);
    }
    assert_eq!(bench.manager.active_count(), 0);
}

#[test]
fn scenario_throttled() {
    let mut bench = Bench::new(&[("/slow.bin", 256 * KIB)], 64);
    bench.add_all_and_start();
    assert!(bench.turn("/slow.bin"));
    // The first progress report is out; three more chunks follow, a second each.
    let before = bench.slept_micros;
    assert_eq!(before, 1_000_000);
    for _ in 0..3 {
        assert!(bench.turn("/slow.bin"));
    }
    assert_eq!(bench.events.last(), Some(&progress("/slow.bin", 256 * KIB)));
    assert!(bench.slept_micros - before >= 3_000_000);
    bench.run_to_the_end("/slow.bin");
    assert_eq!(bench.slept_micros, 4_000_000);
}

#[test]
fn scenario_schedule_flip() {
    let mut bench = Bench::new(&[("/one.bin", MIB), ("/two.bin", MIB), ("/three.bin", MIB)], 0);
    let mut controller = Controller::new(AppConfig::with_download_dir(None), bench.queue.clone());
    for command in controller.tick(true).start.unwrap() {
        bench.command(command);
    }
    assert!(bench.turn("/one.bin"));
    assert!(bench.turn("/two.bin"));

    // The window closes.
    let closing = controller.tick(false);
    assert_eq!(closing.command, Some(DownloadCommand::PauseAll));
    bench.command(closing.command.unwrap());
    let before = bench.events.len();
    assert!(!bench.turn("/one.bin"));
    assert!(!bench.turn("/two.bin"));
    assert_eq!(&bench.events[before..], &[paused("/one.bin"), paused("/two.bin")]);
    assert_eq!(bench.local["/tmp/one.bin"], 65536);
    assert_eq!(bench.manager.active_count(), 0);
    // While the window is closed nothing starts, though a slot is free and an item waits.
    assert!(bench.manager.process_queue().is_empty());
    bench.command(DownloadCommand::Resume("/three.bin".to_string()));
    assert_eq!(bench.events.len(), before + 2);

    // The window opens again.
    let opening = controller.tick(true);
    assert_eq!(opening.command, Some(DownloadCommand::ResumeAll));
    bench.command(opening.command.unwrap());
    assert_eq!(&bench.events[before + 2..], &[started("/one.bin"), started("/two.bin")]);
    assert_eq!(bench.workers[0].bytes_downloaded(), 65536);
    for key in ["/one.bin", "/two.bin", "/three.bin"] {
        bench.run_to_the_end(key);
    }
    for key in ["/one.bin", "/two.bin", "/three.bin"] {
        assert_eq!(bench.status_of(key), TransferStatus::Completed);
        assert_eq!(bench.local[&format!("/tmp/{}", key.trim_start_matches('/'))], MIB);
    }
}

#[test]
fn scenario_cancel_silences_an_item() {
    let mut bench = Bench::new(&[("/gone.bin", MIB), ("/next.bin", 10)], 0);
    bench.add_all_and_start();
    assert!(bench.turn("/gone.bin"));
    bench.command(DownloadCommand::Cancel("/gone.bin".to_string()));
    let before = bench.events_of("/gone.bin").len();
    assert!(!bench.turn("/gone.bin"));
    bench.command(DownloadCommand::StartAll);
    bench.command(DownloadCommand::ResumeAll);
    bench.run_to_the_end("/next.bin");
    assert_eq!(bench.events_of("/gone.bin").len(), before);
    assert!(!bench.manager.is_active(&"/gone.bin".to_string()));
    assert_eq!(bench.status_of("/next.bin"), TransferStatus::Completed);
}
