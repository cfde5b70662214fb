use simple_sftp::mock_data::generate_mock_remote_files;
use simple_sftp::tray::{action_for, icon_rgba, TrayAction, ICON_SIDE};
use simple_sftp::types::{FileType, QueueItem, TransferStatus};

#[test]
fn statuses_read_as_text() {
    assert_eq!(TransferStatus::Pending.to_string(), "Pending");
    assert_eq!(TransferStatus::Downloading.to_string(), "Downloading");
    assert_eq!(TransferStatus::Paused.to_string(), "Paused");
    assert_eq!(TransferStatus::Completed.to_string(), "Completed");
    assert_eq!(TransferStatus::Failed("no route".to_string()).to_string(), "Failed: no route");
    assert!(TransferStatus::Pending.is_pending());
    assert!(!TransferStatus::Paused.is_pending());
    assert!(TransferStatus::Downloading.is_downloading());
    assert!(TransferStatus::Paused.is_paused());
    assert!(TransferStatus::Completed.is_completed());
    assert!(!TransferStatus::Failed(String::new()).is_completed());
}

#[test]
fn copies_are_equal() {
    let item = QueueItem {
        local_location: "/tmp".to_string(),
        filename: "a".to_string(),
        remote_file: "/a".to_string(),
        size_bytes: 3,
        bytes_downloaded: 1,
        priority: 10,
        status: TransferStatus::Failed("x".to_string()),
    };
    assert_eq!(item.clone(), item);
}

#[test]
fn the_sample_listing() {
    let files = generate_mock_remote_files();
    assert_eq!(files.len(), 4);
    assert_eq!(files[0].name, "..");
    assert_eq!(files[0].path, "/mnt/movies");
    assert_eq!(files[0].file_type, FileType::Folder);
    assert_eq!(files[1].name, "files");
    assert_eq!(files[1].modified, "2023-01-01 12:00:00");
    assert_eq!(files[2].name, "Lost.in.Space.2018.S02E01.720p.NF.WEBRip...");
    assert_eq!(files[2].size, "80MB");
    assert_eq!(files[2].size_bytes, 83886080);
    assert_eq!(files[3].path, "/mnt/movies/config.txt");
    assert_eq!(files[3].size_bytes, 2048);
    assert_eq!(files[3].file_type, FileType::File);
    assert_eq!(files[3].clone(), files[3]);
}

#[test]
fn tray_menu_ids_map_to_actions() {
    let show = "1".to_string();
    let exit = "2".to_string();
    assert_eq!(action_for(&"1".to_string(), &show, &exit), Some(TrayAction::Show));
    assert_eq!(action_for(&"2".to_string(), &show, &exit), Some(TrayAction::Exit));
    assert_eq!(action_for(&"3".to_string(), &show, &exit), None);
    assert_eq!(action_for(&"1".to_string(), &show, &show), Some(TrayAction::Show));
}

#[test]
fn the_icon_is_a_blue_square() {
    let rgba = icon_rgba();
    assert_eq!(rgba.len(), (ICON_SIDE * ICON_SIDE * 4) as usize);
    assert_eq!(rgba.len(), 4096);
    for pixel in rgba.chunks(4) {
        assert_eq!(pixel, [0, 100, 255, 255]);
    }
}
