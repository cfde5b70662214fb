use simple_sftp::queue::{any_pending, count_pending, find_key, remove_key, ItemQueue};
use simple_sftp::types::{QueueItem, TransferStatus};

fn entry(remote: &str, status: TransferStatus) -> QueueItem {
    QueueItem {
        local_location: "/tmp".to_string(),
        filename: remote.trim_start_matches('/').to_string(),
        remote_file: remote.to_string(),
        size_bytes: 100,
        bytes_downloaded: 0,
        priority: 10,
        status,
    }
}

fn keys(items: &[QueueItem]) -> Vec<&str> {
    items.iter().map(|item| item.remote_file.as_str()).collect()
}

#[test]
fn the_first_item_with_the_key_is_found() {
    let queue = vec![
        entry("/a", TransferStatus::Pending),
        entry("/b", TransferStatus::Paused),
        entry("/a", TransferStatus::Completed),
    ];
    assert_eq!(find_key(&queue, &"/a".to_string()), Some(0));
    assert_eq!(find_key(&queue, &"/b".to_string()), Some(1));
    assert_eq!(find_key(&queue, &"/c".to_string()), None);
    assert_eq!(find_key(&Vec::new(), &"/a".to_string()), None);
}

#[test]
fn removing_a_key_takes_all_its_items_and_keeps_the_order_of_the_rest() {
    let mut queue = vec![
        entry("/a", TransferStatus::Pending),
        entry("/b", TransferStatus::Paused),
        entry("/a", TransferStatus::Completed),
        entry("/c", TransferStatus::Pending),
    ];
    remove_key(&mut queue, &"/a".to_string());
    assert_eq!(keys(&queue), vec!["/b", "/c"]);
    remove_key(&mut queue, &"/nowhere".to_string());
    assert_eq!(keys(&queue), vec!["/b", "/c"]);
}

#[test]
fn pending_items_are_counted() {
    let queue = vec![
        entry("/a", TransferStatus::Pending),
        entry("/b", TransferStatus::Downloading),
        entry("/c", TransferStatus::Pending),
        entry("/d", TransferStatus::Failed("x".to_string())),
    ];
    assert_eq!(count_pending(&queue), 2);
    assert!(any_pending(&queue));
    let idle = vec![entry("/b", TransferStatus::Completed)];
    assert_eq!(count_pending(&idle), 0);
    assert!(!any_pending(&idle));
    assert!(!any_pending(&Vec::new()));
}

#[test]
fn a_queue_holds_each_key_once() {
    let mut queue = ItemQueue::new();
    assert!(queue.items().is_empty());
    assert!(queue.push(entry("/a", TransferStatus::Pending)));
    assert!(queue.push(entry("/b", TransferStatus::Pending)));
    assert!(!queue.push(entry("/a", TransferStatus::Completed)));
    assert_eq!(keys(queue.items()), vec!["/a", "/b"]);
    assert_eq!(queue.items()[0].status, TransferStatus::Pending);
    queue.set_offset(&"/b".to_string(), 64);
    queue.set_offset(&"/nowhere".to_string(), 99);
    assert_eq!(queue.items()[0].bytes_downloaded, 0);
    assert_eq!(queue.items()[1].bytes_downloaded, 64);
    queue.remove(&"/a".to_string());
    assert_eq!(keys(queue.items()), vec!["/b"]);
    assert!(queue.push(entry("/a", TransferStatus::Pending)));
    assert_eq!(keys(queue.items()), vec!["/b", "/a"]);
}
