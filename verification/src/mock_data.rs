//! A fixed directory listing to show while no server is connected.

pub use crate::types::{FileType, QueueItem, RemoteFile, TransferStatus};
use crate::types::RemoteFileView;
use vstd::prelude::*;

verus! {

/// The sample listing: the parent entry, a folder and two files.
pub open spec fn mock_listing() -> Seq<RemoteFileView> {
    seq![
        RemoteFileView {
            name: ".."@,
            path: "/mnt/movies"@,
            size: ""@,
            size_bytes: 0,
            file_type: FileType::Folder,
            modified: ""@,
        },
        RemoteFileView {
            name: "files"@,
            path: "/mnt/movies/files"@,
            size: ""@,
            size_bytes: 0,
            file_type: FileType::Folder,
            modified: "2023-01-01 12:00:00"@,
        },
        RemoteFileView {
            name: "Lost.in.Space.2018.S02E01.720p.NF.WEBRip..."@,
            path: "/mnt/movies/Lost.in.Space.2018.S02E01.720p.NF.WEBRip..."@,
            size: "80MB"@,
            size_bytes: 83886080,
            file_type: FileType::File,
            modified: "2023-10-27 09:30:00"@,
        },
        RemoteFileView {
            name: "config.txt"@,
            path: "/mnt/movies/config.txt"@,
            size: "2KB"@,
            size_bytes: 2048,
            file_type: FileType::File,
            modified: "2023-11-05 15:45:00"@,
        },
    ]
}

/// Builds the sample listing.
pub fn generate_mock_remote_files() -> (files: Vec<RemoteFile>)
    ensures
        files.deep_view() == mock_listing(),
{
    let mut files: Vec<RemoteFile> = Vec::new();
    files.push(
        RemoteFile {
            name: String::from_str(".."),
            path: String::from_str("/mnt/movies"),
            size: String::from_str(""),
            size_bytes: 0,
            file_type: FileType::Folder,
            modified: String::from_str(""),
        },
    );
    files.push(
        RemoteFile {
            name: String::from_str("files"),
            path: String::from_str("/mnt/movies/files"),
            size: String::from_str(""),
            size_bytes: 0,
            file_type: FileType::Folder,
            modified: String::from_str("2023-01-01 12:00:00"),
        },
    );
    files.push(
        RemoteFile {
            name: String::from_str("Lost.in.Space.2018.S02E01.720p.NF.WEBRip..."),
            path: String::from_str("/mnt/movies/Lost.in.Space.2018.S02E01.720p.NF.WEBRip..."),
            size: String::from_str("80MB"),
            size_bytes: 83886080,
            file_type: FileType::File,
            modified: String::from_str("2023-10-27 09:30:00"),
        },
    );
    files.push(
        RemoteFile {
            name: String::from_str("config.txt"),
            path: String::from_str("/mnt/movies/config.txt"),
            size: String::from_str("2KB"),
            size_bytes: 2048,
            file_type: FileType::File,
            modified: String::from_str("2023-11-05 15:45:00"),
        },
    );
    assert(files.deep_view() =~= mock_listing());
    files
}

} // verus!
