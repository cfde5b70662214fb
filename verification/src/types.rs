//! The records that travel between the remote file service, the download
//! engine and the controller, together with their mathematical views.

use vstd::prelude::*;

verus! {

/// Where a queued transfer stands.
#[derive(Debug, PartialEq)]
pub enum TransferStatus {
    Pending,
    Downloading,
    Paused,
    Completed,
    Failed(String),
}

/// The view of a [`TransferStatus`]: the failure message as a sequence of characters.
pub enum StatusView {
    Pending,
    Downloading,
    Paused,
    Completed,
    Failed(Seq<char>),
}

impl View for TransferStatus {
    type V = StatusView;

    open spec fn view(&self) -> StatusView {
        match *self {
            TransferStatus::Pending => StatusView::Pending,
            TransferStatus::Downloading => StatusView::Downloading,
            TransferStatus::Paused => StatusView::Paused,
            TransferStatus::Completed => StatusView::Completed,
            TransferStatus::Failed(message) => StatusView::Failed(message@),
        }
    }
}

impl DeepView for TransferStatus {
    type V = StatusView;

    open spec fn deep_view(&self) -> StatusView {
        self@
    }
}

impl Clone for TransferStatus {
    fn clone(&self) -> (copy: Self)
        ensures
            copy == *self,
    {
        match self {
            TransferStatus::Pending => TransferStatus::Pending,
            TransferStatus::Downloading => TransferStatus::Downloading,
            TransferStatus::Paused => TransferStatus::Paused,
            TransferStatus::Completed => TransferStatus::Completed,
            TransferStatus::Failed(message) => TransferStatus::Failed(message.clone()),
        }
    }
}

impl StatusView {
    /// The text shown for a status: its name, and for a failure the message after `Failed: `.
    pub open spec fn text(self) -> Seq<char> {
        match self {
            StatusView::Pending => "Pending"@,
            StatusView::Downloading => "Downloading"@,
            StatusView::Paused => "Paused"@,
            StatusView::Completed => "Completed"@,
            StatusView::Failed(message) => "Failed: "@ + message,
        }
    }

    /// Whether the item still waits for, or is in the middle of, a transfer.
    pub open spec fn is_unfinished(self) -> bool {
        self is Pending || self is Downloading || self is Paused
    }
}

impl TransferStatus {
    /// Renders the status as text.
    pub fn to_string(&self) -> (text: String)
        ensures
            text@ == self@.text(),
    {
        match self {
            TransferStatus::Pending => String::from_str("Pending"),
            TransferStatus::Downloading => String::from_str("Downloading"),
            TransferStatus::Paused => String::from_str("Paused"),
            TransferStatus::Completed => String::from_str("Completed"),
            TransferStatus::Failed(message) => String::from_str("Failed: ").concat(
                message.as_str(),
            ),
        }
    }

    pub fn is_pending(&self) -> (yes: bool)
        ensures
            yes == (self@ is Pending),
    {
        matches!(self, TransferStatus::Pending)
    }

    pub fn is_downloading(&self) -> (yes: bool)
        ensures
            yes == (self@ is Downloading),
    {
        matches!(self, TransferStatus::Downloading)
    }

    pub fn is_paused(&self) -> (yes: bool)
        ensures
            yes == (self@ is Paused),
    {
        matches!(self, TransferStatus::Paused)
    }

    pub fn is_completed(&self) -> (yes: bool)
        ensures
            yes == (self@ is Completed),
    {
        matches!(self, TransferStatus::Completed)
    }
}

/// One file to download: where it comes from, where it goes and how far it got.
#[derive(Debug, PartialEq)]
pub struct QueueItem {
    pub local_location: String,
    pub filename: String,
    pub remote_file: String,
    pub size_bytes: u64,
    pub bytes_downloaded: u64,
    pub priority: u8,
    pub status: TransferStatus,
}

/// The view of a [`QueueItem`].
pub struct QueueItemView {
    pub local_location: Seq<char>,
    pub filename: Seq<char>,
    pub remote_file: Seq<char>,
    pub size_bytes: u64,
    pub bytes_downloaded: u64,
    pub priority: u8,
    pub status: StatusView,
}

impl View for QueueItem {
    type V = QueueItemView;

    open spec fn view(&self) -> QueueItemView {
        QueueItemView {
            local_location: self.local_location@,
            filename: self.filename@,
            remote_file: self.remote_file@,
            size_bytes: self.size_bytes,
            bytes_downloaded: self.bytes_downloaded,
            priority: self.priority,
            status: self.status@,
        }
    }
}

impl DeepView for QueueItem {
    type V = QueueItemView;

    open spec fn deep_view(&self) -> QueueItemView {
        self@
    }
}

impl Clone for QueueItem {
    fn clone(&self) -> (copy: Self)
        ensures
            copy == *self,
    {
        QueueItem {
            local_location: self.local_location.clone(),
            filename: self.filename.clone(),
            remote_file: self.remote_file.clone(),
            size_bytes: self.size_bytes,
            bytes_downloaded: self.bytes_downloaded,
            priority: self.priority,
            status: self.status.clone(),
        }
    }
}

impl QueueItemView {
    /// The bounds that every queued item is meant to keep: the offset never
    /// passes the size, and a completed item has all its bytes.
    pub open spec fn well_formed(self) -> bool {
        &&& self.bytes_downloaded <= self.size_bytes
        &&& (self.status is Completed ==> self.bytes_downloaded == self.size_bytes)
    }
}

/// Whether a remote entry is a plain file or a directory.
#[derive(Debug, Clone, Copy, PartialEq, Eq, Structural)]
pub enum FileType {
    File,
    Folder,
}

/// One entry of a remote directory listing.
#[derive(Debug, PartialEq)]
pub struct RemoteFile {
    pub name: String,
    pub path: String,
    pub size: String,
    pub size_bytes: u64,
    pub file_type: FileType,
    pub modified: String,
}

/// The view of a [`RemoteFile`].
pub struct RemoteFileView {
    pub name: Seq<char>,
    pub path: Seq<char>,
    pub size: Seq<char>,
    pub size_bytes: u64,
    pub file_type: FileType,
    pub modified: Seq<char>,
}

impl View for RemoteFile {
    type V = RemoteFileView;

    open spec fn view(&self) -> RemoteFileView {
        RemoteFileView {
            name: self.name@,
            path: self.path@,
            size: self.size@,
            size_bytes: self.size_bytes,
            file_type: self.file_type,
            modified: self.modified@,
        }
    }
}

impl DeepView for RemoteFile {
    type V = RemoteFileView;

    open spec fn deep_view(&self) -> RemoteFileView {
        self@
    }
}

impl Clone for RemoteFile {
    fn clone(&self) -> (copy: Self)
        ensures
            copy == *self,
    {
        RemoteFile {
            name: self.name.clone(),
            path: self.path.clone(),
            size: self.size.clone(),
            size_bytes: self.size_bytes,
            file_type: self.file_type,
            modified: self.modified.clone(),
        }
    }
}

} // verus!
