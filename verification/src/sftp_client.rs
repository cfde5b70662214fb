//! What the remote file service computes: how a directory listing is built
//! and ordered, how a recursive scan walks the tree, and how its failures are
//! worded. Talking to the server is left to the caller, who hands over what
//! the server answered.

use crate::text::{format_size, size_text};
use crate::types::{FileType, RemoteFile, RemoteFileView};
use vstd::prelude::*;
use vstd::utf8::encode_utf8;

verus! {

/// One entry of a remote directory as the server reports it.
#[derive(Debug, PartialEq)]
pub struct DirEntry {
    /// The entry's name, its last path component.
    pub name: String,
    /// The entry's path as the server gave it.
    pub path: String,
    /// The size in bytes, where the server told it.
    pub size: Option<u64>,
    /// The mode bits, where the server told them.
    pub perm: Option<u32>,
    /// The time of the last change in seconds since 1970, where the server told it.
    pub mtime: Option<u64>,
}

/// The view of a [`DirEntry`].
pub struct DirEntryView {
    pub name: Seq<char>,
    pub path: Seq<char>,
    pub size: Option<u64>,
    pub perm: Option<u32>,
    pub mtime: Option<u64>,
}

impl View for DirEntry {
    type V = DirEntryView;

    open spec fn view(&self) -> DirEntryView {
        DirEntryView {
            name: self.name@,
            path: self.path@,
            size: self.size,
            perm: self.perm,
            mtime: self.mtime,
        }
    }
}

impl DeepView for DirEntry {
    type V = DirEntryView;

    open spec fn deep_view(&self) -> DirEntryView {
        self@
    }
}

/// Whether mode bits are those of a directory: the file type bits say so.
/// Missing mode bits count as 0.
pub open spec fn is_dir_mode(perm: Option<u32>) -> bool {
    let bits: u32 = match perm {
        Some(bits) => bits,
        None => 0,
    };
    bits & 0xF000 == 0x4000
}

/// Asks ssh2 whether mode bits are those of a directory
/// (`ssh2::FileStat::is_dir`). ssh2 takes missing mode bits as 0, masks the
/// file type bits (octal 170000) and compares them with those of a directory
/// (octal 040000).
#[verifier::external_body]
fn mode_is_dir(perm: Option<u32>) -> (dir: bool)
    ensures
        dir == is_dir_mode(perm),
{
    let stat = ssh2::FileStat { size: None, uid: None, gid: None, perm, atime: None, mtime: None };
    stat.is_dir()
}

/// The pattern that times of last change are written with: the date as
/// year, month and day, then the time of day, as in `2024-03-01 17:05:09`.
pub open spec fn modified_pattern() -> Seq<char> {
    "%Y-%m-%d %H:%M:%S"@
}

/// A count of seconds since 1970-01-01 00:00:00 UTC written in UTC with the
/// given pattern, or `None` where the calendar in use does not reach that far.
pub uninterp spec fn utc_text(seconds: i64, pattern: Seq<char>) -> Option<Seq<char>>;

/// Asks chrono for the UTC date and time of a timestamp
/// (`DateTime::from_timestamp`, which gives `None` out of its range) and
/// writes it with the pattern (`format`). chrono refuses a malformed pattern
/// when it writes, so only the pattern in use is admitted.
#[verifier::external_body]
fn utc_timestamp_text(seconds: i64, pattern: &str) -> (text: Option<String>)
    requires
        pattern@ == modified_pattern(),
    ensures
        text is Some == utc_text(seconds, pattern@) is Some,
        text matches Some(written) ==> written@ == utc_text(seconds, pattern@)->0,
{
    match chrono::DateTime::from_timestamp(seconds, 0) {
        Some(moment) => Some(moment.format(pattern).to_string()),
        None => None,
    }
}

/// A 64-bit count read as a signed number: counts from 2^63 on stand for
/// negative numbers.
pub open spec fn as_signed(count: u64) -> i64 {
    if count <= i64::MAX {
        count as i64
    } else {
        (count - 0x1_0000_0000_0000_0000) as i64
    }
}

/// The text shown for a time of last change: empty where the server told
/// none or the calendar does not reach it.
pub open spec fn modified_text(mtime: Option<u64>) -> Seq<char> {
    match mtime {
        Some(seconds) => match utc_text(as_signed(seconds), modified_pattern()) {
            Some(text) => text,
            None => Seq::empty(),
        },
        None => Seq::empty(),
    }
}

/// The size in bytes of an entry: 0 where the server told none.
pub open spec fn raw_size(size: Option<u64>) -> u64 {
    match size {
        Some(bytes) => bytes,
        None => 0,
    }
}

/// The record shown for an entry that is found at `path`.
pub open spec fn remote_file_at(entry: DirEntryView, path: Seq<char>) -> RemoteFileView {
    RemoteFileView {
        name: entry.name,
        path,
        size: if is_dir_mode(entry.perm) {
            Seq::empty()
        } else {
            size_text(raw_size(entry.size))
        },
        size_bytes: raw_size(entry.size),
        file_type: if is_dir_mode(entry.perm) {
            FileType::Folder
        } else {
            FileType::File
        },
        modified: modified_text(entry.mtime),
    }
}

/// The path of an entry named `name` in the directory `directory`: the two
/// joined by one slash.
pub open spec fn child_path(directory: Seq<char>, name: Seq<char>) -> Seq<char> {
    if directory.len() > 0 && directory.last() == '/' {
        directory + name
    } else {
        directory + "/"@ + name
    }
}

/// Reads a server's size answer: 0 where it told none.
pub fn reported_size(size: Option<u64>) -> (bytes: u64)
    ensures
        bytes == raw_size(size),
{
    match size {
        Some(bytes) => bytes,
        None => 0,
    }
}

fn signed_seconds(count: u64) -> (seconds: i64)
    ensures
        seconds == as_signed(count),
{
    if count <= 0x7fff_ffff_ffff_ffff {
        count as i64
    } else {
        let low = (count - 0x8000_0000_0000_0000) as i64;
        low + i64::MIN
    }
}

fn modified_of(mtime: Option<u64>) -> (text: String)
    ensures
        text@ == modified_text(mtime),
{
    match mtime {
        Some(seconds) => match utc_timestamp_text(signed_seconds(seconds), "%Y-%m-%d %H:%M:%S") {
            Some(text) => text,
            None => String::new(),
        },
        None => String::new(),
    }
}

/// Builds the record of an entry that is found at `path`.
pub fn remote_file_of(entry: &DirEntry, path: String) -> (file: RemoteFile)
    ensures
        file@ == remote_file_at(entry@, path@),
{
    let bytes = reported_size(entry.size);
    let folder = mode_is_dir(entry.perm);
    RemoteFile {
        name: entry.name.clone(),
        path,
        size: if folder {
            String::new()
        } else {
            format_size(bytes)
        },
        size_bytes: bytes,
        file_type: if folder {
            FileType::Folder
        } else {
            FileType::File
        },
        modified: modified_of(entry.mtime),
    }
}

/// Joins a directory and a name with one slash.
pub fn join_path(directory: &String, name: &String) -> (path: String)
    ensures
        path@ == child_path(directory@, name@),
{
    let parts = directory.as_str();
    let length = parts.unicode_len();
    let slashed = length > 0 && parts.get_char(length - 1) == '/';
    if slashed {
        directory.clone().concat(name.as_str())
    } else {
        directory.clone().concat("/").concat(name.as_str())
    }
}

/// The first position from `from` on at which two byte strings differ or
/// one of them ends.
pub open spec fn split_point(a: Seq<u8>, b: Seq<u8>, from: int) -> int
    decreases a.len() - from,
{
    if from < 0 || from >= a.len() || from >= b.len() || a[from] != b[from] {
        from
    } else {
        split_point(a, b, from + 1)
    }
}

/// Whether `a` comes before `b` in byte order: at the first position where
/// they differ `a` has the smaller byte, or `a` ends there and `b` goes on.
pub open spec fn bytes_less(a: Seq<u8>, b: Seq<u8>) -> bool {
    let at = split_point(a, b, 0);
    at < b.len() && (at == a.len() || a[at] < b[at])
}

/// Whether `at` is the first position at which the two differ or one ends.
pub open spec fn splits_at(a: Seq<u8>, b: Seq<u8>, at: int) -> bool {
    &&& 0 <= at <= a.len()
    &&& at <= b.len()
    &&& forall|i: int| 0 <= i < at ==> a[i] == b[i]
    &&& (at == a.len() || at == b.len() || a[at] != b[at])
}

proof fn lemma_split_from(a: Seq<u8>, b: Seq<u8>, from: int)
    requires
        0 <= from <= a.len(),
        from <= b.len(),
    ensures
        from <= split_point(a, b, from) <= a.len(),
        split_point(a, b, from) <= b.len(),
        forall|i: int| from <= i < split_point(a, b, from) ==> a[i] == b[i],
        split_point(a, b, from) == a.len() || split_point(a, b, from) == b.len() || a[split_point(
            a,
            b,
            from,
        )] != b[split_point(a, b, from)],
    decreases a.len() - from,
{
    if from < a.len() && from < b.len() && a[from] == b[from] {
        lemma_split_from(a, b, from + 1);
    }
}

/// The split point is the one position that splits the two.
pub proof fn lemma_split(a: Seq<u8>, b: Seq<u8>, at: int)
    ensures
        splits_at(a, b, split_point(a, b, 0)),
        splits_at(a, b, at) ==> at == split_point(a, b, 0),
{
    lemma_split_from(a, b, 0);
    let found = split_point(a, b, 0);
    if splits_at(a, b, at) {
        if at < found {
            assert(a[at] == b[at]);
        }
        if found < at {
            assert(a[found] == b[found]);
        }
    }
}

/// Byte order is a strict order in which any two byte strings are comparable
/// or equal: what comes before something comes before all that does not come
/// before that thing.
pub proof fn lemma_bytes_order(x: Seq<u8>, y: Seq<u8>, z: Seq<u8>)
    ensures
        !bytes_less(x, x),
        bytes_less(x, y) ==> !bytes_less(y, x),
        bytes_less(x, y) && !bytes_less(z, y) ==> bytes_less(x, z),
        !bytes_less(x, y) && !bytes_less(y, x) ==> x == y,
{
    lemma_split(x, x, x.len() as int);
    lemma_split(x, y, 0);
    lemma_split(y, x, split_point(x, y, 0));
    if !bytes_less(x, y) && !bytes_less(y, x) {
        assert(x =~= y);
    }
    if bytes_less(x, y) && !bytes_less(z, y) {
        let k = split_point(x, y, 0);
        lemma_split(z, y, 0);
        let m = split_point(z, y, 0);
        if m < k {
            lemma_split(x, z, m);
        } else {
            lemma_split(x, z, k);
        }
    }
}

/// Whether `a` is listed before `b`: folders come before files, and within
/// each kind the names go in byte order.
pub open spec fn listed_before(a: RemoteFileView, b: RemoteFileView) -> bool {
    if a.file_type == b.file_type {
        bytes_less(encode_utf8(a.name), encode_utf8(b.name))
    } else {
        a.file_type == FileType::Folder
    }
}

/// The listing order is a strict order of the same kind as byte order.
pub proof fn lemma_listing_order(x: RemoteFileView, y: RemoteFileView, z: RemoteFileView)
    ensures
        !listed_before(x, x),
        listed_before(x, y) ==> !listed_before(y, x),
        listed_before(x, y) && !listed_before(z, y) ==> listed_before(x, z),
{
    lemma_bytes_order(encode_utf8(x.name), encode_utf8(y.name), encode_utf8(z.name));
}

fn name_precedes(a: &String, b: &String) -> (less: bool)
    ensures
        less == bytes_less(encode_utf8(a@), encode_utf8(b@)),
{
    let left = a.as_str().as_bytes();
    let right = b.as_str().as_bytes();
    let mut at: usize = 0;
    while at < left.len() && at < right.len() && left[at] == right[at]
        invariant
            at <= left@.len(),
            at <= right@.len(),
            forall|i: int| 0 <= i < at ==> left@[i] == right@[i],
        decreases left@.len() - at,
    {
        at += 1;
    }
    proof {
        lemma_split(left@, right@, at as int);
    }
    at < right.len() && (at == left.len() || left[at] < right[at])
}

/// Tells whether `a` is listed before `b`.
pub fn sorts_before(a: &RemoteFile, b: &RemoteFile) -> (before: bool)
    ensures
        before == listed_before(a@, b@),
{
    if a.file_type == b.file_type {
        name_precedes(&a.name, &b.name)
    } else {
        a.file_type == FileType::Folder
    }
}

/// Whether `output` is `input` in listing order, with `origin` telling for
/// each place of the output which place of the input it holds: every place of
/// the input is taken once, nothing is listed before what precedes it, and
/// entries that the order does not tell apart keep the order they came in.
pub open spec fn arranges(
    input: Seq<RemoteFileView>,
    output: Seq<RemoteFileView>,
    origin: Seq<int>,
) -> bool {
    &&& origin.len() == input.len()
    &&& output.len() == input.len()
    &&& forall|i: int|
        0 <= i < origin.len() ==> 0 <= #[trigger] origin[i] < input.len() && output[i]
            == input[origin[i]]
    &&& forall|i: int, j: int|
        0 <= i < j < origin.len() ==> #[trigger] origin[i] != #[trigger] origin[j]
    &&& forall|i: int, j: int|
        0 <= i < j < output.len() ==> !listed_before(#[trigger] output[j], #[trigger] output[i])
    &&& forall|i: int, j: int|
        0 <= i < j < origin.len() ==> listed_before(output[i], output[j]) || #[trigger] origin[i]
            < #[trigger] origin[j]
}

/// Whether `output` is the stable sort of `input` by the listing order.
pub open spec fn stably_sorted(input: Seq<RemoteFileView>, output: Seq<RemoteFileView>) -> bool {
    exists|origin: Seq<int>| arranges(input, output, origin)
}

/// Sorts records into listing order: folders first, then by name in byte
/// order; records that the order does not tell apart stay as they came.
pub fn sort_listing(files: &Vec<RemoteFile>) -> (sorted: Vec<RemoteFile>)
    ensures
        stably_sorted(files.deep_view(), sorted.deep_view()),
{
    let ghost input = files.deep_view();
    let mut sorted: Vec<RemoteFile> = Vec::new();
    let ghost mut origin: Seq<int> = Seq::empty();
    let mut next: usize = 0;
    while next < files.len()
        invariant
            next <= files@.len(),
            input == files.deep_view(),
            arranges(input.take(next as int), sorted.deep_view(), origin),
        decreases files@.len() - next,
    {
        let file = files[next].clone();
        let ghost before = sorted.deep_view();
        let ghost placed = origin;
        let mut place: usize = sorted.len();
        while place > 0 && sorts_before(&file, &sorted[place - 1])
            invariant
                place <= sorted@.len(),
                before == sorted.deep_view(),
                forall|j: int| place <= j < before.len() ==> listed_before(file@, #[trigger] before[j]),
            decreases place,
        {
            place -= 1;
        }
        let ghost record = file@;
        proof {
            if place > 0 {
                assert(before[place - 1] == sorted@[place - 1]@);
                assert(!listed_before(record, before[place - 1]));
            }
        }
        sorted.insert(place, file);
        proof {
            origin = placed.insert(place as int, next as int);
            let after = sorted.deep_view();
            assert(after =~= before.insert(place as int, record));
            let shorter = input.take(next as int);
            let longer = input.take(next + 1);
            assert(record == longer[next as int]);
            assert forall|i: int| 0 <= i < origin.len() implies 0 <= #[trigger] origin[i]
                < longer.len() && after[i] == longer[origin[i]] by {
                if i < place {
                    assert(origin[i] == placed[i]);
                    assert(after[i] == before[i]);
                } else if i > place {
                    assert(origin[i] == placed[i - 1]);
                    assert(after[i] == before[i - 1]);
                }
            }
            assert forall|i: int, j: int| 0 <= i < j < origin.len() implies #[trigger] origin[i]
                != #[trigger] origin[j] by {
                let oi = if i < place { i } else { i - 1 };
                let oj = if j < place { j } else { j - 1 };
                if i != place && j != place {
                    assert(placed[oi] != placed[oj]);
                } else if i == place {
                    assert(0 <= placed[oj] < shorter.len());
                } else {
                    assert(0 <= placed[oi] < shorter.len());
                }
            }
            assert forall|i: int, j: int| 0 <= i < j < after.len() implies !listed_before(
                #[trigger] after[j],
                #[trigger] after[i],
            ) && (listed_before(after[i], after[j]) || origin[i] < origin[j]) by {
                let oi = if i < place { i } else { i - 1 };
                let oj = if j < place { j } else { j - 1 };
                if i != place && j != place {
                    assert(after[i] == before[oi] && after[j] == before[oj]);
                    assert(origin[i] == placed[oi] && origin[j] == placed[oj]);
                    assert(!listed_before(before[oj], before[oi]));
                    assert(listed_before(before[oi], before[oj]) || placed[oi] < placed[oj]);
                } else if i == place {
                    // the new record against one that stays behind it
                    assert(after[i] == record && after[j] == before[oj]);
                    assert(listed_before(record, before[oj]));
                    lemma_listing_order(record, before[oj], record);
                } else {
                    // a record that stays in front of the new one
                    assert(after[j] == record && after[i] == before[oi]);
                    assert(origin[i] == placed[oi] && origin[j] == next);
                    assert(0 <= placed[oi] < shorter.len());
                    assert(!listed_before(record, before[place - 1]));
                    if oi < place - 1 {
                        assert(!listed_before(before[place - 1], before[oi]));
                        lemma_listing_order(record, before[oi], before[place - 1]);
                    }
                }
            }
        }
        next += 1;
    }
    assert(input.take(next as int) =~= input);
    sorted
}

/// Whether an entry of a listing is shown: all but the entry named `.`.
pub open spec fn shown(entry: DirEntryView) -> bool {
    entry.name != "."@
}

/// The records of a directory in the order in which the server gave them:
/// one for each entry but `.`, with the path made from the directory's
/// canonical path and the entry's name.
pub open spec fn listed(canonical: Seq<char>, entries: Seq<DirEntryView>) -> Seq<RemoteFileView> {
    entries.filter(|entry: DirEntryView| shown(entry)).map_values(
        |entry: DirEntryView| remote_file_at(entry, child_path(canonical, entry.name)),
    )
}

fn is_dot(name: &String) -> (dot: bool)
    ensures
        dot == (name@ == "."@),
{
    proof {
        reveal_strlit(".");
    }
    let text = name.as_str();
    let dot = text.unicode_len() == 1 && text.get_char(0) == '.';
    assert(dot ==> name@ =~= "."@);
    dot
}

fn is_dot_dot(name: &String) -> (dots: bool)
    ensures
        dots == (name@ == ".."@),
{
    proof {
        reveal_strlit("..");
    }
    let text = name.as_str();
    let dots = text.unicode_len() == 2 && text.get_char(0) == '.' && text.get_char(1) == '.';
    assert(dots ==> name@ =~= ".."@);
    dots
}

/// Builds the listing of a directory from its canonical path and the entries
/// that the server gave: the entry `.` is dropped, every other entry becomes
/// a record, and the records are put in listing order.
pub fn build_listing(canonical: &String, entries: &Vec<DirEntry>) -> (files: Vec<RemoteFile>)
    ensures
        stably_sorted(listed(canonical@, entries.deep_view()), files.deep_view()),
{
    let ghost given = entries.deep_view();
    let ghost keep = |entry: DirEntryView| shown(entry);
    let ghost record = |entry: DirEntryView|
        remote_file_at(entry, child_path(canonical@, entry.name));
    let mut files: Vec<RemoteFile> = Vec::new();
    let mut at: usize = 0;
    proof {
        reveal(Seq::filter);
        assert(given.take(0) =~= Seq::<DirEntryView>::empty());
        assert(files.deep_view() =~= given.take(0).filter(keep).map_values(record));
    }
    while at < entries.len()
        invariant
            at <= entries@.len(),
            given == entries.deep_view(),
            keep == (|entry: DirEntryView| shown(entry)),
            record == (|entry: DirEntryView|
                remote_file_at(entry, child_path(canonical@, entry.name))),
            files.deep_view() == given.take(at as int).filter(keep).map_values(record),
        decreases entries@.len() - at,
    {
        let entry = &entries[at];
        let ghost before = files.deep_view();
        let ghost kept = given.take(at as int).filter(keep);
        proof {
            assert(given.take(at + 1) =~= given.take(at as int).push(given[at as int]));
            given.take(at as int).lemma_filter_push(given[at as int], keep);
        }
        if !is_dot(&entry.name) {
            let path = join_path(canonical, &entry.name);
            files.push(remote_file_of(entry, path));
            proof {
                assert(files.deep_view() =~= before.push(record(given[at as int])));
                assert(kept.push(given[at as int]).map_values(record) =~= kept.map_values(
                    record,
                ).push(record(given[at as int])));
            }
        }
        at += 1;
    }
    assert(given.take(at as int) =~= given);
    sort_listing(&files)
}

/// Whether a recursive scan looks at an entry: all but `.` and `..`.
pub open spec fn scanned(entry: DirEntryView) -> bool {
    entry.name != "."@ && entry.name != ".."@
}

/// The directories among the entries that a scan has yet to visit, by path.
pub open spec fn folders_in(entries: Seq<DirEntryView>) -> Seq<Seq<char>> {
    entries.filter(|entry: DirEntryView| scanned(entry) && is_dir_mode(entry.perm)).map_values(
        |entry: DirEntryView| entry.path,
    )
}

/// The files among the entries, as records.
pub open spec fn files_in(entries: Seq<DirEntryView>) -> Seq<RemoteFileView> {
    entries.filter(|entry: DirEntryView| scanned(entry) && !is_dir_mode(entry.perm)).map_values(
        |entry: DirEntryView| remote_file_at(entry, entry.path),
    )
}

/// A recursive scan in progress: the directories still to read, the last on
/// top, and the files found so far.
pub struct ScanState {
    stack: Vec<String>,
    all_files: Vec<RemoteFile>,
}

/// The view of a [`ScanState`].
pub struct ScanView {
    /// The directories still to read; the last one is read next.
    pub pending: Seq<Seq<char>>,
    /// The files found so far.
    pub found: Seq<RemoteFileView>,
}

impl View for ScanState {
    type V = ScanView;

    closed spec fn view(&self) -> ScanView {
        ScanView { pending: self.stack.deep_view(), found: self.all_files.deep_view() }
    }
}

impl ScanView {
    /// The scan after the directory on top was read and gave `entries`, or
    /// could not be read (`None`), which adds nothing.
    pub open spec fn after_reading(self, entries: Option<Seq<DirEntryView>>) -> ScanView {
        match entries {
            Some(entries) => ScanView {
                pending: self.pending + folders_in(entries),
                found: self.found + files_in(entries),
            },
            None => self,
        }
    }
}

impl ScanState {
    /// A scan that starts at the directory `root`.
    pub fn new(root: String) -> (scan: ScanState)
        ensures
            scan@ == (ScanView { pending: seq![root@], found: Seq::empty() }),
    {
        let mut stack: Vec<String> = Vec::new();
        stack.push(root);
        let scan = ScanState { stack, all_files: Vec::new() };
        assert(scan.stack.deep_view() =~= seq![root@]);
        assert(scan.all_files.deep_view() =~= Seq::<RemoteFileView>::empty());
        scan
    }

    /// Takes the directory to read next, or tells that the scan is over.
    pub fn next_directory(&mut self) -> (directory: Option<String>)
        ensures
            old(self)@.pending.len() == 0 ==> directory is None && final(self)@ == old(self)@,
            old(self)@.pending.len() > 0 ==> directory is Some && directory->0@
                == old(self)@.pending.last() && final(self)@ == (ScanView {
                pending: old(self)@.pending.drop_last(),
                ..old(self)@
            }),
    {
        let ghost before = self.stack.deep_view();
        let directory = self.stack.pop();
        proof {
            if before.len() > 0 {
                assert(self.stack.deep_view() =~= before.drop_last());
                assert(directory->0@ == before.last());
            } else {
                assert(self.stack.deep_view() =~= before);
            }
        }
        directory
    }

    /// Takes in what reading a directory gave. Entries named `.` or `..` are
    /// passed over, directories are put on the stack to be read later, files
    /// are added to the result. A directory that could not be read (`None`)
    /// adds nothing.
    pub fn absorb(&mut self, entries: Option<Vec<DirEntry>>)
        ensures
            final(self)@ == old(self)@.after_reading(
                match entries {
                    Some(list) => Some(list.deep_view()),
                    None => None,
                },
            ),
    {
        match entries {
            None => {},
            Some(list) => {
                let ghost given = list.deep_view();
                let ghost start = self@;
                let ghost folder = |entry: DirEntryView| scanned(entry) && is_dir_mode(entry.perm);
                let ghost file = |entry: DirEntryView| scanned(entry) && !is_dir_mode(entry.perm);
                let ghost path_of = |entry: DirEntryView| entry.path;
                let ghost record = |entry: DirEntryView| remote_file_at(entry, entry.path);
                let mut at: usize = 0;
                proof {
                    reveal(Seq::filter);
                    assert(given.take(0) =~= Seq::<DirEntryView>::empty());
                    assert(self.stack.deep_view() =~= start.pending + given.take(0).filter(
                        folder,
                    ).map_values(path_of));
                    assert(self.all_files.deep_view() =~= start.found + given.take(0).filter(
                        file,
                    ).map_values(record));
                }
                while at < list.len()
                    invariant
                        at <= list@.len(),
                        given == list.deep_view(),
                        folder == (|entry: DirEntryView|
                            scanned(entry) && is_dir_mode(entry.perm)),
                        file == (|entry: DirEntryView| scanned(entry) && !is_dir_mode(entry.perm)),
                        path_of == (|entry: DirEntryView| entry.path),
                        record == (|entry: DirEntryView| remote_file_at(entry, entry.path)),
                        self.stack.deep_view() == start.pending + given.take(at as int).filter(
                            folder,
                        ).map_values(path_of),
                        self.all_files.deep_view() == start.found + given.take(at as int).filter(
                            file,
                        ).map_values(record),
                    decreases list@.len() - at,
                {
                    let entry = &list[at];
                    let ghost stacked = self.stack.deep_view();
                    let ghost found = self.all_files.deep_view();
                    let ghost folders = given.take(at as int).filter(folder);
                    let ghost files = given.take(at as int).filter(file);
                    proof {
                        assert(given.take(at + 1) =~= given.take(at as int).push(given[at as int]));
                        given.take(at as int).lemma_filter_push(given[at as int], folder);
                        given.take(at as int).lemma_filter_push(given[at as int], file);
                    }
                    if !is_dot(&entry.name) && !is_dot_dot(&entry.name) {
                        let record_here = remote_file_of(entry, entry.path.clone());
                        if record_here.file_type == FileType::Folder {
                            self.stack.push(entry.path.clone());
                            proof {
                                assert(self.stack.deep_view() =~= stacked.push(given[at as int].path));
                                assert(folders.push(given[at as int]).map_values(path_of)
                                    =~= folders.map_values(path_of).push(given[at as int].path));
                            }
                        } else {
                            self.all_files.push(record_here);
                            proof {
                                assert(self.all_files.deep_view() =~= found.push(
                                    record(given[at as int]),
                                ));
                                assert(files.push(given[at as int]).map_values(record)
                                    =~= files.map_values(record).push(record(given[at as int])));
                            }
                        }
                    }
                    at += 1;
                }
                assert(given.take(at as int) =~= given);
            },
        }
    }

    /// Whether no directory is left to read.
    pub fn is_done(&self) -> (done: bool)
        ensures
            done == (self@.pending.len() == 0),
    {
        self.stack.len() == 0
    }

    /// The files found.
    pub fn into_files(self) -> (files: Vec<RemoteFile>)
        ensures
            files.deep_view() == self@.found,
    {
        self.all_files
    }
}

/// A step of talking to the server that can fail.
#[derive(Debug, Clone, Copy, PartialEq, Eq, Structural)]
pub enum RemoteStep {
    TcpConnect,
    OpenSession,
    Handshake,
    Authenticate,
    OpenSftp,
    Canonicalize,
    Stat,
    ReadDirectory,
    OpenRemote,
    SeekRemote,
    ReadRemote,
    CreateLocal,
    OpenLocal,
    WriteLocal,
    StatForRemoval,
    RemoveDirectory,
    RemoveFile,
}

/// What a failure message begins with, by the step that failed.
pub open spec fn failure_prefix(step: RemoteStep) -> Seq<char> {
    match step {
        RemoteStep::TcpConnect => "Failed to connect to host: "@,
        RemoteStep::OpenSession => "Session error: "@,
        RemoteStep::Handshake => "Handshake failed: "@,
        RemoteStep::Authenticate => "Authentication failed: "@,
        RemoteStep::OpenSftp => "SFTP error: "@,
        RemoteStep::Canonicalize => "Canonicalization failed: "@,
        RemoteStep::Stat => "Stat failed: "@,
        RemoteStep::ReadDirectory => "SFTP Error: "@,
        RemoteStep::OpenRemote => "Failed to open remote file: "@,
        RemoteStep::SeekRemote => "Failed to seek in remote file: "@,
        RemoteStep::ReadRemote => "Failed to read from remote file: "@,
        RemoteStep::CreateLocal => "Failed to create local file: "@,
        RemoteStep::OpenLocal => "Failed to open local file for append: "@,
        RemoteStep::WriteLocal => "Failed to write to local file: "@,
        RemoteStep::StatForRemoval => "Failed to stat path: "@,
        RemoteStep::RemoveDirectory => "Failed to remove directory: "@,
        RemoteStep::RemoveFile => "Failed to remove file: "@,
    }
}

/// Words a failure for the user: what failed, then what the cause said.
pub fn failure_message(step: RemoteStep, detail: &str) -> (message: String)
    ensures
        message@ == failure_prefix(step) + detail@,
{
    let prefix = match step {
        RemoteStep::TcpConnect => "Failed to connect to host: ",
        RemoteStep::OpenSession => "Session error: ",
        RemoteStep::Handshake => "Handshake failed: ",
        RemoteStep::Authenticate => "Authentication failed: ",
        RemoteStep::OpenSftp => "SFTP error: ",
        RemoteStep::Canonicalize => "Canonicalization failed: ",
        RemoteStep::Stat => "Stat failed: ",
        RemoteStep::ReadDirectory => "SFTP Error: ",
        RemoteStep::OpenRemote => "Failed to open remote file: ",
        RemoteStep::SeekRemote => "Failed to seek in remote file: ",
        RemoteStep::ReadRemote => "Failed to read from remote file: ",
        RemoteStep::CreateLocal => "Failed to create local file: ",
        RemoteStep::OpenLocal => "Failed to open local file for append: ",
        RemoteStep::WriteLocal => "Failed to write to local file: ",
        RemoteStep::StatForRemoval => "Failed to stat path: ",
        RemoteStep::RemoveDirectory => "Failed to remove directory: ",
        RemoteStep::RemoveFile => "Failed to remove file: ",
    };
    String::from_str(prefix).concat(detail)
}

/// The address to connect to: the host, a colon, the port.
pub fn server_address(config: &crate::settings::SftpConfig) -> (address: String)
    ensures
        address@ == config.host@ + ":"@ + crate::text::decimal(config.port as nat),
{
    let port = crate::text::to_decimal(config.port as u64);
    config.host.clone().concat(":").concat(port.as_str())
}

/// The password to log in with. Only passwords are supported: without one
/// the connection is refused.
pub fn login_password(config: &crate::settings::SftpConfig) -> (password: Result<&String, String>)
    ensures
        match password {
            Ok(word) => config.password == Some(*word),
            Err(message) => config.password is None && message@ == "Password required for now"@,
        },
{
    match &config.password {
        Some(word) => Ok(word),
        None => Err(String::from_str("Password required for now")),
    }
}

/// Judges the server's answer to the login: a session that does not count
/// as authenticated afterwards is refused.
pub fn check_authenticated(authenticated: bool) -> (outcome: Result<(), String>)
    ensures
        match outcome {
            Ok(_) => authenticated,
            Err(message) => !authenticated && message@ == "Authentication failed"@,
        },
{
    if authenticated {
        Ok(())
    } else {
        Err(String::from_str("Authentication failed"))
    }
}

/// How the local file is opened for a chunk.
#[derive(Debug, Clone, Copy, PartialEq, Eq, Structural)]
pub enum LocalOpen {
    /// Create the file, or empty it where it exists.
    Create,
    /// Open the file that is there and write at its end.
    Append,
}

/// The way to open the local file for the chunk at `offset`: the first chunk
/// creates it, every later one appends.
pub fn local_open_for(offset: u64) -> (open: LocalOpen)
    ensures
        open == (if offset == 0 {
            LocalOpen::Create
        } else {
            LocalOpen::Append
        }),
{
    if offset == 0 {
        LocalOpen::Create
    } else {
        LocalOpen::Append
    }
}

/// What is done to the local file after the remote read of a chunk that
/// started at `offset` gave `bytes_read` bytes. A read that gave nothing is
/// the end of the remote file: the local file is left alone, it is neither
/// opened nor created. Else the bytes go to the local file, which the first
/// chunk creates and every later one appends to.
pub fn local_step_for(bytes_read: usize, offset: u64) -> (step: Option<LocalOpen>)
    ensures
        step == (if bytes_read == 0 {
            None
        } else if offset == 0 {
            Some(LocalOpen::Create)
        } else {
            Some(LocalOpen::Append)
        }),
{
    if bytes_read == 0 {
        None
    } else {
        Some(local_open_for(offset))
    }
}

/// How a path is removed.
#[derive(Debug, Clone, Copy, PartialEq, Eq, Structural)]
pub enum Removal {
    Directory,
    File,
}

/// The way to remove what has these mode bits: a directory as a directory,
/// anything else as a file.
pub fn removal_for(perm: Option<u32>) -> (removal: Removal)
    ensures
        removal == (if is_dir_mode(perm) {
            Removal::Directory
        } else {
            Removal::File
        }),
{
    if mode_is_dir(perm) {
        Removal::Directory
    } else {
        Removal::File
    }
}

} // verus!
