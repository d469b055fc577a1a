//! Ordinary local files: their fingerprints, the records kept of them, and the commit of a
//! finished transfer. No cloud placeholders or hydration states are emulated.
use crate::hashing::{digest_blocks, joined_blocks, ContentDigest};
use crate::outside::{parse_rfc3339, rfc3339_seconds, sha256_hex, HASH_LIMIT};
use crate::path::{path_error_text, path_text, LocalPath, PathError, PathErrorView};
use crate::records::{copy_pairs, FileMetadata, FileMetadataView, FileResponse, FileView, Props, PropsView};
use crate::text::{copy_text_or_empty, text_or_empty};
use vstd::prelude::*;

verus! {

/// What is known of the content at a path: whether it is a directory, its size, and the digest
/// of its bytes. A directory has size zero and no digest, whatever it holds.
#[derive(Debug, Clone, PartialEq, Eq)]
pub struct Fingerprint {
    pub directory: bool,
    pub size: u64,
    pub digest: String,
}

/// A fingerprint by its values.
pub struct FingerprintView {
    pub directory: bool,
    pub size: u64,
    pub digest: Seq<char>,
}

impl View for Fingerprint {
    type V = FingerprintView;

    open spec fn view(&self) -> FingerprintView {
        FingerprintView { directory: self.directory, size: self.size, digest: self.digest@ }
    }
}

/// An optional fingerprint by its values.
pub open spec fn opt_print(print: Option<Fingerprint>) -> Option<FingerprintView> {
    match print {
        Some(print) => Some(print@),
        None => None,
    }
}

/// An optional reference to a fingerprint by its values.
pub open spec fn opt_print_ref(print: Option<&Fingerprint>) -> Option<FingerprintView> {
    match print {
        Some(print) => Some(print@),
        None => None,
    }
}

/// The fingerprint of every directory.
pub open spec fn directory_print() -> FingerprintView {
    FingerprintView { directory: true, size: 0, digest: Seq::empty() }
}

impl Fingerprint {
    /// A copy of the fingerprint.
    pub fn duplicate(&self) -> (copy: Fingerprint)
        ensures
            copy@ == self@,
    {
        Fingerprint { directory: self.directory, size: self.size, digest: self.digest.clone() }
    }

    /// Whether two fingerprints agree in all values.
    pub fn same(&self, other: &Fingerprint) -> (same: bool)
        ensures
            same == (self@ == other@),
    {
        self.directory == other.directory && self.size == other.size && self.digest == other.digest
    }
}

/// A copy of an optional fingerprint.
pub fn copy_print(print: Option<&Fingerprint>) -> (copy: Option<Fingerprint>)
    ensures
        opt_print(copy) == opt_print_ref(print),
{
    match print {
        Some(print) => Some(print.duplicate()),
        None => None,
    }
}

/// Whether two optional fingerprints agree.
pub fn same_prints(a: Option<&Fingerprint>, b: Option<&Fingerprint>) -> (same: bool)
    ensures
        same == (opt_print_ref(a) == opt_print_ref(b)),
{
    match (a, b) {
        (Some(a), Some(b)) => a.same(b),
        (None, None) => true,
        _ => false,
    }
}

/// A time as the file system gives it.
#[derive(Debug, Clone, Copy, PartialEq, Eq, Structural)]
pub struct Timestamp {
    pub seconds: i64,
    pub nanos: u32,
}

/// What kind of entry stands at a path.
#[derive(Debug, Clone, Copy, PartialEq, Eq, Structural)]
pub enum EntryKind {
    File,
    Directory,
    Other,
}

/// When an entry was modified.
#[derive(Debug, Clone, PartialEq, Eq)]
pub enum Modified {
    /// At this time.
    At(Timestamp),
    /// The file system does not know, which it tells in these words.
    Unknown(String),
}

/// What the file system tells of a path, symbolic links not followed.
#[derive(Debug, Clone, PartialEq, Eq)]
pub enum Stat {
    /// There is nothing, which the file system tells in these words.
    Missing(String),
    /// The file system refused to tell, in these words.
    Unreadable(String),
    /// There is an entry of this kind, length and modification time.
    Found(EntryKind, u64, Modified),
}

/// Why the content at a path could not be determined.
#[derive(Debug, Clone, PartialEq, Eq)]
pub enum LocalError {
    /// The path itself is refused.
    Path(PathError),
    /// The file system refused to tell, or the entry was gone when its content had been read; the
    /// file system told it in these words.
    Unreadable(String),
    /// Neither a regular file nor a directory stands there.
    Unsupported(LocalPath),
    /// The length or the modification time is another than before the content was read.
    ChangedWhileScanning,
}

/// Why the content at a path could not be determined, with paths by their components.
pub enum LocalErrorView {
    Path(PathErrorView),
    Unreadable(Seq<char>),
    Unsupported(Seq<Seq<char>>),
    ChangedWhileScanning,
}

impl View for LocalError {
    type V = LocalErrorView;

    open spec fn view(&self) -> LocalErrorView {
        match *self {
            LocalError::Path(error) => LocalErrorView::Path(error@),
            LocalError::Unreadable(words) => LocalErrorView::Unreadable(words@),
            LocalError::Unsupported(at) => LocalErrorView::Unsupported(at@),
            LocalError::ChangedWhileScanning => LocalErrorView::ChangedWhileScanning,
        }
    }
}

/// The text that tells of content that could not be determined.
pub open spec fn local_error_text(error: LocalErrorView) -> Seq<char> {
    match error {
        LocalErrorView::Path(error) => path_error_text(error),
        LocalErrorView::Unreadable(words) => words,
        LocalErrorView::Unsupported(at) => "Only regular files and directories can sync: "@
            + path_text(at),
        LocalErrorView::ChangedWhileScanning => "File changed while scanning"@,
    }
}

impl LocalError {
    /// A copy of the error.
    pub fn duplicate(&self) -> (copy: LocalError)
        ensures
            copy@ == self@,
    {
        match self {
            LocalError::Path(error) => LocalError::Path(error.duplicate()),
            LocalError::Unreadable(words) => LocalError::Unreadable(words.clone()),
            LocalError::Unsupported(at) => LocalError::Unsupported(at.duplicate()),
            LocalError::ChangedWhileScanning => LocalError::ChangedWhileScanning,
        }
    }

    /// The text that tells of the error.
    pub fn message(&self) -> (text: String)
        ensures
            text@ == local_error_text(self@),
    {
        match self {
            LocalError::Path(error) => error.message(),
            LocalError::Unreadable(words) => words.clone(),
            LocalError::Unsupported(at) => {
                "Only regular files and directories can sync: ".to_owned().concat(at.text().as_str())
            },
            LocalError::ChangedWhileScanning => "File changed while scanning".to_owned(),
        }
    }
}

/// The outcome of a scan of one path: an error, nothing there, or the fingerprint.
pub type ScanView = Result<Option<FingerprintView>, LocalErrorView>;

/// The outcome of a scan by its values.
pub open spec fn scan_view(outcome: Result<Option<Fingerprint>, LocalError>) -> ScanView {
    match outcome {
        Ok(print) => Ok(opt_print(print)),
        Err(error) => Err(error@),
    }
}

/// A copy of the outcome of a scan.
pub fn copy_scan(outcome: &Result<Option<Fingerprint>, LocalError>) -> (copy: Result<
    Option<Fingerprint>,
    LocalError,
>)
    ensures
        scan_view(copy) == scan_view(*outcome),
{
    match outcome {
        Ok(print) => Ok(copy_print(print.as_ref())),
        Err(error) => Err(error.duplicate()),
    }
}

/// The outcome of a scan whose content is known: `before` and `after` are what the file system
/// told of the file before and after `content` was read from it.
pub open spec fn content_print(
    len: u64,
    modified: Modified,
    content: Seq<u8>,
    after: Stat,
) -> Result<FingerprintView, LocalErrorView> {
    match after {
        Stat::Missing(words) => Err(LocalErrorView::Unreadable(words@)),
        Stat::Unreadable(words) => Err(LocalErrorView::Unreadable(words@)),
        Stat::Found(_, len_after, modified_after) => if len != len_after {
            Err(LocalErrorView::ChangedWhileScanning)
        } else {
            match (modified, modified_after) {
                (Modified::Unknown(words), _) => Err(LocalErrorView::Unreadable(words@)),
                (_, Modified::Unknown(words)) => Err(LocalErrorView::Unreadable(words@)),
                (Modified::At(earlier), Modified::At(later)) => if earlier != later {
                    Err(LocalErrorView::ChangedWhileScanning)
                } else {
                    Ok(
                        FingerprintView {
                            directory: false,
                            size: len_after,
                            digest: sha256_hex(content),
                        },
                    )
                },
            }
        },
    }
}

/// The outcome of a scan of `path`: `content` was read from it between `before` and `after`.
pub open spec fn path_print(
    path: Seq<Seq<char>>,
    before: Stat,
    content: Seq<u8>,
    after: Stat,
) -> ScanView {
    match before {
        Stat::Missing(_) => Ok(None),
        Stat::Unreadable(words) => Err(LocalErrorView::Unreadable(words@)),
        Stat::Found(EntryKind::Other, _, _) => Err(LocalErrorView::Unsupported(path)),
        Stat::Found(EntryKind::Directory, _, _) => Ok(Some(directory_print())),
        Stat::Found(EntryKind::File, len, modified) => match content_print(
            len,
            modified,
            content,
            after,
        ) {
            Ok(print) => Ok(Some(print)),
            Err(error) => Err(error),
        },
    }
}

/// A regular file whose content is being read.
pub struct ContentScan {
    len: u64,
    modified: Modified,
    digest: ContentDigest,
}

/// What the first look at a path yields.
pub enum Scan {
    /// No content has to be read.
    Known(Option<Fingerprint>),
    /// The content of a regular file has to be read.
    Content(ContentScan),
}

impl ContentScan {
    /// The length of the file before its content was read.
    pub closed spec fn len(&self) -> u64 {
        self.len
    }

    /// The modification time of the file before its content was read.
    pub closed spec fn modified(&self) -> Modified {
        self.modified
    }

    /// The content read so far.
    pub closed spec fn content(&self) -> Seq<u8> {
        self.digest.content()
    }

    /// The digest under way is consistent.
    pub closed spec fn wf(&self) -> bool {
        self.digest.wf()
    }

    /// Takes the first look at `path`.
    pub fn begin(path: &LocalPath, before: Stat) -> (scan: Result<Scan, LocalError>)
        ensures
            match scan {
                Err(error) => forall|content: Seq<u8>, after: Stat| #[trigger]
                    path_print(path@, before, content, after) == Err::<
                        Option<FingerprintView>,
                        LocalErrorView,
                    >(error@),
                Ok(Scan::Known(print)) => forall|content: Seq<u8>, after: Stat| #[trigger]
                    path_print(path@, before, content, after) == Ok::<
                        Option<FingerprintView>,
                        LocalErrorView,
                    >(opt_print(print)),
                Ok(Scan::Content(scan)) => scan.wf() && scan.content() == Seq::<u8>::empty()
                    && before == Stat::Found(EntryKind::File, scan.len(), scan.modified()),
            },
    {
        match before {
            Stat::Missing(_) => Ok(Scan::Known(None)),
            Stat::Unreadable(words) => Err(LocalError::Unreadable(words)),
            Stat::Found(kind, len, modified) => match kind {
                EntryKind::Other => Err(LocalError::Unsupported(path.duplicate())),
                EntryKind::Directory => {
                    Ok(
                        Scan::Known(
                            Some(Fingerprint { directory: true, size: 0, digest: String::new() }),
                        ),
                    )
                },
                EntryKind::File => {
                    Ok(Scan::Content(ContentScan { len, modified, digest: ContentDigest::new() }))
                },
            },
        }
    }

    /// How many more bytes can be taken in.
    pub fn room(&self) -> (room: u64)
        requires
            self.wf(),
        ensures
            room == HASH_LIMIT - self.content().len(),
    {
        self.digest.room()
    }

    /// Takes in the next block of content.
    pub fn feed(&mut self, block: &[u8])
        requires
            old(self).wf(),
            old(self).content().len() + block@.len() <= HASH_LIMIT,
        ensures
            final(self).wf(),
            final(self).len() == old(self).len(),
            final(self).modified() == old(self).modified(),
            final(self).content() == old(self).content() + block@,
    {
        self.digest.feed(block);
    }

    /// Ends the scan with a second look at the file.
    pub fn finish(self, after: Stat) -> (outcome: Result<Fingerprint, LocalError>)
        requires
            self.wf(),
        ensures
            match outcome {
                Ok(print) => content_print(self.len(), self.modified(), self.content(), after)
                    == Ok::<FingerprintView, LocalErrorView>(print@),
                Err(error) => content_print(self.len(), self.modified(), self.content(), after)
                    == Err::<FingerprintView, LocalErrorView>(error@),
            },
    {
        match after {
            Stat::Missing(words) => Err(LocalError::Unreadable(words)),
            Stat::Unreadable(words) => Err(LocalError::Unreadable(words)),
            Stat::Found(_, len, modified) => {
                if self.len != len {
                    return Err(LocalError::ChangedWhileScanning);
                }
                match (self.modified, modified) {
                    (Modified::Unknown(words), _) => Err(LocalError::Unreadable(words)),
                    (_, Modified::Unknown(words)) => Err(LocalError::Unreadable(words)),
                    (Modified::At(earlier), Modified::At(later)) => {
                        if earlier.seconds != later.seconds || earlier.nanos != later.nanos {
                            return Err(LocalError::ChangedWhileScanning);
                        }
                        Ok(
                            Fingerprint {
                                directory: false,
                                size: len,
                                digest: self.digest.finish(),
                            },
                        )
                    },
                }
            },
        }
    }
}

/// The fingerprint of what stands at `path`, where the file system told `before` of it, then gave
/// `blocks` as its content, and told `after` of it at the end.
pub fn fingerprint(
    path: &LocalPath,
    before: Stat,
    blocks: &Vec<Vec<u8>>,
    after: Stat,
) -> (outcome: Result<Option<Fingerprint>, LocalError>)
    requires
        joined_blocks(blocks@).len() <= HASH_LIMIT,
    ensures
        scan_view(outcome) == path_print(path@, before, joined_blocks(blocks@), after),
{
    match ContentScan::begin(path, before) {
        Err(error) => {
            assert(path_print(path@, before, joined_blocks(blocks@), after) is Err);
            Err(error)
        },
        Ok(Scan::Known(print)) => {
            assert(path_print(path@, before, joined_blocks(blocks@), after) is Ok);
            Ok(print)
        },
        Ok(Scan::Content(scan)) => {
            let full = ContentScan {
                len: scan.len,
                modified: scan.modified,
                digest: digest_blocks(scan.digest, blocks),
            };
            match full.finish(after) {
                Ok(print) => Ok(Some(print)),
                Err(error) => Err(error),
            }
        },
    }
}

/// The fingerprint recorded at the last synchronization, if one was.
pub open spec fn baseline_view(meta: FileMetadataView) -> Option<FingerprintView> {
    match meta.props {
        Some(props) => props.baseline,
        None => None,
    }
}

/// The fingerprint recorded at the last synchronization, if one was.
pub fn baseline(meta: &FileMetadata) -> (print: Option<Fingerprint>)
    ensures
        opt_print(print) == baseline_view(meta@),
{
    match &meta.props {
        Some(props) => copy_print(props.baseline.as_ref()),
        None => None,
    }
}

/// The seconds of a date, or zero where it is none.
pub open spec fn seconds_or_zero(date: Seq<char>) -> i64 {
    match rfc3339_seconds(date) {
        Some(seconds) => seconds,
        None => 0,
    }
}

/// The record of `file`, kept at `path`, whose local content is `snapshot`.
pub open spec fn metadata_view(
    file: FileView,
    path: Seq<Seq<char>>,
    drive_id: u128,
    snapshot: Option<FingerprintView>,
) -> FileMetadataView {
    FileMetadataView {
        id: 0,
        drive_id,
        local_path: path_text(path),
        is_folder: file.is_folder,
        created_at: seconds_or_zero(file.created_at),
        updated_at: seconds_or_zero(file.updated_at),
        size: file.size,
        etag: text_or_empty(file.primary_entity),
        metadata: match file.metadata {
            Some(entries) => entries,
            None => Seq::empty(),
        },
        props: Some(
            PropsView {
                baseline: snapshot,
                remote_id: Some(file.id),
                remote_updated_at: Some(file.updated_at),
            },
        ),
        permissions: text_or_empty(file.permission),
        shared: match file.shared {
            Some(shared) => shared,
            None => false,
        },
        conflict_state: None,
    }
}

/// The record of `file`, kept at `path`, whose local content is `snapshot`.
pub fn metadata(
    file: &FileResponse,
    path: &LocalPath,
    drive_id: u128,
    snapshot: Option<&Fingerprint>,
) -> (meta: FileMetadata)
    ensures
        meta@ == metadata_view(file@, path@, drive_id, opt_print_ref(snapshot)),
{
    let created_at: i64 = match parse_rfc3339(file.created_at.as_str()) {
        Some(seconds) => seconds,
        None => 0,
    };
    let updated_at: i64 = match parse_rfc3339(file.updated_at.as_str()) {
        Some(seconds) => seconds,
        None => 0,
    };
    let entries = match &file.metadata {
        Some(entries) => copy_pairs(entries),
        None => Vec::new(),
    };
    let shared = match file.shared {
        Some(shared) => shared,
        None => false,
    };
    let meta = FileMetadata {
        id: 0,
        drive_id,
        local_path: path.text(),
        is_folder: file.is_folder,
        created_at,
        updated_at,
        size: file.size,
        etag: copy_text_or_empty(&file.primary_entity),
        metadata: entries,
        props: Some(
            Props {
                baseline: copy_print(snapshot),
                remote_id: Some(file.id.clone()),
                remote_updated_at: Some(file.updated_at.clone()),
            },
        ),
        permissions: copy_text_or_empty(&file.permission),
        shared,
        conflict_state: None,
    };
    assert(meta@.metadata =~= metadata_view(
        file@,
        path@,
        drive_id,
        opt_print_ref(snapshot),
    ).metadata);
    meta
}

/// What is known of the local file of a transfer.
#[derive(Debug, Clone, PartialEq, Eq)]
pub struct LocalFileInfo {
    pub exists: bool,
    pub is_directory: bool,
    pub file_size: Option<u64>,
    pub last_modified: Option<Timestamp>,
    pub snapshot: Option<Fingerprint>,
}

/// The local file information by its values.
pub struct LocalFileInfoView {
    pub exists: bool,
    pub is_directory: bool,
    pub file_size: Option<u64>,
    pub last_modified: Option<Timestamp>,
    pub snapshot: Option<FingerprintView>,
}

impl View for LocalFileInfo {
    type V = LocalFileInfoView;

    open spec fn view(&self) -> LocalFileInfoView {
        LocalFileInfoView {
            exists: self.exists,
            is_directory: self.is_directory,
            file_size: self.file_size,
            last_modified: self.last_modified,
            snapshot: opt_print(self.snapshot),
        }
    }
}

/// What a scan with this outcome tells of the file.
pub open spec fn info_view(
    snapshot: Option<FingerprintView>,
    last_modified: Option<Timestamp>,
) -> LocalFileInfoView {
    LocalFileInfoView {
        exists: snapshot is Some,
        is_directory: match snapshot {
            Some(print) => print.directory,
            None => false,
        },
        file_size: match snapshot {
            Some(print) => Some(print.size),
            None => None,
        },
        last_modified,
        snapshot,
    }
}

/// What is known of a file that could not be read: it is taken to be there, so that nothing
/// concludes from its absence.
pub open spec fn unread_info() -> LocalFileInfoView {
    LocalFileInfoView {
        exists: true,
        is_directory: false,
        file_size: None,
        last_modified: None,
        snapshot: None,
    }
}

impl LocalFileInfo {
    /// What is known of a path after its scan had the outcome `snapshot`; the file system told
    /// `last_modified` of it.
    pub fn from_path(
        snapshot: Result<Option<Fingerprint>, LocalError>,
        last_modified: Option<Timestamp>,
    ) -> (info: Result<LocalFileInfo, LocalError>)
        ensures
            match info {
                Ok(info) => snapshot matches Ok(print) && info@ == info_view(
                    opt_print(print),
                    last_modified,
                ),
                Err(error) => snapshot == Err::<Option<Fingerprint>, LocalError>(error),
            },
    {
        match snapshot {
            Err(error) => Err(error),
            Ok(snapshot) => {
                let exists = snapshot.is_some();
                let is_directory = match &snapshot {
                    Some(print) => print.directory,
                    None => false,
                };
                let file_size = match &snapshot {
                    Some(print) => Some(print.size),
                    None => None,
                };
                Ok(LocalFileInfo { exists, is_directory, file_size, last_modified, snapshot })
            },
        }
    }
}

/// Why a finished transfer is not recorded.
#[derive(Debug, Clone, PartialEq, Eq)]
pub enum CommitError {
    /// The path or the content could not be determined.
    Local(LocalError),
    Absent,
    ChangedDuringTransfer,
    RemoteMissing,
    TypeChanged,
    SizeMismatch,
}

/// Why a finished transfer is not recorded, with paths by their components.
pub enum CommitErrorView {
    Local(LocalErrorView),
    Absent,
    ChangedDuringTransfer,
    RemoteMissing,
    TypeChanged,
    SizeMismatch,
}

impl View for CommitError {
    type V = CommitErrorView;

    open spec fn view(&self) -> CommitErrorView {
        match *self {
            CommitError::Local(error) => CommitErrorView::Local(error@),
            CommitError::Absent => CommitErrorView::Absent,
            CommitError::ChangedDuringTransfer => CommitErrorView::ChangedDuringTransfer,
            CommitError::RemoteMissing => CommitErrorView::RemoteMissing,
            CommitError::TypeChanged => CommitErrorView::TypeChanged,
            CommitError::SizeMismatch => CommitErrorView::SizeMismatch,
        }
    }
}

/// The text that tells of a transfer that is not recorded.
pub open spec fn commit_error_text(error: CommitErrorView) -> Seq<char> {
    match error {
        CommitErrorView::Local(error) => local_error_text(error),
        CommitErrorView::Absent => "Cannot commit absent content"@,
        CommitErrorView::ChangedDuringTransfer => "Local content changed during transfer; preserving unsynced changes"@,
        CommitErrorView::RemoteMissing => "Remote metadata missing"@,
        CommitErrorView::TypeChanged => "File type changed during transfer"@,
        CommitErrorView::SizeMismatch => "Transfer size mismatch"@,
    }
}

impl CommitError {
    /// The text that tells of the error.
    pub fn message(&self) -> (text: String)
        ensures
            text@ == commit_error_text(self@),
    {
        match self {
            CommitError::Local(error) => error.message(),
            CommitError::Absent => "Cannot commit absent content".to_owned(),
            CommitError::ChangedDuringTransfer => {
                "Local content changed during transfer; preserving unsynced changes".to_owned()
            },
            CommitError::RemoteMissing => "Remote metadata missing".to_owned(),
            CommitError::TypeChanged => "File type changed during transfer".to_owned(),
            CommitError::SizeMismatch => "Transfer size mismatch".to_owned(),
        }
    }
}

/// The local side of a transfer; it is recorded only with its content fully present.
#[derive(Debug)]
pub struct LocalFile {
    pub local_file_info: LocalFileInfo,
    pub local_path: LocalPath,
    pub sync_root: LocalPath,
    pub drive_id: u128,
    pub remote: Option<FileResponse>,
    pub read_error: Option<LocalError>,
}

/// The local side of a transfer, by its values.
pub struct LocalFileView {
    pub info: LocalFileInfoView,
    pub path: Seq<Seq<char>>,
    pub root: Seq<Seq<char>>,
    pub drive_id: u128,
    pub remote: Option<FileView>,
    pub read_error: Option<LocalErrorView>,
}

/// The record that a commit makes, or why it makes none. `checked` is the outcome of the check of
/// the path and `current` that of a scan of it, both at the time of the commit.
pub open spec fn commit_view(
    file: LocalFileView,
    checked: Result<(), LocalErrorView>,
    current: ScanView,
) -> Result<FileMetadataView, CommitErrorView> {
    if file.read_error is Some {
        Err(CommitErrorView::Local(file.read_error->0))
    } else if checked is Err {
        Err(CommitErrorView::Local(checked->Err_0))
    } else if current is Err {
        Err(CommitErrorView::Local(current->Err_0))
    } else if current->Ok_0 is None {
        Err(CommitErrorView::Absent)
    } else if current->Ok_0 != file.info.snapshot {
        Err(CommitErrorView::ChangedDuringTransfer)
    } else if file.remote is None {
        Err(CommitErrorView::RemoteMissing)
    } else if current->Ok_0->0.directory != file.remote->0.is_folder {
        Err(CommitErrorView::TypeChanged)
    } else if !file.remote->0.is_folder && current->Ok_0->0.size != file.remote->0.size as u64 {
        Err(CommitErrorView::SizeMismatch)
    } else {
        Ok(metadata_view(file.remote->0, file.path, file.drive_id, current->Ok_0))
    }
}

/// The outcome of a path check, by its values.
pub open spec fn checked_view(checked: Result<(), PathError>) -> Result<(), LocalErrorView> {
    match checked {
        Ok(()) => Ok(()),
        Err(error) => Err(LocalErrorView::Path(error@)),
    }
}

impl View for LocalFile {
    type V = LocalFileView;

    open spec fn view(&self) -> LocalFileView {
        LocalFileView {
            info: self.local_file_info@,
            path: self.local_path@,
            root: self.sync_root@,
            drive_id: self.drive_id,
            remote: match self.remote {
                Some(remote) => Some(remote@),
                None => None,
            },
            read_error: match self.read_error {
                Some(error) => Some(error@),
                None => None,
            },
        }
    }
}

/// What is known of a path, or why nothing is: the check of the path comes first, and what a scan of
/// a refused path would give does not matter.
pub open spec fn examined(
    checked: Result<(), PathError>,
    snapshot: ScanView,
    last_modified: Option<Timestamp>,
) -> Result<LocalFileInfoView, LocalErrorView> {
    match (checked_view(checked), snapshot) {
        (Err(error), _) => Err(error),
        (_, Err(error)) => Err(error),
        (_, Ok(print)) => Ok(info_view(print, last_modified)),
    }
}

/// What is known of a path whose check had the outcome `checked` and whose scan had the outcome
/// `snapshot`; the file system told `last_modified` of it.
pub fn examine(
    checked: Result<(), PathError>,
    snapshot: Result<Option<Fingerprint>, LocalError>,
    last_modified: Option<Timestamp>,
) -> (info: Result<LocalFileInfo, LocalError>)
    ensures
        match info {
            Ok(info) => examined(checked, scan_view(snapshot), last_modified) == Ok::<
                LocalFileInfoView,
                LocalErrorView,
            >(info@),
            Err(error) => examined(checked, scan_view(snapshot), last_modified) == Err::<
                LocalFileInfoView,
                LocalErrorView,
            >(error@),
        },
{
    match checked {
        Err(error) => Err(LocalError::Path(error)),
        Ok(()) => LocalFileInfo::from_path(snapshot, last_modified),
    }
}

impl LocalFile {
    /// The local side of a transfer at `path`, whose check had the outcome `checked` and whose scan
    /// had the outcome `snapshot`; the file system told `last_modified` of it.
    pub fn new(
        path: LocalPath,
        root: LocalPath,
        drive_id: u128,
        checked: Result<(), PathError>,
        snapshot: Result<Option<Fingerprint>, LocalError>,
        last_modified: Option<Timestamp>,
    ) -> (file: LocalFile)
        ensures
            file@ == (LocalFileView {
                info: match examined(checked, scan_view(snapshot), last_modified) {
                    Ok(info) => info,
                    Err(_) => unread_info(),
                },
                path: path@,
                root: root@,
                drive_id,
                remote: None,
                read_error: match examined(checked, scan_view(snapshot), last_modified) {
                    Ok(_) => None,
                    Err(error) => Some(error),
                },
            }),
    {
        let (info, read_error) = match examine(checked, snapshot, last_modified) {
            Ok(info) => (info, None),
            Err(error) => (
                LocalFileInfo {
                    exists: true,
                    is_directory: false,
                    file_size: None,
                    last_modified: None,
                    snapshot: None,
                },
                Some(error),
            ),
        };
        LocalFile {
            local_file_info: info,
            local_path: path,
            sync_root: root,
            drive_id,
            remote: None,
            read_error,
        }
    }

    /// The first reading error, or else the outcome `checked` of the check of the path.
    pub fn validate(&self, checked: Result<(), PathError>) -> (outcome: Result<(), LocalError>)
        ensures
            match outcome {
                Ok(()) => self@.read_error is None && checked is Ok,
                Err(error) => if self@.read_error is Some {
                    self@.read_error == Some(error@)
                } else {
                    checked matches Err(fault) && error@ == LocalErrorView::Path(fault@)
                },
            },
    {
        if let Some(error) = &self.read_error {
            return Err(error.duplicate());
        }
        match checked {
            Ok(()) => Ok(()),
            Err(error) => Err(LocalError::Path(error)),
        }
    }

    /// Ordinary files know no mark of absent children.
    pub fn with_mark_no_children(self, _mark: bool) -> (file: LocalFile)
        ensures
            file == self,
    {
        self
    }

    /// Takes `remote` for the remote side of the transfer.
    pub fn with_remote_file(self, remote: &FileResponse) -> (file: LocalFile)
        ensures
            file@ == (LocalFileView { remote: Some(remote@), ..self@ }),
            file.local_file_info == self.local_file_info,
    {
        let mut file = self;
        file.remote = Some(remote.duplicate());
        file
    }

    /// Ordinary files show no error state.
    pub fn update_sync_error_state(&self, _state: bool) -> (outcome: Result<(), LocalError>)
        ensures
            outcome == Ok::<(), LocalError>(()),
    {
        Ok(())
    }

    /// The record of the finished transfer, which has to be kept; `checked` is the outcome of the
    /// check of the path and `current` that of a scan of it, both at this time.
    pub fn commit(
        &self,
        checked: Result<(), PathError>,
        current: Result<Option<Fingerprint>, LocalError>,
    ) -> (outcome: Result<FileMetadata, CommitError>)
        ensures
            match outcome {
                Ok(meta) => commit_view(self@, checked_view(checked), scan_view(current)) == Ok::<
                    FileMetadataView,
                    CommitErrorView,
                >(meta@),
                Err(error) => commit_view(self@, checked_view(checked), scan_view(current)) == Err::<
                    FileMetadataView,
                    CommitErrorView,
                >(error@),
            },
    {
        match self.validate(checked) {
            Ok(()) => {},
            Err(error) => {
                return Err(CommitError::Local(error));
            },
        }
        let current = match current {
            Ok(current) => current,
            Err(error) => {
                return Err(CommitError::Local(error));
            },
        };
        let print = match &current {
            Some(print) => print,
            None => {
                return Err(CommitError::Absent);
            },
        };
        if !same_prints(Some(print), self.local_file_info.snapshot.as_ref()) {
            return Err(CommitError::ChangedDuringTransfer);
        }
        let remote = match &self.remote {
            Some(remote) => remote,
            None => {
                return Err(CommitError::RemoteMissing);
            },
        };
        if print.directory != remote.is_folder {
            return Err(CommitError::TypeChanged);
        }
        if !remote.is_folder && print.size != remote.size as u64 {
            return Err(CommitError::SizeMismatch);
        }
        Ok(metadata(remote, &self.local_path, self.drive_id, Some(print)))
    }
}

/// What a record was made of is read back from it: the baseline is the snapshot.
pub proof fn lemma_baseline_is_snapshot(
    file: FileView,
    path: Seq<Seq<char>>,
    drive_id: u128,
    snapshot: Option<FingerprintView>,
)
    ensures
        baseline_view(metadata_view(file, path, drive_id, snapshot)) == snapshot,
{
}

/// A transfer is recorded only with the content that was there when it began: the baseline of the
/// record is both the content at the commit and the snapshot from before the transfer, and its
/// size is that of the remote file.
pub proof fn lemma_commit_records_present_content(
    file: LocalFileView,
    checked: Result<(), LocalErrorView>,
    current: ScanView,
)
    requires
        commit_view(file, checked, current) is Ok,
    ensures
        checked is Ok,
        current is Ok,
        current->Ok_0 is Some,
        file.info.snapshot == current->Ok_0,
        baseline_view(commit_view(file, checked, current)->Ok_0) == current->Ok_0,
        !current->Ok_0->0.directory ==> current->Ok_0->0.size == file.remote->0.size as u64,
{
}

/// Two scans of regular files that both end well tell contents with different digests apart, even
/// where their sizes are equal.
pub proof fn lemma_same_size_edit_is_seen(
    path: Seq<Seq<char>>,
    before: Stat,
    old_content: Seq<u8>,
    new_content: Seq<u8>,
    after: Stat,
)
    requires
        before matches Stat::Found(kind, _, _) && kind == EntryKind::File,
        path_print(path, before, old_content, after) is Ok,
        sha256_hex(old_content) != sha256_hex(new_content),
    ensures
        path_print(path, before, old_content, after) != path_print(path, before, new_content, after),
{
}

/// A scan finds nothing exactly where there is nothing, and every directory as the same one.
pub proof fn lemma_scans_find_what_is_there(
    path: Seq<Seq<char>>,
    before: Stat,
    content: Seq<u8>,
    after: Stat,
)
    ensures
        before is Missing <==> path_print(path, before, content, after) == Ok::<
            Option<FingerprintView>,
            LocalErrorView,
        >(None),
        (before matches Stat::Found(kind, _, _) && kind == EntryKind::Directory) ==> path_print(
            path,
            before,
            content,
            after,
        ) == Ok::<Option<FingerprintView>, LocalErrorView>(
            Some(FingerprintView { directory: true, size: 0, digest: Seq::empty() }),
        ),
{
}

/// A scan finds a file by its size and the digest of its content, as long as neither the size nor the
/// date changed while it was read; what changed meanwhile is not taken for anything, and what is
/// neither a file nor a directory is refused.
pub proof fn lemma_scans_find_files_at_rest(
    path: Seq<Seq<char>>,
    len: u64,
    at: Timestamp,
    content: Seq<u8>,
    kind: EntryKind,
    len_after: u64,
    at_after: Timestamp,
    modified: Modified,
)
    ensures
        path_print(
            path,
            Stat::Found(EntryKind::File, len, Modified::At(at)),
            content,
            Stat::Found(kind, len, Modified::At(at)),
        ) == Ok::<Option<FingerprintView>, LocalErrorView>(
            Some(FingerprintView { directory: false, size: len, digest: sha256_hex(content) }),
        ),
        len != len_after || at != at_after ==> path_print(
            path,
            Stat::Found(EntryKind::File, len, Modified::At(at)),
            content,
            Stat::Found(kind, len_after, Modified::At(at_after)),
        ) == Err::<Option<FingerprintView>, LocalErrorView>(LocalErrorView::ChangedWhileScanning),
        forall|after: Stat| #[trigger]
            path_print(path, Stat::Found(EntryKind::Other, len, modified), content, after) == Err::<
                Option<FingerprintView>,
                LocalErrorView,
            >(LocalErrorView::Unsupported(path)),
{
}

/// A transfer is recorded exactly where the file could be read and its path still may be, its content
/// is what it was before the transfer, and it is of the kind and, for a file, of the size that the
/// server has; and what is recorded is the file of the server with that content.
pub proof fn lemma_commits_succeed(
    file: LocalFileView,
    checked: Result<(), LocalErrorView>,
    current: ScanView,
    remote: FileView,
    print: FingerprintView,
)
    requires
        file.remote == Some(remote),
        current == Ok::<Option<FingerprintView>, LocalErrorView>(Some(print)),
    ensures
        commit_view(file, checked, current) is Ok <==> file.read_error is None && checked is Ok
            && file.info.snapshot == Some(print) && print.directory == remote.is_folder && (
        remote.is_folder || print.size == remote.size as u64),
        commit_view(file, checked, current) matches Ok(record) ==> record == metadata_view(
            remote,
            file.path,
            file.drive_id,
            Some(print),
        ),
{
}

/// A record tells of the file what the server told of it, where it is kept and with which content:
/// nothing is left out, and nothing is made up but zero for a date that is none.
pub proof fn lemma_records_tell_the_file(
    file: FileView,
    path: Seq<Seq<char>>,
    drive_id: u128,
    snapshot: Option<FingerprintView>,
)
    ensures
        ({
            let record = metadata_view(file, path, drive_id, snapshot);
            &&& record.drive_id == drive_id && record.local_path == path_text(path)
            &&& record.is_folder == file.is_folder && record.size == file.size
            &&& file.primary_entity matches Some(entity) ==> record.etag == entity
            &&& file.primary_entity is None ==> record.etag == Seq::<char>::empty()
            &&& file.metadata matches Some(entries) ==> record.metadata == entries
            &&& file.metadata is None ==> record.metadata.len() == 0
            &&& file.permission matches Some(permission) ==> record.permissions == permission
            &&& file.permission is None ==> record.permissions == Seq::<char>::empty()
            &&& record.shared == (file.shared == Some(true))
            &&& record.conflict_state is None
            &&& rfc3339_seconds(file.created_at) matches Some(seconds) ==> record.created_at == seconds
            &&& rfc3339_seconds(file.updated_at) matches Some(seconds) ==> record.updated_at == seconds
            &&& rfc3339_seconds(file.created_at) is None ==> record.created_at == 0
            &&& rfc3339_seconds(file.updated_at) is None ==> record.updated_at == 0
            &&& record.props == Some(
                PropsView {
                    baseline: snapshot,
                    remote_id: Some(file.id),
                    remote_updated_at: Some(file.updated_at),
                },
            )
        }),
{
}

/// What is known of a file is what its scan found; a file that could not be read, or whose path may
/// not be, counts as there, with nothing known of it.
pub proof fn lemma_unread_files_count_as_there(
    checked: Result<(), PathError>,
    snapshot: ScanView,
    last_modified: Option<Timestamp>,
)
    ensures
        examined(checked, snapshot, last_modified) is Ok <==> checked is Ok && snapshot is Ok,
        examined(checked, snapshot, last_modified) matches Ok(info) ==> {
            &&& info.snapshot == snapshot->Ok_0 && info.last_modified == last_modified
            &&& info.exists == (snapshot->Ok_0 is Some)
            &&& snapshot->Ok_0 matches Some(print) ==> info.is_directory == print.directory
                && info.file_size == Some(print.size)
            &&& snapshot->Ok_0 is None ==> !info.is_directory && info.file_size is None
        },
        unread_info().exists && unread_info().snapshot is None && unread_info().file_size is None,
{
}

/// A transfer is left unrecorded for the reason that is told of it.
pub proof fn lemma_failed_commits_have_reasons(
    file: LocalFileView,
    checked: Result<(), LocalErrorView>,
    current: ScanView,
)
    ensures
        commit_view(file, checked, current) matches Err(error) ==> match error {
            CommitErrorView::Local(error) => file.read_error == Some(error) || checked == Err::<
                (),
                LocalErrorView,
            >(error) || current == Err::<Option<FingerprintView>, LocalErrorView>(error),
            CommitErrorView::Absent => current == Ok::<Option<FingerprintView>, LocalErrorView>(
                None,
            ),
            CommitErrorView::ChangedDuringTransfer => current is Ok && current->Ok_0
                != file.info.snapshot,
            CommitErrorView::RemoteMissing => file.remote is None,
            CommitErrorView::TypeChanged => current is Ok && current->Ok_0 is Some
                && file.remote is Some && current->Ok_0->0.directory != file.remote->0.is_folder,
            CommitErrorView::SizeMismatch => current is Ok && current->Ok_0 is Some
                && file.remote is Some && current->Ok_0->0.size != file.remote->0.size as u64,
        },
        file.read_error is Some || checked is Err || current is Err ==> commit_view(
            file,
            checked,
            current,
        ) matches Err(CommitErrorView::Local(_)),
        file.remote is None ==> commit_view(file, checked, current) is Err,
        current matches Ok(None) ==> commit_view(file, checked, current) is Err,
{
}

} // verus!
