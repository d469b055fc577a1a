//! What a reconciliation asks its caller for, and how the effect of a single visit is carried out.
use crate::agenda::{Effect, EffectView};
use crate::deletions::Removal;
use crate::local_file::{metadata, metadata_view, scan_view, Fingerprint, LocalError, ScanView};
use crate::local_scan::LocalEntry;
use crate::path::{LocalPath, PathError};
use crate::path_map::PathMap;
use crate::records::{
    Disposal, FileMetadata, FileMetadataView, FileResponse, FileView, Taken,
};
use crate::remote_scan::RemoteEntry;
use crate::steps::{fetch, fetched, Transfer, TransferView, Visit, VisitView};
use crate::sync_error::{SyncError, SyncErrorView};
use vstd::prelude::*;

verus! {

/// What a reconciliation asks its caller for.
#[derive(Debug)]
pub enum SyncAsk {
    /// The next page of the remote folder that belongs to this directory.
    ListRemote(LocalPath),
    /// The local entries of this directory, the records of its children and the active transfers.
    ReadDirectory(LocalPath),
    /// A new remote folder for this directory, and what happens where the name is taken.
    CreateRemote(LocalPath, Taken),
    /// A new local directory, and what stands there then.
    CreateLocal(LocalPath),
    /// This record is kept, in place of an older one of the path.
    Keep(FileMetadata),
    /// The record of this path is dropped.
    Forget(LocalPath),
    /// This transfer is queued.
    Queue(Transfer),
    /// The local entries of this directory.
    ScanLocal(LocalPath),
    /// All records of the drive, the paths that the user excludes, and the active transfers.
    Inspect,
    /// The check of this path.
    CheckPath(LocalPath),
    /// What stands at this path now.
    Look(LocalPath),
    /// The file at the first path is moved to the second, and the user is told this.
    MoveAside(LocalPath, LocalPath, String),
    /// What stands at this path now, and where it is a directory whether it holds anything.
    LookLocal(LocalPath, bool),
    /// What the server has for this path now.
    LookRemote(LocalPath),
    /// Whether the remote folder that belongs to this path holds anything now.
    LookInside(LocalPath),
    /// The local entry is removed.
    RemoveLocal(LocalPath, Removal),
    /// The remote entry is removed in this way.
    RemoveRemote(LocalPath, Disposal),
    /// Everything is done.
    Finished,
    /// The reconciliation stops.
    Failed(SyncError),
}

/// What a reconciliation asks for, by its values.
pub enum SyncAskView {
    ListRemote(Seq<Seq<char>>),
    ReadDirectory(Seq<Seq<char>>),
    CreateRemote(Seq<Seq<char>>, Taken),
    CreateLocal(Seq<Seq<char>>),
    Keep(FileMetadataView),
    Forget(Seq<Seq<char>>),
    Queue(TransferView),
    ScanLocal(Seq<Seq<char>>),
    Inspect,
    CheckPath(Seq<Seq<char>>),
    Look(Seq<Seq<char>>),
    MoveAside(Seq<Seq<char>>, Seq<Seq<char>>, Seq<char>),
    LookLocal(Seq<Seq<char>>, bool),
    LookRemote(Seq<Seq<char>>),
    LookInside(Seq<Seq<char>>),
    RemoveLocal(Seq<Seq<char>>, Removal),
    RemoveRemote(Seq<Seq<char>>, Disposal),
    Finished,
    Failed(SyncErrorView),
}

impl View for SyncAsk {
    type V = SyncAskView;

    open spec fn view(&self) -> SyncAskView {
        match *self {
            SyncAsk::ListRemote(path) => SyncAskView::ListRemote(path@),
            SyncAsk::ReadDirectory(path) => SyncAskView::ReadDirectory(path@),
            SyncAsk::CreateRemote(path, taken) => SyncAskView::CreateRemote(path@, taken),
            SyncAsk::CreateLocal(path) => SyncAskView::CreateLocal(path@),
            SyncAsk::Keep(record) => SyncAskView::Keep(record@),
            SyncAsk::Forget(path) => SyncAskView::Forget(path@),
            SyncAsk::Queue(transfer) => SyncAskView::Queue(transfer@),
            SyncAsk::ScanLocal(path) => SyncAskView::ScanLocal(path@),
            SyncAsk::Inspect => SyncAskView::Inspect,
            SyncAsk::CheckPath(path) => SyncAskView::CheckPath(path@),
            SyncAsk::Look(path) => SyncAskView::Look(path@),
            SyncAsk::MoveAside(path, copy, notice) => SyncAskView::MoveAside(path@, copy@, notice@),
            SyncAsk::LookLocal(path, directory) => SyncAskView::LookLocal(path@, directory),
            SyncAsk::LookRemote(path) => SyncAskView::LookRemote(path@),
            SyncAsk::LookInside(path) => SyncAskView::LookInside(path@),
            SyncAsk::RemoveLocal(path, removal) => SyncAskView::RemoveLocal(path@, removal),
            SyncAsk::RemoveRemote(path, disposal) => SyncAskView::RemoveRemote(path@, disposal),
            SyncAsk::Finished => SyncAskView::Finished,
            SyncAsk::Failed(error) => SyncAskView::Failed(error@),
        }
    }
}

/// What is known of a directory beside its remote listing.
#[derive(Debug)]
pub struct DirectoryState {
    /// The check of the directory itself.
    pub checked: Result<(), PathError>,
    /// Whether it is there.
    pub present: bool,
    /// Its local entries; none where it is gone.
    pub entries: Vec<LocalEntry>,
    /// The records of its children.
    pub records: PathMap<FileMetadata>,
    /// The paths of transfers under way.
    pub active: PathMap<()>,
}

/// What is known of the whole drive beside both trees.
#[derive(Debug)]
pub struct DriveState {
    /// The records.
    pub records: PathMap<FileMetadata>,
    /// The paths that the user excludes, among those of both trees and of the records.
    pub ignored: PathMap<()>,
    /// The paths of transfers under way.
    pub active: PathMap<()>,
}

/// What the caller of a reconciliation answers.
#[derive(Debug)]
pub enum SyncAnswer {
    /// It is done.
    Done,
    /// A page of a remote listing, and whether there are more.
    Page(Vec<RemoteEntry>, bool),
    /// The state of a directory.
    Directory(DirectoryState),
    /// The folder that was created.
    Created(FileResponse),
    /// The entries of a local directory.
    Entries(Vec<LocalEntry>),
    /// The state of the drive.
    Drive(DriveState),
    /// The outcome of the check of a path.
    Checked(Result<(), PathError>),
    /// What stands at a path.
    Scanned(Result<Option<Fingerprint>, LocalError>),
    /// What stands at a path, and whether it holds anything.
    Local(Result<Option<Fingerprint>, LocalError>, bool),
    /// What the server has.
    Remote(FileResponse),
    /// Whether a remote folder holds anything.
    Inside(bool),
}

/// What a visit that has begun to take effect waits for.
#[derive(Debug, Clone, Copy, PartialEq, Eq, Structural)]
pub enum Work {
    /// A remote folder.
    Creating,
    /// A local directory.
    Making,
    /// The move of the local version; then the remote one is fetched or not.
    Moving(bool),
    /// That the record is dropped; then the remote version is fetched or not.
    Forgetting(bool),
    /// The last thing that was asked for.
    Ending,
}

/// How the effect of a visit goes on.
#[derive(Debug)]
pub enum WorkTurn {
    /// Something is asked for.
    Asks(Work, SyncAsk),
    /// Nothing is left to do.
    Complete,
    /// The reconciliation stops.
    Fails(SyncError),
}

/// How the effect of a visit goes on, by its values.
pub enum WorkTurnView {
    Asks(Work, SyncAskView),
    Complete,
    Fails(SyncErrorView),
}

impl View for WorkTurn {
    type V = WorkTurnView;

    open spec fn view(&self) -> WorkTurnView {
        match *self {
            WorkTurn::Asks(work, ask) => WorkTurnView::Asks(work, ask@),
            WorkTurn::Complete => WorkTurnView::Complete,
            WorkTurn::Fails(error) => WorkTurnView::Fails(error@),
        }
    }
}

/// How the effect of a visit begins. Both versions of a file are kept in another way, after a look
/// at the local one.
pub open spec fn work_begun(visit: VisitView, effect: EffectView, drive: u128) -> WorkTurnView {
    match effect {
        EffectView::Nothing => WorkTurnView::Complete,
        EffectView::Record => match visit.remote {
            Some(file) => WorkTurnView::Asks(
                Work::Ending,
                SyncAskView::Keep(metadata_view(file, visit.path, drive, visit.local)),
            ),
            None => WorkTurnView::Fails(SyncErrorView::MisplacedAnswer),
        },
        EffectView::Forget => WorkTurnView::Asks(Work::Ending, SyncAskView::Forget(visit.path)),
        EffectView::CreateRemoteFolder => WorkTurnView::Asks(
            Work::Creating,
            SyncAskView::CreateRemote(visit.path, Taken::Refuse),
        ),
        EffectView::CreateLocalFolder => WorkTurnView::Asks(
            Work::Making,
            SyncAskView::CreateLocal(visit.path),
        ),
        EffectView::Transfer(transfer) => WorkTurnView::Asks(
            Work::Ending,
            SyncAskView::Queue(transfer),
        ),
        EffectView::KeepBoth => WorkTurnView::Fails(SyncErrorView::MisplacedAnswer),
    }
}

/// Begins the effect of a visit.
pub fn begin_work(visit: &Visit, effect: Effect, drive: u128) -> (turn: WorkTurn)
    ensures
        turn@ == work_begun(visit@, effect@, drive),
{
    match effect {
        Effect::Nothing => WorkTurn::Complete,
        Effect::Record => match &visit.remote {
            Some(file) => WorkTurn::Asks(
                Work::Ending,
                SyncAsk::Keep(metadata(file, &visit.path, drive, visit.local.as_ref())),
            ),
            None => WorkTurn::Fails(SyncError::MisplacedAnswer),
        },
        Effect::Forget => WorkTurn::Asks(Work::Ending, SyncAsk::Forget(visit.path.duplicate())),
        Effect::CreateRemoteFolder => WorkTurn::Asks(
            Work::Creating,
            SyncAsk::CreateRemote(visit.path.duplicate(), Taken::Refuse),
        ),
        Effect::CreateLocalFolder => WorkTurn::Asks(
            Work::Making,
            SyncAsk::CreateLocal(visit.path.duplicate()),
        ),
        Effect::Transfer(transfer) => WorkTurn::Asks(Work::Ending, SyncAsk::Queue(transfer)),
        Effect::KeepBoth => WorkTurn::Fails(SyncError::MisplacedAnswer),
    }
}

/// What the effect of a visit can be answered: that it is done, a folder, or what stands at a
/// path.
pub enum WorkAnswerView {
    Done,
    Created(FileView),
    Scanned(ScanView),
    Other,
}

/// An answer as the effect of a visit sees it.
pub open spec fn work_answer(answer: SyncAnswer) -> WorkAnswerView {
    match answer {
        SyncAnswer::Done => WorkAnswerView::Done,
        SyncAnswer::Created(file) => WorkAnswerView::Created(file@),
        SyncAnswer::Scanned(scanned) => WorkAnswerView::Scanned(scan_view(scanned)),
        _ => WorkAnswerView::Other,
    }
}

/// How the effect of a visit goes on after an answer.
pub open spec fn work_continued(
    visit: VisitView,
    drive: u128,
    work: Work,
    answer: WorkAnswerView,
) -> WorkTurnView {
    match (work, answer) {
        (Work::Creating, WorkAnswerView::Created(file)) => WorkTurnView::Asks(
            Work::Ending,
            SyncAskView::Keep(metadata_view(file, visit.path, drive, visit.local)),
        ),
        (Work::Making, WorkAnswerView::Scanned(Ok(print))) => match visit.remote {
            Some(file) => WorkTurnView::Asks(
                Work::Ending,
                SyncAskView::Keep(metadata_view(file, visit.path, drive, print)),
            ),
            None => WorkTurnView::Fails(SyncErrorView::MisplacedAnswer),
        },
        (Work::Making, WorkAnswerView::Scanned(Err(error))) => WorkTurnView::Fails(
            SyncErrorView::Local(error),
        ),
        (Work::Moving(fetch), WorkAnswerView::Done) => WorkTurnView::Asks(
            Work::Forgetting(fetch),
            SyncAskView::Forget(visit.path),
        ),
        (Work::Forgetting(true), WorkAnswerView::Done) => WorkTurnView::Asks(
            Work::Ending,
            SyncAskView::Queue(fetched(visit.path)),
        ),
        (Work::Forgetting(false), WorkAnswerView::Done) => WorkTurnView::Complete,
        (Work::Ending, WorkAnswerView::Done) => WorkTurnView::Complete,
        _ => WorkTurnView::Fails(SyncErrorView::MisplacedAnswer),
    }
}

/// Goes on with the effect of a visit after an answer.
pub fn continue_work(visit: &Visit, drive: u128, work: Work, answer: &SyncAnswer) -> (turn: WorkTurn)
    ensures
        turn@ == work_continued(visit@, drive, work, work_answer(*answer)),
{
    match (work, answer) {
        (Work::Creating, SyncAnswer::Created(file)) => WorkTurn::Asks(
            Work::Ending,
            SyncAsk::Keep(metadata(file, &visit.path, drive, visit.local.as_ref())),
        ),
        (Work::Making, SyncAnswer::Scanned(Ok(print))) => match &visit.remote {
            Some(file) => WorkTurn::Asks(
                Work::Ending,
                SyncAsk::Keep(metadata(file, &visit.path, drive, print.as_ref())),
            ),
            None => WorkTurn::Fails(SyncError::MisplacedAnswer),
        },
        (Work::Making, SyncAnswer::Scanned(Err(error))) => WorkTurn::Fails(
            SyncError::Local(error.duplicate()),
        ),
        (Work::Moving(fetch), SyncAnswer::Done) => WorkTurn::Asks(
            Work::Forgetting(fetch),
            SyncAsk::Forget(visit.path.duplicate()),
        ),
        (Work::Forgetting(wanted), SyncAnswer::Done) => if wanted {
            WorkTurn::Asks(
                Work::Ending,
                SyncAsk::Queue(fetch(&visit.path)),
            )
        } else {
            WorkTurn::Complete
        },
        (Work::Ending, SyncAnswer::Done) => WorkTurn::Complete,
        _ => WorkTurn::Fails(SyncError::MisplacedAnswer),
    }
}

} // verus!
