//! What is done about a single path, given both sides and the record of the last synchronization.
use crate::agenda::effect_of;
use crate::local_file::{
    baseline, baseline_view, copy_print, Fingerprint, FingerprintView, metadata_view, opt_print,
    opt_print_ref,
};
use crate::path::LocalPath;
use crate::records::{FileMetadata, FileMetadataView, FileResponse, FileView};
use crate::sync::{Action, changed, decide, decision, internal_name, is_internal, remote_differs};
use vstd::prelude::*;

verus! {

/// What is done about a path.
#[derive(Debug, Clone, Copy, PartialEq, Eq, Structural)]
pub enum Step {
    /// The path is left alone: it is excluded, or a transfer of it is under way.
    Skip,
    /// Both sides are as they were last synchronized.
    Nothing,
    /// Both sides are directories, of which only a record is made.
    Record,
    /// Both sides are gone, and the record goes too.
    Forget,
    /// A folder is created remotely and recorded.
    CreateRemoteFolder,
    /// A transfer to the server is queued.
    Upload,
    /// A folder is created locally and recorded.
    CreateLocalFolder,
    /// A transfer from the server is queued.
    Download,
    /// The local entry is to be deleted once everything else is done.
    DeleteLocal,
    /// The remote entry is to be deleted once everything else is done.
    DeleteRemote,
    /// The reconciliation stops: one side is a file and the other a directory.
    TypeConflict,
    /// The reconciliation stops: a directory is in conflict.
    DirectoryConflict,
    /// The local version is kept under another name, and the remote one fetched.
    KeepBoth,
}

/// A remote file, if there is one, by its values.
pub open spec fn opt_file(file: Option<&FileResponse>) -> Option<FileView> {
    match file {
        Some(file) => Some(file@),
        None => None,
    }
}

/// A record, if there is one, by its values.
pub open spec fn opt_record(record: Option<&FileMetadata>) -> Option<FileMetadataView> {
    match record {
        Some(record) => Some(record@),
        None => None,
    }
}

/// The local content at the last synchronization, if there is a record of it.
pub open spec fn recorded_print(record: Option<FileMetadataView>) -> Option<FingerprintView> {
    match record {
        Some(record) => baseline_view(record),
        None => None,
    }
}

/// Whether the local side is a directory.
pub open spec fn is_local_folder(local: Option<FingerprintView>) -> bool {
    local is Some && local->0.directory
}

/// Whether the remote side is a folder.
pub open spec fn is_remote_folder(remote: Option<FileView>) -> bool {
    remote is Some && remote->0.is_folder
}

/// Whether one side is a file and the other a directory.
pub open spec fn types_differ(local: Option<FingerprintView>, remote: Option<FileView>) -> bool {
    local is Some && remote is Some && local->0.directory != remote->0.is_folder
}

/// Whether the reconciliation stops at a step.
pub open spec fn is_stop(step: Step) -> bool {
    step == Step::TypeConflict || step == Step::DirectoryConflict
}

/// What is done about a path that is `local` on the one side and `remote` on the other.
pub open spec fn chosen_step(
    local: Option<FingerprintView>,
    remote: Option<FileView>,
    record: Option<FileMetadataView>,
) -> Step {
    let differs = remote is Some && record is Some && remote_differs(remote->0, record->0);
    if is_local_folder(local) && is_remote_folder(remote) {
        Step::Record
    } else {
        match decision(local, remote is Some, recorded_print(record), differs) {
            Action::Conflict => if is_local_folder(local) || is_remote_folder(remote) {
                Step::DirectoryConflict
            } else {
                Step::KeepBoth
            },
            _ if types_differ(local, remote) => Step::TypeConflict,
            Action::Nothing => Step::Nothing,
            Action::Forget => Step::Forget,
            Action::Upload => if is_local_folder(local) {
                Step::CreateRemoteFolder
            } else {
                Step::Upload
            },
            Action::Download => if is_remote_folder(remote) {
                Step::CreateLocalFolder
            } else {
                Step::Download
            },
            Action::DeleteLocal => Step::DeleteLocal,
            Action::DeleteRemote => Step::DeleteRemote,
        }
    }
}

/// What is done about a path that is `local` on the one side and `remote` on the other.
pub fn choose_step(
    local: Option<&Fingerprint>,
    remote: Option<&FileResponse>,
    record: Option<&FileMetadata>,
) -> (step: Step)
    ensures
        step == chosen_step(opt_print_ref(local), opt_file(remote), opt_record(record)),
{
    let local_folder = match local {
        Some(print) => print.directory,
        None => false,
    };
    let remote_folder = match remote {
        Some(file) => file.is_folder,
        None => false,
    };
    if local_folder && remote_folder {
        return Step::Record;
    }
    let base = match record {
        Some(record) => baseline(record),
        None => None,
    };
    let differs = match (remote, record) {
        (Some(file), Some(record)) => changed(file, record),
        _ => false,
    };
    let mismatch = local.is_some() && remote.is_some() && local_folder != remote_folder;
    match decide(local, remote.is_some(), base.as_ref(), differs) {
        Action::Conflict => if local_folder || remote_folder {
            Step::DirectoryConflict
        } else {
            Step::KeepBoth
        },
        _ if mismatch => Step::TypeConflict,
        Action::Nothing => Step::Nothing,
        Action::Forget => Step::Forget,
        Action::Upload => if local_folder {
            Step::CreateRemoteFolder
        } else {
            Step::Upload
        },
        Action::Download => if remote_folder {
            Step::CreateLocalFolder
        } else {
            Step::Download
        },
        Action::DeleteLocal => Step::DeleteLocal,
        Action::DeleteRemote => Step::DeleteRemote,
    }
}

/// Whether a component of a path is a name that is never synchronized.
pub open spec fn hidden(path: Seq<Seq<char>>) -> bool {
    exists|i: int| 0 <= i < path.len() && is_internal(#[trigger] path[i])
}

/// Whether a component of a path is a name that is never synchronized.
pub fn is_hidden(path: &LocalPath) -> (yes: bool)
    ensures
        yes == hidden(path@),
{
    let mut i: usize = 0;
    while i < path.components.len()
        invariant
            i <= path.components.len(),
            forall|j: int| 0 <= j < i ==> !is_internal(#[trigger] path@[j]),
        decreases path.components.len() - i,
    {
        let component = path.components[i].as_str();
        assert(component@ == path@[i as int]);
        if internal_name(component) {
            return true;
        }
        i += 1;
    }
    false
}

/// Whether a step moves content or creates a folder, or stops before doing so.
pub open spec fn is_transfer(step: Step) -> bool {
    step == Step::Upload || step == Step::Download || step == Step::CreateRemoteFolder || step
        == Step::CreateLocalFolder || step == Step::TypeConflict
}

/// What is done about a path when only its own directory is known completely: transfers alone.
/// `active` tells whether a transfer of it is under way.
pub open spec fn early_step(
    active: bool,
    local: Option<FingerprintView>,
    remote: Option<FileView>,
    record: Option<FileMetadataView>,
) -> Step {
    let step = chosen_step(local, remote, record);
    if !active && is_transfer(step) {
        step
    } else {
        Step::Skip
    }
}

/// What is done about a path when both trees are known completely. `ignored` tells whether the
/// user excludes it, `active` whether a transfer of it is under way.
pub open spec fn full_step(
    path: Seq<Seq<char>>,
    ignored: bool,
    active: bool,
    local: Option<FingerprintView>,
    remote: Option<FileView>,
    record: Option<FileMetadataView>,
) -> Step {
    if ignored || hidden(path) || active {
        Step::Skip
    } else {
        chosen_step(local, remote, record)
    }
}

/// A path with what is done about it, and with both sides as they were scanned.
#[derive(Debug, Clone, PartialEq, Eq)]
pub struct Visit {
    pub path: LocalPath,
    pub step: Step,
    pub local: Option<Fingerprint>,
    pub remote: Option<FileResponse>,
}

/// A visit by its values.
pub struct VisitView {
    pub path: Seq<Seq<char>>,
    pub step: Step,
    pub local: Option<FingerprintView>,
    pub remote: Option<FileView>,
}

impl View for Visit {
    type V = VisitView;

    open spec fn view(&self) -> VisitView {
        VisitView {
            path: self.path@,
            step: self.step,
            local: opt_print(self.local),
            remote: match self.remote {
                Some(file) => Some(file@),
                None => None,
            },
        }
    }
}

impl Visit {
    /// The visit of `path` with `step`.
    pub fn new(
        path: &LocalPath,
        step: Step,
        local: Option<&Fingerprint>,
        remote: Option<&FileResponse>,
    ) -> (visit: Visit)
        ensures
            visit@ == (VisitView {
                path: path@,
                step,
                local: opt_print_ref(local),
                remote: opt_file(remote),
            }),
    {
        Visit {
            path: path.duplicate(),
            step,
            local: copy_print(local),
            remote: match remote {
                Some(file) => Some(file.duplicate()),
                None => None,
            },
        }
    }
}

/// A transfer that is queued: it goes ahead only while the local content is as expected.
#[derive(Debug, Clone, PartialEq, Eq)]
pub struct Transfer {
    pub upload: bool,
    pub path: LocalPath,
    pub expected: Option<Fingerprint>,
}

/// A transfer by its values.
pub struct TransferView {
    pub upload: bool,
    pub path: Seq<Seq<char>>,
    pub expected: Option<FingerprintView>,
}

impl View for Transfer {
    type V = TransferView;

    open spec fn view(&self) -> TransferView {
        TransferView {
            upload: self.upload,
            path: self.path@,
            expected: opt_print(self.expected),
        }
    }
}

/// The transfer that fetches the remote version to a path where nothing must stand.
pub open spec fn fetched(path: Seq<Seq<char>>) -> TransferView {
    TransferView { upload: false, path, expected: None }
}

/// The transfer that fetches the remote version to a path where nothing must stand.
pub fn fetch(path: &LocalPath) -> (transfer: Transfer)
    ensures
        transfer@ == fetched(path@),
{
    Transfer { upload: false, path: path.duplicate(), expected: None }
}

/// The transfer that a visit asks for: content that was scanned must still be there when it
/// begins, and where the local version was moved away nothing must be.
pub open spec fn asked_transfer(visit: VisitView) -> Option<TransferView> {
    match visit.step {
        Step::Upload => Some(
            TransferView { upload: true, path: visit.path, expected: visit.local },
        ),
        Step::Download => Some(
            TransferView { upload: false, path: visit.path, expected: visit.local },
        ),
        Step::KeepBoth => if visit.remote is Some {
            Some(fetched(visit.path))
        } else {
            None
        },
        _ => None,
    }
}

/// The transfer that a visit asks for, if it asks for one.
pub fn queue_transfer(visit: &Visit) -> (transfer: Option<Transfer>)
    ensures
        match transfer {
            Some(transfer) => asked_transfer(visit@) == Some(transfer@),
            None => asked_transfer(visit@) is None,
        },
{
    match visit.step {
        Step::Upload => Some(
            Transfer {
                upload: true,
                path: visit.path.duplicate(),
                expected: copy_print(visit.local.as_ref()),
            },
        ),
        Step::Download => Some(
            Transfer {
                upload: false,
                path: visit.path.duplicate(),
                expected: copy_print(visit.local.as_ref()),
            },
        ),
        Step::KeepBoth => if visit.remote.is_some() {
            Some(fetch(&visit.path))
        } else {
            None
        },
        _ => None,
    }
}

/// Before both trees are known completely, nothing is deleted, forgotten or moved away.
pub proof fn lemma_early_steps_keep_everything(
    active: bool,
    local: Option<FingerprintView>,
    remote: Option<FileView>,
    record: Option<FileMetadataView>,
)
    ensures
        ({
            let step = early_step(active, local, remote, record);
            &&& step != Step::DeleteLocal
            &&& step != Step::DeleteRemote
            &&& step != Step::Forget
            &&& step != Step::KeepBoth
        }),
{
}

/// A queued transfer always expects the local content that the decision was made for, or none
/// where that content was moved away: an upload expects what was scanned, and a download never
/// expects content that differs from the last synchronization.
pub proof fn lemma_transfers_expect_what_was_scanned(
    path: Seq<Seq<char>>,
    local: Option<FingerprintView>,
    remote: Option<FileView>,
    record: Option<FileMetadataView>,
)
    ensures
        ({
            let visit = VisitView {
                path,
                step: chosen_step(local, remote, record),
                local,
                remote,
            };
            match asked_transfer(visit) {
                Some(transfer) => transfer.path == path && if transfer.upload {
                    local is Some && !local->0.directory && transfer.expected == local
                } else {
                    &&& remote is Some && !remote->0.is_folder
                    &&& transfer.expected is None || (transfer.expected == local
                        && recorded_print(record) == local)
                    &&& transfer.expected is None && local is Some ==> visit.step == Step::KeepBoth
                },
                None => true,
            }
        }),
{
}

/// Simultaneous edits of a file, and a first sight of the file on both sides, keep the local
/// version and fetch the remote one.
pub proof fn lemma_simultaneous_edits_keep_both(
    local: FingerprintView,
    remote: FileView,
    record: Option<FileMetadataView>,
)
    requires
        !local.directory,
        !remote.is_folder,
        record is None || (recorded_print(record) != Some(local) && remote_differs(
            remote,
            record->0,
        )),
    ensures
        chosen_step(Some(local), Some(remote), record) == Step::KeepBoth,
        asked_transfer(
            VisitView {
                path: Seq::empty(),
                step: Step::KeepBoth,
                local: Some(local),
                remote: Some(remote),
            },
        ) is Some,
{
}

/// A file on one side and a directory on the other stop the reconciliation, whatever was recorded:
/// nothing is transferred, created or deleted for the path.
pub proof fn lemma_type_conflicts_stop(
    local: FingerprintView,
    remote: FileView,
    record: Option<FileMetadataView>,
)
    requires
        local.directory != remote.is_folder,
    ensures
        is_stop(chosen_step(Some(local), Some(remote), record)),
        forall|path: Seq<Seq<char>>| #[trigger]
            effect_of(
                VisitView {
                    path,
                    step: chosen_step(Some(local), Some(remote), record),
                    local: Some(local),
                    remote: Some(remote),
                },
                None,
            ) is Err,
{
}

/// Where no fingerprint was recorded at a last synchronization, nothing is deleted on either side:
/// the records of other platforms authorize nothing.
pub proof fn lemma_without_baseline_nothing_is_deleted(
    local: Option<FingerprintView>,
    remote: Option<FileView>,
    record: Option<FileMetadataView>,
)
    requires
        recorded_print(record) is None,
    ensures
        chosen_step(local, remote, record) != Step::DeleteLocal,
        chosen_step(local, remote, record) != Step::DeleteRemote,
{
}

/// A file that was renamed locally converges as a creation and a deletion: it is uploaded under the
/// new name, and deleted remotely under the old one.
pub proof fn lemma_renaming_is_creation_and_deletion(
    print: FingerprintView,
    remote: FileView,
    record: FileMetadataView,
)
    requires
        !print.directory,
        recorded_print(Some(record)) == Some(print),
        !remote_differs(remote, record),
    ensures
        chosen_step(Some(print), None, None) == Step::Upload,
        chosen_step(None, Some(remote), Some(record)) == Step::DeleteRemote,
{
}

/// What was just recorded is settled: files are left alone, and folders are only recorded anew.
pub proof fn lemma_recorded_path_is_settled(
    file: FileView,
    path: Seq<Seq<char>>,
    drive_id: u128,
    print: FingerprintView,
)
    requires
        print.directory == file.is_folder,
    ensures
        ({
            let record = metadata_view(file, path, drive_id, Some(print));
            let step = chosen_step(Some(print), Some(file), Some(record));
            step == if file.is_folder {
                Step::Record
            } else {
                Step::Nothing
            }
        }),
{
}

} // verus!
