//! Why a reconciliation stops.
use crate::local_file::{local_error_text, LocalError, LocalErrorView};
use crate::path::{path_error_cause, path_text, LocalPath, PathErrorView};
use crate::text::{holds, lemma_parts_are_held};
use vstd::prelude::*;

verus! {

/// Why a reconciliation stops.
#[derive(Debug, Clone, PartialEq, Eq)]
pub enum SyncError {
    /// The sync root is no directory.
    RootUnavailable,
    /// The drive has no valid identifier, for this reason.
    InvalidDrive(String),
    /// A remote name cannot stand for an entry of a directory.
    UnsafeName,
    /// A local name is no text.
    NotUtf8,
    /// A path is refused, or its content cannot be determined.
    Local(LocalError),
    /// An entry was gone before its content was read.
    Disappeared,
    /// The same path is listed twice.
    Duplicate,
    /// Two different paths differ only in case or normalization.
    Collision(LocalPath, LocalPath),
    /// The remote folder is gone, but something below the local one is not as it was synchronized.
    RemoteFolderGone(LocalPath),
    /// The local folder is gone, but something below the remote one is not as it was synchronized.
    LocalFolderGone(LocalPath),
    /// A file stands on one side, and a directory on the other.
    TypeConflict(LocalPath),
    /// Both sides changed, and one of them is a directory.
    DirectoryConflict(LocalPath),
    /// A path in conflict ends in no name.
    MissingFilename,
    /// The local file changed after it was scanned.
    ChangedDuringReconciliation,
    /// The local file that was to be deleted changed.
    ChangedBeforeDeletion,
    /// The local file whose remote file was to be deleted is back.
    ReappearedBeforeDeletion,
    /// The remote file that was to be deleted changed.
    RemoteChangedBeforeDeletion,
    /// An answer does not belong to what was asked for.
    MisplacedAnswer,
}

/// Why a reconciliation stops, with paths by their components.
pub enum SyncErrorView {
    RootUnavailable,
    InvalidDrive(Seq<char>),
    UnsafeName,
    NotUtf8,
    Local(LocalErrorView),
    Disappeared,
    Duplicate,
    Collision(Seq<Seq<char>>, Seq<Seq<char>>),
    RemoteFolderGone(Seq<Seq<char>>),
    LocalFolderGone(Seq<Seq<char>>),
    TypeConflict(Seq<Seq<char>>),
    DirectoryConflict(Seq<Seq<char>>),
    MissingFilename,
    ChangedDuringReconciliation,
    ChangedBeforeDeletion,
    ReappearedBeforeDeletion,
    RemoteChangedBeforeDeletion,
    MisplacedAnswer,
}

impl View for SyncError {
    type V = SyncErrorView;

    open spec fn view(&self) -> SyncErrorView {
        match *self {
            SyncError::RootUnavailable => SyncErrorView::RootUnavailable,
            SyncError::InvalidDrive(words) => SyncErrorView::InvalidDrive(words@),
            SyncError::UnsafeName => SyncErrorView::UnsafeName,
            SyncError::NotUtf8 => SyncErrorView::NotUtf8,
            SyncError::Local(error) => SyncErrorView::Local(error@),
            SyncError::Disappeared => SyncErrorView::Disappeared,
            SyncError::Duplicate => SyncErrorView::Duplicate,
            SyncError::Collision(a, b) => SyncErrorView::Collision(a@, b@),
            SyncError::RemoteFolderGone(at) => SyncErrorView::RemoteFolderGone(at@),
            SyncError::LocalFolderGone(at) => SyncErrorView::LocalFolderGone(at@),
            SyncError::TypeConflict(at) => SyncErrorView::TypeConflict(at@),
            SyncError::DirectoryConflict(at) => SyncErrorView::DirectoryConflict(at@),
            SyncError::MissingFilename => SyncErrorView::MissingFilename,
            SyncError::ChangedDuringReconciliation => SyncErrorView::ChangedDuringReconciliation,
            SyncError::ChangedBeforeDeletion => SyncErrorView::ChangedBeforeDeletion,
            SyncError::ReappearedBeforeDeletion => SyncErrorView::ReappearedBeforeDeletion,
            SyncError::RemoteChangedBeforeDeletion => SyncErrorView::RemoteChangedBeforeDeletion,
            SyncError::MisplacedAnswer => SyncErrorView::MisplacedAnswer,
        }
    }
}

/// The text that tells why a reconciliation stopped.
pub open spec fn sync_error_text(error: SyncErrorView) -> Seq<char> {
    match error {
        SyncErrorView::RootUnavailable => "Sync root is unavailable"@,
        SyncErrorView::InvalidDrive(words) => words,
        SyncErrorView::UnsafeName => "Unsafe remote filename"@,
        SyncErrorView::NotUtf8 => "Non-UTF8 filename"@,
        SyncErrorView::Local(error) => local_error_text(error),
        SyncErrorView::Disappeared => "File disappeared during scan; retrying later"@,
        SyncErrorView::Duplicate => "Duplicate remote listing entry"@,
        SyncErrorView::Collision(a, b) => "Filename collision: "@ + path_text(a) + " and "@
            + path_text(b),
        SyncErrorView::RemoteFolderGone(at) =>
            "Remote folder was deleted but local children changed: "@ + path_text(at)
            + "; move the local folder to a new name to preserve it"@,
        SyncErrorView::LocalFolderGone(at) =>
            "Local folder was deleted but remote children changed: "@ + path_text(at)
            + "; restore the local folder or resolve the cloud folder manually"@,
        SyncErrorView::TypeConflict(at) => "File/directory conflict: "@ + path_text(at),
        SyncErrorView::DirectoryConflict(at) => "Directory conflict at "@ + path_text(at)
            + "; no content was removed"@,
        SyncErrorView::MissingFilename => "Missing filename"@,
        SyncErrorView::ChangedDuringReconciliation => "File changed during reconciliation"@,
        SyncErrorView::ChangedBeforeDeletion => "Local file changed before deletion"@,
        SyncErrorView::ReappearedBeforeDeletion => "Local file reappeared before deletion"@,
        SyncErrorView::RemoteChangedBeforeDeletion => "Remote file changed before deletion"@,
        SyncErrorView::MisplacedAnswer => "misplaced answer"@,
    }
}

/// What lies behind a stop, where there is more to tell.
pub open spec fn sync_error_cause(error: SyncErrorView) -> Option<Seq<char>> {
    match error {
        SyncErrorView::Local(LocalErrorView::Path(error)) => path_error_cause(error),
        _ => None,
    }
}

impl SyncError {
    /// What lies behind the error, where there is more to tell.
    pub fn cause(&self) -> (text: Option<&'static str>)
        ensures
            match text {
                Some(text) => sync_error_cause(self@) == Some(text@),
                None => sync_error_cause(self@) is None,
            },
    {
        match self {
            SyncError::Local(LocalError::Path(error)) => error.cause(),
            _ => None,
        }
    }

    /// The text that tells of the error.
    pub fn message(&self) -> (text: String)
        ensures
            text@ == sync_error_text(self@),
    {
        match self {
            SyncError::RootUnavailable => "Sync root is unavailable".to_owned(),
            SyncError::InvalidDrive(words) => words.clone(),
            SyncError::UnsafeName => "Unsafe remote filename".to_owned(),
            SyncError::NotUtf8 => "Non-UTF8 filename".to_owned(),
            SyncError::Local(error) => error.message(),
            SyncError::Disappeared => "File disappeared during scan; retrying later".to_owned(),
            SyncError::Duplicate => "Duplicate remote listing entry".to_owned(),
            SyncError::Collision(a, b) => "Filename collision: ".to_owned().concat(
                a.text().as_str(),
            ).concat(" and ").concat(b.text().as_str()),
            SyncError::RemoteFolderGone(
                at,
            ) => "Remote folder was deleted but local children changed: ".to_owned().concat(
                at.text().as_str(),
            ).concat("; move the local folder to a new name to preserve it"),
            SyncError::LocalFolderGone(
                at,
            ) => "Local folder was deleted but remote children changed: ".to_owned().concat(
                at.text().as_str(),
            ).concat("; restore the local folder or resolve the cloud folder manually"),
            SyncError::TypeConflict(at) => "File/directory conflict: ".to_owned().concat(
                at.text().as_str(),
            ),
            SyncError::DirectoryConflict(at) => "Directory conflict at ".to_owned().concat(
                at.text().as_str(),
            ).concat("; no content was removed"),
            SyncError::MissingFilename => "Missing filename".to_owned(),
            SyncError::ChangedDuringReconciliation => "File changed during reconciliation".to_owned(),
            SyncError::ChangedBeforeDeletion => "Local file changed before deletion".to_owned(),
            SyncError::ReappearedBeforeDeletion => "Local file reappeared before deletion".to_owned(),
            SyncError::RemoteChangedBeforeDeletion => "Remote file changed before deletion".to_owned(),
            SyncError::MisplacedAnswer => "misplaced answer".to_owned(),
        }
    }
}

/// Whoever is told of a stop is told where it happened, and in the words of the system where the
/// reason is its own.
pub proof fn lemma_stops_tell_where(error: SyncErrorView)
    ensures
        match error {
            SyncErrorView::Collision(a, b) => holds(sync_error_text(error), path_text(a)) && holds(
                sync_error_text(error),
                path_text(b),
            ),
            SyncErrorView::RemoteFolderGone(at) | SyncErrorView::LocalFolderGone(at) => holds(
                sync_error_text(error),
                path_text(at),
            ),
            SyncErrorView::TypeConflict(at) | SyncErrorView::DirectoryConflict(at) => holds(
                sync_error_text(error),
                path_text(at),
            ),
            SyncErrorView::Local(LocalErrorView::Unsupported(at)) => holds(
                sync_error_text(error),
                path_text(at),
            ),
            SyncErrorView::Local(LocalErrorView::Path(PathErrorView::Symlink(at))) => holds(
                sync_error_text(error),
                path_text(at),
            ),
            SyncErrorView::Local(LocalErrorView::Unreadable(words)) => sync_error_text(error)
                == words,
            SyncErrorView::Local(LocalErrorView::Path(PathErrorView::Unreadable(words))) =>
                sync_error_text(error) == words,
            SyncErrorView::InvalidDrive(words) => sync_error_text(error) == words,
            _ => true,
        },
{
    let none = Seq::<char>::empty();
    match error {
        SyncErrorView::Collision(a, b) => {
            let start = "Filename collision: "@;
            lemma_parts_are_held(start, path_text(a), " and "@ + path_text(b));
            assert(sync_error_text(error) =~= start + path_text(a) + (" and "@ + path_text(b)));
            lemma_parts_are_held(start + path_text(a) + " and "@, path_text(b), none);
        },
        SyncErrorView::RemoteFolderGone(at) => lemma_parts_are_held(
            "Remote folder was deleted but local children changed: "@,
            path_text(at),
            "; move the local folder to a new name to preserve it"@,
        ),
        SyncErrorView::LocalFolderGone(at) => lemma_parts_are_held(
            "Local folder was deleted but remote children changed: "@,
            path_text(at),
            "; restore the local folder or resolve the cloud folder manually"@,
        ),
        SyncErrorView::TypeConflict(at) => lemma_parts_are_held(
            "File/directory conflict: "@,
            path_text(at),
            none,
        ),
        SyncErrorView::DirectoryConflict(at) => lemma_parts_are_held(
            "Directory conflict at "@,
            path_text(at),
            "; no content was removed"@,
        ),
        SyncErrorView::Local(LocalErrorView::Unsupported(at)) => lemma_parts_are_held(
            "Only regular files and directories can sync: "@,
            path_text(at),
            none,
        ),
        SyncErrorView::Local(LocalErrorView::Path(PathErrorView::Symlink(at))) => {
            lemma_parts_are_held("Symlinks are not supported: "@, path_text(at), none);
        },
        _ => {},
    }
}

} // verus!
