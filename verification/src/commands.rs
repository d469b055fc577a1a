//! Decisions on requests of the user interface.
use crate::records::FileMetadata;
use crate::text::same_text;
use vstd::prelude::*;

verus! {

/// What the user wants done about a conflict.
#[derive(Debug, Clone, Copy, PartialEq, Eq, Structural)]
pub enum ConflictAction {
    KeepRemote,
    OverwriteRemote,
    SaveAsNew,
}

/// The name of a conflict action.
pub open spec fn conflict_action_name(action: ConflictAction) -> Seq<char> {
    match action {
        ConflictAction::KeepRemote => "keep_remote"@,
        ConflictAction::OverwriteRemote => "overwrite_remote"@,
        ConflictAction::SaveAsNew => "save_as_new"@,
    }
}

impl ConflictAction {
    /// The action with this name.
    pub fn from_str(action: &str) -> (found: Option<ConflictAction>)
        ensures
            match found {
                Some(found) => action@ == conflict_action_name(found),
                None => forall|known: ConflictAction| action@ != #[trigger] conflict_action_name(known),
            },
            forall|known: ConflictAction| action@ == #[trigger] conflict_action_name(known) ==> found
                == Some(known),
    {
        proof {
            reveal_strlit("keep_remote");
            reveal_strlit("overwrite_remote");
            reveal_strlit("save_as_new");
            assert("keep_remote"@[0] == 'k' && "overwrite_remote"@[0] == 'o' && "save_as_new"@[0]
                == 's');
        }
        if same_text(action, "keep_remote") {
            Some(ConflictAction::KeepRemote)
        } else if same_text(action, "overwrite_remote") {
            Some(ConflictAction::OverwriteRemote)
        } else if same_text(action, "save_as_new") {
            Some(ConflictAction::SaveAsNew)
        } else {
            None
        }
    }
}

/// Why there is no thumbnail.
#[derive(Debug, Clone, Copy, PartialEq, Eq, Structural)]
pub enum ThumbnailError {
    /// No record is kept of the path.
    Unknown,
    /// Folders have none, and thumbnails can be switched off for a file.
    Disabled,
    /// The server answered with this status.
    Failed(u16),
}

/// Whether one of the pairs has this key.
pub open spec fn has_key(entries: Seq<(String, String)>, key: Seq<char>) -> bool {
    exists|i: int| 0 <= i < entries.len() && (#[trigger] entries[i]).0@ == key
}

/// Decides whether a thumbnail is asked for, by the record kept of the path; `disabled` is the
/// metadata key that switches thumbnails off.
pub fn thumbnail_request(meta: Option<&FileMetadata>, disabled: &str) -> (outcome: Result<
    (),
    ThumbnailError,
>)
    ensures
        outcome == (match meta {
            None => Err(ThumbnailError::Unknown),
            Some(meta) => if meta.is_folder || has_key(meta.metadata@, disabled@) {
                Err(ThumbnailError::Disabled)
            } else {
                Ok(())
            },
        }),
{
    let record = match meta {
        Some(record) => record,
        None => {
            return Err(ThumbnailError::Unknown);
        },
    };
    if record.is_folder {
        return Err(ThumbnailError::Disabled);
    }
    let mut i: usize = 0;
    while i < record.metadata.len()
        invariant
            meta == Some(record),
            i <= record.metadata.len(),
            forall|k: int| 0 <= k < i ==> (#[trigger] record.metadata@[k]).0@ != disabled@,
        decreases record.metadata.len() - i,
    {
        if same_text(record.metadata[i].0.as_str(), disabled) {
            assert(record.metadata@[i as int].0@ == disabled@);
            return Err(ThumbnailError::Disabled);
        }
        i += 1;
    }
    Ok(())
}

/// Accepts the answer to a request for a thumbnail if its status tells of success.
pub fn thumbnail_answer(status: u16) -> (outcome: Result<(), ThumbnailError>)
    ensures
        outcome == (if 200 <= status < 300 {
            Ok(())
        } else {
            Err(ThumbnailError::Failed(status))
        }),
{
    if 200 <= status && status < 300 {
        Ok(())
    } else {
        Err(ThumbnailError::Failed(status))
    }
}

/// The text that answers every request to resolve a conflict.
pub open spec fn resolve_text() -> Seq<char> {
    "macOS keeps conflicting file content in a separate conflict copy. Resolve it in Finder, then sync again."@
}

/// Conflicts are never resolved here: both versions stay, and the user decides in Finder.
pub fn resolve_conflict(_action: ConflictAction, _file_id: i64, _path: &str) -> (outcome: Result<
    (),
    String,
>)
    ensures
        outcome is Err,
        outcome->Err_0@ == resolve_text(),
{
    Err(
        "macOS keeps conflicting file content in a separate conflict copy. Resolve it in Finder, then sync again.".to_owned(),
    )
}

/// A thumbnail is asked for exactly where a record of a file tells nothing against it, and is taken
/// exactly where the server answers with success.
pub proof fn lemma_thumbnails_are_asked_for(
    record: &FileMetadata,
    disabled: &str,
    asked: Result<(), ThumbnailError>,
    unknown: Result<(), ThumbnailError>,
    status: u16,
    taken: Result<(), ThumbnailError>,
)
    requires
        call_ensures(thumbnail_request, (Some(record), disabled), asked),
        call_ensures(thumbnail_request, (None::<&FileMetadata>, disabled), unknown),
        call_ensures(thumbnail_answer, (status,), taken),
    ensures
        asked is Ok <==> !record.is_folder && forall|i: int|
            0 <= i < record.metadata@.len() ==> (#[trigger] record.metadata@[i]).0@ != disabled@,
        asked is Err ==> asked == Err::<(), ThumbnailError>(ThumbnailError::Disabled),
        unknown == Err::<(), ThumbnailError>(ThumbnailError::Unknown),
        taken is Ok <==> 200 <= status <= 299,
        taken is Err ==> taken == Err::<(), ThumbnailError>(ThumbnailError::Failed(status)),
{
}

/// No request resolves a conflict: whichever way is asked for, both versions stay.
pub proof fn lemma_conflicts_stay(
    action: ConflictAction,
    file_id: i64,
    path: &str,
    outcome: Result<(), String>,
)
    requires
        call_ensures(resolve_conflict, (action, file_id, path), outcome),
    ensures
        outcome is Err,
{
}

} // verus!
