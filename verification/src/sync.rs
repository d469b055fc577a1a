//! The rules of three-way reconciliation for fully downloaded folders.
use crate::local_file::{baseline_view, Fingerprint, FingerprintView, metadata_view, opt_print_ref};
use crate::order::{component_rank, is_name};
use crate::outside::{is_uuid_char, uuid_text, write_uuid};
use crate::path::{is_plain_name, LocalPath, plain_name};
use crate::records::{FileMetadata, FileMetadataView, FileResponse, FileView};
use crate::text::{
    begins_with, chars_of, copy_text_or_empty, opt_text, same_text, starts_with_text, text_or_empty,
};
use vstd::prelude::*;

verus! {

/// How much of the tree a request to synchronize asks for. Every request is served by a complete
/// reconciliation, which also repairs missed events.
#[derive(Debug, Clone, Copy, PartialEq, Eq, Structural)]
pub enum SyncMode {
    PathOnly,
    PathAndFirstLayer,
    FullHierarchy,
}

/// What has to be done about one path.
#[derive(Debug, Clone, Copy, PartialEq, Eq, Structural)]
pub enum Action {
    Nothing,
    Upload,
    Download,
    DeleteLocal,
    DeleteRemote,
    Forget,
    Conflict,
}

/// What has to be done about a path with the local content `local`, with or without a remote
/// file, whose local content at the last synchronization was `base`.
pub open spec fn decision(
    local: Option<FingerprintView>,
    remote: bool,
    base: Option<FingerprintView>,
    remote_changed: bool,
) -> Action {
    if local is None && !remote {
        Action::Forget
    } else if base is None {
        if !remote {
            Action::Upload
        } else if local is None {
            Action::Download
        } else {
            Action::Conflict
        }
    } else if local is None {
        if remote_changed {
            Action::Conflict
        } else {
            Action::DeleteRemote
        }
    } else if !remote {
        if local == base {
            Action::DeleteLocal
        } else {
            Action::Conflict
        }
    } else if local == base {
        if remote_changed {
            Action::Download
        } else {
            Action::Nothing
        }
    } else {
        if remote_changed {
            Action::Conflict
        } else {
            Action::Upload
        }
    }
}

/// Decides about one path. All absences are authoritative only after both complete scans succeed.
pub fn decide(
    local: Option<&Fingerprint>,
    remote: bool,
    base: Option<&Fingerprint>,
    remote_changed: bool,
) -> (action: Action)
    ensures
        action == decision(opt_print_ref(local), remote, opt_print_ref(base), remote_changed),
{
    match (local, base) {
        (None, _) if !remote => Action::Forget,
        (Some(_), None) => if remote {
            Action::Conflict
        } else {
            Action::Upload
        },
        (None, None) => Action::Download,
        (None, Some(_)) => if remote_changed {
            Action::Conflict
        } else {
            Action::DeleteRemote
        },
        (Some(local), Some(base)) => {
            let edited = !local.same(base);
            if !remote {
                if edited {
                    Action::Conflict
                } else {
                    Action::DeleteLocal
                }
            } else if edited {
                if remote_changed {
                    Action::Conflict
                } else {
                    Action::Upload
                }
            } else {
                if remote_changed {
                    Action::Download
                } else {
                    Action::Nothing
                }
            }
        },
    }
}

/// Whether the remote file is another version than the one that `base` records: its content, size,
/// kind, date or identity differ, or the record lacks the date or the identity.
pub open spec fn remote_differs(remote: FileView, base: FileMetadataView) -> bool {
    ||| text_or_empty(remote.primary_entity) != base.etag
    ||| remote.size != base.size
    ||| remote.is_folder != base.is_folder
    ||| base.props is None
    ||| base.props->0.remote_updated_at != Some(remote.updated_at)
    ||| base.props->0.remote_id != Some(remote.id)
}

fn holds(found: &Option<String>, wanted: &str) -> (yes: bool)
    ensures
        yes == (opt_text(*found) == Some(wanted@)),
{
    match found {
        Some(found) => same_text(found.as_str(), wanted),
        None => false,
    }
}

/// Whether the remote file is another version than the one that `base` records.
pub fn changed(remote: &FileResponse, base: &FileMetadata) -> (yes: bool)
    ensures
        yes == remote_differs(remote@, base@),
{
    if copy_text_or_empty(&remote.primary_entity) != base.etag {
        return true;
    }
    if remote.size != base.size || remote.is_folder != base.is_folder {
        return true;
    }
    match &base.props {
        Some(props) => !holds(&props.remote_updated_at, remote.updated_at.as_str()) || !holds(
            &props.remote_id,
            remote.id.as_str(),
        ),
        None => true,
    }
}

/// Names that the desktop or this program keeps for itself.
pub open spec fn is_internal(name: Seq<char>) -> bool {
    name == ".DS_Store"@ || begins_with(name, ".cloudreve-tmp-"@)
}

/// Whether a name is one that is never synchronized.
pub fn internal_name(name: &str) -> (yes: bool)
    ensures
        yes == is_internal(name@),
{
    same_text(name, ".DS_Store") || starts_with_text(name, ".cloudreve-tmp-")
}

/// A remote name that cannot stand for one entry of a local directory.
#[derive(Debug, Clone, Copy, PartialEq, Eq, Structural)]
pub struct UnsafeName;

/// Refuses remote names that would lead out of their directory.
pub fn safe_name(name: &str) -> (outcome: Result<(), UnsafeName>)
    ensures
        outcome is Ok <==> plain_name(name@),
{
    if is_plain_name(name) {
        Ok(())
    } else {
        Err(UnsafeName)
    }
}

/// Ends a reconciliation: what is told of its error, or that there is none, is what the drive shows
/// from now on, and the error itself is handed on.
pub fn sync_paths<E>(last_error: &mut Option<String>, outcome: Result<(), (E, String)>) -> (result:
    Result<(), E>)
    ensures
        match outcome {
            Ok(()) => result is Ok && *final(last_error) is None,
            Err((error, told)) => result == Err::<(), E>(error) && *final(last_error) == Some(told),
        },
{
    match outcome {
        Ok(()) => {
            *last_error = None;
            Ok(())
        },
        Err((error, told)) => {
            *last_error = Some(told);
            Err(error)
        },
    }
}

/// The name under which the local version `name` is kept beside the remote one.
pub open spec fn conflict_name(name: Seq<char>, id: u128) -> Seq<char> {
    name + " (conflict "@ + uuid_text(id) + ")"@
}

/// The path under which the local version at `path` is kept; a path that ends in no name has none.
pub open spec fn conflict_path_view(path: Seq<Seq<char>>, id: u128) -> Option<Seq<Seq<char>>> {
    if path.len() > 0 && component_rank(path.last()) == 3 {
        Some(path.drop_last().push(conflict_name(path.last(), id)))
    } else {
        None
    }
}

/// The path under which the local version at `path` is kept, made unique by `id`: it is neither
/// `path` nor the path that another `id` would give, and it can itself be synchronized where
/// `path` can.
pub fn conflict_path(path: &LocalPath, id: u128) -> (copy: Option<LocalPath>)
    ensures
        match copy {
            Some(copy) => conflict_path_view(path@, id) == Some(copy@) && is_own_copy(
                path@,
                copy@,
                id,
            ),
            None => conflict_path_view(path@, id) is None,
        },
{
    let n: usize = path.components.len();
    if n == 0 {
        return None;
    }
    let last = path.components[n - 1].as_str();
    assert(last@ == path@.last());
    let chars = chars_of(last);
    if chars.len() == 1 && (chars[0] == '/' || chars[0] == '.') {
        assert(last@ =~= seq!['/'] || last@ =~= seq!['.']);
        return None;
    }
    if chars.len() == 2 && chars[0] == '.' && chars[1] == '.' {
        assert(last@ =~= seq!['.', '.']);
        return None;
    }
    let unique = write_uuid(id);
    let name = last.to_owned().concat(" (conflict ").concat(unique.as_str()).concat(")");
    let copy = path.prefix(n - 1).join(name.as_str());
    proof {
        assert(path@.take(n - 1) =~= path@.drop_last());
        assert(copy@.last() == conflict_name(path@.last(), id));
        lemma_conflict_name_parts(path@.last(), id);
        assert(copy@.drop_last() =~= path@.drop_last());
        assert(copy@.last() != path@.last());
        assert forall|other: u128| other != id implies #[trigger] conflict_path_view(path@, other)
            != Some(copy@) by {
            lemma_conflict_names_are_distinct(path@.last(), id, other);
            if conflict_path_view(path@, other) == Some(copy@) {
                assert(path@.drop_last().push(conflict_name(path@.last(), other)).last()
                    == copy@.last());
            }
        }
        if plain_name(path@.last()) && !is_internal(path@.last()) {
            lemma_conflict_copy_is_uploaded(
                path@.last(),
                id,
                FingerprintView { directory: false, size: 0, digest: Seq::empty() },
            );
        }
    }
    Some(copy)
}

/// Whether `copy`, made with `id`, stands beside `path` and nowhere in its way.
pub open spec fn is_own_copy(path: Seq<Seq<char>>, copy: Seq<Seq<char>>, id: u128) -> bool {
    &&& copy.len() == path.len()
    &&& copy.drop_last() == path.drop_last()
    &&& copy != path
    &&& forall|other: u128|
        other != id ==> #[trigger] conflict_path_view(path, other) != Some(copy)
    &&& plain_name(path.last()) && !is_internal(path.last()) ==> plain_name(copy.last())
        && !is_internal(copy.last())
}

/// Nothing is deleted but what both sides still hold as it was last synchronized: a local file
/// only unedited and with its remote file gone, a remote one only unchanged and with its local
/// file gone.
pub proof fn lemma_deletes_only_synchronized(
    local: Option<FingerprintView>,
    remote: bool,
    base: Option<FingerprintView>,
    remote_changed: bool,
)
    ensures
        decision(local, remote, base, remote_changed) == Action::DeleteLocal <==> base is Some && local
            == base && !remote,
        decision(local, remote, base, remote_changed) == Action::DeleteRemote <==> base is Some
            && local is None && remote && !remote_changed,
{
}

/// No version is overwritten unless the other side still has the one last synchronized: a
/// download replaces only unedited local content, an upload only an unchanged remote file.
pub proof fn lemma_transfers_overwrite_only_synchronized(
    local: Option<FingerprintView>,
    remote: bool,
    base: Option<FingerprintView>,
    remote_changed: bool,
)
    ensures
        decision(local, remote, base, remote_changed) == Action::Download ==> remote && (local is None
            || (base is Some && local == base)),
        decision(local, remote, base, remote_changed) == Action::Upload ==> local is Some && (!remote
            || (base is Some && !remote_changed)),
{
}

/// Nothing is left undone: an edit on one side alone is always carried over to the other, whatever
/// value of the fingerprint it changed; what is new on one side alone is copied to the other; what
/// is gone on one side, and unchanged on the other, is deleted there; and nothing is to be done
/// exactly where both sides still are as they were last synchronized.
pub proof fn lemma_every_edit_is_carried_over(
    local: FingerprintView,
    base: FingerprintView,
    remote_changed: bool,
)
    ensures
        local.directory != base.directory || local.size != base.size || local.digest != base.digest
            ==> decision(Some(local), true, Some(base), false) == Action::Upload,
        decision(Some(base), true, Some(base), true) == Action::Download,
        decision(Some(local), false, None, remote_changed) == Action::Upload,
        decision(None, true, None, remote_changed) == Action::Download,
        decision(None, true, Some(base), false) == Action::DeleteRemote,
        decision(Some(base), false, Some(base), remote_changed) == Action::DeleteLocal,
        decision(None, false, None, remote_changed) == Action::Forget,
        decision(None, false, Some(base), remote_changed) == Action::Forget,
        decision(Some(local), true, Some(base), remote_changed) == Action::Nothing <==> local.directory
            == base.directory && local.size == base.size && local.digest == base.digest
            && !remote_changed,
{
}

/// Where something is to be done, both sides agree afterwards: an upload leaves the local version on
/// both sides, a download the remote one, and a deletion or a forgotten record leaves nothing.
/// Nothing that was edited is lost on the way, unless it is kept under another name.
pub proof fn lemma_decisions_converge(
    local: Option<FingerprintView>,
    remote: bool,
    base: Option<FingerprintView>,
    remote_changed: bool,
)
    ensures
        match decision(local, remote, base, remote_changed) {
            Action::Nothing => local is Some && remote && local == base && !remote_changed,
            Action::Upload => local is Some && local != base && (remote ==> base is Some
                && !remote_changed) && (!remote ==> base is None),
            Action::Download => remote && (local is None && base is None || local is Some && local
                == base && remote_changed),
            Action::DeleteLocal => local is Some && local == base && !remote,
            Action::DeleteRemote => local is None && remote && base is Some && !remote_changed,
            Action::Forget => local is None && !remote,
            Action::Conflict => {
                ||| local is Some && remote && base is None
                ||| local is Some && remote && local != base && remote_changed
                ||| local is Some && !remote && base is Some && local != base
                ||| local is None && remote && base is Some && remote_changed
            },
        },
{
}

/// A remote file counts as unchanged exactly where a new record of it would say of it what the old
/// one says: so every value that is recorded of the remote side matters, and no other.
pub proof fn lemma_unchanged_is_recorded_alike(
    file: FileView,
    base: FileMetadataView,
    path: Seq<Seq<char>>,
    drive_id: u128,
    snapshot: Option<FingerprintView>,
)
    ensures
        ({
            let fresh = metadata_view(file, path, drive_id, snapshot);
            !remote_differs(file, base) <==> {
                &&& fresh.etag == base.etag
                &&& fresh.size == base.size
                &&& fresh.is_folder == base.is_folder
                &&& base.props is Some
                &&& fresh.props->0.remote_updated_at == base.props->0.remote_updated_at
                &&& fresh.props->0.remote_id == base.props->0.remote_id
            }
        }),
{
}

/// Every remote change is seen: where the content, the size, the kind, the date or the identity of a
/// file is another one than at its last record, the file counts as changed.
pub proof fn lemma_every_remote_change_is_seen(
    old_file: FileView,
    file: FileView,
    path: Seq<Seq<char>>,
    drive_id: u128,
    snapshot: Option<FingerprintView>,
)
    ensures
        remote_differs(file, metadata_view(old_file, path, drive_id, snapshot)) <==> {
            ||| text_or_empty(file.primary_entity) != text_or_empty(old_file.primary_entity)
            ||| file.size != old_file.size
            ||| file.is_folder != old_file.is_folder
            ||| file.updated_at != old_file.updated_at
            ||| file.id != old_file.id
        },
{
}

/// The names that are never synchronized are that of the desktop's own file, and those that begin as
/// the temporary files of this program do.
pub proof fn lemma_internal_names(name: Seq<char>, rest: Seq<char>)
    ensures
        is_internal(".DS_Store"@),
        is_internal(".cloudreve-tmp-"@ + rest),
        is_internal(name) ==> name == ".DS_Store"@ || exists|end: Seq<char>|
            name == #[trigger] (".cloudreve-tmp-"@ + end),
{
    let prefix = ".cloudreve-tmp-"@;
    assert((prefix + rest).take(prefix.len() as int) =~= prefix);
    if begins_with(name, prefix) {
        let end = name.skip(prefix.len() as int);
        assert(name =~= prefix + end);
    }
}

/// Edits on both sides, and a first sight of both sides, are always a conflict.
pub proof fn lemma_both_edited_is_conflict(
    local: Option<FingerprintView>,
    base: Option<FingerprintView>,
    remote_changed: bool,
)
    requires
        local is Some,
    ensures
        base is None ==> decision(local, true, base, remote_changed) == Action::Conflict,
        base is Some && local != base ==> decision(local, true, base, true) == Action::Conflict,
        base is Some && local != base ==> decision(local, false, base, remote_changed)
            == Action::Conflict,
{
}

/// A file is never taken for changed against the record just made of it.
pub proof fn lemma_recorded_is_unchanged(
    file: FileView,
    path: Seq<Seq<char>>,
    drive_id: u128,
    snapshot: Option<FingerprintView>,
)
    ensures
        !remote_differs(file, metadata_view(file, path, drive_id, snapshot)),
{
}

/// After a recorded transfer there is nothing left to do about the path.
pub proof fn lemma_recorded_is_settled(
    file: FileView,
    path: Seq<Seq<char>>,
    drive_id: u128,
    print: FingerprintView,
)
    ensures
        ({
            let record = metadata_view(file, path, drive_id, Some(print));
            decision(
                Some(print),
                true,
                baseline_view(record),
                remote_differs(file, record),
            ) == Action::Nothing
        }),
{
}

proof fn lemma_conflict_name_parts(name: Seq<char>, id: u128)
    ensures
        conflict_name(name, id).len() == name.len() + 12 + uuid_text(id).len(),
        forall|i: int| 0 <= i < name.len() ==> conflict_name(name, id)[i] == name[i],
        conflict_name(name, id)[name.len() as int] == ' ',
        forall|i: int|
            0 <= i < uuid_text(id).len() ==> #[trigger] conflict_name(name, id)[name.len() + 11 + i]
                == uuid_text(id)[i],
        forall|i: int|
            name.len() <= i < name.len() + 11 ==> conflict_name(name, id)[i] == " (conflict "@[i
                - name.len()],
        conflict_name(name, id).last() == ')',
{
    reveal_strlit(" (conflict ");
    reveal_strlit(")");
}

/// The kept local version never collides with the file itself, nor with another kept version.
pub proof fn lemma_conflict_names_are_distinct(name: Seq<char>, id: u128, other: u128)
    requires
        uuid_text(id) != uuid_text(other),
    ensures
        conflict_name(name, id) != name,
        conflict_name(name, id) != conflict_name(name, other),
{
    lemma_conflict_name_parts(name, id);
    lemma_conflict_name_parts(name, other);
    if conflict_name(name, id) == conflict_name(name, other) {
        assert(uuid_text(id).len() == uuid_text(other).len());
        assert forall|i: int| 0 <= i < uuid_text(id).len() implies uuid_text(id)[i] == uuid_text(
            other,
        )[i] by {
            assert(conflict_name(name, id)[name.len() + 11 + i] == conflict_name(name, other)[name.len()
                + 11 + i]);
        }
        assert(uuid_text(id) =~= uuid_text(other));
    }
}

/// The kept local version of a synchronized file is itself synchronized: its name is plain and not
/// an internal one, and without a remote file or a record of it the decision is to upload it.
pub proof fn lemma_conflict_copy_is_uploaded(name: Seq<char>, id: u128, print: FingerprintView)
    requires
        plain_name(name),
        !is_internal(name),
        forall|i: int| 0 <= i < uuid_text(id).len() ==> is_uuid_char(#[trigger] uuid_text(id)[i]),
    ensures
        plain_name(conflict_name(name, id)),
        !is_internal(conflict_name(name, id)),
        decision(Some(print), false, None, false) == Action::Upload,
{
    let copy = conflict_name(name, id);
    lemma_conflict_name_parts(name, id);
    reveal_strlit(" (conflict ");
    reveal_strlit(")");
    reveal_strlit(".DS_Store");
    reveal_strlit(".cloudreve-tmp-");
    assert forall|i: int| 0 <= i < copy.len() implies copy[i] != '/' && copy[i] != '\0' by {
        if i < name.len() {
            assert(copy[i] == name[i]);
            assert(name.contains(name[i]));
        } else if i < name.len() + 11 {
            assert(copy[i] == " (conflict "@[i - name.len()]);
        } else if i < name.len() + 11 + uuid_text(id).len() {
            let k = i - name.len() - 11;
            assert(copy[name.len() + 11 + k] == uuid_text(id)[k]);
            assert(is_uuid_char(uuid_text(id)[k]));
        } else {
            assert(copy[i] == copy.last());
        }
    }
    assert(copy.len() > 2);
    assert(copy != ".DS_Store"@) by {
        if copy == ".DS_Store"@ {
            assert(copy[name.len() as int] == ".DS_Store"@[name.len() as int]);
        }
    }
    assert(!begins_with(copy, ".cloudreve-tmp-"@)) by {
        let prefix = ".cloudreve-tmp-"@;
        if begins_with(copy, prefix) {
            if name.len() >= prefix.len() {
                assert(name.take(prefix.len() as int) =~= prefix) by {
                    assert forall|i: int| 0 <= i < prefix.len() implies name[i] == prefix[i] by {
                        assert(copy.take(prefix.len() as int)[i] == prefix[i]);
                        assert(copy[i] == name[i]);
                    }
                }
            } else {
                let at = name.len() as int;
                assert(copy.take(prefix.len() as int)[at] == prefix[at]);
                assert(prefix[at] == ' ');
            }
        }
    }
}

/// Whatever `decide` decides about a path is what is due there.
pub proof fn lemma_decide_decides(
    local: Option<&Fingerprint>,
    remote: bool,
    base: Option<&Fingerprint>,
    remote_changed: bool,
    action: Action,
)
    requires
        call_ensures(decide, (local, remote, base, remote_changed), action),
    ensures
        action == decision(opt_print_ref(local), remote, opt_print_ref(base), remote_changed),
{
}

/// Every path that ends in a name has one to keep its local version under: in the same directory, and
/// under a longer name that begins with the same one. No other path has.
pub proof fn lemma_every_name_has_a_copy(path: Seq<Seq<char>>, id: u128)
    ensures
        conflict_path_view(path, id) is Some <==> path.len() > 0 && is_name(path.last()),
        conflict_path_view(path, id) matches Some(copy) ==> {
            &&& copy.len() == path.len() && copy.drop_last() == path.drop_last()
            &&& copy.last().len() > path.last().len()
            &&& copy.last().take(path.last().len() as int) == path.last()
        },
{
    if path.len() > 0 {
        let name = path.last();
        let copy = path.drop_last().push(conflict_name(name, id));
        reveal_strlit(")");
        assert(copy.drop_last() =~= path.drop_last());
        assert(conflict_name(name, id).take(name.len() as int) =~= name);
    }
}

} // verus!
