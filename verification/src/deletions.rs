//! The end of a reconciliation: conflicts are settled by keeping both versions, and entries are
//! deleted, children first, each after a last look at both sides.
use crate::local_file::{
    copy_print, EntryKind, Fingerprint, FingerprintView, LocalError, LocalErrorView, opt_print,
    same_prints, scan_view, ScanView, Stat,
};
use crate::order::{lemma_path_order, path_less};
use crate::outside::{fresh_uuid, is_random_uuid, parse_uuid, uuid_fault, uuid_value};
use crate::path::{below, check_view, LocalPath, path_text, PathError, PathErrorView};
use crate::path_map::increasing;
use crate::plan::visit_paths;
use crate::records::{FileMetadata, FileResponse};
use crate::steps::{Step, Visit, VisitView};
use crate::sync::{changed, conflict_path, conflict_path_view, is_own_copy, remote_differs};
use crate::sync_error::{SyncError, SyncErrorView};
use crate::text::opt_text;
use vstd::prelude::*;

verus! {

/// An entry that is to be deleted: the remote one, or the local one if it is still as expected.
#[derive(Debug, Clone, PartialEq, Eq)]
pub struct Deletion {
    pub path: LocalPath,
    pub remote: bool,
    pub expected: Option<Fingerprint>,
}

/// A deletion by its values.
pub struct DeletionView {
    pub path: Seq<Seq<char>>,
    pub remote: bool,
    pub expected: Option<FingerprintView>,
}

impl View for Deletion {
    type V = DeletionView;

    open spec fn view(&self) -> DeletionView {
        DeletionView {
            path: self.path@,
            remote: self.remote,
            expected: opt_print(self.expected),
        }
    }
}

/// Whether a visit asks for a deletion.
pub open spec fn asks_deletion(visit: VisitView) -> bool {
    visit.step == Step::DeleteLocal || visit.step == Step::DeleteRemote
}

/// The deletion that a visit asks for.
pub open spec fn asked_deletion(visit: VisitView) -> DeletionView {
    DeletionView {
        path: visit.path,
        remote: visit.step == Step::DeleteRemote,
        expected: visit.local,
    }
}

/// The order of deletions: deeper paths first, equally deep ones in the order of the paths.
pub open spec fn deleted_before(a: Seq<Seq<char>>, b: Seq<Seq<char>>) -> bool {
    a.len() > b.len() || (a.len() == b.len() && path_less(a, b))
}

/// Whether deletions stand in their order.
pub open spec fn in_deletion_order(deletions: Seq<Deletion>) -> bool {
    forall|i: int, j: int|
        0 <= i < j < deletions.len() ==> deleted_before(
            (#[trigger] deletions[i]).path@,
            (#[trigger] deletions[j]).path@,
        )
}

/// The length of the deepest path of some visits.
fn deepest(visits: &Vec<Visit>) -> (depth: usize)
    ensures
        forall|i: int| 0 <= i < visits.len() ==> (#[trigger] visits[i]).path@.len() <= depth,
{
    let mut depth: usize = 0;
    let mut i: usize = 0;
    while i < visits.len()
        invariant
            i <= visits.len(),
            forall|j: int| 0 <= j < i ==> (#[trigger] visits[j]).path@.len() <= depth,
        decreases visits.len() - i,
    {
        let here = visits[i].path.depth();
        if here > depth {
            depth = here;
        }
        i += 1;
    }
    depth
}

/// Whether a deletion is one that a visit asks for.
pub open spec fn is_asked(deletion: Deletion, visits: Seq<Visit>) -> bool {
    exists|k: int|
        0 <= k < visits.len() && asks_deletion((#[trigger] visits[k])@) && deletion@
            == asked_deletion(visits[k]@)
}

/// Whether the deletion that a visit asks for is in a list.
pub open spec fn is_served(visit: Visit, list: Seq<Deletion>) -> bool {
    exists|i: int| 0 <= i < list.len() && (#[trigger] list[i])@ == asked_deletion(visit@)
}

proof fn lemma_still_served(visit: Visit, shorter: Seq<Deletion>, longer: Seq<Deletion>)
    requires
        is_served(visit, shorter),
        shorter.len() <= longer.len(),
        forall|i: int| 0 <= i < shorter.len() ==> longer[i] == #[trigger] shorter[i],
    ensures
        is_served(visit, longer),
{
    let i = choose|i: int|
        0 <= i < shorter.len() && (#[trigger] shorter[i])@ == asked_deletion(visit@);
    assert(longer[i] == shorter[i]);
}

/// Adds the deletions at one depth.
fn add_level(list: &mut Vec<Deletion>, visits: &Vec<Visit>, depth: usize)
    requires
        increasing(visit_paths(visits@)),
        in_deletion_order(old(list)@),
        forall|i: int| 0 <= i < old(list).len() ==> (#[trigger] old(list)[i]).path@.len() > depth,
        forall|i: int| 0 <= i < old(list).len() ==> is_asked(#[trigger] old(list)[i], visits@),
    ensures
        in_deletion_order(final(list)@),
        old(list).len() <= final(list).len(),
        forall|i: int| 0 <= i < old(list).len() ==> final(list)[i] == #[trigger] old(list)[i],
        forall|i: int| 0 <= i < final(list).len() ==> (#[trigger] final(list)[i]).path@.len() >= depth,
        forall|i: int| 0 <= i < final(list).len() ==> is_asked(#[trigger] final(list)[i], visits@),
        forall|k: int|
            0 <= k < visits.len() && asks_deletion((#[trigger] visits[k])@) && visits[k].path@.len()
                == depth ==> is_served(visits[k], final(list)@),
{
    let ghost start = list@;
    let mut k: usize = 0;
    while k < visits.len()
        invariant
            k <= visits.len(),
            increasing(visit_paths(visits@)),
            in_deletion_order(list@),
            start.len() <= list.len(),
            forall|i: int| 0 <= i < start.len() ==> list[i] == #[trigger] start[i],
            forall|i: int| 0 <= i < start.len() ==> (#[trigger] list[i]).path@.len() > depth,
            forall|i: int|
                start.len() <= i < list.len() ==> (#[trigger] list[i]).path@.len() == depth && (k
                    < visits.len() ==> path_less(list[i].path@, visits[k as int].path@)),
            forall|i: int| 0 <= i < list.len() ==> is_asked(#[trigger] list[i], visits@),
            forall|j: int|
                0 <= j < k && asks_deletion((#[trigger] visits[j])@) && visits[j].path@.len()
                    == depth ==> is_served(visits[j], list@),
        decreases visits.len() - k,
    {
        let visit = &visits[k];
        let ghost shorter = list@;
        let ghost here = visit.path@;
        let asked = match visit.step {
            Step::DeleteLocal => true,
            Step::DeleteRemote => true,
            _ => false,
        };
        if asked && visit.path.depth() == depth {
            let remote = match visit.step {
                Step::DeleteRemote => true,
                _ => false,
            };
            list.push(
                Deletion {
                    path: visit.path.duplicate(),
                    remote,
                    expected: copy_print(visit.local.as_ref()),
                },
            );
            proof {
                let added = list@[shorter.len() as int];
                assert(added@ == asked_deletion(visit@));
                assert(added.path@ == here);
                assert(asks_deletion(visits@[k as int]@));
                assert(is_asked(added, visits@));
                assert(is_served(visits@[k as int], list@));
                assert forall|i: int| 0 <= i < list.len() implies is_asked(
                    #[trigger] list[i],
                    visits@,
                ) by {
                    if i < shorter.len() {
                        assert(list@[i] == shorter[i]);
                    }
                }
                assert forall|i: int, j: int| 0 <= i < j < list.len() implies deleted_before(
                    (#[trigger] list[i]).path@,
                    (#[trigger] list[j]).path@,
                ) by {
                    assert(list@[i] == shorter[i]);
                    if j < shorter.len() {
                        assert(list@[j] == shorter[j]);
                    }
                }
                assert forall|j: int|
                    0 <= j < k && asks_deletion((#[trigger] visits[j])@) && visits[j].path@.len()
                        == depth implies is_served(visits[j], list@) by {
                    lemma_still_served(visits[j], shorter, list@);
                }
            }
        }
        proof {
            lemma_path_order();
            if k + 1 < visits.len() {
                assert(visit_paths(visits@)[k as int] == here);
                assert(visit_paths(visits@)[k + 1] == visits@[k + 1].path@);
            }
        }
        k += 1;
    }
}

/// The deletions that the visits of a plan ask for, in their order: children before the
/// directories they are in.
pub fn deletions(visits: &Vec<Visit>) -> (list: Vec<Deletion>)
    requires
        increasing(visit_paths(visits@)),
    ensures
        in_deletion_order(list@),
        forall|i: int| 0 <= i < list.len() ==> is_asked(#[trigger] list[i], visits@),
        forall|k: int|
            0 <= k < visits.len() && asks_deletion((#[trigger] visits[k])@) ==> is_served(
                visits[k],
                list@,
            ),
{
    let top = deepest(visits);
    let mut list: Vec<Deletion> = Vec::new();
    let mut depth: usize = top;
    add_level(&mut list, visits, depth);
    while depth > 0
        invariant
            increasing(visit_paths(visits@)),
            in_deletion_order(list@),
            forall|k: int| 0 <= k < visits.len() ==> (#[trigger] visits[k]).path@.len() <= top,
            forall|i: int| 0 <= i < list.len() ==> (#[trigger] list[i]).path@.len() >= depth,
            forall|i: int| 0 <= i < list.len() ==> is_asked(#[trigger] list[i], visits@),
            forall|k: int|
                0 <= k < visits.len() && asks_deletion((#[trigger] visits[k])@)
                    && visits[k].path@.len() >= depth ==> is_served(visits[k], list@),
        decreases depth,
    {
        let ghost shorter = list@;
        depth -= 1;
        add_level(&mut list, visits, depth);
        proof {
            assert forall|k: int|
                0 <= k < visits.len() && asks_deletion((#[trigger] visits[k])@)
                    && visits[k].path@.len() >= depth implies is_served(visits[k], list@) by {
                if visits[k].path@.len() > depth {
                    lemma_still_served(visits[k], shorter, list@);
                }
            }
        }
    }
    list
}

/// Children are deleted before the directories they are in.
pub proof fn lemma_children_are_deleted_first(list: Seq<Deletion>, parent: int, child: int)
    requires
        in_deletion_order(list),
        0 <= parent < list.len(),
        0 <= child < list.len(),
        below(list[child].path@, list[parent].path@),
        list[child].path@ != list[parent].path@,
    ensures
        child < parent,
{
    let p = list[parent].path@;
    let c = list[child].path@;
    if c.len() == p.len() {
        assert(c.take(p.len() as int) =~= c);
    }
    if parent < child {
        assert(deleted_before(p, c));
    }
}

/// What lies equally deep is deleted in the order of the paths.
pub proof fn lemma_equally_deep_in_order(list: Seq<Deletion>, first: int, second: int)
    requires
        in_deletion_order(list),
        0 <= first < list.len(),
        0 <= second < list.len(),
        list[first].path@.len() == list[second].path@.len(),
        path_less(list[first].path@, list[second].path@),
    ensures
        first < second,
{
    lemma_path_order();
    if second < first {
        assert(deleted_before(list[second].path@, list[first].path@));
    }
}

/// How both versions of a file are kept.
#[derive(Debug, Clone, PartialEq, Eq)]
pub struct KeepBoth {
    /// Where the local version is moved to, if there is one.
    pub copy: Option<LocalPath>,
    /// What the user is told of it.
    pub notice: Option<String>,
    /// Whether the remote version is fetched to the path.
    pub fetch: bool,
}

/// How both versions are kept, by its values.
pub struct KeepBothView {
    pub copy: Option<Seq<Seq<char>>>,
    pub notice: Option<Seq<char>>,
    pub fetch: bool,
}

impl View for KeepBoth {
    type V = KeepBothView;

    open spec fn view(&self) -> KeepBothView {
        KeepBothView {
            copy: match self.copy {
                Some(path) => Some(path@),
                None => None,
            },
            notice: opt_text(self.notice),
            fetch: self.fetch,
        }
    }
}

/// How both versions of the file of `visit` are kept, where `current` is what stands at its path
/// now and `id` makes the new name unique.
pub open spec fn kept_both(visit: VisitView, current: ScanView, id: u128) -> Result<
    KeepBothView,
    SyncErrorView,
> {
    if visit.local is None {
        Ok(KeepBothView { copy: None, notice: None, fetch: visit.remote is Some })
    } else if current is Err {
        Err(SyncErrorView::Local(current->Err_0))
    } else if current->Ok_0 != visit.local {
        Err(SyncErrorView::ChangedDuringReconciliation)
    } else {
        match conflict_path_view(visit.path, id) {
            None => Err(SyncErrorView::MissingFilename),
            Some(copy) => Ok(
                KeepBothView {
                    copy: Some(copy),
                    notice: Some("Local version preserved as "@ + path_text(copy)),
                    fetch: visit.remote is Some,
                },
            ),
        }
    }
}

/// Settles a conflict with the name that `id` makes: the local version is moved aside if it is
/// still the one that was scanned, and the remote one is fetched if there is one.
pub fn keep_both_as(
    visit: &Visit,
    current: Result<Option<Fingerprint>, LocalError>,
    id: u128,
) -> (outcome: Result<KeepBoth, SyncError>)
    ensures
        match outcome {
            Ok(kept) => kept_both(visit@, scan_view(current), id) == Ok::<
                KeepBothView,
                SyncErrorView,
            >(kept@) && (kept@.copy is Some ==> is_own_copy(visit@.path, kept@.copy->0, id)),
            Err(error) => kept_both(visit@, scan_view(current), id) == Err::<
                KeepBothView,
                SyncErrorView,
            >(error@),
        },
{
    let fetch = visit.remote.is_some();
    if visit.local.is_none() {
        return Ok(KeepBoth { copy: None, notice: None, fetch });
    }
    let now = match current {
        Ok(now) => now,
        Err(error) => {
            return Err(SyncError::Local(error));
        },
    };
    if !same_prints(now.as_ref(), visit.local.as_ref()) {
        return Err(SyncError::ChangedDuringReconciliation);
    }
    match conflict_path(&visit.path, id) {
        None => Err(SyncError::MissingFilename),
        Some(copy) => {
            let notice = "Local version preserved as ".to_owned().concat(copy.text().as_str());
            Ok(KeepBoth { copy: Some(copy), notice: Some(notice), fetch })
        },
    }
}

/// Settles a conflict under a new name.
pub fn keep_both(visit: &Visit, current: Result<Option<Fingerprint>, LocalError>) -> (outcome:
    Result<KeepBoth, SyncError>)
    ensures
        exists|id: u128| #[trigger]
            is_random_uuid(id) && match outcome {
                Ok(kept) => kept_both(visit@, scan_view(current), id) == Ok::<
                    KeepBothView,
                    SyncErrorView,
                >(kept@) && (kept@.copy is Some ==> is_own_copy(visit@.path, kept@.copy->0, id)),
                Err(error) => kept_both(visit@, scan_view(current), id) == Err::<
                    KeepBothView,
                    SyncErrorView,
                >(error@),
            },
{
    let id = fresh_uuid();
    assert(is_random_uuid(id));
    keep_both_as(visit, current, id)
}

/// What becomes of a local entry that was to be deleted.
#[derive(Debug, Clone, Copy, PartialEq, Eq, Structural)]
pub enum Removal {
    /// It stays, and so does its record.
    Keep,
    /// The file is removed.
    File,
    /// The empty directory is removed.
    Directory,
}

/// What becomes of the local entry of a deletion, where `current` is what stands there now, and
/// `occupied` tells whether it is a directory with entries.
pub open spec fn local_removal(
    expected: Option<FingerprintView>,
    current: ScanView,
    occupied: bool,
) -> Result<Removal, SyncErrorView> {
    if current is Err {
        Err(SyncErrorView::Local(current->Err_0))
    } else if current->Ok_0 != expected {
        Err(SyncErrorView::ChangedBeforeDeletion)
    } else if expected is Some && expected->0.directory {
        if occupied {
            Ok(Removal::Keep)
        } else {
            Ok(Removal::Directory)
        }
    } else {
        Ok(Removal::File)
    }
}

/// The last look before a local entry is deleted: it must still be what was scanned, and a
/// directory must be empty.
pub fn confirm_local_deletion(
    deletion: &Deletion,
    current: Result<Option<Fingerprint>, LocalError>,
    occupied: bool,
) -> (outcome: Result<Removal, SyncError>)
    ensures
        match outcome {
            Ok(removal) => local_removal(deletion@.expected, scan_view(current), occupied) == Ok::<
                Removal,
                SyncErrorView,
            >(removal),
            Err(error) => local_removal(deletion@.expected, scan_view(current), occupied) == Err::<
                Removal,
                SyncErrorView,
            >(error@),
        },
{
    let now = match current {
        Ok(now) => now,
        Err(error) => {
            return Err(SyncError::Local(error));
        },
    };
    if !same_prints(now.as_ref(), deletion.expected.as_ref()) {
        return Err(SyncError::ChangedBeforeDeletion);
    }
    let directory = match &deletion.expected {
        Some(print) => print.directory,
        None => false,
    };
    if !directory {
        Ok(Removal::File)
    } else if occupied {
        Ok(Removal::Keep)
    } else {
        Ok(Removal::Directory)
    }
}

/// The last look at the local side before a remote entry is deleted: nothing may stand there.
pub fn confirm_absence(current: Result<Option<Fingerprint>, LocalError>) -> (outcome: Result<
    (),
    SyncError,
>)
    ensures
        match outcome {
            Ok(()) => scan_view(current) == Ok::<Option<FingerprintView>, LocalErrorView>(None),
            Err(error) => match scan_view(current) {
                Err(reason) => error@ == SyncErrorView::Local(reason),
                Ok(print) => print is Some && error@ == SyncErrorView::ReappearedBeforeDeletion,
            },
        },
{
    match current {
        Err(error) => Err(SyncError::Local(error)),
        Ok(Some(_)) => Err(SyncError::ReappearedBeforeDeletion),
        Ok(None) => Ok(()),
    }
}

/// The last look at the remote side before a remote entry is deleted: it must still be the version
/// on record. Tells whether it is a folder, which is deleted only where its listing, taken again, is
/// empty.
pub fn confirm_remote_deletion(latest: &FileResponse, record: &FileMetadata) -> (outcome: Result<
    bool,
    SyncError,
>)
    ensures
        match outcome {
            Ok(folder) => !remote_differs(latest@, record@) && folder == latest.is_folder,
            Err(error) => remote_differs(latest@, record@) && error@
                == SyncErrorView::RemoteChangedBeforeDeletion,
        },
{
    if changed(latest, record) {
        return Err(SyncError::RemoteChangedBeforeDeletion);
    }
    Ok(latest.is_folder)
}

/// Whether a listing that was asked for a single entry shows that a folder holds something.
pub fn is_occupied(listed: usize, more: bool) -> (yes: bool)
    ensures
        yes == (listed > 0 || more),
{
    listed > 0 || more
}

/// How a reconciliation begins: not at all where the drive is disabled, and otherwise only with a
/// root that is an accepted path and a directory, and with a drive identifier.
pub open spec fn beginning(
    enabled: bool,
    fault: Option<PathErrorView>,
    root: Stat,
    id: Seq<char>,
) -> Result<Option<u128>, SyncErrorView> {
    if !enabled {
        Ok(None)
    } else if fault is Some {
        Err(SyncErrorView::Local(LocalErrorView::Path(fault->0)))
    } else {
        match root {
            Stat::Missing(words) => Err(SyncErrorView::Local(LocalErrorView::Unreadable(words@))),
            Stat::Unreadable(words) => Err(SyncErrorView::Local(LocalErrorView::Unreadable(words@))),
            Stat::Found(kind, _, _) => if kind != EntryKind::Directory {
                Err(SyncErrorView::RootUnavailable)
            } else {
                match uuid_value(id) {
                    Some(value) => Ok(Some(value)),
                    None => Err(SyncErrorView::InvalidDrive(uuid_fault(id))),
                }
            },
        }
    }
}

/// Begins a reconciliation: `checked` is the outcome of the check of the root, `root` what the file
/// system tells of it, and `id` the identifier of the drive. None means that there is nothing to
/// do.
pub fn begin(enabled: bool, checked: Result<(), PathError>, root: Stat, id: &str) -> (outcome:
    Result<Option<u128>, SyncError>)
    ensures
        match outcome {
            Ok(drive) => beginning(enabled, check_view(checked), root, id@) == Ok::<
                Option<u128>,
                SyncErrorView,
            >(drive),
            Err(error) => beginning(enabled, check_view(checked), root, id@) == Err::<
                Option<u128>,
                SyncErrorView,
            >(error@),
        },
{
    if !enabled {
        return Ok(None);
    }
    match checked {
        Ok(()) => {},
        Err(error) => {
            return Err(SyncError::Local(LocalError::Path(error)));
        },
    }
    match root {
        Stat::Missing(words) => Err(SyncError::Local(LocalError::Unreadable(words))),
        Stat::Unreadable(words) => Err(SyncError::Local(LocalError::Unreadable(words))),
        Stat::Found(EntryKind::Directory, _, _) => match parse_uuid(id) {
            Ok(value) => Ok(Some(value)),
            Err(words) => Err(SyncError::InvalidDrive(words)),
        },
        Stat::Found(_, _, _) => Err(SyncError::RootUnavailable),
    }
}

/// A missing or unreadable root is no empty tree: nothing is begun, so nothing can be deleted.
pub proof fn lemma_missing_root_begins_nothing(
    fault: Option<PathErrorView>,
    root: Stat,
    id: Seq<char>,
)
    requires
        !(root matches Stat::Found(EntryKind::Directory, _, _)),
    ensures
        beginning(true, fault, root, id) is Err,
{
}

/// Content that came after the scan is never removed: the last look refuses a local entry that is
/// not the one that was to be deleted, and lets go of a directory only when it is empty.
pub proof fn lemma_new_content_is_never_removed(
    expected: Option<FingerprintView>,
    current: ScanView,
    occupied: bool,
)
    ensures
        local_removal(expected, current, occupied) is Ok ==> current is Ok && current->Ok_0
            == expected,
        local_removal(expected, current, occupied) == Ok::<Removal, SyncErrorView>(
            Removal::Directory,
        ) ==> !occupied,
        expected is Some && expected->0.directory && occupied ==> local_removal(
            expected,
            current,
            occupied,
        ) is Err || local_removal(expected, current, occupied) == Ok::<Removal, SyncErrorView>(
            Removal::Keep,
        ),
{
}

/// The last look lets a local entry be removed exactly where it is still what was to be deleted: a file
/// as a file, a directory as one that is empty, and a directory that holds something is let be.
pub proof fn lemma_last_looks(expected: FingerprintView, current: ScanView, occupied: bool)
    ensures
        local_removal(Some(expected), current, occupied) is Ok <==> current == Ok::<
            Option<FingerprintView>,
            LocalErrorView,
        >(Some(expected)),
        current == Ok::<Option<FingerprintView>, LocalErrorView>(Some(expected)) ==> local_removal(
            Some(expected),
            current,
            occupied,
        ) == Ok::<Removal, SyncErrorView>(
            if !expected.directory {
                Removal::File
            } else if occupied {
                Removal::Keep
            } else {
                Removal::Directory
            },
        ),
        current matches Ok(found) && found != Some(expected) ==> local_removal(
            Some(expected),
            current,
            occupied,
        ) == Err::<Removal, SyncErrorView>(SyncErrorView::ChangedBeforeDeletion),
        current matches Err(error) ==> local_removal(Some(expected), current, occupied) == Err::<
            Removal,
            SyncErrorView,
        >(SyncErrorView::Local(error)),
{
}

/// Where a local version is in conflict and still there, it is moved to another name in its directory,
/// the user is told that name, and the remote version, if there is one, is fetched; a version that
/// changed meanwhile is left alone.
pub proof fn lemma_conflicts_keep_both(
    path: Seq<Seq<char>>,
    step: Step,
    local: FingerprintView,
    remote: Option<crate::records::FileView>,
    current: ScanView,
    id: u128,
)
    ensures
        ({
            let visit = VisitView { path, step, local: Some(local), remote };
            let kept = kept_both(visit, current, id);
            &&& kept is Ok <==> current == Ok::<Option<FingerprintView>, LocalErrorView>(
                Some(local),
            ) && conflict_path_view(path, id) is Some
            &&& kept matches Ok(kept) ==> kept.copy == conflict_path_view(path, id) && kept.copy
                is Some && kept.copy->0 != path && kept.fetch == (remote is Some) && kept.notice
                == Some("Local version preserved as "@ + path_text(kept.copy->0))
        }),
        ({
            let visit = VisitView { path, step, local: None, remote };
            kept_both(visit, current, id) == Ok::<KeepBothView, SyncErrorView>(
                KeepBothView { copy: None, notice: None, fetch: remote is Some },
            )
        }),
{
    if conflict_path_view(path, id) is Some {
        let copy = conflict_path_view(path, id)->0;
        assert(copy.last() == crate::sync::conflict_name(path.last(), id));
        reveal_strlit(")");
        assert(copy.last().len() > path.last().len());
    }
}

/// A reconciliation begins exactly where the drive is enabled, its root is an accepted path and a
/// directory, and it has an identifier; a drive that is disabled is no error.
pub proof fn lemma_reconciliations_begin(
    enabled: bool,
    fault: Option<PathErrorView>,
    root: Stat,
    id: Seq<char>,
)
    ensures
        beginning(enabled, fault, root, id) == Ok::<Option<u128>, SyncErrorView>(None) <==> !enabled,
        (beginning(enabled, fault, root, id) matches Ok(Some(_))) <==> enabled && fault is None && (
        root matches Stat::Found(kind, _, _) && kind == EntryKind::Directory) && uuid_value(id)
            is Some,
        beginning(enabled, fault, root, id) matches Ok(Some(drive)) ==> uuid_value(id) == Some(drive),
{
}

} // verus!
