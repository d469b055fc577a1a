//! For which reasons a reconciliation stops.
use crate::aliases::{alias, first_alias};
use crate::local_file::{FingerprintView, LocalErrorView, scan_view};
use crate::local_scan::{after_local_entries, all_found, first_refused, LocalEntry, print_of};
use crate::outside::is_random_uuid;
use crate::path::{check_view, plain_name};
use crate::plan::{at, folder_fault, is_directory_plan, record_views};
use crate::reconcile::{
    compared, enumerates, failed, is_collision, is_folder_fault, next_transfer, progress, StageView,
    Wait, with_created,
};
use crate::reconcile_laws::{lemma_courses_are_steady, lemma_deletion_is_planned, SyncCourse};
use crate::reconcile_outcomes::lemma_settling_asks;
use crate::records::{FileMetadataView, FileView};
use crate::remote_scan::{page_outcome, RemoteEntry, RemoteScanView};
use crate::scan_outcomes::{counts, counts_here, lemma_stages_ask};
use crate::steps::{chosen_step, early_step, recorded_print, Step, types_differ, Visit};
use crate::sync::{conflict_path_view, remote_differs};
use crate::sync_error::SyncErrorView;
use crate::transfer_outcomes::{
    are_early, is_early_visit, lemma_transfer_is_under_way, lemma_transfers_are_planned,
};
use crate::work::{SyncAnswer, SyncAskView, Work};
use vstd::prelude::*;

verus! {

/// Whether an answer is of the kind that was asked for.
pub open spec fn fits(ask: SyncAskView, answer: SyncAnswer) -> bool {
    match ask {
        SyncAskView::ListRemote(_) => answer is Page,
        SyncAskView::ReadDirectory(_) => answer is Directory,
        SyncAskView::CreateRemote(_, _) => answer is Created,
        SyncAskView::CreateLocal(_) => answer is Scanned,
        SyncAskView::ScanLocal(_) => answer is Entries,
        SyncAskView::Inspect => answer is Drive,
        SyncAskView::CheckPath(_) => answer is Checked,
        SyncAskView::Look(_) => answer is Scanned,
        SyncAskView::LookLocal(_, _) => answer is Local,
        SyncAskView::LookRemote(_) => answer is Remote,
        SyncAskView::LookInside(_) => answer is Inside,
        SyncAskView::Finished => false,
        SyncAskView::Failed(_) => false,
        _ => answer is Done,
    }
}

/// Why an entry of a local directory stops a reconciliation: its name is no text, its path may not be,
/// it could not be read, or it disappeared.
pub open spec fn is_refused_here(entry: LocalEntry, error: SyncErrorView) -> bool {
    ||| entry.name is None && error == SyncErrorView::NotUtf8
    ||| counts_here(entry) && (check_view(entry.checked) matches Some(fault) && error
        == SyncErrorView::Local(LocalErrorView::Path(fault)))
    ||| counts_here(entry) && (scan_view(entry.scanned) matches Err(fault) && error
        == SyncErrorView::Local(fault))
    ||| counts_here(entry) && scan_view(entry.scanned) == Ok::<
        Option<FingerprintView>,
        LocalErrorView,
    >(None) && error == SyncErrorView::Disappeared
}

/// Why an entry of a page stops a reconciliation: its name cannot stand for one entry of a directory,
/// its path may not be, or it was listed before.
pub open spec fn is_refused_there(
    known: Map<Seq<Seq<char>>, FileView>,
    dir: Seq<Seq<char>>,
    entries: Seq<RemoteEntry>,
    x: int,
    error: SyncErrorView,
) -> bool {
    let name = entries[x].file@.name;
    ||| !plain_name(name) && error == SyncErrorView::UnsafeName
    ||| counts(entries[x]) && (check_view(entries[x].checked) matches Some(fault) && error
        == SyncErrorView::Local(LocalErrorView::Path(fault)))
    ||| counts(entries[x]) && error == SyncErrorView::Duplicate && (known.contains_key(
        dir.push(name),
    ) || exists|y: int|
        0 <= y < x && counts(#[trigger] entries[y]) && entries[y].file@.name == name)
}

proof fn lemma_refused_here(entries: Seq<LocalEntry>) -> (x: int)
    requires
        first_refused(entries) is Some,
    ensures
        0 <= x < entries.len(),
        is_refused_here(entries[x], first_refused(entries)->0),
    decreases entries.len(),
{
    if first_refused(entries.drop_last()) is Some {
        let x = lemma_refused_here(entries.drop_last());
        assert(entries.drop_last()[x] == entries[x]);
        x
    } else {
        assert(print_of(entries.last()) is Err);
        entries.len() - 1
    }
}

proof fn lemma_page_found(scan: RemoteScanView, entries: Seq<RemoteEntry>, p: Seq<Seq<char>>)
    requires
        page_outcome(scan, entries).1 is None,
        page_outcome(scan, entries).0.found.contains_key(p),
    ensures
        page_outcome(scan, entries).0.current == scan.current,
        scan.found.contains_key(p) || exists|y: int|
            0 <= y < entries.len() && counts(#[trigger] entries[y]) && scan.current->0.push(
                entries[y].file@.name,
            ) == p,
    decreases entries.len(),
{
    if entries.len() > 0 {
        let shorter = entries.drop_last();
        let before = page_outcome(scan, shorter).0;
        let n = shorter.len() as int;
        lemma_page_current(scan, shorter);
        if before.found.contains_key(p) {
            lemma_page_found(scan, shorter, p);
            if !scan.found.contains_key(p) {
                let y = choose|y: int|
                    0 <= y < shorter.len() && counts(#[trigger] shorter[y]) && scan.current->0.push(
                        shorter[y].file@.name,
                    ) == p;
                assert(entries[y] == shorter[y]);
            }
        } else {
            assert(counts(entries[n]));
        }
    }
}

proof fn lemma_page_current(scan: RemoteScanView, entries: Seq<RemoteEntry>)
    ensures
        page_outcome(scan, entries).0.current == scan.current,
    decreases entries.len(),
{
    if entries.len() > 0 {
        lemma_page_current(scan, entries.drop_last());
    }
}

proof fn lemma_refused_there(scan: RemoteScanView, entries: Seq<RemoteEntry>) -> (x: int)
    requires
        page_outcome(scan, entries).1 is Some,
    ensures
        0 <= x < entries.len(),
        is_refused_there(
            scan.found,
            scan.current->0,
            entries,
            x,
            page_outcome(scan, entries).1->0,
        ),
    decreases entries.len(),
{
    let shorter = entries.drop_last();
    let n = entries.len() - 1;
    lemma_page_current(scan, shorter);
    if page_outcome(scan, shorter).1 is Some {
        let x = lemma_refused_there(scan, shorter);
        assert(entries[x] == shorter[x]);
        let error = page_outcome(scan, entries).1->0;
        if counts(shorter[x]) && error == SyncErrorView::Duplicate {
            if exists|y: int|
                0 <= y < x && counts(#[trigger] shorter[y]) && shorter[y].file@.name
                    == shorter[x].file@.name {
                let y = choose|y: int|
                    0 <= y < x && counts(#[trigger] shorter[y]) && shorter[y].file@.name
                        == shorter[x].file@.name;
                assert(entries[y] == shorter[y]);
            }
        }
        x
    } else {
        let before = page_outcome(scan, shorter).0;
        let name = entries[n].file@.name;
        let path = scan.current->0.push(name);
        if before.found.contains_key(path) {
            lemma_page_found(scan, shorter, path);
            if !scan.found.contains_key(path) {
                let y = choose|y: int|
                    0 <= y < shorter.len() && counts(#[trigger] shorter[y]) && scan.current->0.push(
                        shorter[y].file@.name,
                    ) == path;
                assert(entries[y] == shorter[y]);
                assert(scan.current->0.push(entries[y].file@.name).last() == path.last());
            }
        }
        n
    }
}

/// Whether two different paths of these are aliases, and are told of.
pub open spec fn is_alias_told(paths: Set<Seq<Seq<char>>>, error: SyncErrorView) -> bool {
    error matches SyncErrorView::Collision(a, b) && a != b && alias(a) == alias(b) && paths.contains(a)
        && paths.contains(b)
}

proof fn lemma_collisions_are_aliases(
    local: Set<Seq<Seq<char>>>,
    remote: Set<Seq<Seq<char>>>,
    error: SyncErrorView,
)
    requires
        is_collision(local, remote, error),
    ensures
        is_alias_told(local.union(remote), error),
{
    let (a, b, i, j) = choose|
        a: Seq<Seq<Seq<char>>>,
        b: Seq<Seq<Seq<char>>>,
        i: int,
        j: int,
    |
        enumerates(a, local) && enumerates(b, remote)
            && #[trigger] first_alias(a + b, i, j) && error
            == SyncErrorView::Collision((a + b)[i], (a + b)[j]);
    assert forall|k: int| 0 <= k < (a + b).len() implies local.union(remote).contains(
        #[trigger] (a + b)[k],
    ) by {
        if k < a.len() {
            assert(a.contains(a[k]));
        } else {
            assert(b.contains(b[k - a.len()]));
        }
    }
}

/// Whether a path with a directory is in conflict, so that the reconciliation stops at it.
pub open spec fn is_directory_conflict(
    local: Option<FingerprintView>,
    remote: Option<FileView>,
    record: Option<FileMetadataView>,
) -> bool {
    let base = recorded_print(record);
    match (local, remote) {
        (Some(here), Some(there)) => here.directory != there.is_folder && (base is None || base->0
            != here && remote_differs(there, record->0)),
        (Some(here), None) => here.directory && base is Some && base->0 != here,
        (None, Some(there)) => there.is_folder && base is Some && remote_differs(there, record->0),
        (None, None) => false,
    }
}

/// Why a course that settles, or that transfers, stops at a visit.
pub open spec fn is_stopped_at(visits: Seq<Visit>, error: SyncErrorView) -> bool {
    exists|k: int|
        0 <= k < visits.len() && error == SyncErrorView::TypeConflict(
            (#[trigger] visits[k]).path@,
        ) && types_differ(visits[k]@.local, visits[k]@.remote)
}

/// Why a course that got an answer of the right kind at turn `i` stops with `error`.
pub open spec fn is_reason(course: SyncCourse, i: int, error: SyncErrorView) -> bool {
    match (course.stages[i], course.answers[i]) {
        (StageView::Listing { scan, progressed }, SyncAnswer::Page(entries, _)) => exists|x: int|
            0 <= x < entries@.len() && #[trigger] is_refused_there(
                scan.found,
                scan.current->0,
                entries@,
                x,
                error,
            ),
        (
            StageView::Reading { scan, dir, children, progressed },
            SyncAnswer::Directory(state),
        ) => {
            let local = all_found(Map::empty(), dir, state.entries@);
            ||| (check_view(state.checked) matches Some(fault) && error == SyncErrorView::Local(
                LocalErrorView::Path(fault),
            ))
            ||| state.present && exists|x: int|
                0 <= x < state.entries@.len() && is_refused_here(
                    #[trigger] state.entries@[x],
                    error,
                )
            ||| state.present && is_alias_told(local.dom().union(children.dom()), error)
            ||| state.present && exists|path: Seq<Seq<char>>| #[trigger]
                types_differ(at(local, path), at(children, path)) && error
                    == SyncErrorView::TypeConflict(path)
        },
        (
            StageView::Transferring { scan, dir, visits, at, work, progressed },
            answer,
        ) => {
            ||| (answer matches SyncAnswer::Scanned(found) && (scan_view(found) matches Err(fault)
                && error == SyncErrorView::Local(fault)))
            ||| is_stopped_at(visits, error)
        },
        (StageView::Scanning { local, remote, progressed }, SyncAnswer::Entries(entries)) => {
            ||| exists|x: int|
                0 <= x < entries@.len() && is_refused_here(#[trigger] entries@[x], error)
            ||| is_alias_told(
                after_local_entries(local, entries@).found.dom().union(remote.dom()),
                error,
            )
        },
        (
            StageView::Planning { local, remote, progressed },
            SyncAnswer::Drive(state),
        ) => exists|path: Seq<Seq<char>>|
            state.records@.contains_key(path) && #[trigger] folder_fault(
                local,
                remote,
                record_views(state.records@),
                state.ignored@.dom(),
                path,
            ) == Some(error),
        (StageView::Settling(s, Wait::Path), SyncAnswer::Checked(checked)) => {
            ||| (check_view(checked) matches Some(fault) && error == SyncErrorView::Local(
                LocalErrorView::Path(fault),
            ))
            ||| checked is Ok && exists|path: Seq<Seq<char>>| #[trigger]
                types_differ(at(s.local, path), at(s.remote, path)) && error
                    == SyncErrorView::TypeConflict(path)
            ||| checked is Ok && exists|path: Seq<Seq<char>>| #[trigger]
                is_directory_conflict(
                    at(s.local, path),
                    at(s.remote, path),
                    at(s.records, path),
                ) && error == SyncErrorView::DirectoryConflict(path)
        },
        (StageView::Settling(s, wait), SyncAnswer::Scanned(found)) => {
            let visit = s.visits[s.visited as int]@;
            match scan_view(found) {
                Err(fault) => error == SyncErrorView::Local(fault),
                Ok(print) => {
                    ||| wait == Wait::Comparison && print != visit.local && error
                        == SyncErrorView::ChangedDuringReconciliation
                    ||| wait == Wait::Comparison && error == SyncErrorView::MissingFilename
                        && exists|id: u128| #[trigger] conflict_path_view(visit.path, id) is None
                    ||| wait == Wait::Absence && print is Some && error
                        == SyncErrorView::ReappearedBeforeDeletion
                },
            }
        },
        (StageView::Settling(s, Wait::Local), SyncAnswer::Local(found, _)) => match scan_view(found) {
            Err(fault) => error == SyncErrorView::Local(fault),
            Ok(print) => print != s.deletions[s.deleted as int]@.expected && error
                == SyncErrorView::ChangedBeforeDeletion,
        },
        (StageView::Settling(s, Wait::Remote), SyncAnswer::Remote(latest)) => remote_differs(
            latest@,
            s.records[s.deletions[s.deleted as int].path@],
        ) && error == SyncErrorView::RemoteChangedBeforeDeletion,
        _ => false,
    }
}

proof fn lemma_next_transfer_stops(
    drive: u128,
    scan: RemoteScanView,
    dir: Seq<Seq<char>>,
    visits: Seq<Visit>,
    at: nat,
    progressed: Set<Seq<Seq<char>>>,
)
    requires
        are_early(visits),
    ensures
        next_transfer(drive, scan, dir, visits, at, progressed).1 matches SyncAskView::Failed(error)
            ==> is_stopped_at(visits, error),
    decreases visits.len() - at,
{
    if at < visits.len() {
        let visit = visits[at as int];
        assert(is_early_visit(visit@));
        let (active, record) = choose|active: bool, record: Option<FileMetadataView>|
            visit@.step == #[trigger] early_step(active, visit@.local, visit@.remote, record);
        assert(visit@.path == visit.path@);
        lemma_next_transfer_stops(drive, scan, dir, visits, at + 1, progress(progressed, visit));
    }
}

proof fn lemma_directory_stops_for_a_reason(course: SyncCourse, i: int)
    requires
        course.wf(),
        course.turns(i),
        course.stages[i] is Reading,
        course.answers[i] is Directory,
    ensures
        course.asks[i + 1] matches SyncAskView::Failed(error) ==> is_reason(course, i, error),
{
    if let StageView::Reading { scan, dir, children, progressed } = course.stages[i] {
        let state = course.answers[i]->Directory_0;
        let turn = (course.stages[i + 1], course.asks[i + 1]);
        let local = all_found(Map::empty(), dir, state.entries@);
        if check_view(state.checked) is None && state.present {
            if first_refused(state.entries@) is Some {
                let x = lemma_refused_here(state.entries@);
                assert(is_refused_here(state.entries@[x], first_refused(state.entries@)->0));
            } else {
                let records = record_views(state.records@);
                let active = state.active@.dom();
                if exists|visits: Seq<Visit>| #[trigger]
                    is_directory_plan(visits, local, children, records, active) && turn
                        == next_transfer(course.drive, scan, dir, visits, 0, progressed) {
                    let visits = choose|visits: Seq<Visit>| #[trigger]
                        is_directory_plan(visits, local, children, records, active) && turn
                            == next_transfer(course.drive, scan, dir, visits, 0, progressed);
                    assert(are_early(visits)) by {
                        assert forall|k: int| 0 <= k < visits.len() implies is_early_visit(
                            (#[trigger] visits[k])@,
                        ) by {
                            let path = visits[k].path@;
                            assert(visits[k]@.step == early_step(
                                active.contains(path),
                                visits[k]@.local,
                                visits[k]@.remote,
                                at(records, path),
                            ));
                        }
                    }
                    lemma_next_transfer_stops(course.drive, scan, dir, visits, 0, progressed);
                    if let SyncAskView::Failed(error) = turn.1 {
                        let k = choose|k: int|
                            0 <= k < visits.len() && error == SyncErrorView::TypeConflict(
                                (#[trigger] visits[k]).path@,
                            ) && types_differ(visits[k]@.local, visits[k]@.remote);
                        assert(types_differ(
                            at(local, visits[k].path@),
                            at(children, visits[k].path@),
                        ));
                    }
                } else {
                    let error = choose|error: SyncErrorView| #[trigger]
                        is_collision(local.dom(), children.dom(), error)
                            && turn == failed(error);
                    lemma_collisions_are_aliases(local.dom(), children.dom(), error);
                }
            }
        } else if check_view(state.checked) is None {
            assert(are_early(Seq::<Visit>::empty()));
            lemma_next_transfer_stops(
                course.drive,
                scan,
                dir,
                Seq::<Visit>::empty(),
                0,
                progressed,
            );
        }
    }
}

proof fn lemma_transfer_stops_for_a_reason(course: SyncCourse, i: int)
    requires
        course.wf(),
        course.turns(i),
        course.stages[i] is Transferring,
        fits(course.asks[i], course.answers[i]),
    ensures
        course.asks[i + 1] matches SyncAskView::Failed(error) ==> is_reason(course, i, error),
{
    lemma_transfers_are_planned(course, i);
    lemma_transfer_is_under_way(course, i);
    if let StageView::Transferring { scan, dir, visits, at, work, progressed } = course.stages[i] {
        let visit = visits[at as int];
        assert(is_early_visit(visit@));
        let (active, record) = choose|active: bool, record: Option<FileMetadataView>|
            visit@.step == #[trigger] early_step(active, visit@.local, visit@.remote, record);
        let grown = match course.answers[i] {
            SyncAnswer::Created(file) => if work == Work::Creating {
                with_created(scan, visit.path@, file@)
            } else {
                scan
            },
            _ => scan,
        };
        lemma_next_transfer_stops(
            course.drive,
            grown,
            dir,
            visits,
            at + 1,
            progress(progressed, visit),
        );
    }
}

proof fn lemma_scan_stops_for_a_reason(course: SyncCourse, i: int)
    requires
        course.wf(),
        course.turns(i),
        course.stages[i] is Scanning,
        course.answers[i] is Entries,
    ensures
        course.asks[i + 1] matches SyncAskView::Failed(error) ==> is_reason(course, i, error),
{
    if let StageView::Scanning { local, remote, progressed } = course.stages[i] {
        let entries = course.answers[i]->Entries_0@;
        if first_refused(entries) is Some {
            let x = lemma_refused_here(entries);
            assert(is_refused_here(entries[x], first_refused(entries)->0));
        } else if let SyncAskView::Failed(error) = course.asks[i + 1] {
            let found = after_local_entries(local, entries).found;
            assert(is_collision(found.dom(), remote.dom(), error));
            lemma_collisions_are_aliases(found.dom(), remote.dom(), error);
        }
    }
}

proof fn lemma_plan_stops_for_a_reason(course: SyncCourse, i: int)
    requires
        course.wf(),
        course.turns(i),
        course.stages[i] is Planning,
        course.answers[i] is Drive,
    ensures
        course.asks[i + 1] matches SyncAskView::Failed(error) ==> is_reason(course, i, error),
{
    if let StageView::Planning { local, remote, progressed } = course.stages[i] {
        let state = course.answers[i]->Drive_0;
        let records = record_views(state.records@);
        let ignored = state.ignored@.dom();
        if let SyncAskView::Failed(error) = course.asks[i + 1] {
            assert(is_folder_fault(local, remote, records, ignored, error));
            let (keys, k) = choose|keys: Seq<Seq<Seq<char>>>, k: int|
                enumerates(keys, records.dom()) && 0 <= k < keys.len()
                    && folder_fault(local, remote, records, ignored, #[trigger] keys[k]) == Some(
                    error,
                ) && forall|j: int|
                    0 <= j < k ==> folder_fault(local, remote, records, ignored, #[trigger] keys[j])
                        is None;
            assert(keys.contains(keys[k]));
            assert(records.dom().contains(keys[k]));
            assert(folder_fault(local, remote, records, ignored, keys[k]) == Some(error));
        }
    }
}

proof fn lemma_check_stops_for_a_reason(course: SyncCourse, i: int)
    requires
        course.wf(),
        course.turns(i),
        course.stages[i] matches StageView::Settling(_, Wait::Path),
        course.answers[i] is Checked,
    ensures
        course.asks[i + 1] matches SyncAskView::Failed(error) ==> is_reason(course, i, error),
{
    lemma_courses_are_steady(course, i);
    if let StageView::Settling(s, wait) = course.stages[i] {
        if s.visited < s.visits.len() {
            let k = s.visited as int;
            let visit = s.visits[k]@;
            let path = s.visits[k].path@;
            assert(visit.path == path);
            assert(visit.step == Step::Skip || visit.step == chosen_step(
                at(s.local, path),
                at(s.remote, path),
                at(s.records, path),
            ));
            if visit.step == Step::TypeConflict {
                assert(types_differ(at(s.local, path), at(s.remote, path)));
            }
            if visit.step == Step::DirectoryConflict {
                assert(is_directory_conflict(
                    at(s.local, path),
                    at(s.remote, path),
                    at(s.records, path),
                ));
            }
        }
    }
}

proof fn lemma_settlement_stops_for_a_reason(course: SyncCourse, i: int)
    requires
        course.wf(),
        course.turns(i),
        course.stages[i] is Settling,
        !(course.stages[i]->Settling_1 is Path),
        fits(course.asks[i], course.answers[i]),
    ensures
        course.asks[i + 1] matches SyncAskView::Failed(error) ==> is_reason(course, i, error),
{
    lemma_courses_are_steady(course, i);
    lemma_settling_asks(course, i);
    if let StageView::Settling(s, wait) = course.stages[i] {
        match wait {
            Wait::Work(work) => {
                let k = s.visited as int;
                let visit = s.visits[k]@;
                let path = s.visits[k].path@;
                assert(visit.step == Step::Skip || visit.step == chosen_step(
                    at(s.local, path),
                    at(s.remote, path),
                    at(s.records, path),
                ));
            },
            Wait::Comparison => {
                if let SyncAnswer::Scanned(current) = course.answers[i] {
                    let turn = (course.stages[i + 1], course.asks[i + 1]);
                    let id = choose|id: u128| #[trigger]
                        is_random_uuid(id) && turn == compared(s, scan_view(current), id);
                    assert(turn == compared(s, scan_view(current), id));
                    let visit = s.visits[s.visited as int]@;
                    if conflict_path_view(visit.path, id) is None {
                    }
                }
            },
            _ => lemma_deletion_is_planned(s, s.deleted as int),
        }
    }
}

/// A reconciliation stops only for a reason: an entry or a path that is refused, two paths that are
/// aliases, a folder that is gone on one side and not as it was on the other, a file on one side and a
/// directory on the other, a directory in conflict, or content that changed or could not be read
/// meanwhile. Whatever else is answered, as long as it is what was asked for, it goes on.
pub proof fn lemma_reconciliations_stop_for_a_reason(course: SyncCourse, i: int)
    requires
        course.wf(),
        course.turns(i),
        fits(course.asks[i], course.answers[i]),
    ensures
        course.asks[i + 1] matches SyncAskView::Failed(error) ==> is_reason(course, i, error),
{
    lemma_stages_ask(course, i);
    match course.stages[i] {
        StageView::Listing { scan, progressed } => {
            let entries = course.answers[i]->Page_0@;
            if page_outcome(scan, entries).1 is Some {
                let x = lemma_refused_there(scan, entries);
                assert(is_refused_there(
                    scan.found,
                    scan.current->0,
                    entries,
                    x,
                    page_outcome(scan, entries).1->0,
                ));
            }
        },
        StageView::Reading { .. } => lemma_directory_stops_for_a_reason(course, i),
        StageView::Transferring { .. } => lemma_transfer_stops_for_a_reason(course, i),
        StageView::Scanning { .. } => lemma_scan_stops_for_a_reason(course, i),
        StageView::Planning { .. } => lemma_plan_stops_for_a_reason(course, i),
        StageView::Settling(s, wait) => {
            if wait is Path {
                lemma_settling_asks(course, i);
                lemma_check_stops_for_a_reason(course, i);
            } else {
                lemma_settlement_stops_for_a_reason(course, i);
            }
        },
        StageView::Ended => {},
    }
}

} // verus!
