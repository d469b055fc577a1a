//! The whole course of a reconciliation: the remote tree is listed directory by directory, with
//! transfers begun on the way; then the local tree is read again; then every path is visited, and
//! at the end entries are deleted. The caller carries out what is asked for and hands back the
//! answer; where the answer is an error of the outside, it drops the reconciliation.
use crate::agenda::{Agenda, effect, Effect, effect_of, EffectView, Job};
use crate::aliases::{first_alias, no_aliases};
use crate::deletions::{
    asks_deletion, begin, beginning, confirm_absence, confirm_local_deletion,
    confirm_remote_deletion, Deletion, in_deletion_order, is_asked, is_served, keep_both, KeepBoth,
    kept_both, local_removal, Removal,
};
use crate::local_file::{
    copy_print, Fingerprint, FingerprintView, LocalError, LocalErrorView, scan_view, ScanView, Stat,
};
use crate::local_scan::{
    after_local_entries, all_found, first_refused, LocalEntry, LocalListing, LocalScan,
    LocalScanView, print_views,
};
use crate::outside::is_random_uuid;
use crate::path::{below, check_view, LocalPath, PathError, PathErrorView};
use crate::path_map::{increasing, PathMap};
use crate::plan::{
    folder_fault, folders_clean, is_directory_plan, is_plan, makes_progress, note_progress, plan,
    plan_directory, record_views, Trees, visit_paths,
};
use crate::records::{Disposal, FileMetadata, FileMetadataView, FileResponse, FileView};
use crate::remote_scan::{
    file_views, page_outcome, RemoteEntry, RemoteScan, RemoteScanView, RemoteTree,
};
use crate::steps::Visit;
use crate::sync::remote_differs;
use crate::sync_error::{SyncError, SyncErrorView};
use crate::work::{
    begin_work, continue_work, DirectoryState, DriveState, SyncAnswer, SyncAsk, SyncAskView, Work,
    work_answer, work_begun, work_continued, WorkTurn, WorkTurnView,
};
use vstd::prelude::*;

verus! {

/// What a reconciliation waits for once everything is planned.
#[derive(Debug, Clone, Copy, PartialEq, Eq, Structural)]
pub enum Wait {
    /// The check of the path that comes next.
    Path,
    /// The effect of a visit.
    Work(Work),
    /// What stands at a path in conflict.
    Comparison,
    /// The last look at a local entry.
    Local,
    /// The last look at the local side of a remote entry.
    Absence,
    /// The last look at a remote entry.
    Remote,
    /// The last look into a remote folder.
    Inside,
    /// The removal of an entry.
    Removal,
    /// That the record of a removed entry is dropped.
    Dropping,
}

/// The visits and deletions of a reconciliation, with what they were planned from.
pub struct SettlementView {
    pub local: Map<Seq<Seq<char>>, FingerprintView>,
    pub remote: Map<Seq<Seq<char>>, FileView>,
    pub records: Map<Seq<Seq<char>>, FileMetadataView>,
    pub ignored: Set<Seq<Seq<char>>>,
    pub active: Set<Seq<Seq<char>>>,
    pub progressed: Set<Seq<Seq<char>>>,
    pub visits: Seq<Visit>,
    pub deletions: Seq<Deletion>,
    pub visited: nat,
    pub deleted: nat,
}

/// How far a reconciliation has come.
pub enum StageView {
    /// It waits for a page of a remote listing.
    Listing { scan: RemoteScanView, progressed: Set<Seq<Seq<char>>> },
    /// It waits for the state of the directory whose remote listing is complete.
    Reading {
        scan: RemoteScanView,
        dir: Seq<Seq<char>>,
        children: Map<Seq<Seq<char>>, FileView>,
        progressed: Set<Seq<Seq<char>>>,
    },
    /// It waits for a transfer in that directory.
    Transferring {
        scan: RemoteScanView,
        dir: Seq<Seq<char>>,
        visits: Seq<Visit>,
        at: nat,
        work: Work,
        progressed: Set<Seq<Seq<char>>>,
    },
    /// It waits for the entries of a local directory.
    Scanning {
        local: LocalScanView,
        remote: Map<Seq<Seq<char>>, FileView>,
        progressed: Set<Seq<Seq<char>>>,
    },
    /// It waits for the state of the drive.
    Planning {
        local: Map<Seq<Seq<char>>, FingerprintView>,
        remote: Map<Seq<Seq<char>>, FileView>,
        progressed: Set<Seq<Seq<char>>>,
    },
    /// It goes through its visits and deletions.
    Settling(SettlementView, Wait),
    /// It is over.
    Ended,
}

/// A stage and what is asked for in it.
pub type SyncTurn = (StageView, SyncAskView);

/// The reconciliation stops.
pub open spec fn failed(error: SyncErrorView) -> SyncTurn {
    (StageView::Ended, SyncAskView::Failed(error))
}

/// The paths of a set, in their order.
pub open spec fn enumerates(paths: Seq<Seq<Seq<char>>>, set: Set<Seq<Seq<char>>>) -> bool {
    increasing(paths) && forall|p: Seq<Seq<char>>| #[trigger] paths.contains(p) <==> set.contains(p)
}

/// Whether `error` tells of the first path, of the local ones and then of the remote ones, that is
/// an alias of a different one before it.
pub open spec fn is_collision(
    local: Set<Seq<Seq<char>>>,
    remote: Set<Seq<Seq<char>>>,
    error: SyncErrorView,
) -> bool {
    exists|a: Seq<Seq<Seq<char>>>, b: Seq<Seq<Seq<char>>>, i: int, j: int|
        enumerates(a, local) && enumerates(b, remote) && #[trigger] first_alias(a + b, i, j)
            && error == SyncErrorView::Collision((a + b)[i], (a + b)[j])
}

/// Whether `error` tells of the first recorded folder that cannot be deleted although it is gone
/// on one side.
pub open spec fn is_folder_fault(
    local: Map<Seq<Seq<char>>, FingerprintView>,
    remote: Map<Seq<Seq<char>>, FileView>,
    records: Map<Seq<Seq<char>>, FileMetadataView>,
    ignored: Set<Seq<Seq<char>>>,
    error: SyncErrorView,
) -> bool {
    exists|keys: Seq<Seq<Seq<char>>>, i: int|
        enumerates(keys, records.dom()) && 0 <= i < keys.len() && folder_fault(
            local,
            remote,
            records,
            ignored,
            #[trigger] keys[i],
        ) == Some(error) && forall|j: int|
            0 <= j < i ==> folder_fault(local, remote, records, ignored, #[trigger] keys[j]) is None
}

/// A reconciliation begins with the remote listing of the root.
pub open spec fn sync_begun(root: Seq<Seq<char>>) -> SyncTurn {
    (
        StageView::Listing {
            scan: RemoteScanView {
                root,
                waiting: Seq::empty(),
                current: Some(root),
                children: Map::empty(),
                found: Map::empty(),
                listed: Seq::empty(),
                failed: false,
            },
            progressed: Set::empty(),
        },
        SyncAskView::ListRemote(root),
    )
}

/// The next directory is listed, or else the local tree is read from its root on.
pub open spec fn next_listing(scan: RemoteScanView, progressed: Set<Seq<Seq<char>>>) -> SyncTurn {
    if scan.waiting.len() > 0 {
        let dir = scan.waiting[0];
        (
            StageView::Listing {
                scan: RemoteScanView {
                    waiting: scan.waiting.drop_first(),
                    current: Some(dir),
                    ..scan
                },
                progressed,
            },
            SyncAskView::ListRemote(dir),
        )
    } else {
        (
            StageView::Scanning {
                local: LocalScanView {
                    root: scan.root,
                    waiting: Seq::empty(),
                    current: Some(scan.root),
                    found: Map::empty(),
                    listed: Seq::empty(),
                    failed: false,
                },
                remote: scan.found,
                progressed,
            },
            SyncAskView::ScanLocal(scan.root),
        )
    }
}

/// The paths where a transfer was begun, after a visit.
pub open spec fn progress(progressed: Set<Seq<Seq<char>>>, visit: Visit) -> Set<Seq<Seq<char>>> {
    if makes_progress(visit.step) {
        progressed.insert(visit.path@)
    } else {
        progressed
    }
}

/// The visits of a directory go on at `at`, and then the next directory is listed.
pub open spec fn next_transfer(
    drive: u128,
    scan: RemoteScanView,
    dir: Seq<Seq<char>>,
    visits: Seq<Visit>,
    at: nat,
    progressed: Set<Seq<Seq<char>>>,
) -> SyncTurn
    decreases visits.len() - at,
{
    if at >= visits.len() {
        next_listing(scan, progressed)
    } else {
        let visit = visits[at as int];
        match effect_of(visit@, None) {
            Err(error) => failed(error),
            Ok(effect) => match work_begun(visit@, effect, drive) {
                WorkTurnView::Complete => next_transfer(
                    drive,
                    scan,
                    dir,
                    visits,
                    at + 1,
                    progress(progressed, visit),
                ),
                WorkTurnView::Asks(work, ask) => (
                    StageView::Transferring { scan, dir, visits, at, work, progressed },
                    ask,
                ),
                WorkTurnView::Fails(error) => failed(error),
            },
        }
    }
}

/// The scan with a folder that was created in a directory already listed.
pub open spec fn with_created(scan: RemoteScanView, path: Seq<Seq<char>>, file: FileView) -> RemoteScanView {
    RemoteScanView {
        waiting: scan.waiting.push(path),
        found: scan.found.insert(path, file),
        ..scan
    }
}

/// What comes next of the visits and deletions.
pub open spec fn next_job(s: SettlementView) -> SyncTurn {
    if s.visited < s.visits.len() {
        (
            StageView::Settling(s, Wait::Path),
            SyncAskView::CheckPath(s.visits[s.visited as int].path@),
        )
    } else if s.deleted < s.deletions.len() {
        (
            StageView::Settling(s, Wait::Path),
            SyncAskView::CheckPath(s.deletions[s.deleted as int].path@),
        )
    } else {
        (StageView::Ended, SyncAskView::Finished)
    }
}

/// A visit is done.
pub open spec fn visit_done(s: SettlementView) -> SyncTurn {
    next_job(SettlementView { visited: s.visited + 1, ..s })
}

/// A deletion is done, or was let go.
pub open spec fn deletion_done(s: SettlementView) -> SyncTurn {
    next_job(SettlementView { deleted: s.deleted + 1, ..s })
}

/// The effect of a visit goes on.
pub open spec fn visit_turn(s: SettlementView, turn: WorkTurnView) -> SyncTurn {
    match turn {
        WorkTurnView::Complete => visit_done(s),
        WorkTurnView::Asks(work, ask) => (StageView::Settling(s, Wait::Work(work)), ask),
        WorkTurnView::Fails(error) => failed(error),
    }
}

/// The path that comes next was checked.
pub open spec fn path_checked(
    drive: u128,
    s: SettlementView,
    fault: Option<PathErrorView>,
) -> SyncTurn {
    if s.visited < s.visits.len() {
        let visit = s.visits[s.visited as int]@;
        match effect_of(visit, fault) {
            Err(error) => failed(error),
            Ok(EffectView::KeepBoth) => if visit.local is Some {
                (StageView::Settling(s, Wait::Comparison), SyncAskView::Look(visit.path))
            } else {
                (
                    StageView::Settling(s, Wait::Work(Work::Forgetting(visit.remote is Some))),
                    SyncAskView::Forget(visit.path),
                )
            },
            Ok(effect) => visit_turn(s, work_begun(visit, effect, drive)),
        }
    } else {
        let deletion = s.deletions[s.deleted as int]@;
        if fault is Some {
            failed(SyncErrorView::Local(LocalErrorView::Path(fault->0)))
        } else if deletion.remote {
            (StageView::Settling(s, Wait::Absence), SyncAskView::Look(deletion.path))
        } else {
            (
                StageView::Settling(s, Wait::Local),
                SyncAskView::LookLocal(
                    deletion.path,
                    deletion.expected is Some && deletion.expected->0.directory,
                ),
            )
        }
    }
}

/// How a conflict is settled, with the name that `id` makes.
pub open spec fn compared(
    s: SettlementView,
    current: ScanView,
    id: u128,
) -> SyncTurn {
    let visit = s.visits[s.visited as int]@;
    match kept_both(visit, current, id) {
        Err(error) => failed(error),
        Ok(kept) => match (kept.copy, kept.notice) {
            (Some(copy), Some(notice)) => (
                StageView::Settling(s, Wait::Work(Work::Moving(kept.fetch))),
                SyncAskView::MoveAside(visit.path, copy, notice),
            ),
            _ => (
                StageView::Settling(s, Wait::Work(Work::Forgetting(kept.fetch))),
                SyncAskView::Forget(visit.path),
            ),
        },
    }
}

/// The local entry of a deletion was looked at for the last time.
pub open spec fn local_looked(
    s: SettlementView,
    current: ScanView,
    occupied: bool,
) -> SyncTurn {
    let deletion = s.deletions[s.deleted as int]@;
    match local_removal(deletion.expected, current, occupied) {
        Err(error) => failed(error),
        Ok(Removal::Keep) => deletion_done(s),
        Ok(removal) => (
            StageView::Settling(s, Wait::Removal),
            SyncAskView::RemoveLocal(deletion.path, removal),
        ),
    }
}

/// The local side of a remote deletion was looked at for the last time.
pub open spec fn absence_looked(s: SettlementView, current: ScanView) -> SyncTurn {
    match current {
        Err(error) => failed(SyncErrorView::Local(error)),
        Ok(Some(_)) => failed(SyncErrorView::ReappearedBeforeDeletion),
        Ok(None) => (
            StageView::Settling(s, Wait::Remote),
            SyncAskView::LookRemote(s.deletions[s.deleted as int].path@),
        ),
    }
}

/// The remote entry of a deletion was looked at for the last time.
pub open spec fn remote_looked(s: SettlementView, latest: FileView) -> SyncTurn {
    let path = s.deletions[s.deleted as int].path@;
    if !s.records.contains_key(path) {
        failed(SyncErrorView::MisplacedAnswer)
    } else if remote_differs(latest, s.records[path]) {
        failed(SyncErrorView::RemoteChangedBeforeDeletion)
    } else if latest.is_folder {
        (StageView::Settling(s, Wait::Inside), SyncAskView::LookInside(path))
    } else {
        remote_removed(s)
    }
}

/// The remote entry of a deletion is removed.
pub open spec fn remote_removed(s: SettlementView) -> SyncTurn {
    (
        StageView::Settling(s, Wait::Removal),
        SyncAskView::RemoveRemote(s.deletions[s.deleted as int].path@, Disposal::Soft),
    )
}

/// The remote folder of a deletion was looked into for the last time.
pub open spec fn inside_looked(s: SettlementView, occupied: bool) -> SyncTurn {
    if occupied {
        deletion_done(s)
    } else {
        remote_removed(s)
    }
}

/// Whether the reconciliation goes on as `turn` where this is all that is known of both trees and
/// of the drive.
pub open spec fn planned(
    local: Map<Seq<Seq<char>>, FingerprintView>,
    remote: Map<Seq<Seq<char>>, FileView>,
    records: Map<Seq<Seq<char>>, FileMetadataView>,
    ignored: Set<Seq<Seq<char>>>,
    active: Set<Seq<Seq<char>>>,
    progressed: Set<Seq<Seq<char>>>,
    turn: SyncTurn,
) -> bool {
    ||| exists|error: SyncErrorView| #[trigger]
        is_folder_fault(local, remote, records, ignored, error) && turn == failed(error)
    ||| exists|s: SettlementView| #[trigger]
        is_settlement(s) && s.local == local && s.remote == remote && s.records == records
            && s.ignored == ignored && s.active == active && s.progressed == progressed && s.visited
            == 0 && s.deleted == 0 && turn == next_job(s)
}

/// Whether the reconciliation goes on as `turn` where this is the state of the directory whose remote
/// listing is complete.
pub open spec fn directory_read(
    drive: u128,
    scan: RemoteScanView,
    dir: Seq<Seq<char>>,
    children: Map<Seq<Seq<char>>, FileView>,
    progressed: Set<Seq<Seq<char>>>,
    state: DirectoryState,
    turn: SyncTurn,
) -> bool {
    let local = all_found(Map::empty(), dir, state.entries@);
    if check_view(state.checked) is Some {
        turn == failed(SyncErrorView::Local(LocalErrorView::Path(check_view(state.checked)->0)))
    } else if !state.present {
        turn == next_transfer(drive, scan, dir, Seq::empty(), 0, progressed)
    } else if first_refused(state.entries@) is Some {
        turn == failed(first_refused(state.entries@)->0)
    } else {
        ||| exists|error: SyncErrorView| #[trigger]
            is_collision(local.dom(), children.dom(), error) && turn == failed(error)
        ||| no_aliases(local.dom().union(children.dom())) && exists|visits: Seq<Visit>| #[trigger]
            is_directory_plan(
                visits,
                local,
                children,
                record_views(state.records@),
                state.active@.dom(),
            ) && turn == next_transfer(drive, scan, dir, visits, 0, progressed)
    }
}

/// Whether a reconciliation that is in `before` and gets `answer` can go on as `turn`. It can go on
/// in one way alone, but for the name of a version that is moved aside.
pub open spec fn follows(drive: u128, before: StageView, answer: SyncAnswer, turn: SyncTurn) -> bool {
    match (before, answer) {
        (StageView::Listing { scan, progressed }, SyncAnswer::Page(entries, more)) => {
            let (next, error) = page_outcome(scan, entries@);
            let dir = next.current->0;
            turn == match error {
                Some(error) => failed(error),
                None => if more {
                    (StageView::Listing { scan: next, progressed }, SyncAskView::ListRemote(dir))
                } else {
                    (
                        StageView::Reading {
                            scan: RemoteScanView {
                                current: None,
                                children: Map::empty(),
                                listed: next.listed.push(dir),
                                ..next
                            },
                            dir,
                            children: next.children,
                            progressed,
                        },
                        SyncAskView::ReadDirectory(dir),
                    )
                },
            }
        },
        (
            StageView::Reading { scan, dir, children, progressed },
            SyncAnswer::Directory(state),
        ) => directory_read(drive, scan, dir, children, progressed, state, turn),
        (
            StageView::Transferring { scan, dir, visits, at, work, progressed },
            answer,
        ) => {
            let visit = visits[at as int];
            let grown = match answer {
                SyncAnswer::Created(file) => if work == Work::Creating {
                    with_created(scan, visit.path@, file@)
                } else {
                    scan
                },
                _ => scan,
            };
            turn == match work_continued(visit@, drive, work, work_answer(answer)) {
                WorkTurnView::Complete => next_transfer(
                    drive,
                    grown,
                    dir,
                    visits,
                    at + 1,
                    progress(progressed, visit),
                ),
                WorkTurnView::Asks(next, ask) => (
                    StageView::Transferring {
                        scan: grown,
                        dir,
                        visits,
                        at,
                        work: next,
                        progressed,
                    },
                    ask,
                ),
                WorkTurnView::Fails(error) => failed(error),
            }
        },
        (StageView::Scanning { local, remote, progressed }, SyncAnswer::Entries(entries)) => {
            let read = after_local_entries(local, entries@);
            let next = LocalScanView {
                current: None,
                listed: read.listed.push(local.current->0),
                ..read
            };
            if first_refused(entries@) is Some {
                turn == failed(first_refused(entries@)->0)
            } else if next.waiting.len() > 0 {
                turn == (
                    StageView::Scanning {
                        local: LocalScanView {
                            waiting: next.waiting.drop_last(),
                            current: Some(next.waiting.last()),
                            ..next
                        },
                        remote,
                        progressed,
                    },
                    SyncAskView::ScanLocal(next.waiting.last()),
                )
            } else {
                ||| exists|error: SyncErrorView| #[trigger]
                    is_collision(next.found.dom(), remote.dom(), error) && turn == failed(error)
                ||| no_aliases(next.found.dom().union(remote.dom())) && turn == (
                    StageView::Planning { local: next.found, remote, progressed },
                    SyncAskView::Inspect,
                )
            }
        },
        (StageView::Planning { local, remote, progressed }, SyncAnswer::Drive(state)) => planned(
            local,
            remote,
            record_views(state.records@),
            state.ignored@.dom(),
            state.active@.dom(),
            progressed,
            turn,
        ),
        (StageView::Settling(s, Wait::Path), SyncAnswer::Checked(checked)) => turn == path_checked(
            drive,
            s,
            check_view(checked),
        ),
        (StageView::Settling(s, Wait::Work(work)), answer) => turn == visit_turn(
            s,
            work_continued(s.visits[s.visited as int]@, drive, work, work_answer(answer)),
        ),
        (StageView::Settling(s, Wait::Comparison), SyncAnswer::Scanned(current)) => exists|id: u128|
            #[trigger]
            is_random_uuid(id) && turn == compared(s, scan_view(current), id),
        (StageView::Settling(s, Wait::Local), SyncAnswer::Local(current, occupied)) => turn
            == local_looked(s, scan_view(current), occupied),
        (StageView::Settling(s, Wait::Absence), SyncAnswer::Scanned(current)) => turn
            == absence_looked(s, scan_view(current)),
        (StageView::Settling(s, Wait::Remote), SyncAnswer::Remote(latest)) => turn
            == remote_looked(s, latest@),
        (StageView::Settling(s, Wait::Inside), SyncAnswer::Inside(occupied)) => turn
            == inside_looked(s, occupied),
        (StageView::Settling(s, Wait::Removal), SyncAnswer::Done) => turn == (
            StageView::Settling(s, Wait::Dropping),
            SyncAskView::Forget(s.deletions[s.deleted as int].path@),
        ),
        (StageView::Settling(s, Wait::Dropping), SyncAnswer::Done) => turn == deletion_done(s),
        _ => turn == failed(SyncErrorView::MisplacedAnswer),
    }
}

/// What holds of the visits and deletions of a reconciliation: they are those of the plan, folders
/// that cannot be deleted are not among them, and no deletion comes before the last visit.
pub open spec fn is_settlement(s: SettlementView) -> bool {
    &&& folders_clean(s.local, s.remote, s.records, s.ignored)
    &&& is_plan(s.visits, s.local, s.remote, s.records, s.ignored, s.active, s.progressed)
    &&& in_deletion_order(s.deletions)
    &&& forall|i: int| 0 <= i < s.deletions.len() ==> is_asked(#[trigger] s.deletions[i], s.visits)
    &&& forall|k: int|
        0 <= k < s.visits.len() && asks_deletion((#[trigger] s.visits[k])@) ==> is_served(
            s.visits[k],
            s.deletions,
        )
    &&& s.visited <= s.visits.len()
    &&& s.deleted <= s.deletions.len()
    &&& s.deleted > 0 ==> s.visited == s.visits.len()
}

/// Whether a reconciliation with these visits and deletions can wait for this.
pub open spec fn waits_for(s: SettlementView, wait: Wait) -> bool {
    match wait {
        Wait::Path => s.visited < s.visits.len() || s.deleted < s.deletions.len(),
        Wait::Work(_) => s.visited < s.visits.len(),
        Wait::Comparison => s.visited < s.visits.len(),
        Wait::Local => deletes(s) && !s.deletions[s.deleted as int].remote,
        Wait::Absence => deletes(s) && s.deletions[s.deleted as int].remote,
        Wait::Remote => deletes(s) && s.deletions[s.deleted as int].remote,
        Wait::Inside => deletes(s) && s.deletions[s.deleted as int].remote,
        Wait::Removal => deletes(s),
        Wait::Dropping => deletes(s),
    }
}

/// Whether every visit is done, and a deletion is not.
pub open spec fn deletes(s: SettlementView) -> bool {
    s.visited == s.visits.len() && s.deleted < s.deletions.len()
}

struct Settlement {
    trees: Trees,
    records: PathMap<FileMetadata>,
    ignored: PathMap<()>,
    active: PathMap<()>,
    progressed: PathMap<()>,
    agenda: Agenda,
}

enum Stage {
    Listing(RemoteScan, PathMap<()>),
    Reading(RemoteScan, LocalPath, PathMap<FileResponse>, PathMap<()>),
    Transferring(RemoteScan, LocalPath, Vec<Visit>, usize, Work, PathMap<()>),
    Scanning(LocalScan, RemoteTree, PathMap<()>),
    Planning(Trees, PathMap<()>),
    Settling(Settlement, Wait),
    Ended,
}

spec fn settlement_view(s: Settlement) -> SettlementView {
    SettlementView {
        local: s.trees.local(),
        remote: s.trees.remote(),
        records: record_views(s.records@),
        ignored: s.ignored@.dom(),
        active: s.active@.dom(),
        progressed: s.progressed@.dom(),
        visits: s.agenda.visits(),
        deletions: s.agenda.deletions(),
        visited: s.agenda.visited(),
        deleted: s.agenda.deleted(),
    }
}

spec fn stage_view(stage: Stage) -> StageView {
    match stage {
        Stage::Listing(scan, progressed) => StageView::Listing {
            scan: scan@,
            progressed: progressed@.dom(),
        },
        Stage::Reading(scan, dir, children, progressed) => StageView::Reading {
            scan: scan@,
            dir: dir@,
            children: file_views(children@),
            progressed: progressed@.dom(),
        },
        Stage::Transferring(scan, dir, visits, at, work, progressed) => StageView::Transferring {
            scan: scan@,
            dir: dir@,
            visits: visits@,
            at: at as nat,
            work,
            progressed: progressed@.dom(),
        },
        Stage::Scanning(local, remote, progressed) => StageView::Scanning {
            local: local@,
            remote: remote@,
            progressed: progressed@.dom(),
        },
        Stage::Planning(trees, progressed) => StageView::Planning {
            local: trees.local(),
            remote: trees.remote(),
            progressed: progressed@.dom(),
        },
        Stage::Settling(s, wait) => StageView::Settling(settlement_view(s), wait),
        Stage::Ended => StageView::Ended,
    }
}

spec fn in_directory(visits: Seq<Visit>, dir: Seq<Seq<char>>) -> bool {
    forall|i: int|
        0 <= i < visits.len() ==> (#[trigger] visits[i]).path@.len() == dir.len() + 1
            && visits[i].path@.drop_last() == dir
}

spec fn between_listings(scan: RemoteScan, dir: Seq<Seq<char>>) -> bool {
    scan.wf() && scan@.current is None && !scan@.failed && scan@.listed.contains(dir)
}

spec fn settlement_wf(s: Settlement) -> bool {
    &&& s.trees.wf()
    &&& s.records.wf()
    &&& s.ignored.wf()
    &&& s.active.wf()
    &&& s.progressed.wf()
    &&& s.agenda.wf()
    &&& is_settlement(settlement_view(s))
}

spec fn stage_wf(stage: Stage) -> bool {
    match stage {
        Stage::Listing(scan, progressed) => scan.wf() && scan@.current is Some && !scan@.failed
            && progressed.wf(),
        Stage::Reading(scan, dir, children, progressed) => between_listings(scan, dir@)
            && children.wf() && progressed.wf() && forall|p: Seq<Seq<char>>| #[trigger]
            children@.contains_key(p) ==> p.len() > 0 && p.drop_last() == dir@,
        Stage::Transferring(scan, dir, visits, at, work, progressed) => between_listings(scan, dir@)
            && progressed.wf() && at < visits.len() && in_directory(visits@, dir@),
        Stage::Scanning(local, remote, progressed) => local.wf() && local@.current is Some
            && !local@.failed && remote.wf() && local@.root == remote.root() && progressed.wf(),
        Stage::Planning(trees, progressed) => trees.wf() && progressed.wf(),
        Stage::Settling(s, wait) => settlement_wf(s) && waits_for(settlement_view(s), wait),
        Stage::Ended => true,
    }
}

/// Whether the maps of an answer are in order.
pub open spec fn answer_wf(answer: SyncAnswer) -> bool {
    match answer {
        SyncAnswer::Directory(state) => state.records.wf() && state.active.wf(),
        SyncAnswer::Drive(state) => state.records.wf() && state.ignored.wf() && state.active.wf(),
        _ => true,
    }
}

fn stopped(error: SyncError) -> (turn: (Stage, SyncAsk))
    ensures
        stage_wf(turn.0),
        (stage_view(turn.0), turn.1@) == failed(error@),
{
    (Stage::Ended, SyncAsk::Failed(error))
}

fn go_listing(scan: RemoteScan, progressed: PathMap<()>) -> (turn: (Stage, SyncAsk))
    requires
        scan.wf(),
        scan@.current is None,
        !scan@.failed,
        progressed.wf(),
    ensures
        stage_wf(turn.0),
        (stage_view(turn.0), turn.1@) == next_listing(scan@, progressed@.dom()),
{
    let ghost start = scan@;
    let mut scan = scan;
    match scan.next_directory() {
        Some(dir) => (Stage::Listing(scan, progressed), SyncAsk::ListRemote(dir)),
        None => match scan.finish() {
            Some(tree) => {
                let mut local = LocalScan::new(&tree);
                match local.next_directory() {
                    Some(dir) => {
                        assert(local@.waiting =~= Seq::<Seq<Seq<char>>>::empty());
                        (Stage::Scanning(local, tree, progressed), SyncAsk::ScanLocal(dir))
                    },
                    None => stopped(SyncError::MisplacedAnswer),
                }
            },
            None => stopped(SyncError::MisplacedAnswer),
        },
    }
}

fn go_transfer(
    drive: u128,
    scan: RemoteScan,
    dir: LocalPath,
    visits: Vec<Visit>,
    from: usize,
    begun: PathMap<()>,
) -> (turn: (Stage, SyncAsk))
    requires
        between_listings(scan, dir@),
        begun.wf(),
        from <= visits.len(),
        in_directory(visits@, dir@),
    ensures
        stage_wf(turn.0),
        (stage_view(turn.0), turn.1@) == next_transfer(
            drive,
            scan@,
            dir@,
            visits@,
            from as nat,
            begun@.dom(),
        ),
{
    let ghost target = next_transfer(drive, scan@, dir@, visits@, from as nat, begun@.dom());
    let mut at: usize = from;
    let mut progressed = begun;
    while at < visits.len()
        invariant
            between_listings(scan, dir@),
            progressed.wf(),
            at <= visits.len(),
            in_directory(visits@, dir@),
            target == next_transfer(drive, scan@, dir@, visits@, from as nat, begun@.dom()),
            target == next_transfer(drive, scan@, dir@, visits@, at as nat, progressed@.dom()),
        ensures
            at >= visits.len(),
        decreases visits.len() - at,
    {
        let turn = match effect(&visits[at], Ok(())) {
            Err(error) => WorkTurn::Fails(error),
            Ok(effect) => begin_work(&visits[at], effect, drive),
        };
        match turn {
            WorkTurn::Fails(error) => {
                return stopped(error);
            },
            WorkTurn::Asks(work, ask) => {
                return (Stage::Transferring(scan, dir, visits, at, work, progressed), ask);
            },
            WorkTurn::Complete => {
                note_progress(&mut progressed, &visits[at]);
                at += 1;
            },
        }
    }
    go_listing(scan, progressed)
}

fn after_page(
    scan: RemoteScan,
    progressed: PathMap<()>,
    drive: u128,
    entries: Vec<RemoteEntry>,
    more: bool,
) -> (turn: (Stage, SyncAsk))
    requires
        stage_wf(Stage::Listing(scan, progressed)),
    ensures
        stage_wf(turn.0),
        follows(
            drive,
            stage_view(Stage::Listing(scan, progressed)),
            SyncAnswer::Page(entries, more),
            (stage_view(turn.0), turn.1@),
        ),
{
    let mut scan = scan;
    match scan.page(&entries) {
        Ok(()) => {},
        Err(error) => {
            return stopped(error);
        },
    }
    let dir = scan.current_directory();
    if more {
        return (Stage::Listing(scan, progressed), SyncAsk::ListRemote(dir));
    }
    let ghost before = scan@;
    let children = scan.end_directory();
    proof {
        assert(scan@.listed[before.listed.len() as int] == dir@);
    }
    let ask = SyncAsk::ReadDirectory(dir.duplicate());
    (Stage::Reading(scan, dir, children, progressed), ask)
}

proof fn lemma_keys_enumerate<V>(map: PathMap<V>, set: Set<Seq<Seq<char>>>)
    requires
        map.wf(),
        map@.dom() == set,
    ensures
        enumerates(map.keys(), set),
{
    map.lemma_keys();
    assert forall|p: Seq<Seq<char>>| #[trigger] map.keys().contains(p) <==> set.contains(p) by {
        assert(map@.contains_key(p) <==> map.keys().contains(p));
    }
}

fn after_directory(
    scan: RemoteScan,
    dir: LocalPath,
    children: PathMap<FileResponse>,
    progressed: PathMap<()>,
    drive: u128,
    state: DirectoryState,
) -> (turn: (Stage, SyncAsk))
    requires
        stage_wf(Stage::Reading(scan, dir, children, progressed)),
        state.records.wf(),
        state.active.wf(),
    ensures
        stage_wf(turn.0),
        directory_read(
            drive,
            scan@,
            dir@,
            file_views(children@),
            progressed@.dom(),
            state,
            (stage_view(turn.0), turn.1@),
        ),
{
    match &state.checked {
        Ok(()) => {},
        Err(error) => {
            return stopped(SyncError::Local(LocalError::Path(error.duplicate())));
        },
    }
    if !state.present {
        let none: Vec<Visit> = Vec::new();
        assert(none@ =~= Seq::<Visit>::empty());
        return go_transfer(drive, scan, dir, none, 0, progressed);
    }
    let mut listing = LocalListing::new(&dir);
    match listing.entries(&state.entries) {
        Ok(()) => {},
        Err(error) => {
            return stopped(error);
        },
    }
    let local = match listing.finish() {
        Some(local) => local,
        None => {
            return stopped(SyncError::MisplacedAnswer);
        },
    };
    let ghost prints = print_views(local@);
    let ghost files = file_views(children@);
    proof {
        assert(local@.dom() =~= prints.dom());
        assert(children@.dom() =~= files.dom());
        lemma_keys_enumerate(local, prints.dom());
        lemma_keys_enumerate(children, files.dom());
    }
    match plan_directory(&local, &children, &state.records, &state.active) {
        Err(error) => {
            proof {
                let (i, j) = choose|i: int, j: int| #[trigger]
                    first_alias(local.keys() + children.keys(), i, j) && error@
                        == SyncErrorView::Collision(
                        (local.keys() + children.keys())[i],
                        (local.keys() + children.keys())[j],
                    );
                assert(first_alias(local.keys() + children.keys(), i, j));
                assert(is_collision(prints.dom(), files.dom(), error@));
            }
            stopped(error)
        },
        Ok(visits) => {
            proof {
                assert forall|i: int| 0 <= i < visits.len() implies (
                #[trigger] visits[i]).path@.len() == dir@.len() + 1 && visits[i].path@.drop_last()
                    == dir@ by {
                    let p = visits[i].path@;
                    assert(visit_paths(visits@)[i] == p);
                    assert(visit_paths(visits@).contains(p));
                    assert(prints.contains_key(p) || files.contains_key(p));
                    assert(local@.contains_key(p) || children@.contains_key(p));
                }
            }
            let ghost begun = visits@;
            let ghost listed = scan@;
            let ghost place = dir@;
            let ghost noted = progressed@.dom();
            let turn = go_transfer(drive, scan, dir, visits, 0, progressed);
            proof {
                assert(prints == all_found(Map::empty(), place, state.entries@));
                assert(is_directory_plan(
                    begun,
                    prints,
                    files,
                    record_views(state.records@),
                    state.active@.dom(),
                ));
                assert((stage_view(turn.0), turn.1@) == next_transfer(
                    drive,
                    listed,
                    place,
                    begun,
                    0,
                    noted,
                ));
                assert(no_aliases(prints.dom().union(files.dom())));
            }
            turn
        },
    }
}

fn after_transfer(
    scan: RemoteScan,
    dir: LocalPath,
    visits: Vec<Visit>,
    at: usize,
    work: Work,
    progressed: PathMap<()>,
    drive: u128,
    answer: SyncAnswer,
) -> (turn: (Stage, SyncAsk))
    requires
        stage_wf(Stage::Transferring(scan, dir, visits, at, work, progressed)),
    ensures
        stage_wf(turn.0),
        follows(
            drive,
            stage_view(Stage::Transferring(scan, dir, visits, at, work, progressed)),
            answer,
            (stage_view(turn.0), turn.1@),
        ),
{
    let turn = continue_work(&visits[at], drive, work, &answer);
    let mut grown = scan;
    let creating = match work {
        Work::Creating => true,
        _ => false,
    };
    if creating {
        if let SyncAnswer::Created(file) = &answer {
            grown.add_created(&dir, visits[at].path.duplicate(), file);
        }
    }
    match turn {
        WorkTurn::Fails(error) => stopped(error),
        WorkTurn::Asks(next, ask) => (
            Stage::Transferring(grown, dir, visits, at, next, progressed),
            ask,
        ),
        WorkTurn::Complete => {
            let mut noted = progressed;
            note_progress(&mut noted, &visits[at]);
            go_transfer(drive, grown, dir, visits, at + 1, noted)
        },
    }
}

fn after_entries(
    local: LocalScan,
    remote: RemoteTree,
    progressed: PathMap<()>,
    drive: u128,
    entries: Vec<LocalEntry>,
) -> (turn: (Stage, SyncAsk))
    requires
        stage_wf(Stage::Scanning(local, remote, progressed)),
    ensures
        stage_wf(turn.0),
        follows(
            drive,
            stage_view(Stage::Scanning(local, remote, progressed)),
            SyncAnswer::Entries(entries),
            (stage_view(turn.0), turn.1@),
        ),
{
    let mut scan = local;
    match scan.entries(&entries) {
        Ok(()) => {},
        Err(error) => {
            return stopped(error);
        },
    }
    scan.end_directory();
    match scan.next_directory() {
        Some(dir) => {
            return (Stage::Scanning(scan, remote, progressed), SyncAsk::ScanLocal(dir));
        },
        None => {},
    }
    let tree = match scan.finish() {
        Some(tree) => tree,
        None => {
            return stopped(SyncError::MisplacedAnswer);
        },
    };
    proof {
        tree.lemma_files();
        remote.lemma_files();
        assert(tree.files_map()@.dom() =~= tree@.dom());
        assert(remote.files_map()@.dom() =~= remote@.dom());
        lemma_keys_enumerate(tree.files_map(), tree@.dom());
        lemma_keys_enumerate(remote.files_map(), remote@.dom());
    }
    let ghost a = tree.files_map().keys();
    let ghost b = remote.files_map().keys();
    let ghost found = tree@.dom();
    match Trees::new(tree, remote) {
        Ok(trees) => (Stage::Planning(trees, progressed), SyncAsk::Inspect),
        Err(error) => {
            proof {
                let (i, j) = choose|i: int, j: int| #[trigger]
                    first_alias(a + b, i, j) && error@ == SyncErrorView::Collision(
                        (a + b)[i],
                        (a + b)[j],
                    );
                assert(first_alias(a + b, i, j));
                assert(is_collision(found, remote@.dom(), error@));
            }
            stopped(error)
        },
    }
}

fn go_job(s: Settlement) -> (turn: (Stage, SyncAsk))
    requires
        settlement_wf(s),
    ensures
        stage_wf(turn.0),
        (stage_view(turn.0), turn.1@) == next_job(settlement_view(s)),
{
    let path = match s.agenda.next() {
        Job::Visit(visit) => visit.path.duplicate(),
        Job::Delete(deletion) => deletion.path.duplicate(),
        Job::Finished => {
            return (Stage::Ended, SyncAsk::Finished);
        },
    };
    (Stage::Settling(s, Wait::Path), SyncAsk::CheckPath(path))
}

fn job_done(s: Settlement) -> (turn: (Stage, SyncAsk))
    requires
        settlement_wf(s),
        settlement_view(s).visited < settlement_view(s).visits.len() || settlement_view(s).deleted
            < settlement_view(s).deletions.len(),
    ensures
        stage_wf(turn.0),
        settlement_view(s).visited < settlement_view(s).visits.len() ==> (
            stage_view(turn.0),
            turn.1@,
        ) == visit_done(settlement_view(s)),
        settlement_view(s).visited == settlement_view(s).visits.len() ==> (
            stage_view(turn.0),
            turn.1@,
        ) == deletion_done(settlement_view(s)),
{
    let mut s = s;
    s.agenda.advance();
    go_job(s)
}

fn after_drive(
    trees: Trees,
    progressed: PathMap<()>,
    drive: u128,
    state: DriveState,
) -> (turn: (Stage, SyncAsk))
    requires
        stage_wf(Stage::Planning(trees, progressed)),
        state.records.wf(),
        state.ignored.wf(),
        state.active.wf(),
    ensures
        stage_wf(turn.0),
        follows(
            drive,
            stage_view(Stage::Planning(trees, progressed)),
            SyncAnswer::Drive(state),
            (stage_view(turn.0), turn.1@),
        ),
{
    let ghost records = record_views(state.records@);
    match plan(&trees, &state.records, &state.ignored, &state.active, &progressed) {
        Err(error) => {
            proof {
                assert(state.records@.dom() =~= records.dom());
                lemma_keys_enumerate(state.records, records.dom());
                let keys = state.records.keys();
                let ignored = state.ignored@.dom();
                let i = choose|i: int|
                    0 <= i < keys.len() && folder_fault(
                        trees.local(),
                        trees.remote(),
                        records,
                        ignored,
                        #[trigger] keys[i],
                    ) == Some(error@) && forall|j: int|
                        0 <= j < i ==> folder_fault(
                            trees.local(),
                            trees.remote(),
                            records,
                            ignored,
                            #[trigger] keys[j],
                        ) is None;
                assert(folder_fault(trees.local(), trees.remote(), records, ignored, keys[i])
                    == Some(error@));
                assert(is_folder_fault(trees.local(), trees.remote(), records, ignored, error@));
            }
            stopped(error)
        },
        Ok(visits) => {
            let agenda = Agenda::new(visits);
            let s = Settlement {
                trees,
                records: state.records,
                ignored: state.ignored,
                active: state.active,
                progressed,
                agenda,
            };
            let ghost view = settlement_view(s);
            let turn = go_job(s);
            assert(is_settlement(view));
            turn
        },
    }
}

/// Where a settlement stands among its visits and deletions.
enum Place {
    Visit(Visit),
    Delete(Deletion),
    Over,
}

fn place(s: &Settlement) -> (place: Place)
    requires
        settlement_wf(*s),
        settlement_view(*s).visited < settlement_view(*s).visits.len() || settlement_view(
            *s,
        ).deleted < settlement_view(*s).deletions.len(),
    ensures
        match place {
            Place::Visit(visit) => settlement_view(*s).visited < settlement_view(*s).visits.len()
                && visit@ == settlement_view(*s).visits[settlement_view(*s).visited as int]@,
            Place::Delete(deletion) => settlement_view(*s).visited == settlement_view(
                *s,
            ).visits.len() && settlement_view(*s).deleted < settlement_view(*s).deletions.len()
                && deletion@ == settlement_view(*s).deletions[settlement_view(*s).deleted as int]@,
            Place::Over => false,
        },
{
    match s.agenda.next() {
        Job::Visit(visit) => Place::Visit(
            Visit::new(&visit.path, visit.step, visit.local.as_ref(), visit.remote.as_ref()),
        ),
        Job::Delete(deletion) => Place::Delete(
            Deletion {
                path: deletion.path.duplicate(),
                remote: deletion.remote,
                expected: copy_print(deletion.expected.as_ref()),
            },
        ),
        Job::Finished => Place::Over,
    }
}

fn go_visit(s: Settlement, turn: WorkTurn) -> (next: (Stage, SyncAsk))
    requires
        settlement_wf(s),
        settlement_view(s).visited < settlement_view(s).visits.len(),
    ensures
        stage_wf(next.0),
        (stage_view(next.0), next.1@) == visit_turn(settlement_view(s), turn@),
{
    match turn {
        WorkTurn::Complete => job_done(s),
        WorkTurn::Asks(work, ask) => (Stage::Settling(s, Wait::Work(work)), ask),
        WorkTurn::Fails(error) => stopped(error),
    }
}

fn after_check(s: Settlement, drive: u128, checked: Result<(), PathError>) -> (turn: (
    Stage,
    SyncAsk,
))
    requires
        stage_wf(Stage::Settling(s, Wait::Path)),
    ensures
        stage_wf(turn.0),
        (stage_view(turn.0), turn.1@) == path_checked(
            drive,
            settlement_view(s),
            check_view(checked),
        ),
{
    match place(&s) {
        Place::Visit(visit) => match effect(&visit, checked) {
            Err(error) => stopped(error),
            Ok(Effect::KeepBoth) => {
                let path = visit.path.duplicate();
                if visit.local.is_some() {
                    (Stage::Settling(s, Wait::Comparison), SyncAsk::Look(path))
                } else {
                    let fetch = visit.remote.is_some();
                    (
                        Stage::Settling(s, Wait::Work(Work::Forgetting(fetch))),
                        SyncAsk::Forget(path),
                    )
                }
            },
            Ok(effect) => {
                let turn = begin_work(&visit, effect, drive);
                go_visit(s, turn)
            },
        },
        Place::Delete(deletion) => {
            match checked {
                Ok(()) => {},
                Err(error) => {
                    return stopped(SyncError::Local(LocalError::Path(error)));
                },
            }
            if deletion.remote {
                (Stage::Settling(s, Wait::Absence), SyncAsk::Look(deletion.path))
            } else {
                let directory = match &deletion.expected {
                    Some(print) => print.directory,
                    None => false,
                };
                (Stage::Settling(s, Wait::Local), SyncAsk::LookLocal(deletion.path, directory))
            }
        },
        Place::Over => stopped(SyncError::MisplacedAnswer),
    }
}

fn after_comparison(s: Settlement, current: Result<Option<Fingerprint>, LocalError>) -> (turn: (
    Stage,
    SyncAsk,
))
    requires
        stage_wf(Stage::Settling(s, Wait::Comparison)),
    ensures
        stage_wf(turn.0),
        exists|id: u128| #[trigger]
            is_random_uuid(id) && (stage_view(turn.0), turn.1@) == compared(
                settlement_view(s),
                scan_view(current),
                id,
            ),
{
    match place(&s) {
        Place::Visit(visit) => match keep_both(&visit, current) {
            Err(error) => stopped(error),
            Ok(kept) => match (kept.copy, kept.notice) {
                (Some(copy), Some(notice)) => (
                    Stage::Settling(s, Wait::Work(Work::Moving(kept.fetch))),
                    SyncAsk::MoveAside(visit.path, copy, notice),
                ),
                _ => (
                    Stage::Settling(s, Wait::Work(Work::Forgetting(kept.fetch))),
                    SyncAsk::Forget(visit.path),
                ),
            },
        },
        _ => stopped(SyncError::MisplacedAnswer),
    }
}

fn after_local_look(
    s: Settlement,
    current: Result<Option<Fingerprint>, LocalError>,
    occupied: bool,
) -> (turn: (Stage, SyncAsk))
    requires
        stage_wf(Stage::Settling(s, Wait::Local)),
    ensures
        stage_wf(turn.0),
        (stage_view(turn.0), turn.1@) == local_looked(
            settlement_view(s),
            scan_view(current),
            occupied,
        ),
{
    match place(&s) {
        Place::Delete(deletion) => match confirm_local_deletion(&deletion, current, occupied) {
            Err(error) => stopped(error),
            Ok(Removal::Keep) => job_done(s),
            Ok(removal) => (
                Stage::Settling(s, Wait::Removal),
                SyncAsk::RemoveLocal(deletion.path, removal),
            ),
        },
        _ => stopped(SyncError::MisplacedAnswer),
    }
}

fn after_absence(s: Settlement, current: Result<Option<Fingerprint>, LocalError>) -> (turn: (
    Stage,
    SyncAsk,
))
    requires
        stage_wf(Stage::Settling(s, Wait::Absence)),
    ensures
        stage_wf(turn.0),
        (stage_view(turn.0), turn.1@) == absence_looked(settlement_view(s), scan_view(current)),
{
    match confirm_absence(current) {
        Ok(()) => {},
        Err(error) => {
            return stopped(error);
        },
    }
    match place(&s) {
        Place::Delete(deletion) => (
            Stage::Settling(s, Wait::Remote),
            SyncAsk::LookRemote(deletion.path),
        ),
        _ => stopped(SyncError::MisplacedAnswer),
    }
}

fn after_remote_look(s: Settlement, latest: &FileResponse) -> (turn: (Stage, SyncAsk))
    requires
        stage_wf(Stage::Settling(s, Wait::Remote)),
    ensures
        stage_wf(turn.0),
        (stage_view(turn.0), turn.1@) == remote_looked(settlement_view(s), latest@),
{
    let deletion = match place(&s) {
        Place::Delete(deletion) => deletion,
        _ => {
            return stopped(SyncError::MisplacedAnswer);
        },
    };
    let folder = match s.records.get(&deletion.path) {
        None => {
            return stopped(SyncError::MisplacedAnswer);
        },
        Some(record) => match confirm_remote_deletion(latest, record) {
            Err(error) => {
                return stopped(error);
            },
            Ok(folder) => folder,
        },
    };
    if folder {
        (Stage::Settling(s, Wait::Inside), SyncAsk::LookInside(deletion.path))
    } else {
        (
            Stage::Settling(s, Wait::Removal),
            SyncAsk::RemoveRemote(deletion.path, Disposal::Soft),
        )
    }
}

fn after_inside_look(s: Settlement, occupied: bool) -> (turn: (Stage, SyncAsk))
    requires
        stage_wf(Stage::Settling(s, Wait::Inside)),
    ensures
        stage_wf(turn.0),
        (stage_view(turn.0), turn.1@) == inside_looked(settlement_view(s), occupied),
{
    if occupied {
        return job_done(s);
    }
    match place(&s) {
        Place::Delete(deletion) => (
            Stage::Settling(s, Wait::Removal),
            SyncAsk::RemoveRemote(deletion.path, Disposal::Soft),
        ),
        _ => stopped(SyncError::MisplacedAnswer),
    }
}

fn after_wait(s: Settlement, wait: Wait, drive: u128, answer: SyncAnswer) -> (turn: (Stage, SyncAsk))
    requires
        stage_wf(Stage::Settling(s, wait)),
    ensures
        stage_wf(turn.0),
        follows(
            drive,
            stage_view(Stage::Settling(s, wait)),
            answer,
            (stage_view(turn.0), turn.1@),
        ),
{
    match (wait, answer) {
        (Wait::Path, SyncAnswer::Checked(checked)) => after_check(s, drive, checked),
        (Wait::Work(work), answer) => match place(&s) {
            Place::Visit(visit) => {
                let turn = continue_work(&visit, drive, work, &answer);
                go_visit(s, turn)
            },
            _ => stopped(SyncError::MisplacedAnswer),
        },
        (Wait::Comparison, SyncAnswer::Scanned(current)) => after_comparison(s, current),
        (Wait::Local, SyncAnswer::Local(current, occupied)) => after_local_look(
            s,
            current,
            occupied,
        ),
        (Wait::Absence, SyncAnswer::Scanned(current)) => after_absence(s, current),
        (Wait::Remote, SyncAnswer::Remote(latest)) => after_remote_look(s, &latest),
        (Wait::Inside, SyncAnswer::Inside(occupied)) => after_inside_look(s, occupied),
        (Wait::Removal, SyncAnswer::Done) => match place(&s) {
            Place::Delete(deletion) => (
                Stage::Settling(s, Wait::Dropping),
                SyncAsk::Forget(deletion.path),
            ),
            _ => stopped(SyncError::MisplacedAnswer),
        },
        (Wait::Dropping, SyncAnswer::Done) => job_done(s),
        _ => stopped(SyncError::MisplacedAnswer),
    }
}

/// A reconciliation under way.
pub struct Reconciliation {
    drive: u128,
    stage: Stage,
}

impl Reconciliation {
    /// The drive.
    pub closed spec fn drive(&self) -> u128 {
        self.drive
    }

    /// How far it has come.
    pub closed spec fn stage(&self) -> StageView {
        stage_view(self.stage)
    }

    /// The scans and plans under way are consistent.
    pub closed spec fn wf(&self) -> bool {
        stage_wf(self.stage)
    }

    /// Once everything is planned, both trees are complete: on each side the root and every folder
    /// that was found there were listed to the end, and whatever was found stands in such a folder.
    pub proof fn lemma_trees_are_complete(&self) -> (listed: (
        Seq<Seq<char>>,
        Set<Seq<Seq<char>>>,
        Set<Seq<Seq<char>>>,
    ))
        requires
            self.wf(),
            self.stage() is Settling,
        ensures
            ({
                let s = self.stage()->Settling_0;
                let (root, local, remote) = listed;
                &&& local.contains(root) && remote.contains(root)
                &&& forall|p: Seq<Seq<char>>| #[trigger]
                    s.local.contains_key(p) ==> p.len() > 0 && below(p, root) && local.contains(
                        p.drop_last(),
                    ) && (s.local[p].directory ==> local.contains(p))
                &&& forall|p: Seq<Seq<char>>| #[trigger]
                    s.remote.contains_key(p) ==> p.len() > 0 && below(p, root) && remote.contains(
                        p.drop_last(),
                    ) && (s.remote[p].is_folder ==> remote.contains(p))
            }),
    {
        let trees = self.stage->Settling_0.trees;
        trees.lemma_complete();
        (trees.root(), trees.local_listed(), trees.remote_listed())
    }

    /// Begins the reconciliation of the drive `id` below `root`: `checked` is the outcome of the
    /// check of the root, and `stat` what the file system tells of it.
    pub fn begin(
        enabled: bool,
        checked: Result<(), PathError>,
        stat: Stat,
        id: &str,
        root: &LocalPath,
    ) -> (start: (Reconciliation, SyncAsk))
        ensures
            start.0.wf(),
            match beginning(enabled, check_view(checked), stat, id@) {
                Err(error) => (start.0.stage(), start.1@) == failed(error),
                Ok(None) => (start.0.stage(), start.1@) == (
                    StageView::Ended,
                    SyncAskView::Finished,
                ),
                Ok(Some(drive)) => start.0.drive() == drive && (start.0.stage(), start.1@)
                    == sync_begun(root@),
            },
    {
        match begin(enabled, checked, stat, id) {
            Err(error) => {
                let (stage, ask) = stopped(error);
                (Reconciliation { drive: 0, stage }, ask)
            },
            Ok(None) => (Reconciliation { drive: 0, stage: Stage::Ended }, SyncAsk::Finished),
            Ok(Some(drive)) => {
                let scan = RemoteScan::new(root);
                let ghost fresh = scan@;
                let progressed: PathMap<()> = PathMap::new();
                let (stage, ask) = go_listing(scan, progressed);
                proof {
                    assert(fresh.waiting.drop_first() =~= Seq::<Seq<Seq<char>>>::empty());
                    assert(progressed@.dom() =~= Set::<Seq<Seq<char>>>::empty());
                }
                (Reconciliation { drive, stage }, ask)
            },
        }
    }

    /// Goes on after an answer: what is asked for next.
    pub fn next(self, answer: SyncAnswer) -> (turn: (Reconciliation, SyncAsk))
        requires
            self.wf(),
            answer_wf(answer),
        ensures
            turn.0.wf(),
            turn.0.drive() == self.drive(),
            follows(self.drive(), self.stage(), answer, (turn.0.stage(), turn.1@)),
    {
        let drive = self.drive;
        let (stage, ask) = match (self.stage, answer) {
            (Stage::Listing(scan, progressed), SyncAnswer::Page(entries, more)) => after_page(
                scan,
                progressed,
                drive,
                entries,
                more,
            ),
            (
                Stage::Reading(scan, dir, children, progressed),
                SyncAnswer::Directory(state),
            ) => after_directory(scan, dir, children, progressed, drive, state),
            (
                Stage::Transferring(scan, dir, visits, at, work, progressed),
                answer,
            ) => after_transfer(scan, dir, visits, at, work, progressed, drive, answer),
            (
                Stage::Scanning(local, remote, progressed),
                SyncAnswer::Entries(entries),
            ) => after_entries(local, remote, progressed, drive, entries),
            (Stage::Planning(trees, progressed), SyncAnswer::Drive(state)) => after_drive(
                trees,
                progressed,
                drive,
                state,
            ),
            (Stage::Settling(s, wait), answer) => after_wait(s, wait, drive, answer),
            _ => stopped(SyncError::MisplacedAnswer),
        };
        (Reconciliation { drive, stage }, ask)
    }
}

} // verus!
