//! What a reconciliation has transferred before it knows both trees: in every directory whose
//! listings are complete, whatever is due there.
use crate::agenda::effect_of;
use crate::local_file::FingerprintView;
use crate::local_scan::{all_found, first_refused};
use crate::path::check_view;
use crate::plan::{at, is_directory_plan, makes_progress, record_views, visit_paths};
use crate::reconcile::{next_transfer, progress, StageView, with_created};
use crate::reconcile_laws::{
    lemma_courses_are_steady, lemma_end_is_final, lemma_planning_is_steady,
    lemma_settling_keeps_plan, steady, SyncCourse,
};
use crate::reconcile_outcomes::{
    directory_made, download_is_due, folder_created, lemma_ended_asks_nothing,
    lemma_step_stays_done, lemma_work_begins,
    lemma_work_goes_on, queued, step_done, under_way, upload_is_due,
};
use crate::records::{FileMetadataView, FileView};
use crate::remote_scan::RemoteScanView;
use crate::steps::{chosen_step, early_step, recorded_print, Visit, VisitView};
use crate::work::{
    DirectoryState, SyncAnswer, Work, work_answer, work_begun, work_continued,
};
use vstd::prelude::*;

verus! {

/// Whether turn `r` completed the knowledge of a directory: its remote listing was complete, and its
/// local entries, its records and the active transfers were told.
pub open spec fn completes_directory(course: SyncCourse, r: int) -> bool {
    course.turns(r) && course.stages[r] is Reading && (course.answers[r] matches SyncAnswer::Directory(
        state,
    ) && check_view(state.checked) is None && state.present && first_refused(state.entries@) is None)
}

/// What was told at turn `r`.
pub open spec fn told_state(course: SyncCourse, r: int) -> DirectoryState {
    course.answers[r]->Directory_0
}

/// The local entries that were told at turn `r`.
pub open spec fn local_there(course: SyncCourse, r: int) -> Map<Seq<Seq<char>>, FingerprintView> {
    all_found(Map::empty(), course.stages[r]->Reading_dir, told_state(course, r).entries@)
}

/// The remote entries that had been listed at turn `r`.
pub open spec fn remote_there(course: SyncCourse, r: int) -> Map<Seq<Seq<char>>, FileView> {
    course.stages[r]->Reading_children
}

/// The records that were told at turn `r`.
pub open spec fn records_there(course: SyncCourse, r: int) -> Map<Seq<Seq<char>>, FileMetadataView> {
    record_views(told_state(course, r).records@)
}

/// Whether a remote folder is due at a path: a directory appeared locally alone.
pub open spec fn remote_folder_is_due(
    local: Option<FingerprintView>,
    remote: Option<FileView>,
    record: Option<FileMetadataView>,
) -> bool {
    local is Some && local->0.directory && remote is None && recorded_print(record) is None
}

/// Whether a local directory is due at a path: a folder appeared on the server alone.
pub open spec fn local_directory_is_due(
    local: Option<FingerprintView>,
    remote: Option<FileView>,
    record: Option<FileMetadataView>,
) -> bool {
    remote is Some && remote->0.is_folder && local is None && recorded_print(record) is None
}

/// Whether something is to be transferred or created at a path.
pub open spec fn transfer_is_due(
    local: Option<FingerprintView>,
    remote: Option<FileView>,
    record: Option<FileMetadataView>,
) -> bool {
    ||| upload_is_due(local, remote, record)
    ||| download_is_due(local, remote, record)
    ||| remote_folder_is_due(local, remote, record)
    ||| local_directory_is_due(local, remote, record)
}

/// Whether what is to be transferred or created at a path was, before turn `n`.
pub open spec fn is_transferred(
    course: SyncCourse,
    n: int,
    path: Seq<Seq<char>>,
    local: Option<FingerprintView>,
    remote: Option<FileView>,
    record: Option<FileMetadataView>,
) -> bool {
    &&& upload_is_due(local, remote, record) ==> queued(course, n, true, path, local)
    &&& download_is_due(local, remote, record) ==> queued(course, n, false, path, local)
    &&& remote_folder_is_due(local, remote, record) ==> folder_created(course, n, path, local)
    &&& local_directory_is_due(local, remote, record) ==> directory_made(
        course,
        n,
        path,
        remote->0,
    )
}

/// Whether `visits` is the plan for what was told at turn `r`.
spec fn plans_for(course: SyncCourse, r: int, visits: Seq<Visit>) -> bool {
    is_directory_plan(
        visits,
        local_there(course, r),
        remote_there(course, r),
        records_there(course, r),
        told_state(course, r).active@.dom(),
    )
}

spec fn steps_done(course: SyncCourse, n: int, visits: Seq<Visit>, to: int) -> bool {
    forall|k: int| 0 <= k < to ==> step_done(course, n, (#[trigger] visits[k])@)
}

proof fn lemma_steps_stay_done(course: SyncCourse, n: int, later: int, visits: Seq<Visit>, to: int)
    requires
        steps_done(course, n, visits, to),
        n <= later,
    ensures
        steps_done(course, later, visits, to),
{
    assert forall|k: int| 0 <= k < to implies step_done(course, later, (#[trigger] visits[k])@) by {
        lemma_step_stays_done(course, n, later, visits[k]@);
    }
}

/// Whether the visits of the directory of turn `r` are all done before turn `n`.
spec fn is_served(course: SyncCourse, r: int, n: int) -> bool {
    exists|visits: Seq<Visit>| #[trigger]
        plans_for(course, r, visits) && steps_done(course, n, visits, visits.len() as int)
}

/// Whether a course that waits for a transfer at turn `i` is accounted for by turn `r`.
spec fn serves(course: SyncCourse, r: int, i: int) -> bool {
    course.stages[i] matches StageView::Transferring { scan, dir, visits, at, work, progressed }
        && plans_for(course, r, visits) && at < visits.len() && steps_done(
        course,
        i,
        visits,
        at as int,
    ) && under_way(course, i, visits[at as int]@, work)
}

spec fn accounts(course: SyncCourse, r: int, i: int) -> bool {
    course.stages[i] is Ended || is_served(course, r, i) || serves(course, r, i)
}

proof fn lemma_next_transfer_is_accounted(
    course: SyncCourse,
    r: int,
    i: int,
    scan: RemoteScanView,
    dir: Seq<Seq<char>>,
    visits: Seq<Visit>,
    at: nat,
    progressed: Set<Seq<Seq<char>>>,
)
    requires
        plans_for(course, r, visits),
        at <= visits.len(),
        steps_done(course, i, visits, at as int),
        (course.stages[i], course.asks[i]) == next_transfer(
            course.drive,
            scan,
            dir,
            visits,
            at,
            progressed,
        ),
    ensures
        accounts(course, r, i),
    decreases visits.len() - at,
{
    if at < visits.len() {
        let visit = visits[at as int];
        if let Ok(effect) = effect_of(visit@, None) {
            if effect is KeepBoth {
                assert(work_begun(visit@, effect, course.drive) is Fails);
            } else {
                lemma_work_begins(course, i, visit@, effect);
                if work_begun(visit@, effect, course.drive) is Complete {
                    assert(steps_done(course, i, visits, (at + 1) as int));
                    lemma_next_transfer_is_accounted(
                        course,
                        r,
                        i,
                        scan,
                        dir,
                        visits,
                        at + 1,
                        progress(progressed, visit),
                    );
                }
            }
        }
    }
}

proof fn lemma_directory_begins(course: SyncCourse, r: int)
    requires
        course.wf(),
        completes_directory(course, r),
    ensures
        accounts(course, r, r + 1),
{
    let scan = course.stages[r]->Reading_scan;
    let dir = course.stages[r]->Reading_dir;
    let progressed = course.stages[r]->Reading_progressed;
    let turn = (course.stages[r + 1], course.asks[r + 1]);
    if !(turn.0 is Ended) {
        let visits = choose|visits: Seq<Visit>| #[trigger]
            is_directory_plan(
                visits,
                local_there(course, r),
                remote_there(course, r),
                records_there(course, r),
                told_state(course, r).active@.dom(),
            ) && turn == next_transfer(course.drive, scan, dir, visits, 0, progressed);
        lemma_next_transfer_is_accounted(course, r, r + 1, scan, dir, visits, 0, progressed);
    }
}

proof fn lemma_transfer_goes_on(course: SyncCourse, r: int, i: int)
    requires
        course.wf(),
        course.turns(i),
        serves(course, r, i),
    ensures
        accounts(course, r, i + 1),
{
    if let StageView::Transferring { scan, dir, visits, at, work, progressed } = course.stages[i] {
        let visit = visits[at as int];
        let answer = course.answers[i];
        let grown = match answer {
            SyncAnswer::Created(file) => if work == Work::Creating {
                with_created(scan, visit.path@, file@)
            } else {
                scan
            },
            _ => scan,
        };
        lemma_steps_stay_done(course, i, i + 1, visits, at as int);
        lemma_work_goes_on(course, i, visit@, work);
        if work_continued(visit@, course.drive, work, work_answer(answer)) is Complete {
            assert(steps_done(course, i + 1, visits, (at + 1) as int));
            lemma_next_transfer_is_accounted(
                course,
                r,
                i + 1,
                grown,
                dir,
                visits,
                at + 1,
                progress(progressed, visit),
            );
        }
    }
}

proof fn lemma_directory_is_accounted(course: SyncCourse, r: int, i: int)
    requires
        course.wf(),
        completes_directory(course, r),
        r < i < course.stages.len(),
    ensures
        accounts(course, r, i),
    decreases i,
{
    if i == r + 1 {
        lemma_directory_begins(course, r);
    } else {
        lemma_directory_is_accounted(course, r, i - 1);
        assert(course.turns(i - 1));
        if course.stages[i - 1] is Ended {
            lemma_end_is_final(
                course.drive,
                course.answers[i - 1],
                (course.stages[i], course.asks[i]),
            );
        } else if is_served(course, r, i - 1) {
            let visits = choose|visits: Seq<Visit>| #[trigger]
                plans_for(course, r, visits) && steps_done(
                    course,
                    i - 1,
                    visits,
                    visits.len() as int,
                );
            lemma_steps_stay_done(course, i - 1, i, visits, visits.len() as int);
            assert(plans_for(course, r, visits));
        } else {
            lemma_transfer_goes_on(course, r, i - 1);
        }
    }
}

proof fn lemma_step_is_what_is_due(
    course: SyncCourse,
    n: int,
    visit: VisitView,
    record: Option<FileMetadataView>,
)
    requires
        visit.step == early_step(false, visit.local, visit.remote, record),
        step_done(course, n, visit),
    ensures
        is_transferred(course, n, visit.path, visit.local, visit.remote, record),
        makes_progress(visit.step) ==> transfer_is_due(visit.local, visit.remote, record),
{
}

proof fn lemma_ends_list_nothing(course: SyncCourse, n: int)
    requires
        course.wf(),
        0 < n < course.asks.len(),
        course.asks[n] is ListRemote || course.asks[n] is ScanLocal,
    ensures
        !(course.stages[n] is Ended),
{
    assert(course.turns(n - 1));
    lemma_courses_are_steady(course, n - 1);
    if course.stages[n] is Ended {
        lemma_ended_asks_nothing(
            course.drive,
            course.stages[n - 1],
            course.answers[n - 1],
            (course.stages[n], course.asks[n]),
        );
    }
}

/// In every directory whose listings are complete on both sides, whatever is due is transferred or
/// created before the next directory is listed or the local tree is read: a failing or slow
/// directory elsewhere holds nothing up.
pub proof fn lemma_directory_is_transferred(
    course: SyncCourse,
    r: int,
    n: int,
    path: Seq<Seq<char>>,
)
    requires
        course.wf(),
        completes_directory(course, r),
        r < n < course.asks.len(),
        course.asks[n] is ListRemote || course.asks[n] is ScanLocal,
        local_there(course, r).contains_key(path) || remote_there(course, r).contains_key(path),
        !told_state(course, r).active@.contains_key(path),
    ensures
        is_transferred(
            course,
            n,
            path,
            at(local_there(course, r), path),
            at(remote_there(course, r), path),
            at(records_there(course, r), path),
        ),
{
    lemma_directory_is_accounted(course, r, n);
    lemma_ends_list_nothing(course, n);
    let visits = choose|visits: Seq<Visit>| #[trigger]
        plans_for(course, r, visits) && steps_done(course, n, visits, visits.len() as int);
    assert(is_served(course, r, n));
    assert(plans_for(course, r, visits));
    assert(visit_paths(visits).contains(path));
    let k = visit_paths(visits).index_of(path);
    assert(visits[k].path@ == path);
    let visit = visits[k]@;
    assert(visit.path == path);
    lemma_step_is_what_is_due(course, n, visit, at(records_there(course, r), path));
}

/// Whether a transfer was due at a path in the directory that was told at turn `r`, and was begun, or
/// a folder created, before turn `n`.
pub open spec fn begun_at(course: SyncCourse, r: int, n: int, path: Seq<Seq<char>>) -> bool {
    let local = at(local_there(course, r), path);
    let remote = at(remote_there(course, r), path);
    let record = at(records_there(course, r), path);
    &&& r < n && completes_directory(course, r)
    &&& !told_state(course, r).active@.contains_key(path)
    &&& transfer_is_due(local, remote, record)
    &&& is_transferred(course, n, path, local, remote, record)
}

/// Whether a transfer was begun at every one of these paths before turn `n`.
spec fn all_begun(course: SyncCourse, n: int, paths: Set<Seq<Seq<char>>>) -> bool {
    forall|path: Seq<Seq<char>>| #[trigger]
        paths.contains(path) ==> exists|r: int| #[trigger] begun_at(course, r, n, path)
}

/// The paths at which a course takes a transfer for begun.
pub open spec fn taken_for_begun(stage: StageView) -> Set<Seq<Seq<char>>> {
    match stage {
        StageView::Listing { scan, progressed } => progressed,
        StageView::Reading { scan, dir, children, progressed } => progressed,
        StageView::Transferring { scan, dir, visits, at, work, progressed } => progressed,
        StageView::Scanning { local, remote, progressed } => progressed,
        StageView::Planning { local, remote, progressed } => progressed,
        _ => Set::empty(),
    }
}

proof fn lemma_begun_stays_begun(course: SyncCourse, n: int, later: int, paths: Set<Seq<Seq<char>>>)
    requires
        all_begun(course, n, paths),
        n <= later,
    ensures
        all_begun(course, later, paths),
{
    assert forall|path: Seq<Seq<char>>| #[trigger] paths.contains(path) implies exists|r: int|
        #[trigger] begun_at(course, r, later, path) by {
        let r = choose|r: int| #[trigger] begun_at(course, r, n, path);
        let local = at(local_there(course, r), path);
        let remote = at(remote_there(course, r), path);
        let record = at(records_there(course, r), path);
        let step = chosen_step(local, remote, record);
        let visit = VisitView { path, step, local, remote };
        assert(step_done(course, n, visit));
        lemma_step_stays_done(course, n, later, visit);
        assert(begun_at(course, r, later, path));
    }
}

spec fn is_backed(course: SyncCourse, i: int) -> bool {
    &&& all_begun(course, i, taken_for_begun(course.stages[i]))
    &&& course.stages[i] is Transferring ==> exists|r: int|
        r < i && #[trigger] completes_directory(course, r) && serves(course, r, i)
}

/// One more visit is done.
proof fn lemma_progress_is_begun(
    course: SyncCourse,
    r: int,
    i: int,
    visits: Seq<Visit>,
    k: int,
    progressed: Set<Seq<Seq<char>>>,
)
    requires
        r < i,
        completes_directory(course, r),
        plans_for(course, r, visits),
        0 <= k < visits.len(),
        step_done(course, i, visits[k]@),
        all_begun(course, i, progressed),
    ensures
        all_begun(course, i, progress(progressed, visits[k])),
{
    let visit = visits[k];
    let path = visit.path@;
    if makes_progress(visit.step) {
        assert(visit@.path == path);
        lemma_step_is_what_is_due(course, i, visit@, at(records_there(course, r), path));
        assert(begun_at(course, r, i, path));
    }
}

proof fn lemma_next_transfer_is_backed(
    course: SyncCourse,
    r: int,
    i: int,
    scan: RemoteScanView,
    dir: Seq<Seq<char>>,
    visits: Seq<Visit>,
    at: nat,
    progressed: Set<Seq<Seq<char>>>,
)
    requires
        r < i,
        completes_directory(course, r),
        plans_for(course, r, visits),
        at <= visits.len(),
        steps_done(course, i, visits, at as int),
        all_begun(course, i, progressed),
        (course.stages[i], course.asks[i]) == next_transfer(
            course.drive,
            scan,
            dir,
            visits,
            at,
            progressed,
        ),
    ensures
        is_backed(course, i),
    decreases visits.len() - at,
{
    if at < visits.len() {
        let visit = visits[at as int];
        if let Ok(effect) = effect_of(visit@, None) {
            if effect is KeepBoth {
                assert(work_begun(visit@, effect, course.drive) is Fails);
            } else {
                lemma_work_begins(course, i, visit@, effect);
                if work_begun(visit@, effect, course.drive) is Complete {
                    assert(steps_done(course, i, visits, (at + 1) as int));
                    lemma_progress_is_begun(course, r, i, visits, at as int, progressed);
                    lemma_next_transfer_is_backed(
                        course,
                        r,
                        i,
                        scan,
                        dir,
                        visits,
                        at + 1,
                        progress(progressed, visit),
                    );
                } else if course.stages[i] is Transferring {
                    assert(serves(course, r, i));
                }
            }
        }
    }
}

proof fn lemma_reading_is_backed(course: SyncCourse, i: int)
    requires
        course.wf(),
        course.turns(i),
        is_backed(course, i),
        course.stages[i] is Reading,
    ensures
        is_backed(course, i + 1),
{
    let scan = course.stages[i]->Reading_scan;
    let dir = course.stages[i]->Reading_dir;
    let progressed = course.stages[i]->Reading_progressed;
    let turn = (course.stages[i + 1], course.asks[i + 1]);
    lemma_begun_stays_begun(course, i, i + 1, progressed);
    if let SyncAnswer::Directory(state) = course.answers[i] {
        if completes_directory(course, i) && !(turn.0 is Ended) {
            let visits = choose|visits: Seq<Visit>| #[trigger]
                is_directory_plan(
                    visits,
                    local_there(course, i),
                    remote_there(course, i),
                    records_there(course, i),
                    told_state(course, i).active@.dom(),
                ) && turn == next_transfer(course.drive, scan, dir, visits, 0, progressed);
            lemma_next_transfer_is_backed(
                course,
                i,
                i + 1,
                scan,
                dir,
                visits,
                0,
                progressed,
            );
        }
    }
}

proof fn lemma_transferring_is_backed(course: SyncCourse, i: int)
    requires
        course.wf(),
        course.turns(i),
        is_backed(course, i),
        course.stages[i] is Transferring,
    ensures
        is_backed(course, i + 1),
{
    let r = choose|r: int|
        r < i && #[trigger] completes_directory(course, r) && serves(course, r, i);
    if let StageView::Transferring { scan, dir, visits, at, work, progressed } = course.stages[i] {
        let visit = visits[at as int];
        let answer = course.answers[i];
        let grown = match answer {
            SyncAnswer::Created(file) => if work == Work::Creating {
                with_created(scan, visit.path@, file@)
            } else {
                scan
            },
            _ => scan,
        };
        lemma_begun_stays_begun(course, i, i + 1, progressed);
        lemma_steps_stay_done(course, i, i + 1, visits, at as int);
        lemma_work_goes_on(course, i, visit@, work);
        if work_continued(visit@, course.drive, work, work_answer(answer)) is Complete {
            assert(steps_done(course, i + 1, visits, (at + 1) as int));
            lemma_progress_is_begun(course, r, i + 1, visits, at as int, progressed);
            lemma_next_transfer_is_backed(
                course,
                r,
                i + 1,
                grown,
                dir,
                visits,
                at + 1,
                progress(progressed, visit),
            );
        } else if course.stages[i + 1] is Transferring {
            assert(serves(course, r, i + 1));
        }
    }
}

proof fn lemma_courses_are_backed(course: SyncCourse, i: int)
    requires
        course.wf(),
        0 <= i < course.stages.len(),
    ensures
        is_backed(course, i),
    decreases i,
{
    if i > 0 {
        lemma_courses_are_backed(course, i - 1);
        assert(course.turns(i - 1));
        lemma_courses_are_steady(course, i - 1);
        let turn = (course.stages[i], course.asks[i]);
        match course.stages[i - 1] {
            StageView::Reading { .. } => lemma_reading_is_backed(course, i - 1),
            StageView::Transferring { .. } => lemma_transferring_is_backed(course, i - 1),
            StageView::Settling(s, wait) => {
                lemma_settling_keeps_plan(course.drive, s, wait, course.answers[i - 1], turn);
            },
            StageView::Planning { .. } => {
                lemma_planning_is_steady(
                    course.drive,
                    course.stages[i - 1],
                    course.answers[i - 1],
                    turn,
                );
            },
            _ => {
                lemma_begun_stays_begun(
                    course,
                    i - 1,
                    i,
                    taken_for_begun(course.stages[i - 1]),
                );
            },
        }
    }
}

/// A path is left alone for the rest of a reconciliation only where a transfer that was due there was
/// begun on this pass, or a folder that was due there was created.
pub proof fn lemma_left_alone_is_begun(course: SyncCourse, i: int, path: Seq<Seq<char>>)
    requires
        course.wf(),
        0 <= i < course.stages.len(),
        taken_for_begun(course.stages[i]).contains(path),
    ensures
        exists|r: int| #[trigger] begun_at(course, r, i, path),
{
    lemma_courses_are_backed(course, i);
}

/// A course that waits for a transfer asked for it as the visit has it.
pub(crate) proof fn lemma_transfer_is_under_way(course: SyncCourse, i: int)
    requires
        course.wf(),
        0 <= i < course.stages.len(),
    ensures
        course.stages[i] matches StageView::Transferring { scan, dir, visits, at, work, progressed }
            ==> under_way(course, i, visits[at as int]@, work),
{
    lemma_courses_are_backed(course, i);
}

/// The visits of a directory with which a course waits for a transfer are those of its plan.
pub(crate) proof fn lemma_transfers_are_planned(course: SyncCourse, i: int)
    requires
        course.wf(),
        0 <= i < course.stages.len(),
        course.stages[i] is Transferring,
    ensures
        course.stages[i]->Transferring_at < course.stages[i]->Transferring_visits.len(),
        are_early(course.stages[i]->Transferring_visits),
{
    lemma_courses_are_backed(course, i);
    let r = choose|r: int|
        r < i && #[trigger] completes_directory(course, r) && serves(course, r, i);
    assert(plans_for(course, r, course.stages[i]->Transferring_visits));
}

/// Whether visits are those of a directory: each with the step that its sides and its record call for,
/// or with none.
pub open spec fn are_early(visits: Seq<Visit>) -> bool {
    forall|k: int|
        0 <= k < visits.len() ==> is_early_visit((#[trigger] visits[k])@)
}

/// Whether a visit is one of a directory.
pub open spec fn is_early_visit(visit: VisitView) -> bool {
    exists|active: bool, record: Option<FileMetadataView>|
        visit.step == #[trigger] early_step(active, visit.local, visit.remote, record)
}

/// Whether every visit before `to` at which a transfer is begun is noted.
spec fn are_noted(visits: Seq<Visit>, to: int, progressed: Set<Seq<Seq<char>>>) -> bool {
    forall|k: int|
        0 <= k < to && makes_progress((#[trigger] visits[k]).step) ==> progressed.contains(
            visits[k].path@,
        )
}

/// Whether what is due at a path of the directory of turn `r` is noted, or will be.
spec fn is_noted(course: SyncCourse, r: int, i: int, path: Seq<Seq<char>>) -> bool {
    ||| course.stages[i] is Ended
    ||| course.stages[i] is Settling
    ||| taken_for_begun(course.stages[i]).contains(path)
    ||| (course.stages[i] matches StageView::Transferring {
        scan,
        dir,
        visits,
        at,
        work,
        progressed,
    } && plans_for(course, r, visits) && are_noted(visits, at as int, progressed))
}

proof fn lemma_next_transfer_notes(
    course: SyncCourse,
    r: int,
    i: int,
    scan: RemoteScanView,
    dir: Seq<Seq<char>>,
    visits: Seq<Visit>,
    at: nat,
    progressed: Set<Seq<Seq<char>>>,
    path: Seq<Seq<char>>,
)
    requires
        completes_directory(course, r),
        plans_for(course, r, visits),
        at <= visits.len(),
        are_noted(visits, at as int, progressed),
        is_due_there(course, r, path),
        (course.stages[i], course.asks[i]) == next_transfer(
            course.drive,
            scan,
            dir,
            visits,
            at,
            progressed,
        ),
    ensures
        is_noted(course, r, i, path),
    decreases visits.len() - at,
{
    if at < visits.len() {
        let visit = visits[at as int];
        if let Ok(effect) = effect_of(visit@, None) {
            if work_begun(visit@, effect, course.drive) is Complete {
                let later = progress(progressed, visit);
                assert forall|k: int|
                    0 <= k < at + 1 && makes_progress(
                        (#[trigger] visits[k]).step,
                    ) implies later.contains(visits[k].path@) by {
                    if k < at {
                        assert(progressed.contains(visits[k].path@));
                    }
                }
                lemma_next_transfer_notes(
                    course,
                    r,
                    i,
                    scan,
                    dir,
                    visits,
                    at + 1,
                    later,
                    path,
                );
            }
        }
    } else {
        lemma_due_is_planned(course, r, visits, path);
        let k = visit_paths(visits).index_of(path);
        assert(visits[k].path@ == path);
        assert(progressed.contains(visits[k].path@));
    }
}

/// Whether a transfer is due at a path of the directory that was told at turn `r`.
pub open spec fn is_due_there(course: SyncCourse, r: int, path: Seq<Seq<char>>) -> bool {
    !told_state(course, r).active@.contains_key(path) && transfer_is_due(
        at(local_there(course, r), path),
        at(remote_there(course, r), path),
        at(records_there(course, r), path),
    )
}

proof fn lemma_due_is_planned(
    course: SyncCourse,
    r: int,
    visits: Seq<Visit>,
    path: Seq<Seq<char>>,
)
    requires
        plans_for(course, r, visits),
        is_due_there(course, r, path),
    ensures
        visit_paths(visits).contains(path),
        makes_progress(visits[visit_paths(visits).index_of(path)].step),
{
    assert(visit_paths(visits).contains(path));
    let k = visit_paths(visits).index_of(path);
    assert(visits[k].path@ == path);
    assert(visits[k]@.step == visits[k].step);
}

proof fn lemma_due_is_noted(course: SyncCourse, r: int, i: int, path: Seq<Seq<char>>)
    requires
        course.wf(),
        completes_directory(course, r),
        is_due_there(course, r, path),
        r < i < course.stages.len(),
    ensures
        is_noted(course, r, i, path),
    decreases i,
{
    assert(course.turns(i - 1));
    lemma_courses_are_steady(course, i - 1);
    let turn = (course.stages[i], course.asks[i]);
    if i == r + 1 {
        let scan = course.stages[r]->Reading_scan;
        let dir = course.stages[r]->Reading_dir;
        let progressed = course.stages[r]->Reading_progressed;
        if !(turn.0 is Ended) {
            let visits = choose|visits: Seq<Visit>| #[trigger]
                is_directory_plan(
                    visits,
                    local_there(course, r),
                    remote_there(course, r),
                    records_there(course, r),
                    told_state(course, r).active@.dom(),
                ) && turn == next_transfer(course.drive, scan, dir, visits, 0, progressed);
            lemma_next_transfer_notes(course, r, i, scan, dir, visits, 0, progressed, path);
        }
    } else {
        lemma_due_is_noted(course, r, i - 1, path);
        lemma_note_is_kept(course, r, i - 1, path);
    }
}

proof fn lemma_note_is_kept(course: SyncCourse, r: int, i: int, path: Seq<Seq<char>>)
    requires
        course.wf(),
        course.turns(i),
        completes_directory(course, r),
        is_due_there(course, r, path),
        is_noted(course, r, i, path),
        steady(course.stages[i]),
    ensures
        is_noted(course, r, i + 1, path),
{
    let turn = (course.stages[i + 1], course.asks[i + 1]);
    match course.stages[i] {
        StageView::Settling(s, wait) => {
            lemma_settling_keeps_plan(course.drive, s, wait, course.answers[i], turn);
        },
        StageView::Planning { .. } => lemma_planning_plans(course, i),
        StageView::Ended => lemma_end_is_final(course.drive, course.answers[i], turn),
        StageView::Transferring { scan, dir, visits, at, work, progressed } => {
            let visit = visits[at as int];
            let grown = match course.answers[i] {
                SyncAnswer::Created(file) => if work == Work::Creating {
                    with_created(scan, visit.path@, file@)
                } else {
                    scan
                },
                _ => scan,
            };
            let later = progress(progressed, visit);
            if progressed.contains(path) {
                lemma_next_transfer_keeps_notes(
                    course.drive,
                    grown,
                    dir,
                    visits,
                    at + 1,
                    later,
                    path,
                );
            } else {
                assert(are_noted(visits, (at + 1) as int, later)) by {
                    assert forall|k: int|
                        0 <= k < at + 1 && makes_progress(
                            (#[trigger] visits[k]).step,
                        ) implies later.contains(visits[k].path@) by {
                        if k < at {
                            assert(progressed.contains(visits[k].path@));
                        }
                    }
                }
                if turn == next_transfer(course.drive, grown, dir, visits, at + 1, later) {
                    lemma_next_transfer_notes(
                        course,
                        r,
                        i + 1,
                        grown,
                        dir,
                        visits,
                        at + 1,
                        later,
                        path,
                    );
                }
            }
        },
        StageView::Reading { scan, dir, children, progressed } => {
            if !(turn.0 is Ended) {
                let visits = choose|visits: Seq<Visit>|
                    turn == #[trigger] next_transfer(
                        course.drive,
                        scan,
                        dir,
                        visits,
                        0,
                        progressed,
                    );
                lemma_next_transfer_keeps_notes(
                    course.drive,
                    scan,
                    dir,
                    visits,
                    0,
                    progressed,
                    path,
                );
            }
        },
        _ => {},
    }
}

proof fn lemma_planning_plans(course: SyncCourse, i: int)
    requires
        course.wf(),
        course.turns(i),
        course.stages[i] is Planning,
    ensures
        course.stages[i + 1] is Settling || course.stages[i + 1] is Ended,
{
}

proof fn lemma_next_transfer_keeps_notes(
    drive: u128,
    scan: RemoteScanView,
    dir: Seq<Seq<char>>,
    visits: Seq<Visit>,
    at: nat,
    progressed: Set<Seq<Seq<char>>>,
    path: Seq<Seq<char>>,
)
    requires
        progressed.contains(path),
    ensures
        ({
            let turn = next_transfer(drive, scan, dir, visits, at, progressed);
            turn.0 is Ended || taken_for_begun(turn.0).contains(path)
        }),
    decreases visits.len() - at,
{
    if at < visits.len() {
        lemma_next_transfer_keeps_notes(
            drive,
            scan,
            dir,
            visits,
            at + 1,
            progress(progressed, visits[at as int]),
            path,
        );
    }
}

/// Wherever a transfer is begun or a folder created while the trees are being read, the path is left
/// alone for the rest of the reconciliation: the listings that were made before know nothing of it.
pub proof fn lemma_begun_is_left_alone(course: SyncCourse, r: int, n: int, path: Seq<Seq<char>>)
    requires
        course.wf(),
        completes_directory(course, r),
        is_due_there(course, r, path),
        r < n < course.stages.len(),
        course.stages[n] is Listing || course.stages[n] is Reading || course.stages[n] is Scanning
            || course.stages[n] is Planning,
    ensures
        taken_for_begun(course.stages[n]).contains(path),
{
    lemma_due_is_noted(course, r, n, path);
}

} // verus!
