//! What a reconciliation has done when it finishes, told by what it asked for and what it was
//! answered.
use crate::agenda::{effect_of, EffectView};
use crate::deletions::{asked_deletion, asks_deletion, is_served, Removal};
use crate::local_file::{baseline_view, FingerprintView, LocalErrorView, metadata_view, scan_view};
use crate::outside::is_random_uuid;
use crate::path::{check_view, path_text};
use crate::plan::{at, record_views, visit_paths};
use crate::reconcile::{
    absence_looked, compared, deletes, follows, inside_looked, is_settlement, local_looked, next_job,
    next_transfer, path_checked, planned, progress, remote_looked, SettlementView, StageView,
    SyncTurn, visit_done, visit_turn, Wait, waits_for, with_created,
};
use crate::reconcile_laws::{
    lemma_courses_are_steady, lemma_deletion_is_planned, lemma_end_is_final,
    lemma_nothing_is_taken_away_early, lemma_phases_come_in_order, lemma_settled_is_not_finished,
    lemma_settling_keeps_plan, same_plan, settles, steady, SyncCourse, touches,
};
use crate::records::{Disposal, FileMetadataView, FileView, Taken};
use crate::remote_scan::RemoteScanView;
use crate::steps::{chosen_step, hidden, recorded_print, Step, TransferView, Visit, VisitView};
use crate::sync::{conflict_name, conflict_path_view, is_internal, remote_differs};
use crate::work::{
    DriveState, SyncAnswer, SyncAskView, Work, work_answer, work_begun, work_continued, WorkTurnView,
};
use vstd::prelude::*;

verus! {

/// Whether turn `j` asked for this, and it was done.
pub open spec fn confirmed(course: SyncCourse, j: int, ask: SyncAskView) -> bool {
    course.turns(j) && course.asks[j] == ask && course.answers[j] is Done
}

/// Whether this was asked for and done before turn `n`.
pub open spec fn has_done(course: SyncCourse, n: int, ask: SyncAskView) -> bool {
    exists|j: int| j < n && #[trigger] confirmed(course, j, ask)
}

/// Whether a transfer to or from the server was queued before turn `n`, which goes ahead only while
/// `expected` stands at the path.
pub open spec fn queued(
    course: SyncCourse,
    n: int,
    upload: bool,
    path: Seq<Seq<char>>,
    expected: Option<FingerprintView>,
) -> bool {
    has_done(course, n, SyncAskView::Queue(TransferView { upload, path, expected }))
}

/// Whether turn `j` created a remote folder for the directory, which is `file`.
pub open spec fn created_at(course: SyncCourse, j: int, path: Seq<Seq<char>>, file: FileView) -> bool {
    course.turns(j) && course.asks[j] == SyncAskView::CreateRemote(path, Taken::Refuse) && (
    course.answers[j] matches SyncAnswer::Created(made) && made@ == file)
}

/// Whether turn `j` made a local directory, and `print` was found there.
pub open spec fn made_at(
    course: SyncCourse,
    j: int,
    path: Seq<Seq<char>>,
    print: Option<FingerprintView>,
) -> bool {
    course.turns(j) && course.asks[j] == SyncAskView::CreateLocal(path) && (
    course.answers[j] matches SyncAnswer::Scanned(found) && scan_view(found) == Ok::<
        Option<FingerprintView>,
        LocalErrorView,
    >(print))
}

/// Whether turn `j` looked at the path, and `print` was found there.
pub open spec fn looked_at(
    course: SyncCourse,
    j: int,
    path: Seq<Seq<char>>,
    print: Option<FingerprintView>,
) -> bool {
    course.turns(j) && course.asks[j] == SyncAskView::Look(path) && (
    course.answers[j] matches SyncAnswer::Scanned(found) && scan_view(found) == Ok::<
        Option<FingerprintView>,
        LocalErrorView,
    >(print))
}

/// Whether a remote folder was created for the local directory and recorded before turn `n`.
pub open spec fn folder_created(
    course: SyncCourse,
    n: int,
    path: Seq<Seq<char>>,
    local: Option<FingerprintView>,
) -> bool {
    exists|j: int, file: FileView|
        j + 1 < n && #[trigger] created_at(course, j, path, file) && confirmed(
            course,
            j + 1,
            SyncAskView::Keep(metadata_view(file, path, course.drive, local)),
        )
}

/// Whether a local directory was made for the remote folder and recorded before turn `n`.
pub open spec fn directory_made(
    course: SyncCourse,
    n: int,
    path: Seq<Seq<char>>,
    remote: FileView,
) -> bool {
    exists|j: int, print: Option<FingerprintView>|
        j + 1 < n && #[trigger] made_at(course, j, path, print) && confirmed(
            course,
            j + 1,
            SyncAskView::Keep(metadata_view(remote, path, course.drive, print)),
        )
}

/// Whether the local version was moved to another name in its directory at turn `j + 1`, after it
/// was found unchanged at turn `j`, and the user was told so.
pub open spec fn moved_aside(
    course: SyncCourse,
    j: int,
    path: Seq<Seq<char>>,
    local: FingerprintView,
) -> bool {
    looked_at(course, j, path, Some(local)) && exists|copy: Seq<Seq<char>>| #[trigger]
        confirmed(
            course,
            j + 1,
            SyncAskView::MoveAside(path, copy, "Local version preserved as "@ + path_text(copy)),
        ) && is_beside(path, copy)
}

/// Whether `copy` is another path in the same directory, whose name begins as that of `path` does.
pub open spec fn is_beside(path: Seq<Seq<char>>, copy: Seq<Seq<char>>) -> bool {
    &&& path.len() > 0 && copy.len() == path.len()
    &&& copy.drop_last() == path.drop_last()
    &&& copy.last().len() > path.last().len() && copy.last().take(path.last().len() as int)
        == path.last()
}

/// Whether the conflict at a path was settled before turn `n`: the local version, if there is one,
/// was moved aside, then the record was dropped, and then the remote version, if there is one, was
/// fetched.
pub open spec fn both_kept(
    course: SyncCourse,
    n: int,
    path: Seq<Seq<char>>,
    local: Option<FingerprintView>,
    remote: Option<FileView>,
) -> bool {
    exists|j: int|
        j < n && #[trigger] confirmed(course, j, SyncAskView::Forget(path)) && (local is Some
            ==> moved_aside(course, j - 2, path, local->0)) && (remote is Some ==> j + 1 < n
            && confirmed(
            course,
            j + 1,
            SyncAskView::Queue(TransferView { upload: false, path, expected: None }),
        ))
}

/// Whether what a visit is to do was done before turn `n`. Deletions come later.
pub open spec fn step_done(course: SyncCourse, n: int, visit: VisitView) -> bool {
    match visit.step {
        Step::Record => visit.remote is Some && has_done(
            course,
            n,
            SyncAskView::Keep(
                metadata_view(visit.remote->0, visit.path, course.drive, visit.local),
            ),
        ),
        Step::Forget => has_done(course, n, SyncAskView::Forget(visit.path)),
        Step::Upload => queued(course, n, true, visit.path, visit.local),
        Step::Download => queued(course, n, false, visit.path, visit.local),
        Step::CreateRemoteFolder => folder_created(course, n, visit.path, visit.local),
        Step::CreateLocalFolder => visit.remote is Some && directory_made(
            course,
            n,
            visit.path,
            visit.remote->0,
        ),
        Step::KeepBoth => both_kept(course, n, visit.path, visit.local, visit.remote),
        Step::TypeConflict => false,
        Step::DirectoryConflict => false,
        _ => true,
    }
}

proof fn lemma_done_stays_done(course: SyncCourse, n: int, later: int, ask: SyncAskView)
    requires
        has_done(course, n, ask),
        n <= later,
    ensures
        has_done(course, later, ask),
{
    let j = choose|j: int| j < n && #[trigger] confirmed(course, j, ask);
    assert(j < later && confirmed(course, j, ask));
}

pub(crate) proof fn lemma_step_stays_done(course: SyncCourse, n: int, later: int, visit: VisitView)
    requires
        step_done(course, n, visit),
        n <= later,
    ensures
        step_done(course, later, visit),
{
    let path = visit.path;
    match visit.step {
        Step::Record => lemma_done_stays_done(
            course,
            n,
            later,
            SyncAskView::Keep(metadata_view(visit.remote->0, path, course.drive, visit.local)),
        ),
        Step::Forget => lemma_done_stays_done(course, n, later, SyncAskView::Forget(path)),
        Step::Upload => lemma_done_stays_done(
            course,
            n,
            later,
            SyncAskView::Queue(TransferView { upload: true, path, expected: visit.local }),
        ),
        Step::Download => lemma_done_stays_done(
            course,
            n,
            later,
            SyncAskView::Queue(TransferView { upload: false, path, expected: visit.local }),
        ),
        Step::CreateRemoteFolder => {
            let (j, file) = choose|j: int, file: FileView|
                j + 1 < n && #[trigger] created_at(course, j, path, file) && confirmed(
                    course,
                    j + 1,
                    SyncAskView::Keep(metadata_view(file, path, course.drive, visit.local)),
                );
            assert(j + 1 < later && created_at(course, j, path, file));
        },
        Step::CreateLocalFolder => {
            let (j, print) = choose|j: int, print: Option<FingerprintView>|
                j + 1 < n && #[trigger] made_at(course, j, path, print) && confirmed(
                    course,
                    j + 1,
                    SyncAskView::Keep(metadata_view(visit.remote->0, path, course.drive, print)),
                );
            assert(j + 1 < later && made_at(course, j, path, print));
        },
        Step::KeepBoth => {
            let j = choose|j: int|
                j < n && #[trigger] confirmed(course, j, SyncAskView::Forget(path)) && (
                visit.local is Some ==> moved_aside(course, j - 2, path, visit.local->0)) && (
                visit.remote is Some ==> j + 1 < n && confirmed(
                    course,
                    j + 1,
                    SyncAskView::Queue(TransferView { upload: false, path, expected: None }),
                ));
            assert(j < later && confirmed(course, j, SyncAskView::Forget(path)));
        },
        _ => {},
    }
}

/// What the turns so far tell of a visit that takes effect.
pub open spec fn under_way(course: SyncCourse, i: int, visit: VisitView, work: Work) -> bool {
    let ask = course.asks[i];
    let path = visit.path;
    match work {
        Work::Creating => visit.step == Step::CreateRemoteFolder && ask == SyncAskView::CreateRemote(
            path,
            Taken::Refuse,
        ),
        Work::Making => visit.step == Step::CreateLocalFolder && ask == SyncAskView::CreateLocal(path),
        Work::Moving(fetch) => visit.step == Step::KeepBoth && fetch == (visit.remote is Some)
            && visit.local is Some && looked_at(course, i - 1, path, visit.local) && (
        ask matches SyncAskView::MoveAside(from, copy, notice) && from == path && notice
            == "Local version preserved as "@ + path_text(copy) && is_beside(path, copy)),
        Work::Forgetting(fetch) => visit.step == Step::KeepBoth && fetch == (visit.remote is Some)
            && ask == SyncAskView::Forget(path) && (visit.local is Some ==> moved_aside(
            course,
            i - 2,
            path,
            visit.local->0,
        )),
        Work::Ending => match visit.step {
            Step::Record => visit.remote is Some && ask == SyncAskView::Keep(
                metadata_view(visit.remote->0, path, course.drive, visit.local),
            ),
            Step::Forget => ask == SyncAskView::Forget(path),
            Step::Upload => ask == SyncAskView::Queue(
                TransferView { upload: true, path, expected: visit.local },
            ),
            Step::Download => ask == SyncAskView::Queue(
                TransferView { upload: false, path, expected: visit.local },
            ),
            Step::CreateRemoteFolder => exists|file: FileView| #[trigger]
                created_at(course, i - 1, path, file) && ask == SyncAskView::Keep(
                    metadata_view(file, path, course.drive, visit.local),
                ),
            Step::CreateLocalFolder => visit.remote is Some && exists|
                print: Option<FingerprintView>,
            | #[trigger]
                made_at(course, i - 1, path, print) && ask == SyncAskView::Keep(
                    metadata_view(visit.remote->0, path, course.drive, print),
                ),
            Step::KeepBoth => visit.remote is Some && confirmed(
                course,
                i - 1,
                SyncAskView::Forget(path),
            ) && ask == SyncAskView::Queue(TransferView { upload: false, path, expected: None }) && (
            visit.local is Some ==> moved_aside(course, i - 3, path, visit.local->0)),
            _ => false,
        },
    }
}

pub(crate) proof fn lemma_work_begins(course: SyncCourse, i: int, visit: VisitView, effect: EffectView)
    requires
        effect_of(visit, None) == Ok::<EffectView, crate::sync_error::SyncErrorView>(effect),
        !(effect is KeepBoth),
    ensures
        match work_begun(visit, effect, course.drive) {
            WorkTurnView::Complete => step_done(course, i, visit),
            WorkTurnView::Asks(work, ask) => course.asks[i] == ask ==> under_way(
                course,
                i,
                visit,
                work,
            ),
            WorkTurnView::Fails(_) => true,
        },
{
}

pub(crate) proof fn lemma_work_goes_on(course: SyncCourse, i: int, visit: VisitView, work: Work)
    requires
        course.turns(i),
        under_way(course, i, visit, work),
    ensures
        match work_continued(visit, course.drive, work, work_answer(course.answers[i])) {
            WorkTurnView::Complete => step_done(course, i + 1, visit),
            WorkTurnView::Asks(next, ask) => course.asks[i + 1] == ask ==> under_way(
                course,
                i + 1,
                visit,
                next,
            ),
            WorkTurnView::Fails(_) => true,
        },
{
    let path = visit.path;
    match (work, course.answers[i]) {
        (Work::Creating, SyncAnswer::Created(file)) => {
            assert(created_at(course, i, path, file@));
            assert(created_at(course, (i + 1) - 1, path, file@));
        },
        (Work::Making, SyncAnswer::Scanned(found)) => {
            if let Ok(print) = scan_view(found) {
                assert(made_at(course, i, path, print));
                assert(made_at(course, (i + 1) - 1, path, print));
            }
        },
        (Work::Moving(fetch), SyncAnswer::Done) => {
            let copy = course.asks[i]->MoveAside_1;
            assert(confirmed(
                course,
                (i - 1) + 1,
                SyncAskView::MoveAside(
                    path,
                    copy,
                    "Local version preserved as "@ + path_text(copy),
                ),
            ));
            assert(moved_aside(course, i - 1, path, visit.local->0));
            assert(course.asks[i + 1] == SyncAskView::Forget(path) ==> under_way(
                course,
                i + 1,
                visit,
                Work::Forgetting(fetch),
            ));
        },
        (Work::Forgetting(fetch), SyncAnswer::Done) => {
            assert(confirmed(course, i, SyncAskView::Forget(path)));
        },
        (Work::Ending, SyncAnswer::Done) => {
            assert(confirmed(course, i, course.asks[i]));
            match visit.step {
                Step::CreateRemoteFolder => {
                    let file = choose|file: FileView| #[trigger]
                        created_at(course, i - 1, path, file) && course.asks[i]
                            == SyncAskView::Keep(
                            metadata_view(file, path, course.drive, visit.local),
                        );
                    assert(created_at(course, i - 1, path, file));
                    assert(confirmed(
                        course,
                        (i - 1) + 1,
                        SyncAskView::Keep(metadata_view(file, path, course.drive, visit.local)),
                    ));
                },
                Step::CreateLocalFolder => {
                    let print = choose|print: Option<FingerprintView>| #[trigger]
                        made_at(course, i - 1, path, print) && course.asks[i] == SyncAskView::Keep(
                            metadata_view(visit.remote->0, path, course.drive, print),
                        );
                    assert(made_at(course, i - 1, path, print));
                    assert(confirmed(
                        course,
                        (i - 1) + 1,
                        SyncAskView::Keep(
                            metadata_view(visit.remote->0, path, course.drive, print),
                        ),
                    ));
                },
                Step::KeepBoth => {
                    assert(confirmed(course, i - 1, SyncAskView::Forget(path)));
                    assert(confirmed(
                        course,
                        (i - 1) + 1,
                        SyncAskView::Queue(TransferView { upload: false, path, expected: None }),
                    ));
                },
                _ => {},
            }
            assert(step_done(course, i + 1, visit));
        },
        _ => {},
    }
}

/// Whether turn `j` took the last look at the local entry, and `print` was found there.
pub open spec fn local_seen(
    course: SyncCourse,
    j: int,
    path: Seq<Seq<char>>,
    print: FingerprintView,
    occupied: bool,
) -> bool {
    course.turns(j) && course.asks[j] == SyncAskView::LookLocal(path, print.directory) && (
    course.answers[j] matches SyncAnswer::Local(found, told) && told == occupied && scan_view(found)
        == Ok::<Option<FingerprintView>, LocalErrorView>(Some(print)))
}

/// Whether turn `j` took the last look at the remote entry, which was `file` then.
pub open spec fn remote_seen(course: SyncCourse, j: int, path: Seq<Seq<char>>, file: FileView) -> bool {
    course.turns(j) && course.asks[j] == SyncAskView::LookRemote(path) && (
    course.answers[j] matches SyncAnswer::Remote(latest) && latest@ == file)
}

/// Whether turn `j` took the last look into the remote folder, which held something or not.
pub open spec fn inside_seen(course: SyncCourse, j: int, path: Seq<Seq<char>>, occupied: bool) -> bool {
    course.turns(j) && course.asks[j] == SyncAskView::LookInside(path) && course.answers[j]
        == SyncAnswer::Inside(occupied)
}

/// How a local entry is removed.
pub open spec fn removal_of(print: FingerprintView) -> Removal {
    if print.directory {
        Removal::Directory
    } else {
        Removal::File
    }
}

/// Whether the local entry, which was `print`, was removed with its record before turn `n`. A
/// directory that holds something is let be.
pub open spec fn local_deleted(
    course: SyncCourse,
    n: int,
    path: Seq<Seq<char>>,
    print: FingerprintView,
) -> bool {
    exists|j: int, occupied: bool|
        j < n && #[trigger] local_seen(course, j, path, print, occupied) && (print.directory
            && occupied || j + 2 < n && confirmed(
            course,
            j + 1,
            SyncAskView::RemoveLocal(path, removal_of(print)),
        ) && confirmed(course, j + 2, SyncAskView::Forget(path)))
}

/// Whether the remote entry was removed with its record before turn `n`, after nothing was found at
/// the local path and while it was the recorded version. A folder that holds something is let be.
pub open spec fn remote_deleted(
    course: SyncCourse,
    n: int,
    path: Seq<Seq<char>>,
    record: FileMetadataView,
) -> bool {
    exists|j: int, file: FileView|
        j < n && #[trigger] remote_seen(course, j, path, file) && looked_at(
            course,
            j - 1,
            path,
            None,
        ) && !remote_differs(file, record) && if !file.is_folder {
            j + 2 < n && confirmed(
                course,
                j + 1,
                SyncAskView::RemoveRemote(path, Disposal::Soft),
            ) && confirmed(course, j + 2, SyncAskView::Forget(path))
        } else {
            j + 1 < n && (inside_seen(course, j + 1, path, true) || j + 3 < n && inside_seen(
                course,
                j + 1,
                path,
                false,
            ) && confirmed(
                course,
                j + 2,
                SyncAskView::RemoveRemote(path, Disposal::Soft),
            ) && confirmed(course, j + 3, SyncAskView::Forget(path)))
        }
}

/// Whether deletion `d` was carried out before turn `n`.
spec fn deletion_done(course: SyncCourse, n: int, s: SettlementView, d: int) -> bool {
    let path = s.deletions[d].path@;
    if s.deletions[d].remote {
        remote_deleted(course, n, path, s.records[path])
    } else {
        s.deletions[d]@.expected is Some && local_deleted(
            course,
            n,
            path,
            s.deletions[d]@.expected->0,
        )
    }
}

proof fn lemma_deletion_stays_done(
    course: SyncCourse,
    n: int,
    later: int,
    s: SettlementView,
    d: int,
)
    requires
        deletion_done(course, n, s, d),
        n <= later,
    ensures
        deletion_done(course, later, s, d),
{
    let path = s.deletions[d].path@;
    if s.deletions[d].remote {
        let record = s.records[path];
        let (j, file) = choose|j: int, file: FileView|
            j < n && #[trigger] remote_seen(course, j, path, file) && looked_at(
                course,
                j - 1,
                path,
                None,
            ) && !remote_differs(file, record) && if !file.is_folder {
                j + 2 < n && confirmed(
                    course,
                    j + 1,
                    SyncAskView::RemoveRemote(path, Disposal::Soft),
                ) && confirmed(course, j + 2, SyncAskView::Forget(path))
            } else {
                j + 1 < n && (inside_seen(course, j + 1, path, true) || j + 3 < n && inside_seen(
                    course,
                    j + 1,
                    path,
                    false,
                ) && confirmed(
                    course,
                    j + 2,
                    SyncAskView::RemoveRemote(path, Disposal::Soft),
                ) && confirmed(course, j + 3, SyncAskView::Forget(path)))
            };
        assert(j < later && remote_seen(course, j, path, file));
    } else {
        let print = s.deletions[d]@.expected->0;
        let (j, occupied) = choose|j: int, occupied: bool|
            j < n && #[trigger] local_seen(course, j, path, print, occupied) && (print.directory
                && occupied || j + 2 < n && confirmed(
                course,
                j + 1,
                SyncAskView::RemoveLocal(path, removal_of(print)),
            ) && confirmed(course, j + 2, SyncAskView::Forget(path)));
        assert(j < later && local_seen(course, j, path, print, occupied));
    }
}

/// Whether the visits and deletions that count as done were carried out before turn `n`.
spec fn done_so_far(course: SyncCourse, n: int, s: SettlementView) -> bool {
    &&& forall|k: int| 0 <= k < s.visited ==> step_done(course, n, (#[trigger] s.visits[k])@)
    &&& forall|d: int|
        #![trigger s.deletions[d]]
        0 <= d < s.deleted ==> deletion_done(course, n, s, d)
}

/// What the turns so far tell of the deletion that comes next.
spec fn deletion_under_way(course: SyncCourse, i: int, s: SettlementView, wait: Wait) -> bool {
    let ask = course.asks[i];
    let deletion = s.deletions[s.deleted as int];
    let path = deletion.path@;
    let print = deletion@.expected->0;
    match wait {
        Wait::Local => !deletion.remote && deletion@.expected is Some && ask
            == SyncAskView::LookLocal(path, print.directory),
        Wait::Absence => deletion.remote && ask == SyncAskView::Look(path),
        Wait::Remote => deletion.remote && ask == SyncAskView::LookRemote(path) && looked_at(
            course,
            i - 1,
            path,
            None,
        ),
        Wait::Inside => deletion.remote && ask == SyncAskView::LookInside(path) && looked_at(
            course,
            i - 2,
            path,
            None,
        ) && exists|file: FileView| #[trigger]
            remote_seen(course, i - 1, path, file) && file.is_folder && !remote_differs(
                file,
                s.records[path],
            ),
        Wait::Removal => removal_asked(course, i, s),
        Wait::Dropping => removal_asked(course, i - 1, s) && course.turns(i - 1)
            && course.answers[i - 1] is Done && ask == SyncAskView::Forget(path),
        _ => true,
    }
}

spec fn removal_asked(course: SyncCourse, i: int, s: SettlementView) -> bool {
    let ask = course.asks[i];
    let deletion = s.deletions[s.deleted as int];
    let path = deletion.path@;
    let print = deletion@.expected->0;
    if !deletion.remote {
        deletion@.expected is Some && ask == SyncAskView::RemoveLocal(path, removal_of(print))
            && exists|occupied: bool| #[trigger]
            local_seen(course, i - 1, path, print, occupied)
    } else {
        ask == SyncAskView::RemoveRemote(path, Disposal::Soft) && exists|file: FileView, j: int|
            #[trigger]
            remote_seen(course, j, path, file) && looked_at(course, j - 1, path, None)
                && !remote_differs(file, s.records[path]) && if file.is_folder {
                j == i - 2 && inside_seen(course, i - 1, path, false)
            } else {
                j == i - 1
            }
    }
}

/// What the turns so far tell of what a settlement waits for.
spec fn job_under_way(course: SyncCourse, i: int, s: SettlementView, wait: Wait) -> bool {
    let visit = s.visits[s.visited as int]@;
    match wait {
        Wait::Path => course.asks[i] is CheckPath,
        Wait::Work(work) => under_way(course, i, visit, work),
        Wait::Comparison => visit.step == Step::KeepBoth && visit.local is Some && course.asks[i]
            == SyncAskView::Look(visit.path),
        _ => deletion_under_way(course, i, s, wait),
    }
}

/// Whether everything that a settlement holds was carried out before turn `n`.
spec fn all_done(course: SyncCourse, n: int, s: SettlementView) -> bool {
    &&& forall|k: int| 0 <= k < s.visits.len() ==> step_done(course, n, (#[trigger] s.visits[k])@)
    &&& forall|d: int|
        #![trigger s.deletions[d]]
        0 <= d < s.deletions.len() ==> deletion_done(course, n, s, d)
}

/// Whether a course that settles `s` is accounted for at turn `i`.
spec fn accounts(course: SyncCourse, i: int, s: SettlementView) -> bool {
    match course.stages[i] {
        StageView::Settling(t, wait) => same_plan(s, t) && done_so_far(course, i, t)
            && job_under_way(course, i, t, wait),
        StageView::Ended => course.asks[i] is Finished ==> all_done(course, i, s),
        _ => false,
    }
}

proof fn lemma_next_job_is_accounted(course: SyncCourse, i: int, s: SettlementView)
    requires
        is_settlement(s),
        done_so_far(course, i, s),
        (course.stages[i], course.asks[i]) == next_job(s),
    ensures
        accounts(course, i, s),
{
}

proof fn lemma_later_is_done_so_far(course: SyncCourse, n: int, later: int, s: SettlementView)
    requires
        done_so_far(course, n, s),
        n <= later,
    ensures
        done_so_far(course, later, s),
{
    assert forall|k: int| 0 <= k < s.visited implies step_done(
        course,
        later,
        (#[trigger] s.visits[k])@,
    ) by {
        lemma_step_stays_done(course, n, later, s.visits[k]@);
    }
    assert forall|d: int|
        #![trigger s.deletions[d]]
        0 <= d < s.deleted implies deletion_done(course, later, s, d) by {
        lemma_deletion_stays_done(course, n, later, s, d);
    }
}

/// The visit that comes next is done.
proof fn lemma_visit_is_accounted(course: SyncCourse, i: int, s: SettlementView)
    requires
        is_settlement(s),
        s.visited < s.visits.len(),
        done_so_far(course, i, s),
        step_done(course, i, s.visits[s.visited as int]@),
        (course.stages[i], course.asks[i]) == visit_done(s),
    ensures
        accounts(course, i, s),
{
    let t = SettlementView { visited: s.visited + 1, ..s };
    assert(is_settlement(t));
    lemma_same_deletions(course, i, s, t);
    assert(done_so_far(course, i, t));
    lemma_next_job_is_accounted(course, i, t);
}

proof fn lemma_same_deletions(course: SyncCourse, i: int, s: SettlementView, t: SettlementView)
    requires
        s.deletions == t.deletions,
        s.records == t.records,
    ensures
        forall|d: int| deletion_done(course, i, s, d) == #[trigger] deletion_done(course, i, t, d),
{
}

/// The deletion that comes next is done.
proof fn lemma_deletion_is_accounted(course: SyncCourse, i: int, s: SettlementView)
    requires
        is_settlement(s),
        deletes(s),
        done_so_far(course, i, s),
        deletion_done(course, i, s, s.deleted as int),
        (course.stages[i], course.asks[i]) == next_job(
            SettlementView { deleted: s.deleted + 1, ..s },
        ),
    ensures
        accounts(course, i, s),
{
    let t = SettlementView { deleted: s.deleted + 1, ..s };
    assert(is_settlement(t));
    lemma_same_deletions(course, i, s, t);
    assert(done_so_far(course, i, t));
    lemma_next_job_is_accounted(course, i, t);
}

/// The effect of the visit that comes next goes on as `turn`.
proof fn lemma_visit_turn_is_accounted(
    course: SyncCourse,
    i: int,
    s: SettlementView,
    turn: WorkTurnView,
)
    requires
        is_settlement(s),
        s.visited < s.visits.len(),
        done_so_far(course, i, s),
        (course.stages[i], course.asks[i]) == visit_turn(s, turn),
        match turn {
            WorkTurnView::Complete => step_done(course, i, s.visits[s.visited as int]@),
            WorkTurnView::Asks(work, ask) => course.asks[i] == ask ==> under_way(
                course,
                i,
                s.visits[s.visited as int]@,
                work,
            ),
            WorkTurnView::Fails(_) => true,
        },
    ensures
        accounts(course, i, s),
{
    if turn is Complete {
        lemma_visit_is_accounted(course, i, s);
    }
}

proof fn lemma_check_is_accounted(course: SyncCourse, i: int, s: SettlementView)
    requires
        course.wf(),
        course.turns(i),
        course.stages[i] == StageView::Settling(s, Wait::Path),
        is_settlement(s),
        waits_for(s, Wait::Path),
        done_so_far(course, i, s),
    ensures
        accounts(course, i + 1, s),
{
    lemma_later_is_done_so_far(course, i, i + 1, s);
    if let SyncAnswer::Checked(checked) = course.answers[i] {
        let fault = check_view(checked);
        assert((course.stages[i + 1], course.asks[i + 1]) == path_checked(course.drive, s, fault));
        if s.visited < s.visits.len() {
            let visit = s.visits[s.visited as int]@;
            if let Ok(effect) = effect_of(visit, fault) {
                if !(effect is KeepBoth) {
                    lemma_work_begins(course, i + 1, visit, effect);
                    lemma_visit_turn_is_accounted(
                        course,
                        i + 1,
                        s,
                        work_begun(visit, effect, course.drive),
                    );
                }
            }
        } else {
            lemma_deletion_is_planned(s, s.deleted as int);
        }
    }
}

proof fn lemma_work_is_accounted(course: SyncCourse, i: int, s: SettlementView, work: Work)
    requires
        course.wf(),
        course.turns(i),
        course.stages[i] == StageView::Settling(s, Wait::Work(work)),
        is_settlement(s),
        s.visited < s.visits.len(),
        done_so_far(course, i, s),
        under_way(course, i, s.visits[s.visited as int]@, work),
    ensures
        accounts(course, i + 1, s),
{
    let visit = s.visits[s.visited as int]@;
    lemma_later_is_done_so_far(course, i, i + 1, s);
    lemma_work_goes_on(course, i, visit, work);
    lemma_visit_turn_is_accounted(
        course,
        i + 1,
        s,
        work_continued(visit, course.drive, work, work_answer(course.answers[i])),
    );
}

proof fn lemma_copy_is_beside(path: Seq<Seq<char>>, id: u128)
    requires
        conflict_path_view(path, id) is Some,
    ensures
        is_beside(path, conflict_path_view(path, id)->0),
{
    let copy = conflict_path_view(path, id)->0;
    let name = path.last();
    assert(copy.drop_last() =~= path.drop_last());
    assert(copy.last() == conflict_name(name, id));
    reveal_strlit(")");
    assert(conflict_name(name, id).take(name.len() as int) =~= name);
}

proof fn lemma_comparison_is_accounted(course: SyncCourse, i: int, s: SettlementView)
    requires
        course.wf(),
        course.turns(i),
        course.stages[i] == StageView::Settling(s, Wait::Comparison),
        is_settlement(s),
        s.visited < s.visits.len(),
        done_so_far(course, i, s),
        job_under_way(course, i, s, Wait::Comparison),
    ensures
        accounts(course, i + 1, s),
{
    let visit = s.visits[s.visited as int]@;
    let turn = (course.stages[i + 1], course.asks[i + 1]);
    lemma_later_is_done_so_far(course, i, i + 1, s);
    if let SyncAnswer::Scanned(current) = course.answers[i] {
        let id = choose|id: u128| #[trigger]
            is_random_uuid(id) && turn == compared(s, scan_view(current), id);
        assert(turn == compared(s, scan_view(current), id));
        if conflict_path_view(visit.path, id) is Some {
            lemma_copy_is_beside(visit.path, id);
        }
        if !(turn.0 is Ended) {
            assert(looked_at(course, i, visit.path, visit.local));
            assert(looked_at(course, (i + 1) - 1, visit.path, visit.local));
        }
    }
}

proof fn lemma_last_looks_are_accounted(course: SyncCourse, i: int, s: SettlementView, wait: Wait)
    requires
        course.wf(),
        course.turns(i),
        course.stages[i] == StageView::Settling(s, wait),
        wait == Wait::Local || wait == Wait::Absence || wait == Wait::Remote || wait
            == Wait::Inside,
        is_settlement(s),
        deletes(s),
        done_so_far(course, i, s),
        deletion_under_way(course, i, s, wait),
    ensures
        accounts(course, i + 1, s),
{
    let path = s.deletions[s.deleted as int].path@;
    let print = s.deletions[s.deleted as int]@.expected->0;
    let turn = (course.stages[i + 1], course.asks[i + 1]);
    lemma_later_is_done_so_far(course, i, i + 1, s);
    match (wait, course.answers[i]) {
        (Wait::Local, SyncAnswer::Local(current, occupied)) => {
            assert(turn == local_looked(s, scan_view(current), occupied));
            if scan_view(current) == Ok::<Option<FingerprintView>, LocalErrorView>(Some(print)) {
                assert(local_seen(course, i, path, print, occupied));
                assert(local_seen(course, (i + 1) - 1, path, print, occupied));
                if print.directory && occupied {
                    assert(deletion_done(course, i + 1, s, s.deleted as int));
                    lemma_deletion_is_accounted(course, i + 1, s);
                }
            }
        },
        (Wait::Absence, SyncAnswer::Scanned(current)) => {
            assert(turn == absence_looked(s, scan_view(current)));
            if scan_view(current) == Ok::<Option<FingerprintView>, LocalErrorView>(None) {
                assert(looked_at(course, (i + 1) - 1, path, None));
            }
        },
        (Wait::Remote, SyncAnswer::Remote(latest)) => {
            assert(turn == remote_looked(s, latest@));
            assert(remote_seen(course, i, path, latest@));
            assert(remote_seen(course, (i + 1) - 1, path, latest@));
            assert(looked_at(course, (i + 1) - 2, path, None));
        },
        (Wait::Inside, SyncAnswer::Inside(occupied)) => {
            assert(turn == inside_looked(s, occupied));
            let file = choose|file: FileView| #[trigger]
                remote_seen(course, i - 1, path, file) && file.is_folder && !remote_differs(
                    file,
                    s.records[path],
                );
            assert(inside_seen(course, i, path, occupied));
            assert(inside_seen(course, (i - 1) + 1, path, occupied));
            assert(looked_at(course, (i - 1) - 1, path, None));
            if occupied {
                assert(remote_seen(course, i - 1, path, file));
                assert(remote_deleted(course, i + 1, path, s.records[path]));
                lemma_deletion_is_accounted(course, i + 1, s);
            } else {
                assert(remote_seen(course, i - 1, path, file));
                assert(removal_asked(course, i + 1, s));
            }
        },
        _ => {},
    }
}

proof fn lemma_removals_are_accounted(course: SyncCourse, i: int, s: SettlementView, wait: Wait)
    requires
        course.wf(),
        course.turns(i),
        course.stages[i] == StageView::Settling(s, wait),
        wait == Wait::Removal || wait == Wait::Dropping,
        is_settlement(s),
        deletes(s),
        done_so_far(course, i, s),
        deletion_under_way(course, i, s, wait),
    ensures
        accounts(course, i + 1, s),
{
    let deletion = s.deletions[s.deleted as int];
    let path = deletion.path@;
    let print = deletion@.expected->0;
    lemma_later_is_done_so_far(course, i, i + 1, s);
    if course.answers[i] is Done {
        if wait == Wait::Dropping {
            assert(confirmed(course, i, SyncAskView::Forget(path)));
            if !deletion.remote {
                let occupied = choose|occupied: bool| #[trigger]
                    local_seen(course, (i - 1) - 1, path, print, occupied);
                assert(local_seen(course, i - 2, path, print, occupied));
                assert(confirmed(
                    course,
                    (i - 2) + 1,
                    SyncAskView::RemoveLocal(path, removal_of(print)),
                ));
                assert(confirmed(course, (i - 2) + 2, SyncAskView::Forget(path)));
                assert(local_deleted(course, i + 1, path, print));
            } else {
                let (file, j) = choose|file: FileView, j: int| #[trigger]
                    remote_seen(course, j, path, file) && looked_at(course, j - 1, path, None)
                        && !remote_differs(file, s.records[path]) && if file.is_folder {
                        j == (i - 1) - 2 && inside_seen(course, (i - 1) - 1, path, false)
                    } else {
                        j == (i - 1) - 1
                    };
                assert(remote_seen(course, j, path, file));
                assert(confirmed(
                    course,
                    i - 1,
                    SyncAskView::RemoveRemote(path, Disposal::Soft),
                ));
                if file.is_folder {
                    assert(inside_seen(course, j + 1, path, false));
                    assert(confirmed(course, j + 3, SyncAskView::Forget(path)));
                } else {
                    assert(confirmed(course, j + 2, SyncAskView::Forget(path)));
                }
                assert(remote_deleted(course, i + 1, path, s.records[path]));
            }
            lemma_deletion_is_accounted(course, i + 1, s);
        } else {
            assert(removal_asked(course, (i + 1) - 1, s));
        }
    }
}

proof fn lemma_settling_is_accounted(course: SyncCourse, i: int, s: SettlementView)
    requires
        course.wf(),
        course.turns(i),
        accounts(course, i, s),
        steady(course.stages[i]),
    ensures
        accounts(course, i + 1, s),
{
    match course.stages[i] {
        StageView::Settling(t, wait) => {
            match wait {
                Wait::Path => lemma_check_is_accounted(course, i, t),
                Wait::Work(work) => lemma_work_is_accounted(course, i, t, work),
                Wait::Comparison => lemma_comparison_is_accounted(course, i, t),
                Wait::Removal => lemma_removals_are_accounted(course, i, t, wait),
                Wait::Dropping => lemma_removals_are_accounted(course, i, t, wait),
                _ => lemma_last_looks_are_accounted(course, i, t, wait),
            }
            lemma_same_deletions(course, i + 1, s, t);
        },
        _ => {
            lemma_end_is_final(
                course.drive,
                course.answers[i],
                (course.stages[i + 1], course.asks[i + 1]),
            );
        },
    }
}

/// Whether `s` is what is settled with this knowledge of both trees and of the drive.
spec fn settles_what_is_known(
    s: SettlementView,
    local: Map<Seq<Seq<char>>, FingerprintView>,
    remote: Map<Seq<Seq<char>>, FileView>,
    progressed: Set<Seq<Seq<char>>>,
    state: DriveState,
) -> bool {
    &&& is_settlement(s)
    &&& s.local == local && s.remote == remote && s.progressed == progressed
    &&& s.records == record_views(state.records@)
    &&& s.ignored == state.ignored@.dom() && s.active == state.active@.dom()
}

proof fn lemma_planning_is_accounted(course: SyncCourse, p: int) -> (s: SettlementView)
    requires
        course.wf(),
        course.turns(p),
        course.stages[p] is Planning,
        course.answers[p] is Drive,
    ensures
        course.asks[p + 1] is Failed && course.stages[p + 1] is Ended || settles_what_is_known(
            s,
            course.stages[p]->Planning_local,
            course.stages[p]->Planning_remote,
            course.stages[p]->Planning_progressed,
            course.answers[p]->Drive_0,
        ) && accounts(course, p + 1, s),
{
    let local = course.stages[p]->Planning_local;
    let remote = course.stages[p]->Planning_remote;
    let progressed = course.stages[p]->Planning_progressed;
    let state = course.answers[p]->Drive_0;
    let turn = (course.stages[p + 1], course.asks[p + 1]);
    assert(planned(
        local,
        remote,
        record_views(state.records@),
        state.ignored@.dom(),
        state.active@.dom(),
        progressed,
        turn,
    ));
    let s = choose|s: SettlementView| #[trigger]
        is_settlement(s) && s.local == local && s.remote == remote && s.records == record_views(
            state.records@,
        ) && s.ignored == state.ignored@.dom() && s.active == state.active@.dom() && s.progressed
            == progressed && s.visited == 0 && s.deleted == 0 && turn == next_job(s);
    if !(turn.1 is Failed) {
        assert(is_settlement(s) && turn == next_job(s));
        lemma_next_job_is_accounted(course, p + 1, s);
    }
    s
}

proof fn lemma_course_is_accounted(course: SyncCourse, p: int, i: int, s: SettlementView)
    requires
        course.wf(),
        accounts(course, p, s),
        0 <= p <= i < course.stages.len(),
    ensures
        accounts(course, i, s),
    decreases i,
{
    if i > p {
        lemma_course_is_accounted(course, p, i - 1, s);
        lemma_courses_are_steady(course, i - 1);
        assert(course.turns(i - 1));
        lemma_settling_is_accounted(course, i - 1, s);
    }
}

proof fn lemma_ended_stays_ended(course: SyncCourse, a: int, b: int)
    requires
        course.wf(),
        0 <= a < b < course.stages.len(),
        course.stages[a] is Ended,
    ensures
        course.stages[b] is Ended,
        course.asks[b] is Failed,
    decreases b,
{
    assert(course.turns(b - 1));
    if b - 1 > a {
        lemma_ended_stays_ended(course, a, b - 1);
    }
    lemma_end_is_final(
        course.drive,
        course.answers[b - 1],
        (course.stages[b], course.asks[b]),
    );
}

/// Whether everything that was due at a path was done before turn `n`, where `local`, `remote` and
/// `record` are what was found there when all was known:
/// - directories on both sides are recorded as they are;
/// - an edit on one side alone is transferred to the other;
/// - what appeared on one side alone is transferred or created on the other;
/// - what disappeared on one side, and is on the other as it was last synchronized, is removed there;
/// - of what was edited on both sides, or edited on one and removed on the other, every version is
///   kept;
/// - what disappeared on both sides is forgotten.
pub open spec fn is_carried_out(
    course: SyncCourse,
    n: int,
    path: Seq<Seq<char>>,
    local: Option<FingerprintView>,
    remote: Option<FileView>,
    record: Option<FileMetadataView>,
) -> bool {
    let base = match record {
        Some(record) => baseline_view(record),
        None => None,
    };
    let changed = remote is Some && record is Some && remote_differs(remote->0, record->0);
    match (local, remote) {
        (Some(here), Some(there)) => if here.directory && there.is_folder {
            has_done(course, n, SyncAskView::Keep(metadata_view(there, path, course.drive, local)))
        } else {
            &&& !here.directory && !there.is_folder
            &&& base is None ==> both_kept(course, n, path, local, remote)
            &&& base is Some && base->0 != here && changed ==> both_kept(
                course,
                n,
                path,
                local,
                remote,
            )
            &&& base is Some && base->0 != here && !changed ==> queued(
                course,
                n,
                true,
                path,
                local,
            )
            &&& base is Some && base->0 == here && changed ==> queued(
                course,
                n,
                false,
                path,
                local,
            )
        },
        (Some(here), None) => {
            &&& base is None && here.directory ==> folder_created(course, n, path, local)
            &&& base is None && !here.directory ==> queued(course, n, true, path, local)
            &&& base == Some(here) ==> local_deleted(course, n, path, here)
            &&& base is Some && base->0 != here ==> !here.directory && both_kept(
                course,
                n,
                path,
                local,
                remote,
            )
        },
        (None, Some(there)) => {
            &&& base is None && there.is_folder ==> directory_made(course, n, path, there)
            &&& base is None && !there.is_folder ==> queued(course, n, false, path, None)
            &&& base is Some && !changed ==> remote_deleted(course, n, path, record->0)
            &&& base is Some && changed ==> !there.is_folder && both_kept(
                course,
                n,
                path,
                local,
                remote,
            )
        },
        (None, None) => has_done(course, n, SyncAskView::Forget(path)),
    }
}

/// A reconciliation that finishes has done everything that was due: at every path that stands on
/// either side or is recorded, and that is neither excluded nor internal nor one of a transfer that
/// is under way or was begun on this pass.
pub proof fn lemma_finished_course_is_complete(
    course: SyncCourse,
    p: int,
    n: int,
    path: Seq<Seq<char>>,
)
    requires
        course.wf(),
        course.turns(p),
        course.stages[p] is Planning,
        course.answers[p] is Drive,
        0 <= n < course.asks.len(),
        course.asks[n] is Finished,
        ({
            let state = course.answers[p]->Drive_0;
            &&& course.stages[p]->Planning_local.contains_key(path)
                || course.stages[p]->Planning_remote.contains_key(path) || state.records@.contains_key(
                path,
            )
            &&& !course.stages[p]->Planning_progressed.contains(path)
            &&& !state.ignored@.contains_key(path) && !state.active@.contains_key(path)
            &&& forall|i: int| 0 <= i < path.len() ==> !is_internal(#[trigger] path[i])
        }),
    ensures
        is_carried_out(
            course,
            n,
            path,
            at(course.stages[p]->Planning_local, path),
            at(course.stages[p]->Planning_remote, path),
            at(record_views(course.answers[p]->Drive_0.records@), path),
        ),
{
    let s = lemma_finished_settlement(course, p, n);
    lemma_settled_path_is_carried_out(course, n, s, path);
}

proof fn lemma_finished_settlement(course: SyncCourse, p: int, n: int) -> (s: SettlementView)
    requires
        course.wf(),
        course.turns(p),
        course.stages[p] is Planning,
        course.answers[p] is Drive,
        0 <= n < course.asks.len(),
        course.asks[n] is Finished,
    ensures
        settles_what_is_known(
            s,
            course.stages[p]->Planning_local,
            course.stages[p]->Planning_remote,
            course.stages[p]->Planning_progressed,
            course.answers[p]->Drive_0,
        ),
        all_done(course, n, s),
{
    lemma_finished_is_ended(course, n);
    if n < p {
        lemma_ended_stays_ended(course, n, p);
    }
    let s = lemma_planning_is_accounted(course, p);
    if course.asks[p + 1] is Failed && course.stages[p + 1] is Ended && n > p + 1 {
        lemma_ended_stays_ended(course, p + 1, n);
    }
    lemma_course_is_accounted(course, p + 1, n, s);
    s
}

proof fn lemma_settled_path_is_carried_out(
    course: SyncCourse,
    n: int,
    s: SettlementView,
    path: Seq<Seq<char>>,
)
    requires
        is_settlement(s),
        all_done(course, n, s),
        s.local.contains_key(path) || s.remote.contains_key(path) || s.records.contains_key(path),
        !s.progressed.contains(path),
        !s.ignored.contains(path) && !s.active.contains(path),
        forall|i: int| 0 <= i < path.len() ==> !is_internal(#[trigger] path[i]),
    ensures
        is_carried_out(
            course,
            n,
            path,
            at(s.local, path),
            at(s.remote, path),
            at(s.records, path),
        ),
{
    assert(visit_paths(s.visits).contains(path));
    let k = visit_paths(s.visits).index_of(path);
    let visit = s.visits[k]@;
    assert(s.visits[k].path@ == path);
    assert(visit.path == path);
    assert(step_done(course, n, visit));
    assert(!hidden(path));
    assert(visit.step == chosen_step(at(s.local, path), at(s.remote, path), at(s.records, path)));
    if asks_deletion(visit) {
        assert(is_served(s.visits[k], s.deletions));
        let d = choose|d: int|
            0 <= d < s.deletions.len() && (#[trigger] s.deletions[d])@ == asked_deletion(visit);
        assert(deletion_done(course, n, s, d));
        assert(s.deletions[d]@.path == s.deletions[d].path@);
        assert(s.deletions[d]@.remote == s.deletions[d].remote);
    }
    lemma_step_is_what_is_due(course, n, visit, at(s.records, path));
}

proof fn lemma_step_is_what_is_due(
    course: SyncCourse,
    n: int,
    visit: VisitView,
    record: Option<FileMetadataView>,
)
    requires
        visit.step == chosen_step(visit.local, visit.remote, record),
        step_done(course, n, visit),
        visit.step == Step::DeleteLocal ==> local_deleted(course, n, visit.path, visit.local->0),
        visit.step == Step::DeleteRemote ==> remote_deleted(course, n, visit.path, record->0),
    ensures
        is_carried_out(course, n, visit.path, visit.local, visit.remote, record),
{
}

proof fn lemma_finished_is_ended(course: SyncCourse, n: int)
    requires
        course.wf(),
        0 <= n < course.asks.len(),
        course.asks[n] is Finished,
    ensures
        n > 0,
        course.stages[n] is Ended,
{
    if n > 0 {
        assert(course.turns(n - 1));
        lemma_courses_are_steady(course, n - 1);
        lemma_only_ends_finish(
            course.drive,
            course.stages[n - 1],
            course.answers[n - 1],
            (course.stages[n], course.asks[n]),
        );
    }
}

proof fn lemma_only_ends_finish(drive: u128, before: StageView, answer: SyncAnswer, turn: SyncTurn)
    requires
        steady(before),
        follows(drive, before, answer, turn),
        turn.1 is Finished,
    ensures
        turn.0 is Ended,
{
    match before {
        StageView::Settling(s, wait) => {
            lemma_settled_is_not_finished_yet(drive, s, wait, answer, turn);
        },
        StageView::Planning { .. } => {},
        StageView::Scanning { .. } => {},
        StageView::Ended => {},
        _ => lemma_nothing_is_taken_away_early(drive, before, answer, turn),
    }
}

proof fn lemma_settled_is_not_finished_yet(
    drive: u128,
    s: SettlementView,
    wait: Wait,
    answer: SyncAnswer,
    turn: SyncTurn,
)
    requires
        settles(s, wait),
        follows(drive, StageView::Settling(s, wait), answer, turn),
        turn.1 is Finished,
    ensures
        turn.0 is Ended,
{
    if turn.0 is Settling {
        lemma_settled_is_not_finished(drive, StageView::Settling(s, wait), answer, turn);
    } else {
        lemma_settling_keeps_plan(drive, s, wait, answer, turn);
    }
}

/// Whether an upload is due at a path: a file appeared locally alone, or it was edited locally alone.
pub open spec fn upload_is_due(
    local: Option<FingerprintView>,
    remote: Option<FileView>,
    record: Option<FileMetadataView>,
) -> bool {
    local is Some && !local->0.directory && match (remote, recorded_print(record)) {
        (None, None) => true,
        (Some(there), Some(base)) => !there.is_folder && base != local->0 && !remote_differs(
            there,
            record->0,
        ),
        _ => false,
    }
}

/// Whether a download is due at a path: a file appeared on the server alone, or it was changed there
/// alone.
pub open spec fn download_is_due(
    local: Option<FingerprintView>,
    remote: Option<FileView>,
    record: Option<FileMetadataView>,
) -> bool {
    remote is Some && !remote->0.is_folder && match (local, recorded_print(record)) {
        (None, None) => true,
        (Some(here), Some(base)) => !here.directory && base == here && remote_differs(
            remote->0,
            record->0,
        ),
        _ => false,
    }
}

/// Whether a path is in conflict: a file was edited on both sides, or is seen on both for the first
/// time, or was edited on one side and removed on the other.
pub open spec fn in_conflict(
    local: Option<FingerprintView>,
    remote: Option<FileView>,
    record: Option<FileMetadataView>,
) -> bool {
    match (local, remote) {
        (Some(here), Some(there)) => !here.directory && !there.is_folder && (recorded_print(record)
            is None || recorded_print(record)->0 != here && remote_differs(there, record->0)),
        (Some(here), None) => !here.directory && recorded_print(record) is Some && recorded_print(
            record,
        )->0 != here,
        (None, Some(there)) => !there.is_folder && recorded_print(record) is Some && remote_differs(
            there,
            record->0,
        ),
        (None, None) => false,
    }
}

/// Whether an ask removes the entry at a path.
pub open spec fn removes(ask: SyncAskView, path: Seq<Seq<char>>) -> bool {
    match ask {
        SyncAskView::RemoveLocal(gone, _) => gone == path,
        SyncAskView::RemoveRemote(gone, _) => gone == path,
        _ => false,
    }
}

/// Whether what is asked for is due, where this is what is known of both trees and of the records.
/// What is removed is another matter.
pub open spec fn is_due(
    drive: u128,
    ask: SyncAskView,
    local: Map<Seq<Seq<char>>, FingerprintView>,
    remote: Map<Seq<Seq<char>>, FileView>,
    records: Map<Seq<Seq<char>>, FileMetadataView>,
) -> bool {
    match ask {
        SyncAskView::Queue(transfer) => {
            let path = transfer.path;
            if transfer.upload {
                transfer.expected == at(local, path) && upload_is_due(
                    at(local, path),
                    at(remote, path),
                    at(records, path),
                )
            } else {
                ||| transfer.expected == at(local, path) && download_is_due(
                    at(local, path),
                    at(remote, path),
                    at(records, path),
                )
                ||| transfer.expected is None && remote.contains_key(path) && in_conflict(
                    at(local, path),
                    at(remote, path),
                    at(records, path),
                )
            }
        },
        SyncAskView::CreateRemote(path, _) => local.contains_key(path) && local[path].directory
            && !remote.contains_key(path) && recorded_print(at(records, path)) is None,
        SyncAskView::CreateLocal(path) => remote.contains_key(path) && remote[path].is_folder
            && !local.contains_key(path) && recorded_print(at(records, path)) is None,
        SyncAskView::MoveAside(path, _, _) => local.contains_key(path) && in_conflict(
            at(local, path),
            at(remote, path),
            at(records, path),
        ),
        SyncAskView::Keep(record) => exists|path: Seq<Seq<char>>, file: FileView,
            print: Option<FingerprintView>|
            record == #[trigger] metadata_view(file, path, drive, print) && (local.contains_key(path)
                && local[path].directory || remote.contains_key(path) && remote[path].is_folder) && (
            remote.contains_key(path) ==> file == remote[path]) && (local.contains_key(path)
                ==> print == Some(local[path])),
        _ => true,
    }
}

proof fn lemma_work_is_due(
    course: SyncCourse,
    i: int,
    visit: VisitView,
    work: Work,
    local: Map<Seq<Seq<char>>, FingerprintView>,
    remote: Map<Seq<Seq<char>>, FileView>,
    records: Map<Seq<Seq<char>>, FileMetadataView>,
)
    requires
        under_way(course, i, visit, work),
        visit.local == at(local, visit.path),
        visit.remote == at(remote, visit.path),
        visit.step == chosen_step(visit.local, visit.remote, at(records, visit.path)),
    ensures
        is_due(course.drive, course.asks[i], local, remote, records),
        course.asks[i] matches SyncAskView::Forget(path) ==> path == visit.path && (in_conflict(
            visit.local,
            visit.remote,
            at(records, path),
        ) || visit.local is None && visit.remote is None),
{
    if work == Work::Ending {
        match visit.step {
            Step::CreateRemoteFolder => {
                let file = choose|file: FileView| #[trigger]
                    created_at(course, i - 1, visit.path, file) && course.asks[i]
                        == SyncAskView::Keep(
                        metadata_view(file, visit.path, course.drive, visit.local),
                    );
                assert(course.asks[i]->Keep_0 == metadata_view(
                    file,
                    visit.path,
                    course.drive,
                    visit.local,
                ));
            },
            Step::CreateLocalFolder => {
                let print = choose|print: Option<FingerprintView>| #[trigger]
                    made_at(course, i - 1, visit.path, print) && course.asks[i]
                        == SyncAskView::Keep(
                        metadata_view(visit.remote->0, visit.path, course.drive, print),
                    );
                assert(course.asks[i]->Keep_0 == metadata_view(
                    visit.remote->0,
                    visit.path,
                    course.drive,
                    print,
                ));
            },
            _ => {},
        }
    }
}

/// Once all is known, nothing is transferred, created, recorded, moved aside or forgotten that is not
/// due; and nothing at all is done at a path that is excluded, internal, or one of a transfer that is
/// under way or was begun on this pass.
pub proof fn lemma_only_what_is_due_is_done(course: SyncCourse, p: int, i: int)
    requires
        course.wf(),
        course.turns(p),
        course.stages[p] is Planning,
        course.answers[p] is Drive,
        p < i < course.asks.len(),
    ensures
        ({
            let local = course.stages[p]->Planning_local;
            let remote = course.stages[p]->Planning_remote;
            let state = course.answers[p]->Drive_0;
            let records = record_views(state.records@);
            &&& is_due(course.drive, course.asks[i], local, remote, records)
            &&& course.asks[i] matches SyncAskView::Forget(path) ==> (in_conflict(
                at(local, path),
                at(remote, path),
                at(records, path),
            ) || !local.contains_key(path) && !remote.contains_key(path)
                || removes(course.asks[i - 1], path))
            &&& forall|path: Seq<Seq<char>>| #[trigger]
                touches(course.asks[i], path) ==> !state.ignored@.contains_key(path)
                    && !state.active@.contains_key(path) && !hidden(path)
                    && !course.stages[p]->Planning_progressed.contains(path)
        }),
{
    let s = lemma_planning_is_accounted(course, p);
    if course.asks[p + 1] is Failed && course.stages[p + 1] is Ended {
        if i > p + 1 {
            lemma_ended_stays_ended(course, p + 1, i);
        }
    } else {
        lemma_course_is_accounted(course, p + 1, i, s);
        lemma_courses_are_steady(course, i);
        match course.stages[i] {
            StageView::Settling(t, wait) => lemma_job_is_due(course, i, t, wait),
            _ => {
                assert(course.turns(i - 1));
                lemma_courses_are_steady(course, i - 1);
                lemma_ended_asks_nothing(
                    course.drive,
                    course.stages[i - 1],
                    course.answers[i - 1],
                    (course.stages[i], course.asks[i]),
                );
            },
        }
    }
}

pub(crate) proof fn lemma_ended_asks_nothing(
    drive: u128,
    before: StageView,
    answer: SyncAnswer,
    turn: SyncTurn,
)
    requires
        steady(before),
        follows(drive, before, answer, turn),
        turn.0 is Ended,
    ensures
        turn.1 is Finished || turn.1 is Failed,
{
    match before {
        StageView::Settling(s, wait) => lemma_settling_keeps_plan(drive, s, wait, answer, turn),
        StageView::Transferring { scan, dir, visits, at, work, progressed } => {
            let visit = visits[at as int];
            let grown = match answer {
                SyncAnswer::Created(file) => if work == Work::Creating {
                    with_created(scan, visit.path@, file@)
                } else {
                    scan
                },
                _ => scan,
            };
            lemma_next_transfer_ends_in_failure(
                drive,
                grown,
                dir,
                visits,
                at + 1,
                progress(progressed, visit),
            );
        },
        StageView::Reading { scan, dir, children, progressed } => {
            assert forall|visits: Seq<Visit>|
                {
                    let turn = #[trigger] next_transfer(drive, scan, dir, visits, 0, progressed);
                    turn.0 is Ended ==> turn.1 is Failed
                } by {
                lemma_next_transfer_ends_in_failure(drive, scan, dir, visits, 0, progressed);
            }
        },
        _ => {},
    }
}

proof fn lemma_next_transfer_ends_in_failure(
    drive: u128,
    scan: RemoteScanView,
    dir: Seq<Seq<char>>,
    visits: Seq<Visit>,
    at: nat,
    progressed: Set<Seq<Seq<char>>>,
)
    ensures
        ({
            let turn = next_transfer(drive, scan, dir, visits, at, progressed);
            turn.0 is Ended ==> turn.1 is Failed
        }),
    decreases visits.len() - at,
{
    if at < visits.len() {
        lemma_next_transfer_ends_in_failure(
            drive,
            scan,
            dir,
            visits,
            at + 1,
            progress(progressed, visits[at as int]),
        );
    }
}

proof fn lemma_job_is_due(course: SyncCourse, i: int, t: SettlementView, wait: Wait)
    requires
        settles(t, wait),
        job_under_way(course, i, t, wait),
    ensures
        is_due(course.drive, course.asks[i], t.local, t.remote, t.records),
        course.asks[i] matches SyncAskView::Forget(path) ==> (in_conflict(
            at(t.local, path),
            at(t.remote, path),
            at(t.records, path),
        ) || !t.local.contains_key(path) && !t.remote.contains_key(path)
            || removes(course.asks[i - 1], path)),
        forall|path: Seq<Seq<char>>| #[trigger]
            touches(course.asks[i], path) ==> !t.ignored.contains(path) && !t.active.contains(path)
                && !hidden(path) && !t.progressed.contains(path),
{
    match wait {
        Wait::Path => {},
        Wait::Work(work) => {
            let k = t.visited as int;
            let visit = t.visits[k]@;
            assert(visit.path == t.visits[k].path@);
            assert(visit_paths(t.visits)[k] == visit.path);
            assert(visit_paths(t.visits).contains(visit.path));
            assert(visit.step != Step::Skip);
            lemma_work_is_due(course, i, visit, work, t.local, t.remote, t.records);
        },
        Wait::Comparison => {},
        _ => lemma_deletion_is_planned(t, t.deleted as int),
    }
}

/// Once all is known, nothing is listed or read any more.
pub(crate) proof fn lemma_settled_asks(course: SyncCourse, i: int)
    requires
        course.wf(),
        course.turns(i),
        course.stages[i] is Settling || course.stages[i] is Planning,
        steady(course.stages[i]),
    ensures
        !(course.asks[i + 1] is ListRemote),
        !(course.asks[i + 1] is ScanLocal),
        !(course.asks[i + 1] is ReadDirectory),
{
    match course.stages[i] {
        StageView::Settling(s, wait) => {
            if wait == Wait::Comparison {
                if let SyncAnswer::Scanned(current) = course.answers[i] {
                    let id = choose|id: u128| #[trigger]
                        is_random_uuid(id) && (course.stages[i + 1], course.asks[i + 1])
                            == compared(s, scan_view(current), id);
                    assert((course.stages[i + 1], course.asks[i + 1]) == compared(
                        s,
                        scan_view(current),
                        id,
                    ));
                }
            }
        },
        _ => {},
    }
}

/// What a settlement waits for is what it asked for last.
pub(crate) proof fn lemma_settling_asks(course: SyncCourse, i: int)
    requires
        course.wf(),
        0 <= i < course.stages.len(),
        course.stages[i] is Settling,
    ensures
        ({
            let t = course.stages[i]->Settling_0;
            let wait = course.stages[i]->Settling_1;
            let ask = course.asks[i];
            let path = t.visits[t.visited as int].path@;
            match wait {
                Wait::Path => ask is CheckPath,
                Wait::Work(work) => under_way(course, i, t.visits[t.visited as int]@, work),
                Wait::Comparison => ask is Look,
                Wait::Local => ask is LookLocal && t.deletions[t.deleted as int]@.expected is Some,
                Wait::Absence => ask is Look,
                Wait::Remote => ask is LookRemote,
                Wait::Inside => ask is LookInside,
                Wait::Removal => ask is RemoveLocal || ask is RemoveRemote,
                Wait::Dropping => ask is Forget,
            }
        }),
{
    lemma_settling_is_accounted_for(course, i);
}

proof fn lemma_settling_is_accounted_for(course: SyncCourse, i: int)
    requires
        course.wf(),
        0 <= i < course.stages.len(),
        course.stages[i] is Settling,
    ensures
        accounts(course, i, course.stages[i]->Settling_0),
    decreases i,
{
    assert(i > 0);
    assert(course.turns(i - 1));
    lemma_phases_come_in_order(course, i - 1);
    lemma_courses_are_steady(course, i - 1);
    if course.stages[i - 1] is Planning {
        if course.answers[i - 1] is Drive {
            let s = lemma_planning_is_accounted(course, i - 1);
        }
    } else {
        lemma_settling_is_accounted_for(course, i - 1);
        lemma_settling_is_accounted(course, i - 1, course.stages[i - 1]->Settling_0);
    }
}

} // verus!
