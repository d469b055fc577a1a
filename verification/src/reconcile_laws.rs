//! What holds of every course of a reconciliation, whatever the answers are.
use crate::aliases::{alias, no_aliases};
use crate::deletions::{asked_deletion, asks_deletion, in_deletion_order, is_asked, Removal};
use crate::local_file::{FingerprintView, LocalErrorView, scan_view, ScanView};
use crate::local_scan::{after_local_entries, all_found, first_refused};
use crate::outside::is_random_uuid;
use crate::path::check_view;
use crate::plan::{at, is_directory_plan, record_views, visit_paths};
use crate::reconcile::{
    absence_looked, compared, deletes, follows, inside_looked, is_settlement, local_looked, next_job,
    next_transfer, progress, remote_looked, SettlementView, StageView, sync_begun,
    SyncTurn, visit_turn, Wait, waits_for, with_created,
};
use crate::records::{Disposal, FileMetadataView, FileView, Taken};
use crate::remote_scan::RemoteScanView;
use crate::steps::{
    hidden, is_stop, is_transfer, lemma_type_conflicts_stop, recorded_print, Step, types_differ,
    Visit,
};
use crate::sync::remote_differs;
use crate::sync_error::SyncErrorView;
use crate::work::{SyncAnswer, SyncAskView, Work, work_answer, work_continued, WorkTurnView};
use vstd::prelude::*;

verus! {

/// Whether an ask takes something away: an entry, a name or a record.
pub open spec fn takes_away(ask: SyncAskView) -> bool {
    match ask {
        SyncAskView::Forget(_) => true,
        SyncAskView::MoveAside(_, _, _) => true,
        SyncAskView::RemoveLocal(_, _) => true,
        SyncAskView::RemoveRemote(_, _) => true,
        _ => false,
    }
}

/// Whether an ask changes what stands at a path on either side, or begins a transfer of it.
pub open spec fn touches(ask: SyncAskView, path: Seq<Seq<char>>) -> bool {
    match ask {
        SyncAskView::CreateRemote(p, _) => p == path,
        SyncAskView::CreateLocal(p) => p == path,
        SyncAskView::Queue(transfer) => transfer.path == path,
        SyncAskView::MoveAside(p, _, _) => p == path,
        SyncAskView::RemoveLocal(p, _) => p == path,
        SyncAskView::RemoveRemote(p, _) => p == path,
        _ => false,
    }
}

/// Whether visits only transfer and create, and none where a file stands on one side and a
/// directory on the other.
pub open spec fn only_transfers(visits: Seq<Visit>) -> bool {
    forall|i: int|
        0 <= i < visits.len() ==> {
            let visit = (#[trigger] visits[i])@;
            &&& visit.step == Step::Skip || is_transfer(visit.step)
            &&& types_differ(visit.local, visit.remote) ==> visit.step == Step::Skip
                || visit.step == Step::TypeConflict
        }
}

/// Whether a work is one of a transfer or of a creation.
pub open spec fn is_transfer_work(work: Work) -> bool {
    work == Work::Creating || work == Work::Making || work == Work::Ending
}

/// Whether no visit that is done, or that takes effect, was one at which a reconciliation stops.
pub open spec fn unstopped(s: SettlementView, wait: Wait) -> bool {
    &&& forall|k: int| 0 <= k < s.visited ==> !is_stop((#[trigger] s.visits[k])@.step)
    &&& wait is Work || wait is Comparison ==> !is_stop(s.visits[s.visited as int]@.step)
}

/// What holds of visits and deletions under way: they keep to their plan.
pub open spec fn settles(s: SettlementView, wait: Wait) -> bool {
    is_settlement(s) && waits_for(s, wait) && unstopped(s, wait)
}

/// What holds of a reconciliation under way: as long as the trees are not known, it only transfers
/// and creates; after that it keeps to its plan.
pub open spec fn steady(stage: StageView) -> bool {
    match stage {
        StageView::Transferring { scan, dir, visits, at, work, progressed } => only_transfers(visits)
            && at < visits.len() && is_transfer_work(work) && is_transfer(visits[at as int]@.step)
            && visits[at as int]@.step != Step::TypeConflict,
        StageView::Planning { local, remote, progressed } => no_aliases(
            local.dom().union(remote.dom()),
        ),
        StageView::Settling(s, wait) => settles(s, wait) && free_of_aliases(s),
        _ => true,
    }
}

/// Whether no two different paths in the trees of a settlement are aliases.
pub open spec fn free_of_aliases(s: SettlementView) -> bool {
    no_aliases(s.local.dom().union(s.remote.dom()))
}

/// Whether a stage is one in which the trees are not known yet.
pub open spec fn is_early(stage: StageView) -> bool {
    stage is Listing || stage is Reading || stage is Transferring
}

proof fn lemma_directory_plan_only_transfers(
    visits: Seq<Visit>,
    local: Map<Seq<Seq<char>>, FingerprintView>,
    remote: Map<Seq<Seq<char>>, FileView>,
    records: Map<Seq<Seq<char>>, FileMetadataView>,
    active: Set<Seq<Seq<char>>>,
)
    requires
        is_directory_plan(visits, local, remote, records, active),
    ensures
        only_transfers(visits),
{
    assert forall|i: int| 0 <= i < visits.len() implies {
        let visit = (#[trigger] visits[i])@;
        &&& visit.step == Step::Skip || is_transfer(visit.step)
        &&& types_differ(visit.local, visit.remote) ==> visit.step == Step::Skip || visit.step
            == Step::TypeConflict
    } by {
        let visit = visits[i]@;
        if types_differ(visit.local, visit.remote) {
            lemma_type_conflicts_stop(
                visit.local->0,
                visit.remote->0,
                at(records, visits[i].path@),
            );
        }
    }
}

proof fn lemma_next_transfer_is_steady(
    drive: u128,
    scan: RemoteScanView,
    dir: Seq<Seq<char>>,
    visits: Seq<Visit>,
    at: nat,
    progressed: Set<Seq<Seq<char>>>,
)
    requires
        only_transfers(visits),
    ensures
        ({
            let turn = next_transfer(drive, scan, dir, visits, at, progressed);
            &&& steady(turn.0)
            &&& !takes_away(turn.1)
            &&& !(turn.0 is Planning) && !(turn.0 is Settling)
            &&& !(turn.1 is Finished)
        }),
    decreases visits.len() - at,
{
    if at < visits.len() {
        let visit = visits[at as int];
        assert(visit@.step == visit.step);
        lemma_next_transfer_is_steady(
            drive,
            scan,
            dir,
            visits,
            at + 1,
            progress(progressed, visit),
        );
    }
}

/// Before both trees are known, nothing is deleted, forgotten or moved aside, and nothing is
/// planned: a failed or partial listing leaves everything where it is.
pub proof fn lemma_nothing_is_taken_away_early(
    drive: u128,
    before: StageView,
    answer: SyncAnswer,
    turn: SyncTurn,
)
    requires
        steady(before),
        follows(drive, before, answer, turn),
        is_early(before),
    ensures
        steady(turn.0),
        !takes_away(turn.1),
        !(turn.0 is Planning) && !(turn.0 is Settling),
        !(turn.1 is Finished),
{
    match (before, answer) {
        (
            StageView::Reading { scan, dir, children, progressed },
            SyncAnswer::Directory(state),
        ) => {
            assert(only_transfers(Seq::<Visit>::empty()));
            lemma_next_transfer_is_steady(drive, scan, dir, Seq::empty(), 0, progressed);
            let local = all_found(Map::empty(), dir, state.entries@);
            let records = record_views(state.records@);
            let active = state.active@.dom();
            if exists|visits: Seq<Visit>| #[trigger]
                is_directory_plan(visits, local, children, records, active) && turn
                    == next_transfer(drive, scan, dir, visits, 0, progressed) {
                let visits = choose|visits: Seq<Visit>| #[trigger]
                    is_directory_plan(visits, local, children, records, active) && turn
                        == next_transfer(drive, scan, dir, visits, 0, progressed);
                lemma_directory_plan_only_transfers(visits, local, children, records, active);
                lemma_next_transfer_is_steady(drive, scan, dir, visits, 0, progressed);
            }
        },
        (StageView::Transferring { scan, dir, visits, at, work, progressed }, answer) => {
            let visit = visits[at as int];
            let grown = match answer {
                SyncAnswer::Created(file) => if work == Work::Creating {
                    with_created(scan, visit.path@, file@)
                } else {
                    scan
                },
                _ => scan,
            };
            lemma_next_transfer_is_steady(
                drive,
                grown,
                dir,
                visits,
                at + 1,
                progress(progressed, visit),
            );
        },
        _ => {},
    }
}

/// The trees, the records and the plan of a settlement stay as they are.
pub open spec fn same_plan(a: SettlementView, b: SettlementView) -> bool {
    &&& a.local == b.local && a.remote == b.remote && a.records == b.records
    &&& a.ignored == b.ignored && a.active == b.active && a.progressed == b.progressed
    &&& a.visits == b.visits && a.deletions == b.deletions
}

/// Whether a turn keeps to the plan of `s`: it goes on with it, ends as a failure, or finishes it
/// with no stop on the way.
pub open spec fn keeps_plan(s: SettlementView, turn: SyncTurn) -> bool {
    match turn.0 {
        StageView::Settling(t, wait) => settles(t, wait) && same_plan(s, t),
        StageView::Ended => turn.1 is Failed || turn.1 is Finished && forall|k: int|
            0 <= k < s.visits.len() ==> !is_stop((#[trigger] s.visits[k])@.step),
        _ => false,
    }
}

proof fn lemma_next_job_keeps_plan(s: SettlementView)
    requires
        is_settlement(s),
        unstopped(s, Wait::Path),
    ensures
        keeps_plan(s, next_job(s)),
{
}

proof fn lemma_done_keeps_plan(s: SettlementView)
    requires
        is_settlement(s),
        unstopped(s, Wait::Path),
    ensures
        s.visited < s.visits.len() && !is_stop(s.visits[s.visited as int]@.step) ==> keeps_plan(
            s,
            next_job(SettlementView { visited: s.visited + 1, ..s }),
        ),
        deletes(s) ==> keeps_plan(s, next_job(SettlementView { deleted: s.deleted + 1, ..s })),
{
    if s.visited < s.visits.len() && !is_stop(s.visits[s.visited as int]@.step) {
        lemma_next_job_keeps_plan(SettlementView { visited: s.visited + 1, ..s });
    }
    if deletes(s) {
        lemma_next_job_keeps_plan(SettlementView { deleted: s.deleted + 1, ..s });
    }
}

proof fn lemma_visit_keeps_plan(s: SettlementView, turn: WorkTurnView)
    requires
        settles(s, Wait::Work(Work::Ending)),
    ensures
        keeps_plan(s, visit_turn(s, turn)),
{
    lemma_done_keeps_plan(s);
}

proof fn lemma_check_keeps_plan(drive: u128, s: SettlementView, answer: SyncAnswer, turn: SyncTurn)
    requires
        settles(s, Wait::Path),
        follows(drive, StageView::Settling(s, Wait::Path), answer, turn),
    ensures
        keeps_plan(s, turn),
{
    if s.visited < s.visits.len() && !is_stop(s.visits[s.visited as int]@.step) {
        assert forall|work: WorkTurnView| keeps_plan(s, #[trigger] visit_turn(s, work)) by {
            lemma_visit_keeps_plan(s, work);
        }
    }
}

proof fn lemma_work_keeps_plan(
    drive: u128,
    s: SettlementView,
    work: Work,
    answer: SyncAnswer,
    turn: SyncTurn,
)
    requires
        settles(s, Wait::Work(work)),
        follows(drive, StageView::Settling(s, Wait::Work(work)), answer, turn),
    ensures
        keeps_plan(s, turn),
{
    let visit = s.visits[s.visited as int]@;
    lemma_visit_keeps_plan(s, work_continued(visit, drive, work, work_answer(answer)));
}

proof fn lemma_comparison_turn(drive: u128, s: SettlementView, answer: SyncAnswer, turn: SyncTurn)
    requires
        follows(drive, StageView::Settling(s, Wait::Comparison), answer, turn),
    ensures
        turn.1 is Failed && turn.0 is Ended || exists|current: ScanView, id: u128|
            turn == #[trigger] compared(s, current, id),
{
    if let SyncAnswer::Scanned(current) = answer {
        let id = choose|id: u128| #[trigger]
            is_random_uuid(id) && turn == compared(s, scan_view(current), id);
        assert(turn == compared(s, scan_view(current), id));
    }
}

proof fn lemma_comparison_keeps_plan(
    drive: u128,
    s: SettlementView,
    answer: SyncAnswer,
    turn: SyncTurn,
)
    requires
        settles(s, Wait::Comparison),
        follows(drive, StageView::Settling(s, Wait::Comparison), answer, turn),
    ensures
        keeps_plan(s, turn),
{
    lemma_comparison_turn(drive, s, answer, turn);
}

proof fn lemma_deletion_keeps_plan(
    drive: u128,
    s: SettlementView,
    wait: Wait,
    answer: SyncAnswer,
    turn: SyncTurn,
)
    requires
        settles(s, wait),
        wait == Wait::Local || wait == Wait::Absence || wait == Wait::Remote || wait
            == Wait::Inside || wait == Wait::Removal || wait == Wait::Dropping,
        follows(drive, StageView::Settling(s, wait), answer, turn),
    ensures
        keeps_plan(s, turn),
{
    lemma_done_keeps_plan(s);
}

pub(crate) proof fn lemma_settling_keeps_plan(
    drive: u128,
    s: SettlementView,
    wait: Wait,
    answer: SyncAnswer,
    turn: SyncTurn,
)
    requires
        settles(s, wait),
        follows(drive, StageView::Settling(s, wait), answer, turn),
    ensures
        keeps_plan(s, turn),
{
    match wait {
        Wait::Path => lemma_check_keeps_plan(drive, s, answer, turn),
        Wait::Work(work) => lemma_work_keeps_plan(drive, s, work, answer, turn),
        Wait::Comparison => lemma_comparison_keeps_plan(drive, s, answer, turn),
        _ => lemma_deletion_keeps_plan(drive, s, wait, answer, turn),
    }
}

pub(crate) proof fn lemma_planning_is_steady(
    drive: u128,
    before: StageView,
    answer: SyncAnswer,
    turn: SyncTurn,
)
    requires
        before is Planning,
        steady(before),
        follows(drive, before, answer, turn),
    ensures
        steady(turn.0),
        !is_early(turn.0),
        !(turn.0 is Scanning),
        turn.0 is Settling ==> !(turn.1 is Finished),
{
    if let SyncAnswer::Drive(state) = answer {
        if !(turn.1 is Failed) {
            let local = before->Planning_local;
            let remote = before->Planning_remote;
            let s = choose|s: SettlementView| #[trigger]
                is_settlement(s) && s.local == local && s.remote == remote && s.visited == 0
                    && s.deleted == 0 && turn == next_job(s);
            lemma_next_job_keeps_plan(s);
        }
    }
}

/// A steady reconciliation stays steady, whatever is answered.
pub proof fn lemma_stays_steady(
    drive: u128,
    before: StageView,
    answer: SyncAnswer,
    turn: SyncTurn,
)
    requires
        steady(before),
        follows(drive, before, answer, turn),
    ensures
        steady(turn.0),
{
    match before {
        StageView::Settling(s, wait) => lemma_settling_keeps_plan(drive, s, wait, answer, turn),
        StageView::Planning { .. } => lemma_planning_is_steady(drive, before, answer, turn),
        StageView::Scanning { .. } => {},
        StageView::Ended => {},
        _ => lemma_nothing_is_taken_away_early(drive, before, answer, turn),
    }
}

/// A course of a reconciliation from its beginning on: the stages it was in, what was asked for in
/// each of them, and what was answered.
pub struct SyncCourse {
    pub drive: u128,
    pub root: Seq<Seq<char>>,
    pub stages: Seq<StageView>,
    pub asks: Seq<SyncAskView>,
    pub answers: Seq<SyncAnswer>,
}

impl SyncCourse {
    /// Whether `i` is one of its turns.
    pub open spec fn turns(self, i: int) -> bool {
        0 <= i < self.answers.len()
    }

    /// The course begins as every reconciliation of its root does, and goes on as it may.
    pub open spec fn wf(self) -> bool {
        &&& self.stages.len() == self.answers.len() + 1
        &&& self.asks.len() == self.answers.len() + 1
        &&& (self.stages[0], self.asks[0]) == sync_begun(self.root)
        &&& forall|i: int| #[trigger]
            self.turns(i) ==> follows(
                self.drive,
                self.stages[i],
                self.answers[i],
                (self.stages[i + 1], self.asks[i + 1]),
            )
    }
}

/// Every course is steady at each of its stages.
pub proof fn lemma_courses_are_steady(course: SyncCourse, i: int)
    requires
        course.wf(),
        0 <= i < course.stages.len(),
    ensures
        steady(course.stages[i]),
    decreases i,
{
    if i > 0 {
        lemma_courses_are_steady(course, i - 1);
        assert(course.turns(i - 1));
        lemma_stays_steady(
            course.drive,
            course.stages[i - 1],
            course.answers[i - 1],
            (course.stages[i], course.asks[i]),
        );
    }
}

/// The trees are known before anything is planned: the local tree is read only when no remote
/// folder is left to list, the drive is inspected only when no local directory is left to read and
/// no entry was refused, and visits and deletions come only after that.
pub proof fn lemma_phases_come_in_order(course: SyncCourse, i: int)
    requires
        course.wf(),
        course.turns(i),
    ensures
        ({
            let before = course.stages[i];
            let after = course.stages[i + 1];
            &&& after is Settling ==> before is Planning || before is Settling
            &&& after is Planning ==> before is Scanning && (course.answers[i] matches SyncAnswer::Entries(
                entries,
            ) && first_refused(entries@) is None && after_local_entries(
                before->Scanning_local,
                entries@,
            ).waiting.len() == 0)
            &&& after is Scanning && !(before is Scanning) ==> before is Reading
                || before is Transferring
            &&& is_early(before) ==> !takes_away(course.asks[i + 1])
        }),
{
    let before = course.stages[i];
    let turn = (course.stages[i + 1], course.asks[i + 1]);
    lemma_courses_are_steady(course, i);
    match before {
        StageView::Settling(s, wait) => lemma_settling_keeps_plan(
            course.drive,
            s,
            wait,
            course.answers[i],
            turn,
        ),
        StageView::Planning { .. } => lemma_planning_is_steady(
            course.drive,
            before,
            course.answers[i],
            turn,
        ),
        StageView::Scanning { .. } => {},
        StageView::Ended => {},
        _ => lemma_nothing_is_taken_away_early(course.drive, before, course.answers[i], turn),
    }
}

/// What is known of the path of a deletion of the plan: it is recorded and synchronized, is gone on
/// one side, and is on the other as it was last synchronized.
pub proof fn lemma_deletion_is_planned(s: SettlementView, i: int)
    requires
        is_settlement(s),
        0 <= i < s.deletions.len(),
    ensures
        ({
            let path = s.deletions[i].path@;
            &&& is_plain_target(s, path)
            &&& !s.deletions[i].remote ==> s.local.contains_key(path) && !s.remote.contains_key(path)
                && recorded_print(at(s.records, path)) == Some(s.local[path])
                && s.deletions[i]@.expected == Some(s.local[path])
            &&& s.deletions[i].remote ==> s.remote.contains_key(path) && !s.local.contains_key(path)
                && recorded_print(at(s.records, path)) is Some && !remote_differs(
                s.remote[path],
                s.records[path],
            )
        }),
{
    assert(is_asked(s.deletions[i], s.visits));
    let k = choose|k: int|
        0 <= k < s.visits.len() && asks_deletion((#[trigger] s.visits[k])@) && s.deletions[i]@
            == asked_deletion(s.visits[k]@);
    let path = s.visits[k].path@;
    assert(s.visits[k]@.path == path);
    assert(s.deletions[i]@.path == path);
    assert(visit_paths(s.visits)[k] == path);
    assert(visit_paths(s.visits).contains(path));
}

/// Whether a path is recorded, synchronized at all, and not one of a transfer under way or begun on
/// this pass.
pub open spec fn is_plain_target(s: SettlementView, path: Seq<Seq<char>>) -> bool {
    &&& s.records.contains_key(path)
    &&& !s.ignored.contains(path) && !hidden(path)
    &&& !s.active.contains(path) && !s.progressed.contains(path)
}

/// Whether the deletions of a settlement have come to the one of `path`: every visit succeeded, and
/// whatever lies deeper was dealt with before.
pub open spec fn comes_to(s: SettlementView, path: Seq<Seq<char>>) -> bool {
    &&& s.visited == s.visits.len()
    &&& s.deleted < s.deletions.len() && s.deletions[s.deleted as int].path@ == path
    &&& in_deletion_order(s.deletions)
}

#[verifier::rlimit(40)]
proof fn lemma_removals_come_from_looks(
    drive: u128,
    before: StageView,
    answer: SyncAnswer,
    turn: SyncTurn,
)
    requires
        steady(before),
        follows(drive, before, answer, turn),
    ensures
        turn.1 is RemoveLocal ==> (before matches StageView::Settling(s, Wait::Local)
            && answer matches SyncAnswer::Local(current, occupied) && turn == local_looked(
            s,
            scan_view(current),
            occupied,
        )),
        turn.1 is RemoveRemote ==> (before matches StageView::Settling(s, Wait::Remote)
            && answer matches SyncAnswer::Remote(latest) && turn == remote_looked(s, latest@)) || (
        before matches StageView::Settling(s, Wait::Inside) && answer matches SyncAnswer::Inside(
            occupied,
        ) && turn == inside_looked(s, occupied)),
        turn.0 matches StageView::Settling(t, Wait::Inside) ==> (before == StageView::Settling(
            t,
            Wait::Remote,
        ) && (answer matches SyncAnswer::Remote(latest) && turn == remote_looked(t, latest@))),
        turn.0 matches StageView::Settling(t, Wait::Remote) ==> (before == StageView::Settling(
            t,
            Wait::Absence,
        ) && (answer matches SyncAnswer::Scanned(current) && turn == absence_looked(
            t,
            scan_view(current),
        ))),
{
    match before {
        StageView::Settling(s, Wait::Comparison) => lemma_comparison_turn(drive, s, answer, turn),
        StageView::Planning { .. } => {
            if !(turn.1 is Failed) && answer is Drive {
                let s = choose|s: SettlementView| #[trigger]
                    is_settlement(s) && s.visited == 0 && s.deleted == 0 && turn == next_job(s);
                assert(turn == next_job(s));
            }
        },
        StageView::Settling(_, _) => {},
        StageView::Scanning { .. } => {},
        StageView::Ended => {},
        _ => lemma_nothing_is_taken_away_early(drive, before, answer, turn),
    }
}

/// Once everything is planned, no two paths that were scanned are aliases.
pub proof fn lemma_aliases_are_never_settled(course: SyncCourse, i: int)
    requires
        course.wf(),
        0 <= i < course.stages.len(),
        course.stages[i] is Settling,
    ensures
        free_of_aliases(course.stages[i]->Settling_0),
{
    lemma_courses_are_steady(course, i);
}

/// Whether the answer completes a directory, or both trees, in which two different paths are
/// aliases.
pub open spec fn completes_aliases(before: StageView, answer: SyncAnswer) -> bool {
    match (before, answer) {
        (
            StageView::Reading { scan, dir, children, progressed },
            SyncAnswer::Directory(state),
        ) => check_view(state.checked) is None && state.present && first_refused(state.entries@)
            is None && !no_aliases(
            all_found(Map::empty(), dir, state.entries@).dom().union(children.dom()),
        ),
        (StageView::Scanning { local, remote, progressed }, SyncAnswer::Entries(entries)) => {
            let read = after_local_entries(local, entries@);
            first_refused(entries@) is None && read.waiting.len() == 0 && !no_aliases(
                read.found.dom().union(remote.dom()),
            )
        },
        _ => false,
    }
}

/// Where two different paths are aliases, in one directory or anywhere in both trees, the
/// reconciliation pauses: it ends as a failure that names two such paths, and nothing is deleted,
/// forgotten or moved aside on it, before or after.
pub proof fn lemma_aliases_pause(course: SyncCourse, i: int, j: int)
    requires
        course.wf(),
        course.turns(i),
        completes_aliases(course.stages[i], course.answers[i]),
        0 <= j < course.stages.len(),
    ensures
        course.asks[i + 1] matches SyncAskView::Failed(SyncErrorView::Collision(first, second))
            && first != second && alias(first) == alias(second),
        j > i ==> course.stages[j] is Ended && course.asks[j] is Failed,
        !takes_away(course.asks[j]),
    decreases j,
{
    if j <= i {
        lemma_nothing_is_taken_away_before_planning(course, i, j);
    } else if j > i + 1 {
        lemma_aliases_pause(course, i, j - 1);
        assert(course.turns(j - 1));
        lemma_end_is_final(
            course.drive,
            course.answers[j - 1],
            (course.stages[j], course.asks[j]),
        );
    }
    lemma_aliases_end(course.drive, course.stages[i], course.answers[i], (
        course.stages[i + 1],
        course.asks[i + 1],
    ));
}

proof fn lemma_aliases_end(drive: u128, before: StageView, answer: SyncAnswer, turn: SyncTurn)
    requires
        follows(drive, before, answer, turn),
        completes_aliases(before, answer),
    ensures
        turn.0 is Ended,
        turn.1 matches SyncAskView::Failed(SyncErrorView::Collision(first, second)) && first
            != second && alias(first) == alias(second),
{
}

proof fn lemma_nothing_is_taken_away_before_planning(course: SyncCourse, i: int, j: int)
    requires
        course.wf(),
        0 <= j <= i < course.stages.len(),
        is_early(course.stages[i]) || course.stages[i] is Scanning,
    ensures
        !takes_away(course.asks[j]),
    decreases i,
{
    if i > 0 {
        let before = course.stages[i - 1];
        let turn = (course.stages[i], course.asks[i]);
        assert(course.turns(i - 1));
        lemma_courses_are_steady(course, i - 1);
        match before {
            StageView::Settling(s, wait) => lemma_settling_keeps_plan(
                course.drive,
                s,
                wait,
                course.answers[i - 1],
                turn,
            ),
            StageView::Planning { .. } => lemma_planning_is_steady(
                course.drive,
                before,
                course.answers[i - 1],
                turn,
            ),
            StageView::Scanning { .. } => {},
            StageView::Ended => {},
            _ => lemma_nothing_is_taken_away_early(
                course.drive,
                before,
                course.answers[i - 1],
                turn,
            ),
        }
        if j < i {
            lemma_nothing_is_taken_away_before_planning(course, i - 1, j);
        }
    }
}

/// A local entry is removed only after every visit succeeded, only where it is gone from the
/// complete remote tree, and only while it is what the last synchronization left and what the scan
/// found; a directory only while it is empty; the deepest entry first; and none where a transfer is
/// under way or was begun on this pass.
pub proof fn lemma_local_removals_are_safe(
    course: SyncCourse,
    i: int,
    path: Seq<Seq<char>>,
    removal: Removal,
)
    requires
        course.wf(),
        course.turns(i),
        course.asks[i + 1] == SyncAskView::RemoveLocal(path, removal),
    ensures
        course.stages[i] matches StageView::Settling(s, Wait::Local) && {
            &&& comes_to(s, path)
            &&& is_plain_target(s, path)
            &&& s.local.contains_key(path) && !s.remote.contains_key(path)
            &&& recorded_print(at(s.records, path)) == Some(s.local[path])
            &&& course.answers[i] matches SyncAnswer::Local(current, occupied) && scan_view(current)
                == Ok::<Option<FingerprintView>, LocalErrorView>(Some(s.local[path])) && (removal
                == Removal::Directory ==> !occupied) && (s.local[path].directory ==> removal
                == Removal::Directory)
        },
{
    lemma_courses_are_steady(course, i);
    lemma_removals_come_from_looks(
        course.drive,
        course.stages[i],
        course.answers[i],
        (course.stages[i + 1], course.asks[i + 1]),
    );
    if let StageView::Settling(s, Wait::Local) = course.stages[i] {
        lemma_deletion_is_planned(s, s.deleted as int);
    }
}

/// The turn at which the server told of an entry that is removed at turn `i`: the one before, where
/// it is a folder and was looked into.
pub open spec fn remote_look(course: SyncCourse, i: int) -> int {
    if course.stages[i] matches StageView::Settling(_, Wait::Inside) {
        i - 1
    } else {
        i
    }
}

/// A remote entry is removed only after every visit succeeded, only where it is gone from the
/// complete local tree and, at the look just before, still is, and only while it is the version that
/// the last synchronization left, of which there is a fingerprint; a folder only when it was found
/// empty after that; the deepest entry first; none where a transfer is under way or was begun on this
/// pass; and every such deletion is soft.
pub proof fn lemma_remote_removals_are_safe(
    course: SyncCourse,
    i: int,
    path: Seq<Seq<char>>,
    disposal: Disposal,
)
    requires
        course.wf(),
        course.turns(i),
        course.asks[i + 1] == SyncAskView::RemoveRemote(path, disposal),
    ensures
        disposal == Disposal::Soft,
        remote_look(course, i) > 0,
        course.stages[remote_look(course, i)] matches StageView::Settling(s, Wait::Remote) && {
            let look = remote_look(course, i);
            &&& comes_to(s, path)
            &&& is_plain_target(s, path)
            &&& s.remote.contains_key(path) && !s.local.contains_key(path)
            &&& recorded_print(at(s.records, path)) is Some
            &&& !remote_differs(s.remote[path], s.records[path])
            &&& course.answers[look] matches SyncAnswer::Remote(latest) && !remote_differs(
                latest@,
                s.records[path],
            ) && (latest.is_folder ==> look == i - 1 && course.asks[i] == SyncAskView::LookInside(
                path,
            ) && course.answers[i] == SyncAnswer::Inside(false))
            &&& course.stages[look - 1] == StageView::Settling(s, Wait::Absence)
            &&& course.asks[look] == SyncAskView::LookRemote(path)
            &&& course.answers[look - 1] matches SyncAnswer::Scanned(current) && scan_view(current)
                == Ok::<Option<FingerprintView>, LocalErrorView>(None)
        },
{
    lemma_courses_are_steady(course, i);
    lemma_removals_come_from_looks(
        course.drive,
        course.stages[i],
        course.answers[i],
        (course.stages[i + 1], course.asks[i + 1]),
    );
    let look = remote_look(course, i);
    if look < i {
        assert(course.turns(look));
        lemma_courses_are_steady(course, look);
        lemma_removals_come_from_looks(
            course.drive,
            course.stages[look],
            course.answers[look],
            (course.stages[i], course.asks[i]),
        );
    }
    if let StageView::Settling(s, Wait::Remote) = course.stages[look] {
        lemma_deletion_is_planned(s, s.deleted as int);
        assert(look > 0);
        assert(course.turns(look - 1));
        lemma_courses_are_steady(course, look - 1);
        lemma_removals_come_from_looks(
            course.drive,
            course.stages[look - 1],
            course.answers[look - 1],
            (course.stages[look], course.asks[look]),
        );
    }
}

/// A remote folder is created only where the server refuses a name that is taken.
pub proof fn lemma_creations_replace_nothing(
    course: SyncCourse,
    i: int,
    path: Seq<Seq<char>>,
    taken: Taken,
)
    requires
        course.wf(),
        0 <= i < course.asks.len(),
        course.asks[i] == SyncAskView::CreateRemote(path, taken),
    ensures
        taken == Taken::Refuse,
{
    if i > 0 {
        assert(course.turns(i - 1));
        lemma_creations_refuse(
            course.drive,
            course.stages[i - 1],
            course.answers[i - 1],
            (course.stages[i], course.asks[i]),
        );
    }
}

/// Whether an ask, if it is for a remote folder, is refused where the name is taken.
spec fn refuses(ask: SyncAskView) -> bool {
    ask matches SyncAskView::CreateRemote(_, taken) ==> taken == Taken::Refuse
}

proof fn lemma_next_transfer_refuses(
    drive: u128,
    scan: RemoteScanView,
    dir: Seq<Seq<char>>,
    visits: Seq<Visit>,
    at: nat,
    progressed: Set<Seq<Seq<char>>>,
)
    ensures
        refuses(next_transfer(drive, scan, dir, visits, at, progressed).1),
    decreases visits.len() - at,
{
    if at < visits.len() {
        lemma_next_transfer_refuses(
            drive,
            scan,
            dir,
            visits,
            at + 1,
            progress(progressed, visits[at as int]),
        );
    }
}

proof fn lemma_creations_refuse(
    drive: u128,
    before: StageView,
    answer: SyncAnswer,
    turn: SyncTurn,
)
    requires
        follows(drive, before, answer, turn),
    ensures
        refuses(turn.1),
{
    match before {
        StageView::Reading { scan, dir, children, progressed } => {
            assert forall|visits: Seq<Visit>|
                refuses((#[trigger] next_transfer(drive, scan, dir, visits, 0, progressed)).1) by {
                lemma_next_transfer_refuses(drive, scan, dir, visits, 0, progressed);
            }
        },
        StageView::Transferring { scan, dir, visits, at, work, progressed } => {
            let visit = visits[at as int];
            let grown = match answer {
                SyncAnswer::Created(file) => if work == Work::Creating {
                    with_created(scan, visit.path@, file@)
                } else {
                    scan
                },
                _ => scan,
            };
            lemma_next_transfer_refuses(
                drive,
                grown,
                dir,
                visits,
                at + 1,
                progress(progressed, visit),
            );
        },
        _ => {},
    }
}

/// Whether a file stands on one side of a path and a directory on the other, where the path is
/// synchronized at all and no transfer of it is under way or was begun on this pass.
pub open spec fn is_type_conflict(s: SettlementView, path: Seq<Seq<char>>) -> bool {
    &&& types_differ(at(s.local, path), at(s.remote, path))
    &&& !s.ignored.contains(path) && !hidden(path)
    &&& !s.active.contains(path) && !s.progressed.contains(path)
}

proof fn lemma_type_conflict_is_a_stop(s: SettlementView, path: Seq<Seq<char>>) -> (k: int)
    requires
        is_settlement(s),
        is_type_conflict(s, path),
    ensures
        0 <= k < s.visits.len(),
        s.visits[k].path@ == path,
        is_stop(s.visits[k]@.step),
        forall|j: int| 0 <= j < s.visits.len() && (#[trigger] s.visits[j]).path@ == path ==> is_stop(
            s.visits[j]@.step,
        ),
{
    assert(visit_paths(s.visits).contains(path));
    let k = visit_paths(s.visits).index_of(path);
    assert(s.visits[k].path@ == path);
    lemma_type_conflicts_stop(s.local[path], s.remote[path], at(s.records, path));
    k
}

/// Where a file stands on one side and a directory on the other, the reconciliation pauses: it does
/// not finish, nothing is deleted on it, and nothing at the path is transferred, created, moved or
/// removed on either side, then or later.
pub proof fn lemma_type_conflicts_pause(
    course: SyncCourse,
    i: int,
    s: SettlementView,
    wait: Wait,
    path: Seq<Seq<char>>,
    j: int,
)
    requires
        course.wf(),
        0 <= i <= j < course.stages.len(),
        course.stages[i] == StageView::Settling(s, wait),
        is_type_conflict(s, path),
    ensures
        !(course.asks[j] is Finished),
        j > i ==> !touches(course.asks[j], path),
        j > i ==> !(course.asks[j] is RemoveLocal) && !(course.asks[j] is RemoveRemote),
        course.stages[j] is Ended ==> course.asks[j] is Failed,
        course.stages[j] is Ended || course.stages[j] is Settling && same_plan(
            s,
            course.stages[j]->Settling_0,
        ),
    decreases j,
{
    if j > i {
        lemma_type_conflicts_pause(course, i, s, wait, path, j - 1);
        lemma_pause_lasts(course, j, s, path);
    } else if i > 0 {
        lemma_settling_has_not_finished(course, i);
    }
}

/// A turn after a type conflict was found.
proof fn lemma_pause_lasts(course: SyncCourse, j: int, s: SettlementView, path: Seq<Seq<char>>)
    requires
        course.wf(),
        0 < j < course.stages.len(),
        is_type_conflict(s, path),
        course.stages[j - 1] is Ended || course.stages[j - 1] is Settling && same_plan(
            s,
            course.stages[j - 1]->Settling_0,
        ),
    ensures
        !(course.asks[j] is Finished),
        !touches(course.asks[j], path),
        !(course.asks[j] is RemoveLocal) && !(course.asks[j] is RemoveRemote),
        course.stages[j] is Ended ==> course.asks[j] is Failed,
        course.stages[j] is Ended || course.stages[j] is Settling && same_plan(
            s,
            course.stages[j]->Settling_0,
        ),
{
    assert(course.turns(j - 1));
    let turn = (course.stages[j], course.asks[j]);
    match course.stages[j - 1] {
        StageView::Settling(t, then) => {
            lemma_courses_are_steady(course, j - 1);
            let k = lemma_type_conflict_is_a_stop(t, path);
            lemma_settling_keeps_plan(course.drive, t, then, course.answers[j - 1], turn);
            lemma_pause_touches_nothing(course.drive, t, then, course.answers[j - 1], turn, path, k);
        },
        _ => lemma_end_is_final(course.drive, course.answers[j - 1], turn),
    }
}

proof fn lemma_settling_has_not_finished(course: SyncCourse, i: int)
    requires
        course.wf(),
        0 < i < course.stages.len(),
        course.stages[i] is Settling,
    ensures
        !(course.asks[i] is Finished),
{
    assert(course.turns(i - 1));
    lemma_courses_are_steady(course, i - 1);
    lemma_settled_is_not_finished(
        course.drive,
        course.stages[i - 1],
        course.answers[i - 1],
        (course.stages[i], course.asks[i]),
    );
}

pub(crate) proof fn lemma_settled_is_not_finished(
    drive: u128,
    before: StageView,
    answer: SyncAnswer,
    turn: SyncTurn,
)
    requires
        steady(before),
        follows(drive, before, answer, turn),
        turn.0 is Settling,
    ensures
        !(turn.1 is Finished),
{
    match before {
        StageView::Settling(s, Wait::Comparison) => lemma_comparison_turn(drive, s, answer, turn),
        StageView::Planning { .. } => lemma_planning_is_steady(drive, before, answer, turn),
        StageView::Scanning { .. } => {},
        StageView::Settling(_, _) => {},
        StageView::Ended => {},
        _ => lemma_nothing_is_taken_away_early(drive, before, answer, turn),
    }
}

proof fn lemma_pause_touches_nothing(
    drive: u128,
    s: SettlementView,
    wait: Wait,
    answer: SyncAnswer,
    turn: SyncTurn,
    path: Seq<Seq<char>>,
    k: int,
)
    requires
        settles(s, wait),
        follows(drive, StageView::Settling(s, wait), answer, turn),
        is_type_conflict(s, path),
        0 <= k < s.visits.len(),
        is_stop(s.visits[k]@.step),
        forall|j: int| 0 <= j < s.visits.len() && (#[trigger] s.visits[j]).path@ == path ==> is_stop(
            s.visits[j]@.step,
        ),
    ensures
        !touches(turn.1, path),
        !(turn.1 is RemoveLocal) && !(turn.1 is RemoveRemote),
{
    assert(s.visited <= k);
    let visit = s.visits[s.visited as int];
    assert(visit@.path == visit.path@);
    if wait == Wait::Comparison {
        lemma_comparison_turn(drive, s, answer, turn);
    }
}

/// While only a single directory is known, a transfer or a creation is begun only where both sides
/// are of one type.
pub proof fn lemma_early_transfers_are_of_one_type(course: SyncCourse, i: int)
    requires
        course.wf(),
        0 <= i < course.stages.len(),
        course.stages[i] is Transferring,
    ensures
        ({
            let visit = course.stages[i]->Transferring_visits[course.stages[i]->Transferring_at as int]@;
            !types_differ(visit.local, visit.remote)
        }),
{
    lemma_courses_are_steady(course, i);
}

/// Nothing follows the end of a reconciliation.
pub proof fn lemma_end_is_final(drive: u128, answer: SyncAnswer, turn: SyncTurn)
    requires
        follows(drive, StageView::Ended, answer, turn),
    ensures
        turn.0 is Ended,
        turn.1 is Failed,
{
}

} // verus!
