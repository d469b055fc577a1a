//! Both trees, as a reconciliation knows them, are exactly what the listings told: no entry is missed,
//! none is invented, and every directory was read to its end.
use crate::local_file::{FingerprintView, LocalErrorView, scan_view};
use crate::local_scan::{
    after_local_entries, all_found, first_refused, LocalEntry, LocalScanView,
};
use crate::reconcile::{next_listing, next_transfer, progress, StageView, with_created};
use crate::reconcile_laws::{
    lemma_courses_are_steady, lemma_end_is_final, lemma_phases_come_in_order,
    lemma_planning_is_steady,
    lemma_settling_keeps_plan, steady, SyncCourse,
};
use crate::reconcile_outcomes::{
    created_at, lemma_ended_asks_nothing, lemma_settled_asks, under_way,
};
use crate::path::plain_name;
use crate::records::{FileView, Taken};
use crate::remote_scan::{page_outcome, RemoteEntry, RemoteScanView};
use crate::steps::Visit;
use crate::transfer_outcomes::lemma_transfer_is_under_way;
use crate::sync::is_internal;
use crate::text::opt_text;
use crate::work::{SyncAnswer, SyncAskView, Work};
use vstd::prelude::*;

verus! {

/// Whether an entry of a remote listing is synchronized: it is not internal, and not excluded.
pub open spec fn counts(entry: RemoteEntry) -> bool {
    !is_internal(entry.file@.name) && !entry.ignored
}

/// Whether an entry of a page of the listing of `dir` tells that `file` is at `path`.
pub open spec fn page_tells(
    dir: Seq<Seq<char>>,
    entries: Seq<RemoteEntry>,
    path: Seq<Seq<char>>,
    file: FileView,
) -> bool {
    exists|x: int|
        0 <= x < entries.len() && counts(#[trigger] entries[x]) && path == dir.push(
            entries[x].file@.name,
        ) && file == entries[x].file@
}

/// What a page does to a scan where no entry of it is refused.
spec fn takes_page(scan: RemoteScanView, entries: Seq<RemoteEntry>, next: RemoteScanView) -> bool {
    let dir = scan.current->0;
    &&& next.root == scan.root && next.current == scan.current && next.listed == scan.listed
    &&& forall|p: Seq<Seq<char>>| #[trigger]
        scan.found.contains_key(p) ==> next.found.contains_key(p) && next.found[p] == scan.found[p]
    &&& forall|p: Seq<Seq<char>>| #[trigger]
        scan.children.contains_key(p) ==> next.children.contains_key(p)
    &&& forall|x: int|
        0 <= x < entries.len() && counts(#[trigger] entries[x]) ==> {
            let path = dir.push(entries[x].file@.name);
            &&& !scan.found.contains_key(path)
            &&& next.found.contains_key(path) && next.found[path] == entries[x].file@
            &&& next.children.contains_key(path) && next.children[path] == entries[x].file@
            &&& entries[x].file@.is_folder ==> next.waiting.contains(path)
        }
    &&& forall|p: Seq<Seq<char>>| #[trigger]
        next.found.contains_key(p) ==> scan.found.contains_key(p) || page_tells(
            dir,
            entries,
            p,
            next.found[p],
        )
    &&& forall|p: Seq<Seq<char>>| #[trigger]
        next.children.contains_key(p) ==> scan.children.contains_key(p) && next.children[p]
            == scan.children[p] || page_tells(dir, entries, p, next.children[p])
    &&& forall|d: Seq<Seq<char>>| #[trigger] scan.waiting.contains(d) ==> next.waiting.contains(d)
}

proof fn lemma_page_is_taken(scan: RemoteScanView, entries: Seq<RemoteEntry>)
    requires
        page_outcome(scan, entries).1 is None,
    ensures
        takes_page(scan, entries, page_outcome(scan, entries).0),
    decreases entries.len(),
{
    if entries.len() > 0 {
        let shorter = entries.drop_last();
        let n = shorter.len() as int;
        let before = page_outcome(scan, shorter).0;
        let next = page_outcome(scan, entries).0;
        let dir = scan.current->0;
        lemma_page_is_taken(scan, shorter);
        let last = entries.last();
        let path = dir.push(last.file@.name);
        assert forall|p: Seq<Seq<char>>, f: FileView| #[trigger]
            page_tells(dir, shorter, p, f) implies page_tells(dir, entries, p, f) by {
            let x = choose|x: int|
                0 <= x < shorter.len() && counts(#[trigger] shorter[x]) && p == dir.push(
                    shorter[x].file@.name,
                ) && f == shorter[x].file@;
            assert(entries[x] == shorter[x]);
        }
        if counts(last) {
            assert(entries[n] == last);
            assert(page_tells(dir, entries, path, last.file@));
            if last.file@.is_folder {
                assert(next.waiting == before.waiting.push(path));
                assert(next.waiting[before.waiting.len() as int] == path);
                assert forall|d: Seq<Seq<char>>| #[trigger] before.waiting.contains(d) implies next.waiting.contains(
                d) by {
                    let k = before.waiting.index_of(d);
                    assert(next.waiting[k] == d);
                }
            }
        }
        assert forall|x: int| 0 <= x < entries.len() && counts(#[trigger] entries[x]) implies {
            let path = dir.push(entries[x].file@.name);
            &&& !scan.found.contains_key(path)
            &&& next.found.contains_key(path) && next.found[path] == entries[x].file@
            &&& next.children.contains_key(path) && next.children[path] == entries[x].file@
            &&& entries[x].file@.is_folder ==> next.waiting.contains(path)
        } by {
            if x < n {
                assert(entries[x] == shorter[x]);
                assert(counts(shorter[x]));
            }
        }
        assert forall|p: Seq<Seq<char>>| #[trigger] next.found.contains_key(p) implies scan.found.contains_key(p)
            || page_tells(dir, entries, p, next.found[p]) by {
            if !(counts(last) && p == path) {
                assert(before.found.contains_key(p));
            }
        }
        assert forall|p: Seq<Seq<char>>| #[trigger] next.children.contains_key(p) implies scan.children.contains_key(p)
            && next.children[p] == scan.children[p] || page_tells(
            dir,
            entries,
            p,
            next.children[p],
        ) by {
            if !(counts(last) && p == path) {
                assert(before.children.contains_key(p));
            }
        }
        assert forall|p: Seq<Seq<char>>| #[trigger] scan.children.contains_key(p) implies next.children.contains_key(
        p) by {
            assert(before.children.contains_key(p));
        }
        assert forall|p: Seq<Seq<char>>| #[trigger] scan.found.contains_key(p) implies next.found.contains_key(p)
            && next.found[p] == scan.found[p] by {
            assert(before.found.contains_key(p));
        }
    }
}

/// The remote entries that are known in a stage.
pub open spec fn remote_known(stage: StageView) -> Map<Seq<Seq<char>>, FileView> {
    match stage {
        StageView::Listing { scan, progressed } => scan.found,
        StageView::Reading { scan, dir, children, progressed } => scan.found,
        StageView::Transferring { scan, dir, visits, at, work, progressed } => scan.found,
        StageView::Scanning { local, remote, progressed } => remote,
        StageView::Planning { local, remote, progressed } => remote,
        _ => Map::empty(),
    }
}

/// Whether a page that came at turn `j` tells that `file` is at `path`.
pub open spec fn told_at(course: SyncCourse, j: int, path: Seq<Seq<char>>, file: FileView) -> bool {
    course.turns(j) && (course.asks[j] matches SyncAskView::ListRemote(dir) && (
    course.answers[j] matches SyncAnswer::Page(entries, _) && page_tells(dir, entries@, path, file)))
}

/// Whether the listing of the remote folder that belongs to `dir` came to its end before turn `n`.
pub open spec fn listed_before(course: SyncCourse, n: int, dir: Seq<Seq<char>>) -> bool {
    exists|j: int| j < n && #[trigger] ends_listing(course, j, dir)
}

/// Whether the last page of the listing of `dir` came at turn `j`.
pub open spec fn ends_listing(course: SyncCourse, j: int, dir: Seq<Seq<char>>) -> bool {
    course.turns(j) && course.asks[j] == SyncAskView::ListRemote(dir) && (
    course.answers[j] matches SyncAnswer::Page(_, more) && !more)
}

/// Whether it was told before turn `n` that `file` is at `path`, by a page or by its creation.
pub open spec fn told_before(
    course: SyncCourse,
    n: int,
    path: Seq<Seq<char>>,
    file: FileView,
) -> bool {
    ||| exists|j: int| j < n && #[trigger] told_at(course, j, path, file)
    ||| exists|j: int| j < n && #[trigger] created_at(course, j, path, file)
}

/// Whether the listing of a directory is under way or to come.
spec fn is_to_come(stage: StageView, dir: Seq<Seq<char>>) -> bool {
    match stage {
        StageView::Listing { scan, progressed } => scan.waiting.contains(dir) || scan.current
            == Some(dir),
        StageView::Reading { scan, dir: _, children, progressed } => scan.waiting.contains(dir),
        StageView::Transferring { scan, dir: _, visits, at, work, progressed } => scan.waiting.contains(
            dir,
        ),
        _ => false,
    }
}

/// What the turns so far tell of the remote entries that are known.
spec fn knows(course: SyncCourse, i: int) -> bool {
    let stage = course.stages[i];
    let known = remote_known(stage);
    &&& stage matches StageView::Listing { scan, progressed } ==> scan.current is Some
        && course.asks[i] == SyncAskView::ListRemote(scan.current->0) && scan.root == course.root
    &&& stage matches StageView::Reading { scan, dir, children, progressed } ==> scan.root
        == course.root && course.asks[i] == SyncAskView::ReadDirectory(dir) && scan.children
        == Map::<Seq<Seq<char>>, FileView>::empty()
    &&& stage matches StageView::Transferring { scan, dir, visits, at, work, progressed } ==> scan.root
        == course.root && scan.children == Map::<Seq<Seq<char>>, FileView>::empty()
    &&& stage is Settling || stage is Ended || is_to_come(stage, course.root) || listed_before(
        course,
        i,
        course.root,
    )
    &&& forall|p: Seq<Seq<char>>| #[trigger]
        known.contains_key(p) ==> told_before(course, i, p, known[p]) && (known[p].is_folder
            ==> is_to_come(stage, p) || listed_before(course, i, p))
}

proof fn lemma_later_told(
    course: SyncCourse,
    n: int,
    later: int,
    path: Seq<Seq<char>>,
    file: FileView,
)
    requires
        n <= later,
    ensures
        told_before(course, n, path, file) ==> told_before(course, later, path, file),
        listed_before(course, n, path) ==> listed_before(course, later, path),
{
    if exists|j: int| j < n && #[trigger] told_at(course, j, path, file) {
        let j = choose|j: int| j < n && #[trigger] told_at(course, j, path, file);
        assert(j < later && told_at(course, j, path, file));
    }
    if exists|j: int| j < n && #[trigger] created_at(course, j, path, file) {
        let j = choose|j: int| j < n && #[trigger] created_at(course, j, path, file);
        assert(j < later && created_at(course, j, path, file));
    }
    if listed_before(course, n, path) {
        let j = choose|j: int| j < n && #[trigger] ends_listing(course, j, path);
        assert(j < later && ends_listing(course, j, path));
    }
}

/// What is known goes on being known, and so does what is to come.
spec fn goes_on_knowing(
    course: SyncCourse,
    i: int,
    grown: Map<Seq<Seq<char>>, FileView>,
    waiting: Seq<Seq<Seq<char>>>,
) -> bool {
    forall|p: Seq<Seq<char>>| #[trigger]
        grown.contains_key(p) ==> told_before(course, i, p, grown[p]) && (grown[p].is_folder
            ==> waiting.contains(p) || listed_before(course, i, p))
}

proof fn lemma_next_listing_knows(
    course: SyncCourse,
    i: int,
    scan: RemoteScanView,
    progressed: Set<Seq<Seq<char>>>,
)
    requires
        scan.root == course.root,
        goes_on_knowing(course, i, scan.found, scan.waiting),
        scan.waiting.contains(course.root) || listed_before(course, i, course.root),
        (course.stages[i], course.asks[i]) == next_listing(scan, progressed),
    ensures
        knows(course, i),
{
    if scan.waiting.len() > 0 {
        let rest = scan.waiting.drop_first();
        assert forall|d: Seq<Seq<char>>| #[trigger] scan.waiting.contains(d) implies is_to_come(
            course.stages[i],
            d,
        ) by {
            let k = scan.waiting.index_of(d);
            if k > 0 {
                assert(rest[k - 1] == d);
            }
        }
    }
}

proof fn lemma_next_transfer_lists(
    drive: u128,
    scan: RemoteScanView,
    dir: Seq<Seq<char>>,
    visits: Seq<Visit>,
    at: nat,
    progressed: Set<Seq<Seq<char>>>,
) -> (later: Set<Seq<Seq<char>>>)
    ensures
        ({
            let turn = next_transfer(drive, scan, dir, visits, at, progressed);
            ||| turn.0 is Ended
            ||| turn.0 matches StageView::Transferring {
                scan: same,
                dir: _,
                visits: _,
                at: _,
                work: _,
                progressed: _,
            } && same == scan
            ||| turn == next_listing(scan, later)
        }),
    decreases visits.len() - at,
{
    if at < visits.len() {
        lemma_next_transfer_lists(
            drive,
            scan,
            dir,
            visits,
            at + 1,
            progress(progressed, visits[at as int]),
        )
    } else {
        progressed
    }
}

proof fn lemma_next_transfer_knows(
    course: SyncCourse,
    i: int,
    scan: RemoteScanView,
    dir: Seq<Seq<char>>,
    visits: Seq<Visit>,
    at: nat,
    progressed: Set<Seq<Seq<char>>>,
)
    requires
        scan.root == course.root,
        scan.children == Map::<Seq<Seq<char>>, FileView>::empty(),
        goes_on_knowing(course, i, scan.found, scan.waiting),
        scan.waiting.contains(course.root) || listed_before(course, i, course.root),
        (course.stages[i], course.asks[i]) == next_transfer(
            course.drive,
            scan,
            dir,
            visits,
            at,
            progressed,
        ),
    ensures
        knows(course, i),
        course.stages[i] is Ended || remote_known(course.stages[i]) == scan.found,
        course.stages[i] matches StageView::Listing { scan, progressed } ==> scan.children == Map::<
            Seq<Seq<char>>,
            FileView,
        >::empty(),
{
    let later = lemma_next_transfer_lists(course.drive, scan, dir, visits, at, progressed);
    if (course.stages[i], course.asks[i]) == next_listing(scan, later) {
        lemma_next_listing_knows(course, i, scan, later);
    }
}

/// What a turn does to the remote entries that are known.
spec fn keeps_known(course: SyncCourse, i: int) -> bool {
    let before = remote_known(course.stages[i]);
    let after = remote_known(course.stages[i + 1]);
    course.stages[i + 1] is Ended || course.stages[i + 1] is Settling || forall|p: Seq<Seq<char>>|
        #[trigger]
        before.contains_key(p) ==> after.contains_key(p) && (after[p] == before[p] || created_at(
            course,
            i,
            p,
            after[p],
        ))
}

/// The entries of the directory whose listing is under way, or was completed just before.
pub open spec fn gathered(stage: StageView) -> Map<Seq<Seq<char>>, FileView> {
    match stage {
        StageView::Listing { scan, progressed } => scan.children,
        StageView::Reading { scan, dir, children, progressed } => children,
        _ => Map::empty(),
    }
}

spec fn page_is_taken(course: SyncCourse, i: int) -> bool {
    let scan = course.stages[i]->Listing_scan;
    let entries = course.answers[i]->Page_0@;
    let next = page_outcome(scan, entries).0;
    &&& takes_page(scan, entries, next)
    &&& remote_known(course.stages[i + 1]) == next.found
    &&& gathered(course.stages[i + 1]) == next.children
    &&& if course.answers[i]->Page_1 {
        course.stages[i + 1] is Listing && course.asks[i + 1] == course.asks[i]
    } else {
        course.stages[i + 1] is Reading && course.stages[i + 1]->Reading_dir == scan.current->0
    }
}

proof fn lemma_page_knows(course: SyncCourse, i: int)
    requires
        course.wf(),
        course.turns(i),
        knows(course, i),
        course.stages[i] is Listing,
    ensures
        knows(course, i + 1),
        keeps_known(course, i),
        course.answers[i] is Page && !(course.asks[i + 1] is Failed) ==> page_is_taken(course, i),
{
    let scan = course.stages[i]->Listing_scan;
    let dir = scan.current->0;
    if let SyncAnswer::Page(entries, more) = course.answers[i] {
        let (next, error) = page_outcome(scan, entries@);
        if error is None {
            lemma_page_is_taken(scan, entries@);
            if !more {
                assert(ends_listing(course, i, dir));
            }
            let known = next.found;
            assert forall|p: Seq<Seq<char>>| #[trigger] known.contains_key(p) implies told_before(
                course,
                i + 1,
                p,
                known[p],
            ) && (known[p].is_folder ==> is_to_come(course.stages[i + 1], p) || listed_before(
                course,
                i + 1,
                p,
            )) by {
                lemma_later_told(course, i, i + 1, p, known[p]);
                if scan.found.contains_key(p) {
                } else {
                    assert(page_tells(dir, entries@, p, known[p]));
                    assert(told_at(course, i, p, known[p]));
                    let x = choose|x: int|
                        0 <= x < entries@.len() && counts(#[trigger] entries@[x]) && p == dir.push(
                            entries@[x].file@.name,
                        ) && known[p] == entries@[x].file@;
                    assert(counts(entries@[x]));
                }
            }
            lemma_later_told(course, i, i + 1, course.root, arbitrary());
        }
    }
}

proof fn lemma_reading_knows(course: SyncCourse, i: int)
    requires
        course.wf(),
        course.turns(i),
        knows(course, i),
        course.stages[i] is Reading,
    ensures
        knows(course, i + 1),
        keeps_known(course, i),
        course.stages[i + 1] matches StageView::Listing { scan, progressed } ==> scan.children
            == Map::<Seq<Seq<char>>, FileView>::empty(),
{
    let scan = course.stages[i]->Reading_scan;
    let dir = course.stages[i]->Reading_dir;
    let progressed = course.stages[i]->Reading_progressed;
    let turn = (course.stages[i + 1], course.asks[i + 1]);
    assert(goes_on_knowing(course, i + 1, scan.found, scan.waiting)) by {
        assert forall|p: Seq<Seq<char>>| #[trigger] scan.found.contains_key(p) implies told_before(
            course,
            i + 1,
            p,
            scan.found[p],
        ) && (scan.found[p].is_folder ==> scan.waiting.contains(p) || listed_before(
            course,
            i + 1,
            p,
        )) by {
            assert(remote_known(course.stages[i]).contains_key(p));
            lemma_later_told(course, i, i + 1, p, scan.found[p]);
        }
    }
    lemma_later_told(course, i, i + 1, course.root, arbitrary());
    if !(turn.0 is Ended) {
        let visits = choose|visits: Seq<Visit>|
            turn == #[trigger] next_transfer(course.drive, scan, dir, visits, 0, progressed);
        lemma_next_transfer_knows(course, i + 1, scan, dir, visits, 0, progressed);
    }
}

proof fn lemma_transferring_knows(course: SyncCourse, i: int)
    requires
        course.wf(),
        course.turns(i),
        knows(course, i),
        course.stages[i] is Transferring,
        steady(course.stages[i]),
        course.stages[i]->Transferring_work == Work::Creating ==> course.asks[i]
            == SyncAskView::CreateRemote(
            course.stages[i]->Transferring_visits[course.stages[i]->Transferring_at as int].path@,
            Taken::Refuse,
        ),
    ensures
        knows(course, i + 1),
        keeps_known(course, i),
        course.stages[i + 1] matches StageView::Listing { scan, progressed } ==> scan.children
            == Map::<Seq<Seq<char>>, FileView>::empty(),
{
    if let StageView::Transferring { scan, dir, visits, at, work, progressed } = course.stages[i] {
        let visit = visits[at as int];
        let path = visit.path@;
        let answer = course.answers[i];
        let grown = match answer {
            SyncAnswer::Created(file) => if work == Work::Creating {
                with_created(scan, path, file@)
            } else {
                scan
            },
            _ => scan,
        };
        if let SyncAnswer::Created(file) = answer {
            if work == Work::Creating {
                assert(created_at(course, i, path, file@));
                assert(grown.waiting[scan.waiting.len() as int] == path);
            }
        }
        assert forall|d: Seq<Seq<char>>| #[trigger] scan.waiting.contains(d) implies grown.waiting.contains(
        d) by {
            let k = scan.waiting.index_of(d);
            assert(grown.waiting[k] == d);
        }
        assert(goes_on_knowing(course, i + 1, grown.found, grown.waiting)) by {
            assert forall|p: Seq<Seq<char>>| #[trigger] grown.found.contains_key(p) implies told_before(
                course,
                i + 1,
                p,
                grown.found[p],
            ) && (grown.found[p].is_folder ==> grown.waiting.contains(p) || listed_before(
                course,
                i + 1,
                p,
            )) by {
                lemma_later_told(course, i, i + 1, p, grown.found[p]);
                if grown.found[p] == scan.found[p] && scan.found.contains_key(p) {
                    assert(remote_known(course.stages[i]).contains_key(p));
                }
            }
        }
        lemma_later_told(course, i, i + 1, course.root, arbitrary());
        let turn = (course.stages[i + 1], course.asks[i + 1]);
        if turn == next_transfer(
            course.drive,
            grown,
            dir,
            visits,
            at + 1,
            progress(progressed, visit),
        ) {
            lemma_next_transfer_knows(
                course,
                i + 1,
                grown,
                dir,
                visits,
                at + 1,
                progress(progressed, visit),
            );
        }
    }
}

proof fn lemma_remote_is_known(course: SyncCourse, i: int)
    requires
        course.wf(),
        0 <= i < course.stages.len(),
    ensures
        knows(course, i),
        i > 0 ==> keeps_known(course, i - 1),
        i > 0 && course.stages[i] is Listing && !(course.stages[i - 1] is Listing) ==> gathered(
            course.stages[i],
        ) == Map::<Seq<Seq<char>>, FileView>::empty(),
        i > 0 && course.stages[i - 1] is Listing && course.answers[i - 1] is Page && !(
        course.asks[i] is Failed) ==> page_is_taken(course, i - 1),
    decreases i,
{
    if i > 0 {
        lemma_remote_is_known(course, i - 1);
        assert(course.turns(i - 1));
        lemma_courses_are_steady(course, i - 1);
        let turn = (course.stages[i], course.asks[i]);
        match course.stages[i - 1] {
            StageView::Listing { .. } => lemma_page_knows(course, i - 1),
            StageView::Reading { .. } => lemma_reading_knows(course, i - 1),
            StageView::Transferring { scan, dir, visits, at, work, progressed } => {
                lemma_transfer_is_under_way(course, i - 1);
                assert(visits[at as int]@.path == visits[at as int].path@);
                lemma_transferring_knows(course, i - 1);
            },
            StageView::Settling(s, wait) => {
                lemma_settling_keeps_plan(course.drive, s, wait, course.answers[i - 1], turn);
            },
            StageView::Planning { .. } => {
                lemma_planning_is_steady(
                    course.drive,
                    course.stages[i - 1],
                    course.answers[i - 1],
                    turn,
                );
            },
            StageView::Scanning { local, remote, progressed } => {
                lemma_scanning_knows(course, i - 1);
            },
            StageView::Ended => lemma_end_is_final(course.drive, course.answers[i - 1], turn),
        }
    }
}

proof fn lemma_scanning_knows(course: SyncCourse, i: int)
    requires
        course.wf(),
        course.turns(i),
        knows(course, i),
        course.stages[i] is Scanning,
    ensures
        knows(course, i + 1),
        keeps_known(course, i),
        !(course.stages[i + 1] is Listing),
{
    let known = remote_known(course.stages[i]);
    assert forall|p: Seq<Seq<char>>| #[trigger] known.contains_key(p) implies told_before(
        course,
        i + 1,
        p,
        known[p],
    ) && (known[p].is_folder ==> listed_before(course, i + 1, p)) by {
        lemma_later_told(course, i, i + 1, p, known[p]);
    }
    lemma_later_told(course, i, i + 1, course.root, arbitrary());
}

/// No remote entry is missed: whatever an accepted page told is known from then on, as it was told,
/// or as it was created since.
pub proof fn lemma_no_remote_entry_is_missed(
    course: SyncCourse,
    j: int,
    i: int,
    dir: Seq<Seq<char>>,
    entries: Seq<RemoteEntry>,
    x: int,
)
    requires
        course.wf(),
        course.turns(j),
        course.asks[j] == SyncAskView::ListRemote(dir),
        course.answers[j] matches SyncAnswer::Page(page, _) && page@ == entries,
        0 <= x < entries.len(),
        !is_internal(entries[x].file@.name) && !entries[x].ignored,
        j < i < course.stages.len(),
        !(course.stages[i] is Settling) && !(course.stages[i] is Ended),
    ensures
        ({
            let path = dir.push(entries[x].file@.name);
            let known = remote_known(course.stages[i]);
            &&& known.contains_key(path)
            &&& known[path] == entries[x].file@ || exists|k: int|
                j < k < i && #[trigger] created_at(course, k, path, known[path])
        }),
    decreases i,
{
    let path = dir.push(entries[x].file@.name);
    lemma_remote_is_known(course, j);
    lemma_remote_is_known(course, i);
    lemma_list_asks_are_listing(course, j);
    assert(counts(entries[x]));
    if i == j + 1 {
    } else {
        assert(course.turns(i - 1));
        lemma_before_settling(course, i - 1);
        lemma_no_remote_entry_is_missed(course, j, i - 1, dir, entries, x);
        let before = remote_known(course.stages[i - 1]);
        let known = remote_known(course.stages[i]);
        assert(before.contains_key(path));
        if known[path] == before[path] && before[path] != entries[x].file@ {
            let k = choose|k: int|
                j < k < i - 1 && #[trigger] created_at(course, k, path, before[path]);
            assert(j < k < i && created_at(course, k, path, known[path]));
        } else if known[path] != before[path] {
            assert(created_at(course, i - 1, path, known[path]));
        }
    }
}

proof fn lemma_before_settling(course: SyncCourse, i: int)
    requires
        course.wf(),
        course.turns(i),
        !(course.stages[i + 1] is Settling) && !(course.stages[i + 1] is Ended),
    ensures
        !(course.stages[i] is Settling) && !(course.stages[i] is Ended),
{
    lemma_courses_are_steady(course, i);
    let turn = (course.stages[i + 1], course.asks[i + 1]);
    match course.stages[i] {
        StageView::Settling(s, wait) => {
            lemma_settling_keeps_plan(course.drive, s, wait, course.answers[i], turn);
        },
        StageView::Ended => lemma_end_is_final(course.drive, course.answers[i], turn),
        _ => {},
    }
}

proof fn lemma_list_asks_are_listing(course: SyncCourse, j: int)
    requires
        course.wf(),
        0 <= j < course.asks.len(),
        course.asks[j] is ListRemote,
    ensures
        course.stages[j] is Listing,
{
    if j > 0 {
        assert(course.turns(j - 1));
        lemma_courses_are_steady(course, j - 1);
        lemma_remote_is_known(course, j);
        lemma_transfer_is_under_way(course, j);
        lemma_other_stages_list_nothing(course, j - 1);
    }
}

proof fn lemma_other_stages_list_nothing(course: SyncCourse, i: int)
    requires
        course.wf(),
        course.turns(i),
        steady(course.stages[i]),
        course.asks[i + 1] is ListRemote,
        knows(course, i + 1),
        course.stages[i + 1] matches StageView::Transferring {
            scan,
            dir,
            visits,
            at,
            work,
            progressed,
        } ==> under_way(course, i + 1, visits[at as int]@, work),
    ensures
        course.stages[i + 1] is Listing,
{
    let turn = (course.stages[i + 1], course.asks[i + 1]);
    if course.stages[i + 1] is Ended {
        lemma_ended_asks_nothing(course.drive, course.stages[i], course.answers[i], turn);
    }
    match course.stages[i] {
        StageView::Listing { .. } => {},
        StageView::Settling(s, wait) => {
            lemma_settling_asks_no_listing(course, i);
        },
        StageView::Planning { .. } => {
            lemma_settling_asks_no_listing(course, i);
        },
        StageView::Reading { scan, dir, children, progressed } => {
            if !(turn.0 is Ended) {
                let visits = choose|visits: Seq<Visit>|
                    turn == #[trigger] next_transfer(
                        course.drive,
                        scan,
                        dir,
                        visits,
                        0,
                        progressed,
                    );
                lemma_next_transfer_lists(course.drive, scan, dir, visits, 0, progressed);
            }
        },
        StageView::Transferring { scan, dir, visits, at, work, progressed } => {
            let visit = visits[at as int];
            let grown = match course.answers[i] {
                SyncAnswer::Created(file) => if work == Work::Creating {
                    with_created(scan, visit.path@, file@)
                } else {
                    scan
                },
                _ => scan,
            };
            lemma_next_transfer_lists(
                course.drive,
                grown,
                dir,
                visits,
                at + 1,
                progress(progressed, visit),
            );
        },
        _ => {},
    }
}

proof fn lemma_settling_asks_no_listing(course: SyncCourse, i: int)
    requires
        course.wf(),
        course.turns(i),
        course.stages[i] is Settling || course.stages[i] is Planning,
        steady(course.stages[i]),
    ensures
        !(course.asks[i + 1] is ListRemote),
        !(course.asks[i + 1] is ScanLocal),
{
    lemma_settled_asks(course, i);
}

/// No remote entry is invented: whatever is known was told by a page, which an accepted entry of the
/// listing of its directory is, or by its creation; and at the end every folder, and the root, was
/// listed to its last page.
pub proof fn lemma_remote_tree_is_as_told(course: SyncCourse, i: int, path: Seq<Seq<char>>)
    requires
        course.wf(),
        0 <= i < course.stages.len(),
    ensures
        ({
            let known = remote_known(course.stages[i]);
            &&& known.contains_key(path) ==> told_before(course, i, path, known[path])
            &&& course.stages[i] is Scanning || course.stages[i] is Planning ==> listed_before(
                course,
                i,
                course.root,
            ) && (known.contains_key(path) && known[path].is_folder ==> listed_before(
                course,
                i,
                path,
            ))
        }),
{
    lemma_remote_is_known(course, i);
}

/// The entries of a directory with which transfers are planned are exactly those of the pages of its
/// listing: the first page begins with none, and every page adds what it tells and nothing else.
pub proof fn lemma_directory_is_as_told(
    course: SyncCourse,
    j: int,
    path: Seq<Seq<char>>,
    file: FileView,
)
    requires
        course.wf(),
        course.turns(j),
        course.asks[j] is ListRemote,
        course.answers[j] is Page,
        !(course.asks[j + 1] is Failed),
    ensures
        j == 0 || !(course.asks[j - 1] is ListRemote) ==> gathered(course.stages[j]) == Map::<
            Seq<Seq<char>>,
            FileView,
        >::empty(),
        ({
            let before = gathered(course.stages[j]);
            let after = gathered(course.stages[j + 1]);
            let dir = course.asks[j]->ListRemote_0;
            after.contains_key(path) && after[path] == file <==> before.contains_key(path)
                && before[path] == file && after[path] == file || page_tells(
                dir,
                course.answers[j]->Page_0@,
                path,
                file,
            )
        }),
        if course.answers[j]->Page_1 {
            course.asks[j + 1] == course.asks[j]
        } else {
            course.asks[j + 1] == SyncAskView::ReadDirectory(course.asks[j]->ListRemote_0)
        },
{
    lemma_list_asks_are_listing(course, j);
    lemma_remote_is_known(course, j);
    lemma_remote_is_known(course, j + 1);
    if j > 0 && course.stages[j - 1] is Listing {
        lemma_remote_is_known(course, j - 1);
    }
    let dir = course.asks[j]->ListRemote_0;
    let entries = course.answers[j]->Page_0@;
    if page_tells(dir, entries, path, file) {
        let x = choose|x: int|
            0 <= x < entries.len() && counts(#[trigger] entries[x]) && path == dir.push(
                entries[x].file@.name,
            ) && file == entries[x].file@;
        assert(counts(entries[x]));
    }
}

/// Whether an entry of a local directory tells that `print` stands under `name`: it is neither
/// internal nor excluded, and was read.
pub open spec fn entry_tells(entry: LocalEntry, name: Seq<char>, print: FingerprintView) -> bool {
    &&& opt_text(entry.name) == Some(name)
    &&& !is_internal(name) && !entry.ignored
    &&& scan_view(entry.scanned) == Ok::<Option<FingerprintView>, LocalErrorView>(Some(print))
}

/// Whether one of the entries of the directory `dir` tells that `print` stands at `path`.
pub open spec fn entries_tell(
    dir: Seq<Seq<char>>,
    entries: Seq<LocalEntry>,
    path: Seq<Seq<char>>,
    print: FingerprintView,
) -> bool {
    path.len() > 0 && path.drop_last() == dir && exists|x: int|
        0 <= x < entries.len() && entry_tells(#[trigger] entries[x], path.last(), print)
}

/// Whether an entry of a local directory is synchronized: it is not internal, and not excluded.
pub open spec fn counts_here(entry: LocalEntry) -> bool {
    opt_text(entry.name) is Some && !is_internal(opt_text(entry.name)->0) && !entry.ignored
}

/// What the entries of a directory do to a scan where none of them is refused.
spec fn takes_entries(scan: LocalScanView, entries: Seq<LocalEntry>, next: LocalScanView) -> bool {
    let dir = scan.current->0;
    &&& next.root == scan.root && next.current == scan.current && next.listed == scan.listed
    &&& forall|p: Seq<Seq<char>>| #[trigger]
        scan.found.contains_key(p) ==> next.found.contains_key(p)
    &&& forall|x: int|
        0 <= x < entries.len() && counts_here(#[trigger] entries[x]) ==> next.found.contains_key(
            dir.push(opt_text(entries[x].name)->0),
        )
    &&& forall|p: Seq<Seq<char>>| #[trigger]
        next.found.contains_key(p) ==> {
            ||| scan.found.contains_key(p) && next.found[p] == scan.found[p]
            ||| entries_tell(dir, entries, p, next.found[p]) && (next.found[p].directory
                ==> next.waiting.contains(p))
        }
    &&& forall|d: Seq<Seq<char>>| #[trigger] scan.waiting.contains(d) ==> next.waiting.contains(d)
}

proof fn lemma_entries_are_taken(scan: LocalScanView, entries: Seq<LocalEntry>)
    requires
        first_refused(entries) is None,
    ensures
        takes_entries(scan, entries, after_local_entries(scan, entries)),
    decreases entries.len(),
{
    if entries.len() > 0 {
        let shorter = entries.drop_last();
        let n = shorter.len() as int;
        let before = after_local_entries(scan, shorter);
        let next = after_local_entries(scan, entries);
        let dir = scan.current->0;
        lemma_entries_are_taken(scan, shorter);
        let last = entries.last();
        assert(entries[n] == last);
        assert forall|p: Seq<Seq<char>>, f: FingerprintView| #[trigger]
            entries_tell(dir, shorter, p, f) implies entries_tell(dir, entries, p, f) by {
            let x = choose|x: int|
                0 <= x < shorter.len() && entry_tells(#[trigger] shorter[x], p.last(), f);
            assert(entries[x] == shorter[x]);
        }
        if counts_here(last) {
            let name = opt_text(last.name)->0;
            let path = dir.push(name);
            let print = scan_view(last.scanned)->Ok_0->0;
            assert(path.drop_last() =~= dir);
            assert(entry_tells(entries[n], path.last(), print));
            assert(entries_tell(dir, entries, path, print));
            if print.directory {
                assert(next.waiting[before.waiting.len() as int] == path);
            }
        }
        assert forall|d: Seq<Seq<char>>| #[trigger] before.waiting.contains(d) implies next.waiting.contains(
        d) by {
            let k = before.waiting.index_of(d);
            assert(next.waiting[k] == d);
        }
        assert forall|x: int| 0 <= x < entries.len() && counts_here(#[trigger] entries[x]) implies next.found.contains_key(
        dir.push(opt_text(entries[x].name)->0)) by {
            if x < n {
                assert(entries[x] == shorter[x]);
                assert(counts_here(shorter[x]));
            }
        }
        assert forall|p: Seq<Seq<char>>| #[trigger] next.found.contains_key(p) implies {
            ||| scan.found.contains_key(p) && next.found[p] == scan.found[p]
            ||| entries_tell(dir, entries, p, next.found[p]) && (next.found[p].directory
                ==> next.waiting.contains(p))
        } by {
            if counts_here(last) && p == dir.push(opt_text(last.name)->0) {
            } else {
                assert(before.found.contains_key(p));
            }
        }
        assert forall|p: Seq<Seq<char>>| #[trigger] scan.found.contains_key(p) implies next.found.contains_key(
        p) by {
            assert(before.found.contains_key(p));
        }
    }
}

/// The local entries that are known in a stage.
pub open spec fn local_known(stage: StageView) -> Map<Seq<Seq<char>>, FingerprintView> {
    match stage {
        StageView::Scanning { local, remote, progressed } => local.found,
        StageView::Planning { local, remote, progressed } => local,
        _ => Map::empty(),
    }
}

/// Whether the entries that were read at turn `j` tell that `print` stands at `path`.
pub open spec fn read_at(
    course: SyncCourse,
    j: int,
    path: Seq<Seq<char>>,
    print: FingerprintView,
) -> bool {
    course.turns(j) && (course.asks[j] matches SyncAskView::ScanLocal(dir) && (
    course.answers[j] matches SyncAnswer::Entries(entries) && entries_tell(
        dir,
        entries@,
        path,
        print,
    )))
}

/// Whether the directory was read at turn `j`.
pub open spec fn is_read(course: SyncCourse, j: int, dir: Seq<Seq<char>>) -> bool {
    course.turns(j) && course.asks[j] == SyncAskView::ScanLocal(dir) && course.answers[j] is Entries
}

/// Whether the directory was read before turn `n`.
pub open spec fn read_before(course: SyncCourse, n: int, dir: Seq<Seq<char>>) -> bool {
    exists|j: int| j < n && #[trigger] is_read(course, j, dir)
}

spec fn is_to_be_read(stage: StageView, dir: Seq<Seq<char>>) -> bool {
    stage matches StageView::Scanning { local, remote, progressed } && (local.waiting.contains(dir)
        || local.current == Some(dir))
}

/// What the turns so far tell of the local entries that are known.
spec fn knows_local(course: SyncCourse, i: int) -> bool {
    let stage = course.stages[i];
    let known = local_known(stage);
    &&& stage matches StageView::Scanning { local, remote, progressed } ==> local.current is Some
        && course.asks[i] == SyncAskView::ScanLocal(local.current->0)
    &&& stage is Scanning || stage is Planning ==> is_to_be_read(stage, course.root) || read_before(
        course,
        i,
        course.root,
    )
    &&& forall|p: Seq<Seq<char>>| #[trigger]
        known.contains_key(p) ==> (exists|j: int| j < i && #[trigger] read_at(course, j, p, known[p]))
            && (known[p].directory ==> is_to_be_read(stage, p) || read_before(course, i, p))
}

proof fn lemma_later_read(
    course: SyncCourse,
    n: int,
    later: int,
    path: Seq<Seq<char>>,
    print: FingerprintView,
)
    requires
        n <= later,
    ensures
        (exists|j: int| j < n && #[trigger] read_at(course, j, path, print)) ==> (exists|j: int|
            j < later && #[trigger] read_at(course, j, path, print)),
        read_before(course, n, path) ==> read_before(course, later, path),
{
    if exists|j: int| j < n && #[trigger] read_at(course, j, path, print) {
        let j = choose|j: int| j < n && #[trigger] read_at(course, j, path, print);
        assert(j < later && read_at(course, j, path, print));
    }
    if read_before(course, n, path) {
        let j = choose|j: int| j < n && #[trigger] is_read(course, j, path);
        assert(j < later && is_read(course, j, path));
    }
}

/// What the entries that were read at turn `i` add to what is known.
spec fn entries_are_taken(course: SyncCourse, i: int) -> bool {
    let scan = course.stages[i]->Scanning_local;
    let entries = course.answers[i]->Entries_0@;
    let next = after_local_entries(scan, entries);
    takes_entries(scan, entries, next) && local_known(course.stages[i + 1]) == next.found
}

proof fn lemma_entries_know(course: SyncCourse, i: int)
    requires
        course.wf(),
        course.turns(i),
        knows_local(course, i),
        course.stages[i] is Scanning,
    ensures
        knows_local(course, i + 1),
        !(course.stages[i + 1] is Ended) ==> course.answers[i] is Entries && entries_are_taken(
            course,
            i,
        ),
{
    let scan = course.stages[i]->Scanning_local;
    let dir = scan.current->0;
    if let SyncAnswer::Entries(entries) = course.answers[i] {
        let next = after_local_entries(scan, entries@);
        if first_refused(entries@) is None && !(course.stages[i + 1] is Ended) {
            lemma_entries_are_taken(scan, entries@);
            assert(is_read(course, i, dir));
            let known = next.found;
            assert(local_known(course.stages[i + 1]) == known);
            assert forall|d: Seq<Seq<char>>| #[trigger] next.waiting.contains(d) implies is_to_be_read(
                course.stages[i + 1],
                d,
            ) by {
                let k = next.waiting.index_of(d);
                if k < next.waiting.len() - 1 {
                    assert(next.waiting.drop_last()[k] == d);
                }
            }
            assert forall|p: Seq<Seq<char>>| #[trigger] known.contains_key(p) implies (exists|j: int|
                j < i + 1 && #[trigger] read_at(course, j, p, known[p])) && (known[p].directory
                ==> is_to_be_read(course.stages[i + 1], p) || read_before(course, i + 1, p)) by {
                lemma_later_read(course, i, i + 1, p, known[p]);
                if scan.found.contains_key(p) && known[p] == scan.found[p] {
                    assert(local_known(course.stages[i]).contains_key(p));
                } else {
                    assert(read_at(course, i, p, known[p]));
                }
            }
            lemma_later_read(course, i, i + 1, course.root, arbitrary());
        }
    }
}

proof fn lemma_scan_begins(course: SyncCourse, i: int)
    requires
        course.wf(),
        course.turns(i),
        course.stages[i] is Reading || course.stages[i] is Transferring,
        knows(course, i),
    ensures
        course.stages[i + 1] is Scanning ==> knows_local(course, i + 1),
        !(course.stages[i + 1] is Planning),
{
    let turn = (course.stages[i + 1], course.asks[i + 1]);
    match course.stages[i] {
        StageView::Reading { scan, dir, children, progressed } => {
            if !(turn.0 is Ended) {
                let visits = choose|visits: Seq<Visit>|
                    turn == #[trigger] next_transfer(
                        course.drive,
                        scan,
                        dir,
                        visits,
                        0,
                        progressed,
                    );
                lemma_next_transfer_lists(course.drive, scan, dir, visits, 0, progressed);
            }
        },
        StageView::Transferring { scan, dir, visits, at, work, progressed } => {
            let visit = visits[at as int];
            let grown = match course.answers[i] {
                SyncAnswer::Created(file) => if work == Work::Creating {
                    with_created(scan, visit.path@, file@)
                } else {
                    scan
                },
                _ => scan,
            };
            lemma_next_transfer_lists(
                course.drive,
                grown,
                dir,
                visits,
                at + 1,
                progress(progressed, visit),
            );
        },
        _ => {},
    }
}

proof fn lemma_local_is_known(course: SyncCourse, i: int)
    requires
        course.wf(),
        0 <= i < course.stages.len(),
    ensures
        knows_local(course, i),
    decreases i,
{
    if i > 0 {
        lemma_local_is_known(course, i - 1);
        assert(course.turns(i - 1));
        lemma_courses_are_steady(course, i - 1);
        lemma_remote_is_known(course, i - 1);
        let turn = (course.stages[i], course.asks[i]);
        match course.stages[i - 1] {
            StageView::Listing { .. } => {},
            StageView::Reading { .. } => lemma_scan_begins(course, i - 1),
            StageView::Transferring { .. } => lemma_scan_begins(course, i - 1),
            StageView::Settling(s, wait) => {
                lemma_settling_keeps_plan(course.drive, s, wait, course.answers[i - 1], turn);
            },
            StageView::Planning { .. } => {
                lemma_planning_is_steady(
                    course.drive,
                    course.stages[i - 1],
                    course.answers[i - 1],
                    turn,
                );
                lemma_planning_plans(course, i - 1);
            },
            StageView::Scanning { .. } => lemma_entries_know(course, i - 1),
            StageView::Ended => lemma_end_is_final(course.drive, course.answers[i - 1], turn),
        }
    }
}

proof fn lemma_planning_plans(course: SyncCourse, i: int)
    requires
        course.wf(),
        course.turns(i),
        course.stages[i] is Planning,
    ensures
        course.stages[i + 1] is Settling || course.stages[i + 1] is Ended,
{
}

/// No local entry is invented: whatever is known locally was told by an entry of its directory; and
/// when all is known, every directory, and the root, was read.
pub proof fn lemma_local_tree_is_as_told(course: SyncCourse, i: int, path: Seq<Seq<char>>)
    requires
        course.wf(),
        0 <= i < course.stages.len(),
    ensures
        ({
            let known = local_known(course.stages[i]);
            &&& known.contains_key(path) ==> exists|j: int|
                j < i && #[trigger] read_at(course, j, path, known[path])
            &&& course.stages[i] is Planning ==> read_before(course, i, course.root) && (
            known.contains_key(path) && known[path].directory ==> read_before(course, i, path))
        }),
{
    lemma_local_is_known(course, i);
}

/// No local entry is missed: whatever was read in a directory, and is neither internal nor excluded,
/// is known from then on.
pub proof fn lemma_no_local_entry_is_missed(
    course: SyncCourse,
    j: int,
    i: int,
    dir: Seq<Seq<char>>,
    entries: Seq<LocalEntry>,
    x: int,
)
    requires
        course.wf(),
        course.turns(j),
        course.asks[j] == SyncAskView::ScanLocal(dir),
        course.answers[j] matches SyncAnswer::Entries(read) && read@ == entries,
        0 <= x < entries.len(),
        counts_here(entries[x]),
        j < i < course.stages.len(),
        course.stages[i] is Scanning || course.stages[i] is Planning,
    ensures
        local_known(course.stages[i]).contains_key(dir.push(opt_text(entries[x].name)->0)),
    decreases i,
{
    assert(course.turns(i - 1));
    lemma_local_is_known(course, i - 1);
    lemma_before_settling(course, i - 1);
    if i == j + 1 {
        lemma_scan_asks_are_scanning(course, j);
        lemma_entries_know(course, j);
    } else {
        lemma_scanning_comes_before(course, j, i - 1);
        lemma_no_local_entry_is_missed(course, j, i - 1, dir, entries, x);
        lemma_planning_has_ended_scanning(course, i - 1);
        lemma_entries_know(course, i - 1);
    }
}

proof fn lemma_planning_has_ended_scanning(course: SyncCourse, i: int)
    requires
        course.wf(),
        course.turns(i),
        course.stages[i + 1] is Scanning || course.stages[i + 1] is Planning,
        course.stages[i] is Scanning || course.stages[i] is Planning,
    ensures
        course.stages[i] is Scanning,
{
    if course.stages[i] is Planning {
        lemma_planning_plans(course, i);
    }
}

/// Once the local tree is read, nothing is listed any more.
proof fn lemma_scanning_comes_before(course: SyncCourse, j: int, i: int)
    requires
        course.wf(),
        course.turns(j),
        course.asks[j] is ScanLocal,
        j < i < course.stages.len(),
        !(course.stages[i] is Settling) && !(course.stages[i] is Ended),
    ensures
        course.stages[i] is Scanning || course.stages[i] is Planning,
    decreases i,
{
    assert(course.turns(i - 1));
    lemma_before_settling(course, i - 1);
    if i - 1 > j {
        lemma_scanning_comes_before(course, j, i - 1);
    } else {
        lemma_scan_asks_are_scanning(course, j);
    }
    if course.stages[i - 1] is Planning {
        lemma_planning_plans(course, i - 1);
    } else {
        lemma_remote_is_known(course, i - 1);
        lemma_scanning_knows(course, i - 1);
        lemma_scanning_stays(course, i - 1);
    }
}

proof fn lemma_scanning_stays(course: SyncCourse, i: int)
    requires
        course.wf(),
        course.turns(i),
        course.stages[i] is Scanning,
    ensures
        course.stages[i + 1] is Scanning || course.stages[i + 1] is Planning
            || course.stages[i + 1] is Ended,
{
}

proof fn lemma_scan_asks_are_scanning(course: SyncCourse, j: int)
    requires
        course.wf(),
        0 <= j < course.asks.len(),
        course.asks[j] is ScanLocal,
    ensures
        course.stages[j] is Scanning,
{
    if j > 0 {
        assert(course.turns(j - 1));
        lemma_courses_are_steady(course, j - 1);
        lemma_remote_is_known(course, j);
        lemma_transfer_is_under_way(course, j);
        let turn = (course.stages[j], course.asks[j]);
        if course.stages[j] is Ended {
            lemma_ended_asks_nothing(
                course.drive,
                course.stages[j - 1],
                course.answers[j - 1],
                turn,
            );
        }
        match course.stages[j - 1] {
            StageView::Listing { .. } => {},
            StageView::Settling(s, wait) => lemma_settling_asks_no_listing(course, j - 1),
            StageView::Planning { .. } => lemma_settling_asks_no_listing(course, j - 1),
            StageView::Scanning { .. } => {},
            StageView::Ended => {},
            _ => lemma_scan_turns(course, j - 1),
        }
    }
}

proof fn lemma_scan_turns(course: SyncCourse, i: int)
    requires
        course.wf(),
        course.turns(i),
        course.stages[i] is Reading || course.stages[i] is Transferring,
        course.asks[i + 1] is ScanLocal,
        !(course.stages[i + 1] is Ended),
        course.stages[i + 1] matches StageView::Transferring {
            scan,
            dir,
            visits,
            at,
            work,
            progressed,
        } ==> under_way(course, i + 1, visits[at as int]@, work),
    ensures
        course.stages[i + 1] is Scanning,
{
    let turn = (course.stages[i + 1], course.asks[i + 1]);
    match course.stages[i] {
        StageView::Reading { scan, dir, children, progressed } => {
            let visits = choose|visits: Seq<Visit>|
                turn == #[trigger] next_transfer(course.drive, scan, dir, visits, 0, progressed);
            lemma_next_transfer_lists(course.drive, scan, dir, visits, 0, progressed);
        },
        StageView::Transferring { scan, dir, visits, at, work, progressed } => {
            let visit = visits[at as int];
            let grown = match course.answers[i] {
                SyncAnswer::Created(file) => if work == Work::Creating {
                    with_created(scan, visit.path@, file@)
                } else {
                    scan
                },
                _ => scan,
            };
            lemma_next_transfer_lists(
                course.drive,
                grown,
                dir,
                visits,
                at + 1,
                progress(progressed, visit),
            );
        },
        _ => {},
    }
}

/// What a stage waits for is what it asked for last.
pub(crate) proof fn lemma_stages_ask(course: SyncCourse, i: int)
    requires
        course.wf(),
        0 <= i < course.stages.len(),
    ensures
        match course.stages[i] {
            StageView::Listing { .. } => course.asks[i] is ListRemote,
            StageView::Reading { .. } => course.asks[i] is ReadDirectory,
            StageView::Scanning { .. } => course.asks[i] is ScanLocal,
            StageView::Planning { .. } => course.asks[i] is Inspect,
            StageView::Ended => course.asks[i] is Finished || course.asks[i] is Failed,
            _ => true,
        },
{
    lemma_remote_is_known(course, i);
    lemma_local_is_known(course, i);
    if i > 0 {
        assert(course.turns(i - 1));
        lemma_courses_are_steady(course, i - 1);
        if course.stages[i] is Ended {
            lemma_ended_asks_nothing(
                course.drive,
                course.stages[i - 1],
                course.answers[i - 1],
                (course.stages[i], course.asks[i]),
            );
        }
        if course.stages[i] is Planning {
            lemma_phases_come_in_order(course, i - 1);
        }
    }
}

/// The local entries of a directory with which transfers are planned are exactly those that were read
/// in it, where none of them is refused.
pub proof fn lemma_local_directory_is_as_told(
    dir: Seq<Seq<char>>,
    entries: Seq<LocalEntry>,
    path: Seq<Seq<char>>,
)
    requires
        first_refused(entries) is None,
    ensures
        forall|x: int|
            0 <= x < entries.len() && counts_here(#[trigger] entries[x]) ==> all_found(
                Map::empty(),
                dir,
                entries,
            ).contains_key(dir.push(opt_text(entries[x].name)->0)),
        all_found(Map::empty(), dir, entries).contains_key(path) ==> entries_tell(
            dir,
            entries,
            path,
            all_found(Map::empty(), dir, entries)[path],
        ),
    decreases entries.len(),
{
    if entries.len() > 0 {
        let shorter = entries.drop_last();
        let n = shorter.len() as int;
        lemma_local_directory_is_as_told(dir, shorter, path);
        let last = entries.last();
        assert(entries[n] == last);
        let before = all_found(Map::empty(), dir, shorter);
        let found = all_found(Map::empty(), dir, entries);
        if counts_here(last) {
            let name = opt_text(last.name)->0;
            let print = scan_view(last.scanned)->Ok_0->0;
            let added = dir.push(name);
            assert(added.drop_last() =~= dir);
            assert(entry_tells(entries[n], added.last(), print));
            assert(entries_tell(dir, entries, added, print));
        }
        assert forall|x: int| 0 <= x < entries.len() && counts_here(#[trigger] entries[x]) implies found.contains_key(
        dir.push(opt_text(entries[x].name)->0)) by {
            if x < n {
                assert(entries[x] == shorter[x]);
                assert(counts_here(shorter[x]));
            }
        }
        if before.contains_key(path) && found[path] == before[path] {
            let x = choose|x: int|
                0 <= x < shorter.len() && entry_tells(
                    #[trigger] shorter[x],
                    path.last(),
                    before[path],
                );
            assert(entries[x] == shorter[x]);
        }
    }
}

/// A folder that is created while the remote tree is listed is part of it from then on, as the server
/// told it, so that it is never taken for missing.
pub proof fn lemma_created_folders_are_known(
    course: SyncCourse,
    j: int,
    i: int,
    path: Seq<Seq<char>>,
    file: FileView,
)
    requires
        course.wf(),
        created_at(course, j, path, file),
        j < i < course.stages.len(),
        !(course.stages[i] is Settling) && !(course.stages[i] is Ended),
    ensures
        ({
            let known = remote_known(course.stages[i]);
            &&& known.contains_key(path)
            &&& known[path] == file || exists|k: int|
                j < k < i && #[trigger] created_at(course, k, path, known[path])
        }),
    decreases i,
{
    assert(course.turns(i - 1));
    lemma_before_settling(course, i - 1);
    lemma_remote_is_known(course, i);
    if i == j + 1 {
        lemma_creation_is_taken(course, j, path, file);
    } else {
        lemma_created_folders_are_known(course, j, i - 1, path, file);
        let before = remote_known(course.stages[i - 1]);
        let known = remote_known(course.stages[i]);
        assert(before.contains_key(path));
        if known[path] == before[path] && before[path] != file {
            let k = choose|k: int|
                j < k < i - 1 && #[trigger] created_at(course, k, path, before[path]);
            assert(j < k < i && created_at(course, k, path, known[path]));
        } else if known[path] != before[path] {
            assert(created_at(course, i - 1, path, known[path]));
        }
    }
}

proof fn lemma_creation_is_taken(
    course: SyncCourse,
    j: int,
    path: Seq<Seq<char>>,
    file: FileView,
)
    requires
        course.wf(),
        created_at(course, j, path, file),
        !(course.stages[j] is Settling) && !(course.stages[j] is Ended),
        !(course.stages[j + 1] is Settling) && !(course.stages[j + 1] is Ended),
    ensures
        remote_known(course.stages[j + 1]).contains_key(path),
        remote_known(course.stages[j + 1])[path] == file,
{
    lemma_stages_ask(course, j);
    lemma_transfer_is_under_way(course, j);
    lemma_remote_is_known(course, j);
    if let StageView::Transferring { scan, dir, visits, at, work, progressed } = course.stages[j] {
        let visit = visits[at as int];
        assert(visit@.path == visit.path@);
        assert(work == Work::Creating && visit.path@ == path);
        let grown = with_created(scan, path, file);
        lemma_next_transfer_lists(
            course.drive,
            grown,
            dir,
            visits,
            at + 1,
            progress(progressed, visit),
        );
    }
}

/// A remote listing is trusted only as a whole: where an entry has a name that cannot be one of a
/// folder, or is synchronized and has a local path that is refused, the reconciliation stops.
pub proof fn lemma_refused_remote_entries_stop_it(course: SyncCourse, i: int, x: int)
    requires
        course.wf(),
        course.turns(i),
        course.asks[i] is ListRemote,
        course.answers[i] is Page,
        0 <= x < course.answers[i]->Page_0@.len(),
        ({
            let entry = course.answers[i]->Page_0@[x];
            !plain_name(entry.file@.name) || counts(entry) && entry.checked is Err
        }),
    ensures
        course.asks[i + 1] is Failed,
{
    lemma_list_asks_are_listing(course, i);
    lemma_page_is_refused(course.stages[i]->Listing_scan, course.answers[i]->Page_0@, x);
}

proof fn lemma_page_is_refused(scan: RemoteScanView, entries: Seq<RemoteEntry>, x: int)
    requires
        0 <= x < entries.len(),
        !plain_name(entries[x].file@.name) || counts(entries[x]) && entries[x].checked is Err,
    ensures
        page_outcome(scan, entries).1 is Some,
    decreases entries.len(),
{
    if x < entries.len() - 1 {
        lemma_page_is_refused(scan, entries.drop_last(), x);
    }
}

/// A local directory is trusted only as a whole: where the name of an entry cannot be read, or an
/// entry that is synchronized is refused, unreadable or gone, the reconciliation stops.
pub proof fn lemma_refused_local_entries_stop_it(course: SyncCourse, i: int, x: int)
    requires
        course.wf(),
        course.turns(i),
        course.asks[i] is ScanLocal,
        course.answers[i] is Entries,
        0 <= x < course.answers[i]->Entries_0@.len(),
        ({
            let entry = course.answers[i]->Entries_0@[x];
            entry.name is None || counts_here(entry) && (entry.checked is Err || !(scan_view(
                entry.scanned,
            ) matches Ok(Some(_))))
        }),
    ensures
        course.asks[i + 1] is Failed,
{
    lemma_scan_asks_are_scanning(course, i);
    lemma_entry_is_refused(course.answers[i]->Entries_0@, x);
}

proof fn lemma_entry_is_refused(entries: Seq<LocalEntry>, x: int)
    requires
        0 <= x < entries.len(),
        entries[x].name is None || counts_here(entries[x]) && (entries[x].checked is Err || !(
        scan_view(entries[x].scanned) matches Ok(Some(_)))),
    ensures
        first_refused(entries) is Some,
    decreases entries.len(),
{
    if x < entries.len() - 1 {
        lemma_entry_is_refused(entries.drop_last(), x);
    }
}

/// The local side of a directory whose remote listing is complete is trusted only as a whole, too:
/// where its path is refused, or an entry of it, the reconciliation stops.
pub proof fn lemma_refused_directories_stop_it(course: SyncCourse, i: int)
    requires
        course.wf(),
        course.turns(i),
        course.stages[i] is Reading,
        course.answers[i] is Directory,
    ensures
        course.asks[i] is ReadDirectory,
        ({
            let state = course.answers[i]->Directory_0;
            state.checked is Err || state.present && exists|x: int|
                0 <= x < state.entries@.len() && ((#[trigger] state.entries@[x]).name is None
                    || counts_here(state.entries@[x]) && (state.entries@[x].checked is Err || !(
                scan_view(state.entries@[x].scanned) matches Ok(Some(_)))))
        }) ==> course.asks[i + 1] is Failed,
{
    lemma_stages_ask(course, i);
    let state = course.answers[i]->Directory_0;
    if state.checked is Ok && state.present && exists|x: int|
        0 <= x < state.entries@.len() && ((#[trigger] state.entries@[x]).name is None
            || counts_here(state.entries@[x]) && (state.entries@[x].checked is Err || !(scan_view(
            state.entries@[x].scanned,
        ) matches Ok(Some(_))))) {
        let x = choose|x: int|
            0 <= x < state.entries@.len() && ((#[trigger] state.entries@[x]).name is None
                || counts_here(state.entries@[x]) && (state.entries@[x].checked is Err || !(
            scan_view(state.entries@[x].scanned) matches Ok(Some(_)))));
        lemma_entry_is_refused(state.entries@, x);
    }
}

} // verus!
