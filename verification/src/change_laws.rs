//! What holds of every course of a change, whatever the answers are.
use crate::change::{
    AnswerView, AskView, begun, ChangeCourseView, has_file, is_current, Stage, turn,
};
use crate::faults::{ApiFault, Failure, Fault, NAME_TAKEN};
use crate::mutations::{Change, ChangeRequestView, intent_text, JournalView, key_text};
use crate::outside::{HASH_LIMIT, sha256_hex};
use crate::path::plain_name;
use crate::records::{Disposal, FileView, Taken};
use crate::scope::{scope_fault, CrUriView};
use crate::text::text_or_empty;
use vstd::prelude::*;
use vstd::utf8::encode_utf8;

verus! {

/// Whether an ask changes something on the server.
pub open spec fn is_remote_change(ask: AskView) -> bool {
    match ask {
        AskView::Create(_, _, _, _) => true,
        AskView::Delete(_, _) => true,
        AskView::Move(_, _) => true,
        AskView::Rename(_, _) => true,
        AskView::Upload(_, _) => true,
        _ => false,
    }
}

/// Whether a change in this stage has checked the version of its file.
pub open spec fn version_checked(stage: Stage) -> bool {
    match stage {
        Stage::KeepingCreated => true,
        Stage::Listing => true,
        Stage::Deleting => true,
        Stage::FindingParent => true,
        Stage::FindingOldParent => true,
        Stage::Moving => true,
        Stage::KeepingMoved => true,
        Stage::Renaming => true,
        Stage::KeepingRenamed => true,
        Stage::Uploading => true,
        _ => false,
    }
}

/// What holds of a change under way:
/// - the file it is about to change is the version that may be changed;
/// - it creates only what the journal does not know yet, under a plain name;
/// - the journal is that of the request, and open until the end is kept;
/// - the end that is kept is the one that is answered.
pub open spec fn sound(m: ChangeCourseView) -> bool {
    &&& has_file(m)
    &&& version_checked(m.stage) ==> is_current(m)
    &&& m.stage == Stage::FindingFolder || m.stage == Stage::Creating ==> m.request.change
        == Change::Create && m.journal.last is None && plain_name(m.request.name)
    &&& m.stage == Stage::Resuming ==> m.request.change == Change::Create && m.journal.last is Some
    &&& m.stage == Stage::FindingTarget ==> m.request.change != Change::Create
    &&& m.stage != Stage::Preparing && m.stage != Stage::Hashing && m.stage != Stage::Ended
        ==> m.journal.intent == intent_text(m.request, m.content_hash)
    &&& m.request.change == Change::Delete ==> m.journal.last is None
    &&& m.stage == Stage::Listing || m.stage == Stage::Deleting || m.stage == Stage::KeepingGone
        || m.stage == Stage::KeepingDeleted ==> m.request.change == Change::Delete
    &&& m.stage == Stage::KeepingCreated || m.stage == Stage::FindingParent || m.stage
        == Stage::FindingOldParent || m.stage == Stage::Moving || m.stage == Stage::FindingMoved
        || m.stage == Stage::KeepingMoved || m.stage == Stage::Renaming || m.stage
        == Stage::KeepingRenamed || m.stage == Stage::Uploading || m.stage == Stage::FindingUploaded
        || m.stage == Stage::Rehashing || m.stage == Stage::Closing ==> m.request.change
        != Change::Delete
    &&& m.stage == Stage::KeepingGone || m.stage == Stage::KeepingDeleted || m.stage
        == Stage::Closing <==> m.journal.done && m.stage != Stage::Ended
    &&& m.stage == Stage::Closing ==> m.journal.last == m.file
}

/// A journal that a course of this library may have kept for a request.
pub open spec fn plausible(request: ChangeRequestView, answer: AnswerView) -> bool {
    answer matches AnswerView::Found(Ok(Some(journal))) ==> (request.change == Change::Delete
        ==> journal.last is None)
}

proof fn lemma_stays_sound(m: ChangeCourseView, answer: AnswerView)
    requires
        sound(m),
        plausible(m.request, answer),
    ensures
        sound(turn(m, answer).0),
{
}

/// A run of a change from its beginning on: the states it was in, what was asked for in each of
/// them, and what was answered.
pub struct ChangeRun {
    pub request: ChangeRequestView,
    pub states: Seq<ChangeCourseView>,
    pub asks: Seq<AskView>,
    pub answers: Seq<AnswerView>,
}

impl ChangeRun {
    /// Whether `i` is one of its turns.
    pub open spec fn turns(self, i: int) -> bool {
        0 <= i < self.answers.len()
    }

    /// The run begins as every change with this request does, and goes on as it is answered; a
    /// journal that is found is one that this library may have kept.
    pub open spec fn wf(self) -> bool {
        &&& self.states.len() == self.answers.len() + 1
        &&& self.asks.len() == self.answers.len() + 1
        &&& (self.states[0], self.asks[0]) == begun(self.request)
        &&& forall|i: int| #[trigger]
            self.turns(i) ==> (self.states[i + 1], self.asks[i + 1]) == turn(
                self.states[i],
                self.answers[i],
            ) && plausible(self.request, self.answers[i])
    }
}

/// Whether a change in this stage waits for its journal to be kept for the last time.
pub open spec fn keeps_end(stage: Stage) -> bool {
    stage == Stage::Closing || stage == Stage::KeepingGone || stage == Stage::KeepingDeleted
}

/// What a journal is found by again, as the name of its file has it.
pub open spec fn journal_key(request: ChangeRequestView, content_hash: Seq<char>) -> Seq<char> {
    sha256_hex(encode_utf8(key_text(request, intent_text(request, content_hash))))
}

/// Every run is sound at each of its states. From the first look for the journal on, the key is that
/// of the request and its content; and where the end is to be kept, it is this very journal that was
/// asked to be kept.
pub proof fn lemma_runs_are_sound(run: ChangeRun, i: int)
    requires
        run.wf(),
        0 <= i < run.states.len(),
    ensures
        sound(run.states[i]),
        run.states[i].request == run.request,
        run.states[i].stage != Stage::Preparing && run.states[i].stage != Stage::Hashing
            && run.states[i].stage != Stage::Ended ==> run.states[i].key == journal_key(
            run.request,
            run.states[i].content_hash,
        ),
        keeps_end(run.states[i].stage) ==> run.asks[i] == AskView::Save(
            run.states[i].key,
            run.states[i].journal,
        ),
    decreases i,
{
    if i > 0 {
        lemma_runs_are_sound(run, i - 1);
        assert(run.turns(i - 1));
        lemma_stays_sound(run.states[i - 1], run.answers[i - 1]);
    }
}

/// Nothing on the server is deleted, moved, renamed or overwritten but the very version that the
/// extension knows, or that the last change of this request left; an upload names the version that
/// it replaces, every deletion is soft, and a creation is refused where the name is taken.
pub proof fn lemma_only_the_known_version_is_changed(run: ChangeRun, i: int)
    requires
        run.wf(),
        run.turns(i),
    ensures
        ({
            let n = run.states[i + 1];
            match run.asks[i + 1] {
                AskView::Delete(uri, disposal) => is_current(n) && uri == n.file->0.path && disposal
                    == Disposal::Soft,
                AskView::Create(_, name, _, taken) => plain_name(name) && taken == Taken::Refuse,
                AskView::Move(uri, _) => is_current(n) && uri == n.file->0.path,
                AskView::Rename(uri, name) => is_current(n) && uri == n.file->0.path && plain_name(
                    name,
                ),
                AskView::Upload(uri, version) => is_current(n) && uri == n.file->0.path && version
                    == text_or_empty(n.file->0.primary_entity) && !n.file->0.is_folder,
                _ => true,
            }
        }),
{
    lemma_runs_are_sound(run, i);
    lemma_runs_are_sound(run, i + 1);
}

/// A file that is another version than the known one is left alone: the request is answered with
/// a version conflict.
pub proof fn lemma_another_version_is_a_conflict(
    m: ChangeCourseView,
    file: FileView,
    uri: CrUriView,
)
    requires
        scope_fault(m.request.root, uri) is None,
        m.stage == Stage::FindingTarget || (m.stage == Stage::Resuming && m.journal.last is Some),
        m.request.change == Change::Create ==> m.stage == Stage::Resuming,
        !is_current(ChangeCourseView { file: Some(file), ..m }),
    ensures
        turn(m, AnswerView::Item(Ok((file, uri)))).1 == AskView::Fail(
            Fault::Failure(Failure("version_conflict")),
        ),
{
}

/// A file out of the scope of the drive is left alone: the change fails, and nothing more is asked
/// of the server.
pub proof fn lemma_nothing_out_of_scope_is_changed(
    m: ChangeCourseView,
    file: FileView,
    uri: CrUriView,
)
    requires
        scope_fault(m.request.root, uri) is Some,
    ensures
        turn(m, AnswerView::Item(Ok((file, uri)))).1 is Fail,
        turn(m, AnswerView::Item(Ok((file, uri)))).0.stage == Stage::Ended,
{
}

/// Whether the answer at turn `j` is a file at the address `path` that was looked up in the scope of
/// the drive.
pub open spec fn found_at(run: ChangeRun, j: int, path: Seq<char>) -> bool {
    run.turns(j) && (run.answers[j] matches AnswerView::Item(Ok((file, uri))) && scope_fault(
        run.request.root,
        uri,
    ) is None && file.path == path)
}

/// Whether something at the address `path` was looked up in the scope of the drive before turn `n`.
pub open spec fn was_found(run: ChangeRun, n: int, path: Seq<char>) -> bool {
    exists|j: int| j < n && #[trigger] found_at(run, j, path)
}

/// Whether the answer at turn `j` is the file at the address `path` that a creation or a renaming of
/// this run has left.
pub open spec fn made_at(run: ChangeRun, j: int, path: Seq<char>) -> bool {
    run.turns(j) && (run.asks[j] is Create || run.asks[j] is Rename) && (
    run.answers[j] matches AnswerView::File(Ok(file)) && file.path == path)
}

/// Whether a creation or a renaming of this run has left something at the address `path` before turn
/// `n`.
pub open spec fn was_made(run: ChangeRun, n: int, path: Seq<char>) -> bool {
    exists|j: int| j < n && #[trigger] made_at(run, j, path)
}

/// Where the file and the folder come from that a run goes on with.
spec fn traced(run: ChangeRun, i: int) -> bool {
    let m = run.states[i];
    &&& m.stage == Stage::Creating ==> run.asks[i] is Create
    &&& m.stage == Stage::Renaming ==> run.asks[i] is Rename
    &&& m.stage == Stage::Listing || m.stage == Stage::FindingParent || m.stage
        == Stage::FindingOldParent || m.stage == Stage::KeepingMoved ==> was_found(
        run,
        i,
        m.file->0.path,
    )
    &&& m.stage == Stage::FindingOldParent ==> was_found(run, i, m.parent)
    &&& m.stage == Stage::KeepingCreated ==> m.request.change == Change::Create
    &&& m.stage == Stage::KeepingCreated || m.stage == Stage::KeepingRenamed ==> was_made(
        run,
        i,
        m.file->0.path,
    )
}

proof fn lemma_later(run: ChangeRun, n: int, path: Seq<char>)
    ensures
        was_found(run, n, path) ==> was_found(run, n + 1, path),
        was_made(run, n, path) ==> was_made(run, n + 1, path),
{
    if was_found(run, n, path) {
        let j = choose|j: int| j < n && #[trigger] found_at(run, j, path);
        assert(j < n + 1 && found_at(run, j, path));
    }
    if was_made(run, n, path) {
        let j = choose|j: int| j < n && #[trigger] made_at(run, j, path);
        assert(j < n + 1 && made_at(run, j, path));
    }
}

proof fn lemma_answer_is_traced(run: ChangeRun, i: int)
    requires
        run.wf(),
        run.turns(i),
        traced(run, i),
    ensures
        ({
            let m = run.states[i];
            &&& run.answers[i] matches AnswerView::Item(Ok((file, uri))) ==> scope_fault(
                run.request.root,
                uri,
            ) is None ==> was_found(run, i + 1, file.path)
            &&& run.answers[i] matches AnswerView::File(Ok(file)) ==> (m.stage == Stage::Creating
                || m.stage == Stage::Renaming ==> was_made(run, i + 1, file.path))
            &&& m.file is Some ==> {
                &&& was_found(run, i, m.file->0.path) ==> was_found(run, i + 1, m.file->0.path)
                &&& was_made(run, i, m.file->0.path) ==> was_made(run, i + 1, m.file->0.path)
            }
            &&& was_found(run, i, m.parent) ==> was_found(run, i + 1, m.parent)
        }),
{
    let m = run.states[i];
    if let AnswerView::Item(Ok((file, uri))) = run.answers[i] {
        if scope_fault(run.request.root, uri) is None {
            assert(found_at(run, i, file.path));
        }
    }
    if let AnswerView::File(Ok(file)) = run.answers[i] {
        if m.stage == Stage::Creating || m.stage == Stage::Renaming {
            assert(made_at(run, i, file.path));
        }
    }
    if m.file is Some {
        lemma_later(run, i, m.file->0.path);
    }
    lemma_later(run, i, m.parent);
}

proof fn lemma_runs_are_traced(run: ChangeRun, i: int)
    requires
        run.wf(),
        0 <= i < run.states.len(),
    ensures
        traced(run, i),
    decreases i,
{
    if i > 0 {
        lemma_runs_are_traced(run, i - 1);
        lemma_runs_are_sound(run, i - 1);
        assert(run.turns(i - 1));
        lemma_answer_is_traced(run, i - 1);
    }
}

/// Whatever is deleted, moved or renamed was looked up in the scope of the drive before, and so was
/// the folder into which something is moved or in which something is created; content is uploaded
/// only to what was looked up so, or to what a creation or a renaming of the same run has left.
pub proof fn lemma_changes_stay_in_scope(run: ChangeRun, i: int)
    requires
        run.wf(),
        run.turns(i),
    ensures
        match run.asks[i + 1] {
            AskView::Delete(uri, _) => was_found(run, i + 1, uri),
            AskView::Move(uri, folder) => was_found(run, i + 1, uri) && was_found(
                run,
                i + 1,
                folder,
            ),
            AskView::Rename(uri, _) => was_found(run, i + 1, uri),
            AskView::Create(folder, _, _, _) => was_found(run, i + 1, folder),
            AskView::Upload(uri, _) => was_found(run, i + 1, uri) || was_made(run, i + 1, uri),
            _ => true,
        },
{
    lemma_runs_are_traced(run, i);
    lemma_runs_are_sound(run, i);
    lemma_answer_is_traced(run, i);
}

/// A folder is deleted only right after a listing of it came back empty.
pub proof fn lemma_only_empty_folders_are_deleted(run: ChangeRun, i: int)
    requires
        run.wf(),
        run.turns(i),
        run.asks[i + 1] is Delete,
        run.states[i + 1].file->0.is_folder,
    ensures
        run.states[i].stage == Stage::Listing,
        run.answers[i] == AnswerView::Entries(Ok((0usize, false))),
{
    lemma_runs_are_sound(run, i);
}

/// The journal is kept before anything on the server is changed.
pub proof fn lemma_journal_comes_first(m: ChangeCourseView, answer: AnswerView)
    ensures
        is_remote_change(turn(m, answer).1) ==> m.stage != Stage::Preparing && m.stage
            != Stage::Hashing && m.stage != Stage::Loading,
        m.stage == Stage::Preparing || m.stage == Stage::Hashing || m.stage == Stage::Loading ==> {
            let (n, ask) = turn(m, answer);
            ||| n.stage == Stage::Hashing
            ||| n.stage == Stage::Loading
            ||| n.stage == Stage::Ended
            ||| n.stage == Stage::Opening && ask == AskView::Save(n.key, n.journal)
        },
{
}

/// A remote change that succeeded is kept in the journal before the next one is asked for: a
/// creation, a renaming and a deletion at once, a move and an upload as soon as the file was
/// looked at again.
pub proof fn lemma_every_change_is_kept(
    m: ChangeCourseView,
    answer: AnswerView,
    file: FileView,
    uri: CrUriView,
)
    ensures
        m.stage == Stage::Creating || m.stage == Stage::Deleting || m.stage == Stage::Moving
            || m.stage == Stage::FindingMoved || m.stage == Stage::Renaming || m.stage
            == Stage::Uploading || m.stage == Stage::FindingUploaded || m.stage == Stage::Rehashing
            ==> !is_remote_change(turn(m, answer).1),
        m.stage == Stage::Creating || m.stage == Stage::Renaming ==> turn(
            m,
            AnswerView::File(Ok(file)),
        ).1 == AskView::Save(m.key, JournalView { last: Some(file), ..m.journal }),
        m.stage == Stage::FindingMoved && scope_fault(m.request.root, uri) is None ==> turn(
            m,
            AnswerView::Item(Ok((file, uri))),
        ).1 == AskView::Save(m.key, JournalView { last: Some(file), ..m.journal }),
        m.stage == Stage::Deleting ==> turn(m, AnswerView::Done(Ok(()))).1 == AskView::Save(
            m.key,
            JournalView { last: None, done: true, ..m.journal },
        ),
        m.stage == Stage::Rehashing ==> turn(m, AnswerView::Text(Ok(m.content_hash))).1
            == AskView::Save(m.key, JournalView { last: m.file, done: true, ..m.journal }),
{
}

/// Nothing is created twice: once the journal knows the new file, no turn of the request asks for a
/// creation again, and the journal goes on knowing it.
pub proof fn lemma_creation_is_never_repeated(run: ChangeRun, i: int)
    requires
        run.wf(),
        run.turns(i),
        run.request.change == Change::Create,
        run.states[i].journal.last is Some,
        run.states[i].stage != Stage::Preparing && run.states[i].stage != Stage::Hashing
            && run.states[i].stage != Stage::Loading,
    ensures
        !(run.asks[i + 1] is Create),
        run.states[i + 1].journal.last is Some,
{
    lemma_runs_are_sound(run, i);
}

/// A file that already has the name is never adopted: the request ends as a collision, and the
/// journal learns of no file.
pub proof fn lemma_taken_name_is_a_collision(m: ChangeCourseView)
    requires
        m.stage == Stage::Creating,
    ensures
        ({
            let (n, ask) = turn(m, AnswerView::File(Err(Fault::Api(ApiFault::Code(NAME_TAKEN)))));
            &&& ask == AskView::Fail(Fault::Failure(Failure("collision")))
            &&& n.journal == m.journal
            &&& n.file == m.file
        }),
{
}

/// A journal of another request under the same key is refused before anything is changed.
pub proof fn lemma_another_request_is_a_conflict(m: ChangeCourseView, journal: JournalView)
    requires
        m.stage == Stage::Loading,
        journal.intent != m.journal.intent,
    ensures
        turn(m, AnswerView::Found(Ok(Some(journal)))).1 == AskView::Fail(
            Fault::Failure(Failure("version_conflict")),
        ),
{
}

/// The journal that is kept under its key when a run has replied: the one that was found, where it
/// was at its end already, or else the one that was kept last.
pub open spec fn journal_left(run: ChangeRun) -> Option<JournalView> {
    match run.answers.last() {
        AnswerView::Found(Ok(found)) => found,
        _ => match run.asks[run.answers.len() - 1] {
            AskView::Save(_, journal) => Some(journal),
            _ => None,
        },
    }
}

/// Whether two requests are the same but for the file in which the content is staged.
pub open spec fn same_but_staging(a: ChangeRequestView, b: ChangeRequestView) -> bool {
    b == (ChangeRequestView { local_path: b.local_path, ..a }) && (a.local_path.len() == 0
        <==> b.local_path.len() == 0)
}

/// A change that was carried out is not carried out again: a second run of the same request, from a
/// new staging file with the same content, finds the journal that the first run left under the same
/// key, gives the same answer, and asks nothing of the server on the way.
pub proof fn lemma_retry_gets_the_same_answer(first: ChangeRun, second: ChangeRun)
    requires
        first.wf(),
        first.answers.len() > 0,
        first.asks.last() is Reply,
        second.wf(),
        same_but_staging(first.request, second.request),
        second.answers == if second.request.local_path.len() == 0 {
            seq![AnswerView::Done(Ok(())), AnswerView::Found(Ok(journal_left(first)))]
        } else {
            seq![
                AnswerView::Done(Ok(())),
                AnswerView::Text(Ok(first.states[first.answers.len() - 1].content_hash)),
                AnswerView::Found(Ok(journal_left(first))),
            ]
        },
    ensures
        journal_left(first) is Some && journal_left(first)->0.done,
        second.asks == if second.request.local_path.len() == 0 {
            seq![
                AskView::Prepare,
                AskView::Load(first.states[first.answers.len() - 1].key),
                first.asks.last(),
            ]
        } else {
            seq![
                AskView::Prepare,
                AskView::Digest,
                AskView::Load(first.states[first.answers.len() - 1].key),
                first.asks.last(),
            ]
        },
{
    let n = first.answers.len() - 1;
    lemma_runs_are_sound(first, n);
    assert(first.turns(n));
    let m = first.states[n];
    assert(m.stage == Stage::Loading || keeps_end(m.stage));
    lemma_run_has_begun(first, n);
    assert(second.turns(0));
    assert(second.turns(1));
    if second.request.local_path.len() > 0 {
        assert(second.turns(2));
    }
    assert(second.asks =~= if second.request.local_path.len() == 0 {
        seq![AskView::Prepare, AskView::Load(m.key), first.asks.last()]
    } else {
        seq![AskView::Prepare, AskView::Digest, AskView::Load(m.key), first.asks.last()]
    });
}

/// A run that is not over has a root in its own scope and a place for its journals, its key could be
/// computed, and without staged content its digest is empty.
proof fn lemma_run_has_begun(run: ChangeRun, i: int)
    requires
        run.wf(),
        0 <= i < run.states.len(),
        run.states[i].stage != Stage::Ended,
    ensures
        begun(run.request).0.stage == Stage::Preparing,
        run.request.local_path.len() == 0 ==> run.states[i].stage != Stage::Hashing
            && run.states[i].content_hash == Seq::<char>::empty(),
        run.states[i].stage != Stage::Preparing && run.states[i].stage != Stage::Hashing ==> !(
        run.request.change == Change::Create && run.request.request_id.len() == 0) && encode_utf8(
            key_text(run.request, intent_text(run.request, run.states[i].content_hash)),
        ).len() <= HASH_LIMIT,
    decreases i,
{
    if i > 0 {
        assert(run.turns(i - 1));
        if run.states[i - 1].stage == Stage::Ended {
            lemma_end_is_final(run.states[i - 1], run.answers[i - 1]);
        } else {
            lemma_run_has_begun(run, i - 1);
            lemma_runs_are_sound(run, i - 1);
        }
    }
}

/// Nothing follows the end of a course.
pub proof fn lemma_end_is_final(m: ChangeCourseView, answer: AnswerView)
    requires
        m.stage == Stage::Ended,
    ensures
        turn(m, answer).0.stage == Stage::Ended,
        turn(m, answer).1 is Fail,
{
}

/// The root of a drive is never changed: a request to modify or delete it touches nothing on the
/// server, and does not even look for it.
pub proof fn lemma_root_is_never_changed(run: ChangeRun, i: int)
    requires
        run.wf(),
        0 <= i < run.asks.len(),
        run.request.change != Change::Create,
        run.request.id == "root"@,
    ensures
        match run.asks[i] {
            AskView::Prepare | AskView::Digest | AskView::Load(_) | AskView::Save(_, _) => true,
            AskView::Reply(_) | AskView::Fail(_) => true,
            _ => false,
        },
{
    lemma_root_is_never_looked_for(run, i);
}

proof fn lemma_root_is_never_looked_for(run: ChangeRun, i: int)
    requires
        run.wf(),
        0 <= i < run.asks.len(),
        run.request.change != Change::Create,
        run.request.id == "root"@,
    ensures
        run.states[i].request == run.request,
        match run.asks[i] {
            AskView::Prepare | AskView::Digest | AskView::Load(_) | AskView::Save(_, _) => true,
            AskView::Reply(_) | AskView::Fail(_) => true,
            _ => false,
        },
        match run.states[i].stage {
            Stage::Preparing | Stage::Hashing | Stage::Loading | Stage::Opening | Stage::Ended => true,
            _ => false,
        },
    decreases i,
{
    if i > 0 {
        lemma_root_is_never_looked_for(run, i - 1);
        assert(run.turns(i - 1));
    }
}

/// A file is created only in what the server told to be a folder, as answer to the question for the
/// folder that the request names, and under the name and of the kind that the request asks for.
pub proof fn lemma_creations_go_into_folders(
    run: ChangeRun,
    i: int,
    uri: Seq<char>,
    name: Seq<char>,
    directory: bool,
    taken: Taken,
)
    requires
        run.wf(),
        run.turns(i),
        run.asks[i + 1] == AskView::Create(uri, name, directory, taken),
    ensures
        run.request.change == Change::Create && run.asks[i] == AskView::Item(run.request.parent),
        run.answers[i] matches AnswerView::Item(Ok((folder, _))) && folder.is_folder && folder.path
            == uri,
        name == run.request.name && directory == run.request.directory,
{
    lemma_runs_are_sound(run, i);
    lemma_runs_are_sound(run, i + 1);
    if i > 0 {
        lemma_runs_are_sound(run, i - 1);
        assert(run.turns(i - 1));
    }
}

/// A creation that has no identifier to be known by again is refused before a journal is looked for.
pub proof fn lemma_creations_need_an_identifier(run: ChangeRun, i: int)
    requires
        run.wf(),
        0 <= i < run.asks.len(),
        run.request.change == Change::Create,
        run.request.request_id.len() == 0,
    ensures
        run.asks[i] is Prepare || run.asks[i] is Digest || run.asks[i] is Fail,
{
    lemma_nothing_is_loaded(run, i);
}

proof fn lemma_nothing_is_loaded(run: ChangeRun, i: int)
    requires
        run.wf(),
        0 <= i < run.asks.len(),
        run.request.change == Change::Create,
        run.request.request_id.len() == 0,
    ensures
        run.states[i].request == run.request,
        run.asks[i] is Prepare || run.asks[i] is Digest || run.asks[i] is Fail,
        match run.states[i].stage {
            Stage::Preparing | Stage::Hashing | Stage::Ended => true,
            _ => false,
        },
    decreases i,
{
    if i > 0 {
        lemma_nothing_is_loaded(run, i - 1);
        assert(run.turns(i - 1));
    }
}

} // verus!
