//! What a change has done when it replies, told by what it asked for and what it was answered, and
//! for which reasons it fails.
use crate::change::{AnswerView, AskView, ChangeCourseView, filling, is_current, naming, Stage};
use crate::change_laws::{
    ChangeRun, is_remote_change, journal_key, lemma_end_is_final, lemma_runs_are_sound, sound,
};
use crate::faults::{ApiFault, fault_kind, Failure, Fault, NAME_TAKEN};
use crate::mutations::{Change, intent_text, key_text, metadata_text};
use crate::outside::HASH_LIMIT;
use crate::path::plain_name;
use crate::provider::scope_told;
use crate::records::{Disposal, FileView, Taken};
use crate::scope::{root_id, scope_fault};
use crate::text::{text_or_empty, without_trailing_slashes};
use vstd::prelude::*;
use vstd::utf8::encode_utf8;

verus! {

/// Whether turn `j` asked for this, and it was done.
pub open spec fn did(run: ChangeRun, j: int, ask: AskView) -> bool {
    run.turns(j) && run.asks[j] == ask && run.answers[j] matches AnswerView::Done(Ok(_))
}

/// Whether turn `j` looked for the file with this identifier, and `file` was found in the scope of
/// the drive.
pub open spec fn looked_up(run: ChangeRun, j: int, id: Seq<char>, file: FileView) -> bool {
    run.turns(j) && run.asks[j] == AskView::Item(id) && (run.answers[j] matches AnswerView::Item(
        Ok((found, uri)),
    ) && found == file && scope_fault(run.request.root, uri) is None)
}

/// Whether turn `j` changed the file on the server, which is `file` since.
pub open spec fn made(run: ChangeRun, j: int, ask: AskView, file: FileView) -> bool {
    run.turns(j) && run.asks[j] == ask && run.answers[j] == AnswerView::File(Ok(file))
}

/// The turn at which a run looks for its journal: staged content is read before.
pub open spec fn load_turn(run: ChangeRun) -> int {
    if run.request.local_path.len() == 0 {
        1
    } else {
        2
    }
}

/// What the journal told of the file when the run began.
pub open spec fn known_before(run: ChangeRun) -> Option<FileView> {
    match run.answers[load_turn(run)] {
        AnswerView::Found(Ok(Some(journal))) => journal.last,
        _ => None,
    }
}

/// The identifier of the file that a request is about, where it is there when the run begins.
pub open spec fn target_id(run: ChangeRun) -> Seq<char> {
    if run.request.change == Change::Create {
        known_before(run)->0.id
    } else {
        run.request.id
    }
}

/// Whether turn `j` told that the file of the request is `file`: it was looked for, created or
/// renamed.
pub open spec fn tells(run: ChangeRun, j: int, file: FileView) -> bool {
    ||| (run.request.change == Change::Create ==> known_before(run) is Some) && looked_up(
        run,
        j,
        target_id(run),
        file,
    )
    ||| creates(run, j, file)
    ||| renames(run, j, file)
}

/// Whether turn `j` created `file` as the request has it, in the folder that it names, which was
/// looked up just before.
pub open spec fn creates(run: ChangeRun, j: int, file: FileView) -> bool {
    run.request.change == Change::Create && known_before(run) is None && exists|folder: FileView|
        folder.is_folder && #[trigger] looked_up(run, j - 1, run.request.parent, folder) && made(
            run,
            j,
            AskView::Create(
                folder.path,
                run.request.name,
                run.request.directory,
                Taken::Refuse,
            ),
            file,
        )
}

/// Whether turn `j` renamed the file as the request has it.
pub open spec fn renames(run: ChangeRun, j: int, file: FileView) -> bool {
    run.request.change == Change::Modify && exists|path: Seq<char>| #[trigger]
        made(run, j, AskView::Rename(path, run.request.name), file)
}

/// Whether the run changed nothing on the server after turn `j` and before turn `n`.
pub open spec fn quiet(run: ChangeRun, j: int, n: int) -> bool {
    forall|k: int| j < k < n ==> !is_remote_change(#[trigger] run.asks[k])
}

/// Whether the file of the request was `file` when it was seen last before turn `n`, at turn `j`.
pub open spec fn at_hand(run: ChangeRun, j: int, n: int, file: FileView) -> bool {
    j < n && tells(run, j, file) && quiet(run, j, n)
}

/// Whether the file that turn `j` told of has the name that is asked for, or was given it there.
pub open spec fn is_named(run: ChangeRun, j: int, file: FileView) -> bool {
    run.request.change == Change::Modify && run.request.name.len() > 0 ==> file.name
        == run.request.name || renames(run, j, file)
}

/// Whether turn `j` asked for this, and was told the text.
pub open spec fn told_text(run: ChangeRun, j: int, ask: AskView, text: Seq<char>) -> bool {
    run.turns(j) && run.asks[j] == ask && run.answers[j] == AnswerView::Text(
        Ok::<Seq<char>, Fault>(text),
    )
}

/// Whether the folder that is asked for was looked up at turn `k`, the folder of the file at the
/// turn after, and the file moved at the turn after that, unless both are the same.
pub open spec fn placed_at(run: ChangeRun, k: int, n: int) -> bool {
    exists|file: FileView, folder: FileView, old: Seq<char>|
        {
            &&& looked_up(run, k - 1, run.request.id, file)
            &&& #[trigger] looked_up(run, k, run.request.parent, folder)
            &&& #[trigger] told_text(run, k + 1, AskView::ParentOf(file.path), old)
            &&& k + 1 < n
            &&& without_trailing_slashes(old) == without_trailing_slashes(folder.path) || k + 2 < n
                && did(run, k + 2, AskView::Move(file.path, folder.path))
        }
}

/// Whether the file is in the folder that is asked for before turn `n`.
pub open spec fn is_placed(run: ChangeRun, n: int) -> bool {
    run.request.change == Change::Modify && run.request.parent.len() > 0 ==> exists|k: int| #[trigger]
        placed_at(run, k, n)
}

/// Whether, before turn `n`, the file of the request is there, in its folder and under its name,
/// and is `file`.
pub open spec fn is_ready(run: ChangeRun, n: int, file: FileView) -> bool {
    is_placed(run, n) && exists|j: int| #[trigger] at_hand(run, j, n, file) && is_named(run, j, file)
}

/// Whether the staged content was uploaded to the file of the request in the three turns before
/// turn `n`: in place of the version that was there, the file was `last` then, and the content had
/// the digest that it had at the beginning.
pub open spec fn is_uploaded(run: ChangeRun, n: int, last: FileView) -> bool {
    exists|file: FileView| #[trigger]
        is_ready(run, n - 3, file) && !file.is_folder && did(
            run,
            n - 3,
            AskView::Upload(file.path, text_or_empty(file.primary_entity)),
        ) && looked_up(run, n - 2, file.id, last) && run.turns(n - 1) && run.asks[n - 1]
            == AskView::Digest && (run.answers[n - 1] matches AnswerView::Text(Ok(hash))
            && run.answers[1] == AnswerView::Text(Ok::<Seq<char>, Fault>(hash)))
}

/// Whether the file of a deletion was not found at turn `j`.
pub open spec fn was_gone(run: ChangeRun, j: int) -> bool {
    run.turns(j) && run.asks[j] == AskView::Item(run.request.id) && (
    run.answers[j] matches AnswerView::Item(Err(fault)) && fault_kind(fault) == "not_found"@)
}

/// Whether the file of a deletion was deleted at turn `j`, after it was looked up and, where it is a
/// folder, found empty.
pub open spec fn was_deleted(run: ChangeRun, j: int) -> bool {
    exists|file: FileView| {
        &&& #[trigger] did(run, j, AskView::Delete(file.path, Disposal::Soft))
        &&& if file.is_folder {
            looked_up(run, j - 2, run.request.id, file) && run.turns(j - 1) && run.asks[j - 1]
                == AskView::List(file.path) && run.answers[j - 1] == AnswerView::Entries(
                Ok((0usize, false)),
            )
        } else {
            looked_up(run, j - 1, run.request.id, file)
        }
    }
}

/// Whether a finished journal of the request was found at turn `i`, and answers it.
pub open spec fn answers_again(run: ChangeRun, i: int) -> bool {
    run.asks[i] is Load && (run.answers[i] matches AnswerView::Found(Ok(Some(journal)))
        && journal.done && run.asks[i + 1] == AskView::Reply(journal.last))
}

/// What the turns so far tell of the state of a run.
spec fn accounts(run: ChangeRun, i: int) -> bool {
    let m = run.states[i];
    let ask = run.asks[i];
    let l = load_turn(run);
    &&& m.stage == Stage::Preparing ==> i == 0 && ask == AskView::Prepare && m.content_hash
        == Seq::<char>::empty()
    &&& m.stage == Stage::Hashing ==> i == 1 && l == 2 && ask == AskView::Digest
    &&& l == 1 && m.stage != Stage::Ended ==> m.content_hash == Seq::<char>::empty()
    &&& m.stage != Stage::Preparing && m.stage != Stage::Hashing && m.stage != Stage::Ended ==> i
        >= l && (l == 2 ==> run.asks[1] == AskView::Digest && run.answers[1] == AnswerView::Text(
        Ok::<Seq<char>, Fault>(m.content_hash),
    ))
    &&& m.stage == Stage::Loading ==> i == l && ask is Load && m.journal.last is None
    &&& m.stage == Stage::Opening ==> i == l + 1 && ask is Save && m.journal.last == known_before(
        run,
    )
    &&& m.stage == Stage::Resuming ==> i == l + 2 && m.journal.last == known_before(run)
        && known_before(run) is Some && ask == AskView::Item(target_id(run))
    &&& m.stage == Stage::FindingFolder ==> i == l + 2 && known_before(run) is None && ask
        == AskView::Item(run.request.parent)
    &&& m.stage == Stage::FindingTarget ==> i == l + 2 && ask == AskView::Item(run.request.id)
}

proof fn lemma_accounts(run: ChangeRun, i: int)
    requires
        run.wf(),
        0 <= i < run.states.len(),
    ensures
        accounts(run, i),
    decreases i,
{
    if i > 0 {
        lemma_accounts(run, i - 1);
        lemma_runs_are_sound(run, i - 1);
        assert(run.turns(i - 1));
    }
}

/// What the turns so far tell of the file of a run.
spec fn accounts_for_file(run: ChangeRun, i: int) -> bool {
    let m = run.states[i];
    let ask = run.asks[i];
    let file = m.file->0;
    let id = run.request.id;
    match m.stage {
        Stage::Creating => known_before(run) is None && exists|folder: FileView|
            folder.is_folder && #[trigger] looked_up(run, i - 1, run.request.parent, folder) && ask
                == AskView::Create(
                folder.path,
                run.request.name,
                run.request.directory,
                Taken::Refuse,
            ),
        Stage::KeepingCreated => ask is Save && creates(run, i - 1, file),
        Stage::KeepingGone => ask is Save && was_gone(run, i - 1),
        Stage::Listing => looked_up(run, i - 1, id, file) && file.is_folder && ask
            == AskView::List(file.path),
        Stage::Deleting => ask == AskView::Delete(file.path, Disposal::Soft) && if file.is_folder {
            looked_up(run, i - 2, id, file) && run.asks[i - 1] == AskView::List(file.path)
                && run.answers[i - 1] == AnswerView::Entries(Ok((0usize, false)))
        } else {
            looked_up(run, i - 1, id, file)
        },
        Stage::KeepingDeleted => ask is Save && was_deleted(run, i - 1),
        Stage::FindingParent => run.request.change == Change::Modify && looked_up(
            run,
            i - 1,
            id,
            file,
        ) && ask == AskView::Item(run.request.parent),
        Stage::FindingOldParent => run.request.change == Change::Modify && looked_up(
            run,
            i - 2,
            id,
            file,
        ) && ask == AskView::ParentOf(file.path) && exists|folder: FileView|
            folder.path == m.parent && #[trigger] looked_up(run, i - 1, run.request.parent, folder),
        Stage::Moving => run.request.change == Change::Modify && looked_up(run, i - 3, id, file)
            && ask == AskView::Move(file.path, m.parent) && (exists|folder: FileView|
            folder.path == m.parent && #[trigger] looked_up(run, i - 2, run.request.parent, folder))
            && exists|old: Seq<char>| #[trigger]
            told_text(run, i - 1, AskView::ParentOf(file.path), old),
        Stage::FindingMoved => run.request.change == Change::Modify && ask == AskView::Item(id)
            && placed_at(run, i - 3, i),
        Stage::KeepingMoved => run.request.change == Change::Modify && ask is Save && is_placed(
            run,
            i,
        ) && looked_up(run, i - 1, id, file),
        Stage::Renaming => is_placed(run, i) && run.request.change == Change::Modify && ask
            == AskView::Rename(file.path, run.request.name),
        Stage::KeepingRenamed => ask is Save && is_placed(run, i) && renames(run, i - 1, file),
        Stage::Uploading => is_ready(run, i, file) && !file.is_folder && load_turn(run) == 2 && ask
            == AskView::Upload(file.path, text_or_empty(file.primary_entity)),
        Stage::FindingUploaded => is_ready(run, i - 1, file) && !file.is_folder && load_turn(run)
            == 2 && did(
            run,
            i - 1,
            AskView::Upload(file.path, text_or_empty(file.primary_entity)),
        ) && ask == AskView::Item(file.id),
        Stage::Rehashing => ask == AskView::Digest && load_turn(run) == 2 && exists|before: FileView|
            #[trigger]
            is_ready(run, i - 2, before) && !before.is_folder && did(
                run,
                i - 2,
                AskView::Upload(before.path, text_or_empty(before.primary_entity)),
            ) && looked_up(run, i - 1, before.id, file),
        Stage::Closing => (ask matches AskView::Save(_, journal) && journal.done && journal.last
            == Some(file)) && if load_turn(run) == 1 {
            is_ready(run, i, file)
        } else {
            is_uploaded(run, i, file)
        },
        _ => true,
    }
}

proof fn lemma_filling_is_accounted(run: ChangeRun, i: int, j: int, m: ChangeCourseView)
    requires
        run.wf(),
        0 < i < run.states.len(),
        (run.states[i], run.asks[i]) == filling(m),
        m.request == run.request,
        m.file is Some,
        is_placed(run, i),
        at_hand(run, j, i, m.file->0),
        is_named(run, j, m.file->0),
    ensures
        accounts_for_file(run, i),
{
}

proof fn lemma_naming_is_accounted(run: ChangeRun, i: int, j: int, m: ChangeCourseView)
    requires
        run.wf(),
        0 < i < run.states.len(),
        (run.states[i], run.asks[i]) == naming(m),
        m.request == run.request,
        m.file is Some,
        is_placed(run, i),
        at_hand(run, j, i, m.file->0),
    ensures
        accounts_for_file(run, i),
{
    if m.request.change == Change::Modify && m.request.name.len() > 0 && m.request.name
        != m.file->0.name {
    } else {
        lemma_filling_is_accounted(run, i, j, m);
    }
}

proof fn lemma_target_is_accounted(run: ChangeRun, i: int)
    requires
        run.wf(),
        0 < i < run.states.len(),
        accounts(run, i - 1),
        run.states[i - 1].stage == Stage::FindingTarget || run.states[i - 1].stage
            == Stage::Resuming,
    ensures
        accounts_for_file(run, i),
{
    let m = run.states[i - 1];
    lemma_runs_are_sound(run, i - 1);
    assert(run.turns(i - 1));
    if let AnswerView::Item(Ok((file, uri))) = run.answers[i - 1] {
        if scope_fault(run.request.root, uri) is None {
            let seen = ChangeCourseView { file: Some(file), ..m };
            assert(looked_up(run, i - 1, target_id(run), file));
            assert(at_hand(run, i - 1, i, file));
            if is_current(seen) && run.request.change != Change::Delete && !(run.request.change
                == Change::Modify && run.request.parent.len() > 0) {
                lemma_naming_is_accounted(run, i, i - 1, seen);
            }
        }
    }
}

proof fn lemma_place_is_accounted(run: ChangeRun, i: int)
    requires
        run.wf(),
        0 < i < run.states.len(),
        accounts_for_file(run, i - 1),
        run.states[i - 1].stage == Stage::FindingOldParent || run.states[i - 1].stage
            == Stage::Moving || run.states[i - 1].stage == Stage::FindingMoved,
    ensures
        accounts_for_file(run, i),
{
    let m = run.states[i - 1];
    lemma_runs_are_sound(run, i - 1);
    assert(run.turns(i - 1));
    let file = m.file->0;
    match (m.stage, run.answers[i - 1]) {
        (Stage::FindingOldParent, AnswerView::Text(Ok(old))) => {
            let folder = choose|folder: FileView|
                folder.path == m.parent && #[trigger] looked_up(
                    run,
                    i - 2,
                    run.request.parent,
                    folder,
                );
            assert(told_text(run, i - 1, AskView::ParentOf(file.path), old));
            if without_trailing_slashes(old) == without_trailing_slashes(m.parent) {
                assert(placed_at(run, i - 2, i));
                assert(at_hand(run, i - 3, i, file));
                lemma_naming_is_accounted(run, i, i - 3, m);
            }
        },
        (Stage::Moving, AnswerView::Done(Ok(_))) => {
            let folder = choose|folder: FileView|
                folder.path == m.parent && #[trigger] looked_up(
                    run,
                    i - 3,
                    run.request.parent,
                    folder,
                );
            let old = choose|old: Seq<char>| #[trigger]
                told_text(run, i - 2, AskView::ParentOf(file.path), old);
            assert(did(run, i - 1, AskView::Move(file.path, folder.path)));
            assert(told_text(run, (i - 3) + 1, AskView::ParentOf(file.path), old));
            assert(looked_up(run, (i - 3) - 1, run.request.id, file));
            assert(placed_at(run, i - 3, i));
        },
        (Stage::FindingMoved, AnswerView::Item(Ok((found, uri)))) => {
            lemma_placed_later(run, i - 4, i - 1, i);
        },
        _ => {},
    }
}

proof fn lemma_placed_later(run: ChangeRun, k: int, n: int, later: int)
    requires
        placed_at(run, k, n),
        n <= later,
    ensures
        placed_at(run, k, later),
        is_placed(run, later),
{
    let (file, folder, old) = choose|file: FileView, folder: FileView, old: Seq<char>|
        {
            &&& looked_up(run, k - 1, run.request.id, file)
            &&& #[trigger] looked_up(run, k, run.request.parent, folder)
            &&& #[trigger] told_text(run, k + 1, AskView::ParentOf(file.path), old)
            &&& k + 1 < n
            &&& without_trailing_slashes(old) == without_trailing_slashes(folder.path) || k + 2 < n
                && did(run, k + 2, AskView::Move(file.path, folder.path))
        };
    assert(looked_up(run, k, run.request.parent, folder));
    assert(told_text(run, k + 1, AskView::ParentOf(file.path), old));
}

proof fn lemma_still_placed(run: ChangeRun, n: int, later: int)
    requires
        is_placed(run, n),
        n <= later,
    ensures
        is_placed(run, later),
{
    if run.request.change == Change::Modify && run.request.parent.len() > 0 {
        let k = choose|k: int| #[trigger] placed_at(run, k, n);
        lemma_placed_later(run, k, n, later);
    }
}

proof fn lemma_kept_is_accounted(run: ChangeRun, i: int)
    requires
        run.wf(),
        0 < i < run.states.len(),
        accounts_for_file(run, i - 1),
        run.states[i - 1].stage == Stage::KeepingCreated || run.states[i - 1].stage
            == Stage::KeepingMoved || run.states[i - 1].stage == Stage::KeepingRenamed,
    ensures
        accounts_for_file(run, i),
{
    let m = run.states[i - 1];
    lemma_runs_are_sound(run, i - 1);
    assert(run.turns(i - 1));
    if run.answers[i - 1] matches AnswerView::Done(Ok(_)) {
        assert(quiet(run, i - 2, i));
        if m.stage != Stage::KeepingCreated {
            lemma_still_placed(run, i - 1, i);
        }
        assert(at_hand(run, i - 2, i, m.file->0));
        if m.stage == Stage::KeepingRenamed {
            lemma_filling_is_accounted(run, i, i - 2, m);
        } else {
            lemma_naming_is_accounted(run, i, i - 2, m);
        }
    }
}

proof fn lemma_renamed_is_accounted(run: ChangeRun, i: int)
    requires
        run.wf(),
        0 < i < run.states.len(),
        accounts_for_file(run, i - 1),
        run.states[i - 1].stage == Stage::Renaming,
    ensures
        accounts_for_file(run, i),
{
    let m = run.states[i - 1];
    lemma_runs_are_sound(run, i - 1);
    assert(run.turns(i - 1));
    if let AnswerView::File(Ok(file)) = run.answers[i - 1] {
        assert(made(run, i - 1, AskView::Rename(m.file->0.path, run.request.name), file));
        lemma_still_placed(run, i - 1, i);
    }
}

proof fn lemma_file_is_accounted(run: ChangeRun, i: int)
    requires
        run.wf(),
        0 <= i < run.states.len(),
    ensures
        accounts_for_file(run, i),
    decreases i,
{
    if i > 0 {
        lemma_file_is_accounted(run, i - 1);
        lemma_accounts(run, i - 1);
        lemma_accounts(run, i);
        lemma_runs_are_sound(run, i - 1);
        assert(run.turns(i - 1));
        let m = run.states[i - 1];
        match m.stage {
            Stage::FindingTarget => lemma_target_is_accounted(run, i),
            Stage::Resuming => lemma_target_is_accounted(run, i),
            Stage::FindingOldParent => lemma_place_is_accounted(run, i),
            Stage::Moving => lemma_place_is_accounted(run, i),
            Stage::FindingMoved => lemma_place_is_accounted(run, i),
            Stage::KeepingCreated => lemma_kept_is_accounted(run, i),
            Stage::KeepingMoved => lemma_kept_is_accounted(run, i),
            Stage::KeepingRenamed => lemma_kept_is_accounted(run, i),
            Stage::Renaming => lemma_renamed_is_accounted(run, i),
            _ => lemma_rest_is_accounted(run, i),
        }
    }
}

proof fn lemma_rest_is_accounted(run: ChangeRun, i: int)
    requires
        run.wf(),
        0 < i < run.states.len(),
        accounts(run, i - 1),
        accounts_for_file(run, i - 1),
        match run.states[i - 1].stage {
            Stage::FindingTarget => false,
            Stage::Resuming => false,
            Stage::FindingOldParent => false,
            Stage::Moving => false,
            Stage::FindingMoved => false,
            Stage::KeepingCreated => false,
            Stage::KeepingMoved => false,
            Stage::KeepingRenamed => false,
            Stage::Renaming => false,
            _ => true,
        },
    ensures
        accounts_for_file(run, i),
{
    let m = run.states[i - 1];
    lemma_runs_are_sound(run, i - 1);
    assert(run.turns(i - 1));
    match (m.stage, run.answers[i - 1]) {
        (Stage::FindingFolder, AnswerView::Item(Ok((folder, uri)))) => {
            if scope_fault(run.request.root, uri) is None {
                assert(looked_up(run, i - 1, run.request.parent, folder));
            }
        },
        (Stage::FindingParent, AnswerView::Item(Ok((folder, uri)))) => {
            if scope_fault(run.request.root, uri) is None {
                assert(looked_up(run, i - 1, run.request.parent, folder));
            }
        },
        (Stage::Creating, AnswerView::File(Ok(file))) => {
            let folder = choose|folder: FileView|
                folder.is_folder && #[trigger] looked_up(run, i - 2, run.request.parent, folder)
                    && run.asks[i - 1] == AskView::Create(
                    folder.path,
                    run.request.name,
                    run.request.directory,
                    Taken::Refuse,
                );
            assert(looked_up(run, (i - 1) - 1, run.request.parent, folder));
            assert(creates(run, i - 1, file));
        },
        (Stage::Deleting, AnswerView::Done(Ok(_))) => {
            assert(did(run, i - 1, AskView::Delete(m.file->0.path, Disposal::Soft)));
            assert(was_deleted(run, i - 1));
        },
        (Stage::Uploading, AnswerView::Done(Ok(_))) => {
            assert(is_ready(run, i - 1, m.file->0));
        },
        (Stage::FindingUploaded, AnswerView::Item(Ok((file, uri)))) => {
            if scope_fault(run.request.root, uri) is None {
                assert(is_ready(run, i - 2, m.file->0));
            }
        },
        (Stage::Rehashing, AnswerView::Text(Ok(hash))) => {
            let before = choose|before: FileView| #[trigger]
                is_ready(run, i - 3, before) && !before.is_folder && did(
                    run,
                    i - 3,
                    AskView::Upload(before.path, text_or_empty(before.primary_entity)),
                ) && looked_up(run, i - 2, before.id, m.file->0);
            assert(is_ready(run, i - 3, before));
        },
        _ => {},
    }
}

/// A request is answered in one of two ways. Either its journal was found finished, and its answer
/// is given again; or the answer was kept in the journal as its end just before.
pub proof fn lemma_answer_is_kept(run: ChangeRun, i: int)
    requires
        run.wf(),
        run.turns(i),
        run.asks[i + 1] is Reply,
    ensures
        answers_again(run, i) || (run.asks[i] matches AskView::Save(_, journal) && journal.done
            && run.asks[i + 1] == AskView::Reply(journal.last) && run.answers[i]
            matches AnswerView::Done(Ok(_))),
{
    lemma_runs_are_sound(run, i);
    lemma_accounts(run, i);
    lemma_file_is_accounted(run, i);
}

/// A deletion is answered only when the file is gone: a finished journal tells so, the server told
/// that there is no such file, or the file that was looked up was deleted, a folder only when it
/// was found empty.
pub proof fn lemma_deletion_is_carried_out(run: ChangeRun, i: int)
    requires
        run.wf(),
        run.turns(i),
        run.request.change == Change::Delete,
        run.asks[i + 1] is Reply,
    ensures
        answers_again(run, i) || run.asks[i + 1] == AskView::Reply(None) && (was_gone(run, i - 1)
            || was_deleted(run, i - 1)),
{
    lemma_runs_are_sound(run, i);
    lemma_accounts(run, i);
    lemma_file_is_accounted(run, i);
}

/// A creation or a modification is answered only when everything that it asks for is done, unless a
/// finished journal answers it. Without staged content the answer is the file as it was created,
/// or found again, or as it is in the folder and under the name that are asked for. Staged content
/// was uploaded to that file, and the answer is the file as it was after that.
pub proof fn lemma_change_is_carried_out(run: ChangeRun, i: int)
    requires
        run.wf(),
        run.turns(i),
        run.request.change != Change::Delete,
        run.asks[i + 1] is Reply,
    ensures
        answers_again(run, i) || (run.asks[i + 1] matches AskView::Reply(Some(last))
            && if run.request.local_path.len() == 0 {
            is_ready(run, i, last)
        } else {
            is_uploaded(run, i, last)
        }),
{
    lemma_runs_are_sound(run, i);
    lemma_accounts(run, i);
    lemma_file_is_accounted(run, i);
}

/// Staged content never gets lost: whatever is answered for it, other than from a finished journal,
/// an upload to the file of the request succeeded before the end was kept.
pub proof fn lemma_staged_content_is_uploaded(run: ChangeRun, i: int)
    requires
        run.wf(),
        run.turns(i),
        run.request.change != Change::Delete,
        run.request.local_path.len() > 0,
        run.asks[i + 1] is Reply,
    ensures
        answers_again(run, i) || i >= 3 && run.asks[i - 3] is Upload && (run.answers[i - 3]
            matches AnswerView::Done(Ok(_))) && exists|j: int, file: FileView| #[trigger]
            at_hand(run, j, i - 3, file) && run.asks[i - 3] == AskView::Upload(
                file.path,
                text_or_empty(file.primary_entity),
            ),
{
    lemma_change_is_carried_out(run, i);
    if !answers_again(run, i) {
        let last = run.asks[i + 1]->Reply_0->0;
        let file = choose|file: FileView| #[trigger]
            is_ready(run, i - 3, file) && !file.is_folder && did(
                run,
                i - 3,
                AskView::Upload(file.path, text_or_empty(file.primary_entity)),
            ) && looked_up(run, i - 2, file.id, last);
        let j = choose|j: int| #[trigger]
            at_hand(run, j, i - 3, file) && is_named(run, j, file);
        assert(at_hand(run, j, i - 3, file));
    }
}

/// A modification that asks for a name is answered only when the file has it or was given it: so it
/// was told at the last look at the file before its content was replaced, whether or not it moved.
pub proof fn lemma_renaming_is_carried_out(run: ChangeRun, i: int)
    requires
        run.wf(),
        run.turns(i),
        run.request.change == Change::Modify,
        run.request.name.len() > 0,
        run.asks[i + 1] is Reply,
    ensures
        answers_again(run, i) || exists|j: int, n: int, file: FileView|
            (n == i || n == i - 3 && run.asks[n] is Upload) && #[trigger] at_hand(run, j, n, file)
                && (file.name == run.request.name || renames(run, j, file)),
{
    lemma_change_is_carried_out(run, i);
    if !answers_again(run, i) {
        let last = run.asks[i + 1]->Reply_0->0;
        if run.request.local_path.len() == 0 {
            let j = choose|j: int| #[trigger] at_hand(run, j, i, last) && is_named(run, j, last);
            assert(at_hand(run, j, i, last));
        } else {
            let file = choose|file: FileView| #[trigger]
                is_ready(run, i - 3, file) && !file.is_folder && did(
                    run,
                    i - 3,
                    AskView::Upload(file.path, text_or_empty(file.primary_entity)),
                ) && looked_up(run, i - 2, file.id, last);
            let j = choose|j: int| #[trigger]
                at_hand(run, j, i - 3, file) && is_named(run, j, file);
            assert(at_hand(run, j, i - 3, file));
        }
    }
}

/// A modification that asks for a folder is answered only when the file was found to be in it, or
/// was moved into it.
pub proof fn lemma_move_is_carried_out(run: ChangeRun, i: int)
    requires
        run.wf(),
        run.turns(i),
        run.request.change == Change::Modify,
        run.request.parent.len() > 0,
        run.asks[i + 1] is Reply,
    ensures
        answers_again(run, i) || exists|k: int| #[trigger] placed_at(run, k, i),
{
    lemma_change_is_carried_out(run, i);
    if !answers_again(run, i) && run.request.local_path.len() > 0 {
        let last = run.asks[i + 1]->Reply_0->0;
        let file = choose|file: FileView| #[trigger]
            is_ready(run, i - 3, file) && !file.is_folder && did(
                run,
                i - 3,
                AskView::Upload(file.path, text_or_empty(file.primary_entity)),
            ) && looked_up(run, i - 2, file.id, last);
        lemma_still_placed(run, i - 3, i);
    }
}

/// Nothing is changed on the server that the request does not ask for: a creation only creates and
/// uploads, and creates what it is asked for; a deletion only deletes; a modification only moves the
/// file into the folder, gives it the name and uploads the content that are asked for.
pub proof fn lemma_nothing_else_is_changed(run: ChangeRun, i: int)
    requires
        run.wf(),
        0 <= i < run.asks.len(),
    ensures
        match run.asks[i] {
            AskView::Create(folder, name, directory, _) => run.request.change == Change::Create
                && name == run.request.name && directory == run.request.directory && known_before(
                run,
            ) is None && exists|file: FileView|
                file.is_folder && file.path == folder && #[trigger] looked_up(
                    run,
                    i - 1,
                    run.request.parent,
                    file,
                ),
            AskView::Delete(_, _) => run.request.change == Change::Delete,
            AskView::Move(_, folder) => run.request.change == Change::Modify && exists|
                file: FileView,
            |
                file.path == folder && #[trigger] looked_up(
                    run,
                    i - 2,
                    run.request.parent,
                    file,
                ),
            AskView::Rename(_, name) => run.request.change == Change::Modify && name
                == run.request.name,
            AskView::Upload(_, _) => run.request.change != Change::Delete
                && run.request.local_path.len() > 0,
            _ => true,
        },
{
    lemma_runs_are_sound(run, i);
    lemma_accounts(run, i);
    lemma_file_is_accounted(run, i);
    if i > 0 {
        lemma_asks_tell_stages(run, i);
    }
}

proof fn lemma_asks_tell_stages(run: ChangeRun, i: int)
    requires
        run.wf(),
        0 <= i < run.states.len(),
    ensures
        run.asks[i] is Create ==> run.states[i].stage == Stage::Creating,
        run.asks[i] is Delete ==> run.states[i].stage == Stage::Deleting,
        run.asks[i] is Move ==> run.states[i].stage == Stage::Moving,
        run.asks[i] is Rename ==> run.states[i].stage == Stage::Renaming,
        run.asks[i] is Upload ==> run.states[i].stage == Stage::Uploading,
        run.asks[i] is Reply || run.asks[i] is Fail <==> run.states[i].stage == Stage::Ended,
{
    if i > 0 {
        assert(run.turns(i - 1));
    }
}

/// Whether an answer is of the kind that was asked for.
pub open spec fn fits(ask: AskView, answer: AnswerView) -> bool {
    match ask {
        AskView::Prepare => answer is Done,
        AskView::Digest => answer is Text,
        AskView::Load(_) => answer is Found,
        AskView::Save(_, _) => answer is Done,
        AskView::Item(_) => answer is Item,
        AskView::Create(_, _, _, _) => answer is File,
        AskView::List(_) => answer is Entries,
        AskView::Delete(_, _) => answer is Done,
        AskView::ParentOf(_) => answer is Text,
        AskView::Move(_, _) => answer is Done,
        AskView::Rename(_, _) => answer is File,
        AskView::Upload(_, _) => answer is Done,
        _ => false,
    }
}

/// The fault that an answer tells of, if it tells of one.
pub open spec fn told_fault(answer: AnswerView) -> Option<Fault> {
    match answer {
        AnswerView::Done(Err(fault)) => Some(fault),
        AnswerView::Text(Err(fault)) => Some(fault),
        AnswerView::Found(Err(fault)) => Some(fault),
        AnswerView::Item(Err(fault)) => Some(fault),
        AnswerView::File(Err(fault)) => Some(fault),
        AnswerView::Entries(Err(fault)) => Some(fault),
        _ => None,
    }
}

/// The digest of the staged content, as it was told at the beginning; empty without content.
pub open spec fn told_digest(run: ChangeRun) -> Seq<char> {
    match run.answers[1] {
        AnswerView::Text(Ok(hash)) => if run.request.local_path.len() > 0 {
            hash
        } else {
            Seq::empty()
        },
        _ => Seq::empty(),
    }
}

/// Whether the file is the version that the request may change: the one that the journal told of, or
/// else the one that the extension knows.
pub open spec fn is_known_version(run: ChangeRun, file: FileView) -> bool {
    match known_before(run) {
        Some(last) => text_or_empty(file.primary_entity) == text_or_empty(last.primary_entity)
            && metadata_text(file) == metadata_text(last),
        None => text_or_empty(file.primary_entity) == run.request.version && metadata_text(file)
            == run.request.metadata_version,
    }
}

/// Why a run that got an answer of the right kind at turn `i`, without a fault in it, fails with
/// `fault`.
pub open spec fn is_reason(run: ChangeRun, i: int, fault: Fault) -> bool {
    let request = run.request;
    ||| fault == Fault::Other("create requires stable template identifier") && request.change
        == Change::Create && request.request_id.len() == 0
    ||| fault == Fault::Other("request too long") && encode_utf8(
        key_text(request, intent_text(request, told_digest(run))),
    ).len() > HASH_LIMIT
    ||| fault == Fault::Failure(Failure("version_conflict")) && (
    run.answers[i] matches AnswerView::Found(Ok(Some(journal))) && journal.intent != intent_text(
        request,
        told_digest(run),
    ))
    ||| fault == Fault::Failure(Failure("version_conflict")) && exists|file: FileView| #[trigger]
        looked_up(run, i, target_id(run), file) && !is_known_version(run, file)
    ||| fault == Fault::Other("invalid filename") && request.change != Change::Delete && !plain_name(
        request.name,
    )
    ||| fault == Fault::Other("cannot mutate root") && request.change != Change::Create && request.id
        == root_id()
    ||| (run.answers[i] matches AnswerView::Item(Ok((_, uri))) && (scope_fault(request.root, uri)
        matches Some(error) && fault == scope_told(error)))
    ||| fault == Fault::Other("not a folder") && request.change == Change::Create && exists|
        file: FileView,
    | #[trigger]
        looked_up(run, i, request.parent, file) && !file.is_folder
    ||| fault == Fault::Failure(Failure("directory_not_empty")) && request.change == Change::Delete && (
    run.answers[i] matches AnswerView::Entries(Ok((n, more))) && (n > 0 || more))
    ||| fault == Fault::Other("cannot write folder content") && request.local_path.len() > 0
        && exists|j: int, file: FileView| #[trigger]
        at_hand(run, j, i + 1, file) && file.is_folder
    ||| fault == Fault::Other("local content changed during upload") && run.asks[i]
        == AskView::Digest && i > 1 && run.answers[i] != run.answers[1]
}

/// A change fails only for a reason: a fault that it was told of, which is handed on, but for a name
/// that is taken; or one in the request, in the file or in the journal.
pub proof fn lemma_failures_have_reasons(run: ChangeRun, i: int)
    requires
        run.wf(),
        run.turns(i),
        !(run.asks[i] is Reply) && !(run.asks[i] is Fail),
        fits(run.asks[i], run.answers[i]),
    ensures
        run.asks[i + 1] matches AskView::Fail(fault) ==> match told_fault(run.answers[i]) {
            Some(told) => fault == if run.asks[i] is Create && told == Fault::Api(
                ApiFault::Code(NAME_TAKEN),
            ) {
                Fault::Failure(Failure("collision"))
            } else {
                told
            },
            None => is_reason(run, i, fault),
        },
{
    lemma_runs_are_sound(run, i);
    lemma_accounts(run, i);
    lemma_asks_tell_stages(run, i);
    assert(run.states[i].stage != Stage::Ended);
    match run.states[i].stage {
        Stage::Preparing => lemma_early_failures_have_reasons(run, i),
        Stage::Hashing => lemma_early_failures_have_reasons(run, i),
        Stage::Loading => lemma_early_failures_have_reasons(run, i),
        Stage::Opening => lemma_early_failures_have_reasons(run, i),
        Stage::FindingFolder => lemma_early_failures_have_reasons(run, i),
        Stage::FindingTarget => lemma_target_failures_have_reasons(run, i),
        Stage::Resuming => lemma_target_failures_have_reasons(run, i),
        _ => lemma_late_failures_have_reasons(run, i),
    }
}

/// What is left to show of a failure at turn `i`.
spec fn is_explained(run: ChangeRun, i: int) -> bool {
    run.asks[i + 1] matches AskView::Fail(fault) ==> match told_fault(run.answers[i]) {
        Some(told) => fault == if run.asks[i] is Create && told == Fault::Api(
            ApiFault::Code(NAME_TAKEN),
        ) {
            Fault::Failure(Failure("collision"))
        } else {
            told
        },
        None => is_reason(run, i, fault),
    }
}

proof fn lemma_early_failures_have_reasons(run: ChangeRun, i: int)
    requires
        run.wf(),
        run.turns(i),
        sound(run.states[i]),
        run.states[i].request == run.request,
        accounts(run, i),
        fits(run.asks[i], run.answers[i]),
        match run.states[i].stage {
            Stage::Preparing => true,
            Stage::Hashing => true,
            Stage::Loading => true,
            Stage::Opening => true,
            Stage::FindingFolder => true,
            _ => false,
        },
    ensures
        is_explained(run, i),
{
    let m = run.states[i];
    if m.stage == Stage::FindingFolder {
        if let AnswerView::Item(Ok((file, uri))) = run.answers[i] {
            if scope_fault(run.request.root, uri) is None {
                assert(looked_up(run, i, run.request.parent, file));
            }
        }
    }
}

proof fn lemma_filling_is_explained(run: ChangeRun, i: int, j: int, m: ChangeCourseView)
    requires
        run.wf(),
        run.turns(i),
        (run.states[i + 1], run.asks[i + 1]) == filling(m) || (run.states[i + 1], run.asks[i + 1])
            == naming(m),
        m.request == run.request,
        run.request.change != Change::Delete,
        at_hand(run, j, i + 1, m.file->0),
        told_fault(run.answers[i]) is None,
    ensures
        is_explained(run, i),
{
}

proof fn lemma_target_failures_have_reasons(run: ChangeRun, i: int)
    requires
        run.wf(),
        run.turns(i),
        sound(run.states[i]),
        run.states[i].request == run.request,
        accounts(run, i),
        fits(run.asks[i], run.answers[i]),
        run.states[i].stage == Stage::FindingTarget || run.states[i].stage == Stage::Resuming,
    ensures
        is_explained(run, i),
{
    let m = run.states[i];
    if let AnswerView::Item(Ok((file, uri))) = run.answers[i] {
        if scope_fault(run.request.root, uri) is None {
            let seen = ChangeCourseView { file: Some(file), ..m };
            assert(looked_up(run, i, target_id(run), file));
            assert(at_hand(run, i, i + 1, file));
            lemma_journal_knows_the_file(run, i);
            assert(is_current(seen) == is_known_version(run, file));
            if is_current(seen) && run.request.change != Change::Delete && !(run.request.change
                == Change::Modify && run.request.parent.len() > 0) {
                lemma_filling_is_explained(run, i, i, seen);
            }
        }
    }
}

proof fn lemma_journal_knows_the_file(run: ChangeRun, i: int)
    requires
        run.wf(),
        0 <= i < run.states.len(),
        run.states[i].stage == Stage::FindingTarget || run.states[i].stage == Stage::Resuming,
    ensures
        run.states[i].journal.last == known_before(run),
{
    lemma_accounts(run, i);
    lemma_accounts(run, i - 1);
    assert(run.turns(i - 1));
    lemma_runs_are_sound(run, i - 1);
}

proof fn lemma_late_failures_have_reasons(run: ChangeRun, i: int)
    requires
        run.wf(),
        run.turns(i),
        sound(run.states[i]),
        run.states[i].request == run.request,
        accounts(run, i),
        fits(run.asks[i], run.answers[i]),
        match run.states[i].stage {
            Stage::Preparing => false,
            Stage::Hashing => false,
            Stage::Loading => false,
            Stage::Opening => false,
            Stage::FindingFolder => false,
            Stage::FindingTarget => false,
            Stage::Resuming => false,
            Stage::Ended => false,
            _ => true,
        },
    ensures
        is_explained(run, i),
{
    let m = run.states[i];
    lemma_file_is_accounted(run, i);
    match (m.stage, run.answers[i]) {
        (Stage::FindingOldParent, AnswerView::Text(Ok(old))) => {
            if without_trailing_slashes(old) == without_trailing_slashes(m.parent) {
                assert(at_hand(run, i - 2, i + 1, m.file->0));
                lemma_filling_is_explained(run, i, i - 2, m);
            }
        },
        (Stage::KeepingCreated, AnswerView::Done(Ok(_))) => {
            assert(at_hand(run, i - 1, i + 1, m.file->0));
            lemma_filling_is_explained(run, i, i - 1, m);
        },
        (Stage::KeepingMoved, AnswerView::Done(Ok(_))) => {
            assert(at_hand(run, i - 1, i + 1, m.file->0));
            lemma_filling_is_explained(run, i, i - 1, m);
        },
        (Stage::KeepingRenamed, AnswerView::Done(Ok(_))) => {
            assert(at_hand(run, i - 1, i + 1, m.file->0));
            lemma_filling_is_explained(run, i, i - 1, m);
        },
        _ => {},
    }
}

/// A change begins wherever its root is in its own scope and there is a place for its journals, and
/// nowhere else.
pub proof fn lemma_changes_begin(run: ChangeRun)
    requires
        run.wf(),
    ensures
        run.asks[0] == AskView::Prepare <==> scope_fault(run.request.root, run.request.root) is None
            && run.request.state_directory.len() > 0 && run.request.state_directory[0] == '/',
        run.asks[0] == AskView::Prepare || run.asks[0] is Fail,
{
    reveal_strlit("/");
    let directory = run.request.state_directory;
    if directory.len() > 0 {
        assert(directory.take(1)[0] == directory[0]);
        if directory[0] == '/' {
            assert(directory.take(1) =~= "/"@);
        }
    }
}

/// Every look for the journal and everything that is kept in it is under the key of the request and
/// of its content, and names what is asked; nothing is changed on the server before a look for the
/// journal and before it was kept.
pub proof fn lemma_journal_is_of_the_request(run: ChangeRun, i: int)
    requires
        run.wf(),
        0 <= i < run.asks.len(),
    ensures
        match run.asks[i] {
            AskView::Load(key) => i == load_turn(run) && key == journal_key(
                run.request,
                told_digest(run),
            ),
            AskView::Save(key, journal) => key == journal_key(run.request, told_digest(run))
                && journal.intent == intent_text(run.request, told_digest(run)),
            _ => true,
        },
        is_remote_change(run.asks[i]) ==> i > load_turn(run) + 1 && run.asks[load_turn(run)] is Load
            && run.asks[load_turn(run) + 1] is Save && (run.answers[load_turn(run) + 1]
            matches AnswerView::Done(Ok(_))),
{
    lemma_runs_are_sound(run, i);
    lemma_accounts(run, i);
    lemma_opened_first(run, i);
    lemma_asks_tell_stages(run, i);
    if i > 0 {
        assert(run.turns(i - 1));
    }
}

proof fn lemma_opened_first(run: ChangeRun, i: int)
    requires
        run.wf(),
        0 <= i < run.states.len(),
    ensures
        match run.states[i].stage {
            Stage::Preparing => true,
            Stage::Hashing => true,
            Stage::Loading => true,
            Stage::Ended => true,
            Stage::Opening => i == load_turn(run) + 1 && run.asks[i] is Save && run.asks[i - 1] is Load,
            _ => i > load_turn(run) + 1 && run.asks[load_turn(run)] is Load && run.asks[load_turn(
                run,
            ) + 1] is Save && (run.answers[load_turn(run) + 1] matches AnswerView::Done(Ok(_))),
        },
    decreases i,
{
    lemma_accounts(run, i);
    if i > 0 {
        lemma_opened_first(run, i - 1);
        lemma_accounts(run, i - 1);
        lemma_runs_are_sound(run, i - 1);
        assert(run.turns(i - 1));
    }
}

spec fn rank(stage: Stage) -> int {
    match stage {
        Stage::Preparing => 0,
        Stage::Hashing => 1,
        Stage::Loading => 2,
        Stage::Opening => 3,
        Stage::Resuming => 4,
        Stage::FindingFolder => 4,
        Stage::FindingTarget => 4,
        Stage::Creating => 5,
        Stage::KeepingCreated => 6,
        Stage::KeepingGone => 5,
        Stage::Listing => 5,
        Stage::Deleting => 6,
        Stage::KeepingDeleted => 7,
        Stage::FindingParent => 5,
        Stage::FindingOldParent => 6,
        Stage::Moving => 7,
        Stage::FindingMoved => 8,
        Stage::KeepingMoved => 9,
        Stage::Renaming => 10,
        Stage::KeepingRenamed => 11,
        Stage::Uploading => 12,
        Stage::FindingUploaded => 13,
        Stage::Rehashing => 14,
        Stage::Closing => 15,
        Stage::Ended => 16,
    }
}

/// Every change comes to an end: after sixteen answers at the latest it has replied or failed.
pub proof fn lemma_changes_end(run: ChangeRun, i: int)
    requires
        run.wf(),
        0 <= i < run.asks.len(),
    ensures
        i >= 16 ==> run.asks[i] is Reply || run.asks[i] is Fail,
{
    lemma_rank_grows(run, i);
    lemma_asks_tell_stages(run, i);
}

proof fn lemma_only_creations_create(run: ChangeRun, i: int)
    requires
        run.wf(),
        0 <= i < run.states.len(),
    ensures
        run.states[i].stage == Stage::KeepingCreated ==> run.request.change == Change::Create,
{
    lemma_file_is_accounted(run, i);
}

proof fn lemma_rank_grows(run: ChangeRun, i: int)
    requires
        run.wf(),
        0 <= i < run.states.len(),
    ensures
        run.states[i].stage == Stage::Ended || i <= rank(run.states[i].stage),
    decreases i,
{
    if i > 0 {
        lemma_rank_grows(run, i - 1);
        lemma_runs_are_sound(run, i - 1);
        lemma_only_creations_create(run, i - 1);
        assert(run.turns(i - 1));
        if run.states[i - 1].stage == Stage::Ended {
            lemma_end_is_final(run.states[i - 1], run.answers[i - 1]);
        }
    }
}

/// A file that is another version than the one that the journal told of, or else than the one that the
/// extension knows, is left alone: the request ends as a version conflict right after the look at it.
pub proof fn lemma_other_versions_are_left_alone(run: ChangeRun, file: FileView)
    requires
        run.wf(),
        looked_up(run, load_turn(run) + 2, target_id(run), file),
        run.request.change == Change::Create ==> known_before(run) is Some,
        !is_known_version(run, file),
    ensures
        run.asks[load_turn(run) + 3] == AskView::Fail(Fault::Failure(Failure("version_conflict"))),
{
    let i = load_turn(run) + 2;
    assert(run.turns(i));
    lemma_accounts(run, i);
    lemma_runs_are_sound(run, i);
    lemma_opened_first(run, i);
    lemma_asks_tell_stages(run, i);
    lemma_first_look(run);
    lemma_journal_knows_the_file(run, i);
    let seen = ChangeCourseView { file: Some(file), ..run.states[i] };
    assert(is_current(seen) == is_known_version(run, file));
}

/// The first file that a run looks for is the one that the request is about, or the folder that the new
/// one goes to.
proof fn lemma_first_look(run: ChangeRun)
    requires
        run.wf(),
        run.turns(load_turn(run) + 2),
        run.asks[load_turn(run) + 2] is Item,
        run.request.change == Change::Create ==> known_before(run) is Some,
    ensures
        run.states[load_turn(run) + 2].stage == Stage::FindingTarget || run.states[load_turn(run)
            + 2].stage == Stage::Resuming,
{
    let l = load_turn(run);
    assert(run.turns(0));
    assert(run.turns(1));
    assert(run.turns(2));
    assert(run.turns(l));
    assert(run.turns(l + 1));
    lemma_accounts(run, l + 1);
    lemma_accounts(run, l + 2);
    lemma_runs_are_sound(run, l + 1);
    lemma_asks_tell_stages(run, l + 2);
}

} // verus!
