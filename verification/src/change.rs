//! The course of a change: which remote calls and journal entries it is made of, and in which
//! order. The caller carries out what is asked for and hands back the answer.
use crate::faults::{error_kind, fault_kind, ApiFault, Failure, Fault, NAME_TAKEN};
use crate::hashing::text_digest;
use crate::mutations::{
    copy_file, filename, has_version, intent, intent_text, key_input, key_text, metadata,
    metadata_text, opt_file, same_version, Change, ChangeRequest, ChangeRequestView, Journal,
    JournalView,
};
use crate::outside::{sha256_hex, HASH_LIMIT};
use crate::path::plain_name;
use crate::records::{Disposal, FileResponse, FileView, Taken};
use crate::provider::{scope_error, scope_told};
use crate::scope::{in_scope, root_id, scope_fault, CrUri, CrUriView};
use crate::text::{
    begins_with, chars_of, copy_text_or_empty, same_chars, same_text, starts_with_text,
    text_or_empty, trim_slashes, without_trailing_slashes,
};
use vstd::prelude::*;
use vstd::utf8::encode_utf8;

verus! {

/// What a change waits for.
#[derive(Debug, Clone, Copy, PartialEq, Eq, Structural)]
pub enum Stage {
    /// The directory of the journals.
    Preparing,
    /// The digest of the staged content.
    Hashing,
    /// The journal.
    Loading,
    /// That the journal is kept, before anything is changed.
    Opening,
    /// The file that an earlier attempt created.
    Resuming,
    /// The folder that the new file goes to.
    FindingFolder,
    /// The new file.
    Creating,
    /// That the creation is kept.
    KeepingCreated,
    /// The file that is changed.
    FindingTarget,
    /// That it is kept that the file was gone.
    KeepingGone,
    /// Whether the folder is empty.
    Listing,
    /// The deletion.
    Deleting,
    /// That the deletion is kept.
    KeepingDeleted,
    /// The folder that the file moves to.
    FindingParent,
    /// The folder that the file is in.
    FindingOldParent,
    /// The move.
    Moving,
    /// The file after the move.
    FindingMoved,
    /// That the move is kept.
    KeepingMoved,
    /// The file under its new name.
    Renaming,
    /// That the renaming is kept.
    KeepingRenamed,
    /// The upload of the content.
    Uploading,
    /// The file after the upload.
    FindingUploaded,
    /// The digest of the staged content after the upload.
    Rehashing,
    /// That the end is kept.
    Closing,
    /// Nothing more.
    Ended,
}

/// What a change asks its caller for.
#[derive(Debug)]
pub enum Ask {
    /// The directory of the journals, made where it is missing.
    Prepare,
    /// The digest of the staged content, which must be a regular file.
    Digest,
    /// The journal under this key, if there is one.
    Load(String),
    /// That this journal is kept under the key, durably.
    Save(String, Journal),
    /// The file with this identifier.
    Item(String),
    /// A new file or folder in the folder at this address, under this name, and what happens where
    /// the name is taken.
    Create(String, String, bool, Taken),
    /// The first entry of the folder at this address.
    List(String),
    /// The deletion of what is at this address, in this way.
    Delete(String, Disposal),
    /// The address of the folder that this address is in.
    ParentOf(String),
    /// The move of what is at the first address into the folder at the second.
    Move(String, String),
    /// The renaming of what is at this address.
    Rename(String, String),
    /// The upload of the staged content to this address, in place of this version alone.
    Upload(String, String),
    /// The change is carried out, with this outcome.
    Reply(Option<FileResponse>),
    /// The change failed.
    Fail(Fault),
}

/// What a change asks for, by its values.
pub enum AskView {
    Prepare,
    Digest,
    Load(Seq<char>),
    Save(Seq<char>, JournalView),
    Item(Seq<char>),
    Create(Seq<char>, Seq<char>, bool, Taken),
    List(Seq<char>),
    Delete(Seq<char>, Disposal),
    ParentOf(Seq<char>),
    Move(Seq<char>, Seq<char>),
    Rename(Seq<char>, Seq<char>),
    Upload(Seq<char>, Seq<char>),
    Reply(Option<FileView>),
    Fail(Fault),
}

impl View for Ask {
    type V = AskView;

    open spec fn view(&self) -> AskView {
        match *self {
            Ask::Prepare => AskView::Prepare,
            Ask::Digest => AskView::Digest,
            Ask::Load(key) => AskView::Load(key@),
            Ask::Save(key, journal) => AskView::Save(key@, journal@),
            Ask::Item(id) => AskView::Item(id@),
            Ask::Create(folder, name, directory, taken) => AskView::Create(
                folder@,
                name@,
                directory,
                taken,
            ),
            Ask::List(uri) => AskView::List(uri@),
            Ask::Delete(uri, disposal) => AskView::Delete(uri@, disposal),
            Ask::ParentOf(uri) => AskView::ParentOf(uri@),
            Ask::Move(uri, folder) => AskView::Move(uri@, folder@),
            Ask::Rename(uri, name) => AskView::Rename(uri@, name@),
            Ask::Upload(uri, version) => AskView::Upload(uri@, version@),
            Ask::Reply(file) => AskView::Reply(opt_file(file)),
            Ask::Fail(fault) => AskView::Fail(fault),
        }
    }
}

/// What the caller answers.
#[derive(Debug)]
pub enum Answer {
    /// It is done, or it failed.
    Done(Result<(), Fault>),
    /// A text: a digest or an address.
    Text(Result<String, Fault>),
    /// The journal, if there is one.
    Found(Result<Option<Journal>, Fault>),
    /// A file that was looked for, with its address.
    Item(Result<(FileResponse, CrUri), Fault>),
    /// A file that was created or renamed.
    File(Result<FileResponse, Fault>),
    /// How many entries were listed, and whether there are more.
    Entries(Result<(usize, bool), Fault>),
}

/// What the caller answers, by its values.
pub enum AnswerView {
    Done(Result<(), Fault>),
    Text(Result<Seq<char>, Fault>),
    Found(Result<Option<JournalView>, Fault>),
    Item(Result<(FileView, CrUriView), Fault>),
    File(Result<FileView, Fault>),
    Entries(Result<(usize, bool), Fault>),
}

impl View for Answer {
    type V = AnswerView;

    open spec fn view(&self) -> AnswerView {
        match *self {
            Answer::Done(outcome) => AnswerView::Done(outcome),
            Answer::Text(Ok(text)) => AnswerView::Text(Ok(text@)),
            Answer::Text(Err(fault)) => AnswerView::Text(Err(fault)),
            Answer::Found(Ok(Some(journal))) => AnswerView::Found(Ok(Some(journal@))),
            Answer::Found(Ok(None)) => AnswerView::Found(Ok(None)),
            Answer::Found(Err(fault)) => AnswerView::Found(Err(fault)),
            Answer::Item(Ok((file, uri))) => AnswerView::Item(Ok((file@, uri@))),
            Answer::Item(Err(fault)) => AnswerView::Item(Err(fault)),
            Answer::File(Ok(file)) => AnswerView::File(Ok(file@)),
            Answer::File(Err(fault)) => AnswerView::File(Err(fault)),
            Answer::Entries(outcome) => AnswerView::Entries(outcome),
        }
    }
}

/// A change under way.
#[derive(Debug)]
pub struct ChangeCourse {
    request: ChangeRequest,
    content_hash: String,
    key: String,
    journal: Journal,
    file: Option<FileResponse>,
    parent: String,
    stage: Stage,
}

/// A change under way, by its values.
pub struct ChangeCourseView {
    pub request: ChangeRequestView,
    /// The digest of the staged content; empty where there is none.
    pub content_hash: Seq<char>,
    /// The key of the journal.
    pub key: Seq<char>,
    /// The journal.
    pub journal: JournalView,
    /// The file as it was seen last.
    pub file: Option<FileView>,
    /// The address of the folder that the file moves to.
    pub parent: Seq<char>,
    /// What the change waits for.
    pub stage: Stage,
}

impl View for ChangeCourse {
    type V = ChangeCourseView;

    closed spec fn view(&self) -> ChangeCourseView {
        ChangeCourseView {
            request: self.request@,
            content_hash: self.content_hash@,
            key: self.key@,
            journal: self.journal@,
            file: opt_file(self.file),
            parent: self.parent@,
            stage: self.stage,
        }
    }
}

/// A change and what it asks for next.
pub type Turn = (ChangeCourseView, AskView);

/// The change waits in `stage` for what it asks for.
pub open spec fn wait(m: ChangeCourseView, stage: Stage, ask: AskView) -> Turn {
    (ChangeCourseView { stage, ..m }, ask)
}

/// The change fails.
pub open spec fn stop(m: ChangeCourseView, fault: Fault) -> Turn {
    wait(m, Stage::Ended, AskView::Fail(fault))
}

/// The journal is kept before the change goes on.
pub open spec fn keep(m: ChangeCourseView, stage: Stage) -> Turn {
    wait(m, stage, AskView::Save(m.key, m.journal))
}

/// A failure that the extension knows by name.
pub open spec fn named(kind: &'static str) -> Fault {
    Fault::Failure(Failure(kind))
}

/// The version of the content that the file must have: that of the last remote change, or else
/// the one that the extension knows.
pub open spec fn expected_content(m: ChangeCourseView) -> Seq<char> {
    match m.journal.last {
        Some(last) => text_or_empty(last.primary_entity),
        None => m.request.version,
    }
}

/// The version of the properties that the file must have.
pub open spec fn expected_meta(m: ChangeCourseView) -> Seq<char> {
    match m.journal.last {
        Some(last) => metadata_text(last),
        None => m.request.metadata_version,
    }
}

/// Whether the file is the version that may be changed.
pub open spec fn is_current(m: ChangeCourseView) -> bool {
    m.file is Some && has_version(m.file->0, expected_content(m), expected_meta(m))
}

/// The change begins with the directory of its journals.
pub open spec fn begun(request: ChangeRequestView) -> Turn {
    let m = ChangeCourseView {
        request,
        content_hash: Seq::empty(),
        key: Seq::empty(),
        journal: JournalView { last: None, done: false, intent: Seq::empty() },
        file: None,
        parent: Seq::empty(),
        stage: Stage::Preparing,
    };
    match scope_fault(request.root, request.root) {
        Some(error) => stop(m, scope_told(error)),
        None => if !begins_with(request.state_directory, "/"@) {
            stop(m, Fault::Other("missing private state directory"))
        } else {
            wait(m, Stage::Preparing, AskView::Prepare)
        },
    }
}

/// The content is known, and the journal is looked for.
pub open spec fn hashed(m: ChangeCourseView) -> Turn {
    let intent = intent_text(m.request, m.content_hash);
    let key = encode_utf8(key_text(m.request, intent));
    let journal = JournalView { last: None, done: false, intent };
    if m.request.change == Change::Create && m.request.request_id.len() == 0 {
        stop(m, Fault::Other("create requires stable template identifier"))
    } else if key.len() > HASH_LIMIT {
        stop(m, Fault::Other("request too long"))
    } else {
        wait(
            ChangeCourseView { key: sha256_hex(key), journal, ..m },
            Stage::Loading,
            AskView::Load(sha256_hex(key)),
        )
    }
}

/// The journal is known: another request's is refused, a finished one answers, and any other is
/// kept before anything is changed.
pub open spec fn loaded(m: ChangeCourseView, found: Option<JournalView>) -> Turn {
    match found {
        None => keep(m, Stage::Opening),
        Some(journal) => if journal.intent != m.journal.intent {
            stop(m, named("version_conflict"))
        } else if journal.done {
            wait(m, Stage::Ended, AskView::Reply(journal.last))
        } else {
            keep(ChangeCourseView { journal, ..m }, Stage::Opening)
        },
    }
}

/// The journal is kept, and the file is looked for.
pub open spec fn opened(m: ChangeCourseView) -> Turn {
    if m.request.change == Change::Create {
        if !plain_name(m.request.name) {
            stop(m, Fault::Other("invalid filename"))
        } else {
            match m.journal.last {
                Some(last) => wait(m, Stage::Resuming, AskView::Item(last.id)),
                None => wait(m, Stage::FindingFolder, AskView::Item(m.request.parent)),
            }
        }
    } else if m.request.id == root_id() {
        stop(m, Fault::Other("cannot mutate root"))
    } else {
        wait(m, Stage::FindingTarget, AskView::Item(m.request.id))
    }
}

/// The folder is known, and the file is created in it.
pub open spec fn folder_found(m: ChangeCourseView, folder: FileView) -> Turn {
    if !folder.is_folder {
        stop(m, Fault::Other("not a folder"))
    } else {
        wait(
            m,
            Stage::Creating,
            AskView::Create(folder.path, m.request.name, m.request.directory, Taken::Refuse),
        )
    }
}

/// The file as the last remote change left it, which is kept.
pub open spec fn changed_to(m: ChangeCourseView, file: FileView, stage: Stage) -> Turn {
    keep(
        ChangeCourseView {
            file: Some(file),
            journal: JournalView { last: Some(file), ..m.journal },
            ..m
        },
        stage,
    )
}

/// The file was already gone, which is what a deletion wants.
pub open spec fn already_gone(m: ChangeCourseView) -> Turn {
    keep(
        ChangeCourseView { journal: JournalView { done: true, ..m.journal }, ..m },
        Stage::KeepingGone,
    )
}

/// The file is known: unless it is another version than expected, the change is made.
pub open spec fn found(m: ChangeCourseView) -> Turn {
    let file = m.file->0;
    if (m.request.change != Change::Create || m.journal.last is Some) && !is_current(m) {
        stop(m, named("version_conflict"))
    } else if m.request.change == Change::Delete {
        if file.is_folder {
            wait(m, Stage::Listing, AskView::List(file.path))
        } else {
            wait(m, Stage::Deleting, AskView::Delete(file.path, Disposal::Soft))
        }
    } else if m.request.change == Change::Modify && m.request.parent.len() > 0 {
        wait(m, Stage::FindingParent, AskView::Item(m.request.parent))
    } else {
        naming(m)
    }
}

/// The file is deleted, which is kept.
pub open spec fn deleted(m: ChangeCourseView) -> Turn {
    keep(
        ChangeCourseView {
            journal: JournalView { last: None, done: true, ..m.journal },
            ..m
        },
        Stage::KeepingDeleted,
    )
}

/// Both folders are known, and the file moves if they differ.
pub open spec fn placing(m: ChangeCourseView, old_parent: Seq<char>) -> Turn {
    if without_trailing_slashes(old_parent) != without_trailing_slashes(m.parent) {
        wait(m, Stage::Moving, AskView::Move(m.file->0.path, m.parent))
    } else {
        naming(m)
    }
}

/// The file is in its place, and it is renamed if another name is asked for.
pub open spec fn naming(m: ChangeCourseView) -> Turn {
    let file = m.file->0;
    if m.request.change == Change::Modify && m.request.name.len() > 0 && m.request.name
        != file.name {
        if !plain_name(m.request.name) {
            stop(m, Fault::Other("invalid filename"))
        } else {
            wait(m, Stage::Renaming, AskView::Rename(file.path, m.request.name))
        }
    } else {
        filling(m)
    }
}

/// The file has its name, and staged content is uploaded to it.
pub open spec fn filling(m: ChangeCourseView) -> Turn {
    let file = m.file->0;
    if m.request.local_path.len() == 0 {
        closing(m)
    } else if file.is_folder {
        stop(m, Fault::Other("cannot write folder content"))
    } else {
        wait(
            m,
            Stage::Uploading,
            AskView::Upload(file.path, text_or_empty(file.primary_entity)),
        )
    }
}

/// The content was uploaded; it must not have changed meanwhile.
pub open spec fn rehashed(m: ChangeCourseView, hash: Seq<char>) -> Turn {
    if hash != m.content_hash {
        stop(m, Fault::Other("local content changed during upload"))
    } else {
        closing(m)
    }
}

/// Everything is done, which is kept.
pub open spec fn closing(m: ChangeCourseView) -> Turn {
    keep(
        ChangeCourseView {
            journal: JournalView { last: m.file, done: true, ..m.journal },
            ..m
        },
        Stage::Closing,
    )
}

/// An answer that does not belong to what was asked for.
pub open spec fn misplaced(m: ChangeCourseView) -> Turn {
    stop(m, Fault::Other("misplaced answer"))
}

/// A file that was looked for was found in the scope of the drive.
pub open spec fn item_found(m: ChangeCourseView, file: FileView) -> Turn {
    match m.stage {
        Stage::Resuming => found(ChangeCourseView { file: Some(file), ..m }),
        Stage::FindingFolder => folder_found(m, file),
        Stage::FindingTarget => found(ChangeCourseView { file: Some(file), ..m }),
        Stage::FindingParent => wait(
            ChangeCourseView { parent: file.path, ..m },
            Stage::FindingOldParent,
            AskView::ParentOf(m.file->0.path),
        ),
        Stage::FindingMoved => changed_to(m, file, Stage::KeepingMoved),
        Stage::FindingUploaded => wait(
            ChangeCourseView { file: Some(file), ..m },
            Stage::Rehashing,
            AskView::Digest,
        ),
        _ => misplaced(m),
    }
}

/// How a change goes on after an answer.
pub open spec fn turn(m: ChangeCourseView, answer: AnswerView) -> Turn {
    match (m.stage, answer) {
        (Stage::Preparing, AnswerView::Done(Ok(_))) => if m.request.local_path.len() == 0 {
            hashed(m)
        } else {
            wait(m, Stage::Hashing, AskView::Digest)
        },
        (Stage::Hashing, AnswerView::Text(Ok(hash))) => hashed(
            ChangeCourseView { content_hash: hash, ..m },
        ),
        (Stage::Loading, AnswerView::Found(Ok(journal))) => loaded(m, journal),
        (Stage::Opening, AnswerView::Done(Ok(_))) => opened(m),
        (Stage::Creating, AnswerView::File(Ok(file))) => changed_to(m, file, Stage::KeepingCreated),
        (Stage::Creating, AnswerView::File(Err(fault))) => if fault == Fault::Api(
            ApiFault::Code(NAME_TAKEN),
        ) {
            stop(m, named("collision"))
        } else {
            stop(m, fault)
        },
        (Stage::KeepingCreated, AnswerView::Done(Ok(_))) => found(m),
        (Stage::FindingTarget, AnswerView::Item(Err(fault))) => if m.request.change
            == Change::Delete && fault_kind(fault) == "not_found"@ {
            already_gone(m)
        } else {
            stop(m, fault)
        },
        (Stage::KeepingGone, AnswerView::Done(Ok(_))) => wait(
            m,
            Stage::Ended,
            AskView::Reply(None),
        ),
        (Stage::Listing, AnswerView::Entries(Ok(entries))) => if entries.0 > 0 || entries.1 {
            stop(m, named("directory_not_empty"))
        } else {
            wait(m, Stage::Deleting, AskView::Delete(m.file->0.path, Disposal::Soft))
        },
        (Stage::Deleting, AnswerView::Done(Ok(_))) => deleted(m),
        (Stage::KeepingDeleted, AnswerView::Done(Ok(_))) => wait(
            m,
            Stage::Ended,
            AskView::Reply(None),
        ),
        (Stage::FindingOldParent, AnswerView::Text(Ok(old_parent))) => placing(m, old_parent),
        (Stage::Moving, AnswerView::Done(Ok(_))) => wait(
            m,
            Stage::FindingMoved,
            AskView::Item(m.request.id),
        ),
        (Stage::KeepingMoved, AnswerView::Done(Ok(_))) => naming(m),
        (Stage::Renaming, AnswerView::File(Ok(file))) => changed_to(m, file, Stage::KeepingRenamed),
        (Stage::KeepingRenamed, AnswerView::Done(Ok(_))) => filling(m),
        (Stage::Uploading, AnswerView::Done(Ok(_))) => wait(
            m,
            Stage::FindingUploaded,
            AskView::Item(m.file->0.id),
        ),
        (Stage::Rehashing, AnswerView::Text(Ok(hash))) => rehashed(m, hash),
        (Stage::Closing, AnswerView::Done(Ok(_))) => wait(
            m,
            Stage::Ended,
            AskView::Reply(m.file),
        ),
        (Stage::Ended, _) => misplaced(m),
        (_, AnswerView::Item(Ok((file, uri)))) => match scope_fault(m.request.root, uri) {
            Some(error) => stop(m, scope_told(error)),
            None => item_found(m, file),
        },
        (_, AnswerView::Item(Err(fault))) => stop(m, fault),
        (_, AnswerView::Done(Err(fault))) => stop(m, fault),
        (_, AnswerView::Text(Err(fault))) => stop(m, fault),
        (_, AnswerView::Found(Err(fault))) => stop(m, fault),
        (_, AnswerView::File(Err(fault))) => stop(m, fault),
        (_, AnswerView::Entries(Err(fault))) => stop(m, fault),
        _ => misplaced(m),
    }
}

impl ChangeCourse {
    /// A file is at hand wherever the change goes on with one.
    pub open spec fn wf(&self) -> bool {
        has_file(self@)
    }
}

/// Whether a file is at hand wherever a change goes on with one.
pub open spec fn has_file(m: ChangeCourseView) -> bool {
    match m.stage {
        Stage::Preparing => true,
        Stage::Hashing => true,
        Stage::Loading => true,
        Stage::Opening => true,
        Stage::Resuming => true,
        Stage::FindingFolder => true,
        Stage::Creating => true,
        Stage::FindingTarget => true,
        Stage::KeepingGone => true,
        Stage::KeepingDeleted => true,
        Stage::Ended => true,
        _ => m.file is Some,
    }
}

impl ChangeCourse {
    fn wait(&mut self, stage: Stage, ask: Ask) -> (next: Ask)
        ensures
            (final(self)@, next@) == wait(old(self)@, stage, ask@),
    {
        self.stage = stage;
        ask
    }

    fn stop(&mut self, fault: Fault) -> (next: Ask)
        ensures
            (final(self)@, next@) == stop(old(self)@, fault),
    {
        self.stage = Stage::Ended;
        Ask::Fail(fault)
    }

    fn keep(&mut self, stage: Stage) -> (next: Ask)
        ensures
            (final(self)@, next@) == keep(old(self)@, stage),
    {
        self.stage = stage;
        Ask::Save(self.key.clone(), self.journal.duplicate())
    }

    /// Begins a change.
    pub fn begin(request: ChangeRequest) -> (start: (ChangeCourse, Ask))
        ensures
            start.0.wf(),
            (start.0@, start.1@) == begun(request@),
    {
        let scoped = in_scope(&request.root, &request.root);
        let rooted = starts_with_text(request.state_directory.as_str(), "/");
        let mut course = ChangeCourse {
            request,
            content_hash: String::new(),
            key: String::new(),
            journal: Journal { last: None, done: false, intent: String::new() },
            file: None,
            parent: String::new(),
            stage: Stage::Preparing,
        };
        proof {
            assert(course@.content_hash =~= Seq::<char>::empty());
            assert(course@.key =~= Seq::<char>::empty());
            assert(course@.journal.intent =~= Seq::<char>::empty());
            assert(course@.parent =~= Seq::<char>::empty());
        }
        let ask = match scoped {
            Err(error) => course.stop(scope_error(error)),
            Ok(()) => if !rooted {
                course.stop(Fault::Other("missing private state directory"))
            } else {
                course.wait(Stage::Preparing, Ask::Prepare)
            },
        };
        (course, ask)
    }

    fn hashed(&mut self) -> (next: Ask)
        ensures
            (final(self)@, next@) == hashed(old(self)@),
    {
        let creating = match self.request.change {
            Change::Create => true,
            _ => false,
        };
        if creating && chars_of(self.request.request_id.as_str()).len() == 0 {
            return self.stop(Fault::Other("create requires stable template identifier"));
        }
        let intent = intent(&self.request, self.content_hash.as_str());
        let input = key_input(&self.request, intent.as_str());
        match text_digest(input.as_str()) {
            None => self.stop(Fault::Other("request too long")),
            Some(key) => {
                self.key = key.clone();
                self.journal = Journal { last: None, done: false, intent };
                self.wait(Stage::Loading, Ask::Load(key))
            },
        }
    }

    fn loaded(&mut self, found: Option<Journal>) -> (next: Ask)
        ensures
            (final(self)@, next@) == loaded(
                old(self)@,
                match found {
                    Some(journal) => Some(journal@),
                    None => None,
                },
            ),
    {
        match found {
            None => self.keep(Stage::Opening),
            Some(journal) => {
                if !same_text(journal.intent.as_str(), self.journal.intent.as_str()) {
                    self.stop(Fault::Failure(Failure("version_conflict")))
                } else if journal.done {
                    self.wait(Stage::Ended, Ask::Reply(journal.last))
                } else {
                    self.journal = journal;
                    self.keep(Stage::Opening)
                }
            },
        }
    }

    fn opened(&mut self) -> (next: Ask)
        ensures
            (final(self)@, next@) == opened(old(self)@),
    {
        match self.request.change {
            Change::Create => {
                match filename(self.request.name.as_str()) {
                    Ok(()) => {},
                    Err(fault) => {
                        return self.stop(fault);
                    },
                }
                match &self.journal.last {
                    Some(last) => {
                        let id = last.id.clone();
                        self.wait(Stage::Resuming, Ask::Item(id))
                    },
                    None => {
                        let parent = self.request.parent.clone();
                        self.wait(Stage::FindingFolder, Ask::Item(parent))
                    },
                }
            },
            _ => {
                if same_text(self.request.id.as_str(), "root") {
                    self.stop(Fault::Other("cannot mutate root"))
                } else {
                    let id = self.request.id.clone();
                    self.wait(Stage::FindingTarget, Ask::Item(id))
                }
            },
        }
    }

    fn folder_found(&mut self, folder: &FileResponse) -> (next: Ask)
        ensures
            (final(self)@, next@) == folder_found(old(self)@, folder@),
    {
        if !folder.is_folder {
            return self.stop(Fault::Other("not a folder"));
        }
        let name = self.request.name.clone();
        let directory = self.request.directory;
        self.wait(
            Stage::Creating,
            Ask::Create(folder.path.clone(), name, directory, Taken::Refuse),
        )
    }

    fn changed_to(&mut self, file: FileResponse, stage: Stage) -> (next: Ask)
        ensures
            (final(self)@, next@) == changed_to(old(self)@, file@, stage),
    {
        self.journal.last = Some(file.duplicate());
        self.file = Some(file);
        self.keep(stage)
    }

    fn already_gone(&mut self) -> (next: Ask)
        ensures
            (final(self)@, next@) == already_gone(old(self)@),
    {
        self.journal.done = true;
        self.keep(Stage::KeepingGone)
    }

    /// Whether the file is the version that may be changed.
    fn current(&self) -> (yes: bool)
        ensures
            yes == is_current(self@),
    {
        match &self.file {
            None => false,
            Some(file) => match &self.journal.last {
                Some(last) => same_version(
                    file,
                    copy_text_or_empty(&last.primary_entity).as_str(),
                    metadata(last).as_str(),
                ),
                None => same_version(
                    file,
                    self.request.version.as_str(),
                    self.request.metadata_version.as_str(),
                ),
            },
        }
    }

    /// The file at hand.
    fn at_hand(&self) -> (file: FileResponse)
        requires
            self@.file is Some,
        ensures
            file@ == self@.file->0,
    {
        self.file.as_ref().unwrap().duplicate()
    }

    fn found(&mut self) -> (next: Ask)
        requires
            old(self)@.file is Some,
        ensures
            (final(self)@, next@) == found(old(self)@),
    {
        let file = self.at_hand();
        let creating = match self.request.change {
            Change::Create => true,
            _ => false,
        };
        if (!creating || self.journal.last.is_some()) && !self.current() {
            return self.stop(Fault::Failure(Failure("version_conflict")));
        }
        match self.request.change {
            Change::Delete => if file.is_folder {
                self.wait(Stage::Listing, Ask::List(file.path))
            } else {
                self.wait(Stage::Deleting, Ask::Delete(file.path, Disposal::Soft))
            },
            Change::Modify => if chars_of(self.request.parent.as_str()).len() > 0 {
                let parent = self.request.parent.clone();
                self.wait(Stage::FindingParent, Ask::Item(parent))
            } else {
                self.naming()
            },
            Change::Create => self.naming(),
        }
    }

    fn deleted(&mut self) -> (next: Ask)
        ensures
            (final(self)@, next@) == deleted(old(self)@),
    {
        self.journal.last = None;
        self.journal.done = true;
        self.keep(Stage::KeepingDeleted)
    }

    fn placing(&mut self, old_parent: &str) -> (next: Ask)
        requires
            old(self)@.file is Some,
        ensures
            (final(self)@, next@) == placing(old(self)@, old_parent@),
    {
        if same_chars(&trim_slashes(old_parent), &trim_slashes(self.parent.as_str())) {
            return self.naming();
        }
        let file = self.at_hand();
        let parent = self.parent.clone();
        self.wait(Stage::Moving, Ask::Move(file.path, parent))
    }

    fn naming(&mut self) -> (next: Ask)
        requires
            old(self)@.file is Some,
        ensures
            (final(self)@, next@) == naming(old(self)@),
    {
        let file = self.at_hand();
        let modifying = match self.request.change {
            Change::Modify => true,
            _ => false,
        };
        if modifying && chars_of(self.request.name.as_str()).len() > 0 && !same_text(
            self.request.name.as_str(),
            file.name.as_str(),
        ) {
            match filename(self.request.name.as_str()) {
                Ok(()) => {
                    let name = self.request.name.clone();
                    self.wait(Stage::Renaming, Ask::Rename(file.path, name))
                },
                Err(fault) => self.stop(fault),
            }
        } else {
            self.filling()
        }
    }

    fn filling(&mut self) -> (next: Ask)
        requires
            old(self)@.file is Some,
        ensures
            (final(self)@, next@) == filling(old(self)@),
    {
        if chars_of(self.request.local_path.as_str()).len() == 0 {
            return self.closing();
        }
        let file = self.at_hand();
        if file.is_folder {
            return self.stop(Fault::Other("cannot write folder content"));
        }
        let version = copy_text_or_empty(&file.primary_entity);
        self.wait(Stage::Uploading, Ask::Upload(file.path, version))
    }

    fn rehashed(&mut self, hash: &str) -> (next: Ask)
        ensures
            (final(self)@, next@) == rehashed(old(self)@, hash@),
    {
        if same_text(hash, self.content_hash.as_str()) {
            self.closing()
        } else {
            self.stop(Fault::Other("local content changed during upload"))
        }
    }

    fn closing(&mut self) -> (next: Ask)
        ensures
            (final(self)@, next@) == closing(old(self)@),
    {
        self.journal.last = copy_file(&self.file);
        self.journal.done = true;
        self.keep(Stage::Closing)
    }

    fn misplaced(&mut self) -> (next: Ask)
        ensures
            (final(self)@, next@) == misplaced(old(self)@),
    {
        self.stop(Fault::Other("misplaced answer"))
    }

    /// Goes on after an answer: what is asked for next.
    pub fn next(&mut self, answer: Answer) -> (ask: Ask)
        requires
            old(self).wf(),
        ensures
            final(self).wf(),
            (final(self)@, ask@) == turn(old(self)@, answer@),
    {
        match answer {
            Answer::Done(Ok(())) => self.done(),
            Answer::Text(Ok(text)) => self.text(text),
            Answer::Found(Ok(journal)) => match self.stage {
                Stage::Loading => self.loaded(journal),
                _ => self.misplaced(),
            },
            Answer::Item(Ok((file, uri))) => self.item(file, &uri),
            Answer::File(Ok(file)) => match self.stage {
                Stage::Creating => self.changed_to(file, Stage::KeepingCreated),
                Stage::Renaming => self.changed_to(file, Stage::KeepingRenamed),
                _ => self.misplaced(),
            },
            Answer::Entries(Ok((listed, more))) => match self.stage {
                Stage::Listing => if listed > 0 || more {
                    self.stop(Fault::Failure(Failure("directory_not_empty")))
                } else {
                    let file = self.at_hand();
                    self.wait(Stage::Deleting, Ask::Delete(file.path, Disposal::Soft))
                },
                _ => self.misplaced(),
            },
            Answer::Done(Err(fault)) => self.failed(fault),
            Answer::Text(Err(fault)) => self.failed(fault),
            Answer::Found(Err(fault)) => self.failed(fault),
            Answer::Item(Err(fault)) => self.missed(fault),
            Answer::File(Err(fault)) => self.refused(fault),
            Answer::Entries(Err(fault)) => self.failed(fault),
        }
    }

    fn failed(&mut self, fault: Fault) -> (next: Ask)
        ensures
            (final(self)@, next@) == turn(old(self)@, AnswerView::Done(Err(fault))),
            (final(self)@, next@) == turn(old(self)@, AnswerView::Text(Err(fault))),
            (final(self)@, next@) == turn(old(self)@, AnswerView::Found(Err(fault))),
            (final(self)@, next@) == turn(old(self)@, AnswerView::Entries(Err(fault))),
    {
        match self.stage {
            Stage::Ended => self.misplaced(),
            _ => self.stop(fault),
        }
    }

    fn refused(&mut self, fault: Fault) -> (next: Ask)
        ensures
            (final(self)@, next@) == turn(old(self)@, AnswerView::File(Err(fault))),
    {
        match self.stage {
            Stage::Ended => self.misplaced(),
            Stage::Creating => match fault {
                Fault::Api(ApiFault::Code(code)) => if code == NAME_TAKEN {
                    self.stop(Fault::Failure(Failure("collision")))
                } else {
                    self.stop(fault)
                },
                _ => self.stop(fault),
            },
            _ => self.stop(fault),
        }
    }

    fn missed(&mut self, fault: Fault) -> (next: Ask)
        ensures
            (final(self)@, next@) == turn(old(self)@, AnswerView::Item(Err(fault))),
    {
        match self.stage {
            Stage::Ended => self.misplaced(),
            Stage::FindingTarget => match self.request.change {
                Change::Delete => if same_text(error_kind(&fault), "not_found") {
                    self.already_gone()
                } else {
                    self.stop(fault)
                },
                _ => self.stop(fault),
            },
            _ => self.stop(fault),
        }
    }

    fn done(&mut self) -> (next: Ask)
        requires
            old(self).wf(),
        ensures
            (final(self)@, next@) == turn(old(self)@, AnswerView::Done(Ok(()))),
    {
        match self.stage {
            Stage::Preparing => if chars_of(self.request.local_path.as_str()).len() == 0 {
                self.hashed()
            } else {
                self.wait(Stage::Hashing, Ask::Digest)
            },
            Stage::Opening => self.opened(),
            Stage::KeepingCreated => self.found(),
            Stage::KeepingGone => self.wait(Stage::Ended, Ask::Reply(None)),
            Stage::Deleting => self.deleted(),
            Stage::KeepingDeleted => self.wait(Stage::Ended, Ask::Reply(None)),
            Stage::Moving => {
                let id = self.request.id.clone();
                self.wait(Stage::FindingMoved, Ask::Item(id))
            },
            Stage::KeepingMoved => self.naming(),
            Stage::KeepingRenamed => self.filling(),
            Stage::Uploading => {
                let file = self.at_hand();
                self.wait(Stage::FindingUploaded, Ask::Item(file.id))
            },
            Stage::Closing => {
                let file = copy_file(&self.file);
                self.wait(Stage::Ended, Ask::Reply(file))
            },
            _ => self.misplaced(),
        }
    }

    fn text(&mut self, text: String) -> (next: Ask)
        requires
            old(self).wf(),
        ensures
            (final(self)@, next@) == turn(old(self)@, AnswerView::Text(Ok(text@))),
    {
        match self.stage {
            Stage::Hashing => {
                self.content_hash = text;
                self.hashed()
            },
            Stage::FindingOldParent => self.placing(text.as_str()),
            Stage::Rehashing => self.rehashed(text.as_str()),
            _ => self.misplaced(),
        }
    }

    fn item(&mut self, file: FileResponse, uri: &CrUri) -> (next: Ask)
        requires
            old(self).wf(),
        ensures
            (final(self)@, next@) == turn(old(self)@, AnswerView::Item(Ok((file@, uri@)))),
    {
        match self.stage {
            Stage::Ended => {
                return self.misplaced();
            },
            _ => {},
        }
        match in_scope(&self.request.root, uri) {
            Ok(()) => {},
            Err(error) => {
                return self.stop(scope_error(error));
            },
        }
        match self.stage {
            Stage::Resuming => {
                self.file = Some(file);
                self.found()
            },
            Stage::FindingFolder => self.folder_found(&file),
            Stage::FindingTarget => {
                self.file = Some(file);
                self.found()
            },
            Stage::FindingParent => {
                let at = self.at_hand();
                self.parent = file.path;
                self.wait(Stage::FindingOldParent, Ask::ParentOf(at.path))
            },
            Stage::FindingMoved => self.changed_to(file, Stage::KeepingMoved),
            Stage::FindingUploaded => {
                self.file = Some(file);
                self.wait(Stage::Rehashing, Ask::Digest)
            },
            _ => self.misplaced(),
        }
    }
}

} // verus!
