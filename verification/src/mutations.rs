//! Durable changes on behalf of the file provider extension. Ambiguous remote changes fail closed:
//! an unrelated file is never adopted on a name collision, and a newer remote version is never
//! overwritten. Each change leaves a journal, so that a request that comes again is continued or
//! answered from it, and not carried out twice.
use crate::faults::Fault;
use crate::hashing::{digest_blocks, joined_blocks, ContentDigest};
use crate::local_file::{EntryKind, Stat};
use crate::outside::{
    fresh_uuid, is_random_uuid, json_row, sha256_hex, uuid_text, write_json_row, write_uuid,
    HASH_LIMIT,
};
use crate::path::{is_plain_name, plain_name};
use crate::records::{FileResponse, FileView};
use crate::scope::{CrUri, CrUriView};
use crate::text::{
    copy_text_or_empty, decimal, decimal_text, lemma_decimals_differ, same_text, text_or_empty,
};
use vstd::prelude::*;

verus! {

/// The kind of a change.
#[derive(Debug, Clone, Copy, PartialEq, Eq, Structural)]
pub enum Change {
    Create,
    Modify,
    Delete,
}

/// The name of a kind of change.
pub open spec fn change_name(change: Change) -> Seq<char> {
    match change {
        Change::Create => "create"@,
        Change::Modify => "modify"@,
        Change::Delete => "delete"@,
    }
}

impl Change {
    /// The name of the kind of change.
    pub fn name(&self) -> (name: &'static str)
        ensures
            name@ == change_name(*self),
    {
        match self {
            Change::Create => "create",
            Change::Modify => "modify",
            Change::Delete => "delete",
        }
    }
}

/// What the extension asks to be changed.
#[derive(Debug, Clone, PartialEq, Eq)]
pub struct ChangeRequest {
    pub change: Change,
    /// The root of the drive, which bounds what may be changed.
    pub root: CrUri,
    /// The drive.
    pub domain: String,
    /// The file, unless it is created.
    pub id: String,
    /// The folder it goes to, if it moves or is created.
    pub parent: String,
    /// The name it gets, if it is renamed or created.
    pub name: String,
    /// The version of the content that the extension knows.
    pub version: String,
    /// The version of the properties that the extension knows.
    pub metadata_version: String,
    /// Whether a folder is created.
    pub directory: bool,
    /// What tells one creation from another.
    pub request_id: String,
    /// Where the new content is staged; empty where there is none.
    pub local_path: String,
    /// Where the journals are kept.
    pub state_directory: String,
}

/// A request by its values.
pub struct ChangeRequestView {
    pub change: Change,
    pub root: CrUriView,
    pub domain: Seq<char>,
    pub id: Seq<char>,
    pub parent: Seq<char>,
    pub name: Seq<char>,
    pub version: Seq<char>,
    pub metadata_version: Seq<char>,
    pub directory: bool,
    pub request_id: Seq<char>,
    pub local_path: Seq<char>,
    pub state_directory: Seq<char>,
}

impl View for ChangeRequest {
    type V = ChangeRequestView;

    open spec fn view(&self) -> ChangeRequestView {
        ChangeRequestView {
            change: self.change,
            root: self.root@,
            domain: self.domain@,
            id: self.id@,
            parent: self.parent@,
            name: self.name@,
            version: self.version@,
            metadata_version: self.metadata_version@,
            directory: self.directory,
            request_id: self.request_id@,
            local_path: self.local_path@,
            state_directory: self.state_directory@,
        }
    }
}

/// How far a request has come.
#[derive(Debug, Clone, PartialEq, Eq)]
pub struct Journal {
    /// The file as the last remote change left it.
    pub last: Option<FileResponse>,
    /// Whether the request was carried out.
    pub done: bool,
    /// What was asked.
    pub intent: String,
}

/// A journal by its values.
pub struct JournalView {
    pub last: Option<FileView>,
    pub done: bool,
    pub intent: Seq<char>,
}

impl View for Journal {
    type V = JournalView;

    open spec fn view(&self) -> JournalView {
        JournalView {
            last: match self.last {
                Some(file) => Some(file@),
                None => None,
            },
            done: self.done,
            intent: self.intent@,
        }
    }
}

impl Journal {
    /// A copy of the journal.
    pub fn duplicate(&self) -> (copy: Journal)
        ensures
            copy@ == self@,
    {
        Journal {
            last: copy_file(&self.last),
            done: self.done,
            intent: self.intent.clone(),
        }
    }
}

/// A file, if there is one, by its values.
pub open spec fn opt_file(file: Option<FileResponse>) -> Option<FileView> {
    match file {
        Some(file) => Some(file@),
        None => None,
    }
}

/// A copy of a file, if there is one.
pub fn copy_file(file: &Option<FileResponse>) -> (copy: Option<FileResponse>)
    ensures
        opt_file(copy) == opt_file(*file),
{
    match file {
        Some(file) => Some(file.duplicate()),
        None => None,
    }
}

/// The version of the properties of a file: its path, date and size.
pub open spec fn metadata_text(file: FileView) -> Seq<char> {
    file.path + "\n"@ + file.updated_at + "\n"@ + decimal(file.size as int)
}

/// The version of the properties of a file.
pub fn metadata(file: &FileResponse) -> (text: String)
    ensures
        text@ == metadata_text(file@),
{
    file.path.as_str().to_owned().concat("\n").concat(file.updated_at.as_str()).concat("\n").concat(
        decimal_text(file.size).as_str(),
    )
}

/// Whether a file has the versions `content` and `meta`.
pub open spec fn has_version(file: FileView, content: Seq<char>, meta: Seq<char>) -> bool {
    text_or_empty(file.primary_entity) == content && metadata_text(file) == meta
}

/// Whether a file has the versions `content` and `meta`.
pub fn same_version(file: &FileResponse, content: &str, meta: &str) -> (same: bool)
    ensures
        same == has_version(file@, content@, meta@),
{
    same_text(copy_text_or_empty(&file.primary_entity).as_str(), content) && same_text(
        metadata(file).as_str(),
        meta,
    )
}

/// Refuses names that cannot stand for one entry of a folder.
pub fn filename(name: &str) -> (outcome: Result<(), Fault>)
    ensures
        match outcome {
            Ok(()) => plain_name(name@),
            Err(fault) => !plain_name(name@) && fault == Fault::Other("invalid filename"),
        },
{
    if is_plain_name(name) {
        Ok(())
    } else {
        Err(Fault::Other("invalid filename"))
    }
}

/// What is asked, as one text: everything of a request that makes it the one it is. Tokens and the
/// names of staging files are left out, so that new ones do not make it another request.
pub open spec fn intent_text(request: ChangeRequestView, content_hash: Seq<char>) -> Seq<char> {
    json_row(
        change_name(request.change),
        request.id,
        request.parent,
        request.name,
        request.version,
        request.metadata_version,
        request.directory,
        content_hash,
    )
}

/// Whether two requests ask for the same.
pub open spec fn same_intent(
    a: ChangeRequestView,
    a_hash: Seq<char>,
    b: ChangeRequestView,
    b_hash: Seq<char>,
) -> bool {
    &&& a.change == b.change
    &&& a.id == b.id
    &&& a.parent == b.parent
    &&& a.name == b.name
    &&& a.version == b.version
    &&& a.metadata_version == b.metadata_version
    &&& a.directory == b.directory
    &&& a_hash == b_hash
}

/// What is asked, as one text that no other request has.
pub fn intent(request: &ChangeRequest, content_hash: &str) -> (text: String)
    ensures
        text@ == intent_text(request@, content_hash@),
        forall|other: ChangeRequestView, other_hash: Seq<char>| #[trigger]
            intent_text(other, other_hash) == text@ ==> same_intent(
                request@,
                content_hash@,
                other,
                other_hash,
            ),
{
    proof {
        lemma_change_names_differ();
    }
    write_json_row(
        request.change.name(),
        request.id.as_str(),
        request.parent.as_str(),
        request.name.as_str(),
        request.version.as_str(),
        request.metadata_version.as_str(),
        request.directory,
        content_hash,
    )
}

proof fn lemma_change_names_differ()
    ensures
        forall|a: Change, b: Change| #[trigger]
            change_name(a) == #[trigger] change_name(b) ==> a == b,
{
    reveal_strlit("create");
    reveal_strlit("modify");
    reveal_strlit("delete");
    assert("create"@[0] == 'c');
    assert("modify"@[0] == 'm');
    assert("delete"@[0] == 'd');
}

/// What a journal is found by again. A creation is known by its own identifier, so that a retry
/// with other properties meets the journal of the first attempt; any other change by what is
/// asked.
pub open spec fn key_text(request: ChangeRequestView, intent: Seq<char>) -> Seq<char> {
    if request.change == Change::Create {
        request.domain + ":"@ + "create"@ + ":"@ + request.request_id
    } else {
        request.domain + ":"@ + intent
    }
}

/// What a journal is found by again.
pub fn key_input(request: &ChangeRequest, intent: &str) -> (text: String)
    ensures
        text@ == key_text(request@, intent@),
{
    match request.change {
        Change::Create => request.domain.as_str().to_owned().concat(":").concat("create").concat(
            ":",
        ).concat(request.request_id.as_str()),
        _ => request.domain.as_str().to_owned().concat(":").concat(intent),
    }
}

/// Requests that differ only in their staging file or directory meet the same journal and ask for
/// the same.
pub proof fn lemma_staging_does_not_matter(
    request: ChangeRequestView,
    local_path: Seq<char>,
    state_directory: Seq<char>,
    content_hash: Seq<char>,
)
    ensures
        ({
            let other = ChangeRequestView { local_path, state_directory, ..request };
            &&& intent_text(other, content_hash) == intent_text(request, content_hash)
            &&& key_text(other, intent_text(other, content_hash)) == key_text(
                request,
                intent_text(request, content_hash),
            )
        }),
{
}

/// Takes the first look at staged content, which must be a regular file.
pub fn begin_digest(before: Stat) -> (digest: Result<ContentDigest, Fault>)
    ensures
        match digest {
            Ok(digest) => (before matches Stat::Found(EntryKind::File, _, _)) && digest.wf()
                && digest.content() == Seq::<u8>::empty(),
            Err(fault) => match before {
                Stat::Found(kind, _, _) => kind != EntryKind::File && fault == Fault::Other(
                    "not a regular file",
                ),
                _ => fault == Fault::Other("unreadable file"),
            },
        },
{
    match before {
        Stat::Found(EntryKind::File, _, _) => Ok(ContentDigest::new()),
        Stat::Found(_, _, _) => Err(Fault::Other("not a regular file")),
        _ => Err(Fault::Other("unreadable file")),
    }
}

/// The digest of staged content, where the file system told `before` of the file and then gave
/// `blocks` as its content.
pub fn digest(before: Stat, blocks: &Vec<Vec<u8>>) -> (outcome: Result<String, Fault>)
    requires
        joined_blocks(blocks@).len() <= HASH_LIMIT,
    ensures
        match outcome {
            Ok(text) => (before matches Stat::Found(EntryKind::File, _, _)) && text@ == sha256_hex(
                joined_blocks(blocks@),
            ),
            Err(fault) => match before {
                Stat::Found(kind, _, _) => kind != EntryKind::File && fault == Fault::Other(
                    "not a regular file",
                ),
                _ => fault == Fault::Other("unreadable file"),
            },
        },
{
    match begin_digest(before) {
        Ok(digest) => Ok(digest_blocks(digest, blocks).finish()),
        Err(fault) => Err(fault),
    }
}

/// The name of the file that a journal is kept in.
pub fn journal_file(key: &str) -> (name: String)
    ensures
        name@ == key@ + ".json"@,
{
    key.to_owned().concat(".json")
}

/// The name of the file that a journal is written to before it takes the place of the old one.
pub open spec fn temporary_name(key: Seq<char>, id: u128) -> Seq<char> {
    key + "."@ + uuid_text(id) + ".tmp"@
}

/// The name of a temporary file, made unique by `id`.
pub fn temporary_file_as(key: &str, id: u128) -> (name: String)
    ensures
        name@ == temporary_name(key@, id),
        name@ != key@ + ".json"@,
        forall|other: u128| other != id ==> #[trigger] temporary_name(key@, other) != name@,
{
    let unique = write_uuid(id);
    let name = key.to_owned().concat(".").concat(unique.as_str()).concat(".tmp");
    proof {
        reveal_strlit(".");
        reveal_strlit(".tmp");
        reveal_strlit(".json");
        assert(name@.last() == 'p');
        assert((key@ + ".json"@).last() == 'n');
        assert forall|other: u128| other != id implies #[trigger] temporary_name(key@, other)
            != name@ by {
            let a = temporary_name(key@, other);
            if a == name@ {
                let from = (key@.len() + 1) as int;
                assert(uuid_text(other).len() == uuid_text(id).len());
                assert(a.subrange(from, from + uuid_text(other).len()) =~= uuid_text(other));
                assert(name@.subrange(from, from + uuid_text(id).len()) =~= uuid_text(id));
            }
        }
    }
    name
}

/// The name of a new temporary file: never that of a journal.
pub fn temporary_file(key: &str) -> (name: String)
    ensures
        exists|id: u128| #[trigger] is_random_uuid(id) && name@ == temporary_name(key@, id),
        name@ != key@ + ".json"@,
{
    let id = fresh_uuid();
    assert(is_random_uuid(id));
    temporary_file_as(key, id)
}

/// A new identifier for an upload.
pub fn upload_task() -> (text: String)
    ensures
        exists|id: u128| #[trigger] is_random_uuid(id) && text@ == uuid_text(id),
{
    let id = fresh_uuid();
    assert(is_random_uuid(id));
    write_uuid(id)
}

/// Every change of a file makes it another version: where two files differ only in their content, only
/// in their path, only in their date or only in their size, one does not have the version of the other.
pub proof fn lemma_every_change_makes_a_version(
    file: FileView,
    content: Seq<char>,
    path: Seq<char>,
    updated_at: Seq<char>,
    size: i64,
)
    ensures
        has_version(file, text_or_empty(file.primary_entity), metadata_text(file)),
        content != text_or_empty(file.primary_entity) ==> !has_version(
            file,
            content,
            metadata_text(file),
        ),
        path != file.path ==> metadata_text(FileView { path, ..file }) != metadata_text(file),
        updated_at != file.updated_at ==> metadata_text(FileView { updated_at, ..file })
            != metadata_text(file),
        size != file.size ==> metadata_text(FileView { size, ..file }) != metadata_text(file),
        forall|meta: Seq<char>| #[trigger]
            has_version(file, content, meta) ==> meta == metadata_text(file),
{
    let end = "\n"@ + file.updated_at + "\n"@ + decimal(file.size as int);
    assert(metadata_text(file) =~= file.path + end);
    let moved = FileView { path, ..file };
    assert(metadata_text(moved) =~= path + end);
    if metadata_text(moved) == metadata_text(file) {
        assert(path.len() == file.path.len());
        assert((path + end).take(path.len() as int) =~= path);
        assert((file.path + end).take(path.len() as int) =~= file.path);
    }
    let start = file.path + "\n"@;
    let rest = "\n"@ + decimal(file.size as int);
    let touched = FileView { updated_at, ..file };
    assert(metadata_text(file) =~= start + file.updated_at + rest);
    assert(metadata_text(touched) =~= start + updated_at + rest);
    if metadata_text(touched) == metadata_text(file) {
        let n = start.len() as int;
        assert(updated_at.len() == file.updated_at.len());
        assert((start + updated_at + rest).subrange(n, n + updated_at.len()) =~= updated_at);
        assert((start + file.updated_at + rest).subrange(n, n + updated_at.len())
            =~= file.updated_at);
    }
    let head = file.path + "\n"@ + file.updated_at + "\n"@;
    let grown = FileView { size, ..file };
    assert(metadata_text(file) =~= head + decimal(file.size as int));
    assert(metadata_text(grown) =~= head + decimal(size as int));
    if metadata_text(grown) == metadata_text(file) {
        let n = head.len() as int;
        assert((head + decimal(size as int)).skip(n) =~= decimal(size as int));
        assert((head + decimal(file.size as int)).skip(n) =~= decimal(file.size as int));
        lemma_decimals_differ(size as int, file.size as int);
    }
}

/// Creations meet the same journal exactly where they have one identifier in one drive, whatever else
/// they ask for; any other change meets the journal of what it asks for in its drive.
pub proof fn lemma_journals_are_told_apart(
    request: ChangeRequestView,
    other: ChangeRequestView,
    intent: Seq<char>,
    other_intent: Seq<char>,
)
    requires
        request.domain == other.domain,
    ensures
        request.change == Change::Create && other.change == Change::Create ==> (key_text(
            request,
            intent,
        ) == key_text(other, other_intent) <==> request.request_id == other.request_id),
        request.change != Change::Create && other.change != Change::Create ==> (key_text(
            request,
            intent,
        ) == key_text(other, other_intent) <==> intent == other_intent),
{
    let creating = request.domain + ":"@ + "create"@ + ":"@;
    assert(request.domain + ":"@ + "create"@ + ":"@ + request.request_id =~= creating
        + request.request_id);
    assert((creating + request.request_id).skip(creating.len() as int) =~= request.request_id);
    assert((creating + other.request_id).skip(creating.len() as int) =~= other.request_id);
    let changing = request.domain + ":"@;
    assert((changing + intent).skip(changing.len() as int) =~= intent);
    assert((changing + other_intent).skip(changing.len() as int) =~= other_intent);
}

/// Drives have journals of their own: a request to another drive does not meet the journal of this one.
pub proof fn lemma_drives_have_their_own_journals(
    request: ChangeRequestView,
    domain: Seq<char>,
    intent: Seq<char>,
)
    requires
        domain != request.domain,
    ensures
        key_text(ChangeRequestView { domain, ..request }, intent) != key_text(request, intent),
{
    let end = if request.change == Change::Create {
        ":"@ + "create"@ + ":"@ + request.request_id
    } else {
        ":"@ + intent
    };
    let other = ChangeRequestView { domain, ..request };
    assert(key_text(request, intent) =~= request.domain + end);
    assert(key_text(other, intent) =~= domain + end);
    if key_text(other, intent) == key_text(request, intent) {
        assert(domain.len() == request.domain.len());
        assert((domain + end).take(domain.len() as int) =~= domain);
        assert((request.domain + end).take(domain.len() as int) =~= request.domain);
    }
}

/// Staged content is digested exactly where it is a regular file, block by block to its end; and
/// journals with different keys are kept in different files.
pub proof fn lemma_only_files_are_digested(
    before: Stat,
    blocks: &Vec<Vec<u8>>,
    outcome: Result<String, Fault>,
    key: &str,
    name: String,
    other_key: &str,
    other_name: String,
)
    requires
        call_ensures(digest, (before, blocks), outcome),
        call_ensures(journal_file, (key,), name),
        call_ensures(journal_file, (other_key,), other_name),
    ensures
        outcome is Ok <==> (before matches Stat::Found(EntryKind::File, _, _)),
        outcome matches Ok(text) ==> text@ == sha256_hex(joined_blocks(blocks@)),
        name@ == other_name@ <==> key@ == other_key@,
{
    assert((key@ + ".json"@).take(key@.len() as int) =~= key@);
    assert((other_key@ + ".json"@).take(other_key@.len() as int) =~= other_key@);
    if name@ == other_name@ {
        assert(key@.len() == other_key@.len());
    }
}

} // verus!
