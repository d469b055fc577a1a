//! The requests of the file provider extension that only read, and the answers to all of them.
use crate::faults::{api_code, error_kind, fault_kind, ApiFault, Fault};
use crate::records::{FileResponse, FileView};
use crate::scope::{in_scope, scope_fault, CrUri, CrUriView, ScopeError};
use crate::text::{chars_of, same_text};
use vstd::prelude::*;

verus! {

/// What the extension asks for.
#[derive(Debug, Clone, Copy, PartialEq, Eq, Structural)]
pub enum Task {
    /// The properties of a file.
    Item,
    /// The files in a folder.
    List,
    /// The content of a file.
    Fetch,
    /// A new file or folder.
    Create,
    /// Another name, place or content of a file.
    Modify,
    /// The removal of a file or folder.
    Delete,
}

/// The name by which the extension asks for a task.
pub open spec fn task_name(task: Task) -> Seq<char> {
    match task {
        Task::Item => "item"@,
        Task::List => "list"@,
        Task::Fetch => "fetch"@,
        Task::Create => "create"@,
        Task::Modify => "modify"@,
        Task::Delete => "delete"@,
    }
}

/// The task that the extension asks for as `operation`.
pub fn task_of(operation: &str) -> (task: Result<Task, Fault>)
    ensures
        match task {
            Ok(task) => operation@ == task_name(task),
            Err(fault) => fault == Fault::Other("unsupported operation") && forall|task: Task|
                operation@ != #[trigger] task_name(task),
        },
{
    proof {
        lemma_task_names_differ();
    }
    if same_text(operation, "item") {
        Ok(Task::Item)
    } else if same_text(operation, "list") {
        Ok(Task::List)
    } else if same_text(operation, "fetch") {
        Ok(Task::Fetch)
    } else if same_text(operation, "create") {
        Ok(Task::Create)
    } else if same_text(operation, "modify") {
        Ok(Task::Modify)
    } else if same_text(operation, "delete") {
        Ok(Task::Delete)
    } else {
        Err(Fault::Other("unsupported operation"))
    }
}

/// No two tasks share a name.
pub proof fn lemma_task_names_differ()
    ensures
        forall|a: Task, b: Task| #[trigger] task_name(a) == #[trigger] task_name(b) ==> a == b,
{
    reveal_strlit("item");
    reveal_strlit("list");
    reveal_strlit("fetch");
    reveal_strlit("create");
    reveal_strlit("modify");
    reveal_strlit("delete");
    assert("item"@[0] == 'i');
    assert("list"@[0] == 'l');
    assert("fetch"@[0] == 'f');
    assert("create"@[0] == 'c');
    assert("modify"@[0] == 'm');
    assert("delete"@[0] == 'd');
}

/// The fault that stands for a refused address.
pub open spec fn scope_told(error: ScopeError) -> Fault {
    match error {
        ScopeError::OutOfScope => Fault::Other("out of scope"),
        ScopeError::InvalidPath => Fault::Other("invalid path"),
    }
}

/// The fault that stands for a refused address.
pub fn scope_error(error: ScopeError) -> (fault: Fault)
    ensures
        fault == scope_told(error),
{
    match error {
        ScopeError::OutOfScope => Fault::Other("out of scope"),
        ScopeError::InvalidPath => Fault::Other("invalid path"),
    }
}

/// The files of a folder with their addresses, gathered page by page.
#[derive(Debug)]
pub struct FolderListing {
    entries: Vec<(FileResponse, CrUri)>,
}

/// The files of a list, by their values.
pub open spec fn files_view(files: Seq<FileResponse>) -> Seq<FileView> {
    files.map_values(|f: FileResponse| f@)
}

/// Files with their addresses, by their values.
pub open spec fn entries_view(entries: Seq<(FileResponse, CrUri)>) -> Seq<(FileView, CrUriView)> {
    entries.map_values(|e: (FileResponse, CrUri)| (e.0@, e.1@))
}

/// The files of a list of files with their addresses.
pub open spec fn files_of(entries: Seq<(FileView, CrUriView)>) -> Seq<FileView> {
    entries.map_values(|e: (FileView, CrUriView)| e.0)
}

/// Whether every file of a list lies in the scope of `root`.
pub open spec fn all_in_scope(root: CrUriView, entries: Seq<(FileView, CrUriView)>) -> bool {
    forall|i: int| 0 <= i < entries.len() ==> scope_fault(root, (#[trigger] entries[i]).1) is None
}

/// Why the first file of a list that is refused below `root` is, if one is.
pub open spec fn first_scope_fault(root: CrUriView, entries: Seq<(FileView, CrUriView)>) -> Option<
    ScopeError,
>
    decreases entries.len(),
{
    if entries.len() == 0 {
        None
    } else {
        match first_scope_fault(root, entries.drop_last()) {
            Some(error) => Some(error),
            None => scope_fault(root, entries.last().1),
        }
    }
}

proof fn lemma_stays_out_of_scope(root: CrUriView, entries: Seq<(FileView, CrUriView)>, n: int)
    requires
        0 <= n <= entries.len(),
        first_scope_fault(root, entries.take(n)) is Some,
    ensures
        first_scope_fault(root, entries) == first_scope_fault(root, entries.take(n)),
    decreases entries.len() - n,
{
    if n == entries.len() {
        assert(entries.take(n) =~= entries);
    } else {
        assert(entries.take(n + 1).drop_last() =~= entries.take(n));
        lemma_stays_out_of_scope(root, entries, n + 1);
    }
}

/// A list of files is refused exactly where one of them lies out of scope.
pub proof fn lemma_one_out_of_scope_refuses_all(
    root: CrUriView,
    entries: Seq<(FileView, CrUriView)>,
)
    ensures
        first_scope_fault(root, entries) is None <==> all_in_scope(root, entries),
    decreases entries.len(),
{
    if entries.len() > 0 {
        let shorter = entries.drop_last();
        lemma_one_out_of_scope_refuses_all(root, shorter);
        if all_in_scope(root, entries) {
            assert forall|i: int| 0 <= i < shorter.len() implies scope_fault(
                root,
                (#[trigger] shorter[i]).1,
            ) is None by {
                assert(entries[i] == shorter[i]);
            }
            assert(entries[entries.len() - 1] == entries.last());
        }
        if first_scope_fault(root, entries) is None {
            assert forall|i: int| 0 <= i < entries.len() implies scope_fault(
                root,
                (#[trigger] entries[i]).1,
            ) is None by {
                if i < shorter.len() {
                    assert(entries[i] == shorter[i]);
                }
            }
        }
    }
}

impl FolderListing {
    /// The files gathered so far, with their addresses.
    pub closed spec fn gathered(&self) -> Seq<(FileView, CrUriView)> {
        entries_view(self.entries@)
    }

    /// Starts the listing of `parent`, which must be a folder.
    pub fn begin(parent: &FileResponse) -> (listing: Result<FolderListing, Fault>)
        ensures
            match listing {
                Ok(listing) => parent.is_folder && listing.gathered() == Seq::<
                    (FileView, CrUriView),
                >::empty(),
                Err(fault) => !parent.is_folder && fault == Fault::Other("not folder"),
            },
    {
        if !parent.is_folder {
            return Err(Fault::Other("not folder"));
        }
        let listing = FolderListing { entries: Vec::new() };
        assert(listing.gathered() =~= Seq::<(FileView, CrUriView)>::empty());
        Ok(listing)
    }

    /// Takes in one page: all of it, or nothing where a file of it lies out of scope.
    pub fn page(&mut self, root: &CrUri, page: Vec<(FileResponse, CrUri)>) -> (outcome: Result<
        (),
        Fault,
    >)
        ensures
            match outcome {
                Ok(()) => {
                    &&& first_scope_fault(root@, entries_view(page@)) is None
                    &&& all_in_scope(root@, entries_view(page@))
                    &&& final(self).gathered() == old(self).gathered() + entries_view(page@)
                },
                Err(fault) => {
                    &&& first_scope_fault(root@, entries_view(page@)) is Some
                    &&& fault == scope_told(first_scope_fault(root@, entries_view(page@))->0)
                    &&& final(self).gathered() == old(self).gathered()
                },
            },
    {
        let ghost views = entries_view(page@);
        let mut i: usize = 0;
        assert(views.take(0) =~= seq![]);
        while i < page.len()
            invariant
                i <= page.len(),
                views == entries_view(page@),
                self.gathered() == old(self).gathered(),
                first_scope_fault(root@, views.take(i as int)) is None,
            decreases page.len() - i,
        {
            proof {
                assert(views.take(i + 1).drop_last() =~= views.take(i as int));
                assert(views.take(i + 1).last() == views[i as int]);
            }
            match in_scope(root, &page[i].1) {
                Ok(()) => {},
                Err(error) => {
                    proof {
                        lemma_stays_out_of_scope(root@, views, i + 1);
                    }
                    return Err(scope_error(error));
                },
            }
            i += 1;
        }
        let ghost before = self.gathered();
        let mut more = page;
        self.entries.append(&mut more);
        proof {
            assert(views.take(i as int) =~= views);
            lemma_one_out_of_scope_refuses_all(root@, views);
            assert(self.gathered() =~= before + views);
        }
        Ok(())
    }

    /// The files of the folder.
    pub fn finish(self) -> (files: Vec<FileResponse>)
        ensures
            files_view(files@) == files_of(self.gathered()),
    {
        let mut files: Vec<FileResponse> = Vec::new();
        let mut i: usize = 0;
        while i < self.entries.len()
            invariant
                i <= self.entries.len(),
                files.len() == i,
                forall|k: int| 0 <= k < i ==> (#[trigger] files@[k])@ == self.entries@[k].0@,
            decreases self.entries.len() - i,
        {
            files.push(self.entries[i].0.duplicate());
            i += 1;
        }
        assert(files_view(files@) =~= files_of(self.gathered()));
        files
    }
}

/// Whether the content of the version `wanted` of a file can be had: any will do where none is
/// named.
pub fn version_available(file: &FileResponse, wanted: &str) -> (yes: bool)
    ensures
        yes == (wanted@.len() == 0 || file@.primary_entity == Some(wanted@)),
{
    if chars_of(wanted).len() == 0 {
        return true;
    }
    match &file.primary_entity {
        Some(entity) => same_text(entity.as_str(), wanted),
        None => false,
    }
}

/// The first of the addresses at which the server offers content.
pub fn first_url(urls: &Vec<String>) -> (url: Result<&String, Fault>)
    ensures
        match url {
            Ok(url) => urls.len() > 0 && *url == urls[0],
            Err(fault) => urls.len() == 0 && fault == Fault::Other("missing URL"),
        },
{
    if urls.len() == 0 {
        Err(Fault::Other("missing URL"))
    } else {
        Ok(&urls[0])
    }
}

/// The content of a file on its way, held to the size that the server announced.
#[derive(Debug)]
pub struct Fetching {
    size: i64,
    received: u64,
}

/// How much of a file has come, in thousandths; a product beyond 64 bits counts as their limit.
pub open spec fn permille(received: int, size: int) -> int {
    let scaled = if received * 1000 <= u64::MAX {
        received * 1000
    } else {
        u64::MAX as int
    };
    let part = scaled / (if size >= 1 {
        size
    } else {
        1
    });
    if part <= 1000 {
        part
    } else {
        1000
    }
}

impl Fetching {
    /// The announced size.
    pub closed spec fn size(&self) -> int {
        self.size as int
    }

    /// The bytes that have come.
    pub closed spec fn received(&self) -> int {
        self.received as int
    }

    /// Starts with nothing of `size` bytes.
    pub fn begin(size: i64) -> (fetching: Fetching)
        ensures
            fetching.size() == size,
            fetching.received() == 0,
    {
        Fetching { size, received: 0 }
    }

    /// Takes in a block of `len` bytes, and tells how much has come, in thousandths. More bytes
    /// than announced are refused before they are written.
    pub fn block(&mut self, len: usize) -> (progress: Result<u64, Fault>)
        ensures
            final(self).size() == old(self).size(),
            match progress {
                Ok(progress) => 0 <= old(self).size() && old(self).received() + len <= old(
                    self,
                ).size() && final(self).received() == old(self).received() + len && progress
                    == permille(final(self).received(), final(self).size()),
                Err(fault) => final(self).received() == old(self).received() && if old(self).size()
                    < 0 {
                    fault == Fault::Other("negative size")
                } else {
                    old(self).received() + len > old(self).size() && fault == Fault::Other(
                        "oversized response",
                    )
                },
            },
    {
        if self.size < 0 {
            return Err(Fault::Other("negative size"));
        }
        let size: u64 = self.size as u64;
        if self.received > size || (len as u64) > size - self.received {
            return Err(Fault::Other("oversized response"));
        }
        self.received = self.received + len as u64;
        let scaled: u64 = if self.received <= u64::MAX / 1000 {
            self.received * 1000
        } else {
            u64::MAX
        };
        let whole: u64 = if size >= 1 {
            size
        } else {
            1
        };
        let part: u64 = scaled / whole;
        Ok(
            if part <= 1000 {
                part
            } else {
                1000
            },
        )
    }

    /// Checks that exactly the announced bytes came.
    pub fn finish(&self) -> (outcome: Result<(), Fault>)
        ensures
            match outcome {
                Ok(()) => 0 <= self.size() && self.received() == self.size(),
                Err(fault) => if self.size() < 0 {
                    fault == Fault::Other("negative size")
                } else {
                    self.received() != self.size() && fault == Fault::Other("size mismatch")
                },
            },
    {
        if self.size < 0 {
            return Err(Fault::Other("negative size"));
        }
        if self.received != self.size as u64 {
            return Err(Fault::Other("size mismatch"));
        }
        Ok(())
    }
}

/// The progress of a fetch never goes back and never passes a thousand, and it reaches a thousand
/// with the last byte as long as a thousand times the size fits in 64 bits.
pub proof fn lemma_progress_is_monotone(before: int, after: int, size: int)
    requires
        0 <= before <= after <= size,
    ensures
        0 <= permille(before, size) <= permille(after, size) <= 1000,
        1 <= size && size * 1000 <= u64::MAX ==> permille(size, size) == 1000,
{
    let whole = if size >= 1 {
        size
    } else {
        1
    };
    let low = if before * 1000 <= u64::MAX {
        before * 1000
    } else {
        u64::MAX as int
    };
    let high = if after * 1000 <= u64::MAX {
        after * 1000
    } else {
        u64::MAX as int
    };
    vstd::arithmetic::div_mod::lemma_div_is_ordered(low, high, whole);
    vstd::arithmetic::div_mod::lemma_div_pos_is_pos(low, whole);
    if 1 <= size && size * 1000 <= u64::MAX {
        vstd::arithmetic::div_mod::lemma_div_multiples_vanish(1000, size);
    }
}

/// Why a request is not even begun: it cannot be read, or its tokens are not accepted.
pub fn refusal(readable: bool, tokens_accepted: bool) -> (kind: Option<&'static str>)
    ensures
        match kind {
            Some(kind) => if !readable {
                kind@ == "invalid_request"@
            } else {
                !tokens_accepted && kind@ == "not_authenticated"@
            },
            None => readable && tokens_accepted,
        },
{
    if !readable {
        Some("invalid_request")
    } else if !tokens_accepted {
        Some("not_authenticated")
    } else {
        None
    }
}

/// What the extension is told at the end of a request, beside the current tokens.
#[derive(Debug)]
pub enum Reply<T> {
    /// The request was cancelled.
    Cancelled,
    /// The result.
    Data(T),
    /// The name of an error, with the code of the server's answer if there was one.
    Error(&'static str, Option<i32>),
}

/// The name of the error that a reply tells of, if it tells of one.
pub open spec fn reply_error<T>(reply: Reply<T>) -> Option<Seq<char>> {
    match reply {
        Reply::Cancelled => Some("cancelled"@),
        Reply::Data(_) => None,
        Reply::Error(kind, _) => Some(kind@),
    }
}

impl<T> Reply<T> {
    /// The name of the error that the extension is told of, if it is told of one.
    pub fn error(&self) -> (kind: Option<&'static str>)
        ensures
            match kind {
                Some(kind) => reply_error(*self) == Some(kind@),
                None => reply_error(*self) is None,
            },
    {
        match self {
            Reply::Cancelled => Some("cancelled"),
            Reply::Data(_) => None,
            Reply::Error(kind, _) => Some(*kind),
        }
    }
}

/// A reply with the tokens as they stand at the end of the request.
#[derive(Debug)]
pub struct Answered<T, K> {
    pub reply: Reply<T>,
    pub tokens: K,
}

/// Whether a reply is the one to an outcome: a cancelled request has none.
pub open spec fn is_reply<T>(outcome: Option<Result<T, Fault>>, answer: Reply<T>) -> bool {
    match outcome {
        None => answer is Cancelled,
        Some(Ok(data)) => answer == Reply::Data(data),
        Some(Err(fault)) => answer matches Reply::Error(kind, code) && kind@ == fault_kind(fault)
            && code == (match fault {
            Fault::Api(ApiFault::Code(code)) => Some(code),
            _ => None,
        }),
    }
}

/// What the extension is told at the end of a request that was begun: the reply, and beside it the
/// current tokens, however the request ended.
pub fn answer<T, K>(outcome: Option<Result<T, Fault>>, tokens: K) -> (answered: Answered<T, K>)
    ensures
        is_reply(outcome, answered.reply),
        answered.tokens == tokens,
{
    Answered { reply: reply(outcome), tokens }
}

/// What the extension is told at the end of a request. A cancelled one has no outcome.
pub fn reply<T>(outcome: Option<Result<T, Fault>>) -> (answer: Reply<T>)
    ensures
        is_reply(outcome, answer),
{
    match outcome {
        None => Reply::Cancelled,
        Some(Ok(data)) => Reply::Data(data),
        Some(Err(fault)) => Reply::Error(error_kind(&fault), api_code(&fault)),
    }
}

/// The progress of a fetch is the part of the bytes that have come, in whole thousandths, as long as a
/// thousand times their number fits in 64 bits.
pub proof fn lemma_progress_is_the_part(received: int, size: int)
    requires
        0 <= received <= size,
        1 <= size,
        received * 1000 <= u64::MAX,
    ensures
        permille(received, size) * size <= received * 1000 < (permille(received, size) + 1) * size,
{
    let whole = received * 1000;
    let part = whole / size;
    vstd::arithmetic::div_mod::lemma_fundamental_div_mod(whole, size);
    vstd::arithmetic::div_mod::lemma_mod_bound(whole, size);
    assert(size * part == part * size) by (nonlinear_arith);
    assert((part + 1) * size == part * size + size) by (nonlinear_arith);
    assert(part <= 1000) by (nonlinear_arith)
        requires
            part * size <= whole,
            whole == received * 1000,
            received <= size,
            1 <= size,
    ;
}

/// A refused address is told by why it is refused, and never as anything that a server would tell.
pub proof fn lemma_refused_addresses_are_told(error: ScopeError)
    ensures
        scope_told(error) == Fault::Other("out of scope") <==> error == ScopeError::OutOfScope,
        scope_told(error) == Fault::Other("invalid path") <==> error == ScopeError::InvalidPath,
        fault_kind(scope_told(error)) == "internal"@,
{
    reveal_strlit("out of scope");
    reveal_strlit("invalid path");
    assert("out of scope"@[0] == 'o' && "invalid path"@[0] == 'i');
}

/// The extension is told how its request ended: that it was cancelled, the data, or the name of the
/// fault and, where the server answered with one, its code.
pub proof fn lemma_replies_tell_the_outcome<T>(
    outcome: Option<Result<T, Fault>>,
    answer: Reply<T>,
)
    requires
        is_reply(outcome, answer),
    ensures
        outcome is None <==> answer is Cancelled,
        outcome is None ==> reply_error(answer) == Some("cancelled"@),
        outcome matches Some(Ok(data)) ==> answer == Reply::Data(data) && reply_error(answer) is None,
        outcome matches Some(Err(fault)) ==> reply_error(answer) == Some(fault_kind(fault)),
        (outcome matches Some(Err(Fault::Api(ApiFault::Code(code))))) ==> answer->Error_1 == Some(
            outcome->0->Err_0->Api_0->Code_0,
        ),
{
}

/// Content is handed out in any version where none is named, and else only in the one that is named;
/// it is fetched from the first address that is offered; a request is begun exactly where it can be
/// read and its tokens are accepted.
pub proof fn lemma_versions_are_had_by_name(
    file: &FileResponse,
    wanted: &str,
    available: bool,
    urls: &Vec<String>,
    url: Result<&String, Fault>,
    readable: bool,
    accepted: bool,
    refused: Option<&'static str>,
)
    requires
        call_ensures(version_available, (file, wanted), available),
        call_ensures(first_url, (urls,), url),
        call_ensures(refusal, (readable, accepted), refused),
    ensures
        wanted@.len() == 0 ==> available,
        wanted@.len() > 0 ==> (available <==> file@.primary_entity == Some(wanted@)),
        url is Ok <==> urls@.len() > 0,
        url matches Ok(url) ==> *url == urls@[0],
        refused is None <==> readable && accepted,
        !readable ==> refused->0@ == "invalid_request"@,
        readable && !accepted ==> refused->0@ == "not_authenticated"@,
{
}

/// A task is asked for by its own name, and every name that is no task's is refused.
pub proof fn lemma_tasks_have_their_names(operation: &str, found: Result<Task, Fault>, task: Task)
    requires
        call_ensures(task_of, (operation,), found),
    ensures
        operation@ == task_name(task) ==> found == Ok::<Task, Fault>(task),
        found is Err <==> forall|known: Task| operation@ != #[trigger] task_name(known),
{
    lemma_task_names_differ();
}

} // verus!
