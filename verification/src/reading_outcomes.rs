//! What a reading has read when it ends, told by what it asked for and what it was answered, and for
//! which reasons it fails.
use crate::faults::Fault;
use crate::provider::{entries_view, files_of, first_scope_fault, permille, scope_told};
use crate::reading::{
    read_begun, read_turn, ReadAnswer, ReadAskView, Reading, ReadStageView,
};
use crate::records::FileView;
use crate::scope::{scope_fault, CrUriView};
use vstd::prelude::*;

verus! {

/// A run of a reading from its beginning on: how far it had come, what was asked for then, and what
/// was answered.
pub struct ReadRun {
    pub root: CrUriView,
    pub reading: Reading,
    /// The identifier of the file.
    pub id: Seq<char>,
    /// The version of the content that is wanted; empty where any will do.
    pub wanted: Seq<char>,
    pub stages: Seq<ReadStageView>,
    pub asks: Seq<ReadAskView>,
    pub answers: Seq<ReadAnswer>,
}

impl ReadRun {
    /// Whether `i` is one of its turns.
    pub open spec fn turns(self, i: int) -> bool {
        0 <= i < self.answers.len()
    }

    /// The run begins as every reading of its file does, and goes on as it is answered.
    pub open spec fn wf(self) -> bool {
        &&& self.stages.len() == self.answers.len() + 1
        &&& self.asks.len() == self.answers.len() + 1
        &&& (self.stages[0], self.asks[0]) == read_begun(self.root, self.reading, self.id)
        &&& forall|i: int| #[trigger]
            self.turns(i) ==> (self.stages[i + 1], self.asks[i + 1]) == read_turn(
                self.root,
                self.wanted,
                self.stages[i],
                self.answers[i],
            )
    }
}

/// Whether the first turn looked for the file, and `file` was found in the scope of the drive.
pub open spec fn finds(run: ReadRun, file: FileView) -> bool {
    run.turns(0) && run.asks[0] == ReadAskView::Item(run.id) && (run.answers[0] matches ReadAnswer::File(
        Ok((found, uri)),
    ) && found@ == file && scope_fault(run.root, uri@) is None)
}

/// The files of the pages that came before turn `n`, in their order.
pub open spec fn files_before(run: ReadRun, n: int) -> Seq<FileView>
    decreases n,
{
    if n <= 0 {
        Seq::empty()
    } else {
        match run.answers[n - 1] {
            ReadAnswer::Page(Ok((page, _))) => files_before(run, n - 1) + Seq::new(
                page@.len(),
                |k: int| page@[k].0@,
            ),
            _ => files_before(run, n - 1),
        }
    }
}

/// How many bytes came before turn `n`.
pub open spec fn bytes_before(run: ReadRun, n: int) -> int
    decreases n,
{
    if n <= 0 {
        0
    } else {
        match run.answers[n - 1] {
            ReadAnswer::Block(Ok(len)) => bytes_before(run, n - 1) + len,
            _ => bytes_before(run, n - 1),
        }
    }
}

/// Whether the content of `file` was asked for at the first address that the server offered for it,
/// in the version that the file has.
pub open spec fn downloads(run: ReadRun, file: FileView) -> bool {
    &&& finds(run, file)
    &&& run.wanted.len() == 0 || file.primary_entity == Some(run.wanted)
    &&& run.turns(1) && run.asks[1] == ReadAskView::Urls(file.path, file.primary_entity)
    &&& run.answers[1] matches ReadAnswer::Urls(Ok(urls)) && urls@.len() > 0 && run.asks[2]
        == ReadAskView::Download(urls@[0]@)
}

/// What the turns so far tell of how far a run has come.
spec fn accounts(run: ReadRun, i: int) -> bool {
    let ask = run.asks[i];
    match run.stages[i] {
        ReadStageView::FindingItem => i == 0 && run.reading == Reading::Item && ask
            == ReadAskView::Item(run.id),
        ReadStageView::FindingFolder => i == 0 && run.reading == Reading::List && ask
            == ReadAskView::Item(run.id),
        ReadStageView::FindingFile => i == 0 && run.reading == Reading::Fetch && ask
            == ReadAskView::Item(run.id),
        ReadStageView::Listing { folder, gathered } => i >= 1 && run.reading == Reading::List
            && finds(run, folder) && folder.is_folder && ask == ReadAskView::Page(folder.path)
            && files_of(gathered) == files_before(run, i),
        ReadStageView::FindingUrls { file } => i == 1 && run.reading == Reading::Fetch && finds(
            run,
            file,
        ) && (run.wanted.len() == 0 || file.primary_entity == Some(run.wanted)) && ask
            == ReadAskView::Urls(file.path, file.primary_entity) && bytes_before(run, 1) == 0,
        ReadStageView::Receiving { file, received } => i >= 2 && run.reading == Reading::Fetch
            && downloads(run, file) && received == bytes_before(run, i) && 0 <= received && (ask
            is Download || ask is Receive) && (received == 0 || received <= file.size),
        ReadStageView::Writing { file, received } => i >= 3 && run.reading == Reading::Fetch
            && downloads(run, file) && received == bytes_before(run, i) && 0 <= received
            <= file.size && ask is Write,
        ReadStageView::Flushing { file } => i >= 3 && run.reading == Reading::Fetch && downloads(
            run,
            file,
        ) && file.size == bytes_before(run, i) && ask == ReadAskView::Flush
            && run.answers[i - 1] is End,
        ReadStageView::Ended => ask is File || ask is Files || ask is VersionUnavailable || ask is Fail,
    }
}

proof fn lemma_page_files(gathered: Seq<(FileView, CrUriView)>, run: ReadRun, i: int)
    requires
        run.turns(i),
        run.answers[i] matches ReadAnswer::Page(Ok(_)),
        files_of(gathered) == files_before(run, i),
        i >= 0,
    ensures
        files_of(gathered + entries_view(run.answers[i]->Page_0->Ok_0.0@)) == files_before(
            run,
            i + 1,
        ),
{
    let page = run.answers[i]->Page_0->Ok_0.0@;
    assert(files_of(gathered + entries_view(page)) =~= files_of(gathered) + Seq::new(
        page.len(),
        |k: int| page[k].0@,
    ));
}

proof fn lemma_accounts(run: ReadRun, i: int)
    requires
        run.wf(),
        0 <= i < run.stages.len(),
    ensures
        accounts(run, i),
    decreases i,
{
    if i > 0 {
        lemma_accounts(run, i - 1);
        assert(run.turns(i - 1));
        match (run.stages[i - 1], run.answers[i - 1]) {
            (
                ReadStageView::Listing { folder, gathered },
                ReadAnswer::Page(Ok((page, more))),
            ) => {
                lemma_page_files(gathered, run, i - 1);
            },
            (ReadStageView::FindingFolder, ReadAnswer::File(Ok((file, uri)))) => {
                reveal_with_fuel(files_before, 2);
                assert(files_of(Seq::<(FileView, CrUriView)>::empty()) =~= Seq::<
                    FileView,
                >::empty());
            },
            (ReadStageView::FindingFile, ReadAnswer::File(Ok((file, uri)))) => {
                reveal_with_fuel(bytes_before, 2);
            },
            _ => {},
        }
    }
}

/// The properties that are handed out are those of the file that was asked for, as the server told
/// them.
pub proof fn lemma_properties_are_as_told(run: ReadRun, i: int)
    requires
        run.wf(),
        run.turns(i),
        run.reading == Reading::Item,
        run.asks[i + 1] matches ReadAskView::File(_),
    ensures
        i == 0,
        finds(run, run.asks[i + 1]->File_0),
{
    lemma_accounts(run, i);
}

/// The files that are handed out as those of a folder are all that the pages of its listing told, in
/// their order: every page was asked for at the address of the folder that was looked up, until one
/// came that said that there are no more.
pub proof fn lemma_listing_is_complete(run: ReadRun, i: int)
    requires
        run.wf(),
        run.turns(i),
        run.reading == Reading::List,
        run.asks[i + 1] matches ReadAskView::Files(_),
    ensures
        run.asks[i + 1]->Files_0 == files_before(run, i + 1),
        run.answers[i] matches ReadAnswer::Page(Ok((_, more))) && !more,
        exists|folder: FileView| #[trigger]
            finds(run, folder) && folder.is_folder && run.asks[i] == ReadAskView::Page(folder.path),
{
    lemma_accounts(run, i);
    if let ReadStageView::Listing { folder, gathered } = run.stages[i] {
        if let ReadAnswer::Page(Ok((page, more))) = run.answers[i] {
            lemma_page_files(gathered, run, i);
            assert(finds(run, folder));
        }
    }
}

/// Content is handed out with the file that was looked up, in the version that is wanted, after all
/// of it came from the first address that the server offered, exactly as many bytes as the file has,
/// and after it was made durable.
pub proof fn lemma_content_is_complete(run: ReadRun, i: int)
    requires
        run.wf(),
        run.turns(i),
        run.reading == Reading::Fetch,
        run.asks[i + 1] matches ReadAskView::File(_),
    ensures
        ({
            let file = run.asks[i + 1]->File_0;
            &&& downloads(run, file)
            &&& bytes_before(run, i) == file.size
            &&& i >= 3 && run.answers[i - 1] is End
            &&& run.asks[i] == ReadAskView::Flush && run.answers[i] matches ReadAnswer::Done(Ok(_))
        }),
{
    lemma_accounts(run, i);
}

/// Every block is written before the next one is asked for, and the progress that is told with it is
/// the part of the bytes that have come.
pub proof fn lemma_every_block_is_written(run: ReadRun, i: int)
    requires
        run.wf(),
        run.turns(i),
        !(run.asks[i + 1] is Fail),
    ensures
        run.answers[i] is Block ==> (run.asks[i + 1] matches ReadAskView::Write(progress) && exists|
            file: FileView,
        |
            #![trigger downloads(run, file)]
            downloads(run, file) && progress == permille(
                bytes_before(run, i + 1),
                file.size as int,
            )),
        run.asks[i] is Write ==> run.asks[i + 1] == ReadAskView::Receive,
{
    lemma_accounts(run, i);
    if let ReadStageView::Receiving { file, received } = run.stages[i] {
        assert(downloads(run, file));
    }
}

/// A version is told to be unavailable exactly where one is wanted that the file does not have.
pub proof fn lemma_version_is_unavailable(run: ReadRun, file: FileView)
    requires
        run.wf(),
        run.reading == Reading::Fetch,
        finds(run, file),
    ensures
        run.asks[1] == ReadAskView::VersionUnavailable <==> run.wanted.len() > 0
            && file.primary_entity != Some(run.wanted),
{
    assert(run.turns(0));
    lemma_accounts(run, 0);
}

/// Whether an answer is of the kind that was asked for.
pub open spec fn fits(ask: ReadAskView, answer: ReadAnswer) -> bool {
    match ask {
        ReadAskView::Item(_) => answer is File,
        ReadAskView::Page(_) => answer is Page,
        ReadAskView::Urls(_, _) => answer is Urls,
        ReadAskView::Download(_) => answer is Block || answer is End,
        ReadAskView::Receive => answer is Block || answer is End,
        ReadAskView::Write(_) => answer is Done,
        ReadAskView::Flush => answer is Done,
        _ => false,
    }
}

/// The fault that an answer tells of, if it tells of one.
pub open spec fn told_fault(answer: ReadAnswer) -> Option<Fault> {
    match answer {
        ReadAnswer::File(Err(fault)) => Some(fault),
        ReadAnswer::Page(Err(fault)) => Some(fault),
        ReadAnswer::Urls(Err(fault)) => Some(fault),
        ReadAnswer::Block(Err(fault)) => Some(fault),
        ReadAnswer::Done(Err(fault)) => Some(fault),
        _ => None,
    }
}

/// Why a run that got an answer of the right kind at turn `i`, without a fault in it, fails with
/// `fault`.
pub open spec fn is_reason(run: ReadRun, i: int, fault: Fault) -> bool {
    match run.answers[i] {
        ReadAnswer::File(Ok((file, uri))) => match scope_fault(run.root, uri@) {
            Some(error) => fault == scope_told(error),
            None => run.reading == Reading::List && !file@.is_folder && fault == Fault::Other(
                "not folder",
            ),
        },
        ReadAnswer::Page(Ok((page, _))) => exists|k: int, error: crate::scope::ScopeError|
            0 <= k < page@.len() && #[trigger] scope_fault(run.root, page@[k].1@) == Some(error)
                && fault == #[trigger] scope_told(error),
        ReadAnswer::Urls(Ok(urls)) => urls@.len() == 0 && fault == Fault::Other("missing URL"),
        ReadAnswer::Block(Ok(len)) => exists|file: FileView|
            #![trigger downloads(run, file)]
            downloads(run, file) && (file.size < 0 && fault == Fault::Other("negative size")
                || bytes_before(run, i + 1) > file.size && fault == Fault::Other(
                "oversized response",
            )),
        ReadAnswer::End => exists|file: FileView|
            #![trigger downloads(run, file)]
            downloads(run, file) && (file.size < 0 && fault == Fault::Other("negative size")
                || bytes_before(run, i) != file.size && fault == Fault::Other("size mismatch")),
        _ => false,
    }
}

proof fn lemma_scope_fault_is_of_one(root: CrUriView, entries: Seq<(FileView, CrUriView)>) -> (k: int)
    requires
        first_scope_fault(root, entries) is Some,
    ensures
        0 <= k < entries.len(),
        scope_fault(root, entries[k].1) == first_scope_fault(root, entries),
    decreases entries.len(),
{
    if first_scope_fault(root, entries.drop_last()) is Some {
        let k = lemma_scope_fault_is_of_one(root, entries.drop_last());
        assert(entries.drop_last()[k] == entries[k]);
        k
    } else {
        entries.len() - 1
    }
}

/// A reading begins wherever its root is in its own scope, and fails only for a reason: a fault that
/// it was told of, which is handed on; a file out of scope; a folder that is none; content without an
/// address, or of another size than the file has.
pub proof fn lemma_failures_have_reasons(run: ReadRun, i: int)
    requires
        run.wf(),
    ensures
        run.asks[0] == ReadAskView::Item(run.id) <==> scope_fault(run.root, run.root) is None,
        run.turns(i) && fits(run.asks[i], run.answers[i]) ==> (run.asks[i + 1]
            matches ReadAskView::Fail(fault) ==> match told_fault(run.answers[i]) {
            Some(told) => fault == told,
            None => is_reason(run, i, fault),
        }),
{
    if run.turns(i) && fits(run.asks[i], run.answers[i]) {
        lemma_accounts(run, i);
        match (run.stages[i], run.answers[i]) {
            (
                ReadStageView::Listing { folder, gathered },
                ReadAnswer::Page(Ok((page, more))),
            ) => {
                if first_scope_fault(run.root, entries_view(page@)) is Some {
                    let k = lemma_scope_fault_is_of_one(run.root, entries_view(page@));
                    assert(entries_view(page@)[k].1 == page@[k].1@);
                    let error = first_scope_fault(run.root, entries_view(page@))->0;
                    assert(scope_fault(run.root, page@[k].1@) == Some(error));
                    assert(run.asks[i + 1]->Fail_0 == scope_told(error));
                }
            },
            (ReadStageView::Receiving { file, received }, _) => {
                assert(downloads(run, file));
            },
            _ => {},
        }
    }
}

} // verus!
