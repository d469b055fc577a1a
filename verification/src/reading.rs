//! The course of a request that only reads: the properties of a file, the files of a folder, or
//! the content of a file. The caller carries out what is asked for and hands back the answer.
use crate::faults::Fault;
use crate::provider::{
    all_in_scope, entries_view, Fetching, files_of, files_view, first_scope_fault, first_url,
    FolderListing, permille, scope_error, scope_told, version_available,
};
use crate::records::{FileResponse, FileView};
use crate::scope::{in_scope, scope_fault, CrUri, CrUriView};
use crate::text::{copy_opt_text, opt_text};
use vstd::prelude::*;

verus! {

/// What is read.
#[derive(Debug, Clone, Copy, PartialEq, Eq, Structural)]
pub enum Reading {
    /// The properties of a file.
    Item,
    /// The files of a folder.
    List,
    /// The content of a file.
    Fetch,
}

/// What a reading asks its caller for.
#[derive(Debug)]
pub enum ReadAsk {
    /// The file with this identifier.
    Item(String),
    /// The next page of the folder at this address.
    Page(String),
    /// The addresses at which the server offers this version of the content of a file.
    Urls(String, Option<String>),
    /// The content at this address, block by block, into a new file.
    Download(String),
    /// The next block of that content.
    Receive,
    /// The block is written, and the progress is this many thousandths.
    Write(u64),
    /// The written content is made durable.
    Flush,
    /// The file is the outcome.
    File(FileResponse),
    /// The files are the outcome.
    Files(Vec<FileResponse>),
    /// The version that was asked for is not there any more.
    VersionUnavailable,
    /// The reading failed.
    Fail(Fault),
}

/// What a reading asks for, by its values.
pub enum ReadAskView {
    Item(Seq<char>),
    Page(Seq<char>),
    Urls(Seq<char>, Option<Seq<char>>),
    Download(Seq<char>),
    Receive,
    Write(int),
    Flush,
    File(FileView),
    Files(Seq<FileView>),
    VersionUnavailable,
    Fail(Fault),
}

impl View for ReadAsk {
    type V = ReadAskView;

    open spec fn view(&self) -> ReadAskView {
        match *self {
            ReadAsk::Item(id) => ReadAskView::Item(id@),
            ReadAsk::Page(uri) => ReadAskView::Page(uri@),
            ReadAsk::Urls(uri, version) => ReadAskView::Urls(uri@, opt_text(version)),
            ReadAsk::Download(url) => ReadAskView::Download(url@),
            ReadAsk::Receive => ReadAskView::Receive,
            ReadAsk::Write(progress) => ReadAskView::Write(progress as int),
            ReadAsk::Flush => ReadAskView::Flush,
            ReadAsk::File(file) => ReadAskView::File(file@),
            ReadAsk::Files(files) => ReadAskView::Files(files_view(files@)),
            ReadAsk::VersionUnavailable => ReadAskView::VersionUnavailable,
            ReadAsk::Fail(fault) => ReadAskView::Fail(fault),
        }
    }
}

/// What the caller of a reading answers.
#[derive(Debug)]
pub enum ReadAnswer {
    /// A file, with its address.
    File(Result<(FileResponse, CrUri), Fault>),
    /// A page of files, each with its address, and whether there are more.
    Page(Result<(Vec<(FileResponse, CrUri)>, bool), Fault>),
    /// Where the content is.
    Urls(Result<Vec<String>, Fault>),
    /// A block of content of this length has come, or the content failed.
    Block(Result<usize, Fault>),
    /// The content is at its end.
    End,
    /// It is done, or it failed.
    Done(Result<(), Fault>),
}

enum ReadStage {
    FindingItem,
    FindingFolder,
    Listing(FileResponse, FolderListing),
    FindingFile,
    FindingUrls(FileResponse),
    Receiving(FileResponse, Fetching),
    Writing(FileResponse, Fetching),
    Flushing(FileResponse),
    Ended,
}

/// How far a reading has come.
pub enum ReadStageView {
    /// It waits for the file.
    FindingItem,
    /// It waits for the folder.
    FindingFolder,
    /// It waits for a page of the folder, beside what was gathered.
    Listing { folder: FileView, gathered: Seq<(FileView, CrUriView)> },
    /// It waits for the file whose content is wanted.
    FindingFile,
    /// It waits for the addresses of the content.
    FindingUrls { file: FileView },
    /// It waits for a block of the content, beside what was received.
    Receiving { file: FileView, received: int },
    /// It waits for a block to be written.
    Writing { file: FileView, received: int },
    /// It waits for the content to be durable.
    Flushing { file: FileView },
    /// Nothing more.
    Ended,
}

spec fn stage_view(stage: ReadStage) -> ReadStageView {
    match stage {
        ReadStage::FindingItem => ReadStageView::FindingItem,
        ReadStage::FindingFolder => ReadStageView::FindingFolder,
        ReadStage::Listing(folder, listing) => ReadStageView::Listing {
            folder: folder@,
            gathered: listing.gathered(),
        },
        ReadStage::FindingFile => ReadStageView::FindingFile,
        ReadStage::FindingUrls(file) => ReadStageView::FindingUrls { file: file@ },
        ReadStage::Receiving(file, fetching) => ReadStageView::Receiving {
            file: file@,
            received: fetching.received(),
        },
        ReadStage::Writing(file, fetching) => ReadStageView::Writing {
            file: file@,
            received: fetching.received(),
        },
        ReadStage::Flushing(file) => ReadStageView::Flushing { file: file@ },
        ReadStage::Ended => ReadStageView::Ended,
    }
}

spec fn stage_wf(root: CrUriView, stage: ReadStage) -> bool {
    match stage {
        ReadStage::Listing(folder, listing) => all_in_scope(root, listing.gathered()),
        ReadStage::Receiving(file, fetching) => fetching.size() == file.size,
        ReadStage::Writing(file, fetching) => fetching.size() == file.size,
        _ => true,
    }
}

/// A stage and what is asked for in it.
pub type ReadTurn = (ReadStageView, ReadAskView);

/// The reading fails.
pub open spec fn read_failed(fault: Fault) -> ReadTurn {
    (ReadStageView::Ended, ReadAskView::Fail(fault))
}

/// Whether `files` are those of `entries`, which lie in the scope of `root` one and all.
pub open spec fn lists(
    root: CrUriView,
    entries: Seq<(FileView, CrUriView)>,
    files: Seq<FileView>,
) -> bool {
    all_in_scope(root, entries) && files == files_of(entries)
}

/// Whether files that are handed out as those of a folder came with addresses in the scope of
/// `root`.
pub open spec fn in_scope_files(root: CrUriView, ask: ReadAskView) -> bool {
    ask is Files ==> exists|entries: Seq<(FileView, CrUriView)>| #[trigger]
        lists(root, entries, ask->Files_0)
}

/// How a reading begins: the root must itself be in its scope.
pub open spec fn read_begun(root: CrUriView, reading: Reading, id: Seq<char>) -> ReadTurn {
    match scope_fault(root, root) {
        Some(error) => read_failed(scope_told(error)),
        None => (
            match reading {
                Reading::Item => ReadStageView::FindingItem,
                Reading::List => ReadStageView::FindingFolder,
                Reading::Fetch => ReadStageView::FindingFile,
            },
            ReadAskView::Item(id),
        ),
    }
}

/// The folder is known, and its files are listed.
pub open spec fn folder_found(folder: FileView) -> ReadTurn {
    if folder.is_folder {
        (
            ReadStageView::Listing { folder, gathered: Seq::empty() },
            ReadAskView::Page(folder.path),
        )
    } else {
        read_failed(Fault::Other("not folder"))
    }
}

/// A page of the folder has come.
pub open spec fn page_come(
    root: CrUriView,
    folder: FileView,
    gathered: Seq<(FileView, CrUriView)>,
    page: Seq<(FileView, CrUriView)>,
    more: bool,
) -> ReadTurn {
    match first_scope_fault(root, page) {
        Some(error) => read_failed(scope_told(error)),
        None => if more {
            (
                ReadStageView::Listing { folder, gathered: gathered + page },
                ReadAskView::Page(folder.path),
            )
        } else {
            (ReadStageView::Ended, ReadAskView::Files(files_of(gathered + page)))
        },
    }
}

/// The file is known, and the version `wanted` of its content is looked for.
pub open spec fn file_found(file: FileView, wanted: Seq<char>) -> ReadTurn {
    if wanted.len() == 0 || file.primary_entity == Some(wanted) {
        (
            ReadStageView::FindingUrls { file },
            ReadAskView::Urls(file.path, file.primary_entity),
        )
    } else {
        (ReadStageView::Ended, ReadAskView::VersionUnavailable)
    }
}

/// A block of the content has come.
pub open spec fn block_come(file: FileView, received: int, len: usize) -> ReadTurn {
    if file.size < 0 {
        read_failed(Fault::Other("negative size"))
    } else if received + len > file.size {
        read_failed(Fault::Other("oversized response"))
    } else {
        (
            ReadStageView::Writing { file, received: received + len },
            ReadAskView::Write(permille(received + len, file.size as int)),
        )
    }
}

/// The content is at its end.
pub open spec fn content_ended(file: FileView, received: int) -> ReadTurn {
    if file.size < 0 {
        read_failed(Fault::Other("negative size"))
    } else if received != file.size {
        read_failed(Fault::Other("size mismatch"))
    } else {
        (ReadStageView::Flushing { file }, ReadAskView::Flush)
    }
}

/// How a reading in `before` goes on after `answer`. `wanted` is the version of the content that
/// is wanted; it is empty where any will do.
pub open spec fn read_turn(
    root: CrUriView,
    wanted: Seq<char>,
    before: ReadStageView,
    answer: ReadAnswer,
) -> ReadTurn {
    match (before, answer) {
        (ReadStageView::Ended, _) => read_failed(Fault::Other("misplaced answer")),
        (_, ReadAnswer::File(Err(fault))) => read_failed(fault),
        (_, ReadAnswer::Page(Err(fault))) => read_failed(fault),
        (_, ReadAnswer::Urls(Err(fault))) => read_failed(fault),
        (_, ReadAnswer::Block(Err(fault))) => read_failed(fault),
        (_, ReadAnswer::Done(Err(fault))) => read_failed(fault),
        (stage, ReadAnswer::File(Ok((file, uri)))) => match scope_fault(root, uri@) {
            Some(error) => read_failed(scope_told(error)),
            None => match stage {
                ReadStageView::FindingItem => (ReadStageView::Ended, ReadAskView::File(file@)),
                ReadStageView::FindingFolder => folder_found(file@),
                ReadStageView::FindingFile => file_found(file@, wanted),
                _ => read_failed(Fault::Other("misplaced answer")),
            },
        },
        (
            ReadStageView::Listing { folder, gathered },
            ReadAnswer::Page(Ok((page, more))),
        ) => page_come(root, folder, gathered, entries_view(page@), more),
        (ReadStageView::FindingUrls { file }, ReadAnswer::Urls(Ok(urls))) => if urls.len() > 0 {
            (ReadStageView::Receiving { file, received: 0 }, ReadAskView::Download(urls[0]@))
        } else {
            read_failed(Fault::Other("missing URL"))
        },
        (ReadStageView::Receiving { file, received }, ReadAnswer::Block(Ok(len))) => block_come(
            file,
            received,
            len,
        ),
        (ReadStageView::Receiving { file, received }, ReadAnswer::End) => content_ended(
            file,
            received,
        ),
        (ReadStageView::Writing { file, received }, ReadAnswer::Done(Ok(_))) => (
            ReadStageView::Receiving { file, received },
            ReadAskView::Receive,
        ),
        (ReadStageView::Flushing { file }, ReadAnswer::Done(Ok(_))) => (
            ReadStageView::Ended,
            ReadAskView::File(file),
        ),
        _ => read_failed(Fault::Other("misplaced answer")),
    }
}

fn stopped(fault: Fault) -> (turn: (ReadStage, ReadAsk))
    ensures
        turn.0 is Ended,
        (stage_view(turn.0), turn.1@) == read_failed(fault),
{
    (ReadStage::Ended, ReadAsk::Fail(fault))
}

fn after_folder(folder: FileResponse) -> (turn: (ReadStage, ReadAsk))
    ensures
        forall|root: CrUriView| stage_wf(root, turn.0),
        (stage_view(turn.0), turn.1@) == folder_found(folder@),
{
    match FolderListing::begin(&folder) {
        Ok(listing) => {
            let path = folder.path.clone();
            (ReadStage::Listing(folder, listing), ReadAsk::Page(path))
        },
        Err(fault) => stopped(fault),
    }
}

fn after_page(
    root: &CrUri,
    folder: FileResponse,
    listing: FolderListing,
    page: Vec<(FileResponse, CrUri)>,
    more: bool,
) -> (turn: (ReadStage, ReadAsk))
    requires
        all_in_scope(root@, listing.gathered()),
    ensures
        stage_wf(root@, turn.0),
        (stage_view(turn.0), turn.1@) == page_come(
            root@,
            folder@,
            listing.gathered(),
            entries_view(page@),
            more,
        ),
        in_scope_files(root@, turn.1@),
{
    let ghost gathered = listing.gathered();
    let ghost come = entries_view(page@);
    let mut all = listing;
    match all.page(root, page) {
        Ok(()) => {},
        Err(fault) => {
            return stopped(fault);
        },
    }
    proof {
        assert forall|i: int| 0 <= i < (gathered + come).len() implies scope_fault(
            root@,
            (#[trigger] (gathered + come)[i]).1,
        ) is None by {
            if i < gathered.len() {
                assert((gathered + come)[i] == gathered[i]);
            } else {
                assert((gathered + come)[i] == come[i - gathered.len()]);
            }
        }
    }
    if more {
        let path = folder.path.clone();
        (ReadStage::Listing(folder, all), ReadAsk::Page(path))
    } else {
        let files = all.finish();
        let ghost told = files_view(files@);
        let ask = ReadAsk::Files(files);
        proof {
            assert(ask@ == ReadAskView::Files(told));
            assert(lists(root@, gathered + come, ask@->Files_0));
        }
        (ReadStage::Ended, ask)
    }
}

fn after_file(file: FileResponse, wanted: &str) -> (turn: (ReadStage, ReadAsk))
    ensures
        forall|root: CrUriView| stage_wf(root, turn.0),
        (stage_view(turn.0), turn.1@) == file_found(file@, wanted@),
{
    if version_available(&file, wanted) {
        let ask = ReadAsk::Urls(file.path.clone(), copy_opt_text(&file.primary_entity));
        (ReadStage::FindingUrls(file), ask)
    } else {
        (ReadStage::Ended, ReadAsk::VersionUnavailable)
    }
}

fn after_urls(file: FileResponse, urls: Vec<String>) -> (turn: (ReadStage, ReadAsk))
    ensures
        forall|root: CrUriView| stage_wf(root, turn.0),
        (stage_view(turn.0), turn.1@) == (if urls.len() > 0 {
            (
                ReadStageView::Receiving { file: file@, received: 0 },
                ReadAskView::Download(urls[0]@),
            )
        } else {
            read_failed(Fault::Other("missing URL"))
        }),
{
    match first_url(&urls) {
        Ok(url) => {
            let fetching = Fetching::begin(file.size);
            (ReadStage::Receiving(file, fetching), ReadAsk::Download(url.clone()))
        },
        Err(fault) => stopped(fault),
    }
}

fn after_block(file: FileResponse, fetching: Fetching, len: usize) -> (turn: (ReadStage, ReadAsk))
    requires
        fetching.size() == file.size,
    ensures
        forall|root: CrUriView| stage_wf(root, turn.0),
        (stage_view(turn.0), turn.1@) == block_come(file@, fetching.received(), len),
{
    let mut more = fetching;
    match more.block(len) {
        Ok(progress) => (ReadStage::Writing(file, more), ReadAsk::Write(progress)),
        Err(fault) => stopped(fault),
    }
}

fn after_end(file: FileResponse, fetching: Fetching) -> (turn: (ReadStage, ReadAsk))
    requires
        fetching.size() == file.size,
    ensures
        forall|root: CrUriView| stage_wf(root, turn.0),
        (stage_view(turn.0), turn.1@) == content_ended(file@, fetching.received()),
{
    match fetching.finish() {
        Ok(()) => (ReadStage::Flushing(file), ReadAsk::Flush),
        Err(fault) => stopped(fault),
    }
}

/// A reading under way.
pub struct ReadCourse {
    root: CrUri,
    wanted: String,
    stage: ReadStage,
}

impl ReadCourse {
    /// The root of the drive.
    pub closed spec fn root(&self) -> CrUriView {
        self.root@
    }

    /// The version of the content that is wanted; empty where any will do.
    pub closed spec fn wanted(&self) -> Seq<char> {
        self.wanted@
    }

    /// How far the reading has come.
    pub closed spec fn stage(&self) -> ReadStageView {
        stage_view(self.stage)
    }

    /// Content on its way is held to the size of its file, and what was gathered of a folder lies
    /// in scope.
    pub closed spec fn wf(&self) -> bool {
        stage_wf(self.root@, self.stage)
    }

    /// Begins to read the file `id` below `root`.
    pub fn begin(root: CrUri, reading: Reading, id: &str, wanted: String) -> (start: (
        ReadCourse,
        ReadAsk,
    ))
        ensures
            start.0.wf(),
            start.0.root() == root@,
            start.0.wanted() == wanted@,
            (start.0.stage(), start.1@) == read_begun(root@, reading, id@),
    {
        let (stage, ask) = match in_scope(&root, &root) {
            Err(error) => stopped(scope_error(error)),
            Ok(()) => (
                match reading {
                    Reading::Item => ReadStage::FindingItem,
                    Reading::List => ReadStage::FindingFolder,
                    Reading::Fetch => ReadStage::FindingFile,
                },
                ReadAsk::Item(id.to_owned()),
            ),
        };
        (ReadCourse { root, wanted, stage }, ask)
    }

    /// Goes on after an answer: what is asked for next.
    pub fn next(self, answer: ReadAnswer) -> (turn: (ReadCourse, ReadAsk))
        requires
            self.wf(),
        ensures
            turn.0.wf(),
            turn.0.root() == self.root(),
            turn.0.wanted() == self.wanted(),
            (turn.0.stage(), turn.1@) == read_turn(
                self.root(),
                self.wanted(),
                self.stage(),
                answer,
            ),
            in_scope_files(self.root(), turn.1@),
    {
        let root = self.root;
        let wanted = self.wanted;
        let (stage, ask) = match (self.stage, answer) {
            (ReadStage::Ended, _) => stopped(Fault::Other("misplaced answer")),
            (_, ReadAnswer::File(Err(fault))) => stopped(fault),
            (_, ReadAnswer::Page(Err(fault))) => stopped(fault),
            (_, ReadAnswer::Urls(Err(fault))) => stopped(fault),
            (_, ReadAnswer::Block(Err(fault))) => stopped(fault),
            (_, ReadAnswer::Done(Err(fault))) => stopped(fault),
            (stage, ReadAnswer::File(Ok((file, uri)))) => match in_scope(&root, &uri) {
                Err(error) => stopped(scope_error(error)),
                Ok(()) => match stage {
                    ReadStage::FindingItem => (ReadStage::Ended, ReadAsk::File(file)),
                    ReadStage::FindingFolder => after_folder(file),
                    ReadStage::FindingFile => after_file(file, wanted.as_str()),
                    _ => stopped(Fault::Other("misplaced answer")),
                },
            },
            (
                ReadStage::Listing(folder, listing),
                ReadAnswer::Page(Ok((page, more))),
            ) => after_page(&root, folder, listing, page, more),
            (ReadStage::FindingUrls(file), ReadAnswer::Urls(Ok(urls))) => after_urls(file, urls),
            (ReadStage::Receiving(file, fetching), ReadAnswer::Block(Ok(len))) => after_block(
                file,
                fetching,
                len,
            ),
            (ReadStage::Receiving(file, fetching), ReadAnswer::End) => after_end(file, fetching),
            (ReadStage::Writing(file, fetching), ReadAnswer::Done(Ok(()))) => (
                ReadStage::Receiving(file, fetching),
                ReadAsk::Receive,
            ),
            (ReadStage::Flushing(file), ReadAnswer::Done(Ok(()))) => (
                ReadStage::Ended,
                ReadAsk::File(file),
            ),
            _ => stopped(Fault::Other("misplaced answer")),
        };
        (ReadCourse { root, wanted, stage }, ask)
    }
}

/// Whatever the server answers, a file that is handed out as properties or whose content is asked
/// for lies in the scope of the drive.
pub proof fn lemma_only_files_in_scope_are_read(
    root: CrUriView,
    wanted: Seq<char>,
    before: ReadStageView,
    file: FileResponse,
    uri: CrUri,
)
    requires
        scope_fault(root, uri@) is Some,
    ensures
        read_turn(root, wanted, before, ReadAnswer::File(Ok((file, uri)))).1 is Fail,
{
}

/// Content is handed out only when exactly the announced number of bytes came.
pub proof fn lemma_content_has_its_size(
    root: CrUriView,
    wanted: Seq<char>,
    before: ReadStageView,
    answer: ReadAnswer,
)
    ensures
        read_turn(root, wanted, before, answer).0 is Flushing ==> (before matches ReadStageView::Receiving {
            file,
            received,
        } && received == file.size && answer is End),
{
}

} // verus!
