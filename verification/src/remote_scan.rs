//! The scan of the remote tree, directory by directory and page by page. Only a scan that has
//! listed every folder yields a tree, so that no failed or partial listing passes for an absence.
use crate::local_file::{LocalError, LocalErrorView};
use crate::path::{
    below, check_view, copy_check, lemma_plain_name_stays, plain_name, LocalPath, PathError,
    PathErrorView,
};
use crate::path_map::PathMap;
use crate::records::{FileResponse, FileView};
use crate::sync::{internal_name, is_internal, safe_name};
use crate::sync_error::{SyncError, SyncErrorView};
use vstd::prelude::*;

verus! {

/// The paths of a list, by their components.
pub open spec fn path_views(list: Seq<LocalPath>) -> Seq<Seq<Seq<char>>> {
    list.map_values(|p: LocalPath| p@)
}

/// The files of a map, by their values.
pub open spec fn file_views(files: Map<Seq<Seq<char>>, FileResponse>) -> Map<
    Seq<Seq<char>>,
    FileView,
> {
    files.map_values(|f: FileResponse| f@)
}

/// An entry of a remote listing, with whether the user excludes its local path, and the check of
/// that path.
#[derive(Debug)]
pub struct RemoteEntry {
    pub file: FileResponse,
    pub ignored: bool,
    pub checked: Result<(), PathError>,
}

/// A scan of the remote tree under way.
#[derive(Debug)]
pub struct RemoteScan {
    root: LocalPath,
    waiting: Vec<LocalPath>,
    current: Option<LocalPath>,
    children: PathMap<FileResponse>,
    found: PathMap<FileResponse>,
    listed: Vec<LocalPath>,
    failed: bool,
}

/// A scan of the remote tree by its values.
pub struct RemoteScanView {
    /// The directory where the scan began.
    pub root: Seq<Seq<char>>,
    /// The directories that are still to be listed, the next one first.
    pub waiting: Seq<Seq<Seq<char>>>,
    /// The directory whose listing is under way.
    pub current: Option<Seq<Seq<char>>>,
    /// What the listing under way has given so far.
    pub children: Map<Seq<Seq<char>>, FileView>,
    /// All that has been found.
    pub found: Map<Seq<Seq<char>>, FileView>,
    /// The directories whose listing is complete.
    pub listed: Seq<Seq<Seq<char>>>,
    /// Whether an entry was refused.
    pub failed: bool,
}

impl RemoteScanView {
    /// Whether the listing of a directory is complete, under way or to come.
    pub open spec fn accounted(self, dir: Seq<Seq<char>>) -> bool {
        self.listed.contains(dir) || self.current == Some(dir) || self.waiting.contains(dir)
    }

    /// Whether a directory is listed, or its listing is under way.
    pub open spec fn opened(self, dir: Seq<Seq<char>>) -> bool {
        self.listed.contains(dir) || self.current == Some(dir)
    }

    /// No folder is lost: the root and every folder found are accounted for, and whatever was
    /// found stands in a directory that was listed, below the root.
    pub open spec fn consistent(self) -> bool {
        &&& self.accounted(self.root)
        &&& forall|p: Seq<Seq<char>>| #[trigger]
            self.found.contains_key(p) ==> {
                &&& self.found[p].is_folder ==> self.accounted(p)
                &&& p.len() > 0
                &&& self.opened(p.drop_last())
                &&& below(p, self.root)
            }
        &&& forall|d: Seq<Seq<char>>| #[trigger] self.accounted(d) ==> below(d, self.root)
        &&& forall|p: Seq<Seq<char>>| #[trigger]
            self.children.contains_key(p) ==> self.found.contains_key(p) && self.found[p]
                == self.children[p] && self.current == Some(p.drop_last())
        &&& self.current is None ==> self.children.dom() =~= Set::empty()
    }

    /// Whether every folder has been listed completely and nothing was refused.
    pub open spec fn complete(self) -> bool {
        !self.failed && self.current is None && self.waiting.len() == 0
    }
}

/// The effect of one entry of the listing under way. `ignored` tells whether the user excludes its
/// local path, and `fault` why that path is refused, if it is.
pub open spec fn entry_fault(
    scan: RemoteScanView,
    file: FileView,
    ignored: bool,
    fault: Option<PathErrorView>,
) -> Option<SyncErrorView> {
    let path = scan.current->0.push(file.name);
    if !plain_name(file.name) {
        Some(SyncErrorView::UnsafeName)
    } else if is_internal(file.name) || ignored {
        None
    } else if fault is Some {
        Some(SyncErrorView::Local(LocalErrorView::Path(fault->0)))
    } else if scan.found.contains_key(path) {
        Some(SyncErrorView::Duplicate)
    } else {
        None
    }
}

/// The scan after an entry of the listing under way.
pub open spec fn after_entry(
    scan: RemoteScanView,
    file: FileView,
    ignored: bool,
    fault: Option<PathErrorView>,
) -> RemoteScanView {
    let path = scan.current->0.push(file.name);
    if entry_fault(scan, file, ignored, fault) is Some {
        RemoteScanView { failed: true, ..scan }
    } else if is_internal(file.name) || ignored {
        scan
    } else {
        RemoteScanView {
            waiting: if file.is_folder {
                scan.waiting.push(path)
            } else {
                scan.waiting
            },
            children: scan.children.insert(path, file),
            found: scan.found.insert(path, file),
            ..scan
        }
    }
}

/// The scan after the entries of a page, up to the first one that is refused, and why it is.
pub open spec fn page_outcome(scan: RemoteScanView, entries: Seq<RemoteEntry>) -> (
    RemoteScanView,
    Option<SyncErrorView>,
)
    decreases entries.len(),
{
    if entries.len() == 0 {
        (scan, None)
    } else {
        let (before, error) = page_outcome(scan, entries.drop_last());
        let last = entries.last();
        let fault = check_view(last.checked);
        if error is Some {
            (before, error)
        } else {
            (
                after_entry(before, last.file@, last.ignored, fault),
                entry_fault(before, last.file@, last.ignored, fault),
            )
        }
    }
}

proof fn lemma_page_stays_refused(scan: RemoteScanView, entries: Seq<RemoteEntry>, n: int)
    requires
        0 <= n <= entries.len(),
        page_outcome(scan, entries.take(n)).1 is Some,
    ensures
        page_outcome(scan, entries) == page_outcome(scan, entries.take(n)),
    decreases entries.len() - n,
{
    if n == entries.len() {
        assert(entries.take(n) =~= entries);
    } else {
        assert(entries.take(n + 1).drop_last() =~= entries.take(n));
        lemma_page_stays_refused(scan, entries, n + 1);
    }
}

impl View for RemoteScan {
    type V = RemoteScanView;

    closed spec fn view(&self) -> RemoteScanView {
        RemoteScanView {
            root: self.root@,
            waiting: path_views(self.waiting@),
            current: match self.current {
                Some(dir) => Some(dir@),
                None => None,
            },
            children: file_views(self.children@),
            found: file_views(self.found@),
            listed: path_views(self.listed@),
            failed: self.failed,
        }
    }
}

impl RemoteScan {
    /// The maps are in order and no folder is lost.
    pub closed spec fn wf(&self) -> bool {
        self.children.wf() && self.found.wf() && self@.consistent()
    }

    /// No folder is lost in a scan under way.
    pub proof fn lemma_consistent(&self)
        requires
            self.wf(),
        ensures
            self@.consistent(),
    {
    }

    /// Gives the scan up.
    fn fail(&mut self)
        requires
            old(self).wf(),
        ensures
            final(self).wf(),
            final(self)@ == (RemoteScanView { failed: true, ..old(self)@ }),
    {
        let ghost before = self@;
        self.failed = true;
        proof {
            let after = self@;
            assert forall|d: Seq<Seq<char>>|
                #![trigger before.accounted(d)]
                #![trigger after.accounted(d)]
                before.accounted(d) <==> after.accounted(d) by {}
            assert forall|d: Seq<Seq<char>>| #[trigger] before.opened(d) implies after.opened(d) by {}
            assert(before.accounted(before.root));
        }
    }

    /// Starts a scan at `root`.
    pub fn new(root: &LocalPath) -> (scan: RemoteScan)
        ensures
            scan.wf(),
            scan@ == (RemoteScanView {
                root: root@,
                waiting: seq![root@],
                current: None,
                children: Map::empty(),
                found: Map::empty(),
                listed: Seq::empty(),
                failed: false,
            }),
    {
        let mut waiting: Vec<LocalPath> = Vec::new();
        waiting.push(root.duplicate());
        let scan = RemoteScan {
            root: root.duplicate(),
            waiting,
            current: None,
            children: PathMap::new(),
            found: PathMap::new(),
            listed: Vec::new(),
            failed: false,
        };
        proof {
            assert(scan@.waiting =~= seq![root@]);
            assert(scan@.children =~= Map::empty());
            assert(scan@.found =~= Map::empty());
            assert(scan@.listed =~= Seq::empty());
            assert(scan@.waiting[0] == root@);
            assert(scan@.accounted(root@));
            assert forall|d: Seq<Seq<char>>| #[trigger] scan@.accounted(d) implies below(d, root@) by {
                assert(d == root@);
                assert(d.take(d.len() as int) =~= d);
            }
        }
        scan
    }

    /// The directory to list next, which becomes the one under way; none when all are listed.
    pub fn next_directory(&mut self) -> (dir: Option<LocalPath>)
        requires
            old(self).wf(),
            old(self)@.current is None,
        ensures
            final(self).wf(),
            match dir {
                Some(dir) => old(self)@.waiting.len() > 0 && dir@ == old(self)@.waiting[0]
                    && final(self)@ == (RemoteScanView {
                    waiting: old(self)@.waiting.drop_first(),
                    current: Some(dir@),
                    ..old(self)@
                }),
                None => old(self)@.waiting.len() == 0 && final(self)@ == old(self)@,
            },
    {
        if self.waiting.len() == 0 {
            return None;
        }
        let ghost before = self@;
        let dir = self.waiting.remove(0);
        self.current = Some(dir.duplicate());
        proof {
            let after = self@;
            assert(after.waiting =~= before.waiting.drop_first());
            assert(before.waiting[0] == dir@);
            assert forall|d: Seq<Seq<char>>|
                #![trigger before.accounted(d)]
                #![trigger after.accounted(d)]
                before.accounted(d) <==> after.accounted(d) by {
                if before.waiting.contains(d) {
                    let i = choose|i: int| 0 <= i < before.waiting.len() && before.waiting[i] == d;
                    if i > 0 {
                        assert(after.waiting[i - 1] == d);
                    }
                }
                if after.waiting.contains(d) {
                    let i = choose|i: int| 0 <= i < after.waiting.len() && after.waiting[i] == d;
                    assert(before.waiting[i + 1] == d);
                }
                if d == dir@ {
                    assert(before.waiting.contains(d));
                }
            }
            assert forall|d: Seq<Seq<char>>| #[trigger] before.opened(d) implies after.opened(d) by {}
            assert(before.accounted(before.root));
            assert(after.consistent());
        }
        Some(dir)
    }

    /// The directory whose listing is under way.
    pub fn current_directory(&self) -> (dir: LocalPath)
        requires
            self@.current is Some,
        ensures
            self@.current == Some(dir@),
    {
        self.current.as_ref().unwrap().duplicate()
    }

    /// The local path of an entry of the listing under way, if its name is plain.
    pub fn child_path(&self, name: &str) -> (path: Result<LocalPath, SyncError>)
        requires
            self@.current is Some,
        ensures
            match path {
                Ok(path) => plain_name(name@) && path@ == self@.current->0.push(name@),
                Err(error) => !plain_name(name@) && error@ == SyncErrorView::UnsafeName,
            },
    {
        match safe_name(name) {
            Ok(()) => {},
            Err(_) => {
                return Err(SyncError::UnsafeName);
            },
        }
        match &self.current {
            Some(dir) => Ok(dir.join(name)),
            None => Err(SyncError::UnsafeName),
        }
    }

    /// Takes in one entry of the listing under way. `ignored` tells whether the user excludes its
    /// local path, and `checked` is the outcome of the check of that path.
    pub fn entry(
        &mut self,
        file: &FileResponse,
        ignored: bool,
        checked: Result<(), PathError>,
    ) -> (outcome: Result<(), SyncError>)
        requires
            old(self).wf(),
            old(self)@.current is Some,
        ensures
            final(self).wf(),
            final(self)@ == after_entry(
                old(self)@,
                file@,
                ignored,
                check_view(checked),
            ),
            match outcome {
                Ok(()) => entry_fault(
                    old(self)@,
                    file@,
                    ignored,
                    check_view(checked),
                ) is None,
                Err(error) => entry_fault(
                    old(self)@,
                    file@,
                    ignored,
                    check_view(checked),
                ) == Some(error@),
            },
    {
        let path = match self.child_path(file.name.as_str()) {
            Ok(path) => path,
            Err(error) => {
                self.fail();
                return Err(error);
            },
        };
        if internal_name(file.name.as_str()) || ignored {
            return Ok(());
        }
        match checked {
            Ok(()) => {},
            Err(error) => {
                self.fail();
                return Err(SyncError::Local(LocalError::Path(error)));
            },
        }
        if self.found.contains(&path) {
            self.fail();
            return Err(SyncError::Duplicate);
        }
        let ghost before = self@;
        let ghost at = path@;
        if file.is_folder {
            self.waiting.push(path.duplicate());
        }
        self.children.insert(path.duplicate(), file.duplicate());
        self.found.insert(path, file.duplicate());
        proof {
            let after = self@;
            let dir = before.current->0;
            lemma_plain_name_stays(dir, file@.name);
            if file.is_folder {
                assert(after.waiting =~= before.waiting.push(at));
            } else {
                assert(after.waiting =~= before.waiting);
            }
            assert(after.children =~= before.children.insert(at, file@));
            assert(after.found =~= before.found.insert(at, file@));
            assert(at.drop_last() =~= dir);
            assert(before.accounted(dir));
            assert(below(at, before.root)) by {
                assert(at.take(before.root.len() as int) =~= dir.take(before.root.len() as int));
            }
            assert forall|d: Seq<Seq<char>>| #[trigger] after.accounted(d) <==> before.accounted(d)
                || (file.is_folder && d == at) by {
                if file.is_folder {
                    assert(after.waiting[before.waiting.len() as int] == at);
                    if before.waiting.contains(d) {
                        let i = choose|i: int|
                            0 <= i < before.waiting.len() && before.waiting[i] == d;
                        assert(after.waiting[i] == d);
                    }
                }
            }
            assert(after.consistent());
        }
        Ok(())
    }

    /// Takes in the entries of a page of the listing under way, up to the first one that is
    /// refused.
    pub fn page(&mut self, entries: &Vec<RemoteEntry>) -> (outcome: Result<(), SyncError>)
        requires
            old(self).wf(),
            old(self)@.current is Some,
        ensures
            final(self).wf(),
            final(self)@ == page_outcome(old(self)@, entries@).0,
            final(self)@.current == old(self)@.current,
            final(self)@.root == old(self)@.root,
            match outcome {
                Ok(()) => page_outcome(old(self)@, entries@).1 is None && final(self)@.failed
                    == old(self)@.failed,
                Err(error) => page_outcome(old(self)@, entries@).1 == Some(error@),
            },
    {
        let ghost start = self@;
        let mut i: usize = 0;
        assert(entries@.take(0) =~= seq![]);
        while i < entries.len()
            invariant
                i <= entries.len(),
                start == old(self)@,
                self.wf(),
                start.current is Some,
                self@.current == start.current,
                self@.root == start.root,
                self@.failed == start.failed,
                page_outcome(start, entries@.take(i as int)) == (self@, None::<SyncErrorView>),
            decreases entries.len() - i,
        {
            let entry = &entries[i];
            proof {
                assert(entries@.take(i + 1).drop_last() =~= entries@.take(i as int));
                assert(entries@.take(i + 1).last() == *entry);
            }
            match self.entry(&entry.file, entry.ignored, copy_check(&entry.checked)) {
                Ok(()) => {},
                Err(error) => {
                    proof {
                        lemma_page_stays_refused(start, entries@, i + 1);
                    }
                    return Err(error);
                },
            }
            i += 1;
        }
        assert(entries@.take(i as int) =~= entries@);
        Ok(())
    }

    /// Ends the listing under way, which is now complete, and hands out what it gave.
    pub fn end_directory(&mut self) -> (children: PathMap<FileResponse>)
        requires
            old(self).wf(),
            old(self)@.current is Some,
        ensures
            final(self).wf(),
            children.wf(),
            file_views(children@) == old(self)@.children,
            forall|p: Seq<Seq<char>>| #[trigger]
                children@.contains_key(p) ==> p.len() > 0 && p.drop_last() == old(
                    self,
                )@.current->0,
            final(self)@ == (RemoteScanView {
                current: None,
                children: Map::empty(),
                listed: old(self)@.listed.push(old(self)@.current->0),
                ..old(self)@
            }),
    {
        let ghost before = self@;
        let mut children: PathMap<FileResponse> = PathMap::new();
        std::mem::swap(&mut children, &mut self.children);
        proof {
            assert forall|p: Seq<Seq<char>>| #[trigger] children@.contains_key(p) implies p.len() > 0
                && p.drop_last() == before.current->0 by {
                assert(before.children.contains_key(p));
                assert(before.found.contains_key(p));
            }
        }
        if let Some(dir) = self.current.take() {
            self.listed.push(dir);
        }
        proof {
            let after = self@;
            let dir = before.current->0;
            assert(after.listed =~= before.listed.push(dir));
            assert(after.children =~= Map::empty());
            assert(after.listed[before.listed.len() as int] == dir);
            assert forall|d: Seq<Seq<char>>| #[trigger] before.listed.contains(d) implies after.listed.contains(
                d,
            ) by {
                let i = choose|i: int| 0 <= i < before.listed.len() && before.listed[i] == d;
                assert(after.listed[i] == d);
            }
            assert forall|d: Seq<Seq<char>>| #[trigger] after.accounted(d) <==> before.accounted(d) by {}
            assert forall|d: Seq<Seq<char>>| #[trigger] after.opened(d) <==> before.opened(d) by {}
            assert(before.accounted(before.root));
            assert(after.consistent());
        }
        children
    }

    /// Takes in a folder that was created in the directory `dir` after its listing was complete.
    pub fn add_created(&mut self, dir: &LocalPath, path: LocalPath, file: &FileResponse)
        requires
            old(self).wf(),
            old(self)@.current is None,
            old(self)@.listed.contains(dir@),
            path@.len() == dir@.len() + 1,
            path@.drop_last() == dir@,
        ensures
            final(self).wf(),
            final(self)@ == (RemoteScanView {
                waiting: old(self)@.waiting.push(path@),
                found: old(self)@.found.insert(path@, file@),
                ..old(self)@
            }),
    {
        let ghost before = self@;
        let ghost at = path@;
        self.waiting.push(path.duplicate());
        self.found.insert(path, file.duplicate());
        proof {
            let after = self@;
            assert(after.waiting =~= before.waiting.push(at));
            assert(after.found =~= before.found.insert(at, file@));
            assert(after.waiting[before.waiting.len() as int] == at);
            assert(before.accounted(dir@));
            assert(below(at, before.root)) by {
                assert(at.take(before.root.len() as int) =~= dir@.take(before.root.len() as int));
            }
            assert forall|d: Seq<Seq<char>>| #[trigger] after.accounted(d) <==> before.accounted(d)
                || d == at by {
                if before.waiting.contains(d) {
                    let i = choose|i: int| 0 <= i < before.waiting.len() && before.waiting[i] == d;
                    assert(after.waiting[i] == d);
                }
            }
            assert(before.accounted(before.root));
            assert(after.consistent());
        }
    }

    /// The tree, if every folder has been listed completely and nothing was refused.
    pub fn finish(self) -> (tree: Option<RemoteTree>)
        requires
            self.wf(),
        ensures
            match tree {
                Some(tree) => self@.complete() && tree.wf() && tree@ == self@.found && tree.root()
                    == self@.root && tree.listed() == self@.listed.to_set(),
                None => !self@.complete(),
            },
    {
        if self.failed || self.current.is_some() || self.waiting.len() > 0 {
            return None;
        }
        let ghost view = self@;
        let tree = RemoteTree { root: self.root, files: self.found, listed: self.listed };
        proof {
            assert(view.waiting.len() == 0);
            assert forall|d: Seq<Seq<char>>| #[trigger] view.accounted(d) implies tree.listed().contains(
                d,
            ) by {
                assert(view.listed.contains(d));
            }
            assert(view.accounted(view.root));
            assert forall|p: Seq<Seq<char>>| #[trigger] tree@.contains_key(p) implies {
                &&& tree@[p].is_folder ==> tree.listed().contains(p)
                &&& p.len() > 0
                &&& tree.listed().contains(p.drop_last())
                &&& below(p, tree.root())
            } by {
                assert(view.found.contains_key(p));
                assert(view.opened(p.drop_last()));
            }
        }
        Some(tree)
    }
}

/// A remote tree of which every folder was listed completely.
#[derive(Debug)]
pub struct RemoteTree {
    root: LocalPath,
    files: PathMap<FileResponse>,
    listed: Vec<LocalPath>,
}

impl View for RemoteTree {
    type V = Map<Seq<Seq<char>>, FileView>;

    closed spec fn view(&self) -> Map<Seq<Seq<char>>, FileView> {
        file_views(self.files@)
    }
}

impl RemoteTree {
    /// The directory where the tree begins.
    pub closed spec fn root(&self) -> Seq<Seq<char>> {
        self.root@
    }

    /// The directories whose listing was complete.
    pub closed spec fn listed(&self) -> Set<Seq<Seq<char>>> {
        path_views(self.listed@).to_set()
    }

    /// The tree is complete: the root and every folder in it were listed, and whatever is in it
    /// stands in a listed directory, below the root.
    pub open spec fn covers(&self) -> bool {
        &&& self.listed().contains(self.root())
        &&& forall|p: Seq<Seq<char>>| #[trigger]
            self@.contains_key(p) ==> {
                &&& self@[p].is_folder ==> self.listed().contains(p)
                &&& p.len() > 0
                &&& self.listed().contains(p.drop_last())
                &&& below(p, self.root())
            }
    }

    /// The files as they are kept.
    pub closed spec fn files_map(&self) -> PathMap<FileResponse> {
        self.files
    }

    /// The map is in order and the tree is complete.
    pub closed spec fn wf(&self) -> bool {
        self.files.wf() && self.covers()
    }

    /// The tree is what the kept files are, in the order of their paths.
    pub proof fn lemma_files(&self)
        requires
            self.wf(),
        ensures
            self.files_map().wf(),
            file_views(self.files_map()@) == self@,
    {
    }

    /// A tree is complete.
    pub proof fn lemma_covers(&self)
        requires
            self.wf(),
        ensures
            self.covers(),
    {
    }

    /// The directory where the tree begins.
    pub fn root_path(&self) -> (root: &LocalPath)
        ensures
            root@ == self.root(),
    {
        &self.root
    }

    /// The files, in the order of their paths.
    pub fn files(&self) -> (files: &PathMap<FileResponse>)
        requires
            self.wf(),
        ensures
            *files == self.files_map(),
            files.wf(),
            file_views(files@) == self@,
    {
        &self.files
    }
}

} // verus!
