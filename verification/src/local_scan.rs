//! The scan of the local tree, and of a single local directory. Only a scan that has read every
//! directory yields a tree.
use crate::local_file::{
    copy_scan, scan_view, Fingerprint, FingerprintView, LocalError, LocalErrorView, ScanView,
};
use crate::path::{below, check_view, copy_check, LocalPath, PathError, PathErrorView};
use crate::path_map::PathMap;
use crate::remote_scan::{path_views, RemoteTree};
use crate::sync::{internal_name, is_internal};
use crate::sync_error::{SyncError, SyncErrorView};
use crate::text::opt_text;
use vstd::prelude::*;

verus! {

/// The fingerprints of a map, by their values.
pub open spec fn print_views(prints: Map<Seq<Seq<char>>, Fingerprint>) -> Map<
    Seq<Seq<char>>,
    FingerprintView,
> {
    prints.map_values(|p: Fingerprint| p@)
}

/// The name of an entry, if it is a text.
pub open spec fn opt_name(name: Option<&str>) -> Option<Seq<char>> {
    match name {
        Some(name) => Some(name@),
        None => None,
    }
}

/// What an entry of a local directory adds to a scan: an error, nothing, or its fingerprint.
/// `ignored` tells whether the user excludes it, `fault` why its path is refused, if it is, and
/// `scanned` what was found there.
pub open spec fn entry_print(
    name: Option<Seq<char>>,
    ignored: bool,
    fault: Option<PathErrorView>,
    scanned: ScanView,
) -> Result<Option<FingerprintView>, SyncErrorView> {
    match name {
        None => Err(SyncErrorView::NotUtf8),
        Some(name) => if is_internal(name) || ignored {
            Ok(None)
        } else if fault is Some {
            Err(SyncErrorView::Local(LocalErrorView::Path(fault->0)))
        } else {
            match scanned {
                Err(error) => Err(SyncErrorView::Local(error)),
                Ok(None) => Err(SyncErrorView::Disappeared),
                Ok(Some(print)) => Ok(Some(print)),
            }
        },
    }
}

/// What an entry of a local directory adds to a scan.
fn read_entry(
    name: Option<&str>,
    ignored: bool,
    checked: Result<(), PathError>,
    scanned: Result<Option<Fingerprint>, LocalError>,
) -> (outcome: Result<Option<Fingerprint>, SyncError>)
    ensures
        match outcome {
            Ok(Some(print)) => entry_print(
                opt_name(name),
                ignored,
                check_view(checked),
                scan_view(scanned),
            ) == Ok::<Option<FingerprintView>, SyncErrorView>(Some(print@)) && name is Some,
            Ok(None) => entry_print(opt_name(name), ignored, check_view(checked), scan_view(scanned))
                == Ok::<Option<FingerprintView>, SyncErrorView>(None),
            Err(error) => entry_print(
                opt_name(name),
                ignored,
                check_view(checked),
                scan_view(scanned),
            ) == Err::<Option<FingerprintView>, SyncErrorView>(error@),
        },
{
    let text = match name {
        Some(text) => text,
        None => {
            return Err(SyncError::NotUtf8);
        },
    };
    if internal_name(text) || ignored {
        return Ok(None);
    }
    match checked {
        Ok(()) => {},
        Err(error) => {
            return Err(SyncError::Local(LocalError::Path(error)));
        },
    }
    match scanned {
        Err(error) => Err(SyncError::Local(error)),
        Ok(None) => Err(SyncError::Disappeared),
        Ok(Some(print)) => Ok(Some(print)),
    }
}

/// An entry of a local directory, with whether the user excludes it, the check of its path, and
/// what stands there.
#[derive(Debug)]
pub struct LocalEntry {
    pub name: Option<String>,
    pub ignored: bool,
    pub checked: Result<(), PathError>,
    pub scanned: Result<Option<Fingerprint>, LocalError>,
}

/// What an entry adds to a scan.
pub open spec fn print_of(entry: LocalEntry) -> Result<Option<FingerprintView>, SyncErrorView> {
    entry_print(opt_text(entry.name), entry.ignored, check_view(entry.checked), scan_view(entry.scanned))
}

/// The listing of a single local directory under way.
#[derive(Debug)]
pub struct LocalListing {
    dir: LocalPath,
    found: PathMap<Fingerprint>,
    failed: bool,
}

/// The listing of a single local directory by its values.
pub struct LocalListingView {
    /// The directory.
    pub dir: Seq<Seq<char>>,
    /// What has been found in it.
    pub found: Map<Seq<Seq<char>>, FingerprintView>,
    /// Whether an entry was refused.
    pub failed: bool,
}

impl View for LocalListing {
    type V = LocalListingView;

    closed spec fn view(&self) -> LocalListingView {
        LocalListingView { dir: self.dir@, found: print_views(self.found@), failed: self.failed }
    }
}

impl LocalListing {
    /// The map is in order, and whatever was found stands in the directory.
    pub closed spec fn wf(&self) -> bool {
        &&& self.found.wf()
        &&& forall|p: Seq<Seq<char>>| #[trigger]
            self.found@.contains_key(p) ==> p.len() > 0 && p.drop_last() == self.dir@
    }

    /// Starts the listing of `dir`.
    pub fn new(dir: &LocalPath) -> (listing: LocalListing)
        ensures
            listing.wf(),
            listing@ == (LocalListingView { dir: dir@, found: Map::empty(), failed: false }),
    {
        let listing = LocalListing {
            dir: dir.duplicate(),
            found: PathMap::new(),
            failed: false,
        };
        assert(listing@.found =~= Map::empty());
        listing
    }

    /// Takes in one entry of the directory.
    pub fn entry(
        &mut self,
        name: Option<&str>,
        ignored: bool,
        checked: Result<(), PathError>,
        scanned: Result<Option<Fingerprint>, LocalError>,
    ) -> (outcome: Result<(), SyncError>)
        requires
            old(self).wf(),
        ensures
            final(self).wf(),
            ({
                let entry = entry_print(
                    opt_name(name),
                    ignored,
                    check_view(checked),
                    scan_view(scanned),
                );
                match outcome {
                    Ok(()) => entry is Ok && final(self)@ == (match entry->Ok_0 {
                        Some(print) => LocalListingView {
                            found: old(self)@.found.insert(
                                old(self)@.dir.push(opt_name(name)->0),
                                print,
                            ),
                            ..old(self)@
                        },
                        None => old(self)@,
                    }),
                    Err(error) => entry == Err::<Option<FingerprintView>, SyncErrorView>(error@)
                        && final(self)@ == (LocalListingView { failed: true, ..old(self)@ }),
                }
            }),
    {
        match read_entry(name, ignored, checked, scanned) {
            Err(error) => {
                self.failed = true;
                Err(error)
            },
            Ok(None) => Ok(()),
            Ok(Some(print)) => {
                if let Some(name) = name {
                    let path = self.dir.join(name);
                    let ghost at = path@;
                    let ghost before = self@;
                    let ghost print_view = print@;
                    self.found.insert(path, print);
                    proof {
                        assert(at.drop_last() =~= self.dir@);
                        assert(self@.found =~= before.found.insert(at, print_view));
                    }
                }
                Ok(())
            },
        }
    }

    /// Takes in the entries of the directory, up to the first one that is refused.
    pub fn entries(&mut self, entries: &Vec<LocalEntry>) -> (outcome: Result<(), SyncError>)
        requires
            old(self).wf(),
        ensures
            final(self).wf(),
            final(self)@.dir == old(self)@.dir,
            match outcome {
                Ok(()) => first_refused(entries@) is None && final(self)@ == (LocalListingView {
                    found: all_found(old(self)@.found, old(self)@.dir, entries@),
                    ..old(self)@
                }),
                Err(error) => first_refused(entries@) == Some(error@) && final(self)@.failed,
            },
    {
        let ghost start = self@;
        let mut i: usize = 0;
        assert(entries@.take(0) =~= seq![]);
        while i < entries.len()
            invariant
                i <= entries.len(),
                start == old(self)@,
                self.wf(),
                first_refused(entries@.take(i as int)) is None,
                self@ == (LocalListingView {
                    found: all_found(start.found, start.dir, entries@.take(i as int)),
                    ..start
                }),
            decreases entries.len() - i,
        {
            let entry = &entries[i];
            proof {
                assert(entries@.take(i + 1).drop_last() =~= entries@.take(i as int));
                assert(entries@.take(i + 1).last() == *entry);
            }
            let name = match &entry.name {
                Some(name) => Some(name.as_str()),
                None => None,
            };
            match self.entry(
                name,
                entry.ignored,
                copy_check(&entry.checked),
                copy_scan(&entry.scanned),
            ) {
                Ok(()) => {},
                Err(error) => {
                    proof {
                        lemma_stays_refused(entries@, i + 1);
                    }
                    return Err(error);
                },
            }
            i += 1;
        }
        assert(entries@.take(i as int) =~= entries@);
        Ok(())
    }

    /// What the directory holds, if no entry was refused.
    pub fn finish(self) -> (found: Option<PathMap<Fingerprint>>)
        requires
            self.wf(),
        ensures
            match found {
                Some(found) => !self@.failed && found.wf() && print_views(found@) == self@.found
                    && forall|p: Seq<Seq<char>>| #[trigger]
                    found@.contains_key(p) ==> p.len() > 0 && p.drop_last() == self@.dir,
                None => self@.failed,
            },
    {
        if self.failed {
            None
        } else {
            Some(self.found)
        }
    }
}

/// Why the first entry that is refused is, if one is.
pub open spec fn first_refused(entries: Seq<LocalEntry>) -> Option<SyncErrorView>
    decreases entries.len(),
{
    if entries.len() == 0 {
        None
    } else {
        match first_refused(entries.drop_last()) {
            Some(error) => Some(error),
            None => match print_of(entries.last()) {
                Ok(_) => None,
                Err(error) => Some(error),
            },
        }
    }
}

/// What is found in the directory `dir` with the entries, beside what was found before.
pub open spec fn all_found(
    found: Map<Seq<Seq<char>>, FingerprintView>,
    dir: Seq<Seq<char>>,
    entries: Seq<LocalEntry>,
) -> Map<Seq<Seq<char>>, FingerprintView>
    decreases entries.len(),
{
    if entries.len() == 0 {
        found
    } else {
        let before = all_found(found, dir, entries.drop_last());
        match print_of(entries.last()) {
            Ok(Some(print)) => before.insert(dir.push(opt_text(entries.last().name)->0), print),
            _ => before,
        }
    }
}

proof fn lemma_stays_refused(entries: Seq<LocalEntry>, n: int)
    requires
        0 <= n <= entries.len(),
        first_refused(entries.take(n)) is Some,
    ensures
        first_refused(entries) == first_refused(entries.take(n)),
    decreases entries.len() - n,
{
    if n == entries.len() {
        assert(entries.take(n) =~= entries);
    } else {
        assert(entries.take(n + 1).drop_last() =~= entries.take(n));
        lemma_stays_refused(entries, n + 1);
    }
}

/// A scan of the local tree under way.
#[derive(Debug)]
pub struct LocalScan {
    root: LocalPath,
    waiting: Vec<LocalPath>,
    current: Option<LocalPath>,
    found: PathMap<Fingerprint>,
    listed: Vec<LocalPath>,
    failed: bool,
}

/// A scan of the local tree by its values.
pub struct LocalScanView {
    /// The directory where the scan began.
    pub root: Seq<Seq<char>>,
    /// The directories that are still to be read, the next one last.
    pub waiting: Seq<Seq<Seq<char>>>,
    /// The directory that is being read.
    pub current: Option<Seq<Seq<char>>>,
    /// All that has been found.
    pub found: Map<Seq<Seq<char>>, FingerprintView>,
    /// The directories that were read to the end.
    pub listed: Seq<Seq<Seq<char>>>,
    /// Whether an entry was refused.
    pub failed: bool,
}

impl LocalScanView {
    /// Whether a directory was read, is being read or will be read.
    pub open spec fn accounted(self, dir: Seq<Seq<char>>) -> bool {
        self.listed.contains(dir) || self.current == Some(dir) || self.waiting.contains(dir)
    }

    /// Whether a directory was read or is being read.
    pub open spec fn opened(self, dir: Seq<Seq<char>>) -> bool {
        self.listed.contains(dir) || self.current == Some(dir)
    }

    /// No directory is lost: the root and every directory found are accounted for, and whatever
    /// was found stands in a directory that was read, below the root.
    pub open spec fn consistent(self) -> bool {
        &&& self.accounted(self.root)
        &&& forall|p: Seq<Seq<char>>| #[trigger]
            self.found.contains_key(p) ==> {
                &&& self.found[p].directory ==> self.accounted(p)
                &&& p.len() > 0
                &&& self.opened(p.drop_last())
                &&& below(p, self.root)
            }
        &&& forall|d: Seq<Seq<char>>| #[trigger] self.accounted(d) ==> below(d, self.root)
    }

    /// Whether every directory was read to the end and nothing was refused.
    pub open spec fn complete(self) -> bool {
        !self.failed && self.current is None && self.waiting.len() == 0
    }
}

/// The scan after an entry of the directory that is being read.
pub open spec fn after_local_entry(
    scan: LocalScanView,
    name: Option<Seq<char>>,
    entry: Result<Option<FingerprintView>, SyncErrorView>,
) -> LocalScanView {
    match entry {
        Err(_) => LocalScanView { failed: true, ..scan },
        Ok(None) => scan,
        Ok(Some(print)) => {
            let path = scan.current->0.push(name->0);
            LocalScanView {
                waiting: if print.directory {
                    scan.waiting.push(path)
                } else {
                    scan.waiting
                },
                found: scan.found.insert(path, print),
                ..scan
            }
        },
    }
}

/// The scan after entries of the directory that is being read.
pub open spec fn after_local_entries(scan: LocalScanView, entries: Seq<LocalEntry>) -> LocalScanView
    decreases entries.len(),
{
    if entries.len() == 0 {
        scan
    } else {
        let last = entries.last();
        after_local_entry(
            after_local_entries(scan, entries.drop_last()),
            opt_text(last.name),
            print_of(last),
        )
    }
}

impl View for LocalScan {
    type V = LocalScanView;

    closed spec fn view(&self) -> LocalScanView {
        LocalScanView {
            root: self.root@,
            waiting: path_views(self.waiting@),
            current: match self.current {
                Some(dir) => Some(dir@),
                None => None,
            },
            found: print_views(self.found@),
            listed: path_views(self.listed@),
            failed: self.failed,
        }
    }
}

impl LocalScan {
    /// The map is in order and no directory is lost.
    pub closed spec fn wf(&self) -> bool {
        self.found.wf() && self@.consistent()
    }

    /// No directory is lost in a scan under way.
    pub proof fn lemma_consistent(&self)
        requires
            self.wf(),
        ensures
            self@.consistent(),
    {
    }

    /// Starts a scan at the root of the remote tree. It comes after the scan of that tree, during
    /// which transfers went on: what was there before them says nothing of absences.
    pub fn new(remote: &RemoteTree) -> (scan: LocalScan)
        ensures
            scan.wf(),
            scan@ == (LocalScanView {
                root: remote.root(),
                waiting: seq![remote.root()],
                current: None,
                found: Map::empty(),
                listed: Seq::empty(),
                failed: false,
            }),
    {
        let root = remote.root_path();
        let mut waiting: Vec<LocalPath> = Vec::new();
        waiting.push(root.duplicate());
        let scan = LocalScan {
            root: root.duplicate(),
            waiting,
            current: None,
            found: PathMap::new(),
            listed: Vec::new(),
            failed: false,
        };
        proof {
            assert(scan@.waiting =~= seq![root@]);
            assert(scan@.found =~= Map::empty());
            assert(scan@.listed =~= Seq::empty());
            assert(scan@.waiting[0] == root@);
            assert(scan@.accounted(root@));
            assert forall|d: Seq<Seq<char>>| #[trigger] scan@.accounted(d) implies below(d, root@) by {
                assert(d == root@);
                assert(d.take(d.len() as int) =~= d);
            }
        }
        scan
    }

    /// The directory to read next, which becomes the one that is being read; none when all were
    /// read.
    pub fn next_directory(&mut self) -> (dir: Option<LocalPath>)
        requires
            old(self).wf(),
            old(self)@.current is None,
        ensures
            final(self).wf(),
            match dir {
                Some(dir) => old(self)@.waiting.len() > 0 && dir@ == old(self)@.waiting.last()
                    && final(self)@ == (LocalScanView {
                    waiting: old(self)@.waiting.drop_last(),
                    current: Some(dir@),
                    ..old(self)@
                }),
                None => old(self)@.waiting.len() == 0 && final(self)@ == old(self)@,
            },
    {
        let ghost before = self@;
        match self.waiting.pop() {
            None => None,
            Some(dir) => {
                self.current = Some(dir.duplicate());
                proof {
                    let after = self@;
                    assert(after.waiting =~= before.waiting.drop_last());
                    assert(before.waiting.last() == dir@);
                    assert forall|d: Seq<Seq<char>>|
                        #![trigger before.accounted(d)]
                        #![trigger after.accounted(d)]
                        before.accounted(d) <==> after.accounted(d) by {
                        if before.waiting.contains(d) {
                            let i = choose|i: int|
                                0 <= i < before.waiting.len() && before.waiting[i] == d;
                            if i < before.waiting.len() - 1 {
                                assert(after.waiting[i] == d);
                            }
                        }
                        if after.waiting.contains(d) {
                            let i = choose|i: int|
                                0 <= i < after.waiting.len() && after.waiting[i] == d;
                            assert(before.waiting[i] == d);
                        }
                        if d == dir@ {
                            assert(before.waiting.contains(d));
                        }
                    }
                    assert forall|d: Seq<Seq<char>>| #[trigger] before.opened(d) implies after.opened(
                        d,
                    ) by {}
                    assert(before.accounted(before.root));
                    assert(after.consistent());
                }
                Some(dir)
            },
        }
    }

    /// Takes in one entry of the directory that is being read.
    pub fn entry(
        &mut self,
        name: Option<&str>,
        ignored: bool,
        checked: Result<(), PathError>,
        scanned: Result<Option<Fingerprint>, LocalError>,
    ) -> (outcome: Result<(), SyncError>)
        requires
            old(self).wf(),
            old(self)@.current is Some,
        ensures
            final(self).wf(),
            ({
                let entry = entry_print(
                    opt_name(name),
                    ignored,
                    check_view(checked),
                    scan_view(scanned),
                );
                &&& final(self)@ == after_local_entry(old(self)@, opt_name(name), entry)
                &&& match outcome {
                    Ok(()) => entry is Ok,
                    Err(error) => entry == Err::<Option<FingerprintView>, SyncErrorView>(error@),
                }
            }),
    {
        let ghost before = self@;
        match read_entry(name, ignored, checked, scanned) {
            Err(error) => {
                self.failed = true;
                proof {
                    let after = self@;
                    assert forall|d: Seq<Seq<char>>|
                        #![trigger before.accounted(d)]
                        #![trigger after.accounted(d)]
                        before.accounted(d) <==> after.accounted(d) by {}
                    assert forall|d: Seq<Seq<char>>| #[trigger] before.opened(d) implies after.opened(
                        d,
                    ) by {}
                    assert(before.accounted(before.root));
                }
                Err(error)
            },
            Ok(None) => Ok(()),
            Ok(Some(print)) => {
                if let (Some(dir), Some(name)) = (&self.current, name) {
                    let path = dir.join(name);
                    let ghost at = path@;
                    let ghost print_view = print@;
                    if print.directory {
                        self.waiting.push(path.duplicate());
                    }
                    self.found.insert(path, print);
                    proof {
                        let after = self@;
                        let dir = before.current->0;
                        if print_view.directory {
                            assert(after.waiting =~= before.waiting.push(at));
                        } else {
                            assert(after.waiting =~= before.waiting);
                        }
                        assert(after.found =~= before.found.insert(at, print_view));
                        assert(at.drop_last() =~= dir);
                        assert(before.accounted(dir));
                        assert(below(at, before.root)) by {
                            assert(at.take(before.root.len() as int) =~= dir.take(
                                before.root.len() as int,
                            ));
                        }
                        assert forall|d: Seq<Seq<char>>|
                            #![trigger before.accounted(d)]
                            #![trigger after.accounted(d)]
                            after.accounted(d) <==> before.accounted(d) || (print_view.directory
                                && d == at) by {
                            if print_view.directory {
                                assert(after.waiting[before.waiting.len() as int] == at);
                                if before.waiting.contains(d) {
                                    let i = choose|i: int|
                                        0 <= i < before.waiting.len() && before.waiting[i] == d;
                                    assert(after.waiting[i] == d);
                                }
                            }
                        }
                        assert forall|d: Seq<Seq<char>>| #[trigger] before.opened(d) implies after.opened(
                            d,
                        ) by {}
                        assert(after.opened(dir));
                        assert(before.accounted(before.root));
                        assert(after.consistent());
                    }
                }
                Ok(())
            },
        }
    }

    /// Takes in the entries of the directory that is being read, up to the first one that is
    /// refused.
    pub fn entries(&mut self, entries: &Vec<LocalEntry>) -> (outcome: Result<(), SyncError>)
        requires
            old(self).wf(),
            old(self)@.current is Some,
        ensures
            final(self).wf(),
            final(self)@.current == old(self)@.current,
            final(self)@.root == old(self)@.root,
            match outcome {
                Ok(()) => first_refused(entries@) is None && final(self)@ == after_local_entries(
                    old(self)@,
                    entries@,
                ) && final(self)@.failed == old(self)@.failed,
                Err(error) => first_refused(entries@) == Some(error@) && final(self)@.failed,
            },
    {
        let ghost start = self@;
        let mut i: usize = 0;
        assert(entries@.take(0) =~= seq![]);
        while i < entries.len()
            invariant
                i <= entries.len(),
                start == old(self)@,
                self.wf(),
                start.current is Some,
                self@.current == start.current,
                self@.root == start.root,
                self@.failed == start.failed,
                first_refused(entries@.take(i as int)) is None,
                self@ == after_local_entries(start, entries@.take(i as int)),
            decreases entries.len() - i,
        {
            let entry = &entries[i];
            proof {
                assert(entries@.take(i + 1).drop_last() =~= entries@.take(i as int));
                assert(entries@.take(i + 1).last() == *entry);
            }
            let name = match &entry.name {
                Some(name) => Some(name.as_str()),
                None => None,
            };
            match self.entry(
                name,
                entry.ignored,
                copy_check(&entry.checked),
                copy_scan(&entry.scanned),
            ) {
                Ok(()) => {},
                Err(error) => {
                    proof {
                        lemma_stays_refused(entries@, i + 1);
                    }
                    return Err(error);
                },
            }
            i += 1;
        }
        assert(entries@.take(i as int) =~= entries@);
        Ok(())
    }

    /// Ends the reading of a directory, all of whose entries were taken in.
    pub fn end_directory(&mut self)
        requires
            old(self).wf(),
            old(self)@.current is Some,
        ensures
            final(self).wf(),
            final(self)@ == (LocalScanView {
                current: None,
                listed: old(self)@.listed.push(old(self)@.current->0),
                ..old(self)@
            }),
    {
        let ghost before = self@;
        if let Some(dir) = self.current.take() {
            self.listed.push(dir);
        }
        proof {
            let after = self@;
            let dir = before.current->0;
            assert(after.listed =~= before.listed.push(dir));
            assert(after.listed[before.listed.len() as int] == dir);
            assert forall|d: Seq<Seq<char>>| #[trigger] before.listed.contains(d) implies after.listed.contains(
                d,
            ) by {
                let i = choose|i: int| 0 <= i < before.listed.len() && before.listed[i] == d;
                assert(after.listed[i] == d);
            }
            assert forall|d: Seq<Seq<char>>|
                #![trigger before.accounted(d)]
                #![trigger after.accounted(d)]
                before.accounted(d) <==> after.accounted(d) by {}
            assert forall|d: Seq<Seq<char>>| #[trigger] before.opened(d) implies after.opened(d) by {}
            assert(before.accounted(before.root));
            assert(after.consistent());
        }
    }

    /// The tree, if every directory was read to the end and nothing was refused.
    pub fn finish(self) -> (tree: Option<LocalTree>)
        requires
            self.wf(),
        ensures
            match tree {
                Some(tree) => self@.complete() && tree.wf() && tree@ == self@.found && tree.root()
                    == self@.root && tree.listed() == self@.listed.to_set(),
                None => !self@.complete(),
            },
    {
        if self.failed || self.current.is_some() || self.waiting.len() > 0 {
            return None;
        }
        let ghost view = self@;
        let tree = LocalTree { root: self.root, files: self.found, listed: self.listed };
        proof {
            assert(view.waiting.len() == 0);
            assert forall|d: Seq<Seq<char>>| #[trigger] view.accounted(d) implies tree.listed().contains(
                d,
            ) by {
                assert(view.listed.contains(d));
            }
            assert(view.accounted(view.root));
            assert forall|p: Seq<Seq<char>>| #[trigger] tree@.contains_key(p) implies {
                &&& tree@[p].directory ==> tree.listed().contains(p)
                &&& p.len() > 0
                &&& tree.listed().contains(p.drop_last())
                &&& below(p, tree.root())
            } by {
                assert(view.found.contains_key(p));
                assert(view.opened(p.drop_last()));
            }
        }
        Some(tree)
    }
}

/// A local tree of which every directory was read to the end.
#[derive(Debug)]
pub struct LocalTree {
    root: LocalPath,
    files: PathMap<Fingerprint>,
    listed: Vec<LocalPath>,
}

impl View for LocalTree {
    type V = Map<Seq<Seq<char>>, FingerprintView>;

    closed spec fn view(&self) -> Map<Seq<Seq<char>>, FingerprintView> {
        print_views(self.files@)
    }
}

impl LocalTree {
    /// The directory where the tree begins.
    pub closed spec fn root(&self) -> Seq<Seq<char>> {
        self.root@
    }

    /// The directories that were read to the end.
    pub closed spec fn listed(&self) -> Set<Seq<Seq<char>>> {
        path_views(self.listed@).to_set()
    }

    /// The tree is complete: the root and every directory in it were read, and whatever is in it
    /// stands in a directory that was read, below the root.
    pub open spec fn covers(&self) -> bool {
        &&& self.listed().contains(self.root())
        &&& forall|p: Seq<Seq<char>>| #[trigger]
            self@.contains_key(p) ==> {
                &&& self@[p].directory ==> self.listed().contains(p)
                &&& p.len() > 0
                &&& self.listed().contains(p.drop_last())
                &&& below(p, self.root())
            }
    }

    /// The files as they are kept.
    pub closed spec fn files_map(&self) -> PathMap<Fingerprint> {
        self.files
    }

    /// The map is in order and the tree is complete.
    pub closed spec fn wf(&self) -> bool {
        self.files.wf() && self.covers()
    }

    /// The tree is what the kept files are, in the order of their paths.
    pub proof fn lemma_files(&self)
        requires
            self.wf(),
        ensures
            self.files_map().wf(),
            print_views(self.files_map()@) == self@,
    {
    }

    /// A tree is complete.
    pub proof fn lemma_covers(&self)
        requires
            self.wf(),
        ensures
            self.covers(),
    {
    }

    /// The files, in the order of their paths.
    pub fn files(&self) -> (files: &PathMap<Fingerprint>)
        requires
            self.wf(),
        ensures
            *files == self.files_map(),
            files.wf(),
            print_views(files@) == self@,
    {
        &self.files
    }
}

} // verus!
