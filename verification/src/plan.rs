//! The plan of a reconciliation: which step is taken at which path, and in what order entries are
//! deleted at the end.
use crate::aliases::{check_aliases, first_alias, no_aliases};
use crate::local_file::{
    baseline, baseline_view, opt_print, opt_print_ref, same_prints, Fingerprint, FingerprintView,
};
use crate::local_scan::{print_views, LocalTree};
use crate::order::path_less;
use crate::path::{below, LocalPath};
use crate::path_map::{increasing, PathMap};
use crate::records::{FileMetadata, FileMetadataView, FileResponse, FileView};
use crate::remote_scan::{file_views, RemoteTree};
use crate::steps::{
    choose_step, early_step, full_step, hidden, is_hidden, opt_file, opt_record, recorded_print, Step,
    Visit, VisitView,
};
use crate::sync::{changed, remote_differs};
use crate::sync_error::{SyncError, SyncErrorView};
use vstd::prelude::*;

verus! {

/// The records of a map, by their values.
pub open spec fn record_views(records: Map<Seq<Seq<char>>, FileMetadata>) -> Map<
    Seq<Seq<char>>,
    FileMetadataView,
> {
    records.map_values(|r: FileMetadata| r@)
}

/// What a map holds under a path, if anything.
pub open spec fn at<V>(map: Map<Seq<Seq<char>>, V>, path: Seq<Seq<char>>) -> Option<V> {
    if map.contains_key(path) {
        Some(map[path])
    } else {
        None
    }
}

/// Both complete trees below one root, free of aliases.
#[derive(Debug)]
pub struct Trees {
    local: LocalTree,
    remote: RemoteTree,
}

impl Trees {
    /// The local entries.
    pub closed spec fn local(&self) -> Map<Seq<Seq<char>>, FingerprintView> {
        self.local@
    }

    /// The remote entries.
    pub closed spec fn remote(&self) -> Map<Seq<Seq<char>>, FileView> {
        self.remote@
    }

    /// The sync root.
    pub closed spec fn root(&self) -> Seq<Seq<char>> {
        self.local.root()
    }

    /// The local directories that were read to the end.
    pub closed spec fn local_listed(&self) -> Set<Seq<Seq<char>>> {
        self.local.listed()
    }

    /// The remote directories whose listing was complete.
    pub closed spec fn remote_listed(&self) -> Set<Seq<Seq<char>>> {
        self.remote.listed()
    }

    /// Both trees are complete.
    pub closed spec fn wf(&self) -> bool {
        self.local.wf() && self.remote.wf() && self.local.root() == self.remote.root()
    }

    /// Both trees are complete: the root and every directory found on a side were listed
    /// completely on that side, and whatever was found stands in such a directory.
    pub proof fn lemma_complete(&self)
        requires
            self.wf(),
        ensures
            self.local_listed().contains(self.root()),
            self.remote_listed().contains(self.root()),
            forall|p: Seq<Seq<char>>| #[trigger]
                self.local().contains_key(p) ==> p.len() > 0 && below(p, self.root())
                    && self.local_listed().contains(p.drop_last()) && (self.local()[p].directory
                    ==> self.local_listed().contains(p)),
            forall|p: Seq<Seq<char>>| #[trigger]
                self.remote().contains_key(p) ==> p.len() > 0 && below(p, self.root())
                    && self.remote_listed().contains(p.drop_last()) && (self.remote()[p].is_folder
                    ==> self.remote_listed().contains(p)),
    {
        self.local.lemma_covers();
        self.remote.lemma_covers();
    }

    /// Joins both complete trees, unless two different paths in them are aliases.
    pub fn new(local: LocalTree, remote: RemoteTree) -> (trees: Result<Trees, SyncError>)
        requires
            local.wf(),
            remote.wf(),
            local.root() == remote.root(),
        ensures
            match trees {
                Ok(trees) => trees.wf() && trees.local() == local@ && trees.remote() == remote@
                    && trees.root() == local.root() && trees.local_listed() == local.listed()
                    && trees.remote_listed() == remote.listed() && no_aliases(
                    local@.dom().union(remote@.dom()),
                ),
                Err(error) => exists|i: int, j: int| #[trigger]
                    first_alias(local.files_map().keys() + remote.files_map().keys(), i, j)
                        && error@ == SyncErrorView::Collision(
                        (local.files_map().keys() + remote.files_map().keys())[i],
                        (local.files_map().keys() + remote.files_map().keys())[j],
                    ),
            },
    {
        let checked = check_aliases(local.files(), remote.files());
        proof {
            assert(local.files_map()@.dom() =~= local@.dom());
            assert(remote.files_map()@.dom() =~= remote@.dom());
        }
        match checked {
            Ok(()) => Ok(Trees { local, remote }),
            Err(collision) => Err(SyncError::Collision(collision.first, collision.second)),
        }
    }
}

/// Whether something below the local folder `path` is not as it was last synchronized.
pub open spec fn local_dirty(
    local: Map<Seq<Seq<char>>, FingerprintView>,
    records: Map<Seq<Seq<char>>, FileMetadataView>,
    path: Seq<Seq<char>>,
) -> bool {
    exists|p: Seq<Seq<char>>| #[trigger]
        local.contains_key(p) && p != path && below(p, path) && recorded_print(at(records, p))
            != Some(local[p])
}

/// Whether something below the remote folder `path` is not as it was last synchronized.
pub open spec fn remote_dirty(
    remote: Map<Seq<Seq<char>>, FileView>,
    records: Map<Seq<Seq<char>>, FileMetadataView>,
    path: Seq<Seq<char>>,
) -> bool {
    exists|p: Seq<Seq<char>>| #[trigger]
        remote.contains_key(p) && p != path && below(p, path) && (!records.contains_key(p)
            || remote_differs(remote[p], records[p]))
}

/// Why a recorded folder that is gone on one side cannot be deleted on the other, if it cannot.
pub open spec fn folder_fault(
    local: Map<Seq<Seq<char>>, FingerprintView>,
    remote: Map<Seq<Seq<char>>, FileView>,
    records: Map<Seq<Seq<char>>, FileMetadataView>,
    ignored: Set<Seq<Seq<char>>>,
    path: Seq<Seq<char>>,
) -> Option<SyncErrorView> {
    if !records[path].is_folder || ignored.contains(path) {
        None
    } else if local.contains_key(path) && !remote.contains_key(path) && local_dirty(
        local,
        records,
        path,
    ) {
        Some(SyncErrorView::RemoteFolderGone(path))
    } else if !local.contains_key(path) && remote.contains_key(path) && remote_dirty(
        remote,
        records,
        path,
    ) {
        Some(SyncErrorView::LocalFolderGone(path))
    } else {
        None
    }
}

/// Whether every recorded folder that is gone on one side can be deleted on the other.
pub open spec fn folders_clean(
    local: Map<Seq<Seq<char>>, FingerprintView>,
    remote: Map<Seq<Seq<char>>, FileView>,
    records: Map<Seq<Seq<char>>, FileMetadataView>,
    ignored: Set<Seq<Seq<char>>>,
) -> bool {
    forall|p: Seq<Seq<char>>| #[trigger]
        records.contains_key(p) ==> folder_fault(local, remote, records, ignored, p) is None
}

fn is_local_dirty(
    local: &PathMap<Fingerprint>,
    records: &PathMap<FileMetadata>,
    path: &LocalPath,
) -> (yes: bool)
    requires
        local.wf(),
        records.wf(),
    ensures
        yes == local_dirty(print_views(local@), record_views(records@), path@),
{
    let ghost prints = print_views(local@);
    let ghost views = record_views(records@);
    let mut i: usize = 0;
    while i < local.len()
        invariant
            local.wf(),
            records.wf(),
            prints == print_views(local@),
            views == record_views(records@),
            i <= local.keys().len(),
            forall|j: int|
                0 <= j < i ==> {
                    let p = #[trigger] local.keys()[j];
                    !(p != path@ && below(p, path@) && recorded_print(at(views, p)) != Some(
                        prints[p],
                    ))
                },
        decreases local.keys().len() - i,
    {
        let key = local.key_at(i);
        let print = local.value_at(i);
        if !key.same(path) && key.is_below(path) {
            let base = match records.get(key) {
                Some(record) => baseline(record),
                None => None,
            };
            assert(opt_print(base) == recorded_print(at(views, key@)));
            if !same_prints(base.as_ref(), Some(print)) {
                assert(prints.contains_key(key@));
                return true;
            }
        }
        i += 1;
    }
    proof {
        local.lemma_keys();
        assert forall|p: Seq<Seq<char>>| #[trigger] prints.contains_key(p) implies !(p != path@
            && below(p, path@) && recorded_print(at(views, p)) != Some(prints[p])) by {
            assert(local@.contains_key(p));
            let j = local.keys().index_of(p);
            assert(local.keys()[j] == p);
        }
    }
    false
}

fn is_remote_dirty(
    remote: &PathMap<FileResponse>,
    records: &PathMap<FileMetadata>,
    path: &LocalPath,
) -> (yes: bool)
    requires
        remote.wf(),
        records.wf(),
    ensures
        yes == remote_dirty(file_views(remote@), record_views(records@), path@),
{
    let ghost files = file_views(remote@);
    let ghost views = record_views(records@);
    let mut i: usize = 0;
    while i < remote.len()
        invariant
            remote.wf(),
            records.wf(),
            files == file_views(remote@),
            views == record_views(records@),
            i <= remote.keys().len(),
            forall|j: int|
                0 <= j < i ==> {
                    let p = #[trigger] remote.keys()[j];
                    !(p != path@ && below(p, path@) && (!views.contains_key(p) || remote_differs(
                        files[p],
                        views[p],
                    )))
                },
        decreases remote.keys().len() - i,
    {
        let key = remote.key_at(i);
        let file = remote.value_at(i);
        if !key.same(path) && key.is_below(path) {
            let dirty = match records.get(key) {
                Some(record) => changed(file, record),
                None => true,
            };
            if dirty {
                assert(files.contains_key(key@));
                return true;
            }
        }
        i += 1;
    }
    proof {
        remote.lemma_keys();
        assert forall|p: Seq<Seq<char>>| #[trigger] files.contains_key(p) implies !(p != path@
            && below(p, path@) && (!views.contains_key(p) || remote_differs(files[p], views[p]))) by {
            assert(remote@.contains_key(p));
            let j = remote.keys().index_of(p);
            assert(remote.keys()[j] == p);
        }
    }
    false
}

/// Checks that every recorded folder that is gone on one side can be deleted on the other. A
/// fingerprint of a directory says nothing of its children, so they are looked at here.
pub fn check_folders(
    trees: &Trees,
    records: &PathMap<FileMetadata>,
    ignored: &PathMap<()>,
) -> (outcome: Result<(), SyncError>)
    requires
        trees.wf(),
        records.wf(),
        ignored.wf(),
    ensures
        match outcome {
            Ok(()) => folders_clean(
                trees.local(),
                trees.remote(),
                record_views(records@),
                ignored@.dom(),
            ),
            Err(error) => exists|i: int|
                0 <= i < records.keys().len() && folder_fault(
                    trees.local(),
                    trees.remote(),
                    record_views(records@),
                    ignored@.dom(),
                    #[trigger] records.keys()[i],
                ) == Some(error@) && forall|j: int|
                    0 <= j < i ==> folder_fault(
                        trees.local(),
                        trees.remote(),
                        record_views(records@),
                        ignored@.dom(),
                        #[trigger] records.keys()[j],
                    ) is None,
        },
{
    let local = trees.local.files();
    let remote = trees.remote.files();
    let ghost views = record_views(records@);
    let mut i: usize = 0;
    while i < records.len()
        invariant
            trees.wf(),
            local.wf(),
            remote.wf(),
            records.wf(),
            ignored.wf(),
            print_views(local@) == trees.local(),
            file_views(remote@) == trees.remote(),
            views == record_views(records@),
            i <= records.keys().len(),
            forall|j: int|
                0 <= j < i ==> folder_fault(
                    trees.local(),
                    trees.remote(),
                    views,
                    ignored@.dom(),
                    #[trigger] records.keys()[j],
                ) is None,
        decreases records.keys().len() - i,
    {
        let path = records.key_at(i);
        let record = records.value_at(i);
        assert(record@ == views[path@]);
        if record.is_folder && !ignored.contains(path) {
            let here = local.contains(path);
            let there = remote.contains(path);
            assert(here == trees.local().contains_key(path@));
            assert(there == trees.remote().contains_key(path@));
            if here && !there && is_local_dirty(local, records, path) {
                return Err(SyncError::RemoteFolderGone(path.duplicate()));
            }
            if !here && there && is_remote_dirty(remote, records, path) {
                return Err(SyncError::LocalFolderGone(path.duplicate()));
            }
        }
        i += 1;
    }
    proof {
        records.lemma_keys();
        assert forall|p: Seq<Seq<char>>| #[trigger] views.contains_key(p) implies folder_fault(
            trees.local(),
            trees.remote(),
            views,
            ignored@.dom(),
            p,
        ) is None by {
            assert(records@.contains_key(p));
            let j = records.keys().index_of(p);
            assert(records.keys()[j] == p);
        }
    }
    Ok(())
}

/// The paths of a list of visits.
pub open spec fn visit_paths(visits: Seq<Visit>) -> Seq<Seq<Seq<char>>> {
    visits.map_values(|v: Visit| v.path@)
}

/// Adds the paths of a map to a set of paths.
fn add_paths<V>(paths: &mut PathMap<()>, map: &PathMap<V>)
    requires
        old(paths).wf(),
        map.wf(),
    ensures
        final(paths).wf(),
        final(paths)@.dom() == old(paths)@.dom().union(map@.dom()),
{
    let ghost before = paths@.dom();
    let mut i: usize = 0;
    while i < map.len()
        invariant
            map.wf(),
            paths.wf(),
            i <= map.keys().len(),
            forall|p: Seq<Seq<char>>| #[trigger]
                paths@.dom().contains(p) <==> before.contains(p) || map.keys().take(
                    i as int,
                ).contains(p),
        decreases map.keys().len() - i,
    {
        let key = map.key_at(i);
        let ghost known = paths@.dom();
        paths.insert(key.duplicate(), ());
        proof {
            let shorter = map.keys().take(i as int);
            let longer = map.keys().take(i + 1);
            assert(longer =~= shorter.push(key@));
            assert forall|p: Seq<Seq<char>>| #[trigger] longer.contains(p) <==> shorter.contains(p)
                || p == key@ by {
                assert(longer[i as int] == key@);
                if shorter.contains(p) {
                    let k = shorter.index_of(p);
                    assert(longer[k] == p);
                }
            }
            assert(paths@.dom() =~= known.insert(key@));
        }
        i += 1;
    }
    proof {
        map.lemma_keys();
        assert(map.keys().take(i as int) =~= map.keys());
        assert(paths@.dom() =~= before.union(map@.dom()));
    }
}

/// The visit of a path when both trees are known completely.
pub open spec fn full_visit(
    local: Map<Seq<Seq<char>>, FingerprintView>,
    remote: Map<Seq<Seq<char>>, FileView>,
    records: Map<Seq<Seq<char>>, FileMetadataView>,
    ignored: Set<Seq<Seq<char>>>,
    active: Set<Seq<Seq<char>>>,
    path: Seq<Seq<char>>,
) -> VisitView {
    VisitView {
        path,
        step: full_step(
            path,
            ignored.contains(path),
            active.contains(path),
            at(local, path),
            at(remote, path),
            at(records, path),
        ),
        local: at(local, path),
        remote: at(remote, path),
    }
}

/// Whether `visits` is the plan for both complete trees: one visit for every path that is known
/// on either side or recorded, but for those where a transfer was begun while the remote tree was
/// scanned, in the order of the paths.
pub open spec fn is_plan(
    visits: Seq<Visit>,
    local: Map<Seq<Seq<char>>, FingerprintView>,
    remote: Map<Seq<Seq<char>>, FileView>,
    records: Map<Seq<Seq<char>>, FileMetadataView>,
    ignored: Set<Seq<Seq<char>>>,
    active: Set<Seq<Seq<char>>>,
    progressed: Set<Seq<Seq<char>>>,
) -> bool {
    &&& increasing(visit_paths(visits))
    &&& forall|p: Seq<Seq<char>>| #[trigger]
        visit_paths(visits).contains(p) <==> (local.contains_key(p) || remote.contains_key(p)
            || records.contains_key(p)) && !progressed.contains(p)
    &&& forall|i: int|
        0 <= i < visits.len() ==> (#[trigger] visits[i])@ == full_visit(
            local,
            remote,
            records,
            ignored,
            active,
            visits[i].path@,
        )
}

/// Plans the reconciliation of both complete trees with the records, unless a folder that is gone
/// on one side cannot be deleted on the other. The sets hold the paths that the user excludes,
/// those of transfers under way, and those where a transfer was begun while the remote tree was
/// scanned: these are reconciled on the next pass, and never deleted on this one.
pub fn plan(
    trees: &Trees,
    records: &PathMap<FileMetadata>,
    ignored: &PathMap<()>,
    active: &PathMap<()>,
    progressed: &PathMap<()>,
) -> (visits: Result<Vec<Visit>, SyncError>)
    requires
        trees.wf(),
        records.wf(),
        ignored.wf(),
        active.wf(),
        progressed.wf(),
    ensures
        match visits {
            Ok(visits) => folders_clean(
                trees.local(),
                trees.remote(),
                record_views(records@),
                ignored@.dom(),
            ) && is_plan(
                visits@,
                trees.local(),
                trees.remote(),
                record_views(records@),
                ignored@.dom(),
                active@.dom(),
                progressed@.dom(),
            ),
            Err(error) => exists|i: int|
                0 <= i < records.keys().len() && folder_fault(
                    trees.local(),
                    trees.remote(),
                    record_views(records@),
                    ignored@.dom(),
                    #[trigger] records.keys()[i],
                ) == Some(error@) && forall|j: int|
                    0 <= j < i ==> folder_fault(
                        trees.local(),
                        trees.remote(),
                        record_views(records@),
                        ignored@.dom(),
                        #[trigger] records.keys()[j],
                    ) is None,
        },
{
    match check_folders(trees, records, ignored) {
        Ok(()) => {},
        Err(error) => {
            return Err(error);
        },
    }
    let local = trees.local.files();
    let remote = trees.remote.files();
    let ghost views = record_views(records@);
    let mut paths: PathMap<()> = PathMap::new();
    add_paths(&mut paths, local);
    add_paths(&mut paths, remote);
    add_paths(&mut paths, records);
    let mut visits: Vec<Visit> = Vec::new();
    let mut i: usize = 0;
    proof {
        assert(visit_paths(visits@) =~= seq![]);
    }
    while i < paths.len()
        invariant
            local.wf(),
            remote.wf(),
            records.wf(),
            ignored.wf(),
            active.wf(),
            progressed.wf(),
            paths.wf(),
            print_views(local@) == trees.local(),
            file_views(remote@) == trees.remote(),
            views == record_views(records@),
            i <= paths.keys().len(),
            increasing(visit_paths(visits@)),
            forall|k: int|
                0 <= k < visits@.len() ==> paths.keys().take(i as int).contains(
                    #[trigger] visit_paths(visits@)[k],
                ) && !progressed@.dom().contains(visit_paths(visits@)[k]),
            forall|k: int|
                0 <= k < i && !progressed@.dom().contains(#[trigger] paths.keys()[k])
                    ==> visit_paths(visits@).contains(paths.keys()[k]),
            forall|k: int|
                0 <= k < visits@.len() ==> (#[trigger] visits@[k])@ == full_visit(
                    trees.local(),
                    trees.remote(),
                    views,
                    ignored@.dom(),
                    active@.dom(),
                    visits@[k].path@,
                ),
        decreases paths.keys().len() - i,
    {
        let path = paths.key_at(i);
        let ghost before = visits@;
        if !progressed.contains(path) {
            let here = local.get(path);
            let there = remote.get(path);
            let record = records.get(path);
            assert(opt_print_ref(here) == at(trees.local(), path@));
            assert(opt_file(there) == at(trees.remote(), path@));
            assert(opt_record(record) == at(views, path@));
            let step = if ignored.contains(path) || is_hidden(path) || active.contains(path) {
                Step::Skip
            } else {
                choose_step(here, there, record)
            };
            visits.push(Visit::new(path, step, here, there));
            proof {
                let shorter = visit_paths(before);
                let longer = visit_paths(visits@);
                assert(longer =~= shorter.push(path@));
                assert(paths.keys().take(i + 1)[i as int] == path@);
                assert forall|k: int| 0 <= k < before.len() implies path_less(
                    #[trigger] longer[k],
                    path@,
                ) by {
                    assert(longer[k] == shorter[k]);
                    let j = paths.keys().take(i as int).index_of(shorter[k]);
                    assert(paths.keys()[j] == shorter[k]);
                    assert(paths.keys()[i as int] == path@);
                }
                assert forall|a: int, b: int| 0 <= a < b < longer.len() implies path_less(
                    #[trigger] longer[a],
                    #[trigger] longer[b],
                ) by {
                    if b < before.len() {
                        assert(longer[a] == shorter[a] && longer[b] == shorter[b]);
                    }
                }
                assert forall|k: int| 0 <= k < visits@.len() implies paths.keys().take(
                    i + 1,
                ).contains(#[trigger] longer[k]) && !progressed@.dom().contains(longer[k]) by {
                    if k < before.len() {
                        assert(longer[k] == shorter[k]);
                        let j = paths.keys().take(i as int).index_of(shorter[k]);
                        assert(paths.keys().take(i + 1)[j] == shorter[k]);
                    }
                }
                assert forall|k: int|
                    0 <= k < i + 1 && !progressed@.dom().contains(#[trigger] paths.keys()[k]) implies longer.contains(
                paths.keys()[k]) by {
                    if k == i {
                        assert(longer[before.len() as int] == path@);
                    } else {
                        let j = shorter.index_of(paths.keys()[k]);
                        assert(longer[j] == paths.keys()[k]);
                    }
                }
            }
        } else {
            proof {
                assert forall|k: int| 0 <= k < visits@.len() implies paths.keys().take(
                    i + 1,
                ).contains(#[trigger] visit_paths(visits@)[k]) by {
                    let p = visit_paths(visits@)[k];
                    let j = paths.keys().take(i as int).index_of(p);
                    assert(paths.keys().take(i + 1)[j] == p);
                }
            }
        }
        i += 1;
    }
    proof {
        paths.lemma_keys();
        assert(paths.keys().take(i as int) =~= paths.keys());
        assert forall|p: Seq<Seq<char>>| #[trigger] visit_paths(visits@).contains(p) <==> (
        trees.local().contains_key(p) || trees.remote().contains_key(p) || views.contains_key(p))
            && !progressed@.dom().contains(p) by {
            assert(paths@.dom().contains(p) <==> trees.local().contains_key(p)
                || trees.remote().contains_key(p) || views.contains_key(p));
            if visit_paths(visits@).contains(p) {
                let k = visit_paths(visits@).index_of(p);
                assert(visit_paths(visits@)[k] == p);
                assert(paths@.contains_key(p));
            } else if paths@.contains_key(p) {
                let k = paths.keys().index_of(p);
                assert(paths.keys()[k] == p);
            }
        }
    }
    Ok(visits)
}

/// The visit of a path when only its own directory is known completely.
pub open spec fn early_visit(
    local: Map<Seq<Seq<char>>, FingerprintView>,
    remote: Map<Seq<Seq<char>>, FileView>,
    records: Map<Seq<Seq<char>>, FileMetadataView>,
    active: Set<Seq<Seq<char>>>,
    path: Seq<Seq<char>>,
) -> VisitView {
    VisitView {
        path,
        step: early_step(
            active.contains(path),
            at(local, path),
            at(remote, path),
            at(records, path),
        ),
        local: at(local, path),
        remote: at(remote, path),
    }
}

/// Whether `visits` is the plan for one directory: one visit for every path that is known on
/// either side, in the order of the paths.
pub open spec fn is_directory_plan(
    visits: Seq<Visit>,
    local: Map<Seq<Seq<char>>, FingerprintView>,
    remote: Map<Seq<Seq<char>>, FileView>,
    records: Map<Seq<Seq<char>>, FileMetadataView>,
    active: Set<Seq<Seq<char>>>,
) -> bool {
    &&& increasing(visit_paths(visits))
    &&& forall|p: Seq<Seq<char>>| #[trigger]
        visit_paths(visits).contains(p) <==> local.contains_key(p) || remote.contains_key(p)
    &&& forall|i: int|
        0 <= i < visits.len() ==> (#[trigger] visits[i])@ == early_visit(
            local,
            remote,
            records,
            active,
            visits[i].path@,
        )
}

/// Plans the transfers in one directory whose listings are complete on both sides, so that a slow
/// or failing descendant does not hold up its siblings. All siblings are checked for aliases before
/// any of them is touched.
pub fn plan_directory(
    local: &PathMap<Fingerprint>,
    remote: &PathMap<FileResponse>,
    records: &PathMap<FileMetadata>,
    active: &PathMap<()>,
) -> (visits: Result<Vec<Visit>, SyncError>)
    requires
        local.wf(),
        remote.wf(),
        records.wf(),
        active.wf(),
    ensures
        match visits {
            Ok(visits) => no_aliases(local@.dom().union(remote@.dom())) && is_directory_plan(
                visits@,
                print_views(local@),
                file_views(remote@),
                record_views(records@),
                active@.dom(),
            ),
            Err(error) => exists|i: int, j: int| #[trigger]
                first_alias(local.keys() + remote.keys(), i, j) && error@
                    == SyncErrorView::Collision(
                    (local.keys() + remote.keys())[i],
                    (local.keys() + remote.keys())[j],
                ),
        },
{
    let mut visits: Vec<Visit> = Vec::new();
    match check_aliases(local, remote) {
        Ok(()) => {},
        Err(collision) => {
            return Err(SyncError::Collision(collision.first, collision.second));
        },
    }
    let ghost prints = print_views(local@);
    let ghost files = file_views(remote@);
    let ghost views = record_views(records@);
    let mut paths: PathMap<()> = PathMap::new();
    add_paths(&mut paths, local);
    add_paths(&mut paths, remote);
    let mut i: usize = 0;
    while i < paths.len()
        invariant
            local.wf(),
            remote.wf(),
            records.wf(),
            active.wf(),
            paths.wf(),
            prints == print_views(local@),
            files == file_views(remote@),
            views == record_views(records@),
            i <= paths.keys().len(),
            visits@.len() == i,
            forall|k: int|
                0 <= k < i ==> (#[trigger] visits@[k])@ == early_visit(
                    prints,
                    files,
                    views,
                    active@.dom(),
                    paths.keys()[k],
                ),
        decreases paths.keys().len() - i,
    {
        let path = paths.key_at(i);
        let here = local.get(path);
        let there = remote.get(path);
        let record = records.get(path);
        assert(opt_print_ref(here) == at(prints, path@));
        assert(opt_file(there) == at(files, path@));
        assert(opt_record(record) == at(views, path@));
        let step = if active.contains(path) {
            Step::Skip
        } else {
            match choose_step(here, there, record) {
                Step::Upload => Step::Upload,
                Step::Download => Step::Download,
                Step::CreateRemoteFolder => Step::CreateRemoteFolder,
                Step::CreateLocalFolder => Step::CreateLocalFolder,
                Step::TypeConflict => Step::TypeConflict,
                _ => Step::Skip,
            }
        };
        visits.push(Visit::new(path, step, here, there));
        i += 1;
    }
    proof {
        paths.lemma_keys();
        assert forall|k: int| 0 <= k < visits@.len() implies #[trigger] visit_paths(visits@)[k]
            == paths.keys()[k] by {
            assert(visits@[k]@.path == paths.keys()[k]);
        }
        assert(visit_paths(visits@) =~= paths.keys());
        assert forall|p: Seq<Seq<char>>| #[trigger] visit_paths(visits@).contains(p) <==> (
        prints.contains_key(p) || files.contains_key(p)) by {
            assert(paths@.dom().contains(p) <==> prints.contains_key(p) || files.contains_key(p));
            assert(paths@.contains_key(p) <==> paths.keys().contains(p));
        }
        assert forall|k: int| 0 <= k < visits@.len() implies (#[trigger] visits@[k])@
            == early_visit(prints, files, views, active@.dom(), visits@[k].path@) by {
            assert(visits@[k]@.path == paths.keys()[k]);
        }
    }
    Ok(visits)
}

/// Whether a step began a transfer or created a folder.
pub open spec fn makes_progress(step: Step) -> bool {
    step == Step::Upload || step == Step::Download || step == Step::CreateRemoteFolder || step
        == Step::CreateLocalFolder
}

/// Takes note of a visit of a directory plan that succeeded: a path where a transfer was begun is
/// left alone for the rest of the reconciliation.
pub fn note_progress(progressed: &mut PathMap<()>, visit: &Visit)
    requires
        old(progressed).wf(),
    ensures
        final(progressed).wf(),
        final(progressed)@.dom() == (if makes_progress(visit.step) {
            old(progressed)@.dom().insert(visit.path@)
        } else {
            old(progressed)@.dom()
        }),
{
    let made = match visit.step {
        Step::Upload => true,
        Step::Download => true,
        Step::CreateRemoteFolder => true,
        Step::CreateLocalFolder => true,
        _ => false,
    };
    if made {
        let ghost before = progressed@;
        progressed.insert(visit.path.duplicate(), ());
        assert(progressed@.dom() =~= before.dom().insert(visit.path@));
    }
}

/// Nothing is deleted on one side unless both trees were listed from the root on, the entry is gone
/// from the other one, and what is left is as it was last synchronized. Nothing excluded, under way
/// or just begun is deleted.
pub proof fn lemma_plan_deletes_only_synchronized(
    trees: &Trees,
    records: Map<Seq<Seq<char>>, FileMetadataView>,
    ignored: Set<Seq<Seq<char>>>,
    active: Set<Seq<Seq<char>>>,
    progressed: Set<Seq<Seq<char>>>,
    visits: Seq<Visit>,
    i: int,
)
    requires
        trees.wf(),
        is_plan(visits, trees.local(), trees.remote(), records, ignored, active, progressed),
        0 <= i < visits.len(),
        visits[i].step == Step::DeleteLocal || visits[i].step == Step::DeleteRemote,
    ensures
        ({
            let path = visits[i].path@;
            &&& trees.local_listed().contains(trees.root())
            &&& trees.remote_listed().contains(trees.root())
            &&& !ignored.contains(path) && !hidden(path) && !active.contains(path)
                && !progressed.contains(path)
            &&& records.contains_key(path)
            &&& visits[i].step == Step::DeleteLocal ==> trees.local().contains_key(path)
                && !trees.remote().contains_key(path) && recorded_print(at(records, path)) == Some(
                trees.local()[path],
            )
            &&& visits[i].step == Step::DeleteRemote ==> trees.remote().contains_key(path)
                && !trees.local().contains_key(path) && !remote_differs(
                trees.remote()[path],
                records[path],
            )
        }),
{
    trees.lemma_complete();
    let path = visits[i].path@;
    assert(visits[i]@.step == visits[i].step);
    assert(visit_paths(visits)[i] == path);
    assert(visit_paths(visits).contains(path));
}

/// A recorded folder is deleted on one side only when everything below it there is as it was last
/// synchronized.
pub proof fn lemma_plan_deletes_only_clean_folders(
    trees: &Trees,
    records: Map<Seq<Seq<char>>, FileMetadataView>,
    ignored: Set<Seq<Seq<char>>>,
    active: Set<Seq<Seq<char>>>,
    progressed: Set<Seq<Seq<char>>>,
    visits: Seq<Visit>,
    i: int,
    child: Seq<Seq<char>>,
)
    requires
        trees.wf(),
        folders_clean(trees.local(), trees.remote(), records, ignored),
        is_plan(visits, trees.local(), trees.remote(), records, ignored, active, progressed),
        0 <= i < visits.len(),
        records[visits[i].path@].is_folder,
        child != visits[i].path@,
        below(child, visits[i].path@),
    ensures
        visits[i].step == Step::DeleteLocal && trees.local().contains_key(child) ==> recorded_print(
            at(records, child),
        ) == Some(trees.local()[child]),
        visits[i].step == Step::DeleteRemote && trees.remote().contains_key(child)
            ==> records.contains_key(child) && !remote_differs(
            trees.remote()[child],
            records[child],
        ),
{
    if visits[i].step == Step::DeleteLocal || visits[i].step == Step::DeleteRemote {
        lemma_plan_deletes_only_synchronized(
            trees,
            records,
            ignored,
            active,
            progressed,
            visits,
            i,
        );
        let path = visits[i].path@;
        assert(folder_fault(trees.local(), trees.remote(), records, ignored, path) is None);
    }
}

/// Nothing is done on this pass about a path where a transfer was begun while the remote tree was
/// scanned: a file that was just uploaded may be missing from the earlier listing.
pub proof fn lemma_just_transferred_is_left_alone(
    local: Map<Seq<Seq<char>>, FingerprintView>,
    remote: Map<Seq<Seq<char>>, FileView>,
    records: Map<Seq<Seq<char>>, FileMetadataView>,
    ignored: Set<Seq<Seq<char>>>,
    active: Set<Seq<Seq<char>>>,
    progressed: Set<Seq<Seq<char>>>,
    visits: Seq<Visit>,
    path: Seq<Seq<char>>,
)
    requires
        is_plan(visits, local, remote, records, ignored, active, progressed),
        progressed.contains(path),
    ensures
        forall|i: int| 0 <= i < visits.len() ==> (#[trigger] visits[i]).path@ != path,
{
    assert forall|i: int| 0 <= i < visits.len() implies (#[trigger] visits[i]).path@ != path by {
        assert(visit_paths(visits)[i] == visits[i].path@);
        assert(visit_paths(visits).contains(visits[i].path@));
    }
}

/// A folder that is gone on one side holds a reconciliation up exactly where it is recorded and not
/// excluded, stands on the other side, and something below it there is not as it was last
/// synchronized.
pub proof fn lemma_folders_hold_up(
    local: Map<Seq<Seq<char>>, FingerprintView>,
    remote: Map<Seq<Seq<char>>, FileView>,
    records: Map<Seq<Seq<char>>, FileMetadataView>,
    ignored: Set<Seq<Seq<char>>>,
    path: Seq<Seq<char>>,
)
    ensures
        folder_fault(local, remote, records, ignored, path) == Some(
            SyncErrorView::RemoteFolderGone(path),
        ) <==> records[path].is_folder && !ignored.contains(path) && local.contains_key(path)
            && !remote.contains_key(path) && exists|p: Seq<Seq<char>>| #[trigger]
            local.contains_key(p) && p.len() > path.len() && p.take(path.len() as int) == path && !(
            records.contains_key(p) && baseline_view(records[p]) == Some(local[p])),
        folder_fault(local, remote, records, ignored, path) == Some(
            SyncErrorView::LocalFolderGone(path),
        ) <==> records[path].is_folder && !ignored.contains(path) && !local.contains_key(path)
            && remote.contains_key(path) && exists|p: Seq<Seq<char>>| #[trigger]
            remote.contains_key(p) && p.len() > path.len() && p.take(path.len() as int) == path && !(
            records.contains_key(p) && !remote_differs(remote[p], records[p])),
        folder_fault(local, remote, records, ignored, path) matches Some(error) ==> error
            == SyncErrorView::RemoteFolderGone(path) || error == SyncErrorView::LocalFolderGone(
            path,
        ),
{
    assert forall|p: Seq<Seq<char>>| below(p, path) && p != path implies #[trigger] p.len()
        > path.len() by {
        if p.len() == path.len() {
            assert(p.take(path.len() as int) =~= p);
        }
    }
    if local_dirty(local, records, path) {
        let p = choose|p: Seq<Seq<char>>| #[trigger]
            local.contains_key(p) && p != path && below(p, path) && recorded_print(at(records, p))
                != Some(local[p]);
        assert(local.contains_key(p) && p.len() > path.len());
    }
    if remote_dirty(remote, records, path) {
        let p = choose|p: Seq<Seq<char>>| #[trigger]
            remote.contains_key(p) && p != path && below(p, path) && (!records.contains_key(p)
                || remote_differs(remote[p], records[p]));
        assert(remote.contains_key(p) && p.len() > path.len());
    }
}

} // verus!
