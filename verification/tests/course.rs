use cloudreve_sync_core::local_file::{
    fingerprint, EntryKind, Fingerprint, LocalFile, Modified, Stat, Timestamp,
};
use cloudreve_sync_core::local_scan::LocalEntry;
use cloudreve_sync_core::path::LocalPath;
use cloudreve_sync_core::path_map::PathMap;
use cloudreve_sync_core::reconcile::Reconciliation;
use cloudreve_sync_core::records::{Disposal, FileMetadata, FileResponse, Taken};
use cloudreve_sync_core::remote_scan::RemoteEntry;
use cloudreve_sync_core::steps::Transfer;
use cloudreve_sync_core::sync_error::SyncError;
use cloudreve_sync_core::work::{DirectoryState, DriveState, SyncAnswer, SyncAsk};
use std::collections::BTreeMap;

const ID: &str = "0f8fad5b-d9cb-469f-a165-70867728950e";

/// Local and remote entries by their names below the root; a directory has no content.
struct World {
    local: BTreeMap<String, Option<Vec<u8>>>,
    remote: BTreeMap<String, FileResponse>,
    records: BTreeMap<String, FileMetadata>,
    queue: Vec<Transfer>,
    root_present: bool,
    listing_fails: bool,
    page_size: usize,
}

fn missing() -> Stat {
    Stat::Missing("No such file or directory (os error 2)".to_string())
}

fn root_stat() -> Stat {
    Stat::Found(EntryKind::Directory, 0, Modified::At(Timestamp { seconds: 1, nanos: 0 }))
}

fn below(name: &str) -> LocalPath {
    let mut components = vec!["/".to_string(), "r".to_string()];
    if !name.is_empty() {
        components.extend(name.split('/').map(|c| c.to_string()));
    }
    LocalPath { components }
}

fn name_of(path: &LocalPath) -> String {
    path.components[2..].join("/")
}

fn remote(name: &str, data: &str) -> FileResponse {
    FileResponse {
        id: name.to_string(),
        name: name.rsplit('/').next().unwrap().to_string(),
        path: format!("cloudreve://my/{name}"),
        is_folder: false,
        size: data.len() as i64,
        primary_entity: Some(data.to_string()),
        created_at: "2026-01-01T00:00:00Z".to_string(),
        updated_at: "2026-01-01T00:00:00Z".to_string(),
        metadata: None,
        permission: None,
        shared: None,
    }
}

fn folder(name: &str) -> FileResponse {
    let mut made = remote(name, "");
    made.is_folder = true;
    made.primary_entity = None;
    made
}

impl World {
    fn new() -> World {
        World {
            local: BTreeMap::new(),
            remote: BTreeMap::new(),
            records: BTreeMap::new(),
            queue: Vec::new(),
            root_present: true,
            listing_fails: false,
            page_size: 2,
        }
    }

    fn children<'a, T>(map: &'a BTreeMap<String, T>, dir: &str) -> Vec<(&'a String, &'a T)> {
        map.iter()
            .filter(|(name, _)| match name.rsplit_once('/') {
                Some((parent, _)) => parent == dir,
                None => dir.is_empty(),
            })
            .collect()
    }

    fn scan(&self, name: &str) -> Option<Fingerprint> {
        let time = Modified::At(Timestamp { seconds: 1, nanos: 0 });
        let (stat, blocks) = match self.local.get(name) {
            None => (missing(), vec![]),
            Some(None) => (Stat::Found(EntryKind::Directory, 0, time), vec![]),
            Some(Some(bytes)) => (
                Stat::Found(EntryKind::File, bytes.len() as u64, time),
                vec![bytes.clone()],
            ),
        };
        fingerprint(&below(name), stat.clone(), &blocks, stat).unwrap()
    }

    fn entries(&self, dir: &str) -> Vec<LocalEntry> {
        World::children(&self.local, dir)
            .into_iter()
            .map(|(name, _)| LocalEntry {
                name: Some(name.rsplit('/').next().unwrap().to_string()),
                ignored: false,
                checked: Ok(()),
                scanned: Ok(self.scan(name)),
            })
            .collect()
    }

    fn known(&self) -> PathMap<FileMetadata> {
        let mut map = PathMap::new();
        for (name, record) in &self.records {
            map.insert(below(name), record.clone());
        }
        map
    }

    fn active(&self) -> PathMap<()> {
        let mut map = PathMap::new();
        for transfer in &self.queue {
            map.insert(transfer.path.clone(), ());
        }
        map
    }

    fn sync(&mut self) -> Result<(), String> {
        let stat = if self.root_present {
            root_stat()
        } else {
            missing()
        };
        let (mut course, mut ask) = Reconciliation::begin(true, Ok(()), stat, ID, &below(""));
        let mut page = 0;
        loop {
            let answer = match ask {
                SyncAsk::ListRemote(dir) => {
                    if self.listing_fails {
                        return Err("injected listing failure".to_string());
                    }
                    let all = World::children(&self.remote, &name_of(&dir));
                    let from = page * self.page_size;
                    let to = (from + self.page_size).min(all.len());
                    let more = to < all.len();
                    let entries = all[from..to]
                        .iter()
                        .map(|(_, file)| RemoteEntry {
                            file: (*file).clone(),
                            ignored: false,
                            checked: Ok(()),
                        })
                        .collect();
                    page = if more { page + 1 } else { 0 };
                    SyncAnswer::Page(entries, more)
                }
                SyncAsk::ReadDirectory(dir) => {
                    let name = name_of(&dir);
                    SyncAnswer::Directory(DirectoryState {
                        checked: Ok(()),
                        present: name.is_empty() || self.local.get(&name) == Some(&None),
                        entries: self.entries(&name),
                        records: self.known(),
                        active: self.active(),
                    })
                }
                SyncAsk::CreateRemote(path, taken) => {
                    assert_eq!(taken, Taken::Refuse);
                    let name = name_of(&path);
                    assert!(self.remote.insert(name.clone(), folder(&name)).is_none());
                    SyncAnswer::Created(folder(&name))
                }
                SyncAsk::CreateLocal(path) => {
                    let name = name_of(&path);
                    assert!(self.local.insert(name.clone(), None).is_none());
                    SyncAnswer::Scanned(Ok(self.scan(&name)))
                }
                SyncAsk::Keep(record) => {
                    let name = record.local_path.trim_start_matches("/r/").to_string();
                    self.records.insert(name, record);
                    SyncAnswer::Done
                }
                SyncAsk::Forget(path) => {
                    self.records.remove(&name_of(&path));
                    SyncAnswer::Done
                }
                SyncAsk::Queue(transfer) => {
                    self.queue.push(transfer);
                    SyncAnswer::Done
                }
                SyncAsk::ScanLocal(dir) => SyncAnswer::Entries(self.entries(&name_of(&dir))),
                SyncAsk::Inspect => SyncAnswer::Drive(DriveState {
                    records: self.known(),
                    ignored: PathMap::new(),
                    active: self.active(),
                }),
                SyncAsk::CheckPath(_) => SyncAnswer::Checked(Ok(())),
                SyncAsk::Look(path) => SyncAnswer::Scanned(Ok(self.scan(&name_of(&path)))),
                SyncAsk::MoveAside(from, to, _) => {
                    let content = self.local.remove(&name_of(&from)).unwrap();
                    self.local.insert(name_of(&to), content);
                    SyncAnswer::Done
                }
                SyncAsk::LookLocal(path, _) => {
                    let name = name_of(&path);
                    let occupied = !World::children(&self.local, &name).is_empty();
                    SyncAnswer::Local(Ok(self.scan(&name)), occupied)
                }
                SyncAsk::LookRemote(path) => {
                    SyncAnswer::Remote(self.remote[&name_of(&path)].clone())
                }
                SyncAsk::LookInside(path) => {
                    let children = World::children(&self.remote, &name_of(&path));
                    SyncAnswer::Inside(!children.is_empty())
                }
                SyncAsk::RemoveLocal(path, _) => {
                    self.local.remove(&name_of(&path)).unwrap();
                    SyncAnswer::Done
                }
                SyncAsk::RemoveRemote(path, disposal) => {
                    assert_eq!(disposal, Disposal::Soft);
                    self.remote.remove(&name_of(&path)).unwrap();
                    SyncAnswer::Done
                }
                SyncAsk::Finished => return Ok(()),
                SyncAsk::Failed(error) => return Err(error.message()),
            };
            let (next, asked) = course.next(answer);
            course = next;
            ask = asked;
        }
    }

    /// Carries out the queued transfers, each only while the local content is as expected.
    fn settle(&mut self) -> Vec<bool> {
        let mut outcomes = Vec::new();
        for transfer in std::mem::take(&mut self.queue) {
            let name = name_of(&transfer.path);
            if self.scan(&name) != transfer.expected {
                outcomes.push(false);
                continue;
            }
            if transfer.upload {
                let bytes = self.local[&name].clone().unwrap();
                let data = String::from_utf8(bytes).unwrap();
                self.remote.insert(name.clone(), remote(&name, &data));
            } else {
                let data = self.remote[&name].primary_entity.clone().unwrap();
                self.local.insert(name.clone(), Some(data.into_bytes()));
            }
            let file = LocalFile::new(
                transfer.path.clone(),
                below(""),
                1,
                Ok(()),
                Ok(self.scan(&name)),
                None,
            )
            .with_remote_file(&self.remote[&name]);
            let record = file.commit(Ok(()), Ok(self.scan(&name))).unwrap();
            self.records.insert(name, record);
            outcomes.push(true);
        }
        outcomes
    }

    fn content(&self, name: &str) -> Option<&[u8]> {
        self.local.get(name).and_then(|c| c.as_deref())
    }

    fn write(&mut self, name: &str, data: &[u8]) {
        self.local.insert(name.to_string(), Some(data.to_vec()));
    }
}

#[test]
fn download_update_conflict_delete_and_listing_failure() {
    let mut world = World::new();
    world.remote.insert("file.txt".into(), remote("file.txt", "old"));
    world.sync().unwrap();
    world.settle();
    assert_eq!(world.content("file.txt"), Some(&b"old"[..]));
    world.remote.insert("file.txt".into(), remote("file.txt", "new"));
    world.sync().unwrap();
    world.settle();
    assert_eq!(world.content("file.txt"), Some(&b"new"[..]));
    world.write("file.txt", b"local");
    world.remote.insert("file.txt".into(), remote("file.txt", "remote"));
    world.sync().unwrap();
    world.settle();
    assert_eq!(world.content("file.txt"), Some(&b"remote"[..]));
    let conflict = world
        .local
        .keys()
        .find(|name| name.contains("conflict"))
        .unwrap()
        .clone();
    assert_eq!(world.content(&conflict), Some(&b"local"[..]));
    world.local.remove(&conflict);
    world.listing_fails = true;
    assert!(world.sync().is_err());
    assert_eq!(world.content("file.txt"), Some(&b"remote"[..]));
    world.listing_fails = false;
    world.local.remove("file.txt");
    world.sync().unwrap();
    assert!(world.remote.is_empty());
    world.write("empty", b"");
    world.sync().unwrap();
    world.settle();
    assert!(world.remote.contains_key("empty"));
    world.remote.clear();
    world.sync().unwrap();
    assert!(!world.local.contains_key("empty"));
    world
        .remote
        .insert("protected".into(), remote("protected", "data"));
    world.root_present = false;
    assert!(world.sync().is_err());
    assert!(world.remote.contains_key("protected"));
    world.root_present = true;
    world.write("protected", b"editing");
    world.queue.push(Transfer {
        upload: false,
        path: below("protected"),
        expected: None,
    });
    assert_eq!(world.settle(), vec![false]);
    assert_eq!(world.content("protected"), Some(&b"editing"[..]));
}

#[test]
fn the_preserved_copy_is_uploaded_on_the_next_scan() {
    let mut world = World::new();
    world.write("a", b"mine");
    world.remote.insert("a".into(), remote("a", "theirs"));
    world.sync().unwrap();
    world.settle();
    assert_eq!(world.content("a"), Some(&b"theirs"[..]));
    world.sync().unwrap();
    world.settle();
    let copy = world
        .remote
        .keys()
        .find(|name| name.starts_with("a (conflict "))
        .unwrap();
    assert_eq!(world.remote[copy].primary_entity.as_deref(), Some("mine"));
    let before = world.records.len();
    world.sync().unwrap();
    assert!(world.queue.is_empty());
    assert_eq!(world.records.len(), before);
}

#[test]
fn folders_are_created_and_deleted_on_the_other_side() {
    let mut world = World::new();
    world.local.insert("d".into(), None);
    world.local.insert("d/e".into(), None);
    world.write("d/e/f", b"1");
    world.remote.insert("s".into(), folder("s"));
    world.remote.insert("s/t".into(), remote("s/t", "2"));
    world.sync().unwrap();
    world.settle();
    assert!(world.remote["d"].is_folder && world.remote["d/e"].is_folder);
    assert_eq!(world.remote["d/e/f"].primary_entity.as_deref(), Some("1"));
    assert_eq!(world.content("s/t"), Some(&b"2"[..]));
    world.sync().unwrap();
    assert!(world.queue.is_empty());
    for name in ["d", "d/e", "d/e/f"] {
        world.local.remove(name);
    }
    world.remote.remove("s");
    world.remote.remove("s/t");
    world.sync().unwrap();
    assert!(world.remote.is_empty());
    assert!(world.local.is_empty());
    assert!(world.records.is_empty());
}

#[test]
fn a_changed_child_keeps_its_folder() {
    let mut world = World::new();
    world.local.insert("d".into(), None);
    world.write("d/f", b"1");
    world.sync().unwrap();
    world.settle();
    world.sync().unwrap();
    world.write("d/f", b"2");
    world.remote.clear();
    let error = world.sync().unwrap_err();
    assert!(error.starts_with("Remote folder was deleted but local children changed: /r/d;"));
    assert_eq!(world.content("d/f"), Some(&b"2"[..]));
}

#[test]
fn names_that_a_file_system_mixes_up_pause_the_reconciliation() {
    let mut world = World::new();
    world.write("old", b"1");
    world.sync().unwrap();
    world.settle();
    world.remote.clear();
    world.write("A", b"mine");
    world.remote.insert("a".into(), remote("a", "theirs"));
    let error = world.sync().unwrap_err();
    assert!(error.starts_with("Filename collision: "));
    assert_eq!(world.content("old"), Some(&b"1"[..]));
    assert_eq!(world.content("A"), Some(&b"mine"[..]));
    assert_eq!(world.remote["a"].primary_entity.as_deref(), Some("theirs"));
    // A collision on one side alone pauses it as well.
    let mut world = World::new();
    world.remote.insert("x".into(), remote("x", "1"));
    world.remote.insert("X".into(), remote("X", "2"));
    assert!(world.sync().is_err());
    assert!(world.local.is_empty());
    assert_eq!(world.remote.len(), 2);
}

#[test]
fn a_file_and_a_directory_at_one_path_pause_the_reconciliation() {
    // A synchronized directory, in whose place the server has a file now.
    let mut world = World::new();
    world.local.insert("p".into(), None);
    world.sync().unwrap();
    world.remote.insert("p".into(), remote("p", "data"));
    assert_eq!(world.sync(), Err("File/directory conflict: /r/p".to_string()));
    assert!(world.queue.is_empty());
    assert_eq!(world.local.get("p"), Some(&None));
    assert!(!world.remote["p"].is_folder);
    // A synchronized directory, in whose place stands a local file now.
    let mut world = World::new();
    world.remote.insert("p".into(), folder("p"));
    world.sync().unwrap();
    world.write("p", b"mine");
    assert_eq!(world.sync(), Err("File/directory conflict: /r/p".to_string()));
    assert!(world.queue.is_empty());
    assert_eq!(world.content("p"), Some(&b"mine"[..]));
    assert!(world.remote["p"].is_folder);
    // A synchronized file, in whose place stands a local directory now.
    let mut world = World::new();
    world.remote.insert("p".into(), remote("p", "data"));
    world.sync().unwrap();
    world.settle();
    world.local.insert("p".into(), None);
    assert_eq!(world.sync(), Err("File/directory conflict: /r/p".to_string()));
    assert!(world.queue.is_empty());
    assert!(!world.remote["p"].is_folder);
    // Nothing was ever synchronized there; what stands beside it is transferred all the same.
    let mut world = World::new();
    world.local.insert("p".into(), None);
    world.remote.insert("p".into(), remote("p", "data"));
    world.write("q", b"mine");
    assert_eq!(
        world.sync(),
        Err("Directory conflict at /r/p; no content was removed".to_string())
    );
    assert_eq!(world.queue.len(), 1);
    assert_eq!(world.queue[0].path, below("q"));
}

#[test]
fn misplaced_answers_end_a_reconciliation() {
    let (course, _) = Reconciliation::begin(true, Ok(()), root_stat(), ID, &below(""));
    let (course, ask) = course.next(SyncAnswer::Done);
    assert!(matches!(ask, SyncAsk::Failed(SyncError::MisplacedAnswer)));
    let (_, ask) = course.next(SyncAnswer::Page(vec![], false));
    assert!(matches!(ask, SyncAsk::Failed(SyncError::MisplacedAnswer)));
    let (_, ask) = Reconciliation::begin(false, Ok(()), missing(), "", &below(""));
    assert!(matches!(ask, SyncAsk::Finished));
    let (_, ask) = Reconciliation::begin(true, Ok(()), root_stat(), "no id", &below(""));
    assert!(matches!(ask, SyncAsk::Failed(SyncError::InvalidDrive(words))
        if words == "invalid character: found `n` at 0"));
}
