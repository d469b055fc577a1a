//! The remote files that the server tells of, and the records kept of synchronized files.
use crate::local_file::{copy_print, opt_print, Fingerprint, FingerprintView};
use crate::outside::{json_text, json_text_member};
use crate::text::{copy_opt_text, opt_text};
use vstd::prelude::*;

verus! {

/// What becomes of a remote entry that is deleted.
#[derive(Debug, Clone, Copy, PartialEq, Eq, Structural)]
pub enum Disposal {
    /// The deletion is soft: the entry can be restored.
    Soft,
    /// The entry is gone for good.
    Permanent,
}

/// What becomes of a remote creation under a name that is taken.
#[derive(Debug, Clone, Copy, PartialEq, Eq, Structural)]
pub enum Taken {
    /// The creation fails, and what has the name is left alone.
    Refuse,
    /// What has the name is handed out in place of something new.
    Adopt,
}

/// A file or folder as the server tells of it.
#[derive(Debug, Clone, PartialEq, Eq)]
pub struct FileResponse {
    pub id: String,
    pub name: String,
    pub path: String,
    pub is_folder: bool,
    pub size: i64,
    pub primary_entity: Option<String>,
    pub created_at: String,
    pub updated_at: String,
    pub metadata: Option<Vec<(String, String)>>,
    pub permission: Option<String>,
    pub shared: Option<bool>,
}

/// A remote file by its values.
pub struct FileView {
    pub id: Seq<char>,
    pub name: Seq<char>,
    pub path: Seq<char>,
    pub is_folder: bool,
    pub size: i64,
    pub primary_entity: Option<Seq<char>>,
    pub created_at: Seq<char>,
    pub updated_at: Seq<char>,
    pub metadata: Option<Seq<(Seq<char>, Seq<char>)>>,
    pub permission: Option<Seq<char>>,
    pub shared: Option<bool>,
}

/// Pairs of texts by their characters.
pub open spec fn pairs(entries: Seq<(String, String)>) -> Seq<(Seq<char>, Seq<char>)> {
    entries.map_values(|e: (String, String)| (e.0@, e.1@))
}

/// A copy of a list of pairs.
pub fn copy_pairs(entries: &Vec<(String, String)>) -> (copy: Vec<(String, String)>)
    ensures
        pairs(copy@) == pairs(entries@),
{
    let mut copy: Vec<(String, String)> = Vec::new();
    let mut i: usize = 0;
    while i < entries.len()
        invariant
            i <= entries.len(),
            copy.len() == i,
            forall|k: int|
                0 <= k < i ==> copy@[k].0@ == entries@[k].0@ && copy@[k].1@ == entries@[k].1@,
        decreases entries.len() - i,
    {
        copy.push((entries[i].0.clone(), entries[i].1.clone()));
        i += 1;
    }
    assert(pairs(copy@) =~= pairs(entries@));
    copy
}

impl View for FileResponse {
    type V = FileView;

    open spec fn view(&self) -> FileView {
        FileView {
            id: self.id@,
            name: self.name@,
            path: self.path@,
            is_folder: self.is_folder,
            size: self.size,
            primary_entity: opt_text(self.primary_entity),
            created_at: self.created_at@,
            updated_at: self.updated_at@,
            metadata: match self.metadata {
                Some(entries) => Some(pairs(entries@)),
                None => None,
            },
            permission: opt_text(self.permission),
            shared: self.shared,
        }
    }
}

impl FileResponse {
    /// A copy of the file.
    pub fn duplicate(&self) -> (copy: FileResponse)
        ensures
            copy@ == self@,
    {
        let entries = match &self.metadata {
            Some(entries) => Some(copy_pairs(entries)),
            None => None,
        };
        FileResponse {
            id: self.id.clone(),
            name: self.name.clone(),
            path: self.path.clone(),
            is_folder: self.is_folder,
            size: self.size,
            primary_entity: copy_opt_text(&self.primary_entity),
            created_at: self.created_at.clone(),
            updated_at: self.updated_at.clone(),
            metadata: entries,
            permission: copy_opt_text(&self.permission),
            shared: self.shared,
        }
    }
}

/// What a record keeps beside the plain columns: the fingerprint of the local content at the last
/// synchronization, and the identity and date of the remote file then.
#[derive(Debug, Clone, PartialEq, Eq)]
pub struct Props {
    pub baseline: Option<Fingerprint>,
    pub remote_id: Option<String>,
    pub remote_updated_at: Option<String>,
}

/// The properties by their values.
pub struct PropsView {
    pub baseline: Option<FingerprintView>,
    pub remote_id: Option<Seq<char>>,
    pub remote_updated_at: Option<Seq<char>>,
}

impl View for Props {
    type V = PropsView;

    open spec fn view(&self) -> PropsView {
        PropsView {
            baseline: opt_print(self.baseline),
            remote_id: opt_text(self.remote_id),
            remote_updated_at: opt_text(self.remote_updated_at),
        }
    }
}

impl Props {
    /// The properties that the JSON text `json` spells, with `baseline` for the fingerprint in it.
    pub fn read(json: &[u8], baseline: Option<Fingerprint>) -> (props: Props)
        ensures
            props@ == (PropsView {
                baseline: opt_print(baseline),
                remote_id: json_text(json@, "remote_id"@),
                remote_updated_at: json_text(json@, "remote_updated_at"@),
            }),
    {
        Props {
            baseline,
            remote_id: json_text_member(json, "remote_id"),
            remote_updated_at: json_text_member(json, "remote_updated_at"),
        }
    }

    /// A copy of the properties.
    pub fn duplicate(&self) -> (copy: Props)
        ensures
            copy@ == self@,
    {
        Props {
            baseline: copy_print(self.baseline.as_ref()),
            remote_id: copy_opt_text(&self.remote_id),
            remote_updated_at: copy_opt_text(&self.remote_updated_at),
        }
    }
}

/// The record kept of a synchronized file.
#[derive(Debug, Clone, PartialEq, Eq)]
pub struct FileMetadata {
    pub id: i64,
    pub drive_id: u128,
    pub local_path: String,
    pub is_folder: bool,
    pub created_at: i64,
    pub updated_at: i64,
    pub size: i64,
    pub etag: String,
    pub metadata: Vec<(String, String)>,
    pub props: Option<Props>,
    pub permissions: String,
    pub shared: bool,
    pub conflict_state: Option<String>,
}

/// A record by its values.
pub struct FileMetadataView {
    pub id: i64,
    pub drive_id: u128,
    pub local_path: Seq<char>,
    pub is_folder: bool,
    pub created_at: i64,
    pub updated_at: i64,
    pub size: i64,
    pub etag: Seq<char>,
    pub metadata: Seq<(Seq<char>, Seq<char>)>,
    pub props: Option<PropsView>,
    pub permissions: Seq<char>,
    pub shared: bool,
    pub conflict_state: Option<Seq<char>>,
}

impl View for FileMetadata {
    type V = FileMetadataView;

    open spec fn view(&self) -> FileMetadataView {
        FileMetadataView {
            id: self.id,
            drive_id: self.drive_id,
            local_path: self.local_path@,
            is_folder: self.is_folder,
            created_at: self.created_at,
            updated_at: self.updated_at,
            size: self.size,
            etag: self.etag@,
            metadata: pairs(self.metadata@),
            props: match self.props {
                Some(props) => Some(props@),
                None => None,
            },
            permissions: self.permissions@,
            shared: self.shared,
            conflict_state: opt_text(self.conflict_state),
        }
    }
}

} // verus!
