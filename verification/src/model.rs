//! The rows of the catalog and the values that its operations return.

use vstd::prelude::*;

verus! {

/// A folder row.
#[derive(Debug)]
pub struct Folder {
    pub id: i64,
    /// The row of the folder that holds this one; `None` directly below the root.
    pub parent_id: Option<i64>,
    /// The last segment of `rel_path`.
    pub name: String,
    pub rel_path: String,
    /// `rel_path` under the contexts root.
    pub abs_path: String,
    pub description: String,
    pub created_at: String,
    pub updated_at: String,
}

/// A document row.
#[derive(Debug)]
pub struct Doc {
    pub id: i64,
    /// The row of the folder that holds the document.
    pub folder_id: i64,
    /// The file name: the last segment of `rel_path`.
    pub name: String,
    pub rel_path: String,
    /// `rel_path` under the contexts root.
    pub abs_path: String,
    pub description: String,
    /// An identifier that stays with the document when it is renamed or moved.
    pub stable_id: String,
    pub created_at: String,
    pub updated_at: String,
}

/// One line of a manifest.
#[derive(Debug)]
pub struct DocManifestEntry {
    pub doc_name: String,
    pub rel_path: String,
    pub abs_path: String,
    pub stable_id: String,
    pub description: String,
    pub updated_at: String,
}

/// Paths given by the caller that take precedence over the surroundings.
#[derive(Debug, Default)]
pub struct EnvOverrides {
    pub base_root: Option<String>,
    pub contexts_root: Option<String>,
    pub db_path: Option<String>,
}

/// The resolved locations of the document tree and of the metadata store.
#[derive(Debug)]
pub struct EnvInfo {
    pub contexts_root: String,
    pub db_path: String,
}

/// What `create_folder` reports.
#[derive(Debug)]
pub struct FolderSummary {
    pub rel_path: String,
    pub abs_path: String,
    pub description: String,
}

/// What a rename or a move reports.
#[derive(Debug)]
pub struct RenameResult {
    pub old_path: String,
    pub new_path: String,
}

/// What a removal reports.
#[derive(Debug)]
pub struct Removed {
    pub rel_path: String,
}

/// What `create_doc` reports.
#[derive(Debug)]
pub struct DocCreated {
    pub rel_path: String,
    pub abs_path: String,
    pub description: String,
    pub stable_id: String,
}

/// What `set_doc_description` reports.
#[derive(Debug)]
pub struct DocSummary {
    pub rel_path: String,
    pub description: String,
}

/// What `save_doc_content` reports.
#[derive(Debug)]
pub struct DocSaved {
    pub rel_path: String,
    pub abs_path: String,
}

/// A folder row as a mathematical value.
pub ghost struct FolderView {
    pub id: int,
    pub parent_id: Option<int>,
    pub name: Seq<char>,
    pub rel_path: Seq<char>,
    pub abs_path: Seq<char>,
    pub description: Seq<char>,
    pub created_at: Seq<char>,
    pub updated_at: Seq<char>,
}

/// A document row as a mathematical value.
pub ghost struct DocView {
    pub id: int,
    pub folder_id: int,
    pub name: Seq<char>,
    pub rel_path: Seq<char>,
    pub abs_path: Seq<char>,
    pub description: Seq<char>,
    pub stable_id: Seq<char>,
    pub created_at: Seq<char>,
    pub updated_at: Seq<char>,
}

/// A manifest line as a mathematical value.
pub ghost struct ManifestView {
    pub doc_name: Seq<char>,
    pub rel_path: Seq<char>,
    pub abs_path: Seq<char>,
    pub stable_id: Seq<char>,
    pub description: Seq<char>,
    pub updated_at: Seq<char>,
}

impl View for Folder {
    type V = FolderView;

    open spec fn view(&self) -> FolderView {
        FolderView {
            id: self.id as int,
            parent_id: match self.parent_id {
                Some(p) => Some(p as int),
                None => None,
            },
            name: self.name@,
            rel_path: self.rel_path@,
            abs_path: self.abs_path@,
            description: self.description@,
            created_at: self.created_at@,
            updated_at: self.updated_at@,
        }
    }
}

impl View for Doc {
    type V = DocView;

    open spec fn view(&self) -> DocView {
        DocView {
            id: self.id as int,
            folder_id: self.folder_id as int,
            name: self.name@,
            rel_path: self.rel_path@,
            abs_path: self.abs_path@,
            description: self.description@,
            stable_id: self.stable_id@,
            created_at: self.created_at@,
            updated_at: self.updated_at@,
        }
    }
}

impl View for DocManifestEntry {
    type V = ManifestView;

    open spec fn view(&self) -> ManifestView {
        ManifestView {
            doc_name: self.doc_name@,
            rel_path: self.rel_path@,
            abs_path: self.abs_path@,
            stable_id: self.stable_id@,
            description: self.description@,
            updated_at: self.updated_at@,
        }
    }
}

/// The manifest line of a document row.
pub open spec fn manifest_of(d: DocView) -> ManifestView {
    ManifestView {
        doc_name: d.name,
        rel_path: d.rel_path,
        abs_path: d.abs_path,
        stable_id: d.stable_id,
        description: d.description,
        updated_at: d.updated_at,
    }
}

/// The views of a sequence of folder rows.
pub open spec fn folder_views(rows: Seq<Folder>) -> Seq<FolderView> {
    Seq::new(rows.len(), |i: int| rows[i]@)
}

/// The views of a sequence of document rows.
pub open spec fn doc_views(rows: Seq<Doc>) -> Seq<DocView> {
    Seq::new(rows.len(), |i: int| rows[i]@)
}

/// The views of a sequence of manifest lines.
pub open spec fn manifest_views(rows: Seq<DocManifestEntry>) -> Seq<ManifestView> {
    Seq::new(rows.len(), |i: int| rows[i]@)
}

impl Clone for Folder {
    fn clone(&self) -> (r: Folder)
        ensures
            r@ == self@,
    {
        Folder {
            id: self.id,
            parent_id: self.parent_id,
            name: self.name.clone(),
            rel_path: self.rel_path.clone(),
            abs_path: self.abs_path.clone(),
            description: self.description.clone(),
            created_at: self.created_at.clone(),
            updated_at: self.updated_at.clone(),
        }
    }
}

impl Clone for Doc {
    fn clone(&self) -> (r: Doc)
        ensures
            r@ == self@,
    {
        Doc {
            id: self.id,
            folder_id: self.folder_id,
            name: self.name.clone(),
            rel_path: self.rel_path.clone(),
            abs_path: self.abs_path.clone(),
            description: self.description.clone(),
            stable_id: self.stable_id.clone(),
            created_at: self.created_at.clone(),
            updated_at: self.updated_at.clone(),
        }
    }
}

impl Doc {
    /// The manifest line of this document.
    pub fn manifest_entry(&self) -> (e: DocManifestEntry)
        ensures
            e@ == manifest_of(self@),
    {
        DocManifestEntry {
            doc_name: self.name.clone(),
            rel_path: self.rel_path.clone(),
            abs_path: self.abs_path.clone(),
            stable_id: self.stable_id.clone(),
            description: self.description.clone(),
            updated_at: self.updated_at.clone(),
        }
    }
}

} // verus!
