#![allow(dead_code, unused_imports)]

use opencontext_core::error::CoreError;
use opencontext_core::events::{Applied, Event, FsOp};
use opencontext_core::locations::Surroundings;
use opencontext_core::model::{
    Doc, DocCreated, DocManifestEntry, DocSaved, DocSummary, EnvOverrides, Folder, FolderSummary,
    Removed, RenameResult,
};
use opencontext_core::service::OpenContext;
use std::collections::{BTreeMap, BTreeSet};

const TS: &str = "2024-05-01T10:00:00.000Z";

/// A file system in memory that carries out what the catalog asks for.
#[derive(Default)]
struct Disk {
    dirs: BTreeSet<String>,
    files: BTreeMap<String, String>,
}

impl Disk {
    fn has(&self, path: &str) -> bool {
        self.dirs.contains(path) || self.files.contains_key(path)
    }

    fn apply(&mut self, ops: &[FsOp]) {
        for op in ops {
            match op {
                FsOp::CreateDirAll { path } => {
                    let mut at = String::new();
                    for (i, part) in path.split('/').enumerate() {
                        if i > 0 {
                            at.push('/');
                        }
                        at.push_str(part);
                        if !at.is_empty() {
                            self.dirs.insert(at.clone());
                        }
                    }
                }
                FsOp::WriteFile { path, content } => {
                    self.files.insert(path.clone(), content.clone());
                }
                FsOp::Rename { from, to } => {
                    assert!(self.has(from), "rename of a missing entry {from}");
                    let below = format!("{from}/");
                    let dirs: Vec<String> = self.dirs.iter().cloned().collect();
                    for d in dirs {
                        if &d == from || d.starts_with(&below) {
                            self.dirs.remove(&d);
                            self.dirs.insert(format!("{to}{}", &d[from.len()..]));
                        }
                    }
                    let files: Vec<String> = self.files.keys().cloned().collect();
                    for f in files {
                        if &f == from || f.starts_with(&below) {
                            let content = self.files.remove(&f).unwrap();
                            self.files.insert(format!("{to}{}", &f[from.len()..]), content);
                        }
                    }
                }
                FsOp::RemoveFile { path } => {
                    self.files.remove(path);
                }
                FsOp::RemoveDir { path } => {
                    let below = format!("{path}/");
                    assert!(!self.dirs.iter().any(|d| d.starts_with(&below)));
                    assert!(!self.files.keys().any(|f| f.starts_with(&below)));
                    self.dirs.remove(path);
                }
                FsOp::RemoveDirAll { path } => {
                    let below = format!("{path}/");
                    self.dirs.retain(|d| d != path && !d.starts_with(&below));
                    self.files.retain(|f, _| !f.starts_with(&below));
                }
            }
        }
    }
}

/// A catalog together with its file system and the events it has published.
struct TestContext {
    oc: OpenContext,
    disk: Disk,
    events: Vec<Event>,
    counter: u8,
}

#[allow(dead_code)]
impl TestContext {
    fn settle<T>(&mut self, applied: Applied<T>) -> T {
        self.disk.apply(&applied.before_commit);
        self.disk.apply(&applied.after_commit);
        self.events.extend(applied.events);
        applied.value
    }

    fn random(&mut self) -> Vec<u8> {
        self.counter = self.counter.wrapping_add(1);
        (0..16u8).map(|i| self.counter.wrapping_mul(31).wrapping_add(i)).collect()
    }

    fn create_folder(&mut self, path: &str, description: Option<&str>) -> Result<FolderSummary, CoreError> {
        let applied = self.oc.create_folder(path, description, TS)?;
        Ok(self.settle(applied))
    }

    fn rename_folder(&mut self, path: &str, new_name: &str) -> Result<RenameResult, CoreError> {
        let applied = self.oc.rename_folder(path, new_name, TS)?;
        Ok(self.settle(applied))
    }

    fn move_folder(&mut self, path: &str, dest: &str) -> Result<RenameResult, CoreError> {
        let applied = self.oc.move_folder(path, dest, TS)?;
        Ok(self.settle(applied))
    }

    fn remove_folder(&mut self, path: &str, force: bool) -> Result<Removed, CoreError> {
        let applied = self.oc.remove_folder(path, force)?;
        Ok(self.settle(applied))
    }

    fn list_folders(&self, all: bool) -> Result<Vec<Folder>, CoreError> {
        self.oc.list_folders(all)
    }

    fn list_docs(&self, folder_path: &str, recursive: bool) -> Result<Vec<Doc>, CoreError> {
        self.oc.list_docs(folder_path, recursive)
    }

    fn create_doc(&mut self, folder_path: &str, name: &str, description: Option<&str>) -> Result<DocCreated, CoreError> {
        let random = self.random();
        let applied = self.oc.create_doc(folder_path, name, description, &random, TS)?;
        Ok(self.settle(applied))
    }

    fn move_doc(&mut self, doc_path: &str, dest: &str) -> Result<RenameResult, CoreError> {
        let applied = self.oc.move_doc(doc_path, dest, TS)?;
        Ok(self.settle(applied))
    }

    fn rename_doc(&mut self, doc_path: &str, new_name: &str) -> Result<RenameResult, CoreError> {
        let applied = self.oc.rename_doc(doc_path, new_name, TS)?;
        Ok(self.settle(applied))
    }

    fn remove_doc(&mut self, doc_path: &str) -> Result<Removed, CoreError> {
        let applied = self.oc.remove_doc(doc_path)?;
        Ok(self.settle(applied))
    }

    fn set_doc_description(&mut self, doc_path: &str, description: &str) -> Result<DocSummary, CoreError> {
        self.oc.set_doc_description(doc_path, description, TS)
    }

    fn get_doc_meta(&mut self, doc_path: &str) -> Result<Doc, CoreError> {
        self.oc.get_doc_meta(doc_path, None)
    }

    fn get_doc_by_stable_id(&self, stable_id: &str) -> Result<Doc, CoreError> {
        self.oc.get_doc_by_stable_id(stable_id)
    }

    fn get_doc_content(&mut self, doc_path: &str) -> Result<String, CoreError> {
        let file = self.oc.get_doc_content(doc_path, None)?;
        match self.disk.files.get(&file) {
            Some(content) => Ok(content.clone()),
            None => Err(CoreError::Io(format!("{file}: no such file"))),
        }
    }

    fn save_doc_content(&mut self, doc_path: &str, content: &str, description: Option<&str>) -> Result<DocSaved, CoreError> {
        let applied = self.oc.save_doc_content(doc_path, content, description, TS)?;
        Ok(self.settle(applied))
    }

    fn generate_manifest(&self, folder_path: &str, limit: Option<usize>) -> Result<Vec<DocManifestEntry>, CoreError> {
        self.oc.generate_manifest(folder_path, limit)
    }
}

fn overrides() -> EnvOverrides {
    EnvOverrides {
        base_root: Some("/data/oc".to_string()),
        contexts_root: Some("/data/oc/contexts".to_string()),
        db_path: Some("/data/oc/test.db".to_string()),
    }
}

fn open_context() -> TestContext {
    let applied = OpenContext::initialize(overrides(), &Surroundings::default())
        .expect("Failed to initialize context");
    let mut ctx = TestContext {
        oc: OpenContext::open(opencontext_core::model::EnvInfo {
            contexts_root: String::new(),
            db_path: String::new(),
        }),
        disk: Disk::default(),
        events: Vec::new(),
        counter: 0,
    };
    ctx.oc = ctx.settle(applied);
    ctx
}

fn create_test_context() -> TestContext {
    let mut ctx = open_context();
    // Create a test folder
    ctx.create_folder("test-folder", None).unwrap();
    ctx
}

#[test]
fn test_create_doc_basic() {
    let mut ctx = create_test_context();

    let result = ctx.create_doc("test-folder", "test.md", None)
        .expect("Failed to create doc");

    assert_eq!(result.rel_path, "test-folder/test.md");
    assert!(ctx.disk.has(&result.abs_path));
}

#[test]
fn test_create_doc_with_description() {
    let mut ctx = create_test_context();

    let result = ctx.create_doc("test-folder", "doc.md", Some("My document"))
        .expect("Failed to create doc");

    assert_eq!(result.description, "My document");
}

#[test]
fn test_create_doc_generates_stable_id() {
    let mut ctx = create_test_context();

    let result = ctx.create_doc("test-folder", "doc.md", None).unwrap();

    assert!(!result.stable_id.is_empty());
    // UUID format: 8-4-4-4-12
    assert_eq!(result.stable_id.len(), 36);
    assert_eq!(result.stable_id.chars().filter(|&c| c == '-').count(), 4);
}

#[test]
fn test_create_doc_already_exists() {
    let mut ctx = create_test_context();

    ctx.create_doc("test-folder", "duplicate.md", None).unwrap();

    let result = ctx.create_doc("test-folder", "duplicate.md", None);
    assert!(result.is_err());
}

#[test]
fn test_create_doc_invalid_name() {
    let mut ctx = create_test_context();

    // Name with slash should fail
    let result = ctx.create_doc("test-folder", "invalid/name.md", None);
    assert!(result.is_err());

    // Empty name should fail
    let result = ctx.create_doc("test-folder", "", None);
    assert!(result.is_err());
}

#[test]
fn test_create_doc_folder_not_found() {
    let mut ctx = create_test_context();

    let result = ctx.create_doc("nonexistent-folder", "doc.md", None);
    assert!(result.is_err());
}

#[test]
fn test_list_docs_in_folder() {
    let mut ctx = create_test_context();

    ctx.create_doc("test-folder", "doc1.md", None).unwrap();
    ctx.create_doc("test-folder", "doc2.md", None).unwrap();

    let docs = ctx.list_docs("test-folder", false).expect("Failed to list docs");

    assert_eq!(docs.len(), 2);
}

#[test]
fn test_list_docs_recursive() {
    let mut ctx = create_test_context();

    ctx.create_folder("test-folder/child", None).unwrap();
    ctx.create_doc("test-folder", "parent-doc.md", None).unwrap();
    ctx.create_doc("test-folder/child", "child-doc.md", None).unwrap();

    let docs = ctx.list_docs("test-folder", true).expect("Failed to list docs");

    assert_eq!(docs.len(), 2);
}

#[test]
fn test_list_docs_empty() {
    let ctx = create_test_context();

    let docs = ctx.list_docs("test-folder", false).expect("Failed to list docs");
    assert!(docs.is_empty());
}

#[test]
fn test_move_doc_basic() {
    let mut ctx = create_test_context();

    ctx.create_folder("dest-folder", None).unwrap();
    ctx.create_doc("test-folder", "moveme.md", None).unwrap();

    let result = ctx.move_doc("test-folder/moveme.md", "dest-folder")
        .expect("Failed to move doc");

    assert_eq!(result.old_path, "test-folder/moveme.md");
    assert_eq!(result.new_path, "dest-folder/moveme.md");
}

#[test]
fn test_move_doc_target_exists() {
    let mut ctx = create_test_context();

    ctx.create_folder("dest-folder", None).unwrap();
    ctx.create_doc("test-folder", "doc.md", None).unwrap();
    ctx.create_doc("dest-folder", "doc.md", None).unwrap();

    let result = ctx.move_doc("test-folder/doc.md", "dest-folder");
    assert!(result.is_err());
}

#[test]
fn test_move_doc_not_found() {
    let mut ctx = create_test_context();

    ctx.create_folder("dest-folder", None).unwrap();

    let result = ctx.move_doc("test-folder/nonexistent.md", "dest-folder");
    assert!(result.is_err());
}

#[test]
fn test_rename_doc_basic() {
    let mut ctx = create_test_context();

    ctx.create_doc("test-folder", "old-name.md", None).unwrap();

    let result = ctx.rename_doc("test-folder/old-name.md", "new-name.md")
        .expect("Failed to rename doc");

    assert_eq!(result.old_path, "test-folder/old-name.md");
    assert_eq!(result.new_path, "test-folder/new-name.md");
}

#[test]
fn test_rename_doc_target_exists() {
    let mut ctx = create_test_context();

    ctx.create_doc("test-folder", "doc1.md", None).unwrap();
    ctx.create_doc("test-folder", "doc2.md", None).unwrap();

    let result = ctx.rename_doc("test-folder/doc1.md", "doc2.md");
    assert!(result.is_err());
}

#[test]
fn test_rename_doc_not_found() {
    let mut ctx = create_test_context();

    let result = ctx.rename_doc("test-folder/nonexistent.md", "new-name.md");
    assert!(result.is_err());
}

#[test]
fn test_remove_doc_basic() {
    let mut ctx = create_test_context();

    ctx.create_doc("test-folder", "to-delete.md", None).unwrap();

    let result = ctx.remove_doc("test-folder/to-delete.md")
        .expect("Failed to remove doc");

    assert_eq!(result.rel_path, "test-folder/to-delete.md");

    let docs = ctx.list_docs("test-folder", false).unwrap();
    assert!(docs.is_empty());
}

#[test]
fn test_remove_doc_not_found() {
    let mut ctx = create_test_context();

    let result = ctx.remove_doc("test-folder/nonexistent.md");
    assert!(result.is_err());
}

#[test]
fn test_set_doc_description() {
    let mut ctx = create_test_context();

    ctx.create_doc("test-folder", "doc.md", None).unwrap();

    let result = ctx.set_doc_description("test-folder/doc.md", "New description")
        .expect("Failed to set description");

    assert_eq!(result.description, "New description");

    // Verify it persisted
    let doc = ctx.get_doc_meta("test-folder/doc.md").unwrap();
    assert_eq!(doc.description, "New description");
}

#[test]
fn test_set_doc_description_not_found() {
    let mut ctx = create_test_context();

    let result = ctx.set_doc_description("test-folder/nonexistent.md", "desc");
    assert!(result.is_err());
}

#[test]
fn test_get_doc_meta() {
    let mut ctx = create_test_context();

    ctx.create_doc("test-folder", "doc.md", Some("Description")).unwrap();

    let doc = ctx.get_doc_meta("test-folder/doc.md").expect("Failed to get meta");

    assert_eq!(doc.name, "doc.md");
    assert_eq!(doc.rel_path, "test-folder/doc.md");
    assert_eq!(doc.description, "Description");
    assert!(!doc.stable_id.is_empty());
}

#[test]
fn test_get_doc_by_stable_id() {
    let mut ctx = create_test_context();

    let created = ctx.create_doc("test-folder", "doc.md", None).unwrap();

    let doc = ctx.get_doc_by_stable_id(&created.stable_id)
        .expect("Failed to get by stable_id");

    assert_eq!(doc.rel_path, "test-folder/doc.md");
    assert_eq!(doc.stable_id, created.stable_id);
}

#[test]
fn test_get_doc_by_stable_id_not_found() {
    let ctx = create_test_context();

    let result = ctx.get_doc_by_stable_id("00000000-0000-0000-0000-000000000000");
    assert!(result.is_err());
}

#[test]
fn test_get_doc_content() {
    let mut ctx = create_test_context();

    ctx.create_doc("test-folder", "doc.md", None).unwrap();

    // Initially empty
    let content = ctx.get_doc_content("test-folder/doc.md").expect("Failed to get content");
    assert!(content.is_empty());
}

#[test]
fn test_save_doc_content() {
    let mut ctx = create_test_context();

    ctx.create_doc("test-folder", "doc.md", None).unwrap();

    ctx.save_doc_content("test-folder/doc.md", "# Hello World", None)
        .expect("Failed to save content");

    let content = ctx.get_doc_content("test-folder/doc.md").unwrap();
    assert_eq!(content, "# Hello World");
}

#[test]
fn test_save_doc_content_with_description() {
    let mut ctx = create_test_context();

    ctx.create_doc("test-folder", "doc.md", None).unwrap();

    ctx.save_doc_content("test-folder/doc.md", "Content", Some("New desc"))
        .expect("Failed to save");

    let doc = ctx.get_doc_meta("test-folder/doc.md").unwrap();
    assert_eq!(doc.description, "New desc");
}
