#![allow(dead_code, unused_imports)]

use opencontext_core::error::CoreError;
use opencontext_core::events::{Applied, Event, FsOp};
use opencontext_core::locations::Surroundings;
use opencontext_core::model::{
    Doc, DocCreated, DocManifestEntry, DocSaved, DocSummary, EnvOverrides, Folder, FolderSummary,
    Removed, RenameResult,
};
use opencontext_core::service::OpenContext;
use std::collections::{BTreeMap, BTreeSet};

const TS: &str = "2024-05-01T10:00:00.000Z";

/// A file system in memory that carries out what the catalog asks for.
#[derive(Default)]
struct Disk {
    dirs: BTreeSet<String>,
    files: BTreeMap<String, String>,
}

impl Disk {
    fn has(&self, path: &str) -> bool {
        self.dirs.contains(path) || self.files.contains_key(path)
    }

    fn apply(&mut self, ops: &[FsOp]) {
        for op in ops {
            match op {
                FsOp::CreateDirAll { path } => {
                    let mut at = String::new();
                    for (i, part) in path.split('/').enumerate() {
                        if i > 0 {
                            at.push('/');
                        }
                        at.push_str(part);
                        if !at.is_empty() {
                            self.dirs.insert(at.clone());
                        }
                    }
                }
                FsOp::WriteFile { path, content } => {
                    self.files.insert(path.clone(), content.clone());
                }
                FsOp::Rename { from, to } => {
                    assert!(self.has(from), "rename of a missing entry {from}");
                    let below = format!("{from}/");
                    let dirs: Vec<String> = self.dirs.iter().cloned().collect();
                    for d in dirs {
                        if &d == from || d.starts_with(&below) {
                            self.dirs.remove(&d);
                            self.dirs.insert(format!("{to}{}", &d[from.len()..]));
                        }
                    }
                    let files: Vec<String> = self.files.keys().cloned().collect();
                    for f in files {
                        if &f == from || f.starts_with(&below) {
                            let content = self.files.remove(&f).unwrap();
                            self.files.insert(format!("{to}{}", &f[from.len()..]), content);
                        }
                    }
                }
                FsOp::RemoveFile { path } => {
                    self.files.remove(path);
                }
                FsOp::RemoveDir { path } => {
                    let below = format!("{path}/");
                    assert!(!self.dirs.iter().any(|d| d.starts_with(&below)));
                    assert!(!self.files.keys().any(|f| f.starts_with(&below)));
                    self.dirs.remove(path);
                }
                FsOp::RemoveDirAll { path } => {
                    let below = format!("{path}/");
                    self.dirs.retain(|d| d != path && !d.starts_with(&below));
                    self.files.retain(|f, _| !f.starts_with(&below));
                }
            }
        }
    }
}

/// A catalog together with its file system and the events it has published.
struct TestContext {
    oc: OpenContext,
    disk: Disk,
    events: Vec<Event>,
    counter: u8,
}

#[allow(dead_code)]
impl TestContext {
    fn settle<T>(&mut self, applied: Applied<T>) -> T {
        self.disk.apply(&applied.before_commit);
        self.disk.apply(&applied.after_commit);
        self.events.extend(applied.events);
        applied.value
    }

    fn random(&mut self) -> Vec<u8> {
        self.counter = self.counter.wrapping_add(1);
        (0..16u8).map(|i| self.counter.wrapping_mul(31).wrapping_add(i)).collect()
    }

    fn create_folder(&mut self, path: &str, description: Option<&str>) -> Result<FolderSummary, CoreError> {
        let applied = self.oc.create_folder(path, description, TS)?;
        Ok(self.settle(applied))
    }

    fn rename_folder(&mut self, path: &str, new_name: &str) -> Result<RenameResult, CoreError> {
        let applied = self.oc.rename_folder(path, new_name, TS)?;
        Ok(self.settle(applied))
    }

    fn move_folder(&mut self, path: &str, dest: &str) -> Result<RenameResult, CoreError> {
        let applied = self.oc.move_folder(path, dest, TS)?;
        Ok(self.settle(applied))
    }

    fn remove_folder(&mut self, path: &str, force: bool) -> Result<Removed, CoreError> {
        let applied = self.oc.remove_folder(path, force)?;
        Ok(self.settle(applied))
    }

    fn list_folders(&self, all: bool) -> Result<Vec<Folder>, CoreError> {
        self.oc.list_folders(all)
    }

    fn list_docs(&self, folder_path: &str, recursive: bool) -> Result<Vec<Doc>, CoreError> {
        self.oc.list_docs(folder_path, recursive)
    }

    fn create_doc(&mut self, folder_path: &str, name: &str, description: Option<&str>) -> Result<DocCreated, CoreError> {
        let random = self.random();
        let applied = self.oc.create_doc(folder_path, name, description, &random, TS)?;
        Ok(self.settle(applied))
    }

    fn move_doc(&mut self, doc_path: &str, dest: &str) -> Result<RenameResult, CoreError> {
        let applied = self.oc.move_doc(doc_path, dest, TS)?;
        Ok(self.settle(applied))
    }

    fn rename_doc(&mut self, doc_path: &str, new_name: &str) -> Result<RenameResult, CoreError> {
        let applied = self.oc.rename_doc(doc_path, new_name, TS)?;
        Ok(self.settle(applied))
    }

    fn remove_doc(&mut self, doc_path: &str) -> Result<Removed, CoreError> {
        let applied = self.oc.remove_doc(doc_path)?;
        Ok(self.settle(applied))
    }

    fn set_doc_description(&mut self, doc_path: &str, description: &str) -> Result<DocSummary, CoreError> {
        self.oc.set_doc_description(doc_path, description, TS)
    }

    fn get_doc_meta(&mut self, doc_path: &str) -> Result<Doc, CoreError> {
        self.oc.get_doc_meta(doc_path, None)
    }

    fn get_doc_by_stable_id(&self, stable_id: &str) -> Result<Doc, CoreError> {
        self.oc.get_doc_by_stable_id(stable_id)
    }

    fn get_doc_content(&mut self, doc_path: &str) -> Result<String, CoreError> {
        let file = self.oc.get_doc_content(doc_path, None)?;
        match self.disk.files.get(&file) {
            Some(content) => Ok(content.clone()),
            None => Err(CoreError::Io(format!("{file}: no such file"))),
        }
    }

    fn save_doc_content(&mut self, doc_path: &str, content: &str, description: Option<&str>) -> Result<DocSaved, CoreError> {
        let applied = self.oc.save_doc_content(doc_path, content, description, TS)?;
        Ok(self.settle(applied))
    }

    fn generate_manifest(&self, folder_path: &str, limit: Option<usize>) -> Result<Vec<DocManifestEntry>, CoreError> {
        self.oc.generate_manifest(folder_path, limit)
    }
}

fn overrides() -> EnvOverrides {
    EnvOverrides {
        base_root: Some("/data/oc".to_string()),
        contexts_root: Some("/data/oc/contexts".to_string()),
        db_path: Some("/data/oc/test.db".to_string()),
    }
}

fn open_context() -> TestContext {
    let applied = OpenContext::initialize(overrides(), &Surroundings::default())
        .expect("Failed to initialize context");
    let mut ctx = TestContext {
        oc: OpenContext::open(opencontext_core::model::EnvInfo {
            contexts_root: String::new(),
            db_path: String::new(),
        }),
        disk: Disk::default(),
        events: Vec::new(),
        counter: 0,
    };
    ctx.oc = ctx.settle(applied);
    ctx
}

fn create_test_context() -> TestContext {
    open_context()
}

#[test]
fn test_initialize_creates_directories() {
    let ctx = create_test_context();
    let info = ctx.oc.env_info();

    assert!(ctx.disk.has(&info.contexts_root), "Contexts directory should exist");
    // the store file itself is made by the store; its directory has to be there
    assert!(ctx.disk.has("/data/oc"), "Database directory should exist");
    assert_eq!(info.db_path, "/data/oc/test.db");
}

#[test]
fn test_initialize_idempotent() {
    // Initialize twice - should not fail
    let _ctx1 = OpenContext::initialize(overrides(), &Surroundings::default()).expect("First init failed");
    let _ctx2 = OpenContext::initialize(overrides(), &Surroundings::default()).expect("Second init failed");
}

#[test]
fn test_env_info_returns_paths() {
    let ctx = create_test_context();
    let info = ctx.oc.env_info();

    assert!(info.contexts_root.contains("contexts"));
    assert!(info.db_path.contains("test.db"));
}

#[test]
fn test_create_folder_basic() {
    let mut ctx = create_test_context();

    let result = ctx.create_folder("test-folder", None).expect("Failed to create folder");

    assert_eq!(result.rel_path, "test-folder");
    assert!(ctx.disk.has(&result.abs_path));
}

#[test]
fn test_create_folder_with_description() {
    let mut ctx = create_test_context();

    let result = ctx.create_folder("my-folder", Some("A test folder"))
        .expect("Failed to create folder");

    assert_eq!(result.rel_path, "my-folder");
    assert_eq!(result.description, "A test folder");
}

#[test]
fn test_create_nested_folder() {
    let mut ctx = create_test_context();

    // Create nested folder - should auto-create parents
    let result = ctx.create_folder("parent/child/grandchild", None)
        .expect("Failed to create nested folder");

    assert_eq!(result.rel_path, "parent/child/grandchild");
    assert!(ctx.disk.has(&result.abs_path));

    // Verify parent folders were created
    let folders = ctx.list_folders(true).expect("Failed to list folders");
    assert!(folders.iter().any(|f| f.rel_path == "parent"));
    assert!(folders.iter().any(|f| f.rel_path == "parent/child"));
}

#[test]
fn test_create_folder_idempotent() {
    let mut ctx = create_test_context();

    // Create same folder twice - should not fail
    ctx.create_folder("idempotent-folder", None).expect("First create failed");
    let result = ctx.create_folder("idempotent-folder", Some("Updated desc"))
        .expect("Second create failed");

    assert_eq!(result.rel_path, "idempotent-folder");
}

#[test]
fn test_create_folder_invalid_path() {
    let mut ctx = create_test_context();

    // Empty path should fail
    let result = ctx.create_folder("", None);
    assert!(result.is_err());

    // Root path should fail
    let result = ctx.create_folder("/", None);
    assert!(result.is_err());
}

#[test]
fn test_list_folders_empty() {
    let ctx = create_test_context();

    let folders = ctx.list_folders(false).expect("Failed to list folders");
    assert!(folders.is_empty());
}

#[test]
fn test_list_folders_top_level() {
    let mut ctx = create_test_context();

    ctx.create_folder("folder-a", None).unwrap();
    ctx.create_folder("folder-b", None).unwrap();
    ctx.create_folder("folder-a/child", None).unwrap();

    let folders = ctx.list_folders(false).expect("Failed to list folders");

    // Should only return top-level folders
    assert_eq!(folders.len(), 2);
    assert!(folders.iter().all(|f| !f.rel_path.contains('/')));
}

#[test]
fn test_list_folders_all_levels() {
    let mut ctx = create_test_context();

    ctx.create_folder("folder-a", None).unwrap();
    ctx.create_folder("folder-a/child", None).unwrap();
    ctx.create_folder("folder-b", None).unwrap();

    let folders = ctx.list_folders(true).expect("Failed to list folders");

    assert_eq!(folders.len(), 3);
}

#[test]
fn test_rename_folder_basic() {
    let mut ctx = create_test_context();

    ctx.create_folder("old-name", None).unwrap();

    let result = ctx.rename_folder("old-name", "new-name")
        .expect("Failed to rename folder");

    assert_eq!(result.old_path, "old-name");
    assert_eq!(result.new_path, "new-name");

    // Verify old folder doesn't exist in DB
    let folders = ctx.list_folders(true).unwrap();
    assert!(!folders.iter().any(|f| f.rel_path == "old-name"));
    assert!(folders.iter().any(|f| f.rel_path == "new-name"));
}

#[test]
fn test_rename_folder_updates_children() {
    let mut ctx = create_test_context();

    ctx.create_folder("parent", None).unwrap();
    ctx.create_folder("parent/child", None).unwrap();
    ctx.create_doc("parent/child", "test.md", None).unwrap();

    ctx.rename_folder("parent", "renamed-parent").expect("Failed to rename");

    // Verify child folder path updated
    let folders = ctx.list_folders(true).unwrap();
    assert!(folders.iter().any(|f| f.rel_path == "renamed-parent/child"));

    // Verify doc path updated
    let docs = ctx.list_docs("renamed-parent/child", false).unwrap();
    assert_eq!(docs.len(), 1);
    assert!(docs[0].rel_path.starts_with("renamed-parent/child/"));
}

#[test]
fn test_rename_folder_target_exists() {
    let mut ctx = create_test_context();

    ctx.create_folder("source", None).unwrap();
    ctx.create_folder("target", None).unwrap();

    let result = ctx.rename_folder("source", "target");
    assert!(result.is_err());
}

#[test]
fn test_rename_folder_not_found() {
    let mut ctx = create_test_context();

    let result = ctx.rename_folder("nonexistent", "new-name");
    assert!(result.is_err());
}

#[test]
fn test_remove_folder_empty() {
    let mut ctx = create_test_context();

    ctx.create_folder("to-remove", None).unwrap();

    let result = ctx.remove_folder("to-remove", false)
        .expect("Failed to remove folder");

    assert_eq!(result.rel_path, "to-remove");

    let folders = ctx.list_folders(true).unwrap();
    assert!(!folders.iter().any(|f| f.rel_path == "to-remove"));
}

#[test]
fn test_remove_folder_not_empty_without_force() {
    let mut ctx = create_test_context();

    ctx.create_folder("parent", None).unwrap();
    ctx.create_doc("parent", "doc.md", None).unwrap();

    let result = ctx.remove_folder("parent", false);
    assert!(result.is_err());
}

#[test]
fn test_remove_folder_force_recursive() {
    let mut ctx = create_test_context();

    ctx.create_folder("parent", None).unwrap();
    ctx.create_folder("parent/child", None).unwrap();
    ctx.create_doc("parent", "doc1.md", None).unwrap();
    ctx.create_doc("parent/child", "doc2.md", None).unwrap();

    ctx.remove_folder("parent", true).expect("Failed to force remove");

    let folders = ctx.list_folders(true).unwrap();
    assert!(folders.is_empty());
}

#[test]
fn test_remove_folder_not_found() {
    let mut ctx = create_test_context();

    let result = ctx.remove_folder("nonexistent", false);
    assert!(result.is_err());
}
