#![allow(dead_code, unused_imports)]

use opencontext_core::error::{CoreError, ErrorKind};
use opencontext_core::events::{Applied, Event, FsOp};
use opencontext_core::locations::Surroundings;
use opencontext_core::model::{
    Doc, DocCreated, DocManifestEntry, DocSaved, DocSummary, EnvOverrides, Folder, FolderSummary,
    Removed, RenameResult,
};
use opencontext_core::service::OpenContext;
use std::collections::{BTreeMap, BTreeSet};

const TS: &str = "2024-05-01T10:00:00.000Z";

/// A file system in memory that carries out what the catalog asks for.
#[derive(Default)]
struct Disk {
    dirs: BTreeSet<String>,
    files: BTreeMap<String, String>,
}

impl Disk {
    fn has(&self, path: &str) -> bool {
        self.dirs.contains(path) || self.files.contains_key(path)
    }

    fn apply(&mut self, ops: &[FsOp]) {
        for op in ops {
            match op {
                FsOp::CreateDirAll { path } => {
                    let mut at = String::new();
                    for (i, part) in path.split('/').enumerate() {
                        if i > 0 {
                            at.push('/');
                        }
                        at.push_str(part);
                        if !at.is_empty() {
                            self.dirs.insert(at.clone());
                        }
                    }
                }
                FsOp::WriteFile { path, content } => {
                    self.files.insert(path.clone(), content.clone());
                }
                FsOp::Rename { from, to } => {
                    assert!(self.has(from), "rename of a missing entry {from}");
                    let below = format!("{from}/");
                    let dirs: Vec<String> = self.dirs.iter().cloned().collect();
                    for d in dirs {
                        if &d == from || d.starts_with(&below) {
                            self.dirs.remove(&d);
                            self.dirs.insert(format!("{to}{}", &d[from.len()..]));
                        }
                    }
                    let files: Vec<String> = self.files.keys().cloned().collect();
                    for f in files {
                        if &f == from || f.starts_with(&below) {
                            let content = self.files.remove(&f).unwrap();
                            self.files.insert(format!("{to}{}", &f[from.len()..]), content);
                        }
                    }
                }
                FsOp::RemoveFile { path } => {
                    self.files.remove(path);
                }
                FsOp::RemoveDir { path } => {
                    let below = format!("{path}/");
                    assert!(!self.dirs.iter().any(|d| d.starts_with(&below)));
                    assert!(!self.files.keys().any(|f| f.starts_with(&below)));
                    self.dirs.remove(path);
                }
                FsOp::RemoveDirAll { path } => {
                    let below = format!("{path}/");
                    self.dirs.retain(|d| d != path && !d.starts_with(&below));
                    self.files.retain(|f, _| !f.starts_with(&below));
                }
            }
        }
    }
}

/// A catalog together with its file system and the events it has published.
struct TestContext {
    oc: OpenContext,
    disk: Disk,
    events: Vec<Event>,
    counter: u8,
}

#[allow(dead_code)]
impl TestContext {
    fn settle<T>(&mut self, applied: Applied<T>) -> T {
        self.disk.apply(&applied.before_commit);
        self.disk.apply(&applied.after_commit);
        self.events.extend(applied.events);
        applied.value
    }

    fn random(&mut self) -> Vec<u8> {
        self.counter = self.counter.wrapping_add(1);
        (0..16u8).map(|i| self.counter.wrapping_mul(31).wrapping_add(i)).collect()
    }

    fn create_folder(&mut self, path: &str, description: Option<&str>) -> Result<FolderSummary, CoreError> {
        let applied = self.oc.create_folder(path, description, TS)?;
        Ok(self.settle(applied))
    }

    fn rename_folder(&mut self, path: &str, new_name: &str) -> Result<RenameResult, CoreError> {
        let applied = self.oc.rename_folder(path, new_name, TS)?;
        Ok(self.settle(applied))
    }

    fn move_folder(&mut self, path: &str, dest: &str) -> Result<RenameResult, CoreError> {
        let applied = self.oc.move_folder(path, dest, TS)?;
        Ok(self.settle(applied))
    }

    fn remove_folder(&mut self, path: &str, force: bool) -> Result<Removed, CoreError> {
        let applied = self.oc.remove_folder(path, force)?;
        Ok(self.settle(applied))
    }

    fn list_folders(&self, all: bool) -> Result<Vec<Folder>, CoreError> {
        self.oc.list_folders(all)
    }

    fn list_docs(&self, folder_path: &str, recursive: bool) -> Result<Vec<Doc>, CoreError> {
        self.oc.list_docs(folder_path, recursive)
    }

    fn create_doc(&mut self, folder_path: &str, name: &str, description: Option<&str>) -> Result<DocCreated, CoreError> {
        let random = self.random();
        let applied = self.oc.create_doc(folder_path, name, description, &random, TS)?;
        Ok(self.settle(applied))
    }

    fn move_doc(&mut self, doc_path: &str, dest: &str) -> Result<RenameResult, CoreError> {
        let applied = self.oc.move_doc(doc_path, dest, TS)?;
        Ok(self.settle(applied))
    }

    fn rename_doc(&mut self, doc_path: &str, new_name: &str) -> Result<RenameResult, CoreError> {
        let applied = self.oc.rename_doc(doc_path, new_name, TS)?;
        Ok(self.settle(applied))
    }

    fn remove_doc(&mut self, doc_path: &str) -> Result<Removed, CoreError> {
        let applied = self.oc.remove_doc(doc_path)?;
        Ok(self.settle(applied))
    }

    fn set_doc_description(&mut self, doc_path: &str, description: &str) -> Result<DocSummary, CoreError> {
        self.oc.set_doc_description(doc_path, description, TS)
    }

    fn get_doc_meta(&mut self, doc_path: &str) -> Result<Doc, CoreError> {
        self.oc.get_doc_meta(doc_path, None)
    }

    fn get_doc_by_stable_id(&self, stable_id: &str) -> Result<Doc, CoreError> {
        self.oc.get_doc_by_stable_id(stable_id)
    }

    fn get_doc_content(&mut self, doc_path: &str) -> Result<String, CoreError> {
        let file = self.oc.get_doc_content(doc_path, None)?;
        match self.disk.files.get(&file) {
            Some(content) => Ok(content.clone()),
            None => Err(CoreError::Io(format!("{file}: no such file"))),
        }
    }

    fn save_doc_content(&mut self, doc_path: &str, content: &str, description: Option<&str>) -> Result<DocSaved, CoreError> {
        let applied = self.oc.save_doc_content(doc_path, content, description, TS)?;
        Ok(self.settle(applied))
    }

    fn generate_manifest(&self, folder_path: &str, limit: Option<usize>) -> Result<Vec<DocManifestEntry>, CoreError> {
        self.oc.generate_manifest(folder_path, limit)
    }
}

fn overrides() -> EnvOverrides {
    EnvOverrides {
        base_root: Some("/data/oc".to_string()),
        contexts_root: Some("/data/oc/contexts".to_string()),
        db_path: Some("/data/oc/test.db".to_string()),
    }
}

fn open_context() -> TestContext {
    let applied = OpenContext::initialize(overrides(), &Surroundings::default())
        .expect("Failed to initialize context");
    let mut ctx = TestContext {
        oc: OpenContext::open(opencontext_core::model::EnvInfo {
            contexts_root: String::new(),
            db_path: String::new(),
        }),
        disk: Disk::default(),
        events: Vec::new(),
        counter: 0,
    };
    ctx.oc = ctx.settle(applied);
    ctx
}

fn create_test_context() -> TestContext {
    open_context()
}

#[test]
fn test_generate_manifest_all() {
    let mut ctx = create_test_context();

    // Create a root folder first (needed for manifest generation)
    ctx.create_folder("root", None).unwrap();
    ctx.create_folder("root/folder-a", None).unwrap();
    ctx.create_folder("root/folder-b", None).unwrap();
    ctx.create_doc("root/folder-a", "doc1.md", Some("Doc 1")).unwrap();
    ctx.create_doc("root/folder-b", "doc2.md", Some("Doc 2")).unwrap();

    let manifest = ctx.generate_manifest("root", None).expect("Failed to generate manifest");

    assert_eq!(manifest.len(), 2);
    assert!(manifest.iter().any(|e| e.rel_path.ends_with("doc1.md")));
    assert!(manifest.iter().any(|e| e.rel_path.ends_with("doc2.md")));
}

#[test]
fn test_generate_manifest_folder() {
    let mut ctx = create_test_context();

    ctx.create_folder("target", None).unwrap();
    ctx.create_folder("other", None).unwrap();
    ctx.create_doc("target", "doc1.md", None).unwrap();
    ctx.create_doc("other", "doc2.md", None).unwrap();

    let manifest = ctx.generate_manifest("target", None).expect("Failed to generate manifest");

    assert_eq!(manifest.len(), 1);
    assert_eq!(manifest[0].rel_path, "target/doc1.md");
}

#[test]
fn test_generate_manifest_with_limit() {
    let mut ctx = create_test_context();

    ctx.create_folder("folder", None).unwrap();
    for i in 1..=10 {
        ctx.create_doc("folder", &format!("doc{}.md", i), None).unwrap();
    }

    let manifest = ctx.generate_manifest("folder", Some(3)).expect("Failed to generate manifest");

    assert_eq!(manifest.len(), 3);
}

#[test]
fn test_generate_manifest_empty() {
    let mut ctx = create_test_context();

    ctx.create_folder("empty-folder", None).unwrap();

    let manifest = ctx.generate_manifest("empty-folder", None).expect("Failed to generate manifest");

    assert!(manifest.is_empty());
}

#[test]
fn test_generate_manifest_entry_fields() {
    let mut ctx = create_test_context();

    ctx.create_folder("folder", None).unwrap();
    ctx.create_doc("folder", "doc.md", Some("Test description")).unwrap();

    let manifest = ctx.generate_manifest("folder", None).unwrap();

    assert_eq!(manifest.len(), 1);
    let entry = &manifest[0];

    assert_eq!(entry.doc_name, "doc.md");
    assert_eq!(entry.rel_path, "folder/doc.md");
    assert!(!entry.stable_id.is_empty());
    assert_eq!(entry.description, "Test description");
    assert!(!entry.updated_at.is_empty());
    assert!(entry.abs_path.contains("folder/doc.md"));
}

#[test]
fn manifest_is_ordered_by_path_and_limited_after_ordering() {
    let mut ctx = create_test_context();
    ctx.create_folder("f/z", None).unwrap();
    ctx.create_folder("f/a", None).unwrap();
    ctx.create_doc("f/z", "1.md", None).unwrap();
    ctx.create_doc("f", "m.md", None).unwrap();
    ctx.create_doc("f/a", "9.md", None).unwrap();
    let all: Vec<String> =
        ctx.generate_manifest("f", None).unwrap().into_iter().map(|e| e.rel_path).collect();
    assert_eq!(all, vec!["f/a/9.md", "f/m.md", "f/z/1.md"]);
    let two: Vec<String> =
        ctx.generate_manifest("f", Some(2)).unwrap().into_iter().map(|e| e.rel_path).collect();
    assert_eq!(two, vec!["f/a/9.md", "f/m.md"]);
    let many = ctx.generate_manifest("f", Some(50)).unwrap();
    assert_eq!(many.len(), 3);
}

#[test]
fn manifest_refuses_a_limit_of_zero_and_a_missing_folder() {
    let mut ctx = create_test_context();
    ctx.create_folder("f", None).unwrap();
    let err = ctx.generate_manifest("f", Some(0)).unwrap_err();
    assert_eq!(err.kind(), ErrorKind::InvalidInput);
    assert_eq!(err.message(), "limit must be a positive integer");
    let err = ctx.generate_manifest("nope", None).unwrap_err();
    assert_eq!(err.kind(), ErrorKind::NotFound);
    // the limit is looked at first
    let err = ctx.generate_manifest("nope", Some(0)).unwrap_err();
    assert_eq!(err.kind(), ErrorKind::InvalidInput);
}
