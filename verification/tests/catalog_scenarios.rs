#![allow(dead_code, unused_imports)]

use opencontext_core::error::{CoreError, ErrorKind};
use opencontext_core::events::{Applied, DocEvent, Event, FolderEvent, FsOp};
use opencontext_core::locations::Surroundings;
use opencontext_core::model::{
    Doc, DocCreated, DocManifestEntry, DocSaved, DocSummary, EnvOverrides, Folder,
    FolderSummary, Removed, RenameResult,
};
use opencontext_core::service::OpenContext;
use std::collections::{BTreeMap, BTreeSet};

const TS: &str = "2024-05-01T10:00:00.000Z";

/// A file system in memory that carries out what the catalog asks for.
#[derive(Default)]
struct Disk {
    dirs: BTreeSet<String>,
    files: BTreeMap<String, String>,
}

impl Disk {
    fn has(&self, path: &str) -> bool {
        self.dirs.contains(path) || self.files.contains_key(path)
    }

    fn apply(&mut self, ops: &[FsOp]) {
        for op in ops {
            match op {
                FsOp::CreateDirAll { path } => {
                    let mut at = String::new();
                    for (i, part) in path.split('/').enumerate() {
                        if i > 0 {
                            at.push('/');
                        }
                        at.push_str(part);
                        if !at.is_empty() {
                            self.dirs.insert(at.clone());
                        }
                    }
                }
                FsOp::WriteFile { path, content } => {
                    self.files.insert(path.clone(), content.clone());
                }
                FsOp::Rename { from, to } => {
                    assert!(self.has(from), "rename of a missing entry {from}");
                    let below = format!("{from}/");
                    let dirs: Vec<String> = self.dirs.iter().cloned().collect();
                    for d in dirs {
                        if &d == from || d.starts_with(&below) {
                            self.dirs.remove(&d);
                            self.dirs.insert(format!("{to}{}", &d[from.len()..]));
                        }
                    }
                    let files: Vec<String> = self.files.keys().cloned().collect();
                    for f in files {
                        if &f == from || f.starts_with(&below) {
                            let content = self.files.remove(&f).unwrap();
                            self.files.insert(format!("{to}{}", &f[from.len()..]), content);
                        }
                    }
                }
                FsOp::RemoveFile { path } => {
                    self.files.remove(path);
                }
                FsOp::RemoveDir { path } => {
                    let below = format!("{path}/");
                    assert!(!self.dirs.iter().any(|d| d.starts_with(&below)));
                    assert!(!self.files.keys().any(|f| f.starts_with(&below)));
                    self.dirs.remove(path);
                }
                FsOp::RemoveDirAll { path } => {
                    let below = format!("{path}/");
                    self.dirs.retain(|d| d != path && !d.starts_with(&below));
                    self.files.retain(|f, _| !f.starts_with(&below));
                }
            }
        }
    }
}

/// A catalog together with its file system and the events it has published.
struct TestContext {
    oc: OpenContext,
    disk: Disk,
    events: Vec<Event>,
    counter: u8,
}

#[allow(dead_code)]
impl TestContext {
    fn settle<T>(&mut self, applied: Applied<T>) -> T {
        self.disk.apply(&applied.before_commit);
        self.disk.apply(&applied.after_commit);
        self.events.extend(applied.events);
        applied.value
    }

    fn random(&mut self) -> Vec<u8> {
        self.counter = self.counter.wrapping_add(1);
        (0..16u8).map(|i| self.counter.wrapping_mul(31).wrapping_add(i)).collect()
    }

    fn create_folder(&mut self, path: &str, description: Option<&str>) -> Result<FolderSummary, CoreError> {
        let applied = self.oc.create_folder(path, description, TS)?;
        Ok(self.settle(applied))
    }

    fn rename_folder(&mut self, path: &str, new_name: &str) -> Result<RenameResult, CoreError> {
        let applied = self.oc.rename_folder(path, new_name, TS)?;
        Ok(self.settle(applied))
    }

    fn move_folder(&mut self, path: &str, dest: &str) -> Result<RenameResult, CoreError> {
        let applied = self.oc.move_folder(path, dest, TS)?;
        Ok(self.settle(applied))
    }

    fn remove_folder(&mut self, path: &str, force: bool) -> Result<Removed, CoreError> {
        let applied = self.oc.remove_folder(path, force)?;
        Ok(self.settle(applied))
    }

    fn list_folders(&self, all: bool) -> Result<Vec<Folder>, CoreError> {
        self.oc.list_folders(all)
    }

    fn list_docs(&self, folder_path: &str, recursive: bool) -> Result<Vec<Doc>, CoreError> {
        self.oc.list_docs(folder_path, recursive)
    }

    fn create_doc(&mut self, folder_path: &str, name: &str, description: Option<&str>) -> Result<DocCreated, CoreError> {
        let random = self.random();
        let applied = self.oc.create_doc(folder_path, name, description, &random, TS)?;
        Ok(self.settle(applied))
    }

    fn move_doc(&mut self, doc_path: &str, dest: &str) -> Result<RenameResult, CoreError> {
        let applied = self.oc.move_doc(doc_path, dest, TS)?;
        Ok(self.settle(applied))
    }

    fn rename_doc(&mut self, doc_path: &str, new_name: &str) -> Result<RenameResult, CoreError> {
        let applied = self.oc.rename_doc(doc_path, new_name, TS)?;
        Ok(self.settle(applied))
    }

    fn remove_doc(&mut self, doc_path: &str) -> Result<Removed, CoreError> {
        let applied = self.oc.remove_doc(doc_path)?;
        Ok(self.settle(applied))
    }

    fn set_doc_description(&mut self, doc_path: &str, description: &str) -> Result<DocSummary, CoreError> {
        self.oc.set_doc_description(doc_path, description, TS)
    }

    fn get_doc_meta(&mut self, doc_path: &str) -> Result<Doc, CoreError> {
        self.oc.get_doc_meta(doc_path, None)
    }

    fn get_doc_by_stable_id(&self, stable_id: &str) -> Result<Doc, CoreError> {
        self.oc.get_doc_by_stable_id(stable_id)
    }

    fn get_doc_content(&mut self, doc_path: &str) -> Result<String, CoreError> {
        let file = self.oc.get_doc_content(doc_path, None)?;
        match self.disk.files.get(&file) {
            Some(content) => Ok(content.clone()),
            None => Err(CoreError::Io(format!("{file}: no such file"))),
        }
    }

    fn save_doc_content(&mut self, doc_path: &str, content: &str, description: Option<&str>) -> Result<DocSaved, CoreError> {
        let applied = self.oc.save_doc_content(doc_path, content, description, TS)?;
        Ok(self.settle(applied))
    }

    fn generate_manifest(&self, folder_path: &str, limit: Option<usize>) -> Result<Vec<DocManifestEntry>, CoreError> {
        self.oc.generate_manifest(folder_path, limit)
    }
}

fn overrides() -> EnvOverrides {
    EnvOverrides {
        base_root: Some("/data/oc".to_string()),
        contexts_root: Some("/data/oc/contexts".to_string()),
        db_path: Some("/data/oc/test.db".to_string()),
    }
}

fn open_context() -> TestContext {
    let applied = OpenContext::initialize(overrides(), &Surroundings::default())
        .expect("Failed to initialize context");
    let mut ctx = TestContext {
        oc: OpenContext::open(opencontext_core::model::EnvInfo {
            contexts_root: String::new(),
            db_path: String::new(),
        }),
        disk: Disk::default(),
        events: Vec::new(),
        counter: 0,
    };
    ctx.oc = ctx.settle(applied);
    ctx
}

fn affected(event: &Event) -> Vec<(String, String)> {
    match event {
        Event::Folder(FolderEvent::Renamed { affected_docs, .. })
        | Event::Folder(FolderEvent::Moved { affected_docs, .. }) => affected_docs.clone(),
        _ => panic!("no rename or move"),
    }
}

fn pair(a: &str, b: &str) -> (String, String) {
    (a.to_string(), b.to_string())
}

#[test]
fn scenario_create_and_rename_subtree() {
    let mut ctx = open_context();
    ctx.create_folder("a/b", None).unwrap();
    ctx.create_doc("a/b", "x.md", None).unwrap();
    ctx.create_doc("a/b", "y.md", None).unwrap();
    let before = ctx.events.len();
    let result = ctx.rename_folder("a", "A").unwrap();
    assert_eq!(result.old_path, "a");
    assert_eq!(result.new_path, "A");

    let folders: Vec<String> =
        ctx.list_folders(true).unwrap().into_iter().map(|f| f.rel_path).collect();
    assert_eq!(folders, vec!["A", "A/b"]);
    let docs: Vec<String> =
        ctx.list_docs("A/b", false).unwrap().into_iter().map(|d| d.rel_path).collect();
    assert_eq!(docs, vec!["A/b/x.md", "A/b/y.md"]);

    assert_eq!(ctx.events.len(), before + 1);
    match ctx.events.last().unwrap() {
        Event::Folder(FolderEvent::Renamed { old_path, new_path, affected_docs }) => {
            assert_eq!(old_path, "a");
            assert_eq!(new_path, "A");
            assert_eq!(
                affected_docs,
                &vec![pair("a/b/x.md", "A/b/x.md"), pair("a/b/y.md", "A/b/y.md")]
            );
        }
        other => panic!("unexpected event {other:?}"),
    }
    // the tree on disk has followed
    assert!(ctx.disk.has("/data/oc/contexts/A/b/x.md"));
    assert!(!ctx.disk.has("/data/oc/contexts/a"));
    // no row is left at or below the old path
    assert!(ctx.list_docs("a/b", false).is_err());
    assert!(ctx.get_doc_meta("a/b/x.md").is_err());
}

#[test]
fn scenario_stable_id_is_preserved() {
    let mut ctx = open_context();
    ctx.create_folder("f", None).unwrap();
    ctx.create_folder("g", None).unwrap();
    let sid = ctx.create_doc("f", "n.md", None).unwrap().stable_id;
    ctx.rename_doc("f/n.md", "m.md").unwrap();
    assert_eq!(ctx.get_doc_by_stable_id(&sid).unwrap().rel_path, "f/m.md");
    ctx.move_doc("f/m.md", "g").unwrap();
    let doc = ctx.get_doc_by_stable_id(&format!("  {sid}\n")).unwrap();
    assert_eq!(doc.rel_path, "g/m.md");
    assert_eq!(doc.name, "m.md");
    assert_eq!(doc.abs_path, "/data/oc/contexts/g/m.md");
    // a rename of the folder keeps it too
    ctx.rename_folder("g", "h").unwrap();
    assert_eq!(ctx.get_doc_by_stable_id(&sid).unwrap().rel_path, "h/m.md");
}

#[test]
fn scenario_force_delete() {
    let mut ctx = open_context();
    ctx.create_folder("t", None).unwrap();
    ctx.create_doc("t", "d.md", None).unwrap();
    let folders_before = ctx.oc.folders().len();
    let docs_before = ctx.oc.docs().len();
    let events_before = ctx.events.len();

    let err = ctx.remove_folder("t", false).unwrap_err();
    assert_eq!(err.kind(), ErrorKind::Conflict);
    assert_eq!(err.message(), "Folder \"t\" is not empty. Use --force to delete recursively.");
    // nothing has changed
    assert_eq!(ctx.oc.folders().len(), folders_before);
    assert_eq!(ctx.oc.docs().len(), docs_before);
    assert_eq!(ctx.events.len(), events_before);
    assert!(ctx.disk.has("/data/oc/contexts/t/d.md"));

    let removed = ctx.remove_folder("t", true).unwrap();
    assert_eq!(removed.rel_path, "t");
    assert!(ctx.list_folders(true).unwrap().is_empty());
    assert!(ctx.oc.docs().is_empty());
    assert!(!ctx.disk.has("/data/oc/contexts/t"));
    assert!(!ctx.disk.has("/data/oc/contexts/t/d.md"));
    match ctx.events.last().unwrap() {
        Event::Folder(FolderEvent::Deleted { rel_path, removed_docs }) => {
            assert_eq!(rel_path, "t");
            assert_eq!(removed_docs, &vec!["t/d.md".to_string()]);
        }
        other => panic!("unexpected event {other:?}"),
    }
}

#[test]
fn create_folder_is_found_afterwards_and_asks_for_its_directory() {
    let mut ctx = open_context();
    let applied = ctx.oc.create_folder("  x\\y//z/ ", Some("d"), TS).unwrap();
    assert_eq!(applied.value.rel_path, "x/y/z");
    assert_eq!(applied.value.abs_path, "/data/oc/contexts/x/y/z");
    assert!(matches!(
        applied.before_commit.as_slice(),
        [FsOp::CreateDirAll { path }] if path == "/data/oc/contexts/x/y/z"
    ));
    assert!(applied.after_commit.is_empty());
    assert!(applied.events.is_empty());
    let rows = ctx.oc.folders();
    let paths: Vec<&str> = rows.iter().map(|f| f.rel_path.as_str()).collect();
    assert_eq!(paths, vec!["x", "x/y", "x/y/z"]);
    assert_eq!(rows[0].parent_id, None);
    assert_eq!(rows[1].parent_id, Some(rows[0].id));
    assert_eq!(rows[2].parent_id, Some(rows[1].id));
    assert_eq!(rows[2].name, "z");
    assert_eq!(rows[2].description, "d");
    assert_eq!(rows[1].description, "");
    assert_eq!(rows[2].created_at, TS);
    // a second call only replaces the description and asks for nothing
    let again = ctx.oc.create_folder("x/y/z", None, "later").unwrap();
    assert!(again.before_commit.is_empty());
    let rows = ctx.oc.folders();
    assert_eq!(rows.len(), 3);
    assert_eq!(rows[2].description, "");
    assert_eq!(rows[2].updated_at, "later");
    assert_eq!(rows[2].created_at, TS);
}

#[test]
fn folder_refusals_name_their_reason() {
    let mut ctx = open_context();
    ctx.create_folder("a/b", None).unwrap();
    ctx.create_folder("c", None).unwrap();
    let e = ctx.create_folder(" . ", None).unwrap_err();
    assert_eq!(e.kind(), ErrorKind::InvalidInput);
    assert_eq!(e.message(), "Cannot create root folder. Provide a sub-path like \"project-a\".");
    let e = ctx.rename_folder("/", "x").unwrap_err();
    assert_eq!(e.message(), "Cannot rename the root contexts directory.");
    let e = ctx.rename_folder("a", "x/y").unwrap_err();
    assert_eq!(e.kind(), ErrorKind::InvalidInput);
    assert_eq!(e.message(), "New name must be a single path segment.");
    assert_eq!(ctx.rename_folder("a", "").unwrap_err().kind(), ErrorKind::InvalidInput);
    let e = ctx.rename_folder("zz", "x").unwrap_err();
    assert_eq!(e.kind(), ErrorKind::NotFound);
    assert_eq!(
        e.message(),
        "Folder \"zz\" does not exist. Use \"oc folder create zz\" first."
    );
    let e = ctx.rename_folder("a", "c").unwrap_err();
    assert_eq!(e.kind(), ErrorKind::Conflict);
    assert_eq!(e.message(), "Target folder \"c\" already exists.");
    let e = ctx.move_folder("", "c").unwrap_err();
    assert_eq!(e.message(), "Cannot move the root contexts directory.");
    let e = ctx.move_folder("a", "").unwrap_err();
    assert_eq!(e.message(), "Root is not supported. Please move into a folder under contexts/.");
    let e = ctx.move_folder("a", "a/b").unwrap_err();
    assert_eq!(e.kind(), ErrorKind::InvalidInput);
    assert_eq!(e.message(), "Cannot move a folder into itself or its descendants.");
    assert_eq!(ctx.move_folder("a", "a").unwrap_err().kind(), ErrorKind::InvalidInput);
    assert_eq!(ctx.move_folder("zz", "c").unwrap_err().kind(), ErrorKind::NotFound);
    assert_eq!(ctx.move_folder("a", "zz").unwrap_err().kind(), ErrorKind::NotFound);
    ctx.create_folder("c/a", None).unwrap();
    let e = ctx.move_folder("a", "c").unwrap_err();
    assert_eq!(e.kind(), ErrorKind::Conflict);
    assert_eq!(e.message(), "Target folder \"c/a\" already exists.");
    let e = ctx.remove_folder("", true).unwrap_err();
    assert_eq!(e.message(), "Cannot remove the root contexts directory.");
    assert_eq!(ctx.remove_folder("zz", true).unwrap_err().kind(), ErrorKind::NotFound);
    // a folder that holds only a folder is not empty either
    assert_eq!(ctx.remove_folder("a", false).unwrap_err().kind(), ErrorKind::Conflict);
}

#[test]
fn move_folder_carries_its_subtree() {
    let mut ctx = open_context();
    ctx.create_folder("src/deep", None).unwrap();
    ctx.create_folder("dst", None).unwrap();
    ctx.create_folder("srcx", None).unwrap();
    ctx.create_doc("src", "top.md", None).unwrap();
    ctx.create_doc("src/deep", "in.md", None).unwrap();
    ctx.create_doc("srcx", "other.md", None).unwrap();
    let applied = ctx.oc.move_folder("src", "dst", "t2").unwrap();
    assert_eq!(applied.value.new_path, "dst/src");
    assert!(matches!(
        applied.before_commit.as_slice(),
        [FsOp::CreateDirAll { path }, FsOp::Rename { from, to }]
            if path == "/data/oc/contexts/dst"
                && from == "/data/oc/contexts/src"
                && to == "/data/oc/contexts/dst/src"
    ));
    assert_eq!(
        affected(&applied.events[0]),
        vec![pair("src/top.md", "dst/src/top.md"), pair("src/deep/in.md", "dst/src/deep/in.md")]
    );
    assert!(matches!(&applied.events[0], Event::Folder(FolderEvent::Moved { .. })));
    ctx.settle(applied);
    let rows = ctx.oc.folders();
    let dst = rows.iter().find(|f| f.rel_path == "dst").unwrap();
    let moved = rows.iter().find(|f| f.rel_path == "dst/src").unwrap();
    assert_eq!(moved.parent_id, Some(dst.id));
    assert_eq!(moved.name, "src");
    assert_eq!(moved.updated_at, "t2");
    assert_eq!(moved.abs_path, "/data/oc/contexts/dst/src");
    assert!(rows.iter().any(|f| f.rel_path == "dst/src/deep"));
    // a folder whose name only begins like the moved one stays
    let other = rows.iter().find(|f| f.rel_path == "srcx").unwrap();
    assert_eq!(other.updated_at, TS);
    assert_eq!(ctx.get_doc_meta("srcx/other.md").unwrap().updated_at, TS);
    assert_eq!(ctx.get_doc_meta("dst/src/deep/in.md").unwrap().abs_path, "/data/oc/contexts/dst/src/deep/in.md");
    assert!(ctx.disk.has("/data/oc/contexts/dst/src/deep/in.md"));
}

#[test]
fn doc_operations_report_plans_and_events() {
    let mut ctx = open_context();
    ctx.create_folder("f", None).unwrap();
    ctx.create_folder("g", None).unwrap();
    let random: Vec<u8> = (0u8..16).collect();
    let created = ctx.oc.create_doc("f", "n.md", Some("d"), &random, TS).unwrap();
    assert_eq!(created.value.stable_id, "00010203-0405-4607-8809-0a0b0c0d0e0f");
    assert!(matches!(
        created.before_commit.as_slice(),
        [FsOp::CreateDirAll { path }, FsOp::WriteFile { path: file, content }]
            if path == "/data/oc/contexts/f" && file == "/data/oc/contexts/f/n.md" && content.is_empty()
    ));
    assert!(matches!(
        created.events.as_slice(),
        [Event::Doc(DocEvent::Created { rel_path })] if rel_path == "f/n.md"
    ));
    ctx.settle(created);

    let saved = ctx.oc.save_doc_content("f/n.md", "body", None, "t3").unwrap();
    assert!(matches!(
        saved.before_commit.as_slice(),
        [FsOp::WriteFile { path, content }] if path == "/data/oc/contexts/f/n.md" && content == "body"
    ));
    assert!(matches!(
        saved.events.as_slice(),
        [Event::Doc(DocEvent::Updated { rel_path })] if rel_path == "f/n.md"
    ));
    assert_eq!(saved.value.abs_path, "/data/oc/contexts/f/n.md");
    ctx.settle(saved);
    // description untouched, time moved on
    let meta = ctx.get_doc_meta("f/n.md").unwrap();
    assert_eq!(meta.description, "d");
    assert_eq!(meta.updated_at, "t3");
    assert_eq!(meta.created_at, TS);
    assert_eq!(ctx.get_doc_content("f/n.md").unwrap(), "body");

    let renamed = ctx.oc.rename_doc("f/n.md", "m.md", "t4").unwrap();
    assert!(matches!(
        renamed.events.as_slice(),
        [Event::Doc(DocEvent::Renamed { old_path, new_path })] if old_path == "f/n.md" && new_path == "f/m.md"
    ));
    ctx.settle(renamed);
    let moved = ctx.oc.move_doc("f/m.md", "g", "t5").unwrap();
    assert!(matches!(
        moved.before_commit.as_slice(),
        [FsOp::CreateDirAll { path }, FsOp::Rename { from, to }]
            if path == "/data/oc/contexts/g" && from == "/data/oc/contexts/f/m.md" && to == "/data/oc/contexts/g/m.md"
    ));
    assert!(matches!(
        moved.events.as_slice(),
        [Event::Doc(DocEvent::Moved { old_path, new_path })] if old_path == "f/m.md" && new_path == "g/m.md"
    ));
    ctx.settle(moved);
    assert_eq!(ctx.get_doc_content("g/m.md").unwrap(), "body");

    let removed = ctx.oc.remove_doc("g/m.md").unwrap();
    assert!(removed.before_commit.is_empty());
    assert!(matches!(
        removed.after_commit.as_slice(),
        [FsOp::RemoveFile { path }] if path == "/data/oc/contexts/g/m.md"
    ));
    assert!(matches!(
        removed.events.as_slice(),
        [Event::Doc(DocEvent::Deleted { rel_path })] if rel_path == "g/m.md"
    ));
    ctx.settle(removed);
    assert!(!ctx.disk.has("/data/oc/contexts/g/m.md"));
}

#[test]
fn doc_refusals_name_their_reason() {
    let mut ctx = open_context();
    ctx.create_folder("f", None).unwrap();
    let e = ctx.create_doc("f", "", None).unwrap_err();
    assert_eq!((e.kind(), e.message()), (ErrorKind::InvalidInput, "Document name is required.".to_string()));
    let e = ctx.create_doc("f", "a/b", None).unwrap_err();
    assert_eq!(e.message(), "Document name must not contain \"/\".");
    let e = ctx.create_doc("", "a.md", None).unwrap_err();
    assert_eq!(e.kind(), ErrorKind::NotFound);
    ctx.create_doc("f", "a.md", None).unwrap();
    let e = ctx.create_doc("f", "a.md", None).unwrap_err();
    assert_eq!((e.kind(), e.message()), (ErrorKind::Conflict, "File \"f/a.md\" already exists.".to_string()));
    let e = ctx.oc.create_doc("f", "b.md", None, &vec![1, 2, 3], TS).unwrap_err();
    assert_eq!(e.kind(), ErrorKind::Store);
    assert_eq!(e.message(), "database error: failed to generate stable_id");
    // the same random bytes twice give the same identifier, which is refused
    let same: Vec<u8> = vec![7; 16];
    ctx.oc.create_doc("f", "c.md", None, &same, TS).unwrap();
    let e = ctx.oc.create_doc("f", "d.md", None, &same, TS).unwrap_err();
    assert_eq!(e.message(), "database error: UNIQUE constraint failed: docs.stable_id");
    assert_eq!(ctx.oc.docs().len(), 2);

    let e = ctx.get_doc_meta("/").unwrap_err();
    assert_eq!((e.kind(), e.message()), (ErrorKind::InvalidInput, "document path cannot be root".to_string()));
    let e = ctx.get_doc_meta("f/zz.md").unwrap_err();
    assert_eq!((e.kind(), e.message()), (ErrorKind::NotFound, "Document \"f/zz.md\" not found.".to_string()));
    let e = ctx.rename_doc("f/a.md", "x/y").unwrap_err();
    assert_eq!(e.message(), "New name must be a single file name without \"/\".");
    let e = ctx.rename_doc("f/a.md", "c.md").unwrap_err();
    assert_eq!((e.kind(), e.message()), (ErrorKind::Conflict, "Document \"f/c.md\" already exists.".to_string()));
    let e = ctx.move_doc("f/a.md", "nowhere").unwrap_err();
    assert_eq!(e.kind(), ErrorKind::NotFound);
    // moving a document into its own folder finds its own path taken
    assert_eq!(ctx.move_doc("f/a.md", "f").unwrap_err().kind(), ErrorKind::Conflict);
    let e = ctx.get_doc_by_stable_id("   ").unwrap_err();
    assert_eq!((e.kind(), e.message()), (ErrorKind::InvalidInput, "stable_id is required.".to_string()));
    let e = ctx.get_doc_by_stable_id("nope").unwrap_err();
    assert_eq!(e.message(), "Document with stable_id \"nope\" not found.");
}

#[test]
fn reading_follows_the_time_of_the_file_system() {
    let mut ctx = open_context();
    ctx.create_folder("f", None).unwrap();
    ctx.create_doc("f", "a.md", None).unwrap();
    let same = ctx.oc.get_doc_meta("f/a.md", Some(TS)).unwrap();
    assert_eq!(same.updated_at, TS);
    let newer = ctx.oc.get_doc_meta("f/a.md", Some("2030-01-01T00:00:00.000Z")).unwrap();
    assert_eq!(newer.updated_at, "2030-01-01T00:00:00.000Z");
    let file = ctx.oc.get_doc_content("f/a.md", Some("2031-01-01T00:00:00.000Z")).unwrap();
    assert_eq!(file, "/data/oc/contexts/f/a.md");
    assert_eq!(ctx.get_doc_meta("f/a.md").unwrap().updated_at, "2031-01-01T00:00:00.000Z");
    assert_eq!(ctx.get_doc_meta("f/a.md").unwrap().created_at, TS);
}

#[test]
fn listings_are_ordered() {
    let mut ctx = open_context();
    for path in ["b", "a/z", "a/y", "B", "a"] {
        ctx.create_folder(path, None).unwrap();
    }
    let all: Vec<String> = ctx.list_folders(true).unwrap().into_iter().map(|f| f.rel_path).collect();
    assert_eq!(all, vec!["B", "a", "a/y", "a/z", "b"]);
    let top: Vec<String> = ctx.list_folders(false).unwrap().into_iter().map(|f| f.name).collect();
    assert_eq!(top, vec!["B", "a", "b"]);
    for name in ["n.md", "A.md", "é.md", "m.md"] {
        ctx.create_doc("a", name, None).unwrap();
    }
    ctx.create_doc("a/y", "0.md", None).unwrap();
    let direct: Vec<String> = ctx.list_docs("a", false).unwrap().into_iter().map(|d| d.name).collect();
    assert_eq!(direct, vec!["A.md", "m.md", "n.md", "é.md"]);
    let below: Vec<String> = ctx.list_docs("a", true).unwrap().into_iter().map(|d| d.rel_path).collect();
    assert_eq!(below, vec!["a/A.md", "a/m.md", "a/n.md", "a/y/0.md", "a/é.md"]);
    assert_eq!(ctx.list_docs("nowhere", true).unwrap_err().kind(), ErrorKind::NotFound);
}

#[test]
fn the_root_lists_every_document() {
    let mut ctx = open_context();
    for path in ["b", "a/y"] {
        ctx.create_folder(path, None).unwrap();
    }
    assert!(ctx.list_docs("", true).unwrap().is_empty());
    ctx.create_doc("b", "2.md", None).unwrap();
    ctx.create_doc("a/y", "0.md", None).unwrap();
    ctx.create_doc("a", "1.md", None).unwrap();
    for root in ["", "/", ".", "  "] {
        let all: Vec<String> =
            ctx.list_docs(root, true).unwrap().into_iter().map(|d| d.rel_path).collect();
        assert_eq!(all, vec!["a/1.md", "a/y/0.md", "b/2.md"]);
        assert!(ctx.list_docs(root, false).unwrap().is_empty());
    }
    let lines: Vec<String> =
        ctx.generate_manifest("", Some(2)).unwrap().into_iter().map(|e| e.rel_path).collect();
    assert_eq!(lines, vec!["a/1.md", "a/y/0.md"]);
    assert_eq!(ctx.generate_manifest("", None).unwrap().len(), 3);
    assert_eq!(ctx.generate_manifest("", Some(0)).unwrap_err().kind(), ErrorKind::InvalidInput);
}

#[test]
fn a_catalog_can_be_put_down_and_taken_up() {
    let mut ctx = open_context();
    ctx.create_folder("a/b", Some("x")).unwrap();
    ctx.create_doc("a/b", "d.md", None).unwrap();
    let info = ctx.oc.env_info();
    let folders = ctx.oc.folders();
    let docs = ctx.oc.docs();
    let mut again = OpenContext::restore(info, folders, docs).expect("rows are consistent");
    assert_eq!(again.folders().len(), 2);
    assert_eq!(again.get_doc_meta("a/b/d.md", None).unwrap().name, "d.md");
    // identifiers go on after the largest one in use
    again.create_folder("c", None, TS).unwrap();
    let ids: Vec<i64> = again.folders().iter().map(|f| f.id).collect();
    assert_eq!(ids, vec![1, 2, 3]);

    // rows that contradict each other are refused
    let mut broken = ctx.oc.docs();
    broken[0].folder_id = 99;
    let e = OpenContext::restore(ctx.oc.env_info(), ctx.oc.folders(), broken).err().unwrap();
    assert_eq!(e.kind(), ErrorKind::Store);
    let mut twice = ctx.oc.folders();
    twice.push(twice[0].clone());
    assert!(OpenContext::restore(ctx.oc.env_info(), twice, vec![]).is_err());
    let mut orphan = ctx.oc.folders();
    orphan.remove(0);
    assert!(OpenContext::restore(ctx.oc.env_info(), orphan, vec![]).is_err());
    let mut misnamed = ctx.oc.folders();
    misnamed[1].name = "zzz".to_string();
    assert!(OpenContext::restore(ctx.oc.env_info(), misnamed, ctx.oc.docs()).is_err());
}

#[test]
fn no_path_becomes_both_a_folder_and_a_document() {
    let mut ctx = open_context();
    ctx.create_folder("a/x", None).unwrap();
    ctx.create_folder("m/b", None).unwrap();
    ctx.create_doc("a", "b", None).unwrap();
    ctx.create_doc("m", "x", None).unwrap();
    let folders_before = ctx.oc.folders().len();
    let docs_before = ctx.oc.docs().len();

    // a folder for which a document is in the way
    for path in ["a/b", "a/b/c", "a/b/c/d"] {
        let e = ctx.create_folder(path, None).unwrap_err();
        assert_eq!(e.kind(), ErrorKind::Io);
        assert_eq!(
            e.message(),
            format!("io error: A document stands in the way of folder \"{path}\".")
        );
    }
    let e = ctx.rename_folder("a/x", "b").unwrap_err();
    assert_eq!(e.kind(), ErrorKind::Io);
    assert_eq!(e.message(), "io error: A document stands in the way of folder \"a/b\".");
    let e = ctx.move_folder("m/b", "a").unwrap_err();
    assert_eq!(e.kind(), ErrorKind::Io);
    assert_eq!(e.message(), "io error: A document stands in the way of folder \"a/b\".");

    // a document at whose path a folder stands
    let e = ctx.create_doc("a", "x", None).unwrap_err();
    assert_eq!(e.kind(), ErrorKind::Io);
    assert_eq!(e.message(), "io error: A folder stands in the way of document \"a/x\".");
    let e = ctx.rename_doc("a/b", "x").unwrap_err();
    assert_eq!(e.kind(), ErrorKind::Io);
    assert_eq!(e.message(), "io error: A folder stands in the way of document \"a/x\".");
    let e = ctx.move_doc("m/x", "a").unwrap_err();
    assert_eq!(e.kind(), ErrorKind::Io);
    assert_eq!(e.message(), "io error: A folder stands in the way of document \"a/x\".");

    // nothing has changed, and a taken name of the same kind is still a conflict
    assert_eq!(ctx.oc.folders().len(), folders_before);
    assert_eq!(ctx.oc.docs().len(), docs_before);
    assert_eq!(ctx.rename_folder("a/x", "x").unwrap_err().kind(), ErrorKind::Conflict);
    assert_eq!(ctx.create_doc("a", "b", None).unwrap_err().kind(), ErrorKind::Conflict);
    // a folder that has a row can still be created again, below a folder too
    assert!(ctx.create_folder("a/x", Some("again")).is_ok());
    assert!(ctx.create_folder("a/x/deep/er", None).is_ok());

    // rows in which a path is both are refused
    let mut docs = ctx.oc.docs();
    let mut clash = docs[0].clone();
    clash.id = 99;
    clash.stable_id = "00000000-0000-4000-8000-000000000000".to_string();
    clash.name = "x".to_string();
    clash.rel_path = "a/x".to_string();
    clash.abs_path = "/data/oc/contexts/a/x".to_string();
    docs.push(clash);
    let e = OpenContext::restore(ctx.oc.env_info(), ctx.oc.folders(), docs).err().unwrap();
    assert_eq!(e.kind(), ErrorKind::Store);
    assert!(OpenContext::restore(ctx.oc.env_info(), ctx.oc.folders(), ctx.oc.docs()).is_ok());
}

#[test]
fn a_renamed_or_removed_folder_leaves_nothing_behind() {
    let mut ctx = open_context();
    ctx.create_folder("p/q", None).unwrap();
    ctx.create_folder("px", None).unwrap();
    ctx.create_doc("p", "1.md", None).unwrap();
    ctx.create_doc("p/q", "2.md", None).unwrap();
    ctx.create_doc("px", "3.md", None).unwrap();
    ctx.rename_folder("p", "r").unwrap();
    let folders: Vec<String> = ctx.oc.folders().into_iter().map(|f| f.rel_path).collect();
    let docs: Vec<String> = ctx.oc.docs().into_iter().map(|d| d.rel_path).collect();
    assert_eq!(folders, vec!["r", "r/q", "px"]);
    assert_eq!(docs, vec!["r/1.md", "r/q/2.md", "px/3.md"]);
    let untouched = ctx.oc.folders()[2].clone();
    let removed = ctx.remove_folder("r", true).unwrap();
    assert_eq!(removed.rel_path, "r");
    let folders = ctx.oc.folders();
    assert_eq!(folders.len(), 1);
    assert_eq!(folders[0].rel_path, "px");
    assert_eq!(folders[0].id, untouched.id);
    assert_eq!(folders[0].updated_at, untouched.updated_at);
    let docs: Vec<String> = ctx.oc.docs().into_iter().map(|d| d.rel_path).collect();
    assert_eq!(docs, vec!["px/3.md"]);
}
