//! The catalog service: folders and documents are created, renamed, moved
//! and removed here. Each operation checks its input, changes the catalog,
//! and reports what has to happen on the file system and which events to
//! publish. Time and randomness come from the caller.

use crate::catalog::{
    affected_docs, can_move_subtree, doc_row_ok, docs_below, folder_created, folder_row_ok,
    lemma_doc_index, lemma_ensured, lemma_folder_index, lemma_way_free_above, lemma_with_folder,
    lemma_with_folder_description, new_doc_row, parents_ensured, relocated_doc, subtree_moved,
    subtree_removed, touched_doc, with_doc, with_doc_at, without_doc, CatalogView,
};
use crate::error::{CoreError, ErrorKind};
use crate::events::{
    Applied, DocEvent, DocEventView, Event, EventView, FolderEvent, FolderEventView, FsOp,
    FsOpView,
};
use crate::model::{
    Doc, DocCreated, DocSaved, DocSummary, EnvInfo, Folder, FolderSummary, Removed, RenameResult,
};
use crate::paths::{
    abs_chars, abs_of, child_chars, child_path, in_subtree, is_segment, is_single_segment,
    is_under, is_under_chars, lemma_child_path, lemma_last_index_of, lemma_normalized_is_rel_path,
    lemma_rel_path_parts, lemma_segment_is_rel_path, normalize_doc_path, normalize_folder_path,
    normalized, parent_chars, parent_of,
};
use crate::stable_id::{generate_stable_id, stable_id_of};
use crate::store::Catalog;
use crate::text::{
    chars_of, concat3, last_index_of, same_chars, slice_of, str_eq, string_of, trim_chars, trimmed,
};
use vstd::prelude::*;

verus! {

/// The text of an optional description: nothing where there is none.
pub open spec fn text_or_empty(text: Option<&str>) -> Seq<char> {
    match text {
        Some(t) => t@,
        None => Seq::empty(),
    }
}

/// The message for a folder that has no row.
pub open spec fn folder_not_found_text(rel: Seq<char>) -> Seq<char> {
    "Folder \""@ + rel + "\" does not exist. Use \"oc folder create "@ + rel + "\" first."@
}

/// The message for a folder path that is taken.
pub open spec fn folder_exists_text(rel: Seq<char>) -> Seq<char> {
    "Target folder \""@ + rel + "\" already exists."@
}

/// The message for a folder path on whose way a document stands.
pub open spec fn doc_in_way_text(rel: Seq<char>) -> Seq<char> {
    "A document stands in the way of folder \""@ + rel + "\"."@
}

/// The message for a document path at which a folder stands.
pub open spec fn folder_in_way_text(rel: Seq<char>) -> Seq<char> {
    "A folder stands in the way of document \""@ + rel + "\"."@
}

/// The message for a folder that still holds something.
pub open spec fn folder_not_empty_text(rel: Seq<char>) -> Seq<char> {
    "Folder \""@ + rel + "\" is not empty. Use --force to delete recursively."@
}

/// The directory that holds `rel` on the file system.
pub open spec fn abs_parent(root: Seq<char>, rel: Seq<char>) -> Seq<char> {
    match parent_of(rel) {
        Some(p) => abs_of(root, p),
        None => root,
    }
}

/// The path of `name` beside `rel`, in the same folder.
pub open spec fn sibling_path(rel: Seq<char>, name: Seq<char>) -> Seq<char> {
    match parent_of(rel) {
        Some(p) => child_path(p, name),
        None => name,
    }
}

/// Why `create_folder` refuses, if it does.
pub open spec fn create_folder_refusal(c: CatalogView, path: Seq<char>) -> Option<
    (ErrorKind, Seq<char>),
> {
    let rel = normalized(path);
    if rel.len() == 0 {
        Some(
            (
                ErrorKind::InvalidInput,
                "Cannot create root folder. Provide a sub-path like \"project-a\"."@,
            ),
        )
    } else if !c.way_free(rel) {
        Some((ErrorKind::Io, doc_in_way_text(rel)))
    } else if c.next_folder_id + rel.len() > i64::MAX {
        Some((ErrorKind::Store, "database or disk is full"@))
    } else {
        None
    }
}

/// Why `rename_folder` refuses, if it does.
pub open spec fn rename_folder_refusal(
    c: CatalogView,
    path: Seq<char>,
    new_name: Seq<char>,
) -> Option<(ErrorKind, Seq<char>)> {
    let rel = normalized(path);
    if rel.len() == 0 {
        Some((ErrorKind::InvalidInput, "Cannot rename the root contexts directory."@))
    } else if !is_segment(new_name) {
        Some((ErrorKind::InvalidInput, "New name must be a single path segment."@))
    } else if !c.has_folder(rel) {
        Some((ErrorKind::NotFound, folder_not_found_text(rel)))
    } else if c.has_folder(sibling_path(rel, new_name)) {
        Some((ErrorKind::Conflict, folder_exists_text(sibling_path(rel, new_name))))
    } else if c.has_doc(sibling_path(rel, new_name)) {
        Some((ErrorKind::Io, doc_in_way_text(sibling_path(rel, new_name))))
    } else {
        None
    }
}

/// The catalog after `rename_folder`, where it does not refuse.
pub open spec fn folder_renamed(
    c: CatalogView,
    path: Seq<char>,
    new_name: Seq<char>,
    ts: Seq<char>,
) -> CatalogView {
    let rel = normalized(path);
    subtree_moved(c, rel, sibling_path(rel, new_name), c.folder_at(rel).parent_id, ts)
}

/// Why `move_folder` refuses, if it does.
pub open spec fn move_folder_refusal(c: CatalogView, path: Seq<char>, dest: Seq<char>) -> Option<
    (ErrorKind, Seq<char>),
> {
    let rel = normalized(path);
    let into = normalized(dest);
    if rel.len() == 0 {
        Some((ErrorKind::InvalidInput, "Cannot move the root contexts directory."@))
    } else if into.len() == 0 {
        Some(
            (
                ErrorKind::InvalidInput,
                "Root is not supported. Please move into a folder under contexts/."@,
            ),
        )
    } else if in_subtree(rel, into) {
        Some((ErrorKind::InvalidInput, "Cannot move a folder into itself or its descendants."@))
    } else if !c.has_folder(rel) {
        Some((ErrorKind::NotFound, folder_not_found_text(rel)))
    } else if !c.has_folder(into) {
        Some((ErrorKind::NotFound, folder_not_found_text(into)))
    } else if c.has_folder(child_path(into, c.folder_at(rel).name)) {
        Some((ErrorKind::Conflict, folder_exists_text(child_path(into, c.folder_at(rel).name))))
    } else if c.has_doc(child_path(into, c.folder_at(rel).name)) {
        Some((ErrorKind::Io, doc_in_way_text(child_path(into, c.folder_at(rel).name))))
    } else {
        None
    }
}

/// The path of the folder `path` once it has been moved into `dest`.
pub open spec fn move_folder_target(c: CatalogView, path: Seq<char>, dest: Seq<char>) -> Seq<char> {
    child_path(normalized(dest), c.folder_at(normalized(path)).name)
}

/// The catalog after `move_folder`, where it does not refuse.
pub open spec fn folder_moved(
    c: CatalogView,
    path: Seq<char>,
    dest: Seq<char>,
    ts: Seq<char>,
) -> CatalogView {
    subtree_moved(
        c,
        normalized(path),
        move_folder_target(c, path, dest),
        Some(c.folder_at(normalized(dest)).id),
        ts,
    )
}

/// Why `remove_folder` refuses, if it does.
pub open spec fn remove_folder_refusal(c: CatalogView, path: Seq<char>, force: bool) -> Option<
    (ErrorKind, Seq<char>),
> {
    let rel = normalized(path);
    if rel.len() == 0 {
        Some((ErrorKind::InvalidInput, "Cannot remove the root contexts directory."@))
    } else if !c.has_folder(rel) {
        Some((ErrorKind::NotFound, folder_not_found_text(rel)))
    } else if !force && (c.child_folder_count(c.folder_at(rel).id) > 0 || c.child_doc_count(
        c.folder_at(rel).id,
    ) > 0) {
        Some((ErrorKind::Conflict, folder_not_empty_text(rel)))
    } else {
        None
    }
}

/// A refusal as an error value.
pub fn refuse(kind: ErrorKind, text: String) -> (e: CoreError)
    ensures
        e.is(kind, text@),
{
    match kind {
        ErrorKind::InvalidInput => CoreError::InvalidInput(text),
        ErrorKind::NotFound => CoreError::NotFound(text),
        ErrorKind::Conflict => CoreError::Conflict(text),
        ErrorKind::Io => CoreError::Io(text),
        ErrorKind::Store => CoreError::Store(text),
    }
}

/// The error for a folder that has no row.
pub(crate) fn folder_not_found(rel: &Vec<char>) -> (e: CoreError)
    ensures
        e.is(ErrorKind::NotFound, folder_not_found_text(rel@)),
{
    let p = string_of(rel);
    let mut text = concat3("Folder \"", p.as_str(), "\" does not exist. Use \"oc folder create ");
    text.append(p.as_str());
    text.append("\" first.");
    refuse(ErrorKind::NotFound, text)
}

/// The error for a folder path that is taken.
fn folder_exists(rel: &Vec<char>) -> (e: CoreError)
    ensures
        e.is(ErrorKind::Conflict, folder_exists_text(rel@)),
{
    let p = string_of(rel);
    refuse(ErrorKind::Conflict, concat3("Target folder \"", p.as_str(), "\" already exists."))
}

/// The error for a folder path on whose way a document stands.
fn doc_in_way(rel: &Vec<char>) -> (e: CoreError)
    ensures
        e.is(ErrorKind::Io, doc_in_way_text(rel@)),
{
    let p = string_of(rel);
    refuse(ErrorKind::Io, concat3("A document stands in the way of folder \"", p.as_str(), "\"."))
}

/// The error for a document path at which a folder stands.
fn folder_in_way(rel: &Vec<char>) -> (e: CoreError)
    ensures
        e.is(ErrorKind::Io, folder_in_way_text(rel@)),
{
    let p = string_of(rel);
    refuse(ErrorKind::Io, concat3("A folder stands in the way of document \"", p.as_str(), "\"."))
}

/// An empty result wrapper around `value`.
fn applied<T>(value: T) -> (a: Applied<T>)
    ensures
        a.value == value,
        a.before_commit@.len() == 0,
        a.after_commit@.len() == 0,
        a.events@.len() == 0,
        a.before() == Seq::<FsOpView>::empty(),
        a.after() == Seq::<FsOpView>::empty(),
        a.published() == Seq::<EventView>::empty(),
{
    let a = Applied { value, before_commit: Vec::new(), after_commit: Vec::new(), events: Vec::new() };
    assert(a.before() =~= Seq::<FsOpView>::empty());
    assert(a.after() =~= Seq::<FsOpView>::empty());
    assert(a.published() =~= Seq::<EventView>::empty());
    a
}

/// The catalog of folders and documents below one contexts root.
pub struct OpenContext {
    pub(crate) state: Catalog,
    pub(crate) db_path: String,
}

impl OpenContext {
    /// The catalog is well-formed at all times.
    #[verifier::type_invariant]
    pub(crate) open spec fn well_formed(self) -> bool {
        self.state@.wf()
    }

    /// The state of the catalog.
    pub closed spec fn view(&self) -> CatalogView {
        self.state@
    }

    /// Where the metadata store is kept.
    pub closed spec fn store_path(&self) -> Seq<char> {
        self.db_path@
    }

    /// The state of the catalog is that of its tables.
    pub(crate) proof fn lemma_view(&self)
        ensures
            self@ == self.state@,
            self.store_path() == self.db_path@,
    {
    }

    /// An empty catalog for the given locations.
    pub fn open(info: EnvInfo) -> (ctx: OpenContext)
        ensures
            ctx@ == CatalogView::empty(info.contexts_root@),
            ctx@.wf(),
            ctx.store_path() == info.db_path@,
    {
        OpenContext { state: Catalog::new(info.contexts_root), db_path: info.db_path }
    }

    /// The locations that this catalog was opened with.
    pub fn env_info(&self) -> (info: EnvInfo)
        ensures
            info.contexts_root@ == self@.root,
            info.db_path@ == self.store_path(),
    {
        EnvInfo { contexts_root: self.state.root.clone(), db_path: self.db_path.clone() }
    }

    /// A copy of the catalog, to try a change on.
    pub fn duplicate(&self) -> (copy: OpenContext)
        ensures
            copy@ == self@,
            copy@.wf(),
            copy.store_path() == self.store_path(),
    {
        proof {
            use_type_invariant(self);
        }
        OpenContext { state: self.state.duplicate(), db_path: self.db_path.clone() }
    }

    /// Takes the state out for a change, leaving an empty catalog meanwhile.
    fn take(&mut self) -> (state: Catalog)
        ensures
            state@ == old(self)@,
            state@.wf(),
            final(self).db_path == old(self).db_path,
    {
        proof {
            use_type_invariant(&*self);
        }
        let mut state = Catalog::new(String::new());
        std::mem::swap(&mut state, &mut self.state);
        state
    }

    /// Creates the folder `path` together with every missing folder above
    /// it. Where the folder has a row already, only its description is
    /// replaced. Nothing is published. A path at which, or above which, a
    /// document stands cannot become a directory and is refused.
    pub fn create_folder(&mut self, path: &str, description: Option<&str>, ts: &str) -> (r: Result<
        Applied<FolderSummary>,
        CoreError,
    >)
        ensures
            final(self)@.wf(),
            final(self).store_path() == old(self).store_path(),
            match r {
                Ok(a) => {
                    let rel = normalized(path@);
                    &&& create_folder_refusal(old(self)@, path@) is None
                    &&& final(self)@ == folder_created(
                        old(self)@,
                        rel,
                        text_or_empty(description),
                        ts@,
                    )
                    &&& final(self)@.has_folder(rel)
                    &&& final(self)@.folder_at(rel).description == text_or_empty(description)
                    &&& a.value.rel_path@ == rel
                    &&& a.value.abs_path@ == abs_of(old(self)@.root, rel)
                    &&& a.value.description@ == text_or_empty(description)
                    &&& a.before() == if old(self)@.has_folder(rel) {
                        Seq::<FsOpView>::empty()
                    } else {
                        seq![FsOpView::CreateDirAll { path: abs_of(old(self)@.root, rel) }]
                    }
                    &&& a.after() == Seq::<FsOpView>::empty()
                    &&& a.published() == Seq::<EventView>::empty()
                },
                Err(e) => {
                    &&& create_folder_refusal(old(self)@, path@) == Some((e.kind(), e.text()))
                    &&& final(self)@ == old(self)@
                },
            },
    {
        let mut state = self.take();
        let r = create_folder_in(&mut state, path, description, ts);
        self.state = state;
        r
    }

    /// Gives the folder `path` the name `new_name`. Every folder and
    /// document below it follows. A name that a folder or a document
    /// beside it has is refused.
    pub fn rename_folder(&mut self, path: &str, new_name: &str, ts: &str) -> (r: Result<
        Applied<RenameResult>,
        CoreError,
    >)
        ensures
            final(self)@.wf(),
            final(self).store_path() == old(self).store_path(),
            match r {
                Ok(a) => {
                    let rel = normalized(path@);
                    let to = sibling_path(rel, new_name@);
                    &&& rename_folder_refusal(old(self)@, path@, new_name@) is None
                    &&& final(self)@ == folder_renamed(old(self)@, path@, new_name@, ts@)
                    &&& a.value.old_path@ == rel
                    &&& a.value.new_path@ == to
                    &&& a.before() == seq![
                        FsOpView::CreateDirAll { path: abs_parent(old(self)@.root, to) },
                        FsOpView::Rename {
                            from: abs_of(old(self)@.root, rel),
                            to: abs_of(old(self)@.root, to),
                        },
                    ]
                    &&& a.after() == Seq::<FsOpView>::empty()
                    &&& a.published() == seq![
                        EventView::Folder(
                            FolderEventView::Renamed {
                                old_path: rel,
                                new_path: to,
                                affected_docs: affected_docs(old(self)@, rel, to),
                            },
                        ),
                    ]
                },
                Err(e) => {
                    &&& rename_folder_refusal(old(self)@, path@, new_name@) == Some(
                        (e.kind(), e.text()),
                    )
                    &&& final(self)@ == old(self)@
                },
            },
    {
        let mut state = self.take();
        let r = rename_folder_in(&mut state, path, new_name, ts);
        self.state = state;
        r
    }

    /// Moves the folder `path` into the folder `dest_folder_path`, keeping
    /// its name. Every folder and document below it follows. A destination
    /// that holds a folder or a document of that name is refused.
    pub fn move_folder(&mut self, path: &str, dest_folder_path: &str, ts: &str) -> (r: Result<
        Applied<RenameResult>,
        CoreError,
    >)
        ensures
            final(self)@.wf(),
            final(self).store_path() == old(self).store_path(),
            match r {
                Ok(a) => {
                    let rel = normalized(path@);
                    let to = move_folder_target(old(self)@, path@, dest_folder_path@);
                    &&& move_folder_refusal(old(self)@, path@, dest_folder_path@) is None
                    &&& final(self)@ == folder_moved(old(self)@, path@, dest_folder_path@, ts@)
                    &&& a.value.old_path@ == rel
                    &&& a.value.new_path@ == to
                    &&& a.before() == seq![
                        FsOpView::CreateDirAll { path: abs_parent(old(self)@.root, to) },
                        FsOpView::Rename {
                            from: abs_of(old(self)@.root, rel),
                            to: abs_of(old(self)@.root, to),
                        },
                    ]
                    &&& a.after() == Seq::<FsOpView>::empty()
                    &&& a.published() == seq![
                        EventView::Folder(
                            FolderEventView::Moved {
                                old_path: rel,
                                new_path: to,
                                affected_docs: affected_docs(old(self)@, rel, to),
                            },
                        ),
                    ]
                },
                Err(e) => {
                    &&& move_folder_refusal(old(self)@, path@, dest_folder_path@) == Some(
                        (e.kind(), e.text()),
                    )
                    &&& final(self)@ == old(self)@
                },
            },
    {
        let mut state = self.take();
        let r = move_folder_in(&mut state, path, dest_folder_path, ts);
        self.state = state;
        r
    }

    /// Removes the folder `path`. Without `force` a folder that holds a
    /// folder or a document is refused and nothing changes; with it, all
    /// that lies below goes too.
    pub fn remove_folder(&mut self, path: &str, force: bool) -> (r: Result<
        Applied<Removed>,
        CoreError,
    >)
        ensures
            final(self)@.wf(),
            final(self).store_path() == old(self).store_path(),
            match r {
                Ok(a) => {
                    let rel = normalized(path@);
                    let dir = abs_of(old(self)@.root, rel);
                    &&& remove_folder_refusal(old(self)@, path@, force) is None
                    &&& final(self)@ == subtree_removed(old(self)@, rel)
                    &&& a.value.rel_path@ == rel
                    &&& a.before() == Seq::<FsOpView>::empty()
                    &&& a.after() == if force {
                        seq![FsOpView::RemoveDirAll { path: dir }]
                    } else {
                        seq![FsOpView::RemoveDir { path: dir }]
                    }
                    &&& a.published() == seq![
                        EventView::Folder(
                            FolderEventView::Deleted {
                                rel_path: rel,
                                removed_docs: docs_below(old(self)@, rel),
                            },
                        ),
                    ]
                },
                Err(e) => {
                    &&& remove_folder_refusal(old(self)@, path@, force) == Some(
                        (e.kind(), e.text()),
                    )
                    &&& final(self)@ == old(self)@
                },
            },
    {
        let mut state = self.take();
        let r = remove_folder_in(&mut state, path, force);
        self.state = state;
        r
    }
}

/// The message for a document that has no row.
pub open spec fn doc_not_found_text(rel: Seq<char>) -> Seq<char> {
    "Document \""@ + rel + "\" not found."@
}

/// The message for a document path that is taken.
pub open spec fn doc_exists_text(rel: Seq<char>) -> Seq<char> {
    "Document \""@ + rel + "\" already exists."@
}

/// The message for a file path that is taken.
pub open spec fn file_exists_text(rel: Seq<char>) -> Seq<char> {
    "File \""@ + rel + "\" already exists."@
}

/// The message for a stable identifier that no document has.
pub open spec fn stable_id_not_found_text(sid: Seq<char>) -> Seq<char> {
    "Document with stable_id \""@ + sid + "\" not found."@
}

/// Why a document path is refused before the catalog is asked, if it is.
pub open spec fn doc_lookup_refusal(c: CatalogView, doc_path: Seq<char>) -> Option<
    (ErrorKind, Seq<char>),
> {
    let rel = normalized(doc_path);
    if rel.len() == 0 {
        Some((ErrorKind::InvalidInput, "document path cannot be root"@))
    } else if !c.has_doc(rel) {
        Some((ErrorKind::NotFound, doc_not_found_text(rel)))
    } else {
        None
    }
}

/// Why `create_doc` refuses, if it does.
pub open spec fn create_doc_refusal(
    c: CatalogView,
    folder_path: Seq<char>,
    name: Seq<char>,
    random: Seq<u8>,
) -> Option<(ErrorKind, Seq<char>)> {
    let folder = normalized(folder_path);
    if name.len() == 0 {
        Some((ErrorKind::InvalidInput, "Document name is required."@))
    } else if name.contains('/') {
        Some((ErrorKind::InvalidInput, "Document name must not contain \"/\"."@))
    } else if !c.has_folder(folder) {
        Some((ErrorKind::NotFound, folder_not_found_text(folder)))
    } else if c.has_doc(child_path(folder, name)) {
        Some((ErrorKind::Conflict, file_exists_text(child_path(folder, name))))
    } else if c.has_folder(child_path(folder, name)) {
        Some((ErrorKind::Io, folder_in_way_text(child_path(folder, name))))
    } else if random.len() != 16 {
        Some((ErrorKind::Store, "failed to generate stable_id"@))
    } else if c.has_stable_id(stable_id_of(random)) {
        Some((ErrorKind::Store, "UNIQUE constraint failed: docs.stable_id"@))
    } else if c.next_doc_id >= i64::MAX {
        Some((ErrorKind::Store, "database or disk is full"@))
    } else {
        None
    }
}

/// The catalog after `create_doc`, where it does not refuse.
pub open spec fn doc_created(
    c: CatalogView,
    folder_path: Seq<char>,
    name: Seq<char>,
    description: Seq<char>,
    random: Seq<u8>,
    ts: Seq<char>,
) -> CatalogView {
    with_doc(
        c,
        new_doc_row(
            c,
            c.folder_at(normalized(folder_path)),
            name,
            description,
            stable_id_of(random),
            ts,
        ),
    )
}

/// Why `move_doc` refuses, if it does.
pub open spec fn move_doc_refusal(c: CatalogView, doc_path: Seq<char>, dest: Seq<char>) -> Option<
    (ErrorKind, Seq<char>),
> {
    let rel = normalized(doc_path);
    let into = normalized(dest);
    if doc_lookup_refusal(c, doc_path) is Some {
        doc_lookup_refusal(c, doc_path)
    } else if !c.has_folder(into) {
        Some((ErrorKind::NotFound, folder_not_found_text(into)))
    } else if c.has_doc(child_path(into, c.doc_at(rel).name)) {
        Some((ErrorKind::Conflict, doc_exists_text(child_path(into, c.doc_at(rel).name))))
    } else if c.has_folder(child_path(into, c.doc_at(rel).name)) {
        Some((ErrorKind::Io, folder_in_way_text(child_path(into, c.doc_at(rel).name))))
    } else {
        None
    }
}

/// The catalog after `move_doc`, where it does not refuse.
pub open spec fn doc_moved(c: CatalogView, doc_path: Seq<char>, dest: Seq<char>, ts: Seq<char>) -> CatalogView {
    let rel = normalized(doc_path);
    with_doc_at(
        c,
        c.doc_index(rel),
        relocated_doc(c.root, c.doc_at(rel), c.folder_at(normalized(dest)), c.doc_at(rel).name, ts),
    )
}

/// Why `rename_doc` refuses, if it does.
pub open spec fn rename_doc_refusal(
    c: CatalogView,
    doc_path: Seq<char>,
    new_name: Seq<char>,
) -> Option<(ErrorKind, Seq<char>)> {
    let rel = normalized(doc_path);
    if !is_segment(new_name) {
        Some((ErrorKind::InvalidInput, "New name must be a single file name without \"/\"."@))
    } else if doc_lookup_refusal(c, doc_path) is Some {
        doc_lookup_refusal(c, doc_path)
    } else if c.has_doc(sibling_path(rel, new_name)) {
        Some((ErrorKind::Conflict, doc_exists_text(sibling_path(rel, new_name))))
    } else if c.has_folder(sibling_path(rel, new_name)) {
        Some((ErrorKind::Io, folder_in_way_text(sibling_path(rel, new_name))))
    } else {
        None
    }
}

/// The catalog after `rename_doc`, where it does not refuse.
pub open spec fn doc_renamed(
    c: CatalogView,
    doc_path: Seq<char>,
    new_name: Seq<char>,
    ts: Seq<char>,
) -> CatalogView {
    let rel = normalized(doc_path);
    with_doc_at(
        c,
        c.doc_index(rel),
        relocated_doc(c.root, c.doc_at(rel), c.folder_at(parent_of(rel)->0), new_name, ts),
    )
}

/// The catalog with the row of the document `doc_path` touched.
pub open spec fn doc_touched(
    c: CatalogView,
    doc_path: Seq<char>,
    description: Option<&str>,
    updated_at: Option<&str>,
) -> CatalogView {
    let rel = normalized(doc_path);
    with_doc_at(c, c.doc_index(rel), touched_doc(c.doc_at(rel), description, updated_at))
}

/// The catalog after a read of the document `doc_path`: where the file
/// system reports a time of the last change that differs from the one on
/// record, the record follows.
pub open spec fn doc_synced(c: CatalogView, doc_path: Seq<char>, fs_modified: Option<&str>) -> CatalogView {
    match fs_modified {
        Some(m) => if m@ != c.doc_at(normalized(doc_path)).updated_at {
            doc_touched(c, doc_path, None, fs_modified)
        } else {
            c
        },
        None => c,
    }
}

/// Why `get_doc_by_stable_id` refuses, if it does.
pub open spec fn stable_id_refusal(c: CatalogView, stable_id: Seq<char>) -> Option<
    (ErrorKind, Seq<char>),
> {
    let cleaned = trimmed(stable_id);
    if cleaned.len() == 0 {
        Some((ErrorKind::InvalidInput, "stable_id is required."@))
    } else if !c.has_stable_id(cleaned) {
        Some((ErrorKind::NotFound, stable_id_not_found_text(cleaned)))
    } else {
        None
    }
}

/// The error for a document that has no row.
fn doc_not_found(rel: &Vec<char>) -> (e: CoreError)
    ensures
        e.is(ErrorKind::NotFound, doc_not_found_text(rel@)),
{
    let p = string_of(rel);
    refuse(ErrorKind::NotFound, concat3("Document \"", p.as_str(), "\" not found."))
}

/// The error for a document path that is taken.
fn doc_exists(rel: &Vec<char>) -> (e: CoreError)
    ensures
        e.is(ErrorKind::Conflict, doc_exists_text(rel@)),
{
    let p = string_of(rel);
    refuse(ErrorKind::Conflict, concat3("Document \"", p.as_str(), "\" already exists."))
}

/// The row index of the document `doc_path`.
fn lookup_doc(state: &Catalog, doc_path: &str) -> (r: Result<(usize, Vec<char>), CoreError>)
    requires
        state@.wf(),
    ensures
        match r {
            Ok((i, rel)) => {
                &&& doc_lookup_refusal(state@, doc_path@) is None
                &&& rel@ == normalized(doc_path@)
                &&& i < state.docs.len()
                &&& i == state@.doc_index(rel@)
                &&& state@.docs[i as int] == state@.doc_at(rel@)
                &&& state@.docs[i as int].rel_path == rel@
            },
            Err(e) => doc_lookup_refusal(state@, doc_path@) == Some((e.kind(), e.text())),
        },
{
    let rel_text = match normalize_doc_path(Some(doc_path)) {
        Ok(p) => p,
        Err(e) => {
            return Err(e);
        },
    };
    let rel = chars_of(rel_text.as_str());
    match state.find_doc(&rel) {
        Some(i) => {
            proof {
                lemma_doc_index(state@, i as int);
            }
            Ok((i, rel))
        },
        None => Err(doc_not_found(&rel)),
    }
}

impl OpenContext {
    /// Creates the empty document `name` in the folder `folder_path`. Its
    /// stable identifier is made of the sixteen bytes of `random`. A name
    /// that a document or a folder in that folder has is refused.
    pub fn create_doc(
        &mut self,
        folder_path: &str,
        name: &str,
        description: Option<&str>,
        random: &Vec<u8>,
        ts: &str,
    ) -> (r: Result<Applied<DocCreated>, CoreError>)
        ensures
            final(self)@.wf(),
            final(self).store_path() == old(self).store_path(),
            match r {
                Ok(a) => {
                    let folder = normalized(folder_path@);
                    let rel = child_path(folder, name@);
                    let file = abs_of(old(self)@.root, rel);
                    &&& create_doc_refusal(old(self)@, folder_path@, name@, random@) is None
                    &&& final(self)@ == doc_created(
                        old(self)@,
                        folder_path@,
                        name@,
                        text_or_empty(description),
                        random@,
                        ts@,
                    )
                    &&& final(self)@.has_doc(rel)
                    &&& a.value.rel_path@ == rel
                    &&& a.value.abs_path@ == file
                    &&& a.value.description@ == text_or_empty(description)
                    &&& a.value.stable_id@ == stable_id_of(random@)
                    &&& a.before() == seq![
                        FsOpView::CreateDirAll { path: abs_of(old(self)@.root, folder) },
                        FsOpView::WriteFile { path: file, content: Seq::empty() },
                    ]
                    &&& a.after() == Seq::<FsOpView>::empty()
                    &&& a.published() == seq![
                        EventView::Doc(DocEventView::Created { rel_path: rel }),
                    ]
                },
                Err(e) => {
                    &&& create_doc_refusal(old(self)@, folder_path@, name@, random@) == Some(
                        (e.kind(), e.text()),
                    )
                    &&& final(self)@ == old(self)@
                },
            },
    {
        let mut state = self.take();
        let r = create_doc_in(&mut state, folder_path, name, description, random, ts);
        self.state = state;
        r
    }

    /// Moves the document `doc_path` into the folder `dest_folder_path`,
    /// keeping its name and its stable identifier. A destination that
    /// holds a document or a folder of that name is refused.
    pub fn move_doc(&mut self, doc_path: &str, dest_folder_path: &str, ts: &str) -> (r: Result<
        Applied<RenameResult>,
        CoreError,
    >)
        ensures
            final(self)@.wf(),
            final(self).store_path() == old(self).store_path(),
            match r {
                Ok(a) => {
                    let rel = normalized(doc_path@);
                    let into = normalized(dest_folder_path@);
                    let to = child_path(into, old(self)@.doc_at(rel).name);
                    &&& move_doc_refusal(old(self)@, doc_path@, dest_folder_path@) is None
                    &&& final(self)@ == doc_moved(old(self)@, doc_path@, dest_folder_path@, ts@)
                    &&& final(self)@.docs[old(self)@.doc_index(rel)].stable_id == old(
                        self,
                    )@.doc_at(rel).stable_id
                    &&& a.value.old_path@ == rel
                    &&& a.value.new_path@ == to
                    &&& a.before() == seq![
                        FsOpView::CreateDirAll { path: abs_of(old(self)@.root, into) },
                        FsOpView::Rename {
                            from: abs_of(old(self)@.root, rel),
                            to: abs_of(old(self)@.root, to),
                        },
                    ]
                    &&& a.after() == Seq::<FsOpView>::empty()
                    &&& a.published() == seq![
                        EventView::Doc(DocEventView::Moved { old_path: rel, new_path: to }),
                    ]
                },
                Err(e) => {
                    &&& move_doc_refusal(old(self)@, doc_path@, dest_folder_path@) == Some(
                        (e.kind(), e.text()),
                    )
                    &&& final(self)@ == old(self)@
                },
            },
    {
        let mut state = self.take();
        let r = move_doc_in(&mut state, doc_path, dest_folder_path, ts);
        self.state = state;
        r
    }

    /// Gives the document `doc_path` the name `new_name`, keeping its
    /// folder and its stable identifier. A name that a document or a
    /// folder beside it has is refused.
    pub fn rename_doc(&mut self, doc_path: &str, new_name: &str, ts: &str) -> (r: Result<
        Applied<RenameResult>,
        CoreError,
    >)
        ensures
            final(self)@.wf(),
            final(self).store_path() == old(self).store_path(),
            match r {
                Ok(a) => {
                    let rel = normalized(doc_path@);
                    let to = sibling_path(rel, new_name@);
                    &&& rename_doc_refusal(old(self)@, doc_path@, new_name@) is None
                    &&& final(self)@ == doc_renamed(old(self)@, doc_path@, new_name@, ts@)
                    &&& final(self)@.docs[old(self)@.doc_index(rel)].stable_id == old(
                        self,
                    )@.doc_at(rel).stable_id
                    &&& a.value.old_path@ == rel
                    &&& a.value.new_path@ == to
                    &&& a.before() == seq![
                        FsOpView::CreateDirAll { path: abs_parent(old(self)@.root, to) },
                        FsOpView::Rename {
                            from: abs_of(old(self)@.root, rel),
                            to: abs_of(old(self)@.root, to),
                        },
                    ]
                    &&& a.after() == Seq::<FsOpView>::empty()
                    &&& a.published() == seq![
                        EventView::Doc(DocEventView::Renamed { old_path: rel, new_path: to }),
                    ]
                },
                Err(e) => {
                    &&& rename_doc_refusal(old(self)@, doc_path@, new_name@) == Some(
                        (e.kind(), e.text()),
                    )
                    &&& final(self)@ == old(self)@
                },
            },
    {
        let mut state = self.take();
        let r = rename_doc_in(&mut state, doc_path, new_name, ts);
        self.state = state;
        r
    }

    /// Removes the document `doc_path`. Its file goes once the row is gone.
    pub fn remove_doc(&mut self, doc_path: &str) -> (r: Result<Applied<Removed>, CoreError>)
        ensures
            final(self)@.wf(),
            final(self).store_path() == old(self).store_path(),
            match r {
                Ok(a) => {
                    let rel = normalized(doc_path@);
                    &&& doc_lookup_refusal(old(self)@, doc_path@) is None
                    &&& final(self)@ == without_doc(old(self)@, old(self)@.doc_index(rel))
                    &&& !final(self)@.has_doc(rel)
                    &&& a.value.rel_path@ == rel
                    &&& a.before() == Seq::<FsOpView>::empty()
                    &&& a.after() == seq![
                        FsOpView::RemoveFile { path: abs_of(old(self)@.root, rel) },
                    ]
                    &&& a.published() == seq![
                        EventView::Doc(DocEventView::Deleted { rel_path: rel }),
                    ]
                },
                Err(e) => {
                    &&& doc_lookup_refusal(old(self)@, doc_path@) == Some((e.kind(), e.text()))
                    &&& final(self)@ == old(self)@
                },
            },
    {
        let mut state = self.take();
        let r = remove_doc_in(&mut state, doc_path);
        self.state = state;
        r
    }

    /// Replaces the description of the document `doc_path`. Nothing is
    /// published.
    pub fn set_doc_description(&mut self, doc_path: &str, description: &str, ts: &str) -> (r:
        Result<DocSummary, CoreError>)
        ensures
            final(self)@.wf(),
            final(self).store_path() == old(self).store_path(),
            match r {
                Ok(summary) => {
                    &&& doc_lookup_refusal(old(self)@, doc_path@) is None
                    &&& final(self)@ == doc_touched(
                        old(self)@,
                        doc_path@,
                        Some(description),
                        Some(ts),
                    )
                    &&& summary.rel_path@ == normalized(doc_path@)
                    &&& summary.description@ == description@
                },
                Err(e) => {
                    &&& doc_lookup_refusal(old(self)@, doc_path@) == Some((e.kind(), e.text()))
                    &&& final(self)@ == old(self)@
                },
            },
    {
        let mut state = self.take();
        let r = match lookup_doc(&state, doc_path) {
            Ok((i, rel)) => {
                state.touch_doc(i, Some(description), Some(ts));
                Ok(DocSummary { rel_path: string_of(&rel), description: description.to_owned() })
            },
            Err(e) => Err(e),
        };
        self.state = state;
        r
    }

    /// The row of the document `doc_path`. `fs_modified` is the time of
    /// the last change that the file system reports for its file, if it
    /// reports one; where it differs from the time on record, the record
    /// follows.
    pub fn get_doc_meta(&mut self, doc_path: &str, fs_modified: Option<&str>) -> (r: Result<
        Doc,
        CoreError,
    >)
        ensures
            final(self)@.wf(),
            final(self).store_path() == old(self).store_path(),
            match r {
                Ok(doc) => {
                    &&& doc_lookup_refusal(old(self)@, doc_path@) is None
                    &&& final(self)@ == doc_synced(old(self)@, doc_path@, fs_modified)
                    &&& doc@ == final(self)@.docs[old(self)@.doc_index(normalized(doc_path@))]
                    &&& doc@.rel_path == normalized(doc_path@)
                },
                Err(e) => {
                    &&& doc_lookup_refusal(old(self)@, doc_path@) == Some((e.kind(), e.text()))
                    &&& final(self)@ == old(self)@
                },
            },
    {
        let mut state = self.take();
        let r = match lookup_doc(&state, doc_path) {
            Ok((i, rel)) => {
                let ghost before = state@;
                match fs_modified {
                    Some(m) => {
                        if !str_eq(m, state.docs[i].updated_at.as_str()) {
                            state.touch_doc(i, None, Some(m));
                        }
                    },
                    None => {},
                }
                let doc = state.docs[i].clone();
                assert(state@ == doc_synced(before, doc_path@, fs_modified));
                assert(doc@ == state@.docs[i as int]);
                assert(doc@.rel_path == rel@);
                Ok(doc)
            },
            Err(e) => Err(e),
        };
        self.state = state;
        r
    }

    /// The absolute path of the file that holds the content of the
    /// document `doc_path`. The time of the last change follows the file
    /// system as in [`Self::get_doc_meta`].
    pub fn get_doc_content(&mut self, doc_path: &str, fs_modified: Option<&str>) -> (r: Result<
        String,
        CoreError,
    >)
        ensures
            final(self)@.wf(),
            final(self).store_path() == old(self).store_path(),
            match r {
                Ok(file) => {
                    &&& doc_lookup_refusal(old(self)@, doc_path@) is None
                    &&& final(self)@ == doc_synced(old(self)@, doc_path@, fs_modified)
                    &&& file@ == old(self)@.doc_at(normalized(doc_path@)).abs_path
                },
                Err(e) => {
                    &&& doc_lookup_refusal(old(self)@, doc_path@) == Some((e.kind(), e.text()))
                    &&& final(self)@ == old(self)@
                },
            },
    {
        match self.get_doc_meta(doc_path, fs_modified) {
            Ok(doc) => Ok(doc.abs_path),
            Err(e) => Err(e),
        }
    }

    /// Records that `content` is the new content of the document
    /// `doc_path`, with a new description where one is given.
    pub fn save_doc_content(
        &mut self,
        doc_path: &str,
        content: &str,
        description: Option<&str>,
        ts: &str,
    ) -> (r: Result<Applied<DocSaved>, CoreError>)
        ensures
            final(self)@.wf(),
            final(self).store_path() == old(self).store_path(),
            match r {
                Ok(a) => {
                    let rel = normalized(doc_path@);
                    let file = old(self)@.doc_at(rel).abs_path;
                    &&& doc_lookup_refusal(old(self)@, doc_path@) is None
                    &&& final(self)@ == doc_touched(old(self)@, doc_path@, description, Some(ts))
                    &&& a.value.rel_path@ == rel
                    &&& a.value.abs_path@ == file
                    &&& a.before() == seq![FsOpView::WriteFile { path: file, content: content@ }]
                    &&& a.after() == Seq::<FsOpView>::empty()
                    &&& a.published() == seq![
                        EventView::Doc(DocEventView::Updated { rel_path: rel }),
                    ]
                },
                Err(e) => {
                    &&& doc_lookup_refusal(old(self)@, doc_path@) == Some((e.kind(), e.text()))
                    &&& final(self)@ == old(self)@
                },
            },
    {
        let mut state = self.take();
        let ghost before = state@;
        let r = match lookup_doc(&state, doc_path) {
            Ok((i, rel)) => {
                let file = state.docs[i].abs_path.clone();
                state.touch_doc(i, description, Some(ts));
                let rel_text = string_of(&rel);
                let mut out = applied(
                    DocSaved { rel_path: rel_text.clone(), abs_path: file.clone() },
                );
                out.before_commit.push(FsOp::WriteFile { path: file, content: content.to_owned() });
                out.events.push(Event::Doc(DocEvent::Updated { rel_path: rel_text }));
                assert(out.before() =~= seq![
                    FsOpView::WriteFile { path: before.doc_at(rel@).abs_path, content: content@ },
                ]);
                assert(out.published() =~= seq![
                    EventView::Doc(DocEventView::Updated { rel_path: rel@ }),
                ]);
                Ok(out)
            },
            Err(e) => Err(e),
        };
        self.state = state;
        r
    }

    /// The row of the document with the stable identifier `stable_id`,
    /// which is read without the white space around it.
    pub fn get_doc_by_stable_id(&self, stable_id: &str) -> (r: Result<Doc, CoreError>)
        ensures
            match r {
                Ok(doc) => {
                    &&& stable_id_refusal(self@, stable_id@) is None
                    &&& doc@ == self@.doc_by_stable_id(trimmed(stable_id@))
                    &&& doc@.stable_id == trimmed(stable_id@)
                },
                Err(e) => stable_id_refusal(self@, stable_id@) == Some((e.kind(), e.text())),
            },
    {
        proof {
            use_type_invariant(self);
        }
        let cleaned = trim_chars(&chars_of(stable_id));
        if cleaned.len() == 0 {
            return Err(refuse(ErrorKind::InvalidInput, "stable_id is required.".to_owned()));
        }
        match self.state.find_stable_id(&cleaned) {
            Some(i) => {
                proof {
                    lemma_doc_index(self.state@, i as int);
                }
                Ok(self.state.docs[i].clone())
            },
            None => {
                let sid = string_of(&cleaned);
                Err(
                    refuse(
                        ErrorKind::NotFound,
                        concat3("Document with stable_id \"", sid.as_str(), "\" not found."),
                    ),
                )
            },
        }
    }
}

/// [`OpenContext::create_doc`] on the tables.
fn create_doc_in(
    state: &mut Catalog,
    folder_path: &str,
    name: &str,
    description: Option<&str>,
    random: &Vec<u8>,
    ts: &str,
) -> (r: Result<Applied<DocCreated>, CoreError>)
    requires
        old(state)@.wf(),
    ensures
        final(state)@.wf(),
        match r {
            Ok(a) => {
                let folder = normalized(folder_path@);
                let rel = child_path(folder, name@);
                let file = abs_of(old(state)@.root, rel);
                &&& create_doc_refusal(old(state)@, folder_path@, name@, random@) is None
                &&& final(state)@ == doc_created(
                    old(state)@,
                    folder_path@,
                    name@,
                    text_or_empty(description),
                    random@,
                    ts@,
                )
                &&& final(state)@.has_doc(rel)
                &&& a.value.rel_path@ == rel
                &&& a.value.abs_path@ == file
                &&& a.value.description@ == text_or_empty(description)
                &&& a.value.stable_id@ == stable_id_of(random@)
                &&& a.before() == seq![
                    FsOpView::CreateDirAll { path: abs_of(old(state)@.root, folder) },
                    FsOpView::WriteFile { path: file, content: Seq::empty() },
                ]
                &&& a.after() == Seq::<FsOpView>::empty()
                &&& a.published() == seq![EventView::Doc(DocEventView::Created { rel_path: rel })]
            },
            Err(e) => {
                &&& create_doc_refusal(old(state)@, folder_path@, name@, random@) == Some(
                    (e.kind(), e.text()),
                )
                &&& final(state)@ == old(state)@
            },
        },
{
    let ghost before = state@;
    let name_chars = chars_of(name);
    if name_chars.len() == 0 {
        return Err(refuse(ErrorKind::InvalidInput, "Document name is required.".to_owned()));
    }
    if !is_single_segment(&name_chars) {
        return Err(
            refuse(ErrorKind::InvalidInput, "Document name must not contain \"/\".".to_owned()),
        );
    }
    let folder_text = match normalize_folder_path(Some(folder_path)) {
        Ok(p) => p,
        Err(e) => {
            return Err(e);
        },
    };
    let folder = chars_of(folder_text.as_str());
    let j = match state.find_folder(&folder) {
        Some(j) => j,
        None => {
            return Err(folder_not_found(&folder));
        },
    };
    proof {
        lemma_folder_index(before, j as int);
        assert(folder_row_ok(before.root, before.folders[j as int]));
    }
    let rel = child_chars(&folder, &name_chars);
    if state.find_doc(&rel).is_some() {
        let p = string_of(&rel);
        return Err(
            refuse(ErrorKind::Conflict, concat3("File \"", p.as_str(), "\" already exists.")),
        );
    }
    if state.find_folder(&rel).is_some() {
        return Err(folder_in_way(&rel));
    }
    let sid = match generate_stable_id(random) {
        Ok(sid) => sid,
        Err(e) => {
            return Err(e);
        },
    };
    proof {
        crate::stable_id::lemma_stable_id_format(random@);
    }
    if state.find_stable_id(&chars_of(sid.as_str())).is_some() {
        return Err(
            refuse(ErrorKind::Store, "UNIQUE constraint failed: docs.stable_id".to_owned()),
        );
    }
    if state.next_doc_id >= i64::MAX {
        return Err(refuse(ErrorKind::Store, "database or disk is full".to_owned()));
    }
    let desc: &str = match description {
        Some(d) => d,
        None => "",
    };
    assert(desc@ == text_or_empty(description)) by {
        reveal_strlit("");
        assert(""@ =~= Seq::<char>::empty());
    }
    let root = chars_of(state.root.as_str());
    let dir = string_of(&abs_chars(&root, &folder));
    let file = string_of(&abs_chars(&root, &rel));
    proof {
        crate::catalog::lemma_with_doc(before, j as int, name@, desc@, sid@, ts@);
    }
    state.insert_doc(j, &name_chars, desc, sid.as_str(), ts);
    let rel_text = string_of(&rel);
    let mut out = applied(
        DocCreated {
            rel_path: rel_text.clone(),
            abs_path: file.clone(),
            description: desc.to_owned(),
            stable_id: sid,
        },
    );
    out.before_commit.push(FsOp::CreateDirAll { path: dir });
    out.before_commit.push(FsOp::WriteFile { path: file, content: String::new() });
    out.events.push(Event::Doc(DocEvent::Created { rel_path: rel_text }));
    assert(out.before() =~= seq![
        FsOpView::CreateDirAll { path: abs_of(before.root, folder@) },
        FsOpView::WriteFile { path: abs_of(before.root, rel@), content: Seq::empty() },
    ]);
    assert(out.published() =~= seq![EventView::Doc(DocEventView::Created { rel_path: rel@ })]);
    Ok(out)
}

/// [`OpenContext::move_doc`] on the tables.
fn move_doc_in(state: &mut Catalog, doc_path: &str, dest_folder_path: &str, ts: &str) -> (r:
    Result<Applied<RenameResult>, CoreError>)
    requires
        old(state)@.wf(),
    ensures
        final(state)@.wf(),
        match r {
            Ok(a) => {
                let rel = normalized(doc_path@);
                let into = normalized(dest_folder_path@);
                let to = child_path(into, old(state)@.doc_at(rel).name);
                &&& move_doc_refusal(old(state)@, doc_path@, dest_folder_path@) is None
                &&& final(state)@ == doc_moved(old(state)@, doc_path@, dest_folder_path@, ts@)
                &&& final(state)@.docs[old(state)@.doc_index(rel)].stable_id == old(
                    state,
                )@.doc_at(rel).stable_id
                &&& a.value.old_path@ == rel
                &&& a.value.new_path@ == to
                &&& a.before() == seq![
                    FsOpView::CreateDirAll { path: abs_of(old(state)@.root, into) },
                    FsOpView::Rename {
                        from: abs_of(old(state)@.root, rel),
                        to: abs_of(old(state)@.root, to),
                    },
                ]
                &&& a.after() == Seq::<FsOpView>::empty()
                &&& a.published() == seq![
                    EventView::Doc(DocEventView::Moved { old_path: rel, new_path: to }),
                ]
            },
            Err(e) => {
                &&& move_doc_refusal(old(state)@, doc_path@, dest_folder_path@) == Some(
                    (e.kind(), e.text()),
                )
                &&& final(state)@ == old(state)@
            },
        },
{
    let ghost before = state@;
    let (i, rel) = match lookup_doc(state, doc_path) {
        Ok(found) => found,
        Err(e) => {
            return Err(e);
        },
    };
    let into_text = match normalize_folder_path(Some(dest_folder_path)) {
        Ok(p) => p,
        Err(e) => {
            return Err(e);
        },
    };
    let into = chars_of(into_text.as_str());
    let j = match state.find_folder(&into) {
        Some(j) => j,
        None => {
            return Err(folder_not_found(&into));
        },
    };
    proof {
        lemma_folder_index(before, j as int);
        assert(doc_row_ok(before.root, before.docs[i as int]));
        lemma_rel_path_parts(rel@);
    }
    let name = chars_of(state.docs[i].name.as_str());
    let to = child_chars(&into, &name);
    if state.find_doc(&to).is_some() {
        return Err(doc_exists(&to));
    }
    if state.find_folder(&to).is_some() {
        return Err(folder_in_way(&to));
    }
    let root = chars_of(state.root.as_str());
    let dir = string_of(&abs_chars(&root, &into));
    let from_abs = string_of(&abs_chars(&root, &rel));
    let to_abs = string_of(&abs_chars(&root, &to));
    state.relocate_doc(i, j, &name, ts);
    let rel_text = string_of(&rel);
    let to_text = string_of(&to);
    let mut out = applied(RenameResult { old_path: rel_text.clone(), new_path: to_text.clone() });
    out.before_commit.push(FsOp::CreateDirAll { path: dir });
    out.before_commit.push(FsOp::Rename { from: from_abs, to: to_abs });
    out.events.push(Event::Doc(DocEvent::Moved { old_path: rel_text, new_path: to_text }));
    assert(out.before() =~= seq![
        FsOpView::CreateDirAll { path: abs_of(before.root, into@) },
        FsOpView::Rename { from: abs_of(before.root, rel@), to: abs_of(before.root, to@) },
    ]);
    assert(out.published() =~= seq![
        EventView::Doc(DocEventView::Moved { old_path: rel@, new_path: to@ }),
    ]);
    Ok(out)
}

/// [`OpenContext::rename_doc`] on the tables.
fn rename_doc_in(state: &mut Catalog, doc_path: &str, new_name: &str, ts: &str) -> (r: Result<
    Applied<RenameResult>,
    CoreError,
>)
    requires
        old(state)@.wf(),
    ensures
        final(state)@.wf(),
        match r {
            Ok(a) => {
                let rel = normalized(doc_path@);
                let to = sibling_path(rel, new_name@);
                &&& rename_doc_refusal(old(state)@, doc_path@, new_name@) is None
                &&& final(state)@ == doc_renamed(old(state)@, doc_path@, new_name@, ts@)
                &&& final(state)@.docs[old(state)@.doc_index(rel)].stable_id == old(
                    state,
                )@.doc_at(rel).stable_id
                &&& a.value.old_path@ == rel
                &&& a.value.new_path@ == to
                &&& a.before() == seq![
                    FsOpView::CreateDirAll { path: abs_parent(old(state)@.root, to) },
                    FsOpView::Rename {
                        from: abs_of(old(state)@.root, rel),
                        to: abs_of(old(state)@.root, to),
                    },
                ]
                &&& a.after() == Seq::<FsOpView>::empty()
                &&& a.published() == seq![
                    EventView::Doc(DocEventView::Renamed { old_path: rel, new_path: to }),
                ]
            },
            Err(e) => {
                &&& rename_doc_refusal(old(state)@, doc_path@, new_name@) == Some(
                    (e.kind(), e.text()),
                )
                &&& final(state)@ == old(state)@
            },
        },
{
    let ghost before = state@;
    let name = chars_of(new_name);
    if !is_single_segment(&name) {
        return Err(
            refuse(
                ErrorKind::InvalidInput,
                "New name must be a single file name without \"/\".".to_owned(),
            ),
        );
    }
    let (i, rel) = match lookup_doc(state, doc_path) {
        Ok(found) => found,
        Err(e) => {
            return Err(e);
        },
    };
    proof {
        assert(doc_row_ok(before.root, before.docs[i as int]));
        assert(before.doc_linked_at(i as int));
        lemma_rel_path_parts(rel@);
    }
    let folder = match parent_chars(&rel) {
        Some(p) => p,
        None => {
            return Err(doc_not_found(&rel));
        },
    };
    let j = match state.find_folder(&folder) {
        Some(j) => j,
        None => {
            return Err(doc_not_found(&rel));
        },
    };
    proof {
        lemma_folder_index(before, j as int);
        lemma_child_path(folder@, name@);
    }
    let to = child_chars(&folder, &name);
    if state.find_doc(&to).is_some() {
        return Err(doc_exists(&to));
    }
    if state.find_folder(&to).is_some() {
        return Err(folder_in_way(&to));
    }
    let root = chars_of(state.root.as_str());
    let dir = string_of(&abs_chars(&root, &folder));
    let from_abs = string_of(&abs_chars(&root, &rel));
    let to_abs = string_of(&abs_chars(&root, &to));
    state.relocate_doc(i, j, &name, ts);
    let rel_text = string_of(&rel);
    let to_text = string_of(&to);
    let mut out = applied(RenameResult { old_path: rel_text.clone(), new_path: to_text.clone() });
    out.before_commit.push(FsOp::CreateDirAll { path: dir });
    out.before_commit.push(FsOp::Rename { from: from_abs, to: to_abs });
    out.events.push(Event::Doc(DocEvent::Renamed { old_path: rel_text, new_path: to_text }));
    assert(out.before() =~= seq![
        FsOpView::CreateDirAll { path: abs_parent(before.root, to@) },
        FsOpView::Rename { from: abs_of(before.root, rel@), to: abs_of(before.root, to@) },
    ]);
    assert(out.published() =~= seq![
        EventView::Doc(DocEventView::Renamed { old_path: rel@, new_path: to@ }),
    ]);
    Ok(out)
}

/// [`OpenContext::remove_doc`] on the tables.
fn remove_doc_in(state: &mut Catalog, doc_path: &str) -> (r: Result<Applied<Removed>, CoreError>)
    requires
        old(state)@.wf(),
    ensures
        final(state)@.wf(),
        match r {
            Ok(a) => {
                let rel = normalized(doc_path@);
                &&& doc_lookup_refusal(old(state)@, doc_path@) is None
                &&& final(state)@ == without_doc(old(state)@, old(state)@.doc_index(rel))
                &&& !final(state)@.has_doc(rel)
                &&& a.value.rel_path@ == rel
                &&& a.before() == Seq::<FsOpView>::empty()
                &&& a.after() == seq![FsOpView::RemoveFile { path: abs_of(old(state)@.root, rel) }]
                &&& a.published() == seq![EventView::Doc(DocEventView::Deleted { rel_path: rel })]
            },
            Err(e) => {
                &&& doc_lookup_refusal(old(state)@, doc_path@) == Some((e.kind(), e.text()))
                &&& final(state)@ == old(state)@
            },
        },
{
    let ghost before = state@;
    let (i, rel) = match lookup_doc(state, doc_path) {
        Ok(found) => found,
        Err(e) => {
            return Err(e);
        },
    };
    proof {
        assert(doc_row_ok(before.root, before.docs[i as int]));
        crate::catalog::lemma_without_doc(before, i as int);
    }
    let file = state.docs[i].abs_path.clone();
    state.delete_doc(i);
    let rel_text = string_of(&rel);
    let mut out = applied(Removed { rel_path: rel_text.clone() });
    out.after_commit.push(FsOp::RemoveFile { path: file });
    out.events.push(Event::Doc(DocEvent::Deleted { rel_path: rel_text }));
    assert(out.after() =~= seq![FsOpView::RemoveFile { path: abs_of(before.root, rel@) }]);
    assert(out.published() =~= seq![EventView::Doc(DocEventView::Deleted { rel_path: rel@ })]);
    Ok(out)
}

/// The directory that holds `rel` on the file system.
fn abs_parent_chars(root: &Vec<char>, rel: &Vec<char>) -> (r: Vec<char>)
    ensures
        r@ == abs_parent(root@, rel@),
{
    match parent_chars(rel) {
        Some(p) => abs_chars(root, &p),
        None => slice_of(root, 0, root.len()),
    }
}

/// [`OpenContext::create_folder`] on the tables.
fn create_folder_in(state: &mut Catalog, path: &str, description: Option<&str>, ts: &str) -> (r:
    Result<Applied<FolderSummary>, CoreError>)
    requires
        old(state)@.wf(),
    ensures
        final(state)@.wf(),
        match r {
            Ok(a) => {
                let rel = normalized(path@);
                &&& create_folder_refusal(old(state)@, path@) is None
                &&& final(state)@ == folder_created(
                    old(state)@,
                    rel,
                    text_or_empty(description),
                    ts@,
                )
                &&& final(state)@.has_folder(rel)
                &&& final(state)@.folder_at(rel).description == text_or_empty(description)
                &&& a.value.rel_path@ == rel
                &&& a.value.abs_path@ == abs_of(old(state)@.root, rel)
                &&& a.value.description@ == text_or_empty(description)
                &&& a.before() == if old(state)@.has_folder(rel) {
                    Seq::<FsOpView>::empty()
                } else {
                    seq![FsOpView::CreateDirAll { path: abs_of(old(state)@.root, rel) }]
                }
                &&& a.after() == Seq::<FsOpView>::empty()
                &&& a.published() == Seq::<EventView>::empty()
            },
            Err(e) => {
                &&& create_folder_refusal(old(state)@, path@) == Some((e.kind(), e.text()))
                &&& final(state)@ == old(state)@
            },
        },
{
    let ghost before = state@;
    let rel_text = match normalize_folder_path(Some(path)) {
        Ok(p) => p,
        Err(e) => {
            return Err(e);
        },
    };
    let rel = chars_of(rel_text.as_str());
    proof {
        lemma_normalized_is_rel_path(path@);
    }
    if rel.len() == 0 {
        return Err(
            refuse(
                ErrorKind::InvalidInput,
                "Cannot create root folder. Provide a sub-path like \"project-a\".".to_owned(),
            ),
        );
    }
    if !state.way_is_free(&rel) {
        return Err(doc_in_way(&rel));
    }
    let ids_left: u64 = (i64::MAX - state.next_folder_id) as u64;
    if rel.len() as u64 > ids_left {
        return Err(refuse(ErrorKind::Store, "database or disk is full".to_owned()));
    }
    let desc: &str = match description {
        Some(d) => d,
        None => "",
    };
    assert(desc@ == text_or_empty(description)) by {
        reveal_strlit("");
        assert(""@ =~= Seq::<char>::empty());
    }
    let root = chars_of(state.root.as_str());
    let abs = string_of(&abs_chars(&root, &rel));
    let existed = state.find_folder(&rel).is_some();
    proof {
        lemma_rel_path_parts(rel@);
        lemma_way_free_above(before, rel@);
    }
    match parent_chars(&rel) {
        Some(p) => {
            proof {
                lemma_ensured(before, p@, ts@);
            }
            state.ensure_folder(&p, ts);
        },
        None => {},
    }
    let ghost above = state@;
    assert(above == parents_ensured(before, rel@, ts@));
    let mut out = applied(
        FolderSummary { rel_path: rel_text, abs_path: abs.clone(), description: desc.to_owned() },
    );
    match state.find_folder(&rel) {
        Some(i) => {
            proof {
                lemma_folder_index(above, i as int);
                lemma_with_folder_description(above, i as int, desc@, ts@);
                if !before.has_folder(rel@) {
                    let p = parent_of(rel@)->0;
                    assert(in_subtree(rel@, p));
                    if rel@ != p {
                        crate::catalog::lemma_under_longer(rel@, p);
                    }
                }
            }
            state.set_folder_description(i, desc, ts);
            proof {
                assert(state@.folders[i as int].rel_path == rel@);
                lemma_folder_index(state@, i as int);
            }
        },
        None => {
            proof {
                lemma_with_folder(above, rel@, desc@, ts@);
                if before.has_folder(rel@) {
                    if parent_of(rel@) is Some {
                        lemma_ensured(before, parent_of(rel@)->0, ts@);
                    }
                }
            }
            state.insert_folder(&rel, desc, ts);
            out.before_commit.push(FsOp::CreateDirAll { path: abs });
            assert(out.before() =~= seq![
                FsOpView::CreateDirAll { path: abs_of(before.root, rel@) },
            ]);
        },
    }
    Ok(out)
}

/// [`OpenContext::rename_folder`] on the tables.
fn rename_folder_in(state: &mut Catalog, path: &str, new_name: &str, ts: &str) -> (r: Result<
    Applied<RenameResult>,
    CoreError,
>)
    requires
        old(state)@.wf(),
    ensures
        final(state)@.wf(),
        match r {
            Ok(a) => {
                let rel = normalized(path@);
                let to = sibling_path(rel, new_name@);
                &&& rename_folder_refusal(old(state)@, path@, new_name@) is None
                &&& final(state)@ == folder_renamed(old(state)@, path@, new_name@, ts@)
                &&& a.value.old_path@ == rel
                &&& a.value.new_path@ == to
                &&& a.before() == seq![
                    FsOpView::CreateDirAll { path: abs_parent(old(state)@.root, to) },
                    FsOpView::Rename {
                        from: abs_of(old(state)@.root, rel),
                        to: abs_of(old(state)@.root, to),
                    },
                ]
                &&& a.after() == Seq::<FsOpView>::empty()
                &&& a.published() == seq![
                    EventView::Folder(
                        FolderEventView::Renamed {
                            old_path: rel,
                            new_path: to,
                            affected_docs: affected_docs(old(state)@, rel, to),
                        },
                    ),
                ]
            },
            Err(e) => {
                &&& rename_folder_refusal(old(state)@, path@, new_name@) == Some(
                    (e.kind(), e.text()),
                )
                &&& final(state)@ == old(state)@
            },
        },
{
    let ghost before = state@;
    let rel_text = match normalize_folder_path(Some(path)) {
        Ok(p) => p,
        Err(e) => {
            return Err(e);
        },
    };
    let rel = chars_of(rel_text.as_str());
    if rel.len() == 0 {
        return Err(
            refuse(ErrorKind::InvalidInput, "Cannot rename the root contexts directory.".to_owned()),
        );
    }
    let name = chars_of(new_name);
    if !is_single_segment(&name) {
        return Err(
            refuse(ErrorKind::InvalidInput, "New name must be a single path segment.".to_owned()),
        );
    }
    let fi = match state.find_folder(&rel) {
        Some(i) => i,
        None => {
            return Err(folder_not_found(&rel));
        },
    };
    let to = match parent_chars(&rel) {
        Some(p) => child_chars(&p, &name),
        None => name,
    };
    assert(to@ == sibling_path(rel@, new_name@)) by {
        lemma_normalized_is_rel_path(path@);
        lemma_rel_path_parts(rel@);
    }
    if state.find_folder(&to).is_some() {
        return Err(folder_exists(&to));
    }
    if state.find_doc(&to).is_some() {
        return Err(doc_in_way(&to));
    }
    let parent_id = state.folders[fi].parent_id;
    proof {
        lemma_folder_index(before, fi as int);
        lemma_rename_allowed(before, rel@, new_name@);
    }
    let root = chars_of(state.root.as_str());
    let from_abs = string_of(&abs_chars(&root, &rel));
    let to_abs = string_of(&abs_chars(&root, &to));
    let to_dir = string_of(&abs_parent_chars(&root, &to));
    let moved = state.move_subtree(fi, &to, parent_id, ts);
    let to_text = string_of(&to);
    let mut out = applied(RenameResult { old_path: rel_text.clone(), new_path: to_text.clone() });
    out.before_commit.push(FsOp::CreateDirAll { path: to_dir });
    out.before_commit.push(FsOp::Rename { from: from_abs, to: to_abs });
    out.events.push(
        Event::Folder(
            FolderEvent::Renamed { old_path: rel_text, new_path: to_text, affected_docs: moved },
        ),
    );
    assert(out.before_commit@.len() == 2);
    assert(out.before_commit@[0]@ == FsOpView::CreateDirAll {
        path: abs_parent(before.root, to@),
    });
    assert(out.before_commit@[1]@ == FsOpView::Rename {
        from: abs_of(before.root, rel@),
        to: abs_of(before.root, to@),
    });
    assert(out.before() =~= seq![
        FsOpView::CreateDirAll { path: abs_parent(before.root, to@) },
        FsOpView::Rename { from: abs_of(before.root, rel@), to: abs_of(before.root, to@) },
    ]);
    assert(out.published() =~= seq![
        EventView::Folder(
            FolderEventView::Renamed {
                old_path: rel@,
                new_path: to@,
                affected_docs: affected_docs(before, rel@, to@),
            },
        ),
    ]);
    Ok(out)
}

/// A folder can take a free name beside itself.
pub proof fn lemma_rename_allowed(c: CatalogView, rel: Seq<char>, new_name: Seq<char>)
    requires
        c.wf(),
        c.has_folder(rel),
        is_segment(new_name),
        !c.has_folder(sibling_path(rel, new_name)),
        !c.has_doc(sibling_path(rel, new_name)),
    ensures
        can_move_subtree(c, rel, sibling_path(rel, new_name), c.folder_at(rel).parent_id),
{
    let to = sibling_path(rel, new_name);
    let fi = c.folder_index(rel);
    let f = c.folders[fi];
    assert(crate::catalog::folder_row_ok(c.root, f));
    assert(c.folder_linked_at(fi));
    lemma_rel_path_parts(rel);
    match parent_of(rel) {
        Some(p) => {
            lemma_child_path(p, new_name);
            lemma_last_index_of(to, '/');
            if is_under(rel, to) {
                let pre = rel + seq!['/'];
                assert(to.subrange(0, pre.len() as int)[rel.len() as int] == pre[rel.len() as int]);
                assert(to[rel.len() as int] == '/');
                assert(last_index_of(to, '/') == p.len());
            }
            if in_subtree(rel, p) {
                if rel != p {
                    crate::catalog::lemma_under_longer(rel, p);
                }
            }
        },
        None => {
            lemma_segment_is_rel_path(new_name);
            lemma_last_index_of(to, '/');
            if is_under(rel, to) {
                let pre = rel + seq!['/'];
                assert(to.subrange(0, pre.len() as int)[rel.len() as int] == pre[rel.len() as int]);
                assert(to[rel.len() as int] == '/');
                assert(to.contains('/'));
            }
        },
    }
}

/// A folder can move into a folder outside its own subtree, where its
/// name is free.
pub proof fn lemma_move_allowed(c: CatalogView, rel: Seq<char>, into: Seq<char>)
    requires
        c.wf(),
        c.has_folder(rel),
        c.has_folder(into),
        !in_subtree(rel, into),
        !c.has_folder(child_path(into, c.folder_at(rel).name)),
        !c.has_doc(child_path(into, c.folder_at(rel).name)),
    ensures
        can_move_subtree(
            c,
            rel,
            child_path(into, c.folder_at(rel).name),
            Some(c.folder_at(into).id),
        ),
{
    let fi = c.folder_index(rel);
    let f = c.folders[fi];
    let di = c.folder_index(into);
    let to = child_path(into, f.name);
    assert(crate::catalog::folder_row_ok(c.root, f));
    assert(crate::catalog::folder_row_ok(c.root, c.folders[di]));
    lemma_rel_path_parts(rel);
    lemma_child_path(into, f.name);
    if is_under(rel, to) {
        lemma_last_index_of(to, '/');
        let pre = rel + seq!['/'];
        let n = rel.len() as int;
        assert(to.subrange(0, n + 1)[n] == pre[n]);
        assert(to[n] == '/');
        assert(n <= into.len());
        if n == into.len() {
            assert(rel =~= into) by {
                assert forall|k: int| 0 <= k < n implies rel[k] == into[k] by {
                    assert(to.subrange(0, n + 1)[k] == pre[k]);
                }
            }
        } else {
            assert(pre =~= into.subrange(0, n + 1)) by {
                assert forall|k: int| 0 <= k < n + 1 implies pre[k] == into[k] by {
                    assert(to.subrange(0, n + 1)[k] == pre[k]);
                }
            }
        }
    }
}

/// [`OpenContext::move_folder`] on the tables.
fn move_folder_in(state: &mut Catalog, path: &str, dest_folder_path: &str, ts: &str) -> (r:
    Result<Applied<RenameResult>, CoreError>)
    requires
        old(state)@.wf(),
    ensures
        final(state)@.wf(),
        match r {
            Ok(a) => {
                let rel = normalized(path@);
                let to = move_folder_target(old(state)@, path@, dest_folder_path@);
                &&& move_folder_refusal(old(state)@, path@, dest_folder_path@) is None
                &&& final(state)@ == folder_moved(old(state)@, path@, dest_folder_path@, ts@)
                &&& a.value.old_path@ == rel
                &&& a.value.new_path@ == to
                &&& a.before() == seq![
                    FsOpView::CreateDirAll { path: abs_parent(old(state)@.root, to) },
                    FsOpView::Rename {
                        from: abs_of(old(state)@.root, rel),
                        to: abs_of(old(state)@.root, to),
                    },
                ]
                &&& a.after() == Seq::<FsOpView>::empty()
                &&& a.published() == seq![
                    EventView::Folder(
                        FolderEventView::Moved {
                            old_path: rel,
                            new_path: to,
                            affected_docs: affected_docs(old(state)@, rel, to),
                        },
                    ),
                ]
            },
            Err(e) => {
                &&& move_folder_refusal(old(state)@, path@, dest_folder_path@) == Some(
                    (e.kind(), e.text()),
                )
                &&& final(state)@ == old(state)@
            },
        },
{
    let ghost before = state@;
    let rel_text = match normalize_folder_path(Some(path)) {
        Ok(p) => p,
        Err(e) => {
            return Err(e);
        },
    };
    let rel = chars_of(rel_text.as_str());
    if rel.len() == 0 {
        return Err(
            refuse(ErrorKind::InvalidInput, "Cannot move the root contexts directory.".to_owned()),
        );
    }
    let into_text = match normalize_folder_path(Some(dest_folder_path)) {
        Ok(p) => p,
        Err(e) => {
            return Err(e);
        },
    };
    let into = chars_of(into_text.as_str());
    if into.len() == 0 {
        return Err(
            refuse(
                ErrorKind::InvalidInput,
                "Root is not supported. Please move into a folder under contexts/.".to_owned(),
            ),
        );
    }
    if same_chars(&into, &rel) || is_under_chars(&rel, &into) {
        return Err(
            refuse(
                ErrorKind::InvalidInput,
                "Cannot move a folder into itself or its descendants.".to_owned(),
            ),
        );
    }
    let fi = match state.find_folder(&rel) {
        Some(i) => i,
        None => {
            return Err(folder_not_found(&rel));
        },
    };
    let di = match state.find_folder(&into) {
        Some(i) => i,
        None => {
            return Err(folder_not_found(&into));
        },
    };
    proof {
        lemma_folder_index(before, fi as int);
        lemma_folder_index(before, di as int);
    }
    let name = chars_of(state.folders[fi].name.as_str());
    let to = child_chars(&into, &name);
    if state.find_folder(&to).is_some() {
        return Err(folder_exists(&to));
    }
    if state.find_doc(&to).is_some() {
        return Err(doc_in_way(&to));
    }
    let parent_id = Some(state.folders[di].id);
    proof {
        lemma_move_allowed(before, rel@, into@);
    }
    let root = chars_of(state.root.as_str());
    let from_abs = string_of(&abs_chars(&root, &rel));
    let to_abs = string_of(&abs_chars(&root, &to));
    let to_dir = string_of(&abs_parent_chars(&root, &to));
    let moved = state.move_subtree(fi, &to, parent_id, ts);
    let to_text = string_of(&to);
    let mut out = applied(RenameResult { old_path: rel_text.clone(), new_path: to_text.clone() });
    out.before_commit.push(FsOp::CreateDirAll { path: to_dir });
    out.before_commit.push(FsOp::Rename { from: from_abs, to: to_abs });
    out.events.push(
        Event::Folder(
            FolderEvent::Moved { old_path: rel_text, new_path: to_text, affected_docs: moved },
        ),
    );
    assert(out.before_commit@.len() == 2);
    assert(out.before_commit@[0]@ == FsOpView::CreateDirAll {
        path: abs_parent(before.root, to@),
    });
    assert(out.before_commit@[1]@ == FsOpView::Rename {
        from: abs_of(before.root, rel@),
        to: abs_of(before.root, to@),
    });
    assert(out.before() =~= seq![
        FsOpView::CreateDirAll { path: abs_parent(before.root, to@) },
        FsOpView::Rename { from: abs_of(before.root, rel@), to: abs_of(before.root, to@) },
    ]);
    assert(out.published() =~= seq![
        EventView::Folder(
            FolderEventView::Moved {
                old_path: rel@,
                new_path: to@,
                affected_docs: affected_docs(before, rel@, to@),
            },
        ),
    ]);
    Ok(out)
}

/// [`OpenContext::remove_folder`] on the tables.
fn remove_folder_in(state: &mut Catalog, path: &str, force: bool) -> (r: Result<
    Applied<Removed>,
    CoreError,
>)
    requires
        old(state)@.wf(),
    ensures
        final(state)@.wf(),
        match r {
            Ok(a) => {
                let rel = normalized(path@);
                let dir = abs_of(old(state)@.root, rel);
                &&& remove_folder_refusal(old(state)@, path@, force) is None
                &&& final(state)@ == subtree_removed(old(state)@, rel)
                &&& a.value.rel_path@ == rel
                &&& a.before() == Seq::<FsOpView>::empty()
                &&& a.after() == if force {
                    seq![FsOpView::RemoveDirAll { path: dir }]
                } else {
                    seq![FsOpView::RemoveDir { path: dir }]
                }
                &&& a.published() == seq![
                    EventView::Folder(
                        FolderEventView::Deleted {
                            rel_path: rel,
                            removed_docs: docs_below(old(state)@, rel),
                        },
                    ),
                ]
            },
            Err(e) => {
                &&& remove_folder_refusal(old(state)@, path@, force) == Some((e.kind(), e.text()))
                &&& final(state)@ == old(state)@
            },
        },
{
    let ghost before = state@;
    let rel_text = match normalize_folder_path(Some(path)) {
        Ok(p) => p,
        Err(e) => {
            return Err(e);
        },
    };
    let rel = chars_of(rel_text.as_str());
    if rel.len() == 0 {
        return Err(
            refuse(ErrorKind::InvalidInput, "Cannot remove the root contexts directory.".to_owned()),
        );
    }
    let fi = match state.find_folder(&rel) {
        Some(i) => i,
        None => {
            return Err(folder_not_found(&rel));
        },
    };
    proof {
        lemma_folder_index(before, fi as int);
    }
    let id = state.folders[fi].id;
    if !force && (state.count_child_folders(id) > 0 || state.count_child_docs(id) > 0) {
        let text = concat3(
            "Folder \"",
            rel_text.as_str(),
            "\" is not empty. Use --force to delete recursively.",
        );
        return Err(refuse(ErrorKind::Conflict, text));
    }
    let root = chars_of(state.root.as_str());
    let dir = string_of(&abs_chars(&root, &rel));
    let removed = state.remove_subtree(&rel);
    let mut out = applied(Removed { rel_path: rel_text.clone() });
    if force {
        out.after_commit.push(FsOp::RemoveDirAll { path: dir });
        assert(out.after() =~= seq![FsOpView::RemoveDirAll { path: abs_of(before.root, rel@) }]);
    } else {
        out.after_commit.push(FsOp::RemoveDir { path: dir });
        assert(out.after() =~= seq![FsOpView::RemoveDir { path: abs_of(before.root, rel@) }]);
    }
    out.events.push(Event::Folder(FolderEvent::Deleted { rel_path: rel_text, removed_docs: removed }));
    assert(out.published() =~= seq![
        EventView::Folder(
            FolderEventView::Deleted { rel_path: rel@, removed_docs: docs_below(before, rel@) },
        ),
    ]);
    Ok(out)
}

} // verus!
