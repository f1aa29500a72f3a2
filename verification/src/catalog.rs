//! The catalog as a mathematical value: two tables of rows, the conditions
//! that hold of them after every operation, and the effect of each operation
//! as a function from catalog to catalog.

use crate::model::{DocView, FolderView};
use crate::paths::{
    abs_of, child_path, in_subtree, is_rel_path, is_segment, is_under, last_segment,
    lemma_child_path, lemma_rebased_injective, lemma_rebased_rel_path, lemma_rebased_under,
    lemma_rel_path_parts, parent_of, rebased,
};
use crate::seqs::{is_kept, kept_indices, lemma_kept_indices};
use crate::text::last_index_of;
use vstd::prelude::*;

verus! {

/// The state of the catalog.
pub ghost struct CatalogView {
    /// The directory that mirrors the tree.
    pub root: Seq<char>,
    pub folders: Seq<FolderView>,
    pub docs: Seq<DocView>,
    /// The identifier that the next folder row receives.
    pub next_folder_id: int,
    /// The identifier that the next document row receives.
    pub next_doc_id: int,
}

/// A folder row agrees with its own path.
pub open spec fn folder_row_ok(root: Seq<char>, f: FolderView) -> bool {
    &&& is_rel_path(f.rel_path)
    &&& f.name == last_segment(f.rel_path)
    &&& f.abs_path == abs_of(root, f.rel_path)
}

/// A document row agrees with its own path and has a stable identifier.
pub open spec fn doc_row_ok(root: Seq<char>, d: DocView) -> bool {
    &&& is_rel_path(d.rel_path)
    &&& parent_of(d.rel_path) is Some
    &&& d.name == last_segment(d.rel_path)
    &&& d.abs_path == abs_of(root, d.rel_path)
    &&& d.stable_id.len() > 0
}

impl CatalogView {
    /// The empty catalog under `root`.
    pub open spec fn empty(root: Seq<char>) -> CatalogView {
        CatalogView {
            root,
            folders: Seq::empty(),
            docs: Seq::empty(),
            next_folder_id: 1,
            next_doc_id: 1,
        }
    }

    /// Whether a folder row has the path `rel`.
    pub open spec fn has_folder(self, rel: Seq<char>) -> bool {
        exists|i: int| 0 <= i < self.folders.len() && (#[trigger] self.folders[i]).rel_path == rel
    }

    /// The index of a folder row with the path `rel`.
    pub open spec fn folder_index(self, rel: Seq<char>) -> int {
        choose|i: int| 0 <= i < self.folders.len() && (#[trigger] self.folders[i]).rel_path == rel
    }

    /// The folder row with the path `rel`.
    pub open spec fn folder_at(self, rel: Seq<char>) -> FolderView {
        self.folders[self.folder_index(rel)]
    }

    /// Whether a document row has the path `rel`.
    pub open spec fn has_doc(self, rel: Seq<char>) -> bool {
        exists|i: int| 0 <= i < self.docs.len() && (#[trigger] self.docs[i]).rel_path == rel
    }

    /// The index of a document row with the path `rel`.
    pub open spec fn doc_index(self, rel: Seq<char>) -> int {
        choose|i: int| 0 <= i < self.docs.len() && (#[trigger] self.docs[i]).rel_path == rel
    }

    /// The document row with the path `rel`.
    pub open spec fn doc_at(self, rel: Seq<char>) -> DocView {
        self.docs[self.doc_index(rel)]
    }

    /// Whether a document row has the stable identifier `sid`.
    pub open spec fn has_stable_id(self, sid: Seq<char>) -> bool {
        exists|i: int| 0 <= i < self.docs.len() && (#[trigger] self.docs[i]).stable_id == sid
    }

    /// The document row with the stable identifier `sid`.
    pub open spec fn doc_by_stable_id(self, sid: Seq<char>) -> DocView {
        self.docs[choose|i: int|
            0 <= i < self.docs.len() && (#[trigger] self.docs[i]).stable_id == sid]
    }

    /// Row identifiers are positive, below the next one, and never shared.
    pub open spec fn ids_ok(self) -> bool {
        &&& 1 <= self.next_folder_id <= i64::MAX
        &&& 1 <= self.next_doc_id <= i64::MAX
        &&& forall|i: int|
            0 <= i < self.folders.len() ==> 0 < (#[trigger] self.folders[i]).id
                < self.next_folder_id
        &&& forall|i: int|
            0 <= i < self.docs.len() ==> 0 < (#[trigger] self.docs[i]).id < self.next_doc_id
        &&& forall|i: int, j: int|
            0 <= i < self.folders.len() && 0 <= j < self.folders.len() && i != j ==> (
            #[trigger] self.folders[i]).id != (#[trigger] self.folders[j]).id
        &&& forall|i: int, j: int|
            0 <= i < self.docs.len() && 0 <= j < self.docs.len() && i != j ==> (
            #[trigger] self.docs[i]).id != (#[trigger] self.docs[j]).id
    }

    /// No two folders share a path, no two documents share a path, and no
    /// two documents share a stable identifier.
    pub open spec fn unique_ok(self) -> bool {
        &&& forall|i: int, j: int|
            0 <= i < self.folders.len() && 0 <= j < self.folders.len() && i != j ==> (
            #[trigger] self.folders[i]).rel_path != (#[trigger] self.folders[j]).rel_path
        &&& forall|i: int, j: int|
            0 <= i < self.docs.len() && 0 <= j < self.docs.len() && i != j ==> (
            #[trigger] self.docs[i]).rel_path != (#[trigger] self.docs[j]).rel_path
        &&& forall|i: int, j: int|
            0 <= i < self.docs.len() && 0 <= j < self.docs.len() && i != j ==> (
            #[trigger] self.docs[i]).stable_id != (#[trigger] self.docs[j]).stable_id
    }

    /// Every row agrees with its own path.
    pub open spec fn rows_ok(self) -> bool {
        &&& forall|i: int|
            0 <= i < self.folders.len() ==> folder_row_ok(self.root, #[trigger] self.folders[i])
        &&& forall|i: int| 0 <= i < self.docs.len() ==> doc_row_ok(self.root, #[trigger] self.docs[i])
    }

    /// The folder row `f` points to the row of the folder that holds it.
    pub open spec fn folder_linked(self, f: FolderView) -> bool {
        match parent_of(f.rel_path) {
            Some(p) => exists|j: int|
                0 <= j < self.folders.len() && (#[trigger] self.folders[j]).rel_path == p
                    && f.parent_id == Some(self.folders[j].id),
            None => f.parent_id is None,
        }
    }

    /// The document row `d` points to the row of the folder that holds it.
    pub open spec fn doc_linked(self, d: DocView) -> bool {
        exists|j: int|
            0 <= j < self.folders.len() && Some((#[trigger] self.folders[j]).rel_path)
                == parent_of(d.rel_path) && d.folder_id == self.folders[j].id
    }

    /// The folder row `i` points to the row of the folder that holds it.
    pub open spec fn folder_linked_at(self, i: int) -> bool {
        self.folder_linked(self.folders[i])
    }

    /// The document row `i` points to the row of the folder that holds it.
    pub open spec fn doc_linked_at(self, i: int) -> bool {
        self.doc_linked(self.docs[i])
    }

    /// Every row points to the row of the folder that holds it.
    pub open spec fn links_ok(self) -> bool {
        &&& forall|i: int| 0 <= i < self.folders.len() ==> #[trigger] self.folder_linked_at(i)
        &&& forall|i: int| 0 <= i < self.docs.len() ==> #[trigger] self.doc_linked_at(i)
    }

    /// No path is both a folder and a document.
    pub open spec fn disjoint_ok(self) -> bool {
        forall|i: int, j: int|
            0 <= i < self.folders.len() && 0 <= j < self.docs.len() ==> (
            #[trigger] self.folders[i]).rel_path != (#[trigger] self.docs[j]).rel_path
    }

    /// Whether no document stands at `rel` or at a path above it, so that
    /// `rel` can be, or become, a folder.
    pub open spec fn way_free(self, rel: Seq<char>) -> bool {
        forall|j: int|
            0 <= j < self.docs.len() ==> !in_subtree((#[trigger] self.docs[j]).rel_path, rel)
    }

    /// The conditions that hold of the catalog after every operation:
    /// paths and stable identifiers are unique, every row agrees with its
    /// path, the folder of every row is itself a row, and no path is both
    /// a folder and a document.
    pub open spec fn wf(self) -> bool {
        &&& self.ids_ok()
        &&& self.unique_ok()
        &&& self.rows_ok()
        &&& self.links_ok()
        &&& self.disjoint_ok()
    }

    /// The number of folder rows directly inside the folder row `id`.
    pub open spec fn child_folder_count(self, id: int) -> nat {
        self.folders.filter(|f: FolderView| f.parent_id == Some(id)).len()
    }

    /// The number of document rows directly inside the folder row `id`.
    pub open spec fn child_doc_count(self, id: int) -> nat {
        self.docs.filter(|d: DocView| d.folder_id == id).len()
    }
}

/// The folder row that `create_folder` and its like insert for `rel`.
pub open spec fn new_folder_row(
    c: CatalogView,
    rel: Seq<char>,
    description: Seq<char>,
    ts: Seq<char>,
) -> FolderView {
    FolderView {
        id: c.next_folder_id,
        parent_id: match parent_of(rel) {
            Some(p) => if c.has_folder(p) {
                Some(c.folder_at(p).id)
            } else {
                None
            },
            None => None,
        },
        name: last_segment(rel),
        rel_path: rel,
        abs_path: abs_of(c.root, rel),
        description,
        created_at: ts,
        updated_at: ts,
    }
}

/// `c` with a new folder row for `rel`.
pub open spec fn with_folder(
    c: CatalogView,
    rel: Seq<char>,
    description: Seq<char>,
    ts: Seq<char>,
) -> CatalogView {
    CatalogView {
        folders: c.folders.push(new_folder_row(c, rel, description, ts)),
        next_folder_id: c.next_folder_id + 1,
        ..c
    }
}

/// `c` with rows for the folder `rel` and for each folder above it that had
/// none.
pub open spec fn ensured(c: CatalogView, rel: Seq<char>, ts: Seq<char>) -> CatalogView
    decreases rel.len(),
{
    if rel.len() == 0 || c.has_folder(rel) {
        c
    } else {
        let above = match parent_of(rel) {
            Some(p) => if p.len() < rel.len() {
                ensured(c, p, ts)
            } else {
                c
            },
            None => c,
        };
        with_folder(above, rel, Seq::empty(), ts)
    }
}

/// `c` with the folders above `rel` ensured.
pub open spec fn parents_ensured(c: CatalogView, rel: Seq<char>, ts: Seq<char>) -> CatalogView {
    match parent_of(rel) {
        Some(p) => ensured(c, p, ts),
        None => c,
    }
}

/// `c` with the description of the folder row `i` replaced.
pub open spec fn with_folder_description(
    c: CatalogView,
    i: int,
    description: Seq<char>,
    ts: Seq<char>,
) -> CatalogView {
    CatalogView {
        folders: c.folders.update(
            i,
            FolderView { description, updated_at: ts, ..c.folders[i] },
        ),
        ..c
    }
}

/// The effect of `create_folder` on `c`, where nothing is refused.
pub open spec fn folder_created(
    c: CatalogView,
    rel: Seq<char>,
    description: Seq<char>,
    ts: Seq<char>,
) -> CatalogView {
    let above = parents_ensured(c, rel, ts);
    if above.has_folder(rel) {
        with_folder_description(above, above.folder_index(rel), description, ts)
    } else {
        with_folder(above, rel, description, ts)
    }
}

/// A folder row after the subtree of `from` has become the subtree of `to`.
pub open spec fn moved_folder_row(
    root: Seq<char>,
    from: Seq<char>,
    to: Seq<char>,
    parent_id: Option<int>,
    ts: Seq<char>,
    f: FolderView,
) -> FolderView {
    if f.rel_path == from {
        FolderView {
            parent_id,
            name: last_segment(to),
            rel_path: to,
            abs_path: abs_of(root, to),
            updated_at: ts,
            ..f
        }
    } else if is_under(from, f.rel_path) {
        FolderView {
            rel_path: rebased(from, to, f.rel_path),
            abs_path: abs_of(root, rebased(from, to, f.rel_path)),
            updated_at: ts,
            ..f
        }
    } else {
        f
    }
}

/// A document row after the subtree of `from` has become the subtree of `to`.
pub open spec fn moved_doc_row(
    root: Seq<char>,
    from: Seq<char>,
    to: Seq<char>,
    ts: Seq<char>,
    d: DocView,
) -> DocView {
    if is_under(from, d.rel_path) {
        DocView {
            rel_path: rebased(from, to, d.rel_path),
            abs_path: abs_of(root, rebased(from, to, d.rel_path)),
            updated_at: ts,
            ..d
        }
    } else {
        d
    }
}

/// `c` after the subtree of the folder `from` has become the subtree of
/// `to`, with `parent_id` as the new link of the folder itself.
pub open spec fn subtree_moved(
    c: CatalogView,
    from: Seq<char>,
    to: Seq<char>,
    parent_id: Option<int>,
    ts: Seq<char>,
) -> CatalogView {
    CatalogView {
        folders: Seq::new(
            c.folders.len(),
            |i: int| moved_folder_row(c.root, from, to, parent_id, ts, c.folders[i]),
        ),
        docs: Seq::new(c.docs.len(), |i: int| moved_doc_row(c.root, from, to, ts, c.docs[i])),
        ..c
    }
}

/// The documents below the folder `rel`, each with its path after the
/// subtree of `rel` has become the subtree of `to`, in catalog order.
pub open spec fn affected_docs(c: CatalogView, rel: Seq<char>, to: Seq<char>) -> Seq<
    (Seq<char>, Seq<char>),
> {
    c.docs.filter(|d: DocView| is_under(rel, d.rel_path)).map_values(
        |d: DocView| (d.rel_path, rebased(rel, to, d.rel_path)),
    )
}

/// The paths of the documents below the folder `rel`, in catalog order.
pub open spec fn docs_below(c: CatalogView, rel: Seq<char>) -> Seq<Seq<char>> {
    c.docs.filter(|d: DocView| is_under(rel, d.rel_path)).map_values(|d: DocView| d.rel_path)
}

/// `c` without the folder `rel` and everything below it.
pub open spec fn subtree_removed(c: CatalogView, rel: Seq<char>) -> CatalogView {
    CatalogView {
        folders: c.folders.filter(|f: FolderView| !in_subtree(rel, f.rel_path)),
        docs: c.docs.filter(|d: DocView| !is_under(rel, d.rel_path)),
        ..c
    }
}

/// The document row that `create_doc` inserts.
pub open spec fn new_doc_row(
    c: CatalogView,
    folder: FolderView,
    name: Seq<char>,
    description: Seq<char>,
    stable_id: Seq<char>,
    ts: Seq<char>,
) -> DocView {
    DocView {
        id: c.next_doc_id,
        folder_id: folder.id,
        name,
        rel_path: child_path(folder.rel_path, name),
        abs_path: abs_of(c.root, child_path(folder.rel_path, name)),
        description,
        stable_id,
        created_at: ts,
        updated_at: ts,
    }
}

/// `c` with a new document row.
pub open spec fn with_doc(c: CatalogView, d: DocView) -> CatalogView {
    CatalogView { docs: c.docs.push(d), next_doc_id: c.next_doc_id + 1, ..c }
}

/// `c` with the document row `i` replaced by `d`.
pub open spec fn with_doc_at(c: CatalogView, i: int, d: DocView) -> CatalogView {
    CatalogView { docs: c.docs.update(i, d), ..c }
}

/// `c` without the document row `i`.
pub open spec fn without_doc(c: CatalogView, i: int) -> CatalogView {
    CatalogView { docs: c.docs.remove(i), ..c }
}

/// The document row `d` placed in `folder` under `name`.
pub open spec fn relocated_doc(
    root: Seq<char>,
    d: DocView,
    folder: FolderView,
    name: Seq<char>,
    ts: Seq<char>,
) -> DocView {
    DocView {
        folder_id: folder.id,
        name,
        rel_path: child_path(folder.rel_path, name),
        abs_path: abs_of(root, child_path(folder.rel_path, name)),
        updated_at: ts,
        ..d
    }
}

/// The view of an optional row identifier.
pub open spec fn id_view(id: Option<i64>) -> Option<int> {
    match id {
        Some(p) => Some(p as int),
        None => None,
    }
}

/// The document row `d` with a new description, a new time of the last
/// change, or both.
pub open spec fn touched_doc(d: DocView, description: Option<&str>, updated_at: Option<&str>) -> DocView {
    DocView {
        description: match description {
            Some(text) => text@,
            None => d.description,
        },
        updated_at: match updated_at {
            Some(text) => text@,
            None => d.updated_at,
        },
        ..d
    }
}

/// In a well-formed catalog the row with a given path is the only one.
pub proof fn lemma_folder_index(c: CatalogView, i: int)
    requires
        c.unique_ok(),
        0 <= i < c.folders.len(),
    ensures
        c.has_folder(c.folders[i].rel_path),
        c.folder_index(c.folders[i].rel_path) == i,
        c.folder_at(c.folders[i].rel_path) == c.folders[i],
{
    let rel = c.folders[i].rel_path;
    assert(c.has_folder(rel));
    let k = c.folder_index(rel);
    assert(0 <= k < c.folders.len() && c.folders[k].rel_path == rel);
}

/// In a well-formed catalog the document row with a given path is the only one.
pub proof fn lemma_doc_index(c: CatalogView, i: int)
    requires
        c.unique_ok(),
        0 <= i < c.docs.len(),
    ensures
        c.has_doc(c.docs[i].rel_path),
        c.doc_index(c.docs[i].rel_path) == i,
        c.doc_at(c.docs[i].rel_path) == c.docs[i],
        c.has_stable_id(c.docs[i].stable_id),
        c.doc_by_stable_id(c.docs[i].stable_id) == c.docs[i],
{
    let rel = c.docs[i].rel_path;
    assert(c.has_doc(rel));
    let k = c.doc_index(rel);
    assert(0 <= k < c.docs.len() && c.docs[k].rel_path == rel);
    let sid = c.docs[i].stable_id;
    assert(c.has_stable_id(sid));
    let m = choose|m: int| 0 <= m < c.docs.len() && (#[trigger] c.docs[m]).stable_id == sid;
    assert(0 <= m < c.docs.len() && c.docs[m].stable_id == sid);
}

/// A path below `p` has a parent, and that parent is `p` or lies below `p`.
pub proof fn lemma_parent_in_subtree(p: Seq<char>, q: Seq<char>)
    requires
        p.len() > 0,
        is_under(p, q),
    ensures
        parent_of(q) is Some,
        in_subtree(p, parent_of(q)->0),
        parent_of(q)->0.len() < q.len(),
{
    crate::paths::lemma_last_index_of(q, '/');
    let n = p.len() as int;
    let pre = p + seq!['/'];
    assert(q.subrange(0, n + 1) == pre);
    assert(q[n] == q.subrange(0, n + 1)[n]);
    assert(q[n] == '/');
    let j = last_index_of(q, '/');
    assert(j >= n);
    let pq = q.subrange(0, j);
    if j == n {
        assert(pq =~= p) by {
            assert forall|k: int| 0 <= k < n implies pq[k] == p[k] by {
                assert(q.subrange(0, n + 1)[k] == pre[k]);
            }
        }
    } else {
        assert(pre =~= pq.subrange(0, n + 1)) by {
            assert forall|k: int| 0 <= k < n + 1 implies pre[k] == pq.subrange(0, n + 1)[k] by {
                assert(q.subrange(0, n + 1)[k] == pre[k]);
            }
        }
    }
}

/// In a well-formed catalog every folder with a row below it has a row itself.
pub proof fn lemma_folder_above_exists(c: CatalogView, p: Seq<char>, q: Seq<char>)
    requires
        c.wf(),
        p.len() > 0,
        is_under(p, q),
        c.has_folder(q) || c.has_doc(q),
    ensures
        c.has_folder(p),
    decreases q.len(),
{
    lemma_parent_in_subtree(p, q);
    let pq = parent_of(q)->0;
    if c.has_folder(q) {
        let i = c.folder_index(q);
        assert(c.folder_linked_at(i));
    } else {
        let i = c.doc_index(q);
        assert(c.doc_linked_at(i));
    }
    assert(c.has_folder(pq));
    if pq != p {
        lemma_folder_above_exists(c, p, pq);
    }
}

/// Inserting a row for a folder that has none, below a folder that has one,
/// keeps the catalog well-formed and keeps every older row.
pub proof fn lemma_with_folder(c: CatalogView, rel: Seq<char>, description: Seq<char>, ts: Seq<char>)
    requires
        c.wf(),
        is_rel_path(rel),
        !c.has_folder(rel),
        !c.has_doc(rel),
        parent_of(rel) is Some ==> c.has_folder(parent_of(rel)->0),
        c.next_folder_id < i64::MAX,
    ensures
        with_folder(c, rel, description, ts).wf(),
        with_folder(c, rel, description, ts).has_folder(rel),
        with_folder(c, rel, description, ts).folder_at(rel) == new_folder_row(
            c,
            rel,
            description,
            ts,
        ),
        forall|q: Seq<char>| c.has_folder(q) ==> with_folder(c, rel, description, ts).has_folder(q),
        forall|q: Seq<char>|
            with_folder(c, rel, description, ts).has_folder(q) ==> q == rel || c.has_folder(q),
{
    let c2 = with_folder(c, rel, description, ts);
    let row = new_folder_row(c, rel, description, ts);
    let n = c.folders.len() as int;
    assert(c2.folders[n] == row);
    assert forall|i: int| 0 <= i < n implies c2.folders[i] == c.folders[i] by {}
    assert(c2.ids_ok());
    assert(c2.unique_ok()) by {
        assert forall|i: int, j: int|
            0 <= i < c2.folders.len() && 0 <= j < c2.folders.len() && i != j implies (
        #[trigger] c2.folders[i]).rel_path != (#[trigger] c2.folders[j]).rel_path by {
            if i == n {
                assert(c.folders[j].rel_path != rel);
            } else if j == n {
                assert(c.folders[i].rel_path != rel);
            } else {
                assert(c.folders[i].rel_path != c.folders[j].rel_path);
            }
        }
    }
    assert(c2.rows_ok()) by {
        assert forall|i: int| 0 <= i < c2.folders.len() implies folder_row_ok(
            c2.root,
            #[trigger] c2.folders[i],
        ) by {
            if i < n {
                assert(folder_row_ok(c.root, c.folders[i]));
            }
        }
    }
    assert(c2.links_ok()) by {
        assert forall|i: int| 0 <= i < c2.folders.len() implies #[trigger] c2.folder_linked_at(i) by {
            let f = c2.folders[i];
            if i < n {
                assert(c.folder_linked_at(i));
                if parent_of(f.rel_path) is Some {
                    let j = choose|j: int|
                        0 <= j < c.folders.len() && (#[trigger] c.folders[j]).rel_path
                            == parent_of(f.rel_path)->0 && f.parent_id == Some(c.folders[j].id);
                    assert(c2.folders[j] == c.folders[j]);
                }
            } else {
                if parent_of(rel) is Some {
                    let p = parent_of(rel)->0;
                    let j = c.folder_index(p);
                    assert(c2.folders[j] == c.folders[j]);
                }
            }
        }
        assert forall|i: int| 0 <= i < c2.docs.len() implies #[trigger] c2.doc_linked_at(i) by {
            let d = c.docs[i];
            assert(c.doc_linked_at(i));
            let j = choose|j: int|
                0 <= j < c.folders.len() && Some((#[trigger] c.folders[j]).rel_path) == parent_of(
                    d.rel_path,
                ) && d.folder_id == c.folders[j].id;
            assert(c2.folders[j] == c.folders[j]);
        }
    }
    assert(c2.disjoint_ok()) by {
        assert forall|i: int, j: int|
            0 <= i < c2.folders.len() && 0 <= j < c2.docs.len() implies (
        #[trigger] c2.folders[i]).rel_path != (#[trigger] c2.docs[j]).rel_path by {
            if i < n {
                assert(c.folders[i].rel_path != c.docs[j].rel_path);
            } else {
                assert(c.docs[j].rel_path != rel);
            }
        }
    }
    assert(c2.has_folder(rel));
    lemma_folder_index(c2, n);
    assert forall|q: Seq<char>| c.has_folder(q) implies c2.has_folder(q) by {
        let j = c.folder_index(q);
        assert(c2.folders[j] == c.folders[j]);
    }
    assert forall|q: Seq<char>| c2.has_folder(q) implies q == rel || c.has_folder(q) by {
        let j = c2.folder_index(q);
        if j < n {
            assert(c.folders[j].rel_path == q);
        }
    }
}

/// Where the way to `rel` is free, `rel` is no document, and the way to
/// the folder above it is free too.
pub proof fn lemma_way_free_above(c: CatalogView, rel: Seq<char>)
    requires
        is_rel_path(rel),
        c.way_free(rel),
    ensures
        !c.has_doc(rel),
        parent_of(rel) is Some ==> c.way_free(parent_of(rel)->0),
{
    lemma_rel_path_parts(rel);
    if c.has_doc(rel) {
        let j = c.doc_index(rel);
        assert(in_subtree(c.docs[j].rel_path, rel));
    }
    if parent_of(rel) is Some {
        let p = parent_of(rel)->0;
        assert forall|j: int| 0 <= j < c.docs.len() implies !in_subtree(
            (#[trigger] c.docs[j]).rel_path,
            p,
        ) by {
            let d = c.docs[j].rel_path;
            assert(!in_subtree(d, rel));
            if d != p && is_under(d, p) {
                lemma_under_trans(d, p, rel);
            }
        }
    }
}

/// In a well-formed catalog the way to a folder that has a row is free.
pub proof fn lemma_way_to_folder(c: CatalogView, rel: Seq<char>)
    requires
        c.wf(),
        c.has_folder(rel),
    ensures
        c.way_free(rel),
{
    let i = c.folder_index(rel);
    assert(folder_row_ok(c.root, c.folders[i]));
    assert forall|j: int| 0 <= j < c.docs.len() implies !in_subtree(
        (#[trigger] c.docs[j]).rel_path,
        rel,
    ) by {
        let d = c.docs[j].rel_path;
        assert(c.folders[i].rel_path != d);
        assert(doc_row_ok(c.root, c.docs[j]));
        if is_under(d, rel) {
            lemma_folder_above_exists(c, d, rel);
            let k = c.folder_index(d);
            assert(c.folders[k].rel_path != c.docs[j].rel_path);
        }
    }
}

/// Ensuring a folder keeps the catalog well-formed, keeps every older row in
/// its place, touches no document, and uses at most one identifier for each
/// character of the path.
pub proof fn lemma_ensured(c: CatalogView, rel: Seq<char>, ts: Seq<char>)
    requires
        c.wf(),
        rel.len() == 0 || is_rel_path(rel),
        c.way_free(rel),
        c.next_folder_id + rel.len() <= i64::MAX,
    ensures
        ensured(c, rel, ts).wf(),
        rel.len() > 0 ==> ensured(c, rel, ts).has_folder(rel),
        ensured(c, rel, ts).next_folder_id <= c.next_folder_id + rel.len(),
        ensured(c, rel, ts).next_folder_id >= c.next_folder_id,
        ensured(c, rel, ts).root == c.root,
        ensured(c, rel, ts).docs == c.docs,
        ensured(c, rel, ts).next_doc_id == c.next_doc_id,
        c.folders.is_prefix_of(ensured(c, rel, ts).folders),
        forall|q: Seq<char>| c.has_folder(q) ==> ensured(c, rel, ts).has_folder(q),
        forall|q: Seq<char>|
            ensured(c, rel, ts).has_folder(q) ==> c.has_folder(q) || in_subtree(q, rel),
    decreases rel.len(),
{
    if rel.len() == 0 || c.has_folder(rel) {
    } else {
        lemma_rel_path_parts(rel);
        let above = match parent_of(rel) {
            Some(p) => ensured(c, p, ts),
            None => c,
        };
        if parent_of(rel) is Some {
            lemma_way_free_above(c, rel);
            lemma_ensured(c, parent_of(rel)->0, ts);
        }
        lemma_way_free_above(c, rel);
        assert(!above.has_doc(rel));
        assert(!above.has_folder(rel)) by {
            if above.has_folder(rel) {
                let p = parent_of(rel)->0;
                assert(in_subtree(rel, p));
                if rel != p {
                    lemma_under_longer(rel, p);
                }
            }
        }
        lemma_with_folder(above, rel, Seq::empty(), ts);
        let e = with_folder(above, rel, Seq::empty(), ts);
        assert(e == ensured(c, rel, ts));
        assert forall|q: Seq<char>| e.has_folder(q) implies c.has_folder(q) || in_subtree(
            q,
            rel,
        ) by {
            if q != rel && !c.has_folder(q) {
                let p = parent_of(rel)->0;
                assert(above.has_folder(q));
                assert(in_subtree(q, p));
                lemma_under_trans(q, p, rel);
            }
        }
    }
}

/// A path below `p` is longer than `p`.
pub proof fn lemma_under_longer(p: Seq<char>, q: Seq<char>)
    requires
        is_under(p, q),
    ensures
        q.len() > p.len(),
        q != p,
{
}

/// A path below a path in the subtree of `a` lies below `a`.
pub proof fn lemma_under_trans(a: Seq<char>, b: Seq<char>, q: Seq<char>)
    requires
        in_subtree(a, b),
        is_under(b, q),
    ensures
        is_under(a, q),
{
    if a != b {
        let pa = a + seq!['/'];
        let pb = b + seq!['/'];
        assert(pa =~= q.subrange(0, pa.len() as int)) by {
            assert forall|k: int| 0 <= k < pa.len() implies pa[k] == q[k] by {
                assert(b.subrange(0, pa.len() as int)[k] == pa[k]);
                assert(q.subrange(0, pb.len() as int)[k] == pb[k]);
            }
        }
    }
}

/// Replacing a folder's description keeps the catalog well-formed and
/// keeps every path.
pub proof fn lemma_with_folder_description(
    c: CatalogView,
    i: int,
    description: Seq<char>,
    ts: Seq<char>,
)
    requires
        c.wf(),
        0 <= i < c.folders.len(),
    ensures
        with_folder_description(c, i, description, ts).wf(),
        forall|q: Seq<char>|
            c.has_folder(q) <==> with_folder_description(c, i, description, ts).has_folder(q),
{
    let c2 = with_folder_description(c, i, description, ts);
    assert forall|k: int| 0 <= k < c.folders.len() implies (#[trigger] c2.folders[k]).rel_path
        == c.folders[k].rel_path && c2.folders[k].id == c.folders[k].id
        && c2.folders[k].parent_id == c.folders[k].parent_id && c2.folders[k].name
        == c.folders[k].name && c2.folders[k].abs_path == c.folders[k].abs_path by {}
    assert(c2.ids_ok());
    assert(c2.unique_ok()) by {
        assert forall|a: int, b: int|
            0 <= a < c2.folders.len() && 0 <= b < c2.folders.len() && a != b implies (
        #[trigger] c2.folders[a]).rel_path != (#[trigger] c2.folders[b]).rel_path by {
            assert(c.folders[a].rel_path != c.folders[b].rel_path);
        }
    }
    assert(c2.rows_ok()) by {
        assert forall|k: int| 0 <= k < c2.folders.len() implies folder_row_ok(
            c2.root,
            #[trigger] c2.folders[k],
        ) by {
            assert(folder_row_ok(c.root, c.folders[k]));
        }
    }
    assert(c2.links_ok()) by {
        assert forall|k: int| 0 <= k < c2.folders.len() implies #[trigger] c2.folder_linked_at(k) by {
            let f = c.folders[k];
            assert(c.folder_linked_at(k));
            if parent_of(f.rel_path) is Some {
                let j = choose|j: int|
                    0 <= j < c.folders.len() && (#[trigger] c.folders[j]).rel_path == parent_of(
                        f.rel_path,
                    )->0 && f.parent_id == Some(c.folders[j].id);
                assert(c2.folders[j].rel_path == c.folders[j].rel_path);
            }
        }
        assert forall|k: int| 0 <= k < c2.docs.len() implies #[trigger] c2.doc_linked_at(k) by {
            let d = c.docs[k];
            assert(c.doc_linked_at(k));
            let j = choose|j: int|
                0 <= j < c.folders.len() && Some((#[trigger] c.folders[j]).rel_path) == parent_of(
                    d.rel_path,
                ) && d.folder_id == c.folders[j].id;
            assert(c2.folders[j].rel_path == c.folders[j].rel_path);
        }
    }
    assert forall|q: Seq<char>| c.has_folder(q) <==> c2.has_folder(q) by {
        if c.has_folder(q) {
            let j = c.folder_index(q);
            assert(c2.folders[j].rel_path == q);
        }
        if c2.has_folder(q) {
            let j = c2.folder_index(q);
            assert(c.folders[j].rel_path == q);
        }
    }
}

/// What has to hold for the subtree of the folder `from` to become the
/// subtree of `to`: `from` has a row, `to` has none, is no document and
/// does not lie in the subtree of `from`, and `parent_id` is the row of the folder that will hold
/// `to`, a row outside the subtree of `from`.
pub open spec fn can_move_subtree(
    c: CatalogView,
    from: Seq<char>,
    to: Seq<char>,
    parent_id: Option<int>,
) -> bool {
    &&& c.wf()
    &&& c.has_folder(from)
    &&& is_rel_path(to)
    &&& !c.has_folder(to)
    &&& !c.has_doc(to)
    &&& !in_subtree(from, to)
    &&& match parent_of(to) {
        Some(p) => !in_subtree(from, p) && exists|j: int|
            0 <= j < c.folders.len() && (#[trigger] c.folders[j]).rel_path == p && parent_id
                == Some(c.folders[j].id),
        None => parent_id is None,
    }
}

/// In a well-formed catalog nothing lies below a folder that has no row.
pub proof fn lemma_nothing_below_missing(c: CatalogView, p: Seq<char>)
    requires
        c.wf(),
        p.len() > 0,
        !c.has_folder(p),
    ensures
        forall|i: int|
            0 <= i < c.folders.len() ==> !in_subtree(p, (#[trigger] c.folders[i]).rel_path),
        forall|i: int| 0 <= i < c.docs.len() ==> !is_under(p, (#[trigger] c.docs[i]).rel_path),
{
    assert forall|i: int| 0 <= i < c.folders.len() implies !in_subtree(
        p,
        (#[trigger] c.folders[i]).rel_path,
    ) by {
        let q = c.folders[i].rel_path;
        if is_under(p, q) {
            assert(c.has_folder(q));
            lemma_folder_above_exists(c, p, q);
        }
    }
    assert forall|i: int| 0 <= i < c.docs.len() implies !is_under(
        p,
        (#[trigger] c.docs[i]).rel_path,
    ) by {
        let q = c.docs[i].rel_path;
        if is_under(p, q) {
            assert(c.has_doc(q));
            lemma_folder_above_exists(c, p, q);
        }
    }
}

/// The row of the folder that holds a row outside a subtree lies outside
/// that subtree too.
proof fn lemma_parent_outside(from: Seq<char>, p: Seq<char>, q: Seq<char>)
    requires
        is_rel_path(q),
        parent_of(q) == Some(p),
        !is_under(from, q),
    ensures
        !in_subtree(from, p),
{
    lemma_rel_path_parts(q);
    if in_subtree(from, p) {
        lemma_under_trans(from, p, q);
    }
}

/// Moving a subtree keeps the catalog well-formed.
pub proof fn lemma_subtree_moved(
    c: CatalogView,
    from: Seq<char>,
    to: Seq<char>,
    parent_id: Option<int>,
    ts: Seq<char>,
)
    requires
        can_move_subtree(c, from, to, parent_id),
    ensures
        subtree_moved(c, from, to, parent_id, ts).wf(),
{
    let c2 = subtree_moved(c, from, to, parent_id, ts);
    let fi = c.folder_index(from);
    assert(folder_row_ok(c.root, c.folders[fi]));
    assert(from.len() > 0);
    lemma_nothing_below_missing(c, to);
    // the path of every row after the move
    assert forall|i: int| 0 <= i < c.folders.len() implies {
        let q = (#[trigger] c.folders[i]).rel_path;
        let r = c2.folders[i].rel_path;
        &&& c2.folders[i].id == c.folders[i].id
        &&& (q == from ==> r == to && i == fi)
        &&& (is_under(from, q) ==> r == rebased(from, to, q) && is_under(to, r) && is_rel_path(r)
            && last_segment(r) == last_segment(q))
        &&& (!in_subtree(from, q) ==> c2.folders[i] == c.folders[i] && !in_subtree(to, r))
    } by {
        let q = c.folders[i].rel_path;
        assert(folder_row_ok(c.root, c.folders[i]));
        if q == from {
            if i != fi {
                assert(c.folders[i].rel_path != c.folders[fi].rel_path);
            }
        } else if is_under(from, q) {
            lemma_rebased_under(from, to, q);
            lemma_rebased_rel_path(from, to, q);
        }
    }
    assert forall|i: int| 0 <= i < c.docs.len() implies {
        let q = (#[trigger] c.docs[i]).rel_path;
        let r = c2.docs[i].rel_path;
        &&& c2.docs[i].id == c.docs[i].id
        &&& c2.docs[i].stable_id == c.docs[i].stable_id
        &&& c2.docs[i].folder_id == c.docs[i].folder_id
        &&& (is_under(from, q) ==> r == rebased(from, to, q) && is_under(to, r) && is_rel_path(r)
            && last_segment(r) == last_segment(q))
        &&& (!is_under(from, q) ==> c2.docs[i] == c.docs[i] && !is_under(to, r))
    } by {
        let q = c.docs[i].rel_path;
        assert(doc_row_ok(c.root, c.docs[i]));
        if is_under(from, q) {
            lemma_rebased_under(from, to, q);
            lemma_rebased_rel_path(from, to, q);
        }
    }
    assert(c2.ids_ok()) by {
        assert forall|i: int, j: int|
            0 <= i < c2.folders.len() && 0 <= j < c2.folders.len() && i != j implies (
        #[trigger] c2.folders[i]).id != (#[trigger] c2.folders[j]).id by {
            assert(c.folders[i].id != c.folders[j].id);
        }
        assert forall|i: int, j: int|
            0 <= i < c2.docs.len() && 0 <= j < c2.docs.len() && i != j implies (
        #[trigger] c2.docs[i]).id != (#[trigger] c2.docs[j]).id by {
            assert(c.docs[i].id != c.docs[j].id);
        }
        assert forall|i: int| 0 <= i < c2.folders.len() implies 0 < (#[trigger] c2.folders[i]).id
            < c2.next_folder_id by {
            assert(0 < c.folders[i].id < c.next_folder_id);
        }
        assert forall|i: int| 0 <= i < c2.docs.len() implies 0 < (#[trigger] c2.docs[i]).id
            < c2.next_doc_id by {
            assert(0 < c.docs[i].id < c.next_doc_id);
        }
    }
    assert(c2.unique_ok()) by {
        assert forall|i: int, j: int|
            0 <= i < c2.folders.len() && 0 <= j < c2.folders.len() && i != j implies (
        #[trigger] c2.folders[i]).rel_path != (#[trigger] c2.folders[j]).rel_path by {
            let qi = c.folders[i].rel_path;
            let qj = c.folders[j].rel_path;
            assert(qi != qj);
            if is_under(from, qi) && is_under(from, qj) {
                if c2.folders[i].rel_path == c2.folders[j].rel_path {
                    lemma_rebased_injective(from, to, qi, qj);
                }
            }
        }
        assert forall|i: int, j: int|
            0 <= i < c2.docs.len() && 0 <= j < c2.docs.len() && i != j implies (
        #[trigger] c2.docs[i]).rel_path != (#[trigger] c2.docs[j]).rel_path by {
            let qi = c.docs[i].rel_path;
            let qj = c.docs[j].rel_path;
            assert(qi != qj);
            if is_under(from, qi) && is_under(from, qj) {
                if c2.docs[i].rel_path == c2.docs[j].rel_path {
                    lemma_rebased_injective(from, to, qi, qj);
                }
            }
        }
        assert forall|i: int, j: int|
            0 <= i < c2.docs.len() && 0 <= j < c2.docs.len() && i != j implies (
        #[trigger] c2.docs[i]).stable_id != (#[trigger] c2.docs[j]).stable_id by {
            assert(c.docs[i].stable_id != c.docs[j].stable_id);
        }
    }
    assert(c2.disjoint_ok()) by {
        assert forall|i: int, j: int|
            0 <= i < c2.folders.len() && 0 <= j < c2.docs.len() implies (
        #[trigger] c2.folders[i]).rel_path != (#[trigger] c2.docs[j]).rel_path by {
            let qi = c.folders[i].rel_path;
            let qj = c.docs[j].rel_path;
            assert(qi != qj);
            if is_under(from, qj) {
                if qi == from {
                    lemma_under_longer(to, c2.docs[j].rel_path);
                } else if is_under(from, qi) {
                    if c2.folders[i].rel_path == c2.docs[j].rel_path {
                        lemma_rebased_injective(from, to, qi, qj);
                    }
                }
            } else if qi == from {
                if qj == to {
                    assert(c.has_doc(to));
                }
            }
        }
    }
    assert(c2.rows_ok()) by {
        assert forall|i: int| 0 <= i < c2.folders.len() implies folder_row_ok(
            c2.root,
            #[trigger] c2.folders[i],
        ) by {
            assert(folder_row_ok(c.root, c.folders[i]));
        }
        assert forall|i: int| 0 <= i < c2.docs.len() implies doc_row_ok(
            c2.root,
            #[trigger] c2.docs[i],
        ) by {
            assert(doc_row_ok(c.root, c.docs[i]));
            let q = c.docs[i].rel_path;
            if is_under(from, q) {
                lemma_rebased_rel_path(from, to, q);
            }
        }
    }
    assert(c2.links_ok()) by {
        assert forall|i: int| 0 <= i < c2.folders.len() implies #[trigger] c2.folder_linked_at(i) by {
            let f = c.folders[i];
            let q = f.rel_path;
            assert(folder_row_ok(c.root, f));
            assert(c.folder_linked_at(i));
            if q == from {
                if parent_of(to) is Some {
                    let p = parent_of(to)->0;
                    let j = choose|j: int|
                        0 <= j < c.folders.len() && (#[trigger] c.folders[j]).rel_path == p
                            && parent_id == Some(c.folders[j].id);
                    assert(c2.folders[j] == c.folders[j]);
                }
            } else if is_under(from, q) {
                lemma_rebased_rel_path(from, to, q);
                let pq = parent_of(q)->0;
                let j = choose|j: int|
                    0 <= j < c.folders.len() && (#[trigger] c.folders[j]).rel_path == pq
                        && f.parent_id == Some(c.folders[j].id);
                assert(c2.folders[j].id == c.folders[j].id);
                assert(c2.folders[j].rel_path == parent_of(c2.folders[i].rel_path)->0);
            } else {
                if parent_of(q) is Some {
                    let pq = parent_of(q)->0;
                    let j = choose|j: int|
                        0 <= j < c.folders.len() && (#[trigger] c.folders[j]).rel_path == pq
                            && f.parent_id == Some(c.folders[j].id);
                    lemma_parent_outside(from, pq, q);
                    assert(c2.folders[j] == c.folders[j]);
                }
            }
        }
        assert forall|i: int| 0 <= i < c2.docs.len() implies #[trigger] c2.doc_linked_at(i) by {
            let d = c.docs[i];
            let q = d.rel_path;
            assert(doc_row_ok(c.root, d));
            assert(c.doc_linked_at(i));
            let j = choose|j: int|
                0 <= j < c.folders.len() && Some((#[trigger] c.folders[j]).rel_path) == parent_of(
                    q,
                ) && d.folder_id == c.folders[j].id;
            let pq = parent_of(q)->0;
            if is_under(from, q) {
                lemma_rebased_rel_path(from, to, q);
                assert(c2.folders[j].id == c.folders[j].id);
                assert(Some(c2.folders[j].rel_path) == parent_of(c2.docs[i].rel_path));
            } else {
                lemma_parent_outside(from, pq, q);
                assert(c2.folders[j] == c.folders[j]);
            }
        }
    }
}

/// Removing a folder with everything below it keeps the catalog
/// well-formed and removes exactly the rows in that subtree.
pub proof fn lemma_subtree_removed(c: CatalogView, rel: Seq<char>)
    requires
        c.wf(),
    ensures
        subtree_removed(c, rel).wf(),
        forall|q: Seq<char>|
            subtree_removed(c, rel).has_folder(q) <==> c.has_folder(q) && !in_subtree(rel, q),
        forall|q: Seq<char>|
            subtree_removed(c, rel).has_doc(q) <==> c.has_doc(q) && !is_under(rel, q),
{
    let c2 = subtree_removed(c, rel);
    let keep_f = |f: FolderView| !in_subtree(rel, f.rel_path);
    let keep_d = |d: DocView| !is_under(rel, d.rel_path);
    lemma_kept_indices(c.folders, keep_f);
    lemma_kept_indices(c.docs, keep_d);
    let mf = kept_indices(c.folders, keep_f);
    let md = kept_indices(c.docs, keep_d);
    assert(c2.folders == c.folders.filter(keep_f));
    assert(c2.docs == c.docs.filter(keep_d));
    assert forall|i: int| 0 <= i < c2.folders.len() implies (#[trigger] c2.folders[i])
        == c.folders[mf[i]] && 0 <= mf[i] < c.folders.len() && !in_subtree(
        rel,
        c2.folders[i].rel_path,
    ) by {
        assert(0 <= mf[i] < c.folders.len());
        assert(keep_f(c2.folders[i]));
    }
    assert forall|i: int| 0 <= i < c2.docs.len() implies (#[trigger] c2.docs[i]) == c.docs[md[i]]
        && 0 <= md[i] < c.docs.len() && !is_under(rel, c2.docs[i].rel_path) by {
        assert(0 <= md[i] < c.docs.len());
        assert(keep_d(c2.docs[i]));
    }
    assert(c2.ids_ok()) by {
        assert forall|i: int, j: int|
            0 <= i < c2.folders.len() && 0 <= j < c2.folders.len() && i != j implies (
        #[trigger] c2.folders[i]).id != (#[trigger] c2.folders[j]).id by {
            if i < j {
                assert(mf[i] < mf[j]);
            } else {
                assert(mf[j] < mf[i]);
            }
            assert(c.folders[mf[i]].id != c.folders[mf[j]].id);
        }
        assert forall|i: int, j: int|
            0 <= i < c2.docs.len() && 0 <= j < c2.docs.len() && i != j implies (
        #[trigger] c2.docs[i]).id != (#[trigger] c2.docs[j]).id by {
            if i < j {
                assert(md[i] < md[j]);
            } else {
                assert(md[j] < md[i]);
            }
            assert(c.docs[md[i]].id != c.docs[md[j]].id);
        }
        assert forall|i: int| 0 <= i < c2.folders.len() implies 0 < (#[trigger] c2.folders[i]).id
            < c2.next_folder_id by {
            assert(0 < c.folders[mf[i]].id < c.next_folder_id);
        }
        assert forall|i: int| 0 <= i < c2.docs.len() implies 0 < (#[trigger] c2.docs[i]).id
            < c2.next_doc_id by {
            assert(0 < c.docs[md[i]].id < c.next_doc_id);
        }
    }
    assert(c2.unique_ok()) by {
        assert forall|i: int, j: int|
            0 <= i < c2.folders.len() && 0 <= j < c2.folders.len() && i != j implies (
        #[trigger] c2.folders[i]).rel_path != (#[trigger] c2.folders[j]).rel_path by {
            if i < j {
                assert(mf[i] < mf[j]);
            } else {
                assert(mf[j] < mf[i]);
            }
            assert(c.folders[mf[i]].rel_path != c.folders[mf[j]].rel_path);
        }
        assert forall|i: int, j: int|
            0 <= i < c2.docs.len() && 0 <= j < c2.docs.len() && i != j implies (
        #[trigger] c2.docs[i]).rel_path != (#[trigger] c2.docs[j]).rel_path && (
        #[trigger] c2.docs[i]).stable_id != (#[trigger] c2.docs[j]).stable_id by {
            if i < j {
                assert(md[i] < md[j]);
            } else {
                assert(md[j] < md[i]);
            }
            assert(c.docs[md[i]].rel_path != c.docs[md[j]].rel_path);
            assert(c.docs[md[i]].stable_id != c.docs[md[j]].stable_id);
        }
    }
    assert(c2.rows_ok()) by {
        assert forall|i: int| 0 <= i < c2.folders.len() implies folder_row_ok(
            c2.root,
            #[trigger] c2.folders[i],
        ) by {
            assert(folder_row_ok(c.root, c.folders[mf[i]]));
        }
        assert forall|i: int| 0 <= i < c2.docs.len() implies doc_row_ok(
            c2.root,
            #[trigger] c2.docs[i],
        ) by {
            assert(doc_row_ok(c.root, c.docs[md[i]]));
        }
    }
    assert(c2.links_ok()) by {
        assert forall|i: int| 0 <= i < c2.folders.len() implies #[trigger] c2.folder_linked_at(i) by {
            let f = c.folders[mf[i]];
            assert(c2.folders[i] == f);
            assert(folder_row_ok(c.root, f));
            assert(c.folder_linked_at(mf[i]));
            if parent_of(f.rel_path) is Some {
                let p = parent_of(f.rel_path)->0;
                let j = choose|j: int|
                    0 <= j < c.folders.len() && (#[trigger] c.folders[j]).rel_path == p
                        && f.parent_id == Some(c.folders[j].id);
                lemma_parent_outside(rel, p, f.rel_path);
                assert(is_kept(c.folders, keep_f, j));
                let k = choose|k: int| 0 <= k < mf.len() && #[trigger] mf[k] == j;
                assert(c2.folders[k] == c.folders[j]);
            }
        }
        assert forall|i: int| 0 <= i < c2.docs.len() implies #[trigger] c2.doc_linked_at(i) by {
            let d = c.docs[md[i]];
            assert(c2.docs[i] == d);
            assert(doc_row_ok(c.root, d));
            assert(c.doc_linked_at(md[i]));
            let j = choose|j: int|
                0 <= j < c.folders.len() && Some((#[trigger] c.folders[j]).rel_path) == parent_of(
                    d.rel_path,
                ) && d.folder_id == c.folders[j].id;
            lemma_parent_outside(rel, c.folders[j].rel_path, d.rel_path);
            assert(is_kept(c.folders, keep_f, j));
            let k = choose|k: int| 0 <= k < mf.len() && #[trigger] mf[k] == j;
            assert(c2.folders[k] == c.folders[j]);
        }
    }
    assert forall|q: Seq<char>| c2.has_folder(q) <==> c.has_folder(q) && !in_subtree(rel, q) by {
        if c2.has_folder(q) {
            let i = c2.folder_index(q);
            assert(c.folders[mf[i]].rel_path == q);
        }
        if c.has_folder(q) && !in_subtree(rel, q) {
            let j = c.folder_index(q);
            assert(is_kept(c.folders, keep_f, j));
            let k = choose|k: int| 0 <= k < mf.len() && #[trigger] mf[k] == j;
            assert(c2.folders[k].rel_path == q);
        }
    }
    assert forall|q: Seq<char>| c2.has_doc(q) <==> c.has_doc(q) && !is_under(rel, q) by {
        if c2.has_doc(q) {
            let i = c2.doc_index(q);
            assert(c.docs[md[i]].rel_path == q);
        }
        if c.has_doc(q) && !is_under(rel, q) {
            let j = c.doc_index(q);
            assert(is_kept(c.docs, keep_d, j));
            let k = choose|k: int| 0 <= k < md.len() && #[trigger] md[k] == j;
            assert(c2.docs[k].rel_path == q);
        }
    }
}

/// Folder rows are untouched by a change to the document table, so every
/// link into them stays.
proof fn lemma_links_into_same_folders(c: CatalogView, c2: CatalogView)
    requires
        c.links_ok(),
        c2.folders == c.folders,
    ensures
        forall|i: int| 0 <= i < c2.folders.len() ==> #[trigger] c2.folder_linked_at(i),
        forall|d: DocView| c.doc_linked(d) ==> c2.doc_linked(d),
{
    assert forall|i: int| 0 <= i < c2.folders.len() implies #[trigger] c2.folder_linked_at(i) by {
        assert(c.folder_linked_at(i));
    }
}

/// Inserting a document row into a folder that has a row, under a free
/// name and with a fresh stable identifier, keeps the catalog well-formed.
pub proof fn lemma_with_doc(
    c: CatalogView,
    j: int,
    name: Seq<char>,
    description: Seq<char>,
    stable_id: Seq<char>,
    ts: Seq<char>,
)
    requires
        c.wf(),
        0 <= j < c.folders.len(),
        is_segment(name),
        !c.has_doc(child_path(c.folders[j].rel_path, name)),
        !c.has_folder(child_path(c.folders[j].rel_path, name)),
        stable_id.len() > 0,
        !c.has_stable_id(stable_id),
        c.next_doc_id < i64::MAX,
    ensures
        with_doc(c, new_doc_row(c, c.folders[j], name, description, stable_id, ts)).wf(),
        with_doc(c, new_doc_row(c, c.folders[j], name, description, stable_id, ts)).has_doc(
            child_path(c.folders[j].rel_path, name),
        ),
{
    let row = new_doc_row(c, c.folders[j], name, description, stable_id, ts);
    let c2 = with_doc(c, row);
    let n = c.docs.len() as int;
    assert(folder_row_ok(c.root, c.folders[j]));
    lemma_child_path(c.folders[j].rel_path, name);
    assert(c2.docs[n] == row);
    assert forall|i: int| 0 <= i < n implies c2.docs[i] == c.docs[i] by {}
    assert(c2.ids_ok());
    assert(c2.disjoint_ok()) by {
        assert forall|a: int, b: int|
            0 <= a < c2.folders.len() && 0 <= b < c2.docs.len() implies (
        #[trigger] c2.folders[a]).rel_path != (#[trigger] c2.docs[b]).rel_path by {
            if b < n {
                assert(c.folders[a].rel_path != c.docs[b].rel_path);
            } else {
                assert(c.folders[a].rel_path != row.rel_path);
            }
        }
    }
    assert(c2.unique_ok()) by {
        assert forall|a: int, b: int|
            0 <= a < c2.docs.len() && 0 <= b < c2.docs.len() && a != b implies (
        #[trigger] c2.docs[a]).rel_path != (#[trigger] c2.docs[b]).rel_path && (
        #[trigger] c2.docs[a]).stable_id != (#[trigger] c2.docs[b]).stable_id by {
            if a == n {
                assert(c.docs[b].rel_path != row.rel_path);
                assert(c.docs[b].stable_id != stable_id);
            } else if b == n {
                assert(c.docs[a].rel_path != row.rel_path);
                assert(c.docs[a].stable_id != stable_id);
            } else {
                assert(c.docs[a].rel_path != c.docs[b].rel_path);
                assert(c.docs[a].stable_id != c.docs[b].stable_id);
            }
        }
    }
    assert(c2.rows_ok()) by {
        assert forall|i: int| 0 <= i < c2.docs.len() implies doc_row_ok(
            c2.root,
            #[trigger] c2.docs[i],
        ) by {
            if i < n {
                assert(doc_row_ok(c.root, c.docs[i]));
            }
        }
    }
    lemma_links_into_same_folders(c, c2);
    assert(c2.links_ok()) by {
        assert forall|i: int| 0 <= i < c2.docs.len() implies #[trigger] c2.doc_linked_at(i) by {
            if i < n {
                assert(c.doc_linked_at(i));
            } else {
                assert(Some(c2.folders[j].rel_path) == parent_of(row.rel_path));
            }
        }
    }
    assert(c2.docs[n].rel_path == child_path(c.folders[j].rel_path, name));
}

/// Placing a document row in a folder that has a row, under a free name,
/// keeps the catalog well-formed.
pub proof fn lemma_doc_relocated(
    c: CatalogView,
    i: int,
    j: int,
    name: Seq<char>,
    ts: Seq<char>,
)
    requires
        c.wf(),
        0 <= i < c.docs.len(),
        0 <= j < c.folders.len(),
        is_segment(name),
        !c.has_doc(child_path(c.folders[j].rel_path, name)),
        !c.has_folder(child_path(c.folders[j].rel_path, name)),
    ensures
        with_doc_at(c, i, relocated_doc(c.root, c.docs[i], c.folders[j], name, ts)).wf(),
{
    let row = relocated_doc(c.root, c.docs[i], c.folders[j], name, ts);
    let c2 = with_doc_at(c, i, row);
    assert(folder_row_ok(c.root, c.folders[j]));
    assert(doc_row_ok(c.root, c.docs[i]));
    lemma_child_path(c.folders[j].rel_path, name);
    assert(c2.disjoint_ok()) by {
        assert forall|a: int, b: int|
            0 <= a < c2.folders.len() && 0 <= b < c2.docs.len() implies (
        #[trigger] c2.folders[a]).rel_path != (#[trigger] c2.docs[b]).rel_path by {
            if b != i {
                assert(c.folders[a].rel_path != c.docs[b].rel_path);
            } else {
                assert(c.folders[a].rel_path != row.rel_path);
            }
        }
    }
    assert(c2.ids_ok()) by {
        assert forall|a: int, b: int|
            0 <= a < c2.docs.len() && 0 <= b < c2.docs.len() && a != b implies (
        #[trigger] c2.docs[a]).id != (#[trigger] c2.docs[b]).id by {
            assert(c.docs[a].id != c.docs[b].id);
        }
        assert forall|a: int| 0 <= a < c2.docs.len() implies 0 < (#[trigger] c2.docs[a]).id
            < c2.next_doc_id by {
            assert(0 < c.docs[a].id < c.next_doc_id);
        }
    }
    assert(c2.unique_ok()) by {
        assert forall|a: int, b: int|
            0 <= a < c2.docs.len() && 0 <= b < c2.docs.len() && a != b implies (
        #[trigger] c2.docs[a]).rel_path != (#[trigger] c2.docs[b]).rel_path && (
        #[trigger] c2.docs[a]).stable_id != (#[trigger] c2.docs[b]).stable_id by {
            assert(c.docs[a].stable_id != c.docs[b].stable_id);
            assert(c.docs[a].rel_path != c.docs[b].rel_path);
            if a == i {
                assert(c.docs[b].rel_path != row.rel_path);
            } else if b == i {
                assert(c.docs[a].rel_path != row.rel_path);
            }
        }
    }
    assert(c2.rows_ok()) by {
        assert forall|a: int| 0 <= a < c2.docs.len() implies doc_row_ok(
            c2.root,
            #[trigger] c2.docs[a],
        ) by {
            assert(doc_row_ok(c.root, c.docs[a]));
        }
    }
    lemma_links_into_same_folders(c, c2);
    assert(c2.links_ok()) by {
        assert forall|a: int| 0 <= a < c2.docs.len() implies #[trigger] c2.doc_linked_at(a) by {
            if a != i {
                assert(c.doc_linked_at(a));
            } else {
                assert(Some(c2.folders[j].rel_path) == parent_of(row.rel_path));
            }
        }
    }
}

/// Replacing a document row by one with the same identity and place keeps
/// the catalog well-formed.
pub proof fn lemma_doc_touched(c: CatalogView, i: int, d: DocView)
    requires
        c.wf(),
        0 <= i < c.docs.len(),
        d.id == c.docs[i].id,
        d.folder_id == c.docs[i].folder_id,
        d.name == c.docs[i].name,
        d.rel_path == c.docs[i].rel_path,
        d.abs_path == c.docs[i].abs_path,
        d.stable_id == c.docs[i].stable_id,
    ensures
        with_doc_at(c, i, d).wf(),
        forall|q: Seq<char>| c.has_doc(q) <==> with_doc_at(c, i, d).has_doc(q),
{
    let c2 = with_doc_at(c, i, d);
    assert forall|a: int| 0 <= a < c.docs.len() implies (#[trigger] c2.docs[a]).id
        == c.docs[a].id && c2.docs[a].rel_path == c.docs[a].rel_path && c2.docs[a].stable_id
        == c.docs[a].stable_id && c2.docs[a].folder_id == c.docs[a].folder_id && c2.docs[a].name
        == c.docs[a].name && c2.docs[a].abs_path == c.docs[a].abs_path by {}
    assert(c2.ids_ok()) by {
        assert forall|a: int, b: int|
            0 <= a < c2.docs.len() && 0 <= b < c2.docs.len() && a != b implies (
        #[trigger] c2.docs[a]).id != (#[trigger] c2.docs[b]).id by {
            assert(c.docs[a].id != c.docs[b].id);
        }
        assert forall|a: int| 0 <= a < c2.docs.len() implies 0 < (#[trigger] c2.docs[a]).id
            < c2.next_doc_id by {
            assert(0 < c.docs[a].id < c.next_doc_id);
        }
    }
    assert(c2.unique_ok()) by {
        assert forall|a: int, b: int|
            0 <= a < c2.docs.len() && 0 <= b < c2.docs.len() && a != b implies (
        #[trigger] c2.docs[a]).rel_path != (#[trigger] c2.docs[b]).rel_path && (
        #[trigger] c2.docs[a]).stable_id != (#[trigger] c2.docs[b]).stable_id by {
            assert(c.docs[a].stable_id != c.docs[b].stable_id);
            assert(c.docs[a].rel_path != c.docs[b].rel_path);
        }
    }
    assert(c2.rows_ok()) by {
        assert forall|a: int| 0 <= a < c2.docs.len() implies doc_row_ok(
            c2.root,
            #[trigger] c2.docs[a],
        ) by {
            assert(doc_row_ok(c.root, c.docs[a]));
        }
    }
    lemma_links_into_same_folders(c, c2);
    assert(c2.links_ok()) by {
        assert forall|a: int| 0 <= a < c2.docs.len() implies #[trigger] c2.doc_linked_at(a) by {
            assert(c.doc_linked_at(a));
            let k = choose|k: int|
                0 <= k < c.folders.len() && Some((#[trigger] c.folders[k]).rel_path) == parent_of(
                    c.docs[a].rel_path,
                ) && c.docs[a].folder_id == c.folders[k].id;
            assert(Some(c2.folders[k].rel_path) == parent_of(c2.docs[a].rel_path));
        }
    }
    assert forall|q: Seq<char>| c.has_doc(q) <==> c2.has_doc(q) by {
        if c.has_doc(q) {
            let a = c.doc_index(q);
            assert(c2.docs[a].rel_path == q);
        }
        if c2.has_doc(q) {
            let a = c2.doc_index(q);
            assert(c.docs[a].rel_path == q);
        }
    }
}

/// Removing a document row keeps the catalog well-formed, and removes
/// that document only.
pub proof fn lemma_without_doc(c: CatalogView, i: int)
    requires
        c.wf(),
        0 <= i < c.docs.len(),
    ensures
        without_doc(c, i).wf(),
        !without_doc(c, i).has_doc(c.docs[i].rel_path),
        forall|q: Seq<char>|
            q != c.docs[i].rel_path ==> (c.has_doc(q) <==> without_doc(c, i).has_doc(q)),
{
    let c2 = without_doc(c, i);
    assert forall|a: int| 0 <= a < c2.docs.len() implies (#[trigger] c2.docs[a]) == c.docs[if a
        < i {
        a
    } else {
        a + 1
    }] by {}
    assert(c2.ids_ok()) by {
        assert forall|a: int, b: int|
            0 <= a < c2.docs.len() && 0 <= b < c2.docs.len() && a != b implies (
        #[trigger] c2.docs[a]).id != (#[trigger] c2.docs[b]).id by {
            let a1 = if a < i { a } else { a + 1 };
            let b1 = if b < i { b } else { b + 1 };
            assert(c.docs[a1].id != c.docs[b1].id);
        }
        assert forall|a: int| 0 <= a < c2.docs.len() implies 0 < (#[trigger] c2.docs[a]).id
            < c2.next_doc_id by {
            let a1 = if a < i { a } else { a + 1 };
            assert(0 < c.docs[a1].id < c.next_doc_id);
        }
    }
    assert(c2.unique_ok()) by {
        assert forall|a: int, b: int|
            0 <= a < c2.docs.len() && 0 <= b < c2.docs.len() && a != b implies (
        #[trigger] c2.docs[a]).rel_path != (#[trigger] c2.docs[b]).rel_path && (
        #[trigger] c2.docs[a]).stable_id != (#[trigger] c2.docs[b]).stable_id by {
            let a1 = if a < i { a } else { a + 1 };
            let b1 = if b < i { b } else { b + 1 };
            assert(c.docs[a1].stable_id != c.docs[b1].stable_id);
            assert(c.docs[a1].rel_path != c.docs[b1].rel_path);
        }
    }
    assert(c2.rows_ok()) by {
        assert forall|a: int| 0 <= a < c2.docs.len() implies doc_row_ok(
            c2.root,
            #[trigger] c2.docs[a],
        ) by {
            let a1 = if a < i { a } else { a + 1 };
            assert(doc_row_ok(c.root, c.docs[a1]));
        }
    }
    lemma_links_into_same_folders(c, c2);
    assert(c2.links_ok()) by {
        assert forall|a: int| 0 <= a < c2.docs.len() implies #[trigger] c2.doc_linked_at(a) by {
            let a1 = if a < i { a } else { a + 1 };
            assert(c.doc_linked_at(a1));
        }
    }
    if c2.has_doc(c.docs[i].rel_path) {
        let a = c2.doc_index(c.docs[i].rel_path);
        let a1 = if a < i { a } else { a + 1 };
        assert(c.docs[a1].rel_path != c.docs[i].rel_path);
    }
    assert forall|q: Seq<char>| q != c.docs[i].rel_path implies (c.has_doc(q) <==> c2.has_doc(
        q,
    )) by {
        if c.has_doc(q) {
            let a = c.doc_index(q);
            let a2 = if a < i { a } else { a - 1 };
            assert(c2.docs[a2].rel_path == q);
        }
        if c2.has_doc(q) {
            let a = c2.doc_index(q);
            let a1 = if a < i { a } else { a + 1 };
            assert(c.docs[a1].rel_path == q);
        }
    }
}

} // verus!
