//! The catalog tables in memory, with the queries and updates that the
//! service is built from.

use crate::catalog::{
    affected_docs, can_move_subtree, docs_below, ensured, lemma_doc_relocated,
    lemma_doc_touched, lemma_ensured, lemma_folder_index, lemma_subtree_moved,
    lemma_subtree_removed, lemma_way_free_above, lemma_with_doc, lemma_with_folder,
    lemma_without_doc, moved_doc_row,
    moved_folder_row, new_doc_row, new_folder_row, relocated_doc, subtree_moved,
    id_view, subtree_removed, touched_doc, with_doc, with_doc_at, with_folder,
    with_folder_description, without_doc, CatalogView,
};
use crate::events::{pair_views, path_views};
use crate::model::{doc_views, folder_views, Doc, DocView, Folder, FolderView};
use crate::paths::{
    abs_chars, child_chars, in_subtree, is_rel_path, is_segment, is_under, is_under_chars,
    last_segment_chars, lemma_rel_path_parts, parent_chars, parent_of, rebase_chars, rebased,
};
use crate::text::{chars_of, same_chars, string_of};
use vstd::prelude::*;

verus! {

/// The two tables and their counters.
pub struct Catalog {
    pub root: String,
    pub folders: Vec<Folder>,
    pub docs: Vec<Doc>,
    pub next_folder_id: i64,
    pub next_doc_id: i64,
}

impl View for Catalog {
    type V = CatalogView;

    open spec fn view(&self) -> CatalogView {
        CatalogView {
            root: self.root@,
            folders: folder_views(self.folders@),
            docs: doc_views(self.docs@),
            next_folder_id: self.next_folder_id as int,
            next_doc_id: self.next_doc_id as int,
        }
    }
}

impl Catalog {
    /// The empty catalog under `root`.
    pub fn new(root: String) -> (c: Catalog)
        ensures
            c@ == CatalogView::empty(root@),
            c@.wf(),
    {
        let c = Catalog {
            root,
            folders: Vec::new(),
            docs: Vec::new(),
            next_folder_id: 1,
            next_doc_id: 1,
        };
        assert(c@.folders =~= Seq::empty());
        assert(c@.docs =~= Seq::empty());
        c
    }

    /// A copy of the catalog.
    pub fn duplicate(&self) -> (copy: Catalog)
        ensures
            copy@ == self@,
    {
        let mut folders: Vec<Folder> = Vec::new();
        let mut i: usize = 0;
        while i < self.folders.len()
            invariant
                i <= self.folders.len(),
                folders.len() == i,
                forall|k: int| 0 <= k < i ==> (#[trigger] folders@[k])@ == self.folders@[k]@,
            decreases self.folders.len() - i,
        {
            folders.push(self.folders[i].clone());
            i = i + 1;
        }
        let mut docs: Vec<Doc> = Vec::new();
        let mut k: usize = 0;
        while k < self.docs.len()
            invariant
                k <= self.docs.len(),
                docs.len() == k,
                forall|a: int| 0 <= a < k ==> (#[trigger] docs@[a])@ == self.docs@[a]@,
            decreases self.docs.len() - k,
        {
            docs.push(self.docs[k].clone());
            k = k + 1;
        }
        let copy = Catalog {
            root: self.root.clone(),
            folders,
            docs,
            next_folder_id: self.next_folder_id,
            next_doc_id: self.next_doc_id,
        };
        assert(copy@.folders =~= self@.folders);
        assert(copy@.docs =~= self@.docs);
        copy
    }

    /// The index of the folder row with the path `rel`.
    pub fn find_folder(&self, rel: &Vec<char>) -> (r: Option<usize>)
        ensures
            match r {
                Some(i) => i < self.folders.len() && self@.folders[i as int].rel_path == rel@
                    && self@.has_folder(rel@),
                None => !self@.has_folder(rel@),
            },
    {
        let mut i: usize = 0;
        while i < self.folders.len()
            invariant
                i <= self.folders.len(),
                forall|k: int| 0 <= k < i ==> (#[trigger] self@.folders[k]).rel_path != rel@,
            decreases self.folders.len() - i,
        {
            let p = chars_of(self.folders[i].rel_path.as_str());
            if same_chars(&p, rel) {
                assert(self@.folders[i as int].rel_path == rel@);
                return Some(i);
            }
            i = i + 1;
        }
        None
    }

    /// Whether no document stands at `rel` or at a path above it.
    pub fn way_is_free(&self, rel: &Vec<char>) -> (r: bool)
        ensures
            r == self@.way_free(rel@),
    {
        let mut j: usize = 0;
        while j < self.docs.len()
            invariant
                j <= self.docs.len(),
                forall|k: int|
                    0 <= k < j ==> !in_subtree((#[trigger] self@.docs[k]).rel_path, rel@),
            decreases self.docs.len() - j,
        {
            let d = chars_of(self.docs[j].rel_path.as_str());
            if same_chars(&d, rel) || is_under_chars(&d, rel) {
                assert(in_subtree(self@.docs[j as int].rel_path, rel@));
                return false;
            }
            j = j + 1;
        }
        true
    }

    /// The index of the document row with the path `rel`.
    pub fn find_doc(&self, rel: &Vec<char>) -> (r: Option<usize>)
        ensures
            match r {
                Some(i) => i < self.docs.len() && self@.docs[i as int].rel_path == rel@
                    && self@.has_doc(rel@),
                None => !self@.has_doc(rel@),
            },
    {
        let mut i: usize = 0;
        while i < self.docs.len()
            invariant
                i <= self.docs.len(),
                forall|k: int| 0 <= k < i ==> (#[trigger] self@.docs[k]).rel_path != rel@,
            decreases self.docs.len() - i,
        {
            let p = chars_of(self.docs[i].rel_path.as_str());
            if same_chars(&p, rel) {
                assert(self@.docs[i as int].rel_path == rel@);
                return Some(i);
            }
            i = i + 1;
        }
        None
    }

    /// The index of the document row with the stable identifier `sid`.
    pub fn find_stable_id(&self, sid: &Vec<char>) -> (r: Option<usize>)
        ensures
            match r {
                Some(i) => i < self.docs.len() && self@.docs[i as int].stable_id == sid@
                    && self@.has_stable_id(sid@),
                None => !self@.has_stable_id(sid@),
            },
    {
        let mut i: usize = 0;
        while i < self.docs.len()
            invariant
                i <= self.docs.len(),
                forall|k: int| 0 <= k < i ==> (#[trigger] self@.docs[k]).stable_id != sid@,
            decreases self.docs.len() - i,
        {
            let p = chars_of(self.docs[i].stable_id.as_str());
            if same_chars(&p, sid) {
                assert(self@.docs[i as int].stable_id == sid@);
                return Some(i);
            }
            i = i + 1;
        }
        None
    }

    /// Inserts a row for the folder `rel`, which has none.
    pub fn insert_folder(&mut self, rel: &Vec<char>, description: &str, ts: &str)
        requires
            old(self)@.wf(),
            is_rel_path(rel@),
            !old(self)@.has_folder(rel@),
            !old(self)@.has_doc(rel@),
            parent_of(rel@) is Some ==> old(self)@.has_folder(parent_of(rel@)->0),
            old(self).next_folder_id < i64::MAX,
        ensures
            final(self)@ == with_folder(old(self)@, rel@, description@, ts@),
            final(self)@.wf(),
    {
        let ghost before = self@;
        let parent_id = match parent_chars(rel) {
            Some(p) => match self.find_folder(&p) {
                Some(j) => {
                    proof {
                        lemma_folder_index(self@, j as int);
                    }
                    Some(self.folders[j].id)
                },
                None => None,
            },
            None => None,
        };
        let root = chars_of(self.root.as_str());
        let row = Folder {
            id: self.next_folder_id,
            parent_id,
            name: string_of(&last_segment_chars(rel)),
            rel_path: string_of(rel),
            abs_path: string_of(&abs_chars(&root, rel)),
            description: description.to_owned(),
            created_at: ts.to_owned(),
            updated_at: ts.to_owned(),
        };
        assert(row@ == new_folder_row(before, rel@, description@, ts@));
        self.folders.push(row);
        self.next_folder_id = self.next_folder_id + 1;
        assert(self@.folders =~= before.folders.push(row@));
        proof {
            lemma_with_folder(before, rel@, description@, ts@);
        }
    }

    /// Makes sure that the folder `rel` and every folder above it has a row.
    pub fn ensure_folder(&mut self, rel: &Vec<char>, ts: &str)
        requires
            old(self)@.wf(),
            rel@.len() == 0 || is_rel_path(rel@),
            old(self)@.way_free(rel@),
            old(self).next_folder_id + rel@.len() <= i64::MAX,
        ensures
            final(self)@ == ensured(old(self)@, rel@, ts@),
            final(self)@.wf(),
        decreases rel@.len(),
    {
        let ghost before = self@;
        proof {
            lemma_ensured(before, rel@, ts@);
        }
        if rel.len() == 0 {
            return ;
        }
        if self.find_folder(rel).is_some() {
            return ;
        }
        proof {
            lemma_rel_path_parts(rel@);
            lemma_way_free_above(before, rel@);
        }
        match parent_chars(rel) {
            Some(p) => {
                self.ensure_folder(&p, ts);
                proof {
                    lemma_ensured(before, p@, ts@);
                }
            },
            None => {},
        }
        let ghost above = self@;
        assert(!above.has_folder(rel@)) by {
            if above.has_folder(rel@) {
                let p = parent_of(rel@)->0;
                if rel@ != p {
                    crate::catalog::lemma_under_longer(rel@, p);
                }
            }
        }
        self.insert_folder(rel, "", ts);
        assert(""@ =~= Seq::<char>::empty()) by {
            reveal_strlit("");
        }
    }

    /// Replaces the description of the folder row `i`.
    pub fn set_folder_description(&mut self, i: usize, description: &str, ts: &str)
        requires
            old(self)@.wf(),
            i < old(self).folders.len(),
        ensures
            final(self)@ == with_folder_description(old(self)@, i as int, description@, ts@),
            final(self)@.wf(),
    {
        let ghost before = self@;
        let f = &self.folders[i];
        let row = Folder {
            id: f.id,
            parent_id: f.parent_id,
            name: f.name.clone(),
            rel_path: f.rel_path.clone(),
            abs_path: f.abs_path.clone(),
            description: description.to_owned(),
            created_at: f.created_at.clone(),
            updated_at: ts.to_owned(),
        };
        self.folders.set(i, row);
        let ghost after = with_folder_description(before, i as int, description@, ts@);
        assert(self@.folders =~= after.folders);
        proof {
            crate::catalog::lemma_with_folder_description(before, i as int, description@, ts@);
        }
    }
}

impl Catalog {
    /// Turns the subtree of the folder row `fi` into the subtree of `to`,
    /// and reports each document below it with its old and new path.
    pub fn move_subtree(&mut self, fi: usize, to: &Vec<char>, parent_id: Option<i64>, ts: &str) -> (moved:
        Vec<(String, String)>)
        requires
            fi < old(self).folders.len(),
            can_move_subtree(
                old(self)@,
                old(self)@.folders[fi as int].rel_path,
                to@,
                id_view(parent_id),
            ),
        ensures
            final(self)@ == subtree_moved(
                old(self)@,
                old(self)@.folders[fi as int].rel_path,
                to@,
                id_view(parent_id),
                ts@,
            ),
            final(self)@.wf(),
            pair_views(moved@) == affected_docs(
                old(self)@,
                old(self)@.folders[fi as int].rel_path,
                to@,
            ),
    {
        let ghost before = self@;
        let ghost from_v = before.folders[fi as int].rel_path;
        let ghost pid = id_view(parent_id);
        let from = chars_of(self.folders[fi].rel_path.as_str());
        let root = chars_of(self.root.as_str());
        let mut folders: Vec<Folder> = Vec::new();
        let mut i: usize = 0;
        while i < self.folders.len()
            invariant
                i <= self.folders.len(),
                self@ == before,
                from@ == from_v,
                root@ == before.root,
                pid == id_view(parent_id),
                folders.len() == i,
                forall|k: int|
                    0 <= k < i ==> (#[trigger] folders@[k])@ == moved_folder_row(
                        before.root,
                        from_v,
                        to@,
                        pid,
                        ts@,
                        before.folders[k],
                    ),
            decreases self.folders.len() - i,
        {
            let f = &self.folders[i];
            let q = chars_of(f.rel_path.as_str());
            assert(f@ == before.folders[i as int]);
            let row = if same_chars(&q, &from) {
                Folder {
                    id: f.id,
                    parent_id,
                    name: string_of(&last_segment_chars(to)),
                    rel_path: string_of(to),
                    abs_path: string_of(&abs_chars(&root, to)),
                    description: f.description.clone(),
                    created_at: f.created_at.clone(),
                    updated_at: ts.to_owned(),
                }
            } else if is_under_chars(&from, &q) {
                let r = rebase_chars(&from, to, &q);
                Folder {
                    id: f.id,
                    parent_id: f.parent_id,
                    name: f.name.clone(),
                    abs_path: string_of(&abs_chars(&root, &r)),
                    rel_path: string_of(&r),
                    description: f.description.clone(),
                    created_at: f.created_at.clone(),
                    updated_at: ts.to_owned(),
                }
            } else {
                f.clone()
            };
            folders.push(row);
            i = i + 1;
        }
        let mut docs: Vec<Doc> = Vec::new();
        let mut moved: Vec<(String, String)> = Vec::new();
        let ghost under = |d: DocView| is_under(from_v, d.rel_path);
        let ghost pair = |d: DocView| (d.rel_path, rebased(from_v, to@, d.rel_path));
        let mut k: usize = 0;
        proof {
            reveal(Seq::filter);
            assert(before.docs.subrange(0, 0) =~= Seq::<DocView>::empty());
            assert(pair_views(moved@) =~= before.docs.subrange(0, 0).filter(under).map_values(
                pair,
            ));
        }
        while k < self.docs.len()
            invariant
                k <= self.docs.len(),
                self@ == before,
                from@ == from_v,
                root@ == before.root,
                under == |d: DocView| is_under(from_v, d.rel_path),
                pair == |d: DocView| (d.rel_path, rebased(from_v, to@, d.rel_path)),
                docs.len() == k,
                forall|a: int|
                    0 <= a < k ==> (#[trigger] docs@[a])@ == moved_doc_row(
                        before.root,
                        from_v,
                        to@,
                        ts@,
                        before.docs[a],
                    ),
                pair_views(moved@) == before.docs.subrange(0, k as int).filter(under).map_values(
                    pair,
                ),
            decreases self.docs.len() - k,
        {
            let d = &self.docs[k];
            let q = chars_of(d.rel_path.as_str());
            assert(d@ == before.docs[k as int]);
            let ghost head = before.docs.subrange(0, k + 1);
            assert(head.drop_last() == before.docs.subrange(0, k as int));
            assert(head.last() == before.docs[k as int]);
            proof {
                reveal(Seq::filter);
            }
            let ghost prev = pair_views(moved@);
            let row = if is_under_chars(&from, &q) {
                let r = rebase_chars(&from, to, &q);
                let new_path = string_of(&r);
                moved.push((d.rel_path.clone(), new_path.clone()));
                assert(pair_views(moved@) =~= prev.push(pair(before.docs[k as int])));
                assert(head.filter(under).map_values(pair) =~= head.drop_last().filter(
                    under,
                ).map_values(pair).push(pair(before.docs[k as int])));
                Doc {
                    id: d.id,
                    folder_id: d.folder_id,
                    name: d.name.clone(),
                    abs_path: string_of(&abs_chars(&root, &r)),
                    rel_path: new_path,
                    description: d.description.clone(),
                    stable_id: d.stable_id.clone(),
                    created_at: d.created_at.clone(),
                    updated_at: ts.to_owned(),
                }
            } else {
                d.clone()
            };
            docs.push(row);
            k = k + 1;
        }
        assert(before.docs.subrange(0, before.docs.len() as int) =~= before.docs);
        self.folders = folders;
        self.docs = docs;
        let ghost after = subtree_moved(before, from_v, to@, pid, ts@);
        assert(self@.folders =~= after.folders);
        assert(self@.docs =~= after.docs);
        proof {
            lemma_subtree_moved(before, from_v, to@, pid, ts@);
        }
        moved
    }

    /// Removes the folder `rel` with everything below it, and reports the
    /// path of each document that went with it.
    pub fn remove_subtree(&mut self, rel: &Vec<char>) -> (removed: Vec<String>)
        requires
            old(self)@.wf(),
        ensures
            final(self)@ == subtree_removed(old(self)@, rel@),
            final(self)@.wf(),
            path_views(removed@) == docs_below(old(self)@, rel@),
    {
        let ghost before = self@;
        let ghost keep_f = |f: FolderView| !in_subtree(rel@, f.rel_path);
        let ghost keep_d = |d: DocView| !is_under(rel@, d.rel_path);
        let ghost under = |d: DocView| is_under(rel@, d.rel_path);
        let ghost path = |d: DocView| d.rel_path;
        let mut folders: Vec<Folder> = Vec::new();
        let mut i: usize = 0;
        proof {
            reveal(Seq::filter);
            assert(before.folders.subrange(0, 0) =~= Seq::<FolderView>::empty());
            assert(folder_views(folders@) =~= before.folders.subrange(0, 0).filter(keep_f));
        }
        while i < self.folders.len()
            invariant
                i <= self.folders.len(),
                self@ == before,
                keep_f == |f: FolderView| !in_subtree(rel@, f.rel_path),
                folder_views(folders@) == before.folders.subrange(0, i as int).filter(keep_f),
            decreases self.folders.len() - i,
        {
            let f = &self.folders[i];
            let q = chars_of(f.rel_path.as_str());
            assert(f@ == before.folders[i as int]);
            let ghost head = before.folders.subrange(0, i + 1);
            assert(head.drop_last() == before.folders.subrange(0, i as int));
            assert(head.last() == before.folders[i as int]);
            proof {
                reveal(Seq::filter);
            }
            let ghost prev = folder_views(folders@);
            if !(same_chars(&q, rel) || is_under_chars(rel, &q)) {
                folders.push(f.clone());
                assert(folder_views(folders@) =~= prev.push(before.folders[i as int]));
            }
            i = i + 1;
        }
        let mut docs: Vec<Doc> = Vec::new();
        let mut removed: Vec<String> = Vec::new();
        let mut k: usize = 0;
        proof {
            reveal(Seq::filter);
            assert(before.docs.subrange(0, 0) =~= Seq::<DocView>::empty());
            assert(doc_views(docs@) =~= before.docs.subrange(0, 0).filter(keep_d));
            assert(path_views(removed@) =~= before.docs.subrange(0, 0).filter(under).map_values(
                path,
            ));
        }
        while k < self.docs.len()
            invariant
                k <= self.docs.len(),
                self@ == before,
                keep_d == |d: DocView| !is_under(rel@, d.rel_path),
                under == |d: DocView| is_under(rel@, d.rel_path),
                path == |d: DocView| d.rel_path,
                doc_views(docs@) == before.docs.subrange(0, k as int).filter(keep_d),
                path_views(removed@) == before.docs.subrange(0, k as int).filter(under).map_values(
                    path,
                ),
            decreases self.docs.len() - k,
        {
            let d = &self.docs[k];
            let q = chars_of(d.rel_path.as_str());
            assert(d@ == before.docs[k as int]);
            let ghost head = before.docs.subrange(0, k + 1);
            assert(head.drop_last() == before.docs.subrange(0, k as int));
            assert(head.last() == before.docs[k as int]);
            proof {
                reveal(Seq::filter);
            }
            let ghost prev_docs = doc_views(docs@);
            let ghost prev_removed = path_views(removed@);
            if is_under_chars(rel, &q) {
                removed.push(d.rel_path.clone());
                assert(path_views(removed@) =~= prev_removed.push(before.docs[k as int].rel_path));
                assert(head.filter(under).map_values(path) =~= head.drop_last().filter(
                    under,
                ).map_values(path).push(before.docs[k as int].rel_path));
            } else {
                docs.push(d.clone());
                assert(doc_views(docs@) =~= prev_docs.push(before.docs[k as int]));
            }
            k = k + 1;
        }
        assert(before.docs.subrange(0, before.docs.len() as int) =~= before.docs);
        assert(before.folders.subrange(0, before.folders.len() as int) =~= before.folders);
        self.folders = folders;
        self.docs = docs;
        proof {
            lemma_subtree_removed(before, rel@);
        }
        removed
    }

    /// The number of folder rows directly inside the folder row `id`.
    pub fn count_child_folders(&self, id: i64) -> (n: usize)
        ensures
            n == self@.child_folder_count(id as int),
    {
        let ghost pred = |f: FolderView| f.parent_id == Some(id as int);
        let ghost all = self@.folders;
        let mut n: usize = 0;
        let mut i: usize = 0;
        proof {
            reveal(Seq::filter);
            assert(all.subrange(0, 0) =~= Seq::<FolderView>::empty());
        }
        while i < self.folders.len()
            invariant
                i <= self.folders.len(),
                all == self@.folders,
                pred == |f: FolderView| f.parent_id == Some(id as int),
                n <= i,
                n == all.subrange(0, i as int).filter(pred).len(),
            decreases self.folders.len() - i,
        {
            let ghost head = all.subrange(0, i + 1);
            assert(head.drop_last() == all.subrange(0, i as int));
            assert(head.last() == self.folders@[i as int]@);
            proof {
                reveal(Seq::filter);
            }
            match self.folders[i].parent_id {
                Some(p) => {
                    if p == id {
                        n = n + 1;
                    }
                },
                None => {},
            }
            i = i + 1;
        }
        assert(all.subrange(0, all.len() as int) =~= all);
        n
    }

    /// The number of document rows directly inside the folder row `id`.
    pub fn count_child_docs(&self, id: i64) -> (n: usize)
        ensures
            n == self@.child_doc_count(id as int),
    {
        let ghost pred = |d: DocView| d.folder_id == id as int;
        let ghost all = self@.docs;
        let mut n: usize = 0;
        let mut i: usize = 0;
        proof {
            reveal(Seq::filter);
            assert(all.subrange(0, 0) =~= Seq::<DocView>::empty());
        }
        while i < self.docs.len()
            invariant
                i <= self.docs.len(),
                all == self@.docs,
                pred == |d: DocView| d.folder_id == id as int,
                n <= i,
                n == all.subrange(0, i as int).filter(pred).len(),
            decreases self.docs.len() - i,
        {
            let ghost head = all.subrange(0, i + 1);
            assert(head.drop_last() == all.subrange(0, i as int));
            assert(head.last() == self.docs@[i as int]@);
            proof {
                reveal(Seq::filter);
            }
            if self.docs[i].folder_id == id {
                n = n + 1;
            }
            i = i + 1;
        }
        assert(all.subrange(0, all.len() as int) =~= all);
        n
    }

    /// Inserts a row for the document `name` in the folder row `j`.
    pub fn insert_doc(&mut self, j: usize, name: &Vec<char>, description: &str, stable_id: &str, ts: &str)
        requires
            old(self)@.wf(),
            j < old(self).folders.len(),
            is_segment(name@),
            !old(self)@.has_doc(
                crate::paths::child_path(old(self)@.folders[j as int].rel_path, name@),
            ),
            !old(self)@.has_folder(
                crate::paths::child_path(old(self)@.folders[j as int].rel_path, name@),
            ),
            stable_id@.len() > 0,
            !old(self)@.has_stable_id(stable_id@),
            old(self).next_doc_id < i64::MAX,
        ensures
            final(self)@ == with_doc(
                old(self)@,
                new_doc_row(
                    old(self)@,
                    old(self)@.folders[j as int],
                    name@,
                    description@,
                    stable_id@,
                    ts@,
                ),
            ),
            final(self)@.wf(),
    {
        let ghost before = self@;
        let root = chars_of(self.root.as_str());
        let folder_rel = chars_of(self.folders[j].rel_path.as_str());
        let rel = child_chars(&folder_rel, name);
        let row = Doc {
            id: self.next_doc_id,
            folder_id: self.folders[j].id,
            name: string_of(name),
            abs_path: string_of(&abs_chars(&root, &rel)),
            rel_path: string_of(&rel),
            description: description.to_owned(),
            stable_id: stable_id.to_owned(),
            created_at: ts.to_owned(),
            updated_at: ts.to_owned(),
        };
        let ghost spec_row = new_doc_row(
            before,
            before.folders[j as int],
            name@,
            description@,
            stable_id@,
            ts@,
        );
        assert(row@ == spec_row);
        self.docs.push(row);
        self.next_doc_id = self.next_doc_id + 1;
        assert(self@.docs =~= before.docs.push(spec_row));
        proof {
            lemma_with_doc(before, j as int, name@, description@, stable_id@, ts@);
        }
    }

    /// Places the document row `i` in the folder row `j` under `name`.
    pub fn relocate_doc(&mut self, i: usize, j: usize, name: &Vec<char>, ts: &str)
        requires
            old(self)@.wf(),
            i < old(self).docs.len(),
            j < old(self).folders.len(),
            is_segment(name@),
            !old(self)@.has_doc(
                crate::paths::child_path(old(self)@.folders[j as int].rel_path, name@),
            ),
            !old(self)@.has_folder(
                crate::paths::child_path(old(self)@.folders[j as int].rel_path, name@),
            ),
        ensures
            final(self)@ == with_doc_at(
                old(self)@,
                i as int,
                relocated_doc(
                    old(self)@.root,
                    old(self)@.docs[i as int],
                    old(self)@.folders[j as int],
                    name@,
                    ts@,
                ),
            ),
            final(self)@.wf(),
    {
        let ghost before = self@;
        let root = chars_of(self.root.as_str());
        let folder_rel = chars_of(self.folders[j].rel_path.as_str());
        let rel = child_chars(&folder_rel, name);
        let d = &self.docs[i];
        let row = Doc {
            id: d.id,
            folder_id: self.folders[j].id,
            name: string_of(name),
            abs_path: string_of(&abs_chars(&root, &rel)),
            rel_path: string_of(&rel),
            description: d.description.clone(),
            stable_id: d.stable_id.clone(),
            created_at: d.created_at.clone(),
            updated_at: ts.to_owned(),
        };
        let ghost spec_row = relocated_doc(
            before.root,
            before.docs[i as int],
            before.folders[j as int],
            name@,
            ts@,
        );
        assert(row@ == spec_row);
        self.docs.set(i, row);
        assert(self@.docs =~= before.docs.update(i as int, spec_row));
        proof {
            lemma_doc_relocated(before, i as int, j as int, name@, ts@);
        }
    }

    /// Replaces the description, the time of the last change, or both, of
    /// the document row `i`.
    pub fn touch_doc(&mut self, i: usize, description: Option<&str>, updated_at: Option<&str>)
        requires
            old(self)@.wf(),
            i < old(self).docs.len(),
        ensures
            final(self)@ == with_doc_at(
                old(self)@,
                i as int,
                touched_doc(old(self)@.docs[i as int], description, updated_at),
            ),
            final(self)@.wf(),
            final(self).docs.len() == old(self).docs.len(),
    {
        let ghost before = self@;
        let d = &self.docs[i];
        let row = Doc {
            id: d.id,
            folder_id: d.folder_id,
            name: d.name.clone(),
            rel_path: d.rel_path.clone(),
            abs_path: d.abs_path.clone(),
            description: match description {
                Some(text) => text.to_owned(),
                None => d.description.clone(),
            },
            stable_id: d.stable_id.clone(),
            created_at: d.created_at.clone(),
            updated_at: match updated_at {
                Some(text) => text.to_owned(),
                None => d.updated_at.clone(),
            },
        };
        let ghost spec_row = touched_doc(before.docs[i as int], description, updated_at);
        assert(row@ == spec_row);
        self.docs.set(i, row);
        assert(self@.docs =~= before.docs.update(i as int, spec_row));
        proof {
            lemma_doc_touched(before, i as int, spec_row);
        }
    }

    /// Removes the document row `i`.
    pub fn delete_doc(&mut self, i: usize)
        requires
            old(self)@.wf(),
            i < old(self).docs.len(),
        ensures
            final(self)@ == without_doc(old(self)@, i as int),
            final(self)@.wf(),
    {
        let ghost before = self@;
        let gone = self.docs.remove(i);
        assert(self@.docs =~= before.docs.remove(i as int));
        proof {
            lemma_without_doc(before, i as int);
        }
    }
}

} // verus!
