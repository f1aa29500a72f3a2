//! Listings of the catalog: folders, documents, manifests.

use crate::catalog::{lemma_folder_index, CatalogView};
use crate::error::{CoreError, ErrorKind};
use crate::model::{
    doc_views, folder_views, manifest_of, manifest_views, Doc, DocManifestEntry, DocView, Folder,
    FolderView,
};
use crate::order::{index_views, is_sorted_by, is_sorted_order, key_views, sorted_order};
use crate::paths::{is_under, is_under_chars, normalize_folder_path, normalized};
use crate::service::{folder_not_found, folder_not_found_text, refuse, OpenContext};
use crate::text::chars_of;
use vstd::prelude::*;

verus! {

/// The folder rows that `list_folders` selects: all of them, or those
/// directly below the root.
pub open spec fn listed_folders(c: CatalogView, all: bool) -> Seq<FolderView> {
    if all {
        c.folders
    } else {
        c.folders.filter(|f: FolderView| f.parent_id is None)
    }
}

/// The text by which `list_folders` orders: the path, or the name for
/// the folders directly below the root.
pub open spec fn folder_key(all: bool) -> spec_fn(FolderView) -> Seq<char> {
    |f: FolderView|
        if all {
            f.rel_path
        } else {
            f.name
        }
}

/// The document rows that `list_docs` selects: those below the folder,
/// or those directly inside it. Below the root, which is the empty path,
/// lie all documents; directly inside it lies none, since every document
/// row belongs to a folder row.
pub open spec fn listed_docs(c: CatalogView, folder: Seq<char>, recursive: bool) -> Seq<DocView> {
    if folder.len() == 0 {
        if recursive {
            c.docs
        } else {
            Seq::empty()
        }
    } else if recursive {
        c.docs.filter(|d: DocView| is_under(folder, d.rel_path))
    } else {
        c.docs.filter(|d: DocView| d.folder_id == c.folder_at(folder).id)
    }
}

/// The text by which `list_docs` orders: the path, or the name for the
/// documents of one folder.
pub open spec fn doc_key(recursive: bool) -> spec_fn(DocView) -> Seq<char> {
    |d: DocView|
        if recursive {
            d.rel_path
        } else {
            d.name
        }
}

/// Why a listing of the folder `folder_path` is refused, if it is: the
/// root can always be listed, any other folder only where it has a row.
pub open spec fn folder_lookup_refusal(c: CatalogView, folder_path: Seq<char>) -> Option<
    (ErrorKind, Seq<char>),
> {
    let folder = normalized(folder_path);
    if folder.len() > 0 && !c.has_folder(folder) {
        Some((ErrorKind::NotFound, folder_not_found_text(folder)))
    } else {
        None
    }
}

/// Why `generate_manifest` refuses, if it does.
pub open spec fn manifest_refusal(
    c: CatalogView,
    folder_path: Seq<char>,
    limit: Option<usize>,
) -> Option<(ErrorKind, Seq<char>)> {
    if limit == Some(0usize) {
        Some((ErrorKind::InvalidInput, "limit must be a positive integer"@))
    } else {
        folder_lookup_refusal(c, folder_path)
    }
}

/// The first `limit` elements of `rows`, or all of them.
pub open spec fn limited<T>(rows: Seq<T>, limit: Option<usize>) -> Seq<T> {
    match limit {
        Some(n) => if n < rows.len() {
            rows.subrange(0, n as int)
        } else {
            rows
        },
        None => rows,
    }
}

/// `rows` by ascending path or name, rows of equal key in their old order.
fn sort_folders(rows: Vec<Folder>, all: bool) -> (out: Vec<Folder>)
    ensures
        is_sorted_by(folder_views(out@), folder_views(rows@), folder_key(all)),
{
    let ghost input = folder_views(rows@);
    let ghost key = folder_key(all);
    let mut keys: Vec<Vec<char>> = Vec::new();
    let mut i: usize = 0;
    while i < rows.len()
        invariant
            i <= rows.len(),
            input == folder_views(rows@),
            key == folder_key(all),
            keys.len() == i,
            forall|k: int| 0 <= k < i ==> (#[trigger] keys@[k])@ == key(input[k]),
        decreases rows.len() - i,
    {
        if all {
            keys.push(chars_of(rows[i].rel_path.as_str()));
        } else {
            keys.push(chars_of(rows[i].name.as_str()));
        }
        i = i + 1;
    }
    assert(key_views(keys@) =~= input.map_values(key));
    let order = sorted_order(&keys);
    let ghost perm = index_views(order@);
    let mut out: Vec<Folder> = Vec::new();
    let mut a: usize = 0;
    while a < order.len()
        invariant
            a <= order.len(),
            order.len() == rows.len(),
            input == folder_views(rows@),
            perm == index_views(order@),
            is_sorted_order(perm, input.map_values(key)),
            out.len() == a,
            forall|k: int| 0 <= k < a ==> (#[trigger] out@[k])@ == input[perm[k]],
        decreases order.len() - a,
    {
        assert(0 <= perm[a as int] < input.len());
        out.push(rows[order[a]].clone());
        a = a + 1;
    }
    assert(is_sorted_order(perm, input.map_values(key)));
    out
}

/// `rows` by ascending path or name, rows of equal key in their old order.
fn sort_docs(rows: Vec<Doc>, recursive: bool) -> (out: Vec<Doc>)
    ensures
        is_sorted_by(doc_views(out@), doc_views(rows@), doc_key(recursive)),
{
    let ghost input = doc_views(rows@);
    let ghost key = doc_key(recursive);
    let mut keys: Vec<Vec<char>> = Vec::new();
    let mut i: usize = 0;
    while i < rows.len()
        invariant
            i <= rows.len(),
            input == doc_views(rows@),
            key == doc_key(recursive),
            keys.len() == i,
            forall|k: int| 0 <= k < i ==> (#[trigger] keys@[k])@ == key(input[k]),
        decreases rows.len() - i,
    {
        if recursive {
            keys.push(chars_of(rows[i].rel_path.as_str()));
        } else {
            keys.push(chars_of(rows[i].name.as_str()));
        }
        i = i + 1;
    }
    assert(key_views(keys@) =~= input.map_values(key));
    let order = sorted_order(&keys);
    let ghost perm = index_views(order@);
    let mut out: Vec<Doc> = Vec::new();
    let mut a: usize = 0;
    while a < order.len()
        invariant
            a <= order.len(),
            order.len() == rows.len(),
            input == doc_views(rows@),
            perm == index_views(order@),
            is_sorted_order(perm, input.map_values(key)),
            out.len() == a,
            forall|k: int| 0 <= k < a ==> (#[trigger] out@[k])@ == input[perm[k]],
        decreases order.len() - a,
    {
        assert(0 <= perm[a as int] < input.len());
        out.push(rows[order[a]].clone());
        a = a + 1;
    }
    assert(is_sorted_order(perm, input.map_values(key)));
    out
}

impl OpenContext {
    /// The folders in the order of their paths, or, without `all`, the
    /// folders directly below the root in the order of their names.
    pub fn list_folders(&self, all: bool) -> (r: Result<Vec<Folder>, CoreError>)
        ensures
            r is Ok,
            is_sorted_by(folder_views(r->Ok_0@), listed_folders(self@, all), folder_key(all)),
    {
        proof {
            self.lemma_view();
        }
        let ghost c = self@;
        let ghost top = |f: FolderView| f.parent_id is None;
        let mut rows: Vec<Folder> = Vec::new();
        let mut i: usize = 0;
        proof {
            reveal(Seq::filter);
            assert(c.folders.subrange(0, 0) =~= Seq::<FolderView>::empty());
            assert(folder_views(rows@) =~= Seq::<FolderView>::empty());
        }
        while i < self.state.folders.len()
            invariant
                i <= self.state.folders.len(),
                c == self@,
                c == self.state@,
                top == |f: FolderView| f.parent_id is None,
                folder_views(rows@) == if all {
                    c.folders.subrange(0, i as int)
                } else {
                    c.folders.subrange(0, i as int).filter(top)
                },
            decreases self.state.folders.len() - i,
        {
            let f = &self.state.folders[i];
            assert(f@ == c.folders[i as int]);
            let ghost head = c.folders.subrange(0, i + 1);
            assert(head.drop_last() == c.folders.subrange(0, i as int));
            assert(head.last() == c.folders[i as int]);
            proof {
                reveal(Seq::filter);
            }
            let ghost prev = folder_views(rows@);
            if all || f.parent_id.is_none() {
                rows.push(f.clone());
                assert(folder_views(rows@) =~= prev.push(c.folders[i as int]));
                assert(head =~= c.folders.subrange(0, i as int).push(c.folders[i as int]));
            }
            i = i + 1;
        }
        assert(c.folders.subrange(0, c.folders.len() as int) =~= c.folders);
        Ok(sort_folders(rows, all))
    }

    /// The documents below the folder `folder_path` in the order of
    /// their paths, or, without `recursive`, the documents directly inside
    /// it in the order of their names.
    pub fn list_docs(&self, folder_path: &str, recursive: bool) -> (r: Result<Vec<Doc>, CoreError>)
        ensures
            match r {
                Ok(docs) => {
                    &&& folder_lookup_refusal(self@, folder_path@) is None
                    &&& is_sorted_by(
                        doc_views(docs@),
                        listed_docs(self@, normalized(folder_path@), recursive),
                        doc_key(recursive),
                    )
                },
                Err(e) => folder_lookup_refusal(self@, folder_path@) == Some((e.kind(), e.text())),
            },
    {
        proof {
            use_type_invariant(self);
        }
        match self.select_docs(folder_path, recursive) {
            Ok(rows) => Ok(sort_docs(rows, recursive)),
            Err(e) => Err(e),
        }
    }

    /// The documents that `list_docs` selects, in catalog order.
    fn select_docs(&self, folder_path: &str, recursive: bool) -> (r: Result<Vec<Doc>, CoreError>)
        ensures
            match r {
                Ok(docs) => {
                    &&& folder_lookup_refusal(self@, folder_path@) is None
                    &&& doc_views(docs@) == listed_docs(
                        self@,
                        normalized(folder_path@),
                        recursive,
                    )
                },
                Err(e) => folder_lookup_refusal(self@, folder_path@) == Some((e.kind(), e.text())),
            },
    {
        proof {
            use_type_invariant(self);
            self.lemma_view();
        }
        let ghost c = self@;
        let folder_text = match normalize_folder_path(Some(folder_path)) {
            Ok(p) => p,
            Err(e) => {
                return Err(e);
            },
        };
        let folder = chars_of(folder_text.as_str());
        if folder.len() == 0 {
            return Ok(self.root_docs(recursive));
        }
        let j = match self.state.find_folder(&folder) {
            Some(j) => j,
            None => {
                return Err(folder_not_found(&folder));
            },
        };
        proof {
            lemma_folder_index(c, j as int);
        }
        let id = self.state.folders[j].id;
        let ghost under = |d: DocView| is_under(folder@, d.rel_path);
        let ghost inside = |d: DocView| d.folder_id == c.folder_at(folder@).id;
        let mut rows: Vec<Doc> = Vec::new();
        let mut i: usize = 0;
        proof {
            reveal(Seq::filter);
            assert(c.docs.subrange(0, 0) =~= Seq::<DocView>::empty());
            assert(doc_views(rows@) =~= Seq::<DocView>::empty());
        }
        while i < self.state.docs.len()
            invariant
                i <= self.state.docs.len(),
                c == self@,
                c == self.state@,
                id == c.folder_at(folder@).id,
                under == |d: DocView| is_under(folder@, d.rel_path),
                inside == |d: DocView| d.folder_id == c.folder_at(folder@).id,
                doc_views(rows@) == if recursive {
                    c.docs.subrange(0, i as int).filter(under)
                } else {
                    c.docs.subrange(0, i as int).filter(inside)
                },
            decreases self.state.docs.len() - i,
        {
            let d = &self.state.docs[i];
            assert(d@ == c.docs[i as int]);
            let ghost head = c.docs.subrange(0, i + 1);
            assert(head.drop_last() == c.docs.subrange(0, i as int));
            assert(head.last() == c.docs[i as int]);
            proof {
                reveal(Seq::filter);
            }
            let ghost prev = doc_views(rows@);
            let keep = if recursive {
                is_under_chars(&folder, &chars_of(d.rel_path.as_str()))
            } else {
                d.folder_id == id
            };
            if keep {
                rows.push(d.clone());
                assert(doc_views(rows@) =~= prev.push(c.docs[i as int]));
            }
            i = i + 1;
        }
        assert(c.docs.subrange(0, c.docs.len() as int) =~= c.docs);
        Ok(rows)
    }

    /// The documents that a listing of the root selects: all of them, or,
    /// directly inside the root, none.
    fn root_docs(&self, recursive: bool) -> (rows: Vec<Doc>)
        ensures
            doc_views(rows@) == listed_docs(self@, Seq::empty(), recursive),
    {
        proof {
            self.lemma_view();
        }
        let mut rows: Vec<Doc> = Vec::new();
        if recursive {
            let mut i: usize = 0;
            while i < self.state.docs.len()
                invariant
                    i <= self.state.docs.len(),
                    rows.len() == i,
                    forall|k: int| 0 <= k < i ==> (#[trigger] rows@[k])@ == self.state.docs@[k]@,
                decreases self.state.docs.len() - i,
            {
                rows.push(self.state.docs[i].clone());
                i = i + 1;
            }
            assert(doc_views(rows@) =~= self@.docs);
        } else {
            assert(doc_views(rows@) =~= Seq::<DocView>::empty());
        }
        rows
    }

    /// One line for each document below the folder `folder_path`, in the
    /// order of their paths; at most `limit` lines where a limit is given.
    pub fn generate_manifest(&self, folder_path: &str, limit: Option<usize>) -> (r: Result<
        Vec<DocManifestEntry>,
        CoreError,
    >)
        ensures
            match r {
                Ok(lines) => {
                    &&& manifest_refusal(self@, folder_path@, limit) is None
                    &&& exists|docs: Seq<DocView>|
                        {
                            &&& #[trigger] is_sorted_by(
                                docs,
                                listed_docs(self@, normalized(folder_path@), true),
                                doc_key(true),
                            )
                            &&& manifest_views(lines@) == limited(docs, limit).map_values(
                                |d: DocView| manifest_of(d),
                            )
                        }
                },
                Err(e) => manifest_refusal(self@, folder_path@, limit) == Some(
                    (e.kind(), e.text()),
                ),
            },
    {
        match limit {
            Some(n) => {
                if n == 0 {
                    return Err(
                        refuse(
                            ErrorKind::InvalidInput,
                            "limit must be a positive integer".to_owned(),
                        ),
                    );
                }
            },
            None => {},
        }
        let docs = match self.list_docs(folder_path, true) {
            Ok(docs) => docs,
            Err(e) => {
                return Err(e);
            },
        };
        let count = match limit {
            Some(n) => if n < docs.len() {
                n
            } else {
                docs.len()
            },
            None => docs.len(),
        };
        let mut lines: Vec<DocManifestEntry> = Vec::new();
        let mut i: usize = 0;
        while i < count
            invariant
                i <= count <= docs.len(),
                lines.len() == i,
                forall|k: int| 0 <= k < i ==> (#[trigger] lines@[k])@ == manifest_of(docs@[k]@),
            decreases count - i,
        {
            lines.push(docs[i].manifest_entry());
            i = i + 1;
        }
        assert(manifest_views(lines@) =~= limited(doc_views(docs@), limit).map_values(
            |d: DocView| manifest_of(d),
        ));
        Ok(lines)
    }
}

} // verus!
