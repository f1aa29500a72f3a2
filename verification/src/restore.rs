//! Taking up a catalog from rows that were kept elsewhere. The rows are
//! checked against every condition that the catalog maintains, so that a
//! catalog that is taken up is as good as one that was never put down.

use crate::catalog::{doc_row_ok, folder_row_ok, CatalogView};
use crate::error::{CoreError, ErrorKind};
use crate::model::{doc_views, folder_views, Doc, DocView, EnvInfo, Folder, FolderView};
use crate::paths::{double_slash_at, abs_chars, is_rel_path, last_segment_chars, parent_chars, parent_of};
use crate::service::{refuse, OpenContext};
use crate::stable_id::{generate_stable_id, stable_id_of};
use crate::store::Catalog;
use crate::text::{chars_of, same_chars};
use vstd::prelude::*;

verus! {

/// The largest identifier among folder rows, or 0.
pub open spec fn max_folder_id(rows: Seq<FolderView>) -> int
    decreases rows.len(),
{
    if rows.len() == 0 {
        0
    } else if rows.last().id > max_folder_id(rows.drop_last()) {
        rows.last().id
    } else {
        max_folder_id(rows.drop_last())
    }
}

/// The largest identifier among document rows, or 0.
pub open spec fn max_doc_id(rows: Seq<DocView>) -> int
    decreases rows.len(),
{
    if rows.len() == 0 {
        0
    } else if rows.last().id > max_doc_id(rows.drop_last()) {
        rows.last().id
    } else {
        max_doc_id(rows.drop_last())
    }
}

/// The catalog that the rows stand for. The next identifiers follow the
/// largest ones in use.
pub open spec fn restored(root: Seq<char>, folders: Seq<FolderView>, docs: Seq<DocView>) -> CatalogView {
    CatalogView {
        root,
        folders,
        docs,
        next_folder_id: max_folder_id(folders) + 1,
        next_doc_id: max_doc_id(docs) + 1,
    }
}

/// No identifier among folder rows is above the largest.
proof fn lemma_max_folder_id(rows: Seq<FolderView>)
    ensures
        forall|i: int| 0 <= i < rows.len() ==> (#[trigger] rows[i]).id <= max_folder_id(rows),
        max_folder_id(rows) >= 0,
    decreases rows.len(),
{
    if rows.len() > 0 {
        lemma_max_folder_id(rows.drop_last());
        assert forall|i: int| 0 <= i < rows.len() implies (#[trigger] rows[i]).id <= max_folder_id(
            rows,
        ) by {
            if i < rows.len() - 1 {
                assert(rows.drop_last()[i] == rows[i]);
            }
        }
    }
}

/// No identifier among document rows is above the largest.
proof fn lemma_max_doc_id(rows: Seq<DocView>)
    ensures
        forall|i: int| 0 <= i < rows.len() ==> (#[trigger] rows[i]).id <= max_doc_id(rows),
        max_doc_id(rows) >= 0,
    decreases rows.len(),
{
    if rows.len() > 0 {
        lemma_max_doc_id(rows.drop_last());
        assert forall|i: int| 0 <= i < rows.len() implies (#[trigger] rows[i]).id <= max_doc_id(
            rows,
        ) by {
            if i < rows.len() - 1 {
                assert(rows.drop_last()[i] == rows[i]);
            }
        }
    }
}

/// Whether `p` is a relative path below the root.
pub fn is_rel_path_chars(p: &Vec<char>) -> (r: bool)
    ensures
        r == is_rel_path(p@),
{
    let n = p.len();
    if n == 0 || p[0] == '/' || p[n - 1] == '/' {
        return false;
    }
    let mut i: usize = 0;
    while i + 1 < n
        invariant
            n == p.len(),
            i + 1 <= n,
            forall|k: int| 0 <= k < i ==> !#[trigger] double_slash_at(p@, k),
        decreases n - i,
    {
        if p[i] == '/' && p[i + 1] == '/' {
            assert(double_slash_at(p@, i as int));
            return false;
        }
        i = i + 1;
    }
    true
}

/// Whether no two of `keys` are the same text.
fn all_distinct(keys: &Vec<Vec<char>>) -> (r: bool)
    ensures
        r == forall|i: int, j: int|
            0 <= i < keys.len() && 0 <= j < keys.len() && i != j ==> (#[trigger] keys@[i])@ != (
            #[trigger] keys@[j])@,
{
    let mut i: usize = 0;
    while i < keys.len()
        invariant
            i <= keys.len(),
            forall|a: int, b: int|
                0 <= a < i && 0 <= b < a ==> (#[trigger] keys@[a])@ != (#[trigger] keys@[b])@,
        decreases keys.len() - i,
    {
        let mut j: usize = 0;
        while j < i
            invariant
                j <= i < keys.len(),
                forall|b: int| 0 <= b < j ==> (#[trigger] keys@[b])@ != keys@[i as int]@,
            decreases i - j,
        {
            if same_chars(&keys[i], &keys[j]) {
                return false;
            }
            j = j + 1;
        }
        i = i + 1;
    }
    assert forall|a: int, b: int|
        0 <= a < keys.len() && 0 <= b < keys.len() && a != b implies (#[trigger] keys@[a])@ != (
    #[trigger] keys@[b])@ by {
        if b < a {
        } else {
            assert(keys@[b]@ != keys@[a]@);
        }
    }
    true
}

/// Whether no two of `ids` are the same.
fn ids_distinct(ids: &Vec<i64>) -> (r: bool)
    ensures
        r == forall|i: int, j: int|
            0 <= i < ids.len() && 0 <= j < ids.len() && i != j ==> #[trigger] ids@[i]
                != #[trigger] ids@[j],
{
    let mut i: usize = 0;
    while i < ids.len()
        invariant
            i <= ids.len(),
            forall|a: int, b: int| 0 <= a < i && 0 <= b < a ==> #[trigger] ids@[a] != #[trigger] ids@[b],
        decreases ids.len() - i,
    {
        let mut j: usize = 0;
        while j < i
            invariant
                j <= i < ids.len(),
                forall|b: int| 0 <= b < j ==> #[trigger] ids@[b] != ids@[i as int],
            decreases i - j,
        {
            if ids[i] == ids[j] {
                return false;
            }
            j = j + 1;
        }
        i = i + 1;
    }
    assert forall|a: int, b: int|
        0 <= a < ids.len() && 0 <= b < ids.len() && a != b implies #[trigger] ids@[a]
        != #[trigger] ids@[b] by {
        if b < a {
        } else {
            assert(ids@[b] != ids@[a]);
        }
    }
    true
}

impl Catalog {
    /// Whether every identifier is positive and below the next one, and
    /// none is shared.
    fn check_ids(&self) -> (r: bool)
        ensures
            r == self@.ids_ok(),
    {
        if self.next_folder_id < 1 || self.next_doc_id < 1 {
            return false;
        }
        let mut folder_ids: Vec<i64> = Vec::new();
        let mut i: usize = 0;
        while i < self.folders.len()
            invariant
                i <= self.folders.len(),
                folder_ids.len() == i,
                forall|k: int| 0 <= k < i ==> #[trigger] folder_ids@[k] == self.folders@[k].id,
                forall|k: int|
                    0 <= k < i ==> 0 < (#[trigger] self@.folders[k]).id < self@.next_folder_id,
            decreases self.folders.len() - i,
        {
            let id = self.folders[i].id;
            if id <= 0 || id >= self.next_folder_id {
                assert(!(0 < self@.folders[i as int].id < self@.next_folder_id));
                return false;
            }
            folder_ids.push(id);
            i = i + 1;
        }
        let mut doc_ids: Vec<i64> = Vec::new();
        let mut k: usize = 0;
        while k < self.docs.len()
            invariant
                k <= self.docs.len(),
                doc_ids.len() == k,
                forall|a: int| 0 <= a < k ==> #[trigger] doc_ids@[a] == self.docs@[a].id,
                forall|a: int| 0 <= a < k ==> 0 < (#[trigger] self@.docs[a]).id < self@.next_doc_id,
            decreases self.docs.len() - k,
        {
            let id = self.docs[k].id;
            if id <= 0 || id >= self.next_doc_id {
                assert(!(0 < self@.docs[k as int].id < self@.next_doc_id));
                return false;
            }
            doc_ids.push(id);
            k = k + 1;
        }
        let folders_ok = ids_distinct(&folder_ids);
        let docs_ok = ids_distinct(&doc_ids);
        proof {
            if folders_ok {
                assert forall|a: int, b: int|
                    0 <= a < self@.folders.len() && 0 <= b < self@.folders.len() && a
                        != b implies (#[trigger] self@.folders[a]).id != (
                #[trigger] self@.folders[b]).id by {
                    assert(folder_ids@[a] != folder_ids@[b]);
                }
            } else {
                let (a, b) = choose|a: int, b: int|
                    0 <= a < folder_ids.len() && 0 <= b < folder_ids.len() && a != b && !(
                    #[trigger] folder_ids@[a] != #[trigger] folder_ids@[b]);
                assert(self@.folders[a].id == self@.folders[b].id);
            }
            if docs_ok {
                assert forall|a: int, b: int|
                    0 <= a < self@.docs.len() && 0 <= b < self@.docs.len() && a != b implies (
                #[trigger] self@.docs[a]).id != (#[trigger] self@.docs[b]).id by {
                    assert(doc_ids@[a] != doc_ids@[b]);
                }
            } else {
                let (a, b) = choose|a: int, b: int|
                    0 <= a < doc_ids.len() && 0 <= b < doc_ids.len() && a != b && !(
                    #[trigger] doc_ids@[a] != #[trigger] doc_ids@[b]);
                assert(self@.docs[a].id == self@.docs[b].id);
            }
        }
        folders_ok && docs_ok
    }

    /// Whether no two rows share a path or a stable identifier.
    fn check_unique(&self) -> (r: bool)
        ensures
            r == self@.unique_ok(),
    {
        let mut folder_paths: Vec<Vec<char>> = Vec::new();
        let mut i: usize = 0;
        while i < self.folders.len()
            invariant
                i <= self.folders.len(),
                folder_paths.len() == i,
                forall|k: int|
                    0 <= k < i ==> (#[trigger] folder_paths@[k])@ == self@.folders[k].rel_path,
            decreases self.folders.len() - i,
        {
            folder_paths.push(chars_of(self.folders[i].rel_path.as_str()));
            i = i + 1;
        }
        let mut doc_paths: Vec<Vec<char>> = Vec::new();
        let mut stable_ids: Vec<Vec<char>> = Vec::new();
        let mut k: usize = 0;
        while k < self.docs.len()
            invariant
                k <= self.docs.len(),
                doc_paths.len() == k,
                stable_ids.len() == k,
                forall|a: int| 0 <= a < k ==> (#[trigger] doc_paths@[a])@ == self@.docs[a].rel_path,
                forall|a: int|
                    0 <= a < k ==> (#[trigger] stable_ids@[a])@ == self@.docs[a].stable_id,
            decreases self.docs.len() - k,
        {
            doc_paths.push(chars_of(self.docs[k].rel_path.as_str()));
            stable_ids.push(chars_of(self.docs[k].stable_id.as_str()));
            k = k + 1;
        }
        let a_ok = all_distinct(&folder_paths);
        let b_ok = all_distinct(&doc_paths);
        let c_ok = all_distinct(&stable_ids);
        proof {
            if a_ok {
                assert forall|a: int, b: int|
                    0 <= a < self@.folders.len() && 0 <= b < self@.folders.len() && a
                        != b implies (#[trigger] self@.folders[a]).rel_path != (
                #[trigger] self@.folders[b]).rel_path by {
                    assert(folder_paths@[a]@ != folder_paths@[b]@);
                }
            } else {
                let (a, b) = choose|a: int, b: int|
                    0 <= a < folder_paths.len() && 0 <= b < folder_paths.len() && a != b && !((
                    #[trigger] folder_paths@[a])@ != (#[trigger] folder_paths@[b])@);
                assert(self@.folders[a].rel_path == self@.folders[b].rel_path);
            }
            if b_ok {
                assert forall|a: int, b: int|
                    0 <= a < self@.docs.len() && 0 <= b < self@.docs.len() && a != b implies (
                #[trigger] self@.docs[a]).rel_path != (#[trigger] self@.docs[b]).rel_path by {
                    assert(doc_paths@[a]@ != doc_paths@[b]@);
                }
            } else {
                let (a, b) = choose|a: int, b: int|
                    0 <= a < doc_paths.len() && 0 <= b < doc_paths.len() && a != b && !((
                    #[trigger] doc_paths@[a])@ != (#[trigger] doc_paths@[b])@);
                assert(self@.docs[a].rel_path == self@.docs[b].rel_path);
            }
            if c_ok {
                assert forall|a: int, b: int|
                    0 <= a < self@.docs.len() && 0 <= b < self@.docs.len() && a != b implies (
                #[trigger] self@.docs[a]).stable_id != (#[trigger] self@.docs[b]).stable_id by {
                    assert(stable_ids@[a]@ != stable_ids@[b]@);
                }
            } else {
                let (a, b) = choose|a: int, b: int|
                    0 <= a < stable_ids.len() && 0 <= b < stable_ids.len() && a != b && !((
                    #[trigger] stable_ids@[a])@ != (#[trigger] stable_ids@[b])@);
                assert(self@.docs[a].stable_id == self@.docs[b].stable_id);
            }
        }
        a_ok && b_ok && c_ok
    }

    /// Whether every row agrees with its own path.
    fn check_rows(&self) -> (r: bool)
        ensures
            r == self@.rows_ok(),
    {
        let root = chars_of(self.root.as_str());
        let mut i: usize = 0;
        while i < self.folders.len()
            invariant
                i <= self.folders.len(),
                root@ == self@.root,
                forall|k: int| 0 <= k < i ==> folder_row_ok(self@.root, #[trigger] self@.folders[k]),
            decreases self.folders.len() - i,
        {
            let f = &self.folders[i];
            let rel = chars_of(f.rel_path.as_str());
            let ok = is_rel_path_chars(&rel) && same_chars(
                &chars_of(f.name.as_str()),
                &last_segment_chars(&rel),
            ) && same_chars(&chars_of(f.abs_path.as_str()), &abs_chars(&root, &rel));
            if !ok {
                assert(!folder_row_ok(self@.root, self@.folders[i as int]));
                return false;
            }
            i = i + 1;
        }
        let mut k: usize = 0;
        while k < self.docs.len()
            invariant
                k <= self.docs.len(),
                root@ == self@.root,
                forall|a: int|
                    0 <= a < self.folders.len() ==> folder_row_ok(
                        self@.root,
                        #[trigger] self@.folders[a],
                    ),
                forall|a: int| 0 <= a < k ==> doc_row_ok(self@.root, #[trigger] self@.docs[a]),
            decreases self.docs.len() - k,
        {
            let d = &self.docs[k];
            let rel = chars_of(d.rel_path.as_str());
            let ok = is_rel_path_chars(&rel) && parent_chars(&rel).is_some() && same_chars(
                &chars_of(d.name.as_str()),
                &last_segment_chars(&rel),
            ) && same_chars(&chars_of(d.abs_path.as_str()), &abs_chars(&root, &rel))
                && d.stable_id.as_str().unicode_len() > 0;
            if !ok {
                assert(!doc_row_ok(self@.root, self@.docs[k as int]));
                return false;
            }
            k = k + 1;
        }
        true
    }

    /// Whether a folder row has the path `p` and the identifier `id`.
    fn has_folder_row(&self, p: &Vec<char>, id: i64) -> (r: bool)
        ensures
            r == exists|j: int|
                0 <= j < self@.folders.len() && (#[trigger] self@.folders[j]).rel_path == p@
                    && self@.folders[j].id == id,
    {
        let mut j: usize = 0;
        while j < self.folders.len()
            invariant
                j <= self.folders.len(),
                forall|a: int|
                    0 <= a < j ==> !((#[trigger] self@.folders[a]).rel_path == p@
                        && self@.folders[a].id == id),
            decreases self.folders.len() - j,
        {
            if self.folders[j].id == id && same_chars(
                &chars_of(self.folders[j].rel_path.as_str()),
                p,
            ) {
                assert(self@.folders[j as int].rel_path == p@ && self@.folders[j as int].id == id);
                return true;
            }
            j = j + 1;
        }
        false
    }

    /// Whether every row points to the row of the folder that holds it.
    fn check_links(&self) -> (r: bool)
        ensures
            r == self@.links_ok(),
    {
        let mut i: usize = 0;
        while i < self.folders.len()
            invariant
                i <= self.folders.len(),
                forall|k: int| 0 <= k < i ==> #[trigger] self@.folder_linked_at(k),
            decreases self.folders.len() - i,
        {
            let f = &self.folders[i];
            let ok = match parent_chars(&chars_of(f.rel_path.as_str())) {
                Some(p) => match f.parent_id {
                    Some(id) => {
                        let found = self.has_folder_row(&p, id);
                        proof {
                            if found {
                                let j = choose|j: int|
                                    0 <= j < self@.folders.len() && (
                                    #[trigger] self@.folders[j]).rel_path == p@
                                        && self@.folders[j].id == id;
                                assert(self@.folders[j].rel_path == p@ && f@.parent_id == Some(
                                    self@.folders[j].id,
                                ));
                            }
                        }
                        found
                    },
                    None => false,
                },
                None => f.parent_id.is_none(),
            };
            if !ok {
                assert(!self@.folder_linked_at(i as int));
                return false;
            }
            i = i + 1;
        }
        let mut k: usize = 0;
        while k < self.docs.len()
            invariant
                k <= self.docs.len(),
                forall|a: int|
                    0 <= a < self.folders.len() ==> #[trigger] self@.folder_linked_at(a),
                forall|a: int| 0 <= a < k ==> #[trigger] self@.doc_linked_at(a),
            decreases self.docs.len() - k,
        {
            let d = &self.docs[k];
            let ok = match parent_chars(&chars_of(d.rel_path.as_str())) {
                Some(p) => {
                    let found = self.has_folder_row(&p, d.folder_id);
                    proof {
                        if found {
                            let j = choose|j: int|
                                0 <= j < self@.folders.len() && (
                                #[trigger] self@.folders[j]).rel_path == p@ && self@.folders[j].id
                                    == d.folder_id;
                            assert(Some(self@.folders[j].rel_path) == parent_of(d@.rel_path)
                                && d@.folder_id == self@.folders[j].id);
                        }
                    }
                    found
                },
                None => false,
            };
            if !ok {
                assert(!self@.doc_linked_at(k as int));
                return false;
            }
            k = k + 1;
        }
        true
    }

    /// Whether no path is both a folder and a document.
    fn check_disjoint(&self) -> (r: bool)
        ensures
            r == self@.disjoint_ok(),
    {
        let mut j: usize = 0;
        while j < self.docs.len()
            invariant
                j <= self.docs.len(),
                forall|k: int|
                    0 <= k < j ==> !self@.has_folder((#[trigger] self@.docs[k]).rel_path),
            decreases self.docs.len() - j,
        {
            let path = chars_of(self.docs[j].rel_path.as_str());
            match self.find_folder(&path) {
                Some(i) => {
                    assert(self@.folders[i as int].rel_path == self@.docs[j as int].rel_path);
                    return false;
                },
                None => {},
            }
            j = j + 1;
        }
        assert forall|a: int, b: int|
            0 <= a < self@.folders.len() && 0 <= b < self@.docs.len() implies (
        #[trigger] self@.folders[a]).rel_path != (#[trigger] self@.docs[b]).rel_path by {
            assert(!self@.has_folder(self@.docs[b].rel_path));
        }
        true
    }

    /// Whether the catalog is well-formed.
    pub fn check(&self) -> (r: bool)
        ensures
            r == self@.wf(),
    {
        self.check_ids() && self.check_unique() && self.check_rows() && self.check_links()
            && self.check_disjoint()
    }
}

/// The largest identifier among folder rows, if the next one can follow it.
fn next_folder_id(rows: &Vec<Folder>) -> (r: Option<i64>)
    ensures
        match r {
            Some(next) => next == max_folder_id(folder_views(rows@)) + 1,
            None => max_folder_id(folder_views(rows@)) + 1 > i64::MAX,
        },
{
    let ghost all = folder_views(rows@);
    let mut max: i64 = 0;
    let mut i: usize = 0;
    assert(all.subrange(0, 0) =~= Seq::<FolderView>::empty());
    while i < rows.len()
        invariant
            i <= rows.len(),
            all == folder_views(rows@),
            max == max_folder_id(all.subrange(0, i as int)),
        decreases rows.len() - i,
    {
        assert(all.subrange(0, i + 1).drop_last() =~= all.subrange(0, i as int));
        assert(all.subrange(0, i + 1).last() == rows@[i as int]@);
        if rows[i].id > max {
            max = rows[i].id;
        }
        i = i + 1;
    }
    assert(all.subrange(0, rows.len() as int) =~= all);
    if max == i64::MAX {
        None
    } else {
        Some(max + 1)
    }
}

/// The largest identifier among document rows, if the next one can follow it.
fn next_doc_id(rows: &Vec<Doc>) -> (r: Option<i64>)
    ensures
        match r {
            Some(next) => next == max_doc_id(doc_views(rows@)) + 1,
            None => max_doc_id(doc_views(rows@)) + 1 > i64::MAX,
        },
{
    let ghost all = doc_views(rows@);
    let mut max: i64 = 0;
    let mut i: usize = 0;
    assert(all.subrange(0, 0) =~= Seq::<DocView>::empty());
    while i < rows.len()
        invariant
            i <= rows.len(),
            all == doc_views(rows@),
            max == max_doc_id(all.subrange(0, i as int)),
        decreases rows.len() - i,
    {
        assert(all.subrange(0, i + 1).drop_last() =~= all.subrange(0, i as int));
        assert(all.subrange(0, i + 1).last() == rows@[i as int]@);
        if rows[i].id > max {
            max = rows[i].id;
        }
        i = i + 1;
    }
    assert(all.subrange(0, rows.len() as int) =~= all);
    if max == i64::MAX {
        None
    } else {
        Some(max + 1)
    }
}

/// The number of rows before row `i` that lack a stable identifier.
pub open spec fn missing_before(docs: Seq<DocView>, i: int) -> int
    decreases i,
{
    if i <= 0 {
        0
    } else {
        missing_before(docs, i - 1) + if docs[i - 1].stable_id.len() == 0 {
            1int
        } else {
            0int
        }
    }
}

/// Whether every row that lacks a stable identifier finds sixteen
/// random bytes of its own in `random`.
pub open spec fn can_backfill(docs: Seq<DocView>, random: Seq<Vec<u8>>) -> bool {
    forall|i: int|
        0 <= i < docs.len() && (#[trigger] docs[i]).stable_id.len() == 0 ==> missing_before(docs, i)
            < random.len() && random[missing_before(docs, i)]@.len() == 16
}

/// Row `i` with a stable identifier: its own, or one made of the random
/// bytes that fall to it.
pub open spec fn backfilled_row(docs: Seq<DocView>, random: Seq<Vec<u8>>, i: int) -> DocView {
    if docs[i].stable_id.len() == 0 {
        DocView { stable_id: stable_id_of(random[missing_before(docs, i)]@), ..docs[i] }
    } else {
        docs[i]
    }
}

/// Gives every document row that lacks a stable identifier one made of
/// random bytes: the first such row of the first entry of `random`, the
/// second of the second, and so on. Rows that have one are left as they
/// are.
pub fn backfill_stable_ids(docs: Vec<Doc>, random: &Vec<Vec<u8>>) -> (r: Result<Vec<Doc>, CoreError>)
    ensures
        match r {
            Ok(rows) => {
                &&& can_backfill(doc_views(docs@), random@)
                &&& rows.len() == docs.len()
                &&& forall|i: int|
                    0 <= i < rows.len() ==> (#[trigger] rows@[i])@ == backfilled_row(
                        doc_views(docs@),
                        random@,
                        i,
                    )
            },
            Err(e) => {
                &&& !can_backfill(doc_views(docs@), random@)
                &&& e.is(ErrorKind::Store, "failed to generate stable_id"@)
            },
        },
{
    let ghost all = doc_views(docs@);
    let mut rows: Vec<Doc> = Vec::new();
    let mut used: usize = 0;
    let mut i: usize = 0;
    while i < docs.len()
        invariant
            i <= docs.len(),
            all == doc_views(docs@),
            rows.len() == i,
            used == missing_before(all, i as int),
            used <= i,
            forall|k: int|
                0 <= k < i && (#[trigger] all[k]).stable_id.len() == 0 ==> missing_before(all, k)
                    < random.len() && random@[missing_before(all, k)]@.len() == 16,
            forall|k: int| 0 <= k < i ==> (#[trigger] rows@[k])@ == backfilled_row(all, random@, k),
        decreases docs.len() - i,
    {
        let d = &docs[i];
        assert(d@ == all[i as int]);
        if d.stable_id.as_str().unicode_len() == 0 {
            if used >= random.len() {
                assert(!(missing_before(all, i as int) < random.len()));
                return Err(refuse(ErrorKind::Store, "failed to generate stable_id".to_owned()));
            }
            match generate_stable_id(&random[used]) {
                Ok(sid) => {
                    rows.push(
                        Doc {
                            id: d.id,
                            folder_id: d.folder_id,
                            name: d.name.clone(),
                            rel_path: d.rel_path.clone(),
                            abs_path: d.abs_path.clone(),
                            description: d.description.clone(),
                            stable_id: sid,
                            created_at: d.created_at.clone(),
                            updated_at: d.updated_at.clone(),
                        },
                    );
                    used = used + 1;
                },
                Err(e) => {
                    assert(random@[missing_before(all, i as int)]@.len() != 16);
                    return Err(e);
                },
            }
        } else {
            rows.push(d.clone());
        }
        i = i + 1;
    }
    Ok(rows)
}

impl OpenContext {
    /// The catalog that the rows `folders` and `docs` stand for. Rows
    /// that break a condition of the catalog are refused.
    pub fn restore(info: EnvInfo, folders: Vec<Folder>, docs: Vec<Doc>) -> (r: Result<
        OpenContext,
        CoreError,
    >)
        ensures
            match r {
                Ok(ctx) => {
                    &&& ctx@ == restored(
                        info.contexts_root@,
                        folder_views(folders@),
                        doc_views(docs@),
                    )
                    &&& ctx@.wf()
                    &&& ctx.store_path() == info.db_path@
                },
                Err(e) => {
                    &&& !restored(
                        info.contexts_root@,
                        folder_views(folders@),
                        doc_views(docs@),
                    ).wf()
                    &&& e.is(ErrorKind::Store, "catalog rows are inconsistent"@)
                },
            },
    {
        let first = next_folder_id(&folders);
        let second = next_doc_id(&docs);
        match (first, second) {
            (Some(next_folder_id), Some(next_doc_id)) => {
                let state = Catalog {
                    root: info.contexts_root,
                    folders,
                    docs,
                    next_folder_id,
                    next_doc_id,
                };
                if state.check() {
                    let ctx = OpenContext { state, db_path: info.db_path };
                    proof {
                        ctx.lemma_view();
                    }
                    Ok(ctx)
                } else {
                    Err(refuse(ErrorKind::Store, "catalog rows are inconsistent".to_owned()))
                }
            },
            _ => Err(refuse(ErrorKind::Store, "catalog rows are inconsistent".to_owned())),
        }
    }

    /// The folder rows, in catalog order.
    pub fn folders(&self) -> (rows: Vec<Folder>)
        ensures
            folder_views(rows@) == self@.folders,
    {
        proof {
            self.lemma_view();
        }
        let mut rows: Vec<Folder> = Vec::new();
        let mut i: usize = 0;
        while i < self.state.folders.len()
            invariant
                i <= self.state.folders.len(),
                rows.len() == i,
                forall|k: int| 0 <= k < i ==> (#[trigger] rows@[k])@ == self.state.folders@[k]@,
            decreases self.state.folders.len() - i,
        {
            rows.push(self.state.folders[i].clone());
            i = i + 1;
        }
        assert(folder_views(rows@) =~= self.state@.folders);
        rows
    }

    /// The document rows, in catalog order.
    pub fn docs(&self) -> (rows: Vec<Doc>)
        ensures
            doc_views(rows@) == self@.docs,
    {
        proof {
            self.lemma_view();
        }
        let mut rows: Vec<Doc> = Vec::new();
        let mut i: usize = 0;
        while i < self.state.docs.len()
            invariant
                i <= self.state.docs.len(),
                rows.len() == i,
                forall|k: int| 0 <= k < i ==> (#[trigger] rows@[k])@ == self.state.docs@[k]@,
            decreases self.state.docs.len() - i,
        {
            rows.push(self.state.docs[i].clone());
            i = i + 1;
        }
        assert(doc_views(rows@) =~= self.state@.docs);
        rows
    }
}

} // verus!
