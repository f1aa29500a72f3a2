//! What holds of the catalog operations taken together.

use crate::catalog::{
    affected_docs, can_move_subtree, doc_row_ok, docs_below, folder_row_ok, lemma_doc_index,
    lemma_doc_relocated, lemma_doc_touched, lemma_folder_index, lemma_nothing_below_missing,
    lemma_subtree_moved, lemma_subtree_removed, subtree_moved, subtree_removed, CatalogView,
};
use crate::model::{DocView, FolderView};
use crate::seqs::{kept_indices, lemma_kept_indices};
use crate::paths::{
    child_path, in_subtree, is_under, lemma_rebased_under, lemma_rel_path_parts,
    lemma_subtrees_apart, normalized, parent_of, rebased,
};
use crate::service::{
    doc_lookup_refusal, doc_moved, doc_renamed, doc_touched, folder_moved, folder_renamed,
    lemma_move_allowed, lemma_rename_allowed, move_doc_refusal, move_folder_refusal,
    move_folder_target, remove_folder_refusal, rename_doc_refusal, rename_folder_refusal,
    sibling_path,
};
use vstd::prelude::*;

verus! {

/// After the subtree of `from` has become the subtree of `to`, no folder
/// row lies in the subtree of `from` and no document row lies below it;
/// every row that did has the same place in the subtree of `to`; every
/// other row is as it was.
pub proof fn law_subtree_moved(
    c: CatalogView,
    from: Seq<char>,
    to: Seq<char>,
    parent_id: Option<int>,
    ts: Seq<char>,
)
    requires
        can_move_subtree(c, from, to, parent_id),
    ensures
        subtree_moved(c, from, to, parent_id, ts).wf(),
        subtree_moved(c, from, to, parent_id, ts).folders.len() == c.folders.len(),
        subtree_moved(c, from, to, parent_id, ts).docs.len() == c.docs.len(),
        forall|i: int|
            0 <= i < c.folders.len() ==> !in_subtree(
                from,
                (#[trigger] subtree_moved(c, from, to, parent_id, ts).folders[i]).rel_path,
            ),
        forall|i: int|
            0 <= i < c.docs.len() ==> !is_under(
                from,
                (#[trigger] subtree_moved(c, from, to, parent_id, ts).docs[i]).rel_path,
            ),
        !subtree_moved(c, from, to, parent_id, ts).has_folder(from),
        subtree_moved(c, from, to, parent_id, ts).has_folder(to),
        forall|i: int|
            0 <= i < c.folders.len() ==> (#[trigger] subtree_moved(
                c,
                from,
                to,
                parent_id,
                ts,
            ).folders[i]).rel_path == if c.folders[i].rel_path == from {
                to
            } else if is_under(from, c.folders[i].rel_path) {
                rebased(from, to, c.folders[i].rel_path)
            } else {
                c.folders[i].rel_path
            },
        forall|i: int|
            0 <= i < c.docs.len() ==> (#[trigger] subtree_moved(
                c,
                from,
                to,
                parent_id,
                ts,
            ).docs[i]).rel_path == if is_under(from, c.docs[i].rel_path) {
                rebased(from, to, c.docs[i].rel_path)
            } else {
                c.docs[i].rel_path
            },
        forall|i: int|
            0 <= i < c.folders.len() && !in_subtree(from, c.folders[i].rel_path)
                ==> #[trigger] subtree_moved(c, from, to, parent_id, ts).folders[i]
                == c.folders[i],
        forall|i: int|
            0 <= i < c.docs.len() && !is_under(from, c.docs[i].rel_path)
                ==> #[trigger] subtree_moved(c, from, to, parent_id, ts).docs[i] == c.docs[i],
        forall|i: int|
            0 <= i < c.docs.len() ==> (#[trigger] subtree_moved(
                c,
                from,
                to,
                parent_id,
                ts,
            ).docs[i]).stable_id == c.docs[i].stable_id,
{
    let c2 = subtree_moved(c, from, to, parent_id, ts);
    lemma_subtree_moved(c, from, to, parent_id, ts);
    lemma_nothing_below_missing(c, to);
    let fi = c.folder_index(from);
    assert(folder_row_ok(c.root, c.folders[fi]));
    assert forall|i: int| 0 <= i < c.folders.len() implies !in_subtree(
        from,
        (#[trigger] c2.folders[i]).rel_path,
    ) by {
        let q = c.folders[i].rel_path;
        let r = c2.folders[i].rel_path;
        if in_subtree(from, q) {
            if q != from {
                lemma_rebased_under(from, to, q);
            }
            assert(in_subtree(to, r));
            if in_subtree(from, r) {
                lemma_subtrees_apart(from, to, r);
                assert(in_subtree(to, from));
                assert(!in_subtree(to, c.folders[fi].rel_path));
            }
        }
    }
    assert forall|i: int| 0 <= i < c.docs.len() implies !is_under(
        from,
        (#[trigger] c2.docs[i]).rel_path,
    ) by {
        let q = c.docs[i].rel_path;
        let r = c2.docs[i].rel_path;
        if is_under(from, q) {
            lemma_rebased_under(from, to, q);
            if is_under(from, r) {
                lemma_subtrees_apart(from, to, r);
                assert(!in_subtree(to, c.folders[fi].rel_path));
            }
        }
    }
    if c2.has_folder(from) {
        let k = c2.folder_index(from);
        assert(!in_subtree(from, c2.folders[k].rel_path));
    }
    assert(c2.folders[fi].rel_path == to);
}

/// After a successful `rename_folder`, no row, of a folder or of a
/// document, is left at the old path or below it; every row that was there
/// has the same place in the subtree of the new path; every other row
/// is as it was. The event names exactly the documents below the old path.
pub proof fn law_rename_folder(c: CatalogView, path: Seq<char>, new_name: Seq<char>, ts: Seq<char>)
    requires
        c.wf(),
        rename_folder_refusal(c, path, new_name) is None,
    ensures
        can_move_subtree(
            c,
            normalized(path),
            sibling_path(normalized(path), new_name),
            c.folder_at(normalized(path)).parent_id,
        ),
        folder_renamed(c, path, new_name, ts).wf(),
        !folder_renamed(c, path, new_name, ts).has_folder(normalized(path)),
        folder_renamed(c, path, new_name, ts).has_folder(sibling_path(normalized(path), new_name)),
        forall|q: Seq<char>|
            in_subtree(normalized(path), q) ==> !folder_renamed(c, path, new_name, ts).has_folder(
                q,
            ) && !folder_renamed(c, path, new_name, ts).has_doc(q),
        forall|q: Seq<char>|
            is_under(normalized(path), q) && c.has_folder(q) ==> folder_renamed(
                c,
                path,
                new_name,
                ts,
            ).has_folder(rebased(normalized(path), sibling_path(normalized(path), new_name), q)),
        forall|q: Seq<char>|
            is_under(normalized(path), q) && c.has_doc(q) ==> folder_renamed(
                c,
                path,
                new_name,
                ts,
            ).has_doc(rebased(normalized(path), sibling_path(normalized(path), new_name), q)),
        affected_docs(
            c,
            normalized(path),
            sibling_path(normalized(path), new_name),
        ).map_values(|p: (Seq<char>, Seq<char>)| p.0) == docs_below(c, normalized(path)),
{
    let rel = normalized(path);
    let to = sibling_path(rel, new_name);
    lemma_rename_allowed(c, rel, new_name);
    law_moved_paths(c, rel, to, c.folder_at(rel).parent_id, ts);
}

/// After a successful `move_folder` the same holds as after a rename,
/// with the folder's place inside the destination as the new path.
pub proof fn law_move_folder(c: CatalogView, path: Seq<char>, dest: Seq<char>, ts: Seq<char>)
    requires
        c.wf(),
        move_folder_refusal(c, path, dest) is None,
    ensures
        can_move_subtree(
            c,
            normalized(path),
            move_folder_target(c, path, dest),
            Some(c.folder_at(normalized(dest)).id),
        ),
        folder_moved(c, path, dest, ts).wf(),
        !folder_moved(c, path, dest, ts).has_folder(normalized(path)),
        folder_moved(c, path, dest, ts).has_folder(move_folder_target(c, path, dest)),
        forall|q: Seq<char>|
            in_subtree(normalized(path), q) ==> !folder_moved(c, path, dest, ts).has_folder(q)
                && !folder_moved(c, path, dest, ts).has_doc(q),
        forall|q: Seq<char>|
            is_under(normalized(path), q) && c.has_folder(q) ==> folder_moved(
                c,
                path,
                dest,
                ts,
            ).has_folder(rebased(normalized(path), move_folder_target(c, path, dest), q)),
        forall|q: Seq<char>|
            is_under(normalized(path), q) && c.has_doc(q) ==> folder_moved(
                c,
                path,
                dest,
                ts,
            ).has_doc(rebased(normalized(path), move_folder_target(c, path, dest), q)),
{
    let rel = normalized(path);
    let into = normalized(dest);
    lemma_move_allowed(c, rel, into);
    law_moved_paths(c, rel, move_folder_target(c, path, dest), Some(c.folder_at(into).id), ts);
}

/// The statement of [`law_subtree_moved`] over paths instead of rows: no
/// row at all is left at the old path or below it.
pub proof fn law_moved_paths(
    c: CatalogView,
    from: Seq<char>,
    to: Seq<char>,
    parent_id: Option<int>,
    ts: Seq<char>,
)
    requires
        can_move_subtree(c, from, to, parent_id),
    ensures
        subtree_moved(c, from, to, parent_id, ts).wf(),
        !subtree_moved(c, from, to, parent_id, ts).has_folder(from),
        subtree_moved(c, from, to, parent_id, ts).has_folder(to),
        forall|q: Seq<char>|
            in_subtree(from, q) ==> !subtree_moved(c, from, to, parent_id, ts).has_folder(q)
                && !subtree_moved(c, from, to, parent_id, ts).has_doc(q),
        forall|q: Seq<char>|
            is_under(from, q) && c.has_folder(q) ==> subtree_moved(
                c,
                from,
                to,
                parent_id,
                ts,
            ).has_folder(rebased(from, to, q)),
        forall|q: Seq<char>|
            is_under(from, q) && c.has_doc(q) ==> subtree_moved(c, from, to, parent_id, ts).has_doc(
                rebased(from, to, q),
            ),
        affected_docs(c, from, to).map_values(|p: (Seq<char>, Seq<char>)| p.0) == docs_below(
            c,
            from,
        ),
{
    let c2 = subtree_moved(c, from, to, parent_id, ts);
    law_subtree_moved(c, from, to, parent_id, ts);
    lemma_nothing_below_missing(c, to);
    if c2.has_doc(from) {
        let k = c2.doc_index(from);
        let fi = c.folder_index(from);
        if is_under(from, c.docs[k].rel_path) {
            lemma_rebased_under(from, to, c.docs[k].rel_path);
            assert(!in_subtree(to, c.folders[fi].rel_path));
        } else {
            assert(c.folders[fi].rel_path != c.docs[k].rel_path);
        }
    }
    assert forall|q: Seq<char>| in_subtree(from, q) implies !c2.has_folder(q) && !c2.has_doc(
        q,
    ) by {
        if c2.has_folder(q) {
            let k = c2.folder_index(q);
            assert(!in_subtree(from, c2.folders[k].rel_path));
        }
        if q != from && c2.has_doc(q) {
            let k = c2.doc_index(q);
            assert(!is_under(from, c2.docs[k].rel_path));
        }
    }
    assert forall|q: Seq<char>| is_under(from, q) && c.has_folder(q) implies c2.has_folder(
        rebased(from, to, q),
    ) by {
        let k = c.folder_index(q);
        crate::catalog::lemma_under_longer(from, q);
        assert(c2.folders[k].rel_path == rebased(from, to, q));
    }
    assert forall|q: Seq<char>| is_under(from, q) && c.has_doc(q) implies c2.has_doc(
        rebased(from, to, q),
    ) by {
        let k = c.doc_index(q);
        assert(c2.docs[k].rel_path == rebased(from, to, q));
    }
    let under = |d: DocView| is_under(from, d.rel_path);
    let kept = c.docs.filter(under);
    assert(kept.map_values(|d: DocView| (d.rel_path, rebased(from, to, d.rel_path))).map_values(
        |p: (Seq<char>, Seq<char>)| p.0,
    ) =~= kept.map_values(|d: DocView| d.rel_path));
}

/// After a successful `remove_folder`, no row, of a folder or of a
/// document, is left at the folder's path or below it, and every other
/// row is there as it was.
pub proof fn law_remove_folder(c: CatalogView, path: Seq<char>, force: bool)
    requires
        c.wf(),
        remove_folder_refusal(c, path, force) is None,
    ensures
        subtree_removed(c, normalized(path)).wf(),
        forall|q: Seq<char>|
            in_subtree(normalized(path), q) ==> !subtree_removed(c, normalized(path)).has_folder(
                q,
            ) && !subtree_removed(c, normalized(path)).has_doc(q),
        forall|q: Seq<char>|
            !in_subtree(normalized(path), q) ==> subtree_removed(c, normalized(path)).has_folder(
                q,
            ) == c.has_folder(q) && subtree_removed(c, normalized(path)).has_doc(q) == c.has_doc(
                q,
            ),
        forall|q: Seq<char>|
            subtree_removed(c, normalized(path)).has_folder(q) ==> subtree_removed(
                c,
                normalized(path),
            ).folder_at(q) == c.folder_at(q),
        forall|q: Seq<char>|
            subtree_removed(c, normalized(path)).has_doc(q) ==> subtree_removed(
                c,
                normalized(path),
            ).doc_at(q) == c.doc_at(q),
{
    let rel = normalized(path);
    let c2 = subtree_removed(c, rel);
    lemma_subtree_removed(c, rel);
    let fi = c.folder_index(rel);
    if c2.has_doc(rel) {
        let k = c.doc_index(rel);
        assert(c.folders[fi].rel_path != c.docs[k].rel_path);
    }
    let keep_f = |f: FolderView| !in_subtree(rel, f.rel_path);
    let keep_d = |d: DocView| !is_under(rel, d.rel_path);
    lemma_kept_indices(c.folders, keep_f);
    lemma_kept_indices(c.docs, keep_d);
    let mf = kept_indices(c.folders, keep_f);
    let md = kept_indices(c.docs, keep_d);
    assert(c2.folders == c.folders.filter(keep_f));
    assert(c2.docs == c.docs.filter(keep_d));
    assert forall|q: Seq<char>| c2.has_folder(q) implies c2.folder_at(q) == c.folder_at(q) by {
        let k = c2.folder_index(q);
        assert(c2.folders[k] == c.folders[mf[k]]);
        lemma_folder_index(c, mf[k]);
    }
    assert forall|q: Seq<char>| c2.has_doc(q) implies c2.doc_at(q) == c.doc_at(q) by {
        let k = c2.doc_index(q);
        assert(c2.docs[k] == c.docs[md[k]]);
        lemma_doc_index(c, md[k]);
    }
}

/// The stable identifier of a document stays with it when it is renamed:
/// after a successful `rename_doc` the document found under the old
/// identifier is the one at the new path.
pub proof fn law_rename_doc_keeps_stable_id(
    c: CatalogView,
    doc_path: Seq<char>,
    new_name: Seq<char>,
    ts: Seq<char>,
)
    requires
        c.wf(),
        rename_doc_refusal(c, doc_path, new_name) is None,
    ensures
        doc_renamed(c, doc_path, new_name, ts).wf(),
        doc_renamed(c, doc_path, new_name, ts).has_stable_id(
            c.doc_at(normalized(doc_path)).stable_id,
        ),
        doc_renamed(c, doc_path, new_name, ts).doc_by_stable_id(
            c.doc_at(normalized(doc_path)).stable_id,
        ).rel_path == sibling_path(normalized(doc_path), new_name),
        doc_renamed(c, doc_path, new_name, ts).doc_by_stable_id(
            c.doc_at(normalized(doc_path)).stable_id,
        ).id == c.doc_at(normalized(doc_path)).id,
{
    let rel = normalized(doc_path);
    let i = c.doc_index(rel);
    assert(doc_row_ok(c.root, c.docs[i]));
    assert(c.doc_linked_at(i));
    lemma_rel_path_parts(rel);
    let p = parent_of(rel)->0;
    let j = c.folder_index(p);
    lemma_folder_index(c, j);
    lemma_doc_relocated(c, i, j, new_name, ts);
    let c2 = doc_renamed(c, doc_path, new_name, ts);
    lemma_doc_index(c2, i);
}

/// The stable identifier of a document stays with it when it is moved:
/// after a successful `move_doc` the document found under the old
/// identifier is the one at the new path.
pub proof fn law_move_doc_keeps_stable_id(
    c: CatalogView,
    doc_path: Seq<char>,
    dest: Seq<char>,
    ts: Seq<char>,
)
    requires
        c.wf(),
        move_doc_refusal(c, doc_path, dest) is None,
    ensures
        doc_moved(c, doc_path, dest, ts).wf(),
        doc_moved(c, doc_path, dest, ts).has_stable_id(c.doc_at(normalized(doc_path)).stable_id),
        doc_moved(c, doc_path, dest, ts).doc_by_stable_id(
            c.doc_at(normalized(doc_path)).stable_id,
        ).rel_path == child_path(normalized(dest), c.doc_at(normalized(doc_path)).name),
        doc_moved(c, doc_path, dest, ts).doc_by_stable_id(
            c.doc_at(normalized(doc_path)).stable_id,
        ).id == c.doc_at(normalized(doc_path)).id,
{
    let rel = normalized(doc_path);
    let i = c.doc_index(rel);
    assert(doc_row_ok(c.root, c.docs[i]));
    lemma_rel_path_parts(rel);
    let j = c.folder_index(normalized(dest));
    lemma_folder_index(c, j);
    lemma_doc_relocated(c, i, j, c.docs[i].name, ts);
    let c2 = doc_moved(c, doc_path, dest, ts);
    lemma_doc_index(c2, i);
}

/// Saving content leaves the document where it is: the file that
/// `save_doc_content` writes is the file that a later `get_doc_content`
/// names.
pub proof fn law_saved_content_is_read_from_same_file(
    c: CatalogView,
    doc_path: Seq<char>,
    description: Option<&str>,
    ts: &str,
)
    requires
        c.wf(),
        doc_lookup_refusal(c, doc_path) is None,
    ensures
        doc_touched(c, doc_path, description, Some(ts)).wf(),
        doc_lookup_refusal(doc_touched(c, doc_path, description, Some(ts)), doc_path) is None,
        doc_touched(c, doc_path, description, Some(ts)).doc_at(normalized(doc_path)).abs_path
            == c.doc_at(normalized(doc_path)).abs_path,
{
    let rel = normalized(doc_path);
    let i = c.doc_index(rel);
    let c2 = doc_touched(c, doc_path, description, Some(ts));
    lemma_doc_touched(c, i, c2.docs[i]);
    lemma_doc_index(c2, i);
}

} // verus!
