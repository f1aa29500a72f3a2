//! Relative catalog paths: normalisation, parents, prefixes.
//!
//! A relative path is a slash-separated list of non-empty segments with no
//! slash at either end. The empty text stands for the root.

use crate::error::{CoreError, ErrorKind};
use crate::text::{
    chars_of, join, join_chars, keep_non_empty, last_index_of, non_empty, push_all,
    replace_char, replace_chars, rfind_char, slice_of, split_chars, split_on, starts_with,
    string_of, trim_chars, trimmed,
};
use vstd::prelude::*;

verus! {

/// A single path segment: not empty and free of `/`.
pub open spec fn is_segment(name: Seq<char>) -> bool {
    name.len() > 0 && !name.contains('/')
}

/// Whether two slashes stand side by side at index `i` of `p`.
pub open spec fn double_slash_at(p: Seq<char>, i: int) -> bool {
    p[i] == '/' && p[i + 1] == '/'
}

/// A relative path below the root: non-empty segments separated by single
/// slashes.
pub open spec fn is_rel_path(p: Seq<char>) -> bool {
    &&& p.len() > 0
    &&& p[0] != '/'
    &&& p.last() != '/'
    &&& forall|i: int| 0 <= i < p.len() - 1 ==> !#[trigger] double_slash_at(p, i)
}

/// `t` with backslashes read as slashes and empty segments dropped.
pub open spec fn squeezed(t: Seq<char>) -> Seq<char> {
    join(non_empty(split_on(replace_char(t, '\\', '/'), '/')), seq!['/'])
}

/// The canonical form of a folder path as a user writes it. Blank input,
/// `.` and `/` all denote the root.
pub open spec fn normalized(s: Seq<char>) -> Seq<char> {
    let t = trimmed(s);
    if t == seq!['.'] {
        Seq::<char>::empty()
    } else {
        squeezed(t)
    }
}

/// The path of the folder that holds `p`, where `p` lies below a folder.
pub open spec fn parent_of(p: Seq<char>) -> Option<Seq<char>> {
    let i = last_index_of(p, '/');
    if i <= 0 {
        None
    } else {
        Some(p.subrange(0, i))
    }
}

/// The last segment of `p`.
pub open spec fn last_segment(p: Seq<char>) -> Seq<char> {
    p.subrange(last_index_of(p, '/') + 1, p.len() as int)
}

/// The path of the entry `name` inside `folder`; the root is the empty text.
pub open spec fn child_path(folder: Seq<char>, name: Seq<char>) -> Seq<char> {
    if folder.len() == 0 {
        name
    } else {
        folder + seq!['/'] + name
    }
}

/// Whether `q` lies strictly below the folder `p`.
pub open spec fn is_under(p: Seq<char>, q: Seq<char>) -> bool {
    (p + seq!['/']).is_prefix_of(q)
}

/// Whether `q` is the folder `p` or lies below it.
pub open spec fn in_subtree(p: Seq<char>, q: Seq<char>) -> bool {
    q == p || is_under(p, q)
}

/// `q`, which lies in the subtree of `from`, carried over to the subtree of `to`.
pub open spec fn rebased(from: Seq<char>, to: Seq<char>, q: Seq<char>) -> Seq<char> {
    to + q.subrange(from.len() as int, q.len() as int)
}

/// The absolute path of `rel` under the directory `root`.
pub open spec fn abs_of(root: Seq<char>, rel: Seq<char>) -> Seq<char> {
    if root.len() == 0 {
        rel
    } else if root.last() == '/' {
        root + rel
    } else {
        root + seq!['/'] + rel
    }
}

/// Where `c` last occurs in `s`: the index holds `c`, and nothing after it does.
pub proof fn lemma_last_index_of(s: Seq<char>, c: char)
    ensures
        -1 <= last_index_of(s, c) < s.len(),
        last_index_of(s, c) >= 0 ==> s[last_index_of(s, c)] == c,
        forall|j: int| last_index_of(s, c) < j < s.len() ==> s[j] != c,
        last_index_of(s, c) == -1 <==> !s.contains(c),
    decreases s.len(),
{
    if s.len() > 0 {
        if s.last() != c {
            let t = s.drop_last();
            lemma_last_index_of(t, c);
            assert forall|j: int| last_index_of(s, c) < j < s.len() implies s[j] != c by {
                if j < t.len() {
                    assert(t[j] == s[j]);
                }
            }
            if last_index_of(s, c) >= 0 {
                assert(t[last_index_of(t, c)] == c);
            }
            if s.contains(c) {
                let k = choose|k: int| 0 <= k < s.len() && s[k] == c;
                assert(t[k] == c);
            }
            if t.contains(c) {
                let k = choose|k: int| 0 <= k < t.len() && t[k] == c;
                assert(s[k] == c);
            }
        } else {
            assert(s[s.len() - 1] == c);
        }
    }
}

/// The index of the last `c` is the one index that holds `c` with none after it.
pub proof fn lemma_last_index_unique(s: Seq<char>, c: char, i: int)
    requires
        0 <= i < s.len(),
        s[i] == c,
        forall|j: int| i < j < s.len() ==> s[j] != c,
    ensures
        last_index_of(s, c) == i,
{
    lemma_last_index_of(s, c);
    let k = last_index_of(s, c);
    if k < i {
    } else if k > i {
        assert(s[k] == c);
    }
}

/// A relative path splits into its parent, a slash and its last segment; a
/// path of one segment has no parent.
pub proof fn lemma_rel_path_parts(p: Seq<char>)
    requires
        is_rel_path(p),
    ensures
        is_segment(last_segment(p)),
        match parent_of(p) {
            Some(q) => is_rel_path(q) && p == q + seq!['/'] + last_segment(p) && q.len() < p.len()
                && is_under(q, p),
            None => p == last_segment(p),
        },
{
    lemma_last_index_of(p, '/');
    let i = last_index_of(p, '/');
    let name = last_segment(p);
    assert(i != p.len() - 1);
    assert(name.len() > 0);
    if name.contains('/') {
        let k = choose|k: int| 0 <= k < name.len() && name[k] == '/';
        assert(p[i + 1 + k] == '/');
    }
    if i > 0 {
        let q = p.subrange(0, i);
        assert(q[0] == p[0]);
        assert(q.last() == p[i - 1]);
        assert(p[i - 1] != '/') by {
            assert(!double_slash_at(p, i - 1));
        }
        assert forall|j: int| 0 <= j < q.len() - 1 implies !#[trigger] double_slash_at(q, j) by {
            assert(q[j] == p[j] && q[j + 1] == p[j + 1]);
            assert(!double_slash_at(p, j));
        }
        assert(p =~= q + seq!['/'] + name);
        assert((q + seq!['/']) =~= p.subrange(0, i + 1));
    } else {
        assert(i == -1) by {
            if i == 0 {
                assert(p[0] == '/');
            }
        }
        assert(p =~= name);
    }
}

/// A segment is a relative path with no parent.
pub proof fn lemma_segment_is_rel_path(name: Seq<char>)
    requires
        is_segment(name),
    ensures
        is_rel_path(name),
        parent_of(name) is None,
        last_segment(name) == name,
{
    lemma_last_index_of(name, '/');
    assert(name[0] != '/') by {
        if name[0] == '/' {
            assert(name.contains('/'));
        }
    }
    assert(name.last() != '/') by {
        if name.last() == '/' {
            assert(name[name.len() - 1] == '/');
            assert(name.contains('/'));
        }
    }
    assert forall|i: int| 0 <= i < name.len() - 1 implies !#[trigger] double_slash_at(name, i) by {
        if name[i] == '/' {
            assert(name.contains('/'));
        }
    }
    assert(name.subrange(0, name.len() as int) =~= name);
}

/// A segment below a relative path is a relative path whose parent is that
/// path and whose last segment is that segment.
pub proof fn lemma_child_path(folder: Seq<char>, name: Seq<char>)
    requires
        is_rel_path(folder),
        is_segment(name),
    ensures
        is_rel_path(child_path(folder, name)),
        parent_of(child_path(folder, name)) == Some(folder),
        last_segment(child_path(folder, name)) == name,
        is_under(folder, child_path(folder, name)),
{
    let p = child_path(folder, name);
    let n = folder.len() as int;
    assert(p =~= folder + seq!['/'] + name);
    assert(p[n] == '/');
    assert forall|j: int| n < j < p.len() implies p[j] != '/' by {
        assert(p[j] == name[j - n - 1]);
        if name[j - n - 1] == '/' {
            assert(name.contains('/'));
        }
    }
    lemma_last_index_unique(p, '/', n);
    assert(p.subrange(0, n) =~= folder);
    assert(p.subrange(n + 1, p.len() as int) =~= name);
    assert(p[0] == folder[0]);
    assert(p.last() == name.last());
    assert(p.last() != '/');
    assert forall|i: int| 0 <= i < p.len() - 1 implies !#[trigger] double_slash_at(p, i) by {
        if i < n - 1 {
            assert(p[i] == folder[i] && p[i + 1] == folder[i + 1]);
            assert(!double_slash_at(folder, i));
        } else if i == n - 1 {
            assert(p[i] == folder.last());
        } else if i == n {
            assert(p[i + 1] != '/');
        } else {
            assert(p[i] != '/');
        }
    }
    assert((folder + seq!['/']) =~= p.subrange(0, n + 1));
}

/// No piece of a split holds the separator.
pub proof fn lemma_split_pieces_free(s: Seq<char>, sep: char)
    ensures
        split_on(s, sep).len() > 0,
        forall|k: int| 0 <= k < split_on(s, sep).len() ==> !(#[trigger] split_on(s, sep)[k]).contains(sep),
    decreases s.len(),
{
    if s.len() > 0 {
        let before = split_on(s.drop_last(), sep);
        lemma_split_pieces_free(s.drop_last(), sep);
        let now = split_on(s, sep);
        assert forall|k: int| 0 <= k < now.len() implies !(#[trigger] now[k]).contains(sep) by {
            if k < before.len() - 1 {
                assert(now[k] == before[k]);
            } else if k == before.len() - 1 {
                if s.last() == sep {
                    assert(now[k] == before[k]);
                } else {
                    let piece = before.last().push(s.last());
                    assert(now[k] == piece);
                    if piece.contains(sep) {
                        let j = choose|j: int| 0 <= j < piece.len() && piece[j] == sep;
                        if j < piece.len() - 1 {
                            assert(before.last()[j] == sep);
                            assert(before[k].contains(sep));
                        }
                    }
                }
            } else {
                assert(now[k] =~= Seq::<char>::empty());
                if now[k].contains(sep) {
                    let j = choose|j: int| 0 <= j < now[k].len() && now[k][j] == sep;
                }
            }
        }
    } else {
        let now = split_on(s, sep);
        assert forall|k: int| 0 <= k < now.len() implies !(#[trigger] now[k]).contains(sep) by {
            if now[k].contains(sep) {
                let j = choose|j: int| 0 <= j < now[k].len() && now[k][j] == sep;
            }
        }
    }
}

/// Segments joined by slashes form a relative path.
pub proof fn lemma_join_segments(parts: Seq<Seq<char>>)
    requires
        parts.len() > 0,
        forall|k: int| 0 <= k < parts.len() ==> is_segment(#[trigger] parts[k]),
    ensures
        is_rel_path(join(parts, seq!['/'])),
    decreases parts.len(),
{
    if parts.len() == 1 {
        lemma_segment_is_rel_path(parts[0]);
    } else {
        let front = parts.drop_last();
        assert forall|k: int| 0 <= k < front.len() implies is_segment(#[trigger] front[k]) by {
            assert(front[k] == parts[k]);
        }
        lemma_join_segments(front);
        lemma_child_path(join(front, seq!['/']), parts.last());
    }
}

/// A normalised path is the root or a relative path.
pub proof fn lemma_normalized_is_rel_path(s: Seq<char>)
    ensures
        normalized(s).len() == 0 || is_rel_path(normalized(s)),
        squeezed(s).len() == 0 || is_rel_path(squeezed(s)),
{
    lemma_squeezed_is_rel_path(s);
    lemma_squeezed_is_rel_path(trimmed(s));
}

proof fn lemma_squeezed_is_rel_path(t: Seq<char>)
    ensures
        squeezed(t).len() == 0 || is_rel_path(squeezed(t)),
{
    let pieces = split_on(replace_char(t, '\\', '/'), '/');
    lemma_split_pieces_free(replace_char(t, '\\', '/'), '/');
    let pred = |p: Seq<char>| p.len() > 0;
    let kept = pieces.filter(pred);
    if kept.len() > 0 {
        assert forall|k: int| 0 <= k < kept.len() implies is_segment(#[trigger] kept[k]) by {
            pieces.lemma_filter_pred(pred, k);
            assert(kept.contains(kept[k]));
            pieces.lemma_filter_contains_rev(pred, kept[k]);
            assert(pieces.contains(kept[k]));
            let j = choose|j: int| 0 <= j < pieces.len() && pieces[j] == kept[k];
            assert(!pieces[j].contains('/'));
            assert(pred(kept[k]));
        }
        lemma_join_segments(kept);
    }
}

/// Carrying a path below `from` over to `to` puts it below `to`.
pub proof fn lemma_rebased_under(from: Seq<char>, to: Seq<char>, q: Seq<char>)
    requires
        is_under(from, q),
    ensures
        is_under(to, rebased(from, to, q)),
        rebased(from, to, q).len() == to.len() + q.len() - from.len(),
{
    let n = from.len() as int;
    let m = to.len() as int;
    let r = rebased(from, to, q);
    let pre = from + seq!['/'];
    assert(q.subrange(0, n + 1)[n] == pre[n]);
    assert((to + seq!['/']) =~= r.subrange(0, m + 1));
}

/// Two paths below `from` that are carried over to the same path are equal.
pub proof fn lemma_rebased_injective(from: Seq<char>, to: Seq<char>, a: Seq<char>, b: Seq<char>)
    requires
        is_under(from, a),
        is_under(from, b),
        rebased(from, to, a) == rebased(from, to, b),
    ensures
        a == b,
{
    let n = from.len() as int;
    let m = to.len() as int;
    let ra = rebased(from, to, a);
    let rb = rebased(from, to, b);
    let pre = from + seq!['/'];
    assert(ra.len() == rb.len());
    assert(a =~= b) by {
        assert forall|k: int| 0 <= k < a.len() implies a[k] == b[k] by {
            if k < n {
                assert(a.subrange(0, n + 1)[k] == pre[k]);
                assert(b.subrange(0, n + 1)[k] == pre[k]);
            } else {
                assert(ra[m + k - n] == a[k]);
                assert(rb[m + k - n] == b[k]);
            }
        }
    }
}

/// Carrying a relative path below `from` over to the relative path `to`
/// gives a relative path with the same last segment, whose parent is the
/// parent carried over.
pub proof fn lemma_rebased_rel_path(from: Seq<char>, to: Seq<char>, q: Seq<char>)
    requires
        from.len() > 0,
        is_rel_path(to),
        is_rel_path(q),
        is_under(from, q),
    ensures
        is_rel_path(rebased(from, to, q)),
        last_segment(rebased(from, to, q)) == last_segment(q),
        parent_of(q) is Some,
        parent_of(rebased(from, to, q)) == Some(
            if parent_of(q)->0 == from {
                to
            } else {
                rebased(from, to, parent_of(q)->0)
            },
        ),
        parent_of(q)->0 == from || is_under(from, parent_of(q)->0),
{
    let n = from.len() as int;
    let m = to.len() as int;
    let r = rebased(from, to, q);
    let pre = from + seq!['/'];
    assert(q.subrange(0, n + 1)[n] == pre[n]);
    assert(q[n] == '/');
    lemma_last_index_of(q, '/');
    let j = last_index_of(q, '/');
    assert(j >= n);
    assert(j < q.len() - 1);
    assert(r.len() == m + q.len() - n);
    assert forall|k: int| 0 <= k < r.len() implies r[k] == if k < m {
        to[k]
    } else {
        q[k - m + n]
    } by {}
    assert(r[m + j - n] == '/');
    lemma_last_index_unique(r, '/', m + j - n);
    assert(last_segment(r) =~= last_segment(q));
    assert forall|i: int| 0 <= i < r.len() - 1 implies !#[trigger] double_slash_at(r, i) by {
        if i < m - 1 {
            assert(!double_slash_at(to, i));
        } else if i == m - 1 {
            assert(r[i] == to.last());
        } else {
            assert(!double_slash_at(q, i - m + n));
        }
    }
    assert(r.last() == q.last());
    let pq = q.subrange(0, j);
    if j == n {
        assert(pq =~= from) by {
            assert forall|k: int| 0 <= k < n implies pq[k] == from[k] by {
                assert(q.subrange(0, n + 1)[k] == pre[k]);
            }
        }
        assert(r.subrange(0, m) =~= to);
    } else {
        assert(pre =~= pq.subrange(0, n + 1)) by {
            assert forall|k: int| 0 <= k < n + 1 implies pre[k] == pq.subrange(0, n + 1)[k] by {
                assert(q.subrange(0, n + 1)[k] == pre[k]);
            }
        }
        assert(pq != from);
        assert(r.subrange(0, m + j - n) =~= rebased(from, to, pq));
    }
}

/// Two folders of which neither holds the other share nothing below them.
pub proof fn lemma_subtrees_apart(a: Seq<char>, b: Seq<char>, q: Seq<char>)
    requires
        in_subtree(a, q),
        in_subtree(b, q),
    ensures
        in_subtree(a, b) || in_subtree(b, a),
{
    if a != b && q != a && q != b {
        let pa = a + seq!['/'];
        let pb = b + seq!['/'];
        if a.len() < b.len() {
            assert(pa =~= b.subrange(0, pa.len() as int)) by {
                assert forall|k: int| 0 <= k < pa.len() implies pa[k] == b[k] by {
                    assert(q.subrange(0, pa.len() as int)[k] == pa[k]);
                    assert(q.subrange(0, pb.len() as int)[k] == pb[k]);
                }
            }
        } else if b.len() < a.len() {
            assert(pb =~= a.subrange(0, pb.len() as int)) by {
                assert forall|k: int| 0 <= k < pb.len() implies pb[k] == a[k] by {
                    assert(q.subrange(0, pa.len() as int)[k] == pa[k]);
                    assert(q.subrange(0, pb.len() as int)[k] == pb[k]);
                }
            }
        } else {
            assert(a =~= b) by {
                assert forall|k: int| 0 <= k < a.len() implies a[k] == b[k] by {
                    assert(q.subrange(0, pa.len() as int)[k] == pa[k]);
                    assert(q.subrange(0, pb.len() as int)[k] == pb[k]);
                }
            }
        }
    }
}

/// The canonical form of a folder path. Blank input, `.` and `/` give the
/// root, which is the empty text.
pub fn normalize_folder_path(input: Option<&str>) -> (r: Result<String, CoreError>)
    ensures
        match input {
            Some(s) => r is Ok && r->Ok_0@ == normalized(s@),
            None => r is Err && r->Err_0.is(ErrorKind::InvalidInput, "Folder path is required"@),
        },
{
    match input {
        None => Err(CoreError::InvalidInput("Folder path is required".to_owned())),
        Some(value) => {
            let all = chars_of(value);
            let t = trim_chars(&all);
            if t.len() == 1 && t[0] == '.' {
                assert(t@ =~= seq!['.']);
                return Ok(String::new());
            }
            let r = squeeze(&t);
            Ok(string_of(&r))
        },
    }
}

/// `t` with backslashes read as slashes and empty segments dropped.
fn squeeze(t: &Vec<char>) -> (r: Vec<char>)
    ensures
        r@ == squeezed(t@),
{
    let unified = replace_chars(t, '\\', '/');
    let pieces = split_chars(&unified, '/');
    let kept = keep_non_empty(pieces);
    let mut sep: Vec<char> = Vec::new();
    sep.push('/');
    assert(sep@ =~= seq!['/']);
    join_chars(&kept, &sep)
}

/// The canonical form of a document path, which must not be the root.
pub fn normalize_doc_path(input: Option<&str>) -> (r: Result<String, CoreError>)
    ensures
        match input {
            Some(s) => if normalized(s@).len() == 0 {
                r is Err && r->Err_0.is(ErrorKind::InvalidInput, "document path cannot be root"@)
            } else {
                r is Ok && r->Ok_0@ == normalized(s@)
            },
            None => r is Err && r->Err_0.is(
                ErrorKind::InvalidInput,
                "Document path is required"@,
            ),
        },
{
    match input {
        None => Err(CoreError::InvalidInput("Document path is required".to_owned())),
        Some(value) => {
            match normalize_folder_path(Some(value)) {
                Ok(p) => {
                    if p.as_str().unicode_len() == 0 {
                        Err(CoreError::InvalidInput("document path cannot be root".to_owned()))
                    } else {
                        Ok(p)
                    }
                },
                Err(e) => Err(e),
            }
        },
    }
}

/// The path of the folder that holds `rel_path`. A path of one segment lies
/// directly below the root and has no parent; neither has the root.
pub fn parent_rel_path(rel_path: &str) -> (r: Option<String>)
    ensures
        match parent_of(rel_path@) {
            Some(p) => r is Some && r->0@ == p,
            None => r is None,
        },
{
    let all = chars_of(rel_path);
    match parent_chars(&all) {
        Some(p) => Some(string_of(&p)),
        None => None,
    }
}

/// [`parent_rel_path`] on characters.
pub fn parent_chars(p: &Vec<char>) -> (r: Option<Vec<char>>)
    ensures
        match parent_of(p@) {
            Some(q) => r is Some && r->0@ == q,
            None => r is None,
        },
{
    proof {
        lemma_last_index_of(p@, '/');
    }
    match rfind_char(p, '/') {
        Some(i) => {
            if i == 0 {
                None
            } else {
                Some(slice_of(p, 0, i))
            }
        },
        None => None,
    }
}

/// The last segment of `p`.
pub fn last_segment_chars(p: &Vec<char>) -> (r: Vec<char>)
    ensures
        r@ == last_segment(p@),
{
    proof {
        lemma_last_index_of(p@, '/');
    }
    match rfind_char(p, '/') {
        Some(i) => slice_of(p, i + 1, p.len()),
        None => slice_of(p, 0, p.len()),
    }
}

/// Whether `name` is a single path segment.
pub fn is_single_segment(name: &Vec<char>) -> (r: bool)
    ensures
        r == is_segment(name@),
{
    proof {
        lemma_last_index_of(name@, '/');
    }
    name.len() > 0 && rfind_char(name, '/').is_none()
}

/// The path of the entry `name` inside `folder`.
pub fn child_chars(folder: &Vec<char>, name: &Vec<char>) -> (r: Vec<char>)
    ensures
        r@ == child_path(folder@, name@),
{
    let mut r: Vec<char> = Vec::new();
    if folder.len() > 0 {
        push_all(&mut r, folder);
        r.push('/');
    }
    push_all(&mut r, name);
    assert(r@ =~= child_path(folder@, name@));
    r
}

/// Whether `q` lies strictly below the folder `p`.
pub fn is_under_chars(p: &Vec<char>, q: &Vec<char>) -> (r: bool)
    ensures
        r == is_under(p@, q@),
{
    if q.len() <= p.len() {
        return false;
    }
    let head = starts_with(q, p);
    let r = head && q[p.len()] == '/';
    proof {
        let pre = p@ + seq!['/'];
        if r {
            assert(pre =~= q@.subrange(0, pre.len() as int));
        } else if pre.is_prefix_of(q@) {
            assert(q@.subrange(0, pre.len() as int)[p.len() as int] == pre[p.len() as int]);
            assert(p@ =~= q@.subrange(0, p.len() as int)) by {
                assert forall|i: int| 0 <= i < p.len() implies p@[i] == q@[i] by {
                    assert(q@.subrange(0, pre.len() as int)[i] == pre[i]);
                }
            }
        }
    }
    r
}

/// `q`, which lies in the subtree of `from`, carried over to the subtree of `to`.
pub fn rebase_chars(from: &Vec<char>, to: &Vec<char>, q: &Vec<char>) -> (r: Vec<char>)
    requires
        from.len() <= q.len(),
    ensures
        r@ == rebased(from@, to@, q@),
{
    let mut r: Vec<char> = Vec::new();
    push_all(&mut r, to);
    let tail = slice_of(q, from.len(), q.len());
    push_all(&mut r, &tail);
    assert(r@ =~= rebased(from@, to@, q@));
    r
}

/// The absolute path of `rel` under the directory `root`.
pub fn abs_chars(root: &Vec<char>, rel: &Vec<char>) -> (r: Vec<char>)
    ensures
        r@ == abs_of(root@, rel@),
{
    let mut r: Vec<char> = Vec::new();
    push_all(&mut r, root);
    if root.len() > 0 && root[root.len() - 1] != '/' {
        r.push('/');
    }
    push_all(&mut r, rel);
    assert(r@ =~= abs_of(root@, rel@));
    r
}

} // verus!
