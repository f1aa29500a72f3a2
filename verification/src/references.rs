//! Links inside idea entries: `oc://doc/<stable id>[?path=<path>]` and
//! `oc://idea/<entry id>`, and the readable trailer that lists them.

use crate::model::{doc_views, Doc, DocView};
use crate::text::{
    chars_of, find_char, first_index_of, join, join_chars, push_all, same_chars, slice_of,
    split_chars, split_on, starts_with, string_of, views,
};
use regex::Regex;
use vstd::prelude::*;

verus! {

/// The pattern of a markdown link whose target begins with `oc://`: the
/// label is the first group, the target the second.
pub open spec fn link_pattern_text() -> Seq<char> {
    "\\[([^\\]]+)\\]\\((oc://[^)]+)\\)"@
}

/// The pattern of [`link_pattern_text`].
pub fn link_pattern() -> (p: &'static str)
    ensures
        p@ == link_pattern_text(),
{
    "\\[([^\\]]+)\\]\\((oc://[^)]+)\\)"
}

/// For each match of the regular expression `pattern` in `text`, from
/// left to right and without overlap, the texts of its first and second
/// group; `None` where the pattern is refused, be it malformed or too
/// large.
pub uninterp spec fn regex_pairs(pattern: Seq<char>, text: Seq<char>) -> Option<
    Seq<(Seq<char>, Seq<char>)>,
>;

/// The text that `text` stands for once every `%` with two hexadecimal
/// digits behind it has been replaced by the byte that they name, all
/// else staying as it is; `None` where the bytes are no UTF-8.
pub uninterp spec fn percent_decoded(text: Seq<char>) -> Option<Seq<char>>;

/// The views of a sequence of pairs of texts.
pub open spec fn text_pairs(pairs: Seq<(String, String)>) -> Seq<(Seq<char>, Seq<char>)> {
    Seq::new(pairs.len(), |i: int| (pairs[i].0@, pairs[i].1@))
}

/// The view of optional pairs of texts.
pub open spec fn opt_text_pairs(pairs: Option<Vec<(String, String)>>) -> Option<
    Seq<(Seq<char>, Seq<char>)>,
> {
    match pairs {
        Some(p) => Some(text_pairs(p@)),
        None => None,
    }
}

/// The view of an optional text.
pub open spec fn opt_text(text: Option<String>) -> Option<Seq<char>> {
    match text {
        Some(t) => Some(t@),
        None => None,
    }
}

/// Compiles `pattern` with `regex::Regex::new` and walks the matches that
/// `Regex::captures_iter` finds in `text`, keeping of each the groups 1
/// and 2 as `Captures::get` reports them (a group that took no part counts
/// as empty). The result is a function of pattern and text alone.
#[verifier::external_body]
fn capture_pairs(pattern: &str, text: &str) -> (r: Option<Vec<(String, String)>>)
    ensures
        opt_text_pairs(r) == regex_pairs(pattern@, text@),
{
    let re = Regex::new(pattern).ok()?;
    Some(
        re.captures_iter(text).map(
            |c|
                (
                    c.get(1).map_or(String::new(), |m| m.as_str().to_string()),
                    c.get(2).map_or(String::new(), |m| m.as_str().to_string()),
                ),
        ).collect(),
    )
}

/// Decodes `text` with `urlencoding::decode`. The result is a function of
/// the text alone.
#[verifier::external_body]
fn percent_decode(text: &str) -> (r: Option<String>)
    ensures
        opt_text(r) == percent_decoded(text@),
{
    urlencoding::decode(text).ok().map(|decoded| decoded.into_owned())
}

/// The links of `text`: label and target of each, in order.
pub open spec fn refs_of(text: Seq<char>) -> Seq<(Seq<char>, Seq<char>)> {
    match regex_pairs(link_pattern_text(), text) {
        Some(pairs) => pairs,
        None => Seq::empty(),
    }
}

/// The links of `text` whose target begins with `oc://`.
pub fn extract_refs(text: &str) -> (refs: Vec<(String, String)>)
    ensures
        text_pairs(refs@) == refs_of(text@),
{
    match capture_pairs(link_pattern(), text) {
        Some(pairs) => pairs,
        None => {
            let none: Vec<(String, String)> = Vec::new();
            assert(text_pairs(none@) =~= Seq::empty());
            none
        },
    }
}

/// `s` without every `p` that it begins with, one after the other.
pub open spec fn without_leading(s: Seq<char>, p: Seq<char>) -> Seq<char>
    decreases s.len(),
{
    if p.len() > 0 && p.is_prefix_of(s) {
        without_leading(s.subrange(p.len() as int, s.len() as int), p)
    } else {
        s
    }
}

/// The value of the first `path=` among the parameters `pairs`, from the
/// `k`-th on.
pub open spec fn path_value(pairs: Seq<Seq<char>>, k: int) -> Option<Seq<char>>
    decreases pairs.len() - k,
{
    if k < 0 || k >= pairs.len() {
        None
    } else {
        let pair = pairs[k];
        let eq = first_index_of(pair, '=');
        if eq < pair.len() && pair.subrange(0, eq) == "path"@ {
            Some(pair.subrange(eq + 1, pair.len() as int))
        } else {
            path_value(pairs, k + 1)
        }
    }
}

/// `text`, unless it is empty.
pub open spec fn some_text(text: Seq<char>) -> Option<Seq<char>> {
    if text.len() == 0 {
        None
    } else {
        Some(text)
    }
}

/// The stable identifier and the path that the document link `href`
/// names. The identifier is what stands between `oc://doc/` and a question
/// mark; the path is the decoded value of the first parameter `path`.
pub open spec fn doc_href_parts(href: Seq<char>) -> (Option<Seq<char>>, Option<Seq<char>>) {
    if !"oc://doc/"@.is_prefix_of(href) {
        (None, None)
    } else {
        let raw = without_leading(href, "oc://doc/"@);
        let q = first_index_of(raw, '?');
        if q >= raw.len() {
            (some_text(raw), None)
        } else {
            let query = raw.subrange(q + 1, raw.len() as int);
            (
                some_text(raw.subrange(0, q)),
                match path_value(split_on(query, '&'), 0) {
                    Some(value) => percent_decoded(value),
                    None => None,
                },
            )
        }
    }
}

/// `v` without every `p` that it begins with.
fn strip_leading(v: &Vec<char>, p: &Vec<char>) -> (r: Vec<char>)
    ensures
        r@ == without_leading(v@, p@),
{
    let mut from: usize = 0;
    assert(v@.subrange(0, v.len() as int) == v@);
    while p.len() > 0 && p.len() <= v.len() && from <= v.len() - p.len()
        && crate::text::matches_at(v, p, from)
        invariant
            from <= v.len(),
            without_leading(v@, p@) == without_leading(
                v@.subrange(from as int, v.len() as int),
                p@,
            ),
        decreases v.len() - from,
    {
        let ghost rest = v@.subrange(from as int, v.len() as int);
        assert(rest.subrange(0, p.len() as int) =~= v@.subrange(from as int, from + p.len()));
        assert(rest.subrange(p.len() as int, rest.len() as int) =~= v@.subrange(
            from + p.len(),
            v.len() as int,
        ));
        from = from + p.len();
    }
    proof {
        let rest = v@.subrange(from as int, v.len() as int);
        if p.len() > 0 && p@.is_prefix_of(rest) {
            assert(rest.subrange(0, p.len() as int) =~= v@.subrange(from as int, from + p.len()));
        }
    }
    slice_of(v, from, v.len())
}

/// The value of the first `path=` among the parameters.
fn find_path_value(pairs: &Vec<Vec<char>>) -> (r: Option<Vec<char>>)
    ensures
        match path_value(views(pairs@), 0) {
            Some(v) => r is Some && r->0@ == v,
            None => r is None,
        },
{
    let key = chars_of("path");
    let ghost all = views(pairs@);
    let mut k: usize = 0;
    while k < pairs.len()
        invariant
            k <= pairs.len(),
            all == views(pairs@),
            key@ == "path"@,
            path_value(all, 0) == path_value(all, k as int),
        decreases pairs.len() - k,
    {
        let pair = &pairs[k];
        assert(pair@ == all[k as int]);
        match find_char(pair, '=') {
            Some(eq) => {
                let name = slice_of(pair, 0, eq);
                if same_chars(&name, &key) {
                    return Some(slice_of(pair, eq + 1, pair.len()));
                }
            },
            None => {},
        }
        k = k + 1;
    }
    None
}

/// The stable identifier and the path that the document link `href`
/// names, as [`doc_href_parts`] says.
pub fn parse_doc_href(href: &str) -> (r: (Option<String>, Option<String>))
    ensures
        (opt_text(r.0), opt_text(r.1)) == doc_href_parts(href@),
{
    let all = chars_of(href);
    let prefix = chars_of("oc://doc/");
    if !starts_with(&all, &prefix) {
        return (None, None);
    }
    let raw = strip_leading(&all, &prefix);
    match find_char(&raw, '?') {
        None => (text_unless_empty(&raw), None),
        Some(q) => {
            let id = slice_of(&raw, 0, q);
            let query = slice_of(&raw, q + 1, raw.len());
            let pairs = split_chars(&query, '&');
            let path = match find_path_value(&pairs) {
                Some(value) => percent_decode(string_of(&value).as_str()),
                None => None,
            };
            (text_unless_empty(&id), path)
        },
    }
}

/// `v` as a text, unless it is empty.
fn text_unless_empty(v: &Vec<char>) -> (r: Option<String>)
    ensures
        opt_text(r) == some_text(v@),
{
    if v.len() == 0 {
        None
    } else {
        Some(string_of(v))
    }
}

/// The last of `docs` with the stable identifier `sid`.
pub open spec fn doc_with_stable_id(docs: Seq<DocView>, sid: Seq<char>) -> Option<DocView>
    decreases docs.len(),
{
    if docs.len() == 0 {
        None
    } else if docs.last().stable_id == sid {
        Some(docs.last())
    } else {
        doc_with_stable_id(docs.drop_last(), sid)
    }
}

/// The last of `docs` with the path `rel`.
pub open spec fn doc_with_path(docs: Seq<DocView>, rel: Seq<char>) -> Option<DocView>
    decreases docs.len(),
{
    if docs.len() == 0 {
        None
    } else if docs.last().rel_path == rel {
        Some(docs.last())
    } else {
        doc_with_path(docs.drop_last(), rel)
    }
}

/// The document that a link names: the one with the stable identifier,
/// else the one with the path.
pub open spec fn linked_doc(
    docs: Seq<DocView>,
    sid: Option<Seq<char>>,
    path: Option<Seq<char>>,
) -> Option<DocView> {
    let by_id = match sid {
        Some(id) => doc_with_stable_id(docs, id),
        None => None,
    };
    match by_id {
        Some(d) => Some(d),
        None => match path {
            Some(p) => doc_with_path(docs, p),
            None => None,
        },
    }
}

/// What is known of a linked document: its description and its path,
/// as far as they are not empty, with a middle dot in between.
pub open spec fn doc_summary(d: DocView) -> Seq<char> {
    if d.description.len() > 0 && d.rel_path.len() > 0 {
        d.description + " \u{b7} "@ + d.rel_path
    } else if d.description.len() > 0 {
        d.description
    } else {
        d.rel_path
    }
}

/// The trailer line for a link, if the link gets one.
pub open spec fn ref_line(label: Seq<char>, href: Seq<char>, docs: Seq<DocView>) -> Option<
    Seq<char>,
> {
    if "oc://doc/"@.is_prefix_of(href) {
        let parts = doc_href_parts(href);
        let meta = linked_doc(docs, parts.0, parts.1);
        let title = if label.len() > 0 {
            label
        } else {
            match meta {
                Some(d) => d.name,
                None => "\u{6587}\u{6863}"@,
            }
        };
        let summary = match meta {
            Some(d) => doc_summary(d),
            None => Seq::empty(),
        };
        if summary.len() == 0 {
            Some("\u{6587}\u{6863}: "@ + title)
        } else {
            Some("\u{6587}\u{6863}: "@ + title + " \u{2014} "@ + summary)
        }
    } else if "oc://idea/"@.is_prefix_of(href) {
        Some(
            "\u{60f3}\u{6cd5}: "@ + if label.len() > 0 {
                label
            } else {
                "\u{60f3}\u{6cd5}"@
            },
        )
    } else {
        None
    }
}

/// The trailer lines for `refs`, in order.
pub open spec fn ref_lines(refs: Seq<(Seq<char>, Seq<char>)>, docs: Seq<DocView>) -> Seq<Seq<char>>
    decreases refs.len(),
{
    if refs.len() == 0 {
        Seq::empty()
    } else {
        let before = ref_lines(refs.drop_last(), docs);
        match ref_line(refs.last().0, refs.last().1, docs) {
            Some(line) => before.push(line),
            None => before,
        }
    }
}

/// `text` with a trailer that lists `refs`; `text` itself where no link
/// gets a line.
pub open spec fn with_references(
    text: Seq<char>,
    refs: Seq<(Seq<char>, Seq<char>)>,
    docs: Seq<DocView>,
) -> Seq<char> {
    let lines = ref_lines(refs, docs);
    if lines.len() == 0 {
        text
    } else {
        text + "\n\n\u{5f15}\u{7528}:\n- "@ + join(lines, "\n- "@)
    }
}

/// The last of `docs` with the stable identifier `sid`.
fn find_by_stable_id(docs: &Vec<Doc>, sid: &Vec<char>) -> (r: Option<usize>)
    ensures
        match doc_with_stable_id(doc_views(docs@), sid@) {
            Some(d) => r is Some && r->0 < docs.len() && docs@[r->0 as int]@ == d,
            None => r is None,
        },
{
    let ghost all = doc_views(docs@);
    let mut end: usize = docs.len();
    assert(all.subrange(0, docs.len() as int) =~= all);
    while end > 0
        invariant
            end <= docs.len(),
            all == doc_views(docs@),
            doc_with_stable_id(all, sid@) == doc_with_stable_id(all.subrange(0, end as int), sid@),
        decreases end,
    {
        assert(all.subrange(0, end as int).last() == docs@[end - 1]@);
        assert(all.subrange(0, end as int).drop_last() =~= all.subrange(0, end - 1));
        if same_chars(&chars_of(docs[end - 1].stable_id.as_str()), sid) {
            return Some(end - 1);
        }
        end = end - 1;
    }
    None
}

/// The last of `docs` with the path `rel`.
fn find_by_path(docs: &Vec<Doc>, rel: &Vec<char>) -> (r: Option<usize>)
    ensures
        match doc_with_path(doc_views(docs@), rel@) {
            Some(d) => r is Some && r->0 < docs.len() && docs@[r->0 as int]@ == d,
            None => r is None,
        },
{
    let ghost all = doc_views(docs@);
    let mut end: usize = docs.len();
    assert(all.subrange(0, docs.len() as int) =~= all);
    while end > 0
        invariant
            end <= docs.len(),
            all == doc_views(docs@),
            doc_with_path(all, rel@) == doc_with_path(all.subrange(0, end as int), rel@),
        decreases end,
    {
        assert(all.subrange(0, end as int).last() == docs@[end - 1]@);
        assert(all.subrange(0, end as int).drop_last() =~= all.subrange(0, end - 1));
        if same_chars(&chars_of(docs[end - 1].rel_path.as_str()), rel) {
            return Some(end - 1);
        }
        end = end - 1;
    }
    None
}

/// The document that a link names.
fn find_linked(docs: &Vec<Doc>, sid: &Option<String>, path: &Option<String>) -> (r: Option<usize>)
    ensures
        match linked_doc(doc_views(docs@), opt_text(*sid), opt_text(*path)) {
            Some(d) => r is Some && r->0 < docs.len() && docs@[r->0 as int]@ == d,
            None => r is None,
        },
{
    let by_id = match sid {
        Some(id) => find_by_stable_id(docs, &chars_of(id.as_str())),
        None => None,
    };
    match by_id {
        Some(i) => Some(i),
        None => match path {
            Some(p) => find_by_path(docs, &chars_of(p.as_str())),
            None => None,
        },
    }
}

/// The trailer line for a link, if the link gets one.
fn line_for(label: &str, href: &str, docs: &Vec<Doc>) -> (r: Option<Vec<char>>)
    ensures
        match ref_line(label@, href@, doc_views(docs@)) {
            Some(line) => r is Some && r->0@ == line,
            None => r is None,
        },
{
    let target = chars_of(href);
    if starts_with(&target, &chars_of("oc://doc/")) {
        let (sid, path) = parse_doc_href(href);
        let meta = find_linked(docs, &sid, &path);
        let mut line = chars_of("\u{6587}\u{6863}: ");
        if label.unicode_len() > 0 {
            push_all(&mut line, &chars_of(label));
        } else {
            match meta {
                Some(i) => push_all(&mut line, &chars_of(docs[i].name.as_str())),
                None => push_all(&mut line, &chars_of("\u{6587}\u{6863}")),
            }
        }
        match meta {
            Some(i) => {
                let description = chars_of(docs[i].description.as_str());
                let rel = chars_of(docs[i].rel_path.as_str());
                if description.len() > 0 || rel.len() > 0 {
                    push_all(&mut line, &chars_of(" \u{2014} "));
                    if description.len() > 0 && rel.len() > 0 {
                        push_all(&mut line, &description);
                        push_all(&mut line, &chars_of(" \u{b7} "));
                        push_all(&mut line, &rel);
                    } else if description.len() > 0 {
                        push_all(&mut line, &description);
                    } else {
                        push_all(&mut line, &rel);
                    }
                }
            },
            None => {},
        }
        let ghost want = ref_line(label@, href@, doc_views(docs@))->0;
        assert(line@ =~= want);
        Some(line)
    } else if starts_with(&target, &chars_of("oc://idea/")) {
        let mut line = chars_of("\u{60f3}\u{6cd5}: ");
        if label.unicode_len() > 0 {
            push_all(&mut line, &chars_of(label));
        } else {
            push_all(&mut line, &chars_of("\u{60f3}\u{6cd5}"));
        }
        Some(line)
    } else {
        None
    }
}

/// `text` with a trailer that lists the links `refs`, as
/// [`with_references`] says. `docs` are the documents that a link may name.
pub fn reference_summary(text: &str, refs: &Vec<(String, String)>, docs: &Vec<Doc>) -> (r: String)
    ensures
        r@ == with_references(text@, text_pairs(refs@), doc_views(docs@)),
{
    let ghost all = text_pairs(refs@);
    let mut lines: Vec<Vec<char>> = Vec::new();
    let mut i: usize = 0;
    assert(all.subrange(0, 0) =~= Seq::empty());
    assert(views(lines@) =~= Seq::<Seq<char>>::empty());
    while i < refs.len()
        invariant
            i <= refs.len(),
            all == text_pairs(refs@),
            views(lines@) == ref_lines(all.subrange(0, i as int), doc_views(docs@)),
        decreases refs.len() - i,
    {
        let ghost head = all.subrange(0, i + 1);
        assert(head.drop_last() == all.subrange(0, i as int));
        assert(head.last() == (refs@[i as int].0@, refs@[i as int].1@));
        let ghost prev = views(lines@);
        match line_for(refs[i].0.as_str(), refs[i].1.as_str(), docs) {
            Some(line) => {
                lines.push(line);
                assert(views(lines@) =~= prev.push(line@));
            },
            None => {},
        }
        i = i + 1;
    }
    assert(all.subrange(0, refs.len() as int) =~= all);
    if lines.len() == 0 {
        return text.to_owned();
    }
    let mut out = chars_of(text);
    push_all(&mut out, &chars_of("\n\n\u{5f15}\u{7528}:\n- "));
    push_all(&mut out, &join_chars(&lines, &chars_of("\n- ")));
    string_of(&out)
}

/// `text` with a trailer that lists its links to documents and ideas.
pub fn append_reference_summary(text: &str, docs: &Vec<Doc>) -> (r: String)
    ensures
        r@ == with_references(text@, refs_of(text@), doc_views(docs@)),
{
    let refs = extract_refs(text);
    reference_summary(text, &refs, docs)
}

} // verus!
