//! Idea files: entries set apart by marker lines of the form
//! `[//]: # (idea:id=<id> created_at=<time>)`.

use crate::text::{
    chars_of, copy_of, is_space, is_whitespace, join, join_chars, non_empty, keep_non_empty, slice_of,
    split_chars, split_on, starts_with, string_of, trim_chars, trimmed, views,
};
use vstd::prelude::*;

verus! {

/// One entry of an idea file.
#[derive(Debug)]
pub struct IdeaEntry {
    pub id: String,
    pub created_at: String,
    /// The lines between this entry's marker and the next, trimmed.
    pub content: String,
}

/// An [`IdeaEntry`] as a mathematical value.
pub ghost struct IdeaEntryView {
    pub id: Seq<char>,
    pub created_at: Seq<char>,
    pub content: Seq<char>,
}

impl View for IdeaEntry {
    type V = IdeaEntryView;

    open spec fn view(&self) -> IdeaEntryView {
        IdeaEntryView { id: self.id@, created_at: self.created_at@, content: self.content@ }
    }
}

/// The views of a sequence of entries.
pub open spec fn entry_views(entries: Seq<IdeaEntry>) -> Seq<IdeaEntryView> {
    Seq::new(entries.len(), |i: int| entries[i]@)
}

/// The pieces of `s` between white-space characters.
pub open spec fn space_pieces(s: Seq<char>) -> Seq<Seq<char>>
    decreases s.len(),
{
    if s.len() == 0 {
        seq![Seq::<char>::empty()]
    } else {
        let before = space_pieces(s.drop_last());
        if is_space(s.last()) {
            before.push(Seq::<char>::empty())
        } else {
            before.drop_last().push(before.last().push(s.last()))
        }
    }
}

/// The words of `s`: its maximal runs of characters that are not white space.
pub open spec fn words(s: Seq<char>) -> Seq<Seq<char>> {
    non_empty(space_pieces(s))
}

/// `piece` without one carriage return at its end.
pub open spec fn without_cr(piece: Seq<char>) -> Seq<char> {
    if piece.len() > 0 && piece.last() == '\r' {
        piece.drop_last()
    } else {
        piece
    }
}

/// The lines of `s`. A line ends at a line feed, and a carriage return
/// just before the line feed belongs to the line end. Text after the last
/// line feed is a line of its own unless it is empty.
pub open spec fn lines_of(s: Seq<char>) -> Seq<Seq<char>> {
    let pieces = split_on(s, '\n');
    let ended = pieces.drop_last().map_values(|p: Seq<char>| without_cr(p));
    if pieces.last().len() == 0 {
        ended
    } else {
        ended.push(pieces.last())
    }
}

/// The text behind `key` in the last word that begins with `key`.
pub open spec fn last_value(all: Seq<Seq<char>>, key: Seq<char>) -> Option<Seq<char>>
    decreases all.len(),
{
    if all.len() == 0 {
        None
    } else if key.is_prefix_of(all.last()) {
        Some(all.last().subrange(key.len() as int, all.last().len() as int))
    } else {
        last_value(all.drop_last(), key)
    }
}

/// The opening of a marker line.
pub open spec fn marker_open() -> Seq<char> {
    "[//]: # ("@
}

/// The identifier and the creation time that the marker line `line`
/// names. A marker line reads, between white space, `[//]: # (` … `)`; of
/// the words in between, the last `idea:id=` and the last `created_at=`
/// count, and both must be there.
pub open spec fn marker_of(line: Seq<char>) -> Option<(Seq<char>, Seq<char>)> {
    let t = trimmed(line);
    if marker_open().is_prefix_of(t) && t.len() > marker_open().len() && t.last() == ')' {
        let inner = words(t.subrange(marker_open().len() as int, t.len() - 1));
        match (last_value(inner, "idea:id="@), last_value(inner, "created_at="@)) {
            (Some(id), Some(created_at)) => Some((id, created_at)),
            _ => None,
        }
    } else {
        None
    }
}

/// What has been read of an idea file.
pub ghost struct EntryScan {
    pub entries: Seq<IdeaEntryView>,
    /// The marker of the entry being read, if one is.
    pub current: Option<(Seq<char>, Seq<char>)>,
    /// The lines of the entry being read.
    pub buffer: Seq<Seq<char>>,
}

/// `scan` with the entry being read, if one is, added to the entries.
pub open spec fn entry_closed(scan: EntryScan) -> Seq<IdeaEntryView> {
    match scan.current {
        Some((id, created_at)) => scan.entries.push(
            IdeaEntryView { id, created_at, content: trimmed(join(scan.buffer, seq!['\n'])) },
        ),
        None => scan.entries,
    }
}

/// What has been read after all of `lines`.
pub open spec fn scanned(lines: Seq<Seq<char>>) -> EntryScan
    decreases lines.len(),
{
    if lines.len() == 0 {
        EntryScan { entries: Seq::empty(), current: None, buffer: Seq::empty() }
    } else {
        let before = scanned(lines.drop_last());
        match marker_of(lines.last()) {
            Some(marker) => EntryScan {
                entries: entry_closed(before),
                current: Some(marker),
                buffer: Seq::empty(),
            },
            None => if before.current is Some {
                EntryScan { buffer: before.buffer.push(lines.last()), ..before }
            } else {
                before
            },
        }
    }
}

/// The entries of the idea file `content`, in order. Lines before the
/// first marker belong to no entry.
pub open spec fn entries_of(content: Seq<char>) -> Seq<IdeaEntryView> {
    entry_closed(scanned(lines_of(content)))
}

/// The pieces of `v` between white-space characters.
fn split_spaces(v: &Vec<char>) -> (parts: Vec<Vec<char>>)
    ensures
        views(parts@) == space_pieces(v@),
{
    let mut parts: Vec<Vec<char>> = Vec::new();
    let mut current: Vec<char> = Vec::new();
    let mut i: usize = 0;
    assert(v@.subrange(0, 0) == Seq::<char>::empty());
    assert(views(parts@).push(current@) == space_pieces(v@.subrange(0, 0)));
    while i < v.len()
        invariant
            i <= v.len(),
            views(parts@).push(current@) == space_pieces(v@.subrange(0, i as int)),
        decreases v.len() - i,
    {
        let ghost before = views(parts@).push(current@);
        let ghost prefix = v@.subrange(0, i + 1);
        assert(prefix.drop_last() == v@.subrange(0, i as int));
        assert(prefix.last() == v@[i as int]);
        if is_whitespace(v[i]) {
            parts.push(current);
            current = Vec::new();
            assert(views(parts@) == before);
            assert(views(parts@).push(current@) == space_pieces(prefix));
        } else {
            current.push(v[i]);
            assert(before.drop_last() == views(parts@));
            assert(views(parts@).push(current@) == space_pieces(prefix));
        }
        i = i + 1;
    }
    assert(v@.subrange(0, v.len() as int) == v@);
    let ghost before = views(parts@).push(current@);
    parts.push(current);
    assert(views(parts@) == before);
    parts
}

/// The words of `v`.
pub fn split_words(v: &Vec<char>) -> (r: Vec<Vec<char>>)
    ensures
        views(r@) == words(v@),
{
    keep_non_empty(split_spaces(v))
}

/// The lines of `v`.
pub fn split_lines(v: &Vec<char>) -> (r: Vec<Vec<char>>)
    ensures
        views(r@) == lines_of(v@),
{
    let pieces = split_chars(v, '\n');
    proof {
        crate::paths::lemma_split_pieces_free(v@, '\n');
    }
    let ghost all = views(pieces@);
    let mut out: Vec<Vec<char>> = Vec::new();
    let last: usize = pieces.len() - 1;
    let mut i: usize = 0;
    while i < last
        invariant
            i <= last,
            last == pieces.len() - 1,
            all == views(pieces@),
            out.len() == i,
            forall|k: int| 0 <= k < i ==> (#[trigger] out@[k])@ == without_cr(all[k]),
        decreases last - i,
    {
        let p = &pieces[i];
        assert(p@ == all[i as int]);
        let n = p.len();
        if n > 0 && p[n - 1] == '\r' {
            out.push(slice_of(p, 0, n - 1));
        } else {
            out.push(copy_of(p));
        }
        i = i + 1;
    }
    let tail = &pieces[last];
    assert(tail@ == all.last());
    let ghost ended = all.drop_last().map_values(|p: Seq<char>| without_cr(p));
    assert(views(out@) =~= ended);
    if tail.len() > 0 {
        out.push(copy_of(tail));
        assert(views(out@) =~= ended.push(all.last()));
    }
    out
}

/// The text behind `key` in the last word that begins with `key`.
fn find_value(all: &Vec<Vec<char>>, key: &Vec<char>) -> (r: Option<Vec<char>>)
    ensures
        match last_value(views(all@), key@) {
            Some(v) => r is Some && r->0@ == v,
            None => r is None,
        },
{
    let ghost list = views(all@);
    let mut end: usize = all.len();
    assert(list.subrange(0, all.len() as int) =~= list);
    while end > 0
        invariant
            end <= all.len(),
            list == views(all@),
            last_value(list, key@) == last_value(list.subrange(0, end as int), key@),
        decreases end,
    {
        let word = &all[end - 1];
        assert(list.subrange(0, end as int).last() == word@);
        assert(list.subrange(0, end as int).drop_last() =~= list.subrange(0, end - 1));
        if starts_with(word, key) {
            return Some(slice_of(word, key.len(), word.len()));
        }
        end = end - 1;
    }
    None
}

/// The identifier and the creation time that the marker line `line`
/// names, as [`marker_of`] says.
pub fn parse_idea_marker(line: &str) -> (r: Option<(String, String)>)
    ensures
        match marker_of(line@) {
            Some((id, created_at)) => r matches Some(pair) && pair.0@ == id && pair.1@
                == created_at,
            None => r is None,
        },
{
    match marker_chars(&chars_of(line)) {
        Some((id, created_at)) => Some((string_of(&id), string_of(&created_at))),
        None => None,
    }
}

/// [`parse_idea_marker`] on characters.
fn marker_chars(line: &Vec<char>) -> (r: Option<(Vec<char>, Vec<char>)>)
    ensures
        match marker_of(line@) {
            Some((id, created_at)) => r matches Some(pair) && pair.0@ == id && pair.1@
                == created_at,
            None => r is None,
        },
{
    let t = trim_chars(line);
    let open = chars_of("[//]: # (");
    if !starts_with(&t, &open) || t.len() <= open.len() || t[t.len() - 1] != ')' {
        return None;
    }
    let inner = split_words(&slice_of(&t, open.len(), t.len() - 1));
    let id = find_value(&inner, &chars_of("idea:id="));
    let created_at = find_value(&inner, &chars_of("created_at="));
    match (id, created_at) {
        (Some(id), Some(created_at)) => Some((id, created_at)),
        _ => None,
    }
}

/// The entries of the idea file `content`, as [`entries_of`] says.
pub fn parse_idea_entries(content: &str) -> (entries: Vec<IdeaEntry>)
    ensures
        entry_views(entries@) == entries_of(content@),
{
    let lines = split_lines(&chars_of(content));
    let ghost all = views(lines@);
    let mut entries: Vec<IdeaEntry> = Vec::new();
    let mut current: Option<(Vec<char>, Vec<char>)> = None;
    let mut buffer: Vec<Vec<char>> = Vec::new();
    let sep = vec!['\n'];
    assert(sep@ =~= seq!['\n']);
    assert(all.subrange(0, 0) =~= Seq::<Seq<char>>::empty());
    assert(entry_views(entries@) =~= Seq::<IdeaEntryView>::empty());
    assert(views(buffer@) =~= Seq::<Seq<char>>::empty());
    let mut i: usize = 0;
    while i < lines.len()
        invariant
            i <= lines.len(),
            all == views(lines@),
            sep@ == seq!['\n'],
            entry_views(entries@) == scanned(all.subrange(0, i as int)).entries,
            views(buffer@) == scanned(all.subrange(0, i as int)).buffer,
            match scanned(all.subrange(0, i as int)).current {
                Some((id, created_at)) => current matches Some(pair) && pair.0@ == id
                    && pair.1@ == created_at,
                None => current is None,
            },
        decreases lines.len() - i,
    {
        let ghost head = all.subrange(0, i + 1);
        let ghost before = scanned(all.subrange(0, i as int));
        assert(head.drop_last() == all.subrange(0, i as int));
        assert(head.last() == lines@[i as int]@);
        match marker_chars(&lines[i]) {
            Some(marker) => {
                let ghost prev = entry_views(entries@);
                match current {
                    Some((id, created_at)) => {
                        let entry = IdeaEntry {
                            id: string_of(&id),
                            created_at: string_of(&created_at),
                            content: string_of(&trim_chars(&join_chars(&buffer, &sep))),
                        };
                        entries.push(entry);
                        assert(entry_views(entries@) =~= prev.push(entry@));
                    },
                    None => {},
                }
                buffer = Vec::new();
                assert(views(buffer@) =~= Seq::<Seq<char>>::empty());
                current = Some(marker);
            },
            None => {
                if current.is_some() {
                    let ghost prev = views(buffer@);
                    buffer.push(copy_of(&lines[i]));
                    assert(views(buffer@) =~= prev.push(lines@[i as int]@));
                }
            },
        }
        i = i + 1;
    }
    assert(all.subrange(0, lines.len() as int) =~= all);
    let ghost prev = entry_views(entries@);
    match current {
        Some((id, created_at)) => {
            let entry = IdeaEntry {
                id: string_of(&id),
                created_at: string_of(&created_at),
                content: string_of(&trim_chars(&join_chars(&buffer, &sep))),
            };
            entries.push(entry);
            assert(entry_views(entries@) =~= prev.push(entry@));
        },
        None => {},
    }
    entries
}

} // verus!
