//! Cutting a text that has grown too long: the cut falls at the last
//! paragraph break of the window, else after its last sentence end of
//! whatever kind, else after its last clause mark of whatever kind, else
//! before the last white space, else at the window's end. All positions
//! count characters.

use crate::text::{
    is_space, is_whitespace, last_index_of, last_occurrence, rfind_char, rfind_chars, slice_of,
    trim_chars, trim_end, trim_start, trimmed,
};
use vstd::prelude::*;

verus! {

/// The texts that end a sentence.
pub open spec fn sentence_ends() -> Seq<Seq<char>> {
    seq![
        seq!['\u{3002}'],
        seq!['\u{ff01}'],
        seq!['\u{ff1f}'],
        seq!['.', '\n'],
        seq!['!', '\n'],
        seq!['?', '\n'],
        seq!['.', ' '],
        seq!['!', ' '],
        seq!['?', ' '],
    ]
}

/// The characters that end a clause.
pub open spec fn clause_ends() -> Seq<char> {
    seq!['\u{ff0c}', '\u{ff1b}', '\u{3001}', ',', ';']
}

/// The later of two cuts.
pub open spec fn later(a: int, b: int) -> int {
    if a >= b {
        a
    } else {
        b
    }
}

/// The cut behind the last occurrence of `end` in `window`; -1 where it
/// does not occur.
pub open spec fn cut_behind(window: Seq<char>, end: Seq<char>) -> int {
    let at = last_occurrence(window, end, window.len() as int);
    if at >= 0 {
        at + end.len()
    } else {
        -1
    }
}

/// The cut behind the last `mark` in `window`; -1 where it does not occur.
pub open spec fn cut_behind_mark(window: Seq<char>, mark: char) -> int {
    let at = last_index_of(window, mark);
    if at >= 0 {
        at + 1
    } else {
        -1
    }
}

/// The latest cut behind one of the first `k` sentence ends in `window`;
/// -1 where none of them occurs.
pub open spec fn sentence_split(window: Seq<char>, k: int) -> int
    decreases k,
{
    if k <= 0 || k > sentence_ends().len() {
        -1
    } else {
        later(sentence_split(window, k - 1), cut_behind(window, sentence_ends()[k - 1]))
    }
}

/// The latest cut behind one of the first `k` clause marks in `window`;
/// -1 where none of them occurs.
pub open spec fn clause_split(window: Seq<char>, k: int) -> int
    decreases k,
{
    if k <= 0 || k > clause_ends().len() {
        -1
    } else {
        later(clause_split(window, k - 1), cut_behind_mark(window, clause_ends()[k - 1]))
    }
}

/// The cut behind the last sentence end in `window`, of whatever kind; -1
/// where it has none.
pub open spec fn last_sentence_cut(window: Seq<char>) -> int {
    sentence_split(window, sentence_ends().len() as int)
}

/// The cut behind the last clause mark in `window`, of whatever kind; -1
/// where it has none.
pub open spec fn last_clause_cut(window: Seq<char>) -> int {
    clause_split(window, clause_ends().len() as int)
}

/// The index of the last white space in `s`, or -1.
pub open spec fn last_space_index(s: Seq<char>) -> int
    decreases s.len(),
{
    if s.len() == 0 {
        -1
    } else if is_space(s.last()) {
        s.len() - 1
    } else {
        last_space_index(s.drop_last())
    }
}

/// Where `window` is cut at a natural boundary, or -1 where it has none.
pub open spec fn split_point(window: Seq<char>) -> int {
    let paragraph = last_occurrence(window, seq!['\n', '\n'], window.len() as int);
    if paragraph >= 0 {
        paragraph
    } else if last_sentence_cut(window) >= 0 {
        last_sentence_cut(window)
    } else if last_clause_cut(window) >= 0 {
        last_clause_cut(window)
    } else {
        last_space_index(window)
    }
}

/// Where the remainder begins for a cut at `cut`: `overlap` characters
/// before the cut, but not before the start.
pub open spec fn overlap_start(cut: int, overlap: int) -> int {
    if cut - overlap > 0 {
        cut - overlap
    } else {
        0
    }
}

/// A text of more than `max` characters as a chunk of at most `max`
/// characters and a remainder that repeats up to `overlap` characters of
/// the chunk. At a natural boundary both are trimmed; a text with no
/// boundary in its first `max` characters is cut there as it is. A text
/// of at most `max` characters is the chunk, with no remainder.
pub open spec fn split_text(text: Seq<char>, max: int, overlap: int) -> (Seq<char>, Seq<char>) {
    if text.len() <= max {
        (text, Seq::empty())
    } else {
        let window = text.subrange(0, max);
        let cut = split_point(window);
        if cut >= 0 {
            (
                trimmed(text.subrange(0, cut)),
                trimmed(text.subrange(overlap_start(cut, overlap), text.len() as int)),
            )
        } else {
            (window, text.subrange(overlap_start(max, overlap), text.len() as int))
        }
    }
}

/// The last occurrence of a pattern among the first `n` characters ends
/// within them.
pub proof fn lemma_last_occurrence_bound(s: Seq<char>, pat: Seq<char>, n: int)
    ensures
        -1 <= last_occurrence(s, pat, n),
        last_occurrence(s, pat, n) >= 0 ==> last_occurrence(s, pat, n) + pat.len() <= n && n
            <= s.len(),
    decreases n,
{
    if n < pat.len() || n > s.len() {
    } else if crate::text::occurs_at(s, pat, n - pat.len()) {
    } else if n == 0 {
    } else {
        lemma_last_occurrence_bound(s, pat, n - 1);
    }
}

/// The cut behind the last sentence end lies within the window, no
/// sentence end of the first `k` kinds ends behind it, and one of them ends
/// at it.
pub proof fn lemma_sentence_split(window: Seq<char>, k: int)
    requires
        0 <= k <= sentence_ends().len(),
    ensures
        -1 <= sentence_split(window, k) <= window.len(),
        forall|j: int|
            0 <= j < k ==> cut_behind(window, #[trigger] sentence_ends()[j]) <= sentence_split(
                window,
                k,
            ),
        sentence_split(window, k) >= 0 ==> exists|j: int|
            0 <= j < k && cut_behind(window, #[trigger] sentence_ends()[j]) == sentence_split(
                window,
                k,
            ),
    decreases k,
{
    if k > 0 {
        lemma_last_occurrence_bound(window, sentence_ends()[k - 1], window.len() as int);
        lemma_sentence_split(window, k - 1);
        let cut = sentence_split(window, k);
        if cut >= 0 {
            if cut == cut_behind(window, sentence_ends()[k - 1]) {
            } else {
                let j = choose|j: int|
                    0 <= j < k - 1 && cut_behind(window, #[trigger] sentence_ends()[j])
                        == sentence_split(window, k - 1);
                assert(cut_behind(window, sentence_ends()[j]) == cut);
            }
        }
    }
}

/// The cut behind the last clause mark lies within the window, no clause
/// mark of the first `k` kinds stands behind it, and one of them stands
/// before it.
pub proof fn lemma_clause_split(window: Seq<char>, k: int)
    requires
        0 <= k <= clause_ends().len(),
    ensures
        -1 <= clause_split(window, k) <= window.len(),
        forall|j: int|
            0 <= j < k ==> cut_behind_mark(window, #[trigger] clause_ends()[j]) <= clause_split(
                window,
                k,
            ),
        clause_split(window, k) >= 0 ==> exists|j: int|
            0 <= j < k && cut_behind_mark(window, #[trigger] clause_ends()[j]) == clause_split(
                window,
                k,
            ),
    decreases k,
{
    if k > 0 {
        crate::paths::lemma_last_index_of(window, clause_ends()[k - 1]);
        lemma_clause_split(window, k - 1);
        let cut = clause_split(window, k);
        if cut >= 0 {
            if cut == cut_behind_mark(window, clause_ends()[k - 1]) {
            } else {
                let j = choose|j: int|
                    0 <= j < k - 1 && cut_behind_mark(window, #[trigger] clause_ends()[j])
                        == clause_split(window, k - 1);
                assert(cut_behind_mark(window, clause_ends()[j]) == cut);
            }
        }
    }
}

/// The last white space lies within the text.
pub proof fn lemma_last_space_bound(s: Seq<char>)
    ensures
        -1 <= last_space_index(s) < s.len(),
    decreases s.len(),
{
    if s.len() > 0 && !is_space(s.last()) {
        lemma_last_space_bound(s.drop_last());
    }
}

/// Trimming never makes a text longer.
pub proof fn lemma_trimmed_len(s: Seq<char>)
    ensures
        trimmed(s).len() <= s.len(),
        trim_start(s).len() <= s.len(),
        trim_end(s).len() <= s.len(),
    decreases s.len(),
{
    if s.len() > 0 {
        lemma_trimmed_len(s.drop_first());
        lemma_trimmed_len(s.drop_last());
    }
    lemma_trim_end_len(trim_start(s));
}

proof fn lemma_trim_end_len(s: Seq<char>)
    ensures
        trim_end(s).len() <= s.len(),
    decreases s.len(),
{
    if s.len() > 0 {
        lemma_trim_end_len(s.drop_last());
    }
}

/// A cut at a natural boundary lies within the window.
pub proof fn lemma_split_point_bound(window: Seq<char>)
    ensures
        -1 <= split_point(window) <= window.len(),
{
    lemma_last_occurrence_bound(window, seq!['\n', '\n'], window.len() as int);
    lemma_sentence_split(window, sentence_ends().len() as int);
    lemma_clause_split(window, clause_ends().len() as int);
    lemma_last_space_bound(window);
}

/// The chunk that a split hands out is never longer than the limit.
pub proof fn lemma_split_chunk_bounded(text: Seq<char>, max: int, overlap: int)
    requires
        0 <= max,
        text.len() > max,
    ensures
        split_text(text, max, overlap).0.len() <= max,
{
    let window = text.subrange(0, max);
    lemma_split_point_bound(window);
    let cut = split_point(window);
    if cut >= 0 {
        lemma_trimmed_len(text.subrange(0, cut));
    }
}

/// The sentence ends as character vectors.
fn sentence_end_list() -> (list: Vec<Vec<char>>)
    ensures
        crate::text::views(list@) == sentence_ends(),
{
    let mut list: Vec<Vec<char>> = Vec::new();
    list.push(vec!['\u{3002}']);
    list.push(vec!['\u{ff01}']);
    list.push(vec!['\u{ff1f}']);
    list.push(vec!['.', '\n']);
    list.push(vec!['!', '\n']);
    list.push(vec!['?', '\n']);
    list.push(vec!['.', ' ']);
    list.push(vec!['!', ' ']);
    list.push(vec!['?', ' ']);
    assert(crate::text::views(list@) =~= sentence_ends()) by {
        assert forall|i: int| 0 <= i < 9 implies crate::text::views(list@)[i] =~= sentence_ends()[i] by {}
    }
    list
}

/// The clause marks as a vector.
fn clause_end_list() -> (list: Vec<char>)
    ensures
        list@ == clause_ends(),
{
    let list = vec!['\u{ff0c}', '\u{ff1b}', '\u{3001}', ',', ';'];
    assert(list@ =~= clause_ends());
    list
}

/// The index of the last white space in `v`.
fn rfind_space(v: &Vec<char>) -> (r: Option<usize>)
    ensures
        match r {
            Some(i) => i as int == last_space_index(v@) && i < v.len(),
            None => last_space_index(v@) == -1,
        },
{
    let mut end: usize = v.len();
    assert(v@.subrange(0, v.len() as int) == v@);
    while end > 0
        invariant
            end <= v.len(),
            last_space_index(v@) == last_space_index(v@.subrange(0, end as int)),
        decreases end,
    {
        assert(v@.subrange(0, end as int).drop_last() == v@.subrange(0, end - 1));
        if is_whitespace(v[end - 1]) {
            return Some(end - 1);
        }
        end = end - 1;
    }
    None
}

/// The later of the cut found so far, if any, and `cut`.
fn later_of(best: Option<usize>, cut: usize) -> (r: usize)
    ensures
        r as int == later(
            match best {
                Some(b) => b as int,
                None => -1,
            },
            cut as int,
        ),
{
    match best {
        Some(b) => if b >= cut {
            b
        } else {
            cut
        },
        None => cut,
    }
}

/// Where `window` is cut at a natural boundary.
pub fn find_split_point(window: &Vec<char>) -> (r: Option<usize>)
    ensures
        match r {
            Some(cut) => cut as int == split_point(window@) && cut <= window.len(),
            None => split_point(window@) == -1,
        },
{
    proof {
        lemma_last_occurrence_bound(window@, seq!['\n', '\n'], window.len() as int);
        lemma_last_space_bound(window@);
    }
    let paragraph = vec!['\n', '\n'];
    assert(paragraph@ =~= seq!['\n', '\n']);
    match rfind_chars(window, &paragraph, window.len()) {
        Some(at) => {
            return Some(at);
        },
        None => {},
    }
    let sentences = sentence_end_list();
    let mut best: Option<usize> = None;
    let mut k: usize = 0;
    while k < sentences.len()
        invariant
            k <= sentences.len(),
            crate::text::views(sentences@) == sentence_ends(),
            match best {
                Some(cut) => cut as int == sentence_split(window@, k as int) && cut <= window.len(),
                None => sentence_split(window@, k as int) == -1,
            },
        decreases sentences.len() - k,
    {
        assert(sentences@[k as int]@ == sentence_ends()[k as int]);
        proof {
            lemma_sentence_split(window@, k as int);
        }
        match rfind_chars(window, &sentences[k], window.len()) {
            Some(at) => {
                best = Some(later_of(best, at + sentences[k].len()));
            },
            None => {},
        }
        k = k + 1;
    }
    match best {
        Some(cut) => {
            return Some(cut);
        },
        None => {},
    }
    let clauses = clause_end_list();
    let mut c: usize = 0;
    while c < clauses.len()
        invariant
            c <= clauses.len(),
            clauses@ == clause_ends(),
            last_sentence_cut(window@) == -1,
            match best {
                Some(cut) => cut as int == clause_split(window@, c as int) && cut <= window.len(),
                None => clause_split(window@, c as int) == -1,
            },
        decreases clauses.len() - c,
    {
        proof {
            lemma_clause_split(window@, c as int);
        }
        match rfind_char(window, clauses[c]) {
            Some(at) => {
                best = Some(later_of(best, at + 1));
            },
            None => {},
        }
        c = c + 1;
    }
    match best {
        Some(cut) => {
            return Some(cut);
        },
        None => {},
    }
    rfind_space(window)
}

/// [`split_text`] on characters.
pub fn split_chars(text: &Vec<char>, max: usize, overlap: usize) -> (r: (Vec<char>, Vec<char>))
    ensures
        (r.0@, r.1@) == split_text(text@, max as int, overlap as int),
        text@.len() > max ==> r.0@.len() <= max,
{
    if text.len() <= max {
        assert(text@.subrange(0, text.len() as int) == text@);
        return (slice_of(text, 0, text.len()), Vec::new());
    }
    proof {
        lemma_split_chunk_bounded(text@, max as int, overlap as int);
    }
    let window = slice_of(text, 0, max);
    match find_split_point(&window) {
        Some(cut) => {
            let start: usize = if cut > overlap {
                cut - overlap
            } else {
                0
            };
            let head = slice_of(text, 0, cut);
            let tail = slice_of(text, start, text.len());
            (trim_chars(&head), trim_chars(&tail))
        },
        None => {
            let start: usize = if max > overlap {
                max - overlap
            } else {
                0
            };
            (window, slice_of(text, start, text.len()))
        },
    }
}

} // verus!
